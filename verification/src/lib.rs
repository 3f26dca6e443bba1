//! Coordination core of a light client: a supervisor that verifies block
//! headers through a primary peer, cross-checks them against witnesses,
//! reports evidence of forks and rotates peers that fail.

pub mod errors;
pub mod evidence;
pub mod fork_detector;
pub mod handle;
pub mod peer_list;
pub mod store;
pub mod supervisor;
pub mod types;
