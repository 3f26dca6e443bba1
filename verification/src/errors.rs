//! Errors that the supervisor surfaces to its callers.

use vstd::prelude::*;
use crate::types::{PeerId, Status};

verus! {

/// Failure of the transport that carries evidence to a full node.
#[derive(Debug, PartialEq, Eq)]
pub struct IoError {
    pub detail: String,
}

/// Failure of a light client to verify a block.
#[derive(Debug, PartialEq, Eq)]
pub struct VerificationError {
    pub detail: String,
}

/// What can go wrong while the supervisor serves a request.
#[derive(Debug, PartialEq, Eq)]
pub enum Error {
    /// The peer list holds no primary.
    NoPrimary,
    /// Verification failed and no witness is left to promote.
    NoWitnessLeft,
    /// Fork detection was asked for with no witness to consult.
    NoWitnesses,
    /// The store holds no block of the given status.
    NoTrustedState(Status),
    /// A fork was confirmed; evidence went to the listed peers.
    ForkDetected(Vec<PeerId>),
    /// The evidence reporter's transport failed.
    Io(IoError),
    /// A peer did not answer in time.
    Timeout(PeerId),
    /// A collaborator failed in a way of its own.
    Other(String),
    /// The supervisor is gone.
    ChannelClosed,
}

} // verus!
