//! Plain data that the supervisor passes around.

use vstd::prelude::*;

verus! {

/// Index of a block in the chain.
pub type Height = u64;

/// Identifier of a full node.
pub type PeerId = u64;

/// Trust status of a block inside a light store.
#[derive(Clone, Copy, Debug, PartialEq, Eq, Structural)]
pub enum Status {
    Unverified,
    Verified,
    Trusted,
    Failed,
}

/// A header together with the commit that signs it, reduced to the height
/// it stands at and the digests that identify it.
#[derive(Clone, Copy, Debug, PartialEq, Eq, Structural)]
pub struct SignedHeader {
    pub height: Height,
    pub header_hash: u64,
    pub commit_hash: u64,
}

/// One block as seen from one peer.
#[derive(Clone, Copy, Debug, PartialEq, Eq, Structural)]
pub struct LightBlock {
    pub signed_header: SignedHeader,
    pub validators_hash: u64,
    pub next_validators_hash: u64,
    pub provider: PeerId,
}

impl LightBlock {
    /// The height the block stands at.
    pub open spec fn spec_height(&self) -> Height {
        self.signed_header.height
    }

    /// The height the block stands at.
    #[verifier::when_used_as_spec(spec_height)]
    pub fn height(&self) -> (h: Height)
        ensures
            h == self.spec_height(),
    {
        self.signed_header.height
    }
}

} // verus!
