//! Evidence of misbehaviour and the interface through which it is reported.

use vstd::prelude::*;
use crate::errors::IoError;
use crate::types::{LightBlock, PeerId, SignedHeader};

verus! {

/// Two signed headers that differ at one height.
#[derive(Clone, Copy, Debug, PartialEq, Eq, Structural)]
pub struct ConflictingHeadersEvidence {
    pub h1: SignedHeader,
    pub h2: SignedHeader,
}

impl ConflictingHeadersEvidence {
    /// Wraps the two headers as they are.
    pub fn new(h1: SignedHeader, h2: SignedHeader) -> (e: Self)
        ensures
            e.h1 == h1,
            e.h2 == h2,
    {
        ConflictingHeadersEvidence { h1, h2 }
    }
}

/// Evidence that can be submitted to a full node.
#[derive(Clone, Copy, Debug, PartialEq, Eq, Structural)]
pub enum Evidence {
    ConflictingHeaders(ConflictingHeadersEvidence),
}

/// Content hash of an accepted submission.
#[derive(Debug, PartialEq, Eq)]
pub struct EvidenceHash {
    pub bytes: Vec<u8>,
}

/// The evidence that a fork between the primary's block and a witness's
/// block gives rise to.
pub open spec fn fork_evidence(primary: LightBlock, witness: LightBlock) -> Evidence {
    Evidence::ConflictingHeaders(
        ConflictingHeadersEvidence { h1: primary.signed_header, h2: witness.signed_header },
    )
}

/// Builds the evidence of a fork from the two blocks that disagree.
pub fn conflicting_headers(primary: &LightBlock, witness: &LightBlock) -> (e: Evidence)
    ensures
        e == fork_evidence(*primary, *witness),
{
    Evidence::ConflictingHeaders(
        ConflictingHeadersEvidence::new(primary.signed_header, witness.signed_header),
    )
}

/// Interface for reporting evidence to full nodes. Nothing is promised of
/// an implementation beyond what it says of itself: a submission may fail
/// at any time.
pub trait EvidenceReporter {
    /// What this reporter says of one submission: that `r` is its answer to
    /// the evidence `e` submitted to `peer`. A reporter that says nothing
    /// of itself leaves every answer possible.
    open spec fn answers(
        &self,
        e: Evidence,
        peer: PeerId,
        r: Result<EvidenceHash, IoError>,
    ) -> bool {
        true
    }

    /// Submits the evidence to the given peer.
    fn report(&self, e: Evidence, peer: PeerId) -> (r: Result<EvidenceHash, IoError>)
        ensures
            self.answers(e, peer, r),
    ;
}

} // verus!
