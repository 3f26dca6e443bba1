//! Verdicts of fork detection.

use vstd::prelude::*;
use crate::errors::{Error, IoError};
use crate::evidence::{fork_evidence, Evidence, EvidenceHash, EvidenceReporter};
use crate::types::{LightBlock, PeerId};

verus! {

/// What consulting one witness brought to light.
#[derive(Debug, PartialEq, Eq)]
pub enum Fork {
    /// The witness's header differs from the primary's at the same height.
    Forked { primary: LightBlock, witness: LightBlock },
    /// The witness did not answer in time.
    Timeout(PeerId, Error),
    /// The witness answered with a block that cannot be used.
    Faulty(LightBlock, Error),
}

/// Verdict of one round of fork detection.
#[derive(Debug, PartialEq, Eq)]
pub enum ForkDetection {
    Detected(Vec<Fork>),
    NotDetected,
}

/// The peer that a fork speaks of: the witness whose block differs, that
/// did not answer, or whose answer cannot be used.
pub open spec fn fork_peer(f: Fork) -> PeerId {
    match f {
        Fork::Forked { primary, witness } => witness.provider,
        Fork::Timeout(peer, _) => peer,
        Fork::Faulty(block, _) => block.provider,
    }
}

/// The peers whose blocks differ from the primary's, in the order of the
/// forks.
pub open spec fn forked_peers(forks: Seq<Fork>) -> Seq<PeerId>
    decreases forks.len(),
{
    if forks.len() == 0 {
        Seq::empty()
    } else if forks.last() is Forked {
        forked_peers(forks.drop_last()).push(fork_peer(forks.last()))
    } else {
        forked_peers(forks.drop_last())
    }
}

/// What is handed to the reporter for one real fork.
pub ghost struct Submission {
    pub evidence: Evidence,
    pub peer: PeerId,
}

/// What the real forks among `forks` call for, in order: for each, the
/// evidence of the primary's header against the witness's, submitted to
/// the witness's provider.
pub open spec fn submissions(forks: Seq<Fork>) -> Seq<Submission>
    decreases forks.len(),
{
    if forks.len() == 0 {
        Seq::empty()
    } else {
        match forks.last() {
            Fork::Forked { primary, witness } => submissions(forks.drop_last()).push(
                Submission { evidence: fork_evidence(primary, witness), peer: witness.provider },
            ),
            _ => submissions(forks.drop_last()),
        }
    }
}

/// `answers` holds the reporter's answer to each of the submissions, in
/// order, and to nothing else.
pub open spec fn answered<R: EvidenceReporter>(
    reporter: &R,
    asked: Seq<Submission>,
    answers: Seq<Result<EvidenceHash, IoError>>,
) -> bool {
    &&& answers.len() == asked.len()
    &&& forall|i: int|
        0 <= i < answers.len() ==> reporter.answers(
            #[trigger] asked[i].evidence,
            asked[i].peer,
            answers[i],
        )
}

/// There is one submission for each forked peer, and it goes to that peer.
pub proof fn lemma_submissions_reach_forked_peers(forks: Seq<Fork>)
    ensures
        submissions(forks).len() == forked_peers(forks).len(),
        forall|i: int|
            0 <= i < forked_peers(forks).len() ==> (#[trigger] submissions(forks)[i]).peer
                == forked_peers(forks)[i],
    decreases forks.len(),
{
    if forks.len() > 0 {
        lemma_submissions_reach_forked_peers(forks.drop_last());
    }
}

} // verus!
