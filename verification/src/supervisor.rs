//! The supervisor: one primary peer through which blocks are verified,
//! witnesses that cross-check it, and the decisions taken on each outcome.

use vstd::prelude::*;
use crate::errors::{Error, IoError, VerificationError};
use crate::evidence::{conflicting_headers, fork_evidence, EvidenceHash, EvidenceReporter};
use crate::fork_detector::{
    answered, forked_peers, lemma_submissions_reach_forked_peers, submissions, Fork, ForkDetection,
};
use crate::peer_list::{
    exclude_all, lemma_exclude_all, lemma_forked_were_accepted, lemma_pass_forks_prefix,
    lemma_swap_keeps_faulty, pass_forks,
    ForkPass, PeerList, PeerListView,
};
use crate::store::{has_status, is_highest, State, StoreEntry};
use crate::types::{Height, LightBlock, PeerId, Status};

verus! {

/// A light client together with the state it works on.
#[derive(Debug)]
pub struct Instance<C> {
    /// The light client of this instance.
    pub light_client: C,
    /// The state of the light client of this instance.
    pub state: State,
}

impl<C> Instance<C> {
    /// The blocks this instance holds, by height.
    pub open spec fn store(&self) -> Map<Height, StoreEntry> {
        self.state.light_store@
    }

    /// Packages the light client with its state.
    pub fn new(light_client: C, state: State) -> (r: Self)
        ensures
            r.light_client == light_client,
            r.state == state,
    {
        Self { light_client, state }
    }

    /// The highest trusted block of this instance, if it has one.
    pub fn latest_trusted(&self) -> (r: Option<LightBlock>)
        ensures
            match r {
                Some(b) => is_highest(self.store(), Status::Trusted, b),
                None => !has_status(self.store(), Status::Trusted),
            },
    {
        self.state.light_store.highest(Status::Trusted)
    }

    /// Stores the block as trusted, in place of whatever stood at its height.
    pub fn trust_block(&mut self, lb: &LightBlock)
        ensures
            final(self).store() == old(self).store().insert(
                lb.spec_height(),
                StoreEntry { block: *lb, status: Status::Trusted },
            ),
            final(self).light_client == old(self).light_client,
    {
        self.state.light_store.update(lb, Status::Trusted);
    }
}

/// What the supervisor needs next to go on with a verification, or how
/// the verification ended.
#[derive(Debug, PartialEq, Eq)]
pub enum Step {
    /// Run the primary's light client on the primary's state: to the
    /// target, or to the highest block where there is none.
    Verify { target: Option<Height> },
    /// Consult the witnesses on the verified block, against the trusted one.
    DetectForks { verified: LightBlock, trusted: LightBlock },
    /// The verification is over.
    Done(Result<LightBlock, Error>),
}

/// A request that a handle sends to the supervisor.
#[derive(Clone, Copy, Debug, PartialEq, Eq, Structural)]
pub enum Request {
    Terminate,
    VerifyToHighest,
    VerifyToTarget(Height),
    LatestTrusted,
}

/// What the supervisor does with a request.
#[derive(Debug, PartialEq, Eq)]
pub enum Dispatch {
    /// Acknowledge, and stop serving.
    Stop,
    /// Answer with the latest trusted block.
    Answer(Result<Option<LightBlock>, Error>),
    /// Go through a verification, from this step on, and answer with
    /// how it ends.
    Run(Step),
}

/// Thread-safe access to a supervisor.
pub trait Handle {
    /// Gets the latest trusted block from the supervisor.
    fn latest_trusted(&self) -> Result<Option<LightBlock>, Error>;

    /// Verifies to the highest block.
    fn verify_to_highest(&self) -> Result<LightBlock, Error>;

    /// Verifies to the block at the given height.
    fn verify_to_target(&self, height: Height) -> Result<LightBlock, Error>;

    /// Terminates the supervisor.
    fn terminate(&self);
}

/// Maps what the reporter answered to the supervisor's own result: the
/// peer joins the forked peers exactly when its evidence was accepted,
/// and a failed submission comes back as an I/O error.
pub fn record_report(
    forked: &mut Vec<PeerId>,
    provider: PeerId,
    outcome: Result<EvidenceHash, IoError>,
) -> (r: Result<(), Error>)
    ensures
        match outcome {
            Ok(_) => r is Ok && final(forked)@ == old(forked)@.push(provider),
            Err(e) => r == Err::<(), Error>(Error::Io(e)) && final(forked)@ == old(forked)@,
        },
{
    match outcome {
        Ok(_) => {
            forked.push(provider);
            Ok(())
        },
        Err(e) => Err(Error::Io(e)),
    }
}

/// How a verification goes on once the forks were handled: it fails with
/// the error of the handling, or with the forked peers where there are
/// any, and starts over otherwise.
pub fn after_forks(target: Option<Height>, processed: Result<Vec<PeerId>, Error>) -> (r: Step)
    ensures
        match processed {
            Err(e) => r == Step::Done(Err(e)),
            Ok(forked) => if forked@.len() > 0 {
                r == Step::Done(Err(Error::ForkDetected(forked)))
            } else {
                r == (Step::Verify { target })
            },
        },
{
    match processed {
        Err(e) => Step::Done(Err(e)),
        Ok(forked) => {
            if forked.len() > 0 {
                Step::Done(Err(Error::ForkDetected(forked)))
            } else {
                Step::Verify { target }
            }
        },
    }
}

/// The supervisor manages the peers: the primary, through which blocks
/// are verified, and the witnesses, which are consulted to detect forks.
/// It decides; running the light client and the fork detector is left to
/// its caller, which hands back what they returned.
#[derive(Debug)]
pub struct Supervisor<C> {
    /// The peers: primary, witnesses and faulty peers.
    pub peers: PeerList<C>,
}

impl<C> Supervisor<C> {
    /// A supervisor of the given peers.
    pub fn new(peers: PeerList<C>) -> (r: Self)
        ensures
            r.peers == peers,
    {
        Supervisor { peers }
    }

    /// The latest trusted block of the primary. Fails with `NoPrimary`
    /// exactly where there is no primary.
    pub fn latest_trusted(&self) -> (r: Result<Option<LightBlock>, Error>)
        ensures
            match self.peers@.primary {
                None => r == Err::<Option<LightBlock>, Error>(Error::NoPrimary),
                Some(p) => match r {
                    Ok(Some(b)) => is_highest(p.store, Status::Trusted, b),
                    Ok(None) => !has_status(p.store, Status::Trusted),
                    Err(_) => false,
                },
            },
    {
        match self.peers.primary() {
            Some(primary) => Ok(primary.latest_trusted()),
            None => Err(Error::NoPrimary),
        }
    }

    /// Opens a verification to the highest block or to the target. Fails
    /// with `NoPrimary` exactly where there is no primary.
    pub fn verify(&self, target: Option<Height>) -> (r: Step)
        ensures
            r == (if self.peers@.primary is Some {
                Step::Verify { target }
            } else {
                Step::Done(Err(Error::NoPrimary))
            }),
    {
        match self.peers.primary_id() {
            Some(_) => Step::Verify { target },
            None => Step::Done(Err(Error::NoPrimary)),
        }
    }

    /// Opens a verification to the highest block.
    pub fn verify_to_highest(&self) -> (r: Step)
        ensures
            r == (if self.peers@.primary is Some {
                Step::Verify { target: None }
            } else {
                Step::Done(Err(Error::NoPrimary))
            }),
    {
        self.verify(None)
    }

    /// Opens a verification to the block at the given height.
    pub fn verify_to_target(&self, height: Height) -> (r: Step)
        ensures
            r == (if self.peers@.primary is Some {
                Step::Verify { target: Some(height) }
            } else {
                Step::Done(Err(Error::NoPrimary))
            }),
    {
        self.verify(Some(height))
    }

    /// The head of each round of a verification: another run of the
    /// primary's light client, or `NoWitnessLeft` where no primary remains.
    pub fn next_round(&self, target: Option<Height>) -> (r: Step)
        ensures
            r == (if self.peers@.primary is Some {
                Step::Verify { target }
            } else {
                Step::Done(Err(Error::NoWitnessLeft))
            }),
    {
        match self.peers.primary_id() {
            Some(_) => Step::Verify { target },
            None => Step::Done(Err(Error::NoWitnessLeft)),
        }
    }

    /// What to do with a request.
    pub fn dispatch(&self, request: Request) -> (r: Dispatch)
        ensures
            match request {
                Request::Terminate => r == Dispatch::Stop,
                Request::VerifyToHighest => r == Dispatch::Run(
                    if self.peers@.primary is Some {
                        Step::Verify { target: None }
                    } else {
                        Step::Done(Err(Error::NoPrimary))
                    },
                ),
                Request::VerifyToTarget(h) => r == Dispatch::Run(
                    if self.peers@.primary is Some {
                        Step::Verify { target: Some(h) }
                    } else {
                        Step::Done(Err(Error::NoPrimary))
                    },
                ),
                Request::LatestTrusted => match self.peers@.primary {
                    None => r == Dispatch::Answer(Err(Error::NoPrimary)),
                    Some(p) => match r {
                        Dispatch::Answer(Ok(Some(b))) => is_highest(p.store, Status::Trusted, b),
                        Dispatch::Answer(Ok(None)) => !has_status(p.store, Status::Trusted),
                        _ => false,
                    },
                },
            },
    {
        match request {
            Request::Terminate => Dispatch::Stop,
            Request::VerifyToHighest => Dispatch::Run(self.verify_to_highest()),
            Request::VerifyToTarget(h) => Dispatch::Run(self.verify_to_target(h)),
            Request::LatestTrusted => Dispatch::Answer(self.latest_trusted()),
        }
    }

    /// Takes the verdict of the primary's light client.
    ///
    /// Without a primary the verification fails with `NoPrimary`. A
    /// failed verification replaces the primary and starts over, or ends
    /// with `NoWitnessLeft` where no witness is left. A verified block
    /// goes to fork detection, against the primary's latest trusted
    /// block; it fails with `NoTrustedState` where the primary has none,
    /// and with `NoWitnesses` where there is no witness to consult.
    pub fn on_verdict(
        &mut self,
        target: Option<Height>,
        verdict: Result<LightBlock, VerificationError>,
    ) -> (r: Step)
        ensures
            old(self).peers.wf() ==> final(self).peers.wf(),
            match (old(self).peers@.primary, verdict) {
                (None, _) => r == Step::Done(Err(Error::NoPrimary)) && final(self).peers@ == old(
                    self,
                ).peers@,
                (Some(_), Err(_)) => if old(self).peers@.witnesses.len() > 0 {
                    &&& r == (Step::Verify { target })
                    &&& final(self).peers@ == old(self).peers@.swap_primary()
                } else {
                    &&& r == Step::Done(Err(Error::NoWitnessLeft))
                    &&& final(self).peers@ == old(self).peers@
                },
                (Some(p), Ok(lb)) => {
                    &&& final(self).peers@ == old(self).peers@
                    &&& if !has_status(p.store, Status::Trusted) {
                        r == Step::Done(Err(Error::NoTrustedState(Status::Trusted)))
                    } else if old(self).peers@.witnesses.len() == 0 {
                        r == Step::Done(Err(Error::NoWitnesses))
                    } else {
                        r matches Step::DetectForks { verified, trusted } && verified == lb
                            && is_highest(p.store, Status::Trusted, trusted)
                    }
                },
            },
            r is Verify ==> final(self).peers@.primary is Some,
            forall|id: PeerId|
                old(self).peers@.is_faulty(id) ==> final(self).peers@.is_faulty(id),
            final(self).peers@.witnesses.len() <= old(self).peers@.witnesses.len(),
    {
        proof {
            assert forall|id: PeerId| old(self).peers@.is_faulty(id) implies old(
                self,
            ).peers@.swap_primary().is_faulty(id) by {
                lemma_swap_keeps_faulty(old(self).peers@, id);
            }
        }
        let latest = match self.peers.primary() {
            Some(primary) => primary.latest_trusted(),
            None => {
                return Step::Done(Err(Error::NoPrimary));
            },
        };
        match verdict {
            Ok(light_block) => {
                let trusted = match latest {
                    Some(t) => t,
                    None => {
                        return Step::Done(Err(Error::NoTrustedState(Status::Trusted)));
                    },
                };
                match self.detect_forks() {
                    Ok(()) => Step::DetectForks { verified: light_block, trusted },
                    Err(e) => Step::Done(Err(e)),
                }
            },
            Err(_) => match self.peers.swap_primary() {
                Ok(()) => Step::Verify { target },
                Err(e) => Step::Done(Err(e)),
            },
        }
    }

    /// Whether fork detection can be asked for: it fails with
    /// `NoWitnesses` exactly where there is no witness to consult.
    pub fn detect_forks(&self) -> (r: Result<(), Error>)
        ensures
            r == (if self.peers@.witnesses.len() == 0 {
                Err::<(), Error>(Error::NoWitnesses)
            } else {
                Ok(())
            }),
    {
        if self.peers.has_no_witness() {
            Err(Error::NoWitnesses)
        } else {
            Ok(())
        }
    }

    /// Submits the evidence of a fork between the two blocks, the
    /// primary's header first, to the witness's provider, and hands back
    /// what the reporter answered to that.
    fn report_evidence<R: EvidenceReporter>(
        reporter: &R,
        primary: &LightBlock,
        witness: &LightBlock,
    ) -> (r: Result<EvidenceHash, IoError>)
        ensures
            reporter.answers(fork_evidence(*primary, *witness), witness.provider, r),
    {
        let evidence = conflicting_headers(primary, witness);
        reporter.report(evidence, witness.provider)
    }

    /// Handles the forks in order: evidence of each real fork is reported
    /// to the witness that showed it, and each witness that was silent or
    /// unusable is excluded.
    ///
    /// On success every fork was handled, and the result lists the peers
    /// of the real forks, each after its evidence was accepted. Handling
    /// stops at the first submission that fails, with an I/O error; the
    /// witnesses excluded up to there stay excluded.
    pub fn process_forks<R: EvidenceReporter>(&mut self, forks: Vec<Fork>, reporter: &R) -> (r:
        Result<Vec<PeerId>, Error>)
        ensures
            old(self).peers.wf() ==> final(self).peers.wf(),
            match r {
                Ok(forked) => {
                    &&& forked@ == forked_peers(forks@)
                    &&& final(self).peers@ == exclude_all(old(self).peers@, forks@)
                    &&& exists|answers: Seq<Result<EvidenceHash, IoError>>|
                        answered(reporter, submissions(forks@), answers) && pass_forks(
                            old(self).peers@,
                            forks@,
                            answers,
                        ) == (ForkPass {
                            peers: final(self).peers@,
                            forked: forked@,
                            failure: None,
                            asked: answers.len(),
                        })
                },
                Err(e) => {
                    &&& e is Io
                    &&& exists|k: int|
                        0 <= k < forks@.len() && forks@[k] is Forked && final(self).peers@
                            == exclude_all(old(self).peers@, forks@.take(k))
                    &&& exists|k: int, answers: Seq<Result<EvidenceHash, IoError>>|
                        0 < k <= forks@.len() && answered(
                            reporter,
                            submissions(forks@.take(k)),
                            answers,
                        ) && stopped_at(
                            #[trigger] pass_forks(old(self).peers@, forks@.take(k), answers),
                            final(self).peers@,
                            e,
                            answers.len(),
                        )
                },
            },
            final(self).peers@.primary == old(self).peers@.primary,
            forall|id: PeerId|
                old(self).peers@.is_faulty(id) ==> final(self).peers@.is_faulty(id),
            final(self).peers@.witnesses.len() <= old(self).peers@.witnesses.len(),
    {
        let ghost start = self.peers@;
        let ghost mut answers: Seq<Result<EvidenceHash, IoError>> = Seq::empty();
        let mut forked: Vec<PeerId> = Vec::new();
        let mut i: usize = 0;
        assert(forks@.take(0) =~= Seq::<Fork>::empty());
        while i < forks.len()
            invariant
                0 <= i <= forks.len(),
                start == old(self).peers@,
                start.wf() ==> self.peers.wf(),
                forked@ == forked_peers(forks@.take(i as int)),
                self.peers@ == exclude_all(start, forks@.take(i as int)),
                pass_forks(start, forks@.take(i as int), answers) == (ForkPass {
                    peers: self.peers@,
                    forked: forked@,
                    failure: None,
                    asked: answers.len(),
                }),
                answered(reporter, submissions(forks@.take(i as int)), answers),
            decreases forks.len() - i,
        {
            proof {
                assert(forks@.take(i + 1).drop_last() =~= forks@.take(i as int));
                assert(forks@.take(i + 1).last() == forks@[i as int]);
            }
            match &forks[i] {
                Fork::Forked { primary, witness } => {
                    let outcome = Self::report_evidence(reporter, primary, witness);
                    proof {
                        lemma_pass_forks_prefix(
                            start,
                            forks@.take(i as int),
                            answers,
                            answers.push(outcome),
                        );
                        answers = answers.push(outcome);
                        assert(answered(reporter, submissions(forks@.take(i + 1)), answers));
                    }
                    match record_report(&mut forked, witness.provider, outcome) {
                        Ok(()) => {},
                        Err(e) => {
                            proof {
                                assert(forks@[i as int] is Forked);
                                lemma_exclude_all(start, forks@.take(i as int));
                                assert(answered(
                                    reporter,
                                    submissions(forks@.take(i + 1)),
                                    answers,
                                ));
                                assert(stopped_at(
                                    pass_forks(start, forks@.take(i + 1), answers),
                                    self.peers@,
                                    e,
                                    answers.len(),
                                ));
                            }
                            return Err(e);
                        },
                    }
                },
                Fork::Timeout(peer, _) => {
                    self.peers.mark_witness_as_faulty(*peer);
                },
                Fork::Faulty(block, _) => {
                    self.peers.mark_witness_as_faulty(block.provider);
                },
            }
            i += 1;
        }
        proof {
            assert(forks@.take(forks@.len() as int) =~= forks@);
            lemma_exclude_all(start, forks@);
        }
        Ok(forked)
    }

    /// Takes the outcome of fork detection for the verified block.
    ///
    /// Without a primary the verification fails with `NoPrimary`. A
    /// failed detection ends it with the detector's error. Where no fork
    /// was detected the primary stores the block as trusted and the
    /// verification ends with the block. Detected forks are handled:
    /// the verification ends with `ForkDetected` where any was real, with
    /// an I/O error where a submission failed, and starts over with the
    /// same primary otherwise.
    pub fn on_detection<R: EvidenceReporter>(
        &mut self,
        target: Option<Height>,
        verified: LightBlock,
        outcome: Result<ForkDetection, Error>,
        reporter: &R,
    ) -> (r: Step)
        ensures
            old(self).peers.wf() ==> final(self).peers.wf(),
            match (old(self).peers@.primary, outcome) {
                (None, _) => r == Step::Done(Err(Error::NoPrimary)) && final(self).peers@ == old(
                    self,
                ).peers@,
                (Some(_), Err(e)) => r == Step::Done(Err(e)) && final(self).peers@ == old(
                    self,
                ).peers@,
                (Some(_), Ok(ForkDetection::NotDetected)) => {
                    &&& r == Step::Done(Ok(verified))
                    &&& final(self).peers@ == old(self).peers@.trust_block(verified)
                },
                (Some(_), Ok(ForkDetection::Detected(forks))) => match r {
                    Step::Verify { target: t } => {
                        &&& t == target
                        &&& forked_peers(forks@).len() == 0
                        &&& final(self).peers@ == exclude_all(old(self).peers@, forks@)
                    },
                    Step::Done(Err(Error::ForkDetected(peers))) => {
                        &&& peers@ == forked_peers(forks@)
                        &&& peers@.len() > 0
                        &&& final(self).peers@ == exclude_all(old(self).peers@, forks@)
                        &&& exists|answers: Seq<Result<EvidenceHash, IoError>>|
                            answered(reporter, submissions(forks@), answers) && pass_forks(
                                old(self).peers@,
                                forks@,
                                answers,
                            ) == (ForkPass {
                                peers: final(self).peers@,
                                forked: peers@,
                                failure: None,
                                asked: answers.len(),
                            })
                    },
                    Step::Done(Err(Error::Io(io))) => {
                        &&& exists|k: int|
                            0 <= k < forks@.len() && forks@[k] is Forked && final(self).peers@
                                == exclude_all(old(self).peers@, forks@.take(k))
                        &&& exists|k: int, answers: Seq<Result<EvidenceHash, IoError>>|
                            0 < k <= forks@.len() && answered(
                                reporter,
                                submissions(forks@.take(k)),
                                answers,
                            ) && stopped_at(
                                #[trigger] pass_forks(old(self).peers@, forks@.take(k), answers),
                                final(self).peers@,
                                Error::Io(io),
                                answers.len(),
                            )
                    },
                    _ => false,
                },
            },
            r is Verify ==> final(self).peers@.primary is Some,
            r matches Step::Done(Ok(lb)) ==> holds_trusted(final(self).peers@, lb),
            !(r matches Step::Done(Ok(_))) ==> final(self).peers@.primary == old(
                self,
            ).peers@.primary,
            forall|id: PeerId|
                old(self).peers@.is_faulty(id) ==> final(self).peers@.is_faulty(id),
            final(self).peers@.witnesses.len() <= old(self).peers@.witnesses.len(),
    {
        if self.peers.primary_id().is_none() {
            return Step::Done(Err(Error::NoPrimary));
        }
        match outcome {
            Err(e) => Step::Done(Err(e)),
            Ok(ForkDetection::NotDetected) => {
                self.peers.trust_block(&verified);
                proof {
                    assert(self.peers@.faulty == old(self).peers@.faulty);
                    assert(self.peers@.witnesses == old(self).peers@.witnesses);
                }
                Step::Done(Ok(verified))
            },
            Ok(ForkDetection::Detected(forks)) => {
                let ghost handled = forks@;
                let processed = self.process_forks(forks, reporter);
                proof {
                    lemma_exclude_all(old(self).peers@, handled);
                }
                after_forks(target, processed)
            },
        }
    }
}

/// The pass was stopped by a failed submission, which comes back as the
/// error `e`, after `asked` submissions, and left the peers `peers`.
pub open spec fn stopped_at<C>(pass: ForkPass<C>, peers: PeerListView<C>, e: Error, asked: nat) -> bool {
    &&& pass.peers == peers
    &&& pass.asked == asked
    &&& pass.failure matches Some(io) && e == Error::Io(io)
}

/// Every peer that a pass without failure lists as forked is the witness
/// of a real fork, and the reporter accepted the evidence of that fork,
/// submitted to that peer.
pub proof fn lemma_forked_peers_were_accepted<C, R: EvidenceReporter>(
    reporter: &R,
    v: PeerListView<C>,
    forks: Seq<Fork>,
    answers: Seq<Result<EvidenceHash, IoError>>,
)
    requires
        answered(reporter, submissions(forks), answers),
        pass_forks(v, forks, answers).failure is None,
        pass_forks(v, forks, answers).asked == answers.len(),
    ensures
        pass_forks(v, forks, answers).forked == forked_peers(forks),
        answers.len() == forked_peers(forks).len(),
        forall|i: int|
            0 <= i < forked_peers(forks).len() ==> (#[trigger] answers[i]) is Ok
                && reporter.answers(
                submissions(forks)[i].evidence,
                forked_peers(forks)[i],
                answers[i],
            ),
{
    lemma_forked_were_accepted(v, forks, answers);
    lemma_submissions_reach_forked_peers(forks);
}

/// The primary of the list stores `lb` as trusted.
pub open spec fn holds_trusted<C>(v: PeerListView<C>, lb: LightBlock) -> bool {
    &&& v.primary is Some
    &&& v.primary.unwrap().store.contains_key(lb.spec_height())
    &&& v.primary.unwrap().store[lb.spec_height()] == (StoreEntry {
        block: lb,
        status: Status::Trusted,
    })
}

/// Once the primary has stored a block as trusted, it holds that block
/// as trusted, and storing the block again changes nothing.
pub proof fn lemma_trust_block<C>(v: PeerListView<C>, lb: LightBlock)
    requires
        v.primary is Some,
    ensures
        holds_trusted(v.trust_block(lb), lb),
        v.trust_block(lb).trust_block(lb) == v.trust_block(lb),
        v.trust_block(lb).witnesses == v.witnesses,
        v.trust_block(lb).faulty == v.faulty,
{
    let once = v.trust_block(lb).primary.unwrap().store;
    let twice = v.trust_block(lb).trust_block(lb).primary.unwrap().store;
    assert(once =~= twice);
}

} // verus!
