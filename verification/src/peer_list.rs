//! The peers of a supervisor and the role each one plays.

use vstd::prelude::*;
use crate::errors::{Error, IoError};
use crate::evidence::EvidenceHash;
use crate::fork_detector::{fork_peer, forked_peers, Fork};
use crate::store::StoreEntry;
use crate::supervisor::Instance;
use crate::types::{Height, LightBlock, PeerId, Status};

verus! {

/// What the peer list shows of one peer: who it is, what it stores and
/// the light client that verifies through it.
pub ghost struct PeerView<C> {
    pub id: PeerId,
    pub store: Map<Height, StoreEntry>,
    pub light_client: C,
}

/// The peer list as a value: the primary, the witnesses in the order in
/// which they are promoted, and the faulty peers in the order in which
/// they were excluded.
pub ghost struct PeerListView<C> {
    pub primary: Option<PeerView<C>>,
    pub witnesses: Seq<PeerView<C>>,
    pub faulty: Seq<PeerView<C>>,
}

impl<C> PeerListView<C> {
    /// No peer occurs twice, in one role or in two.
    pub open spec fn wf(self) -> bool {
        &&& forall|i: int, j: int|
            0 <= i < j < self.witnesses.len() ==> self.witnesses[i].id != self.witnesses[j].id
        &&& forall|i: int, j: int|
            0 <= i < j < self.faulty.len() ==> self.faulty[i].id != self.faulty[j].id
        &&& forall|i: int, j: int|
            0 <= i < self.witnesses.len() && 0 <= j < self.faulty.len() ==> self.witnesses[i].id
                != self.faulty[j].id
        &&& self.primary matches Some(p) ==> {
            &&& forall|i: int| 0 <= i < self.witnesses.len() ==> self.witnesses[i].id != p.id
            &&& forall|j: int| 0 <= j < self.faulty.len() ==> self.faulty[j].id != p.id
        }
    }

    /// `id` is the primary.
    pub open spec fn is_primary(self, id: PeerId) -> bool {
        self.primary matches Some(p) && p.id == id
    }

    /// `id` is one of the witnesses.
    pub open spec fn is_witness(self, id: PeerId) -> bool {
        exists|i: int| 0 <= i < self.witnesses.len() && self.witnesses[i].id == id
    }

    /// `id` is one of the faulty peers.
    pub open spec fn is_faulty(self, id: PeerId) -> bool {
        exists|j: int| 0 <= j < self.faulty.len() && self.faulty[j].id == id
    }

    /// The primary, as a set of at most one peer.
    pub open spec fn primary_ids(self) -> Set<PeerId> {
        Set::new(|id: PeerId| self.is_primary(id))
    }

    /// The witnesses, as a set.
    pub open spec fn witness_ids(self) -> Set<PeerId> {
        Set::new(|id: PeerId| self.is_witness(id))
    }

    /// The faulty peers, as a set.
    pub open spec fn faulty_ids(self) -> Set<PeerId> {
        Set::new(|id: PeerId| self.is_faulty(id))
    }

    /// `i` is the first place among the witnesses that holds `id`.
    pub open spec fn is_witness_at(self, id: PeerId, i: int) -> bool {
        &&& 0 <= i < self.witnesses.len()
        &&& self.witnesses[i].id == id
        &&& forall|j: int| 0 <= j < i ==> self.witnesses[j].id != id
    }

    /// The place of witness `id` among the witnesses.
    pub open spec fn witness_index(self, id: PeerId) -> int {
        choose|i: int| self.is_witness_at(id, i)
    }

    /// The list after the first witness took the primary's place and the
    /// former primary was excluded.
    pub open spec fn swap_primary(self) -> PeerListView<C>
        recommends
            self.witnesses.len() > 0,
    {
        PeerListView {
            primary: Some(self.witnesses[0]),
            witnesses: self.witnesses.remove(0),
            faulty: match self.primary {
                Some(p) => self.faulty.push(p),
                None => self.faulty,
            },
        }
    }

    /// The list after witness `id` was excluded; the list itself where
    /// `id` is no witness.
    pub open spec fn mark_witness_as_faulty(self, id: PeerId) -> PeerListView<C> {
        if self.is_witness(id) {
            let i = self.witness_index(id);
            PeerListView {
                primary: self.primary,
                witnesses: self.witnesses.remove(i),
                faulty: self.faulty.push(self.witnesses[i]),
            }
        } else {
            self
        }
    }

    /// The list after the primary stored `lb` as trusted; the list itself
    /// where there is no primary.
    pub open spec fn trust_block(self, lb: LightBlock) -> PeerListView<C> {
        match self.primary {
            Some(p) => PeerListView {
                primary: Some(
                    PeerView {
                        id: p.id,
                        store: p.store.insert(
                            lb.spec_height(),
                            StoreEntry { block: lb, status: Status::Trusted },
                        ),
                        light_client: p.light_client,
                    },
                ),
                witnesses: self.witnesses,
                faulty: self.faulty,
            },
            None => self,
        }
    }
}

/// The list after every witness that the forks show as silent or
/// unusable was excluded, in the order of the forks.
pub open spec fn exclude_all<C>(v: PeerListView<C>, forks: Seq<Fork>) -> PeerListView<C>
    decreases forks.len(),
{
    if forks.len() == 0 {
        v
    } else if forks.last() is Forked {
        exclude_all(v, forks.drop_last())
    } else {
        exclude_all(v, forks.drop_last()).mark_witness_as_faulty(fork_peer(forks.last()))
    }
}

/// Handling forks keeps the list well formed, keeps its primary, keeps
/// every faulty peer faulty and adds no witness.
pub proof fn lemma_exclude_all<C>(v: PeerListView<C>, forks: Seq<Fork>)
    ensures
        v.wf() ==> exclude_all(v, forks).wf(),
        exclude_all(v, forks).primary == v.primary,
        exclude_all(v, forks).witnesses.len() <= v.witnesses.len(),
        forall|id: PeerId| v.is_faulty(id) ==> exclude_all(v, forks).is_faulty(id),
        forall|id: PeerId| exclude_all(v, forks).is_witness(id) ==> v.is_witness(id),
    decreases forks.len(),
{
    if forks.len() > 0 {
        lemma_exclude_all(v, forks.drop_last());
        let mid = exclude_all(v, forks.drop_last());
        let p = fork_peer(forks.last());
        if mid.is_witness(p) {
            lemma_witness_index(mid, p);
        }
        if v.wf() {
            lemma_mark_keeps_wf(mid, p);
        }
        assert forall|id: PeerId| v.is_faulty(id) implies exclude_all(v, forks).is_faulty(id) by {
            lemma_mark_keeps_faulty(mid, p, id);
        }
        assert forall|id: PeerId| exclude_all(v, forks).is_witness(id) implies v.is_witness(
            id,
        ) by {
            lemma_witnesses_only_leave(mid, p, id);
        }
    }
}

/// Handling forks only takes witnesses away: where as many are left as
/// there were, they are the same.
pub proof fn lemma_exclude_all_same<C>(v: PeerListView<C>, forks: Seq<Fork>)
    ensures
        exclude_all(v, forks).witnesses.len() == v.witnesses.len() ==> exclude_all(
            v,
            forks,
        ).witnesses == v.witnesses,
    decreases forks.len(),
{
    if forks.len() > 0 {
        lemma_exclude_all_same(v, forks.drop_last());
        lemma_exclude_all(v, forks.drop_last());
        let mid = exclude_all(v, forks.drop_last());
        let p = fork_peer(forks.last());
        if mid.is_witness(p) {
            lemma_witness_index(mid, p);
        }
    }
}

/// Handling forks of which one shows a witness as silent or unusable
/// leaves fewer witnesses than there were.
pub proof fn lemma_exclusion_uses_a_witness<C>(v: PeerListView<C>, forks: Seq<Fork>, k: int)
    requires
        0 <= k < forks.len(),
        !(forks[k] is Forked),
        v.is_witness(fork_peer(forks[k])),
    ensures
        exclude_all(v, forks).witnesses.len() < v.witnesses.len(),
    decreases forks.len(),
{
    lemma_exclude_all(v, forks.drop_last());
    let mid = exclude_all(v, forks.drop_last());
    let p = fork_peer(forks.last());
    if mid.is_witness(p) {
        lemma_witness_index(mid, p);
    }
    if k < forks.len() - 1 {
        assert(forks.drop_last()[k] == forks[k]);
        lemma_exclusion_uses_a_witness(v, forks.drop_last(), k);
    } else if !mid.is_witness(p) {
        lemma_exclude_all_same(v, forks.drop_last());
    }
}

/// How far handling a run of forks got: the peer list it left, the peers
/// whose evidence was accepted, the failure that stopped it, if any, and
/// the number of submissions made.
pub ghost struct ForkPass<C> {
    pub peers: PeerListView<C>,
    pub forked: Seq<PeerId>,
    pub failure: Option<IoError>,
    pub asked: nat,
}

/// Handling the forks in order, where `answers` holds what the reporter
/// answers to each submission in turn. A real fork is submitted: its
/// witness joins the forked peers where the answer is an acceptance, and a
/// failure stops the handling. A witness that was silent or unusable is
/// excluded.
pub open spec fn pass_forks<C>(
    v: PeerListView<C>,
    forks: Seq<Fork>,
    answers: Seq<Result<EvidenceHash, IoError>>,
) -> ForkPass<C>
    decreases forks.len(),
{
    if forks.len() == 0 {
        ForkPass { peers: v, forked: Seq::empty(), failure: None, asked: 0 }
    } else {
        let before = pass_forks(v, forks.drop_last(), answers);
        if before.failure is Some {
            before
        } else if !(forks.last() is Forked) {
            ForkPass {
                peers: before.peers.mark_witness_as_faulty(fork_peer(forks.last())),
                ..before
            }
        } else if before.asked >= answers.len() {
            ForkPass { asked: before.asked + 1, ..before }
        } else {
            match answers[before.asked as int] {
                Ok(_) => ForkPass {
                    forked: before.forked.push(fork_peer(forks.last())),
                    asked: before.asked + 1,
                    ..before
                },
                Err(e) => ForkPass { failure: Some(e), asked: before.asked + 1, ..before },
            }
        }
    }
}

/// Answers that were never asked for do not change how the forks are
/// handled.
pub proof fn lemma_pass_forks_prefix<C>(
    v: PeerListView<C>,
    forks: Seq<Fork>,
    answers: Seq<Result<EvidenceHash, IoError>>,
    more: Seq<Result<EvidenceHash, IoError>>,
)
    requires
        answers.len() <= more.len(),
        forall|i: int| 0 <= i < answers.len() ==> answers[i] == more[i],
        pass_forks(v, forks, answers).asked <= answers.len(),
    ensures
        pass_forks(v, forks, more) == pass_forks(v, forks, answers),
    decreases forks.len(),
{
    if forks.len() > 0 {
        lemma_pass_forks_prefix(v, forks.drop_last(), answers, more);
    }
}

/// Every peer that handling the forks lists as forked had its evidence
/// accepted: where no submission failed, the forked peers are the
/// witnesses of the real forks, in order, one for each submission, and
/// every submission was accepted. The peer list is the one that excluding
/// the silent and unusable witnesses leaves.
pub proof fn lemma_forked_were_accepted<C>(
    v: PeerListView<C>,
    forks: Seq<Fork>,
    answers: Seq<Result<EvidenceHash, IoError>>,
)
    requires
        pass_forks(v, forks, answers).failure is None,
        pass_forks(v, forks, answers).asked <= answers.len(),
    ensures
        pass_forks(v, forks, answers).forked == forked_peers(forks),
        pass_forks(v, forks, answers).asked == forked_peers(forks).len(),
        forall|i: int| 0 <= i < forked_peers(forks).len() ==> answers[i] is Ok,
        pass_forks(v, forks, answers).peers == exclude_all(v, forks),
    decreases forks.len(),
{
    if forks.len() > 0 {
        lemma_forked_were_accepted(v, forks.drop_last(), answers);
    }
}

/// A witness has a first place among the witnesses.
pub proof fn lemma_witness_index<C>(v: PeerListView<C>, id: PeerId)
    requires
        v.is_witness(id),
    ensures
        v.is_witness_at(id, v.witness_index(id)),
{
    let k = choose|k: int| 0 <= k < v.witnesses.len() && v.witnesses[k].id == id;
    lemma_first_place(v, id, k);
}

/// Below any place that holds `id` there is a first one.
proof fn lemma_first_place<C>(v: PeerListView<C>, id: PeerId, k: int)
    requires
        0 <= k < v.witnesses.len(),
        v.witnesses[k].id == id,
    ensures
        exists|i: int| v.is_witness_at(id, i),
    decreases k,
{
    if exists|j: int| 0 <= j < k && v.witnesses[j].id == id {
        let j = choose|j: int| 0 <= j < k && v.witnesses[j].id == id;
        lemma_first_place(v, id, j);
    } else {
        assert(v.is_witness_at(id, k));
    }
}

/// Primary, witnesses and faulty peers of a well-formed list are pairwise
/// disjoint.
pub proof fn lemma_roles_disjoint<C>(v: PeerListView<C>)
    requires
        v.wf(),
    ensures
        v.primary_ids().disjoint(v.witness_ids()),
        v.primary_ids().disjoint(v.faulty_ids()),
        v.witness_ids().disjoint(v.faulty_ids()),
{
}

/// Replacing the primary keeps the list well formed.
pub proof fn lemma_swap_keeps_wf<C>(v: PeerListView<C>)
    requires
        v.wf(),
        v.witnesses.len() > 0,
    ensures
        v.swap_primary().wf(),
{
    let n = v.swap_primary();
    assert forall|i: int| 0 <= i < n.witnesses.len() implies n.witnesses[i] == v.witnesses[i + 1] by {}
    assert forall|j: int| 0 <= j < v.faulty.len() implies n.faulty[j] == v.faulty[j] by {}
}

/// Excluding a witness keeps the list well formed.
pub proof fn lemma_mark_keeps_wf<C>(v: PeerListView<C>, id: PeerId)
    requires
        v.wf(),
    ensures
        v.mark_witness_as_faulty(id).wf(),
{
    if v.is_witness(id) {
        lemma_witness_index(v, id);
        let k = v.witness_index(id);
        let n = v.mark_witness_as_faulty(id);
        assert forall|i: int| 0 <= i < n.witnesses.len() implies n.witnesses[i] == (if i < k {
            v.witnesses[i]
        } else {
            v.witnesses[i + 1]
        }) by {}
        assert forall|j: int| 0 <= j < v.faulty.len() implies n.faulty[j] == v.faulty[j] by {}
    }
}

/// A faulty peer stays faulty when the primary is replaced.
pub proof fn lemma_swap_keeps_faulty<C>(v: PeerListView<C>, id: PeerId)
    requires
        v.is_faulty(id),
    ensures
        v.swap_primary().is_faulty(id),
{
    let j = choose|j: int| 0 <= j < v.faulty.len() && v.faulty[j].id == id;
    assert(v.swap_primary().faulty[j].id == id);
}

/// A faulty peer stays faulty when a witness is excluded.
pub proof fn lemma_mark_keeps_faulty<C>(v: PeerListView<C>, marked: PeerId, id: PeerId)
    requires
        v.is_faulty(id),
    ensures
        v.mark_witness_as_faulty(marked).is_faulty(id),
{
    let j = choose|j: int| 0 <= j < v.faulty.len() && v.faulty[j].id == id;
    assert(v.mark_witness_as_faulty(marked).faulty[j].id == id);
}

/// A peer that leaves the witnesses, by promotion or by exclusion, never
/// comes back: the witnesses after either step were witnesses before.
pub proof fn lemma_witnesses_only_leave<C>(v: PeerListView<C>, marked: PeerId, id: PeerId)
    ensures
        v.witnesses.len() > 0 && v.swap_primary().is_witness(id) ==> v.is_witness(id),
        v.mark_witness_as_faulty(marked).is_witness(id) ==> v.is_witness(id),
{
    if v.witnesses.len() > 0 && v.swap_primary().is_witness(id) {
        let n = v.swap_primary();
        let i = choose|i: int| 0 <= i < n.witnesses.len() && n.witnesses[i].id == id;
        assert(v.witnesses[i + 1].id == id);
    }
    if v.mark_witness_as_faulty(marked).is_witness(id) && v.is_witness(marked) {
        lemma_witness_index(v, marked);
        let n = v.mark_witness_as_faulty(marked);
        let k = v.witness_index(marked);
        let i = choose|i: int| 0 <= i < n.witnesses.len() && n.witnesses[i].id == id;
        if i < k {
            assert(v.witnesses[i].id == id);
        } else {
            assert(v.witnesses[i + 1].id == id);
        }
    }
}

/// One change of the peer list.
pub ghost enum PeerStep {
    /// The primary is replaced by the first witness.
    Swap,
    /// The witness with this identifier is excluded.
    Exclude(PeerId),
    /// The primary stores this block as trusted.
    Trust(LightBlock),
}

/// The list after one change, or `None` where the primary is to be
/// replaced and no witness is left.
pub open spec fn apply_step<C>(v: PeerListView<C>, step: PeerStep) -> Option<PeerListView<C>> {
    match step {
        PeerStep::Swap => if v.witnesses.len() > 0 {
            Some(v.swap_primary())
        } else {
            None
        },
        PeerStep::Exclude(id) => Some(v.mark_witness_as_faulty(id)),
        PeerStep::Trust(lb) => Some(v.trust_block(lb)),
    }
}

/// The list after the changes, in order, or `None` where one of them
/// cannot be made.
pub open spec fn apply_steps<C>(v: PeerListView<C>, steps: Seq<PeerStep>) -> Option<PeerListView<C>>
    decreases steps.len(),
{
    if steps.len() == 0 {
        Some(v)
    } else {
        match apply_steps(v, steps.drop_last()) {
            Some(mid) => apply_step(mid, steps.last()),
            None => None,
        }
    }
}

/// How many of the changes replace the primary.
pub open spec fn count_swaps(steps: Seq<PeerStep>) -> nat
    decreases steps.len(),
{
    if steps.len() == 0 {
        0
    } else if steps.last() is Swap {
        count_swaps(steps.drop_last()) + 1
    } else {
        count_swaps(steps.drop_last())
    }
}

/// Through any run of changes the list stays well formed, so that the
/// roles stay pairwise disjoint; a faulty peer stays faulty; no peer
/// becomes a witness; and the primary is replaced at most as many times
/// as there were witnesses at the start, each replacement using one up.
pub proof fn lemma_history<C>(v: PeerListView<C>, steps: Seq<PeerStep>)
    requires
        v.wf(),
        apply_steps(v, steps) is Some,
    ensures
        apply_steps(v, steps).unwrap().wf(),
        forall|id: PeerId| v.is_faulty(id) ==> apply_steps(v, steps).unwrap().is_faulty(id),
        forall|id: PeerId| apply_steps(v, steps).unwrap().is_witness(id) ==> v.is_witness(id),
        count_swaps(steps) + apply_steps(v, steps).unwrap().witnesses.len() <= v.witnesses.len(),
        count_swaps(steps) <= v.witnesses.len(),
    decreases steps.len(),
{
    if steps.len() > 0 {
        lemma_history(v, steps.drop_last());
        let mid = apply_steps(v, steps.drop_last()).unwrap();
        let end = apply_steps(v, steps).unwrap();
        match steps.last() {
            PeerStep::Swap => {
                lemma_swap_keeps_wf(mid);
                assert forall|id: PeerId| v.is_faulty(id) implies end.is_faulty(id) by {
                    lemma_swap_keeps_faulty(mid, id);
                }
                assert forall|id: PeerId| end.is_witness(id) implies v.is_witness(id) by {
                    lemma_witnesses_only_leave(mid, 0, id);
                }
            },
            PeerStep::Exclude(p) => {
                if mid.is_witness(p) {
                    lemma_witness_index(mid, p);
                }
                lemma_mark_keeps_wf(mid, p);
                assert forall|id: PeerId| v.is_faulty(id) implies end.is_faulty(id) by {
                    lemma_mark_keeps_faulty(mid, p, id);
                }
                assert forall|id: PeerId| end.is_witness(id) implies v.is_witness(id) by {
                    lemma_witnesses_only_leave(mid, p, id);
                }
            },
            PeerStep::Trust(lb) => {
                assert(end.witnesses == mid.witnesses);
                assert(end.faulty == mid.faulty);
            },
        }
    }
}


/// A peer: its identifier and its instance.
#[derive(Debug)]
pub struct Peer<C> {
    pub id: PeerId,
    pub instance: Instance<C>,
}

impl<C> Peer<C> {
    /// Who the peer is and what it stores.
    pub open spec fn view(&self) -> PeerView<C> {
        PeerView {
            id: self.id,
            store: self.instance.store(),
            light_client: self.instance.light_client,
        }
    }
}

/// The peers of a supervisor: at most one primary, the witnesses that can
/// replace it, and the peers that were excluded.
#[derive(Debug)]
pub struct PeerList<C> {
    primary: Option<Peer<C>>,
    witnesses: Vec<Peer<C>>,
    faulty: Vec<Peer<C>>,
}

impl<C> PeerList<C> {
    /// The peer list as a value.
    pub closed spec fn view(&self) -> PeerListView<C> {
        PeerListView {
            primary: match self.primary {
                Some(p) => Some(p.view()),
                None => None,
            },
            witnesses: self.witnesses@.map_values(|p: Peer<C>| p.view()),
            faulty: self.faulty@.map_values(|p: Peer<C>| p.view()),
        }
    }

    /// No peer occurs twice, in one role or in two.
    pub open spec fn wf(&self) -> bool {
        self@.wf()
    }

    /// `id` has a role in the list.
    pub open spec fn spec_knows(&self, id: PeerId) -> bool {
        self@.is_primary(id) || self@.is_witness(id) || self@.is_faulty(id)
    }

    /// A list without peers.
    pub fn new() -> (r: Self)
        ensures
            r.wf(),
            r@ == (PeerListView::<C> { primary: None, witnesses: Seq::empty(), faulty: Seq::empty() }),
    {
        let r = PeerList { primary: None, witnesses: Vec::new(), faulty: Vec::new() };
        assert(r@.witnesses =~= Seq::empty());
        assert(r@.faulty =~= Seq::empty());
        r
    }

    /// Whether `id` has a role in the list.
    pub fn knows(&self, id: PeerId) -> (r: bool)
        ensures
            r == self.spec_knows(id),
    {
        let is_primary = match &self.primary {
            Some(p) => p.id == id,
            None => false,
        };
        if is_primary {
            return true;
        }
        let mut i: usize = 0;
        while i < self.witnesses.len()
            invariant
                0 <= i <= self.witnesses.len(),
                forall|k: int| 0 <= k < i ==> self@.witnesses[k].id != id,
            decreases self.witnesses.len() - i,
        {
            if self.witnesses[i].id == id {
                assert(self@.witnesses[i as int].id == id);
                return true;
            }
            i += 1;
        }
        let mut j: usize = 0;
        while j < self.faulty.len()
            invariant
                0 <= j <= self.faulty.len(),
                forall|k: int| 0 <= k < j ==> self@.faulty[k].id != id,
            decreases self.faulty.len() - j,
        {
            if self.faulty[j].id == id {
                assert(self@.faulty[j as int].id == id);
                return true;
            }
            j += 1;
        }
        false
    }

    /// Makes the peer the primary, if the list has none and does not know
    /// the peer yet. Says whether it did.
    pub fn set_primary(&mut self, id: PeerId, instance: Instance<C>) -> (r: bool)
        ensures
            old(self).wf() ==> final(self).wf(),
            r == (old(self)@.primary is None && !old(self).spec_knows(id)),
            r ==> final(self)@ == (PeerListView {
                primary: Some(PeerView {
                    id,
                    store: instance.store(),
                    light_client: instance.light_client,
                }),
                ..old(self)@
            }),
            !r ==> final(self)@ == old(self)@,
    {
        if self.primary.is_some() || self.knows(id) {
            return false;
        }
        self.primary = Some(Peer { id, instance });
        true
    }

    /// Adds the peer as the last witness, if the list does not know it
    /// yet. Says whether it did.
    pub fn add_witness(&mut self, id: PeerId, instance: Instance<C>) -> (r: bool)
        ensures
            old(self).wf() ==> final(self).wf(),
            r == !old(self).spec_knows(id),
            r ==> final(self)@ == (PeerListView {
                witnesses: old(self)@.witnesses.push(PeerView {
                    id,
                    store: instance.store(),
                    light_client: instance.light_client,
                }),
                ..old(self)@
            }),
            !r ==> final(self)@ == old(self)@,
    {
        if self.knows(id) {
            return false;
        }
        self.witnesses.push(Peer { id, instance });
        proof {
            assert(self@.witnesses =~= old(self)@.witnesses.push(
                PeerView {
                    id,
                    store: instance.store(),
                    light_client: instance.light_client,
                },
            ));
            assert forall|i: int| 0 <= i < old(self)@.witnesses.len() implies old(
                self,
            )@.witnesses[i].id != id by {}
            assert forall|j: int| 0 <= j < old(self)@.faulty.len() implies old(
                self,
            )@.faulty[j].id != id by {}
        }
        true
    }

    /// The primary's instance, if there is a primary.
    pub fn primary(&self) -> (r: Option<&Instance<C>>)
        ensures
            r is Some <==> self@.primary is Some,
            r matches Some(inst) ==> inst.store() == self@.primary.unwrap().store
                && inst.light_client == self@.primary.unwrap().light_client,
    {
        match &self.primary {
            Some(p) => Some(&p.instance),
            None => None,
        }
    }

    /// The primary's identifier, if there is a primary.
    pub fn primary_id(&self) -> (r: Option<PeerId>)
        ensures
            r is Some <==> self@.primary is Some,
            r matches Some(id) ==> id == self@.primary.unwrap().id,
    {
        match &self.primary {
            Some(p) => Some(p.id),
            None => None,
        }
    }

    /// The witnesses' instances, in the order in which they are promoted.
    pub fn witnesses(&self) -> (r: Vec<&Instance<C>>)
        ensures
            r@.len() == self@.witnesses.len(),
            forall|i: int| 0 <= i < r@.len() ==> r@[i].store() == self@.witnesses[i].store,
            forall|i: int|
                0 <= i < r@.len() ==> r@[i].light_client == self@.witnesses[i].light_client,
    {
        let mut out: Vec<&Instance<C>> = Vec::new();
        let mut i: usize = 0;
        while i < self.witnesses.len()
            invariant
                0 <= i <= self.witnesses.len(),
                out@.len() == i,
                forall|k: int| 0 <= k < i ==> out@[k].store() == self@.witnesses[k].store,
                forall|k: int|
                    0 <= k < i ==> out@[k].light_client == self@.witnesses[k].light_client,
            decreases self.witnesses.len() - i,
        {
            out.push(&self.witnesses[i].instance);
            i += 1;
        }
        out
    }

    /// The witnesses' identifiers, in the order in which they are promoted.
    pub fn witness_ids(&self) -> (r: Vec<PeerId>)
        ensures
            r@.len() == self@.witnesses.len(),
            forall|i: int| 0 <= i < r@.len() ==> r@[i] == self@.witnesses[i].id,
    {
        let mut out: Vec<PeerId> = Vec::new();
        let mut i: usize = 0;
        while i < self.witnesses.len()
            invariant
                0 <= i <= self.witnesses.len(),
                out@.len() == i,
                forall|k: int| 0 <= k < i ==> out@[k] == self@.witnesses[k].id,
            decreases self.witnesses.len() - i,
        {
            out.push(self.witnesses[i].id);
            i += 1;
        }
        out
    }

    /// The faulty peers' identifiers, in the order in which they were
    /// excluded.
    pub fn faulty_ids(&self) -> (r: Vec<PeerId>)
        ensures
            r@.len() == self@.faulty.len(),
            forall|i: int| 0 <= i < r@.len() ==> r@[i] == self@.faulty[i].id,
    {
        let mut out: Vec<PeerId> = Vec::new();
        let mut i: usize = 0;
        while i < self.faulty.len()
            invariant
                0 <= i <= self.faulty.len(),
                out@.len() == i,
                forall|k: int| 0 <= k < i ==> out@[k] == self@.faulty[k].id,
            decreases self.faulty.len() - i,
        {
            out.push(self.faulty[i].id);
            i += 1;
        }
        out
    }

    /// Whether there is no witness.
    pub fn has_no_witness(&self) -> (r: bool)
        ensures
            r == (self@.witnesses.len() == 0),
    {
        self.witnesses.len() == 0
    }

    /// Excludes the primary and promotes the first witness in its place.
    /// Fails, and changes nothing, where there is no witness.
    pub fn swap_primary(&mut self) -> (r: Result<(), Error>)
        ensures
            old(self).wf() ==> final(self).wf(),
            r is Ok <==> old(self)@.witnesses.len() > 0,
            r is Ok ==> final(self)@ == old(self)@.swap_primary(),
            r matches Err(e) ==> e == Error::NoWitnessLeft && final(self)@ == old(self)@,
    {
        if self.witnesses.len() == 0 {
            return Err(Error::NoWitnessLeft);
        }
        let next = self.witnesses.remove(0);
        let mut slot = Some(next);
        std::mem::swap(&mut slot, &mut self.primary);
        if let Some(p) = slot {
            self.faulty.push(p);
        }
        proof {
            if old(self)@.wf() {
                lemma_swap_keeps_wf(old(self)@);
            }
            assert(self@.witnesses =~= old(self)@.swap_primary().witnesses);
            assert(self@.faulty =~= old(self)@.swap_primary().faulty);
        }
        Ok(())
    }

    /// Excludes the witness `id`. Changes nothing where `id` is no witness.
    pub fn mark_witness_as_faulty(&mut self, id: PeerId)
        ensures
            old(self).wf() ==> final(self).wf(),
            final(self)@ == old(self)@.mark_witness_as_faulty(id),
    {
        let mut i: usize = 0;
        while i < self.witnesses.len()
            invariant
                0 <= i <= self.witnesses.len(),
                forall|k: int| 0 <= k < i ==> self@.witnesses[k].id != id,
            ensures
                i < self.witnesses.len() ==> self@.witnesses[i as int].id == id,
            decreases self.witnesses.len() - i,
        {
            if self.witnesses[i].id == id {
                break ;
            }
            i += 1;
        }
        proof {
            if old(self)@.wf() {
                lemma_mark_keeps_wf(old(self)@, id);
            }
        }
        if i < self.witnesses.len() {
            proof {
                assert(old(self)@.is_witness_at(id, i as int));
                assert(old(self)@.is_witness(id));
                let c = old(self)@.witness_index(id);
                assert(old(self)@.is_witness_at(id, c));
                assert(c == i);
            }
            let p = self.witnesses.remove(i);
            self.faulty.push(p);
            proof {
                assert(self@.witnesses =~= old(self)@.mark_witness_as_faulty(id).witnesses);
                assert(self@.faulty =~= old(self)@.mark_witness_as_faulty(id).faulty);
            }
        } else {
            assert(!old(self)@.is_witness(id));
        }
    }

    /// Stores the block as trusted with the primary. Changes nothing
    /// where there is no primary.
    pub fn trust_block(&mut self, lb: &LightBlock)
        ensures
            final(self)@ == old(self)@.trust_block(*lb),
    {
        match &mut self.primary {
            Some(p) => {
                p.instance.trust_block(lb);
            },
            None => {},
        }
    }

    /// The primary's instance, to work on, if there is a primary. Who
    /// plays which role is not changed through it.
    pub fn primary_mut(&mut self) -> (r: Option<&mut Instance<C>>)
        ensures
            r is Some <==> old(self)@.primary is Some,
            match r {
                Some(inst) => {
                    &&& inst.store() == old(self)@.primary.unwrap().store
                    &&& inst.light_client == old(self)@.primary.unwrap().light_client
                    &&& final(self)@ == (PeerListView {
                        primary: Some(
                            PeerView {
                                id: old(self)@.primary.unwrap().id,
                                store: final(inst).store(),
                                light_client: final(inst).light_client,
                            },
                        ),
                        ..old(self)@
                    })
                },
                None => final(self)@ == old(self)@,
            },
    {
        match &mut self.primary {
            Some(p) => Some(&mut p.instance),
            None => None,
        }
    }
}

} // verus!
