//! The light store: the blocks one peer has shown, each under its height
//! and tagged with a trust status.

use vstd::prelude::*;
use crate::types::{Height, LightBlock, Status};

verus! {

/// A block with the status it is stored under.
#[derive(Clone, Copy, Debug, PartialEq, Eq, Structural)]
pub struct StoreEntry {
    pub block: LightBlock,
    pub status: Status,
}

/// No two entries stand at one height.
pub open spec fn distinct_heights(s: Seq<StoreEntry>) -> bool {
    forall|i: int, j: int|
        0 <= i < s.len() && 0 <= j < s.len() && i != j ==> s[i].block.spec_height()
            != s[j].block.spec_height()
}

/// Some entry stands at height `h`.
pub open spec fn holds_height(s: Seq<StoreEntry>, h: Height) -> bool {
    exists|i: int| 0 <= i < s.len() && s[i].block.spec_height() == h
}

/// The entries as a map from height to entry.
pub open spec fn entries_map(s: Seq<StoreEntry>) -> Map<Height, StoreEntry> {
    Map::new(
        |h: Height| holds_height(s, h),
        |h: Height| s[choose|i: int| 0 <= i < s.len() && s[i].block.spec_height() == h],
    )
}

/// Some block of the map carries the status.
pub open spec fn has_status(m: Map<Height, StoreEntry>, status: Status) -> bool {
    exists|h: Height| m.contains_key(h) && m[h].status == status
}

/// `b` is stored under the status, and no block of that status stands higher.
pub open spec fn is_highest(m: Map<Height, StoreEntry>, status: Status, b: LightBlock) -> bool {
    &&& m.contains_key(b.spec_height())
    &&& m[b.spec_height()] == (StoreEntry { block: b, status })
    &&& forall|h: Height| m.contains_key(h) && m[h].status == status ==> h <= b.spec_height()
}

/// With distinct heights, the map holds each entry under its own height.
pub proof fn lemma_entries_map_at(s: Seq<StoreEntry>, i: int)
    requires
        distinct_heights(s),
        0 <= i < s.len(),
    ensures
        entries_map(s).contains_key(s[i].block.spec_height()),
        entries_map(s)[s[i].block.spec_height()] == s[i],
{
    let h = s[i].block.spec_height();
    assert(holds_height(s, h));
    let c = choose|k: int| 0 <= k < s.len() && s[k].block.spec_height() == h;
    assert(c == i);
}

/// Every key of the map is the height of the entry stored under it.
pub proof fn lemma_entries_map_key(s: Seq<StoreEntry>, h: Height)
    requires
        entries_map(s).contains_key(h),
    ensures
        entries_map(s)[h].block.spec_height() == h,
        exists|i: int| 0 <= i < s.len() && s[i] == entries_map(s)[h],
{
    assert(holds_height(s, h));
    let c = choose|k: int| 0 <= k < s.len() && s[k].block.spec_height() == h;
    assert(s[c] == entries_map(s)[h]);
}

/// Blocks of one peer, at most one for each height.
#[derive(Debug)]
pub struct LightStore {
    entries: Vec<StoreEntry>,
}

impl LightStore {
    #[verifier::type_invariant]
    closed spec fn well_formed(&self) -> bool {
        distinct_heights(self.entries@)
    }

    /// The store as a map from height to the block and status held there.
    pub closed spec fn view(&self) -> Map<Height, StoreEntry> {
        entries_map(self.entries@)
    }

    /// An empty store.
    pub fn new() -> (s: Self)
        ensures
            s@ == Map::<Height, StoreEntry>::empty(),
    {
        let s = LightStore { entries: Vec::new() };
        assert(s@ =~= Map::<Height, StoreEntry>::empty());
        s
    }

    /// Every block is stored under its own height.
    pub proof fn lemma_keys_are_heights(&self, h: Height)
        requires
            self@.contains_key(h),
        ensures
            self@[h].block.spec_height() == h,
    {
        lemma_entries_map_key(self.entries@, h);
    }

    /// The entry stored at `height`, if there is one.
    pub fn get(&self, height: Height) -> (r: Option<StoreEntry>)
        ensures
            r == (if self@.contains_key(height) {
                Some(self@[height])
            } else {
                None
            }),
    {
        proof {
            use_type_invariant(self);
        }
        let mut i: usize = 0;
        while i < self.entries.len()
            invariant
                0 <= i <= self.entries.len(),
                distinct_heights(self.entries@),
                forall|j: int| 0 <= j < i ==> self.entries@[j].block.spec_height() != height,
            decreases self.entries.len() - i,
        {
            if self.entries[i].block.signed_header.height == height {
                proof {
                    lemma_entries_map_at(self.entries@, i as int);
                }
                return Some(self.entries[i]);
            }
            i += 1;
        }
        assert(!holds_height(self.entries@, height));
        None
    }

    /// Stores the block under its height with the given status, in place
    /// of whatever stood at that height.
    pub fn update(&mut self, lb: &LightBlock, status: Status)
        ensures
            final(self)@ == old(self)@.insert(
                lb.spec_height(),
                StoreEntry { block: *lb, status },
            ),
    {
        proof {
            use_type_invariant(&*self);
        }
        let entry = StoreEntry { block: *lb, status };
        let height = lb.signed_header.height;
        let mut entries: Vec<StoreEntry> = Vec::new();
        std::mem::swap(&mut entries, &mut self.entries);
        let ghost before = entries@;
        let mut i: usize = 0;
        while i < entries.len()
            invariant
                0 <= i <= entries.len(),
                entries@ == before,
                distinct_heights(before),
                forall|j: int| 0 <= j < i ==> before[j].block.spec_height() != height,
            ensures
                i < entries.len() ==> before[i as int].block.spec_height() == height,
            decreases entries.len() - i,
        {
            if entries[i].block.signed_header.height == height {
                break ;
            }
            i += 1;
        }
        if i < entries.len() {
            entries.set(i, entry);
        } else {
            entries.push(entry);
        }
        proof {
            let after = entries@;
            assert(distinct_heights(after));
            assert forall|h: Height|
                entries_map(after).contains_key(h) <==> #[trigger] entries_map(before).insert(
                    height,
                    entry,
                ).contains_key(h) by {
                if holds_height(after, h) {
                    let k = choose|k: int| 0 <= k < after.len() && after[k].block.spec_height() == h;
                    if h != height {
                        assert(before[k].block.spec_height() == h);
                    }
                }
                if h != height && holds_height(before, h) {
                    let k = choose|k: int|
                        0 <= k < before.len() && before[k].block.spec_height() == h;
                    assert(after[k].block.spec_height() == h);
                }
                if h == height {
                    assert(after[i as int].block.spec_height() == h);
                }
            }
            assert forall|h: Height| entries_map(after).contains_key(h) implies entries_map(
                after,
            )[h] == entries_map(before).insert(height, entry)[h] by {
                let k = choose|k: int| 0 <= k < after.len() && after[k].block.spec_height() == h;
                lemma_entries_map_at(after, k);
                if h != height {
                    assert(before[k] == after[k]);
                    lemma_entries_map_at(before, k);
                } else {
                    assert(k == i);
                }
            }
            assert(entries_map(after) =~= entries_map(before).insert(height, entry));
        }
        self.entries = entries;
    }

    /// The highest block stored under the given status, if there is one.
    pub fn highest(&self, status: Status) -> (r: Option<LightBlock>)
        ensures
            match r {
                Some(b) => is_highest(self@, status, b),
                None => !has_status(self@, status),
            },
    {
        proof {
            use_type_invariant(self);
        }
        let mut best: Option<LightBlock> = None;
        let mut i: usize = 0;
        while i < self.entries.len()
            invariant
                0 <= i <= self.entries.len(),
                distinct_heights(self.entries@),
                match best {
                    Some(b) => {
                        &&& exists|k: int|
                            0 <= k < i && self.entries@[k] == (StoreEntry { block: b, status })
                        &&& forall|j: int|
                            0 <= j < i && self.entries@[j].status == status
                                ==> self.entries@[j].block.spec_height() <= b.spec_height()
                    },
                    None => forall|j: int| 0 <= j < i ==> self.entries@[j].status != status,
                },
            decreases self.entries.len() - i,
        {
            let e = self.entries[i];
            if e.status == status {
                let better = match best {
                    Some(b) => b.signed_header.height < e.block.signed_header.height,
                    None => true,
                };
                if better {
                    best = Some(e.block);
                }
            }
            i += 1;
        }
        proof {
            let s = self.entries@;
            match best {
                Some(b) => {
                    let k = choose|k: int|
                        0 <= k < s.len() && s[k] == (StoreEntry { block: b, status });
                    lemma_entries_map_at(s, k);
                    assert forall|h: Height|
                        self@.contains_key(h) && self@[h].status == status implies h
                        <= b.spec_height() by {
                        lemma_entries_map_key(s, h);
                    }
                },
                None => {
                    assert forall|h: Height| self@.contains_key(h) implies self@[h].status
                        != status by {
                        lemma_entries_map_key(s, h);
                    }
                },
            }
        }
        best
    }
}

/// Mutable context of one peer.
#[derive(Debug)]
pub struct State {
    pub light_store: LightStore,
}

impl State {
    /// A state around the given store.
    pub fn new(light_store: LightStore) -> (s: Self)
        ensures
            s.light_store == light_store,
    {
        State { light_store }
    }
}

} // verus!
