//! The reconstructed GGTT translation table.
//!
//! The trace updates the Global Graphics Translation Table one entry
//! at a time: a page index is mapped to a backing address, together
//! with a validity flag. Entries may be rewritten or invalidated
//! independently of the memory they point at; the latest write to an
//! index wins, because entry writes arrive in file order and are
//! never reordered.
//!
//! The mathematical model is a `Map` from page index to the latest
//! entry written for it.

use vstd::prelude::*;

verus! {

/// One translation entry: where a GGTT page is backed, and whether
/// the entry is currently valid.
#[derive(Debug, Clone, Copy, PartialEq, Eq, Structural)]
pub struct GgttEntry {
    pub addr: u64,
    pub valid: bool,
}

/// The entry table, reconstructed entry write by entry write.
#[derive(Debug, Clone)]
pub struct EntryTable {
    pub slots: Vec<(u64, GgttEntry)>,
}

impl EntryTable {
    /// Page indices are stored at most once.
    pub open spec fn wf(self) -> bool {
        forall|i: int, j: int|
            0 <= i < self.slots.len() && 0 <= j < self.slots.len() && i != j
                ==> (#[trigger] self.slots[i].0) != (#[trigger] self.slots[j].0)
    }

    /// The table as a map from page index to its latest entry.
    pub open spec fn view(self) -> Map<u64, GgttEntry> {
        Self::as_map(self.slots@)
    }

    pub open spec fn as_map(s: Seq<(u64, GgttEntry)>) -> Map<u64, GgttEntry>
        decreases s.len(),
    {
        if s.len() == 0 {
            Map::empty()
        } else {
            Self::as_map(s.drop_last()).insert(s.last().0, s.last().1)
        }
    }

    proof fn lemma_as_map_index(s: Seq<(u64, GgttEntry)>, k: u64)
        requires
            forall|x: int, y: int|
                0 <= x < s.len() && 0 <= y < s.len() && x != y ==> (#[trigger] s[x].0) != (
                #[trigger] s[y].0),
        ensures
            Self::as_map(s).dom().contains(k) <==> exists|i: int|
                0 <= i < s.len() && (#[trigger] s[i].0) == k,
            forall|i: int|
                0 <= i < s.len() && (#[trigger] s[i].0) == k ==> Self::as_map(s)[k] == s[i].1,
        decreases s.len(),
    {
        if s.len() > 0 {
            let t = s.drop_last();
            let last = s[s.len() - 1];
            assert(forall|i: int| 0 <= i < t.len() ==> #[trigger] t[i] == s[i]);
            Self::lemma_as_map_index(t, k);
            assert(Self::as_map(s) == Self::as_map(t).insert(last.0, last.1));
            if last.0 == k {
                assert(s[s.len() - 1].0 == k);
                assert forall|i: int| 0 <= i < s.len() && (#[trigger] s[i].0) == k implies Self::as_map(
                    s,
                )[k] == s[i].1 by {
                    if i != s.len() - 1 {
                        assert(s[i].0 != s[s.len() - 1].0);
                    }
                }
            } else {
                if Self::as_map(s).dom().contains(k) {
                    let i = choose|i: int| 0 <= i < t.len() && (#[trigger] t[i].0) == k;
                    assert(s[i].0 == k);
                }
                if exists|i: int| 0 <= i < s.len() && (#[trigger] s[i].0) == k {
                    let i = choose|i: int| 0 <= i < s.len() && (#[trigger] s[i].0) == k;
                    assert(i != s.len() - 1);
                    assert(t[i].0 == k);
                    assert(Self::as_map(t).dom().contains(k));
                }
                assert forall|i: int| 0 <= i < s.len() && (#[trigger] s[i].0) == k implies Self::as_map(
                    s,
                )[k] == s[i].1 by {
                    assert(i != s.len() - 1);
                    assert(t[i] == s[i]);
                    assert(Self::as_map(t)[k] == t[i].1);
                }
            }
        }
    }

    proof fn lemma_as_map_update(s: Seq<(u64, GgttEntry)>, i: int, p: (u64, GgttEntry))
        requires
            0 <= i < s.len(),
            p.0 == s[i].0,
            forall|x: int, y: int|
                0 <= x < s.len() && 0 <= y < s.len() && x != y ==> (#[trigger] s[x].0) != (
                #[trigger] s[y].0),
        ensures
            Self::as_map(s.update(i, p)) == Self::as_map(s).insert(p.0, p.1),
        decreases s.len(),
    {
        let t = s.update(i, p);
        if i == s.len() - 1 {
            assert(t.drop_last() =~= s.drop_last());
            assert(Self::as_map(t) == Self::as_map(s.drop_last()).insert(p.0, p.1));
            assert(Self::as_map(s).insert(p.0, p.1) == Self::as_map(s.drop_last()).insert(
                s.last().0,
                s.last().1,
            ).insert(p.0, p.1));
            assert(Self::as_map(s.drop_last()).insert(s.last().0, s.last().1).insert(p.0, p.1)
                =~= Self::as_map(s.drop_last()).insert(p.0, p.1));
        } else {
            let sd = s.drop_last();
            assert(forall|x: int| 0 <= x < sd.len() ==> #[trigger] sd[x] == s[x]);
            assert(t.drop_last() =~= sd.update(i, p));
            Self::lemma_as_map_update(sd, i, p);
            assert(t.last() == s.last());
            assert(Self::as_map(t) == Self::as_map(sd).insert(p.0, p.1).insert(
                s.last().0,
                s.last().1,
            ));
            assert(s.last().0 != p.0);
            assert(Self::as_map(sd).insert(p.0, p.1).insert(s.last().0, s.last().1)
                =~= Self::as_map(sd).insert(s.last().0, s.last().1).insert(p.0, p.1));
        }
    }

    /// An empty table: no entry was ever written.
    pub fn new() -> (r: EntryTable)
        ensures
            r.wf(),
            r.view() == Map::<u64, GgttEntry>::empty(),
    {
        EntryTable { slots: Vec::new() }
    }

    fn find(&self, index: u64) -> (r: Option<usize>)
        ensures
            match r {
                Some(i) => i < self.slots.len() && self.slots[i as int].0 == index,
                None => forall|i: int|
                    0 <= i < self.slots.len() ==> (#[trigger] self.slots[i].0) != index,
            },
    {
        let mut i: usize = self.slots.len();
        loop
            invariant
                i <= self.slots.len(),
                forall|j: int| i <= j < self.slots.len() ==> (#[trigger] self.slots[j].0) != index,
            decreases i,
        {
            if i == 0 {
                return None;
            }
            i = i - 1;
            if self.slots[i].0 == index {
                return Some(i);
            }
        }
    }

    /// The latest entry written for `index`, if any was ever written.
    pub fn get(&self, index: u64) -> (r: Option<GgttEntry>)
        requires
            self.wf(),
        ensures
            r == if self.view().dom().contains(index) {
                Some(self.view()[index])
            } else {
                None::<GgttEntry>
            },
    {
        proof {
            Self::lemma_as_map_index(self.slots@, index);
        }
        match self.find(index) {
            Some(i) => Some(self.slots[i].1),
            None => None,
        }
    }

    /// Record an entry write: the new entry for `index` overwrites any
    /// earlier one (last-write-wins), with no failure mode.
    pub fn set_entry(&mut self, index: u64, entry: GgttEntry)
        requires
            old(self).wf(),
        ensures
            final(self).wf(),
            final(self).view() == old(self).view().insert(index, entry),
    {
        let ghost s = self.slots@;
        proof {
            Self::lemma_as_map_index(s, index);
        }
        match self.find(index) {
            Some(i) => {
                proof {
                    Self::lemma_as_map_update(s, i as int, (index, entry));
                }
                self.slots.set(i, (index, entry));
                proof {
                    assert(self.slots@ == s.update(i as int, (index, entry)));
                    assert forall|x: int, y: int|
                        0 <= x < self.slots.len() && 0 <= y < self.slots.len() && x
                            != y implies (#[trigger] self.slots[x].0) != (
                    #[trigger] self.slots[y].0) by {
                        if x != i as int && y != i as int {
                            assert(self.slots[x] == s[x]);
                            assert(self.slots[y] == s[y]);
                        }
                    }
                }
            },
            None => {
                self.slots.push((index, entry));
                proof {
                    assert(self.slots@.drop_last() =~= s);
                    assert(self.slots@.last() == (index, entry));
                    assert(self.view() == Self::as_map(s).insert(index, entry));
                    assert forall|x: int, y: int|
                        0 <= x < self.slots.len() && 0 <= y < self.slots.len() && x
                            != y implies (#[trigger] self.slots[x].0) != (
                    #[trigger] self.slots[y].0) by {
                        if x < s.len() && y < s.len() {
                            assert(self.slots[x] == s[x]);
                            assert(self.slots[y] == s[y]);
                        }
                    }
                }
            },
        }
    }
}

} // verus!
