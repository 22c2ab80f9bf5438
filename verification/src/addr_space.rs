//! The reconstructed address spaces and buffer-object resolution.
//!
//! Three content regions — local, physical, and the flat
//! graphics-visible (GGTT) space — accumulate the trace's raw writes,
//! and a translation table accumulates its GGTT entry writes. A
//! decode-time address is resolved against one domain:
//!
//! * `Local` and `Physical` addresses read their region directly.
//! * A `Ggtt` address is translated through the latest entry written
//!   for its page index, when that entry is valid: the backing
//!   address is looked up first in physical memory, then in local
//!   memory, then in the flat graphics space itself. Without a valid
//!   entry the flat graphics space is read at the untranslated
//!   address.
//!
//! Resolution is a pure function of the writes applied so far. It
//! yields the maximal contiguous run of reconstructed bytes starting
//! at the resolved location, or fails with `UnresolvedAddress` when
//! no backing write was ever observed — an expected outcome for
//! traces that capture only a window of execution, reported to the
//! caller rather than treated as fatal.

use vstd::prelude::*;

use crate::gtt::EntryTable;
use crate::gtt::GgttEntry;
use crate::pagestore::byte_at;
use crate::pagestore::has_byte;
use crate::pagestore::map_wf;
use crate::pagestore::page_off;
use crate::pagestore::write_seq_spec;
use crate::pagestore::lemma_write_reads_back;
use crate::pagestore::PageTable;
use crate::pagestore::PAGE_SIZE;

verus! {

/// The memory domain a decode-time address is interpreted against.
#[derive(Debug, Clone, Copy, PartialEq, Eq, Structural)]
pub enum Domain {
    Local,
    Physical,
    Ggtt,
}

/// A buffer-object reference had no backing write: recoverable, the
/// enclosing decode step skips the reference and replay continues.
#[derive(Debug, Clone, Copy, PartialEq, Eq, Structural)]
pub struct UnresolvedAddress {
    pub addr: u64,
    pub domain: Domain,
}

/// A resolved buffer object: the contiguous byte run reconstructed at
/// the resolved location, together with where it came from.
#[derive(Debug, Clone)]
pub struct BufferObject {
    /// The resolved (post-translation) start address of the run.
    pub addr: u64,
    /// The domain whose region the bytes were read from.
    pub domain: Domain,
    /// The reconstructed content, starting at `addr`.
    pub data: Vec<u8>,
}

/// The mathematical model of the whole address space: one page map
/// per content region, plus the translation table.
pub ghost struct SpaceModel {
    pub local: Map<u64, Seq<u8>>,
    pub phys: Map<u64, Seq<u8>>,
    pub ggtt: Map<u64, Seq<u8>>,
    pub entries: Map<u64, GgttEntry>,
}

/// The content region of one domain.
pub open spec fn store_of(m: SpaceModel, d: Domain) -> Map<u64, Seq<u8>> {
    match d {
        Domain::Local => m.local,
        Domain::Physical => m.phys,
        Domain::Ggtt => m.ggtt,
    }
}

pub open spec fn model_wf(m: SpaceModel) -> bool {
    map_wf(m.local) && map_wf(m.phys) && map_wf(m.ggtt)
}

/// Where resolution of `addr` against `domain` reads its bytes, if
/// anywhere: the domain of the region and the in-region address.
pub open spec fn resolved_loc(m: SpaceModel, addr: u64, domain: Domain) -> Option<(Domain, int)> {
    match domain {
        Domain::Local => if has_byte(m.local, addr as int) {
            Some((Domain::Local, addr as int))
        } else {
            None
        },
        Domain::Physical => if has_byte(m.phys, addr as int) {
            Some((Domain::Physical, addr as int))
        } else {
            None
        },
        Domain::Ggtt => {
            let idx = addr / PAGE_SIZE;
            if m.entries.dom().contains(idx) && m.entries[idx].valid {
                let b = m.entries[idx].addr as int + page_off(addr as int);
                if b > u64::MAX {
                    None
                } else if has_byte(m.phys, b) {
                    Some((Domain::Physical, b))
                } else if has_byte(m.local, b) {
                    Some((Domain::Local, b))
                } else if has_byte(m.ggtt, b) {
                    Some((Domain::Ggtt, b))
                } else {
                    None
                }
            } else if has_byte(m.ggtt, addr as int) {
                Some((Domain::Ggtt, addr as int))
            } else {
                None
            }
        },
    }
}

/// What a returned buffer object holds: the maximal contiguous run of
/// reconstructed bytes starting at the resolved location `loc` of
/// region `d` — every byte reads back from the model, and the run
/// ends only at the first missing byte or at the top of the address
/// space.
pub open spec fn run_ok(m: SpaceModel, bo: BufferObject, d: Domain, loc: int) -> bool {
    &&& bo.domain == d
    &&& bo.addr as int == loc
    &&& bo.data@.len() >= 1
    &&& forall|i: int|
        #![trigger bo.data@[i]]
        0 <= i < bo.data@.len() ==> has_byte(store_of(m, d), loc + i) && bo.data@[i] == byte_at(
            store_of(m, d),
            loc + i,
        )
    &&& (loc + bo.data@.len() > u64::MAX || !has_byte(store_of(m, d), loc + bo.data@.len()))
}

/// The full contract of `AddressSpace::resolve`, as one predicate:
/// success exactly when the model backs the address, and then the
/// buffer object is the maximal run at the resolved location.
pub open spec fn resolve_post(
    m: SpaceModel,
    addr: u64,
    domain: Domain,
    r: Result<BufferObject, UnresolvedAddress>,
) -> bool {
    match resolved_loc(m, addr, domain) {
        Some(loc) => r matches Ok(bo) && run_ok(m, bo, loc.0, loc.1),
        None => r == Err::<BufferObject, UnresolvedAddress>(UnresolvedAddress { addr, domain }),
    }
}

/// The whole reconstructed address space of one replay session.
#[derive(Debug, Clone)]
pub struct AddressSpace {
    pub local: PageTable,
    pub phys: PageTable,
    pub ggtt: PageTable,
    pub entries: EntryTable,
}

impl AddressSpace {
    pub open spec fn wf(self) -> bool {
        self.local.wf() && self.phys.wf() && self.ggtt.wf() && self.entries.wf()
    }

    pub open spec fn model(self) -> SpaceModel {
        SpaceModel {
            local: self.local.view(),
            phys: self.phys.view(),
            ggtt: self.ggtt.view(),
            entries: self.entries.view(),
        }
    }

    /// An empty address space: created at session start, before any
    /// event is applied.
    pub fn new() -> (r: AddressSpace)
        ensures
            r.wf(),
            r.model() == empty_model(),
    {
        AddressSpace {
            local: PageTable::new(),
            phys: PageTable::new(),
            ggtt: PageTable::new(),
            entries: EntryTable::new(),
        }
    }

    /// Record a local-memory write event.
    pub fn write_local(&mut self, addr: u64, data: &Vec<u8>)
        requires
            old(self).wf(),
        ensures
            final(self).wf(),
            final(self).model() == (SpaceModel {
                local: write_seq_spec(old(self).model().local, addr as int, data@),
                ..old(self).model()
            }),
    {
        self.local.write(addr, data);
    }

    /// Record a physical-memory write event.
    pub fn write_physical(&mut self, addr: u64, data: &Vec<u8>)
        requires
            old(self).wf(),
        ensures
            final(self).wf(),
            final(self).model() == (SpaceModel {
                phys: write_seq_spec(old(self).model().phys, addr as int, data@),
                ..old(self).model()
            }),
    {
        self.phys.write(addr, data);
    }

    /// Record a write into the flat graphics-visible space.
    pub fn write_ggtt(&mut self, addr: u64, data: &Vec<u8>)
        requires
            old(self).wf(),
        ensures
            final(self).wf(),
            final(self).model() == (SpaceModel {
                ggtt: write_seq_spec(old(self).model().ggtt, addr as int, data@),
                ..old(self).model()
            }),
    {
        self.ggtt.write(addr, data);
    }

    /// Record a translation-table entry write: the new entry for the
    /// page index overwrites any earlier one; no failure mode.
    pub fn write_ggtt_entry(&mut self, index: u64, addr: u64, valid: bool)
        requires
            old(self).wf(),
        ensures
            final(self).wf(),
            final(self).model() == (SpaceModel {
                entries: old(self).model().entries.insert(index, GgttEntry { addr, valid }),
                ..old(self).model()
            }),
    {
        self.entries.set_entry(index, GgttEntry { addr, valid });
    }

    /// The byte one region holds at `a`, if reconstructed.
    fn read_byte_in(&self, d: Domain, a: u64) -> (r: Option<u8>)
        requires
            self.wf(),
        ensures
            r == if has_byte(store_of(self.model(), d), a as int) {
                Some(byte_at(store_of(self.model(), d), a as int))
            } else {
                None::<u8>
            },
    {
        match d {
            Domain::Local => self.local.read_byte(a),
            Domain::Physical => self.phys.read_byte(a),
            Domain::Ggtt => self.ggtt.read_byte(a),
        }
    }

    /// Resolve a decode-time address against a domain, returning the
    /// buffer object reconstructed there, or `UnresolvedAddress` when
    /// no backing write was ever observed. Resolution reads the model
    /// only: it never mutates the address space, and the same model
    /// always resolves the same way.
    pub fn resolve(&self, addr: u64, domain: Domain) -> (r: Result<BufferObject, UnresolvedAddress>)
        requires
            self.wf(),
        ensures
            resolve_post(self.model(), addr, domain, r),
    {
        let target: Option<(Domain, u64)> = match domain {
            Domain::Local => {
                if self.local.read_byte(addr).is_some() {
                    Some((Domain::Local, addr))
                } else {
                    None
                }
            },
            Domain::Physical => {
                if self.phys.read_byte(addr).is_some() {
                    Some((Domain::Physical, addr))
                } else {
                    None
                }
            },
            Domain::Ggtt => {
                let idx: u64 = addr / PAGE_SIZE;
                let off: u64 = addr % PAGE_SIZE;
                let entry = self.entries.get(idx);
                match entry {
                    Some(e) => {
                        if e.valid {
                            if e.addr <= u64::MAX - off {
                                let b: u64 = e.addr + off;
                                if self.phys.read_byte(b).is_some() {
                                    Some((Domain::Physical, b))
                                } else if self.local.read_byte(b).is_some() {
                                    Some((Domain::Local, b))
                                } else if self.ggtt.read_byte(b).is_some() {
                                    Some((Domain::Ggtt, b))
                                } else {
                                    None
                                }
                            } else {
                                None
                            }
                        } else if self.ggtt.read_byte(addr).is_some() {
                            Some((Domain::Ggtt, addr))
                        } else {
                            None
                        }
                    },
                    None => {
                        if self.ggtt.read_byte(addr).is_some() {
                            Some((Domain::Ggtt, addr))
                        } else {
                            None
                        }
                    },
                }
            },
        };
        match target {
            None => Err(UnresolvedAddress { addr, domain }),
            Some((d, loc)) => {
                proof {
                    assert(resolved_loc(self.model(), addr, domain) == Some((d, loc as int)));
                    assert(has_byte(store_of(self.model(), d), loc as int));
                }
                let ghost st = store_of(self.model(), d);
                let mut data: Vec<u8> = Vec::new();
                let mut cur: u64 = loc;
                loop
                    invariant
                        self.wf(),
                        st == store_of(self.model(), d),
                        resolved_loc(self.model(), addr, domain) == Some((d, loc as int)),
                        has_byte(st, loc as int),
                        loc <= cur,
                        cur as int == loc as int + data@.len(),
                        forall|x: int|
                            #![trigger has_byte(st, x)]
                            #![trigger byte_at(st, x)]
                            loc <= x < loc as int + data@.len() ==> has_byte(st, x) && data@[x
                                - loc] == byte_at(st, x),
                    decreases u64::MAX - cur,
                {
                    match self.read_byte_in(d, cur) {
                        Some(b) => {
                            let ghost data0 = data@;
                            data.push(b);
                            proof {
                                assert forall|x: int|
                                    #![trigger has_byte(st, x)]
                                    #![trigger byte_at(st, x)]
                                    loc <= x < loc as int + data@.len() implies has_byte(st, x)
                                    && data@[x - loc] == byte_at(st, x) by {
                                    if x == cur as int {
                                        assert(has_byte(st, x));
                                        assert(data@[x - loc] == b);
                                    } else {
                                        assert(has_byte(st, x));
                                        assert(data@[x - loc] == data0[x - loc]);
                                    }
                                }
                            }
                            if cur == u64::MAX {
                                let ghost dfinal = data@;
                                let bo = BufferObject { addr: loc, domain: d, data };
                                proof {
                                    assert(bo.data@ == dfinal);
                                    assert forall|i: int| 0 <= i < bo.data@.len() implies has_byte(
                                        store_of(self.model(), d),
                                        loc as int + i,
                                    ) && bo.data@[i] == byte_at(
                                        store_of(self.model(), d),
                                        loc as int + i,
                                    ) by {
                                        assert(has_byte(st, loc as int + i));
                                        assert(dfinal[i] == byte_at(st, loc as int + i));
                                    }
                                    assert(loc as int + bo.data@.len() > u64::MAX);
                                    assert(run_ok(self.model(), bo, d, loc as int));
                                }
                                return Ok(bo);
                            }
                            cur = cur + 1;
                        },
                        None => {
                            let ghost dfinal = data@;
                            let bo = BufferObject { addr: loc, domain: d, data };
                            proof {
                                assert(bo.data@ == dfinal);
                                assert forall|i: int| 0 <= i < bo.data@.len() implies has_byte(
                                    store_of(self.model(), d),
                                    loc as int + i,
                                ) && bo.data@[i] == byte_at(
                                    store_of(self.model(), d),
                                    loc as int + i,
                                ) by {
                                    assert(has_byte(st, loc as int + i));
                                    assert(dfinal[i] == byte_at(st, loc as int + i));
                                }
                                assert(!has_byte(st, loc as int + bo.data@.len()));
                                assert(bo.data@.len() >= 1);
                                assert(run_ok(self.model(), bo, d, loc as int));
                            }
                            return Ok(bo);
                        },
                    }
                }
            },
        }
    }
}

/// The model of a freshly created address space.
pub open spec fn empty_model() -> SpaceModel {
    SpaceModel {
        local: Map::empty(),
        phys: Map::empty(),
        ggtt: Map::empty(),
        entries: Map::empty(),
    }
}

/// One region write applied to the model.
pub open spec fn model_write_region(m: SpaceModel, d: Domain, addr: u64, data: Seq<u8>) -> SpaceModel {
    match d {
        Domain::Local => SpaceModel { local: write_seq_spec(m.local, addr as int, data), ..m },
        Domain::Physical => SpaceModel { phys: write_seq_spec(m.phys, addr as int, data), ..m },
        Domain::Ggtt => SpaceModel { ggtt: write_seq_spec(m.ggtt, addr as int, data), ..m },
    }
}

/// One translation-entry write applied to the model.
pub open spec fn model_write_entry(m: SpaceModel, index: u64, e: GgttEntry) -> SpaceModel {
    SpaceModel { entries: m.entries.insert(index, e), ..m }
}

/// A sequence of writes to one region, applied in file order.
pub open spec fn apply_region_writes(m: Map<u64, Seq<u8>>, ws: Seq<(u64, Seq<u8>)>) -> Map<
    u64,
    Seq<u8>,
>
    decreases ws.len(),
{
    if ws.len() == 0 {
        m
    } else {
        write_seq_spec(apply_region_writes(m, ws.drop_last()), ws.last().0 as int, ws.last().1)
    }
}

proof fn lemma_apply_region_writes_wf(m: Map<u64, Seq<u8>>, ws: Seq<(u64, Seq<u8>)>)
    requires
        map_wf(m),
    ensures
        map_wf(apply_region_writes(m, ws)),
    decreases ws.len(),
{
    if ws.len() > 0 {
        lemma_apply_region_writes_wf(m, ws.drop_last());
        lemma_write_reads_back(
            apply_region_writes(m, ws.drop_last()),
            ws.last().0 as int,
            ws.last().1,
        );
    }
}

/// Last-write-wins: after any sequence of writes to the same address
/// of one region, the region holds, across the span of the final
/// write, exactly the final write's bytes — the content of the last
/// write in file order, regardless of what earlier writes put there.
pub proof fn lemma_last_write_wins(m: Map<u64, Seq<u8>>, ws: Seq<(u64, Seq<u8>)>, a: u64)
    requires
        map_wf(m),
        ws.len() > 0,
        forall|i: int| 0 <= i < ws.len() ==> (#[trigger] ws[i].0) == a,
    ensures
        map_wf(apply_region_writes(m, ws)),
        forall|x: int|
            #![trigger has_byte(apply_region_writes(m, ws), x)]
            #![trigger byte_at(apply_region_writes(m, ws), x)]
            a <= x < a + ws.last().1.len() && 0 <= x <= u64::MAX ==> has_byte(
                apply_region_writes(m, ws),
                x,
            ) && byte_at(apply_region_writes(m, ws), x) == ws.last().1[x - a],
{
    let prev = apply_region_writes(m, ws.drop_last());
    lemma_apply_region_writes_wf(m, ws.drop_last());
    assert(ws[ws.len() - 1].0 == a);
    assert(apply_region_writes(m, ws) == write_seq_spec(prev, a as int, ws.last().1));
    lemma_write_reads_back(prev, a as int, ws.last().1);
    assert forall|x: int|
        a <= x < a + ws.last().1.len() && 0 <= x <= u64::MAX implies #[trigger] has_byte(
        apply_region_writes(m, ws),
        x,
    ) && byte_at(apply_region_writes(m, ws), x) == ws.last().1[x - a] by {
        assert(has_byte(write_seq_spec(prev, a as int, ws.last().1), x));
        assert(byte_at(write_seq_spec(prev, a as int, ws.last().1), x) == ws.last().1[x - a]);
    }
}

/// A translation-entry write and a content write touch disjoint parts
/// of the model, so their order does not matter: resolution sees the
/// same model either way, whether the backing memory write happened
/// before or after the entry write.
pub proof fn lemma_entry_write_commutes(
    m: SpaceModel,
    d: Domain,
    addr: u64,
    data: Seq<u8>,
    index: u64,
    e: GgttEntry,
)
    ensures
        model_write_entry(model_write_region(m, d, addr, data), index, e) == model_write_region(
            model_write_entry(m, index, e),
            d,
            addr,
            data,
        ),
{
}

/// Resolving through a GGTT page index uses the most recently written
/// entry for that index: an earlier entry write to the same index has
/// no effect on the outcome.
pub proof fn lemma_latest_entry_used(
    m: SpaceModel,
    index: u64,
    e1: GgttEntry,
    e2: GgttEntry,
    addr: u64,
)
    requires
        addr / PAGE_SIZE == index,
    ensures
        resolved_loc(model_write_entry(model_write_entry(m, index, e1), index, e2), addr, Domain::Ggtt)
            == resolved_loc(model_write_entry(m, index, e2), addr, Domain::Ggtt),
{
    let m1 = model_write_entry(model_write_entry(m, index, e1), index, e2);
    let m2 = model_write_entry(m, index, e2);
    assert(m1.entries =~= m2.entries);
    assert(m1 == m2);
}

} // verus!
