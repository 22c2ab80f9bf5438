//! A sparse, paged byte store: one reconstructed memory region.
//!
//! A region accumulates raw byte writes from the trace. Storage is
//! allocated page by page: the first write that touches a page
//! materialises it zero-filled, and later writes overwrite earlier
//! ones byte for byte (last-write-wins, because writes are applied in
//! file order and never reordered). A write need not be page-aligned;
//! it is split across the pages it spans. Writes that would run past
//! the top of the 64-bit address space drop the bytes that do not fit;
//! no address is ever rejected.
//!
//! The mathematical model of a region is a `Map` from page base
//! address to the page's 4096 bytes; `has_byte`/`byte_at` read it at
//! byte granularity, and `write_seq_spec` is the meaning of one write.

use vstd::prelude::*;

verus! {

/// Paging granularity of every reconstructed region, in bytes.
pub const PAGE_SIZE: u64 = 4096;

/// One materialised page: its aligned base address and exactly
/// `PAGE_SIZE` bytes of content.
#[derive(Debug, Clone)]
pub struct Page {
    pub base: u64,
    pub bytes: Vec<u8>,
}

/// One memory region, reconstructed write by write.
#[derive(Debug, Clone)]
pub struct PageTable {
    pub pages: Vec<Page>,
}

/// Base address of the page holding byte address `a`.
pub open spec fn page_base(a: int) -> int {
    (a / (PAGE_SIZE as int)) * (PAGE_SIZE as int)
}

/// Offset of byte address `a` within its page.
pub open spec fn page_off(a: int) -> int {
    a % (PAGE_SIZE as int)
}

/// How a byte address relates to its page base and offset.
proof fn lemma_page_addr(a: int)
    requires
        0 <= a,
    ensures
        page_base(a) % (PAGE_SIZE as int) == 0,
        page_base(a) + page_off(a) == a,
        0 <= page_off(a) < PAGE_SIZE as int,
        0 <= page_base(a) <= a,
{
    vstd::arithmetic::div_mod::lemma_fundamental_div_mod(a, PAGE_SIZE as int);
    vstd::arithmetic::div_mod::lemma_mod_multiples_basic(a / (PAGE_SIZE as int), PAGE_SIZE as int);
    vstd::arithmetic::div_mod::lemma_div_pos_is_pos(a, PAGE_SIZE as int);
}

/// A page map is well formed when every key is an aligned page base
/// and every page holds exactly `PAGE_SIZE` bytes.
pub open spec fn map_wf(m: Map<u64, Seq<u8>>) -> bool {
    forall|k: u64| #[trigger] m.dom().contains(k) ==> k as int % (PAGE_SIZE as int) == 0
        && m[k].len() == PAGE_SIZE as int
}

/// Whether the region holds a byte for address `a`: the address is in
/// range and its page was materialised by some earlier write.
pub open spec fn has_byte(m: Map<u64, Seq<u8>>, a: int) -> bool {
    0 <= a <= u64::MAX && m.dom().contains(page_base(a) as u64)
}

/// The byte the region holds at address `a`.
pub open spec fn byte_at(m: Map<u64, Seq<u8>>, a: int) -> u8 {
    m[page_base(a) as u64][page_off(a)]
}

/// Content of a freshly materialised page.
pub open spec fn zero_page() -> Seq<u8> {
    Seq::new(PAGE_SIZE as nat, |i: int| 0u8)
}

/// Meaning of writing one byte: materialise the page (zero-filled) if
/// absent, then overwrite one offset. An address above `u64::MAX`
/// lies outside the emulated space and the write is dropped.
pub open spec fn write_byte_spec(m: Map<u64, Seq<u8>>, a: int, b: u8) -> Map<u64, Seq<u8>> {
    if 0 <= a <= u64::MAX {
        let base = page_base(a) as u64;
        let page = if m.dom().contains(base) {
            m[base]
        } else {
            zero_page()
        };
        m.insert(base, page.update(page_off(a), b))
    } else {
        m
    }
}

/// The first `n` bytes of `data` written starting at `addr`, in order.
pub open spec fn write_prefix(m: Map<u64, Seq<u8>>, addr: int, data: Seq<u8>, n: int) -> Map<
    u64,
    Seq<u8>,
>
    decreases n,
{
    if n <= 0 {
        m
    } else {
        write_byte_spec(write_prefix(m, addr, data, n - 1), addr + (n - 1), data[n - 1])
    }
}

/// Meaning of one whole write event: all of `data`, starting at
/// `addr`, applied byte by byte in order.
pub open spec fn write_seq_spec(m: Map<u64, Seq<u8>>, addr: int, data: Seq<u8>) -> Map<
    u64,
    Seq<u8>,
> {
    write_prefix(m, addr, data, data.len() as int)
}

impl PageTable {
    /// Every stored page is aligned, fully sized, and bases are unique.
    pub open spec fn wf(self) -> bool {
        &&& forall|i: int|
            0 <= i < self.pages.len() ==> (#[trigger] self.pages[i].base) as int % (
            PAGE_SIZE as int) == 0 && self.pages[i].bytes.len() == PAGE_SIZE
        &&& forall|i: int, j: int|
            0 <= i < self.pages.len() && 0 <= j < self.pages.len() && i != j
                ==> (#[trigger] self.pages[i].base) != (#[trigger] self.pages[j].base)
    }

    /// The region as a map from page base to page content.
    pub open spec fn view(self) -> Map<u64, Seq<u8>> {
        Self::as_map(self.pages@)
    }

    pub open spec fn as_map(s: Seq<Page>) -> Map<u64, Seq<u8>>
        decreases s.len(),
    {
        if s.len() == 0 {
            Map::empty()
        } else {
            Self::as_map(s.drop_last()).insert(s.last().base, s.last().bytes@)
        }
    }

    proof fn lemma_as_map_index(s: Seq<Page>, k: u64)
        requires
            forall|x: int, y: int|
                0 <= x < s.len() && 0 <= y < s.len() && x != y ==> (#[trigger] s[x].base) != (
                #[trigger] s[y].base),
        ensures
            Self::as_map(s).dom().contains(k) <==> exists|i: int|
                0 <= i < s.len() && (#[trigger] s[i].base) == k,
            forall|i: int|
                0 <= i < s.len() && (#[trigger] s[i].base) == k ==> Self::as_map(s)[k]
                    == s[i].bytes@,
        decreases s.len(),
    {
        if s.len() > 0 {
            let t = s.drop_last();
            let last = s[s.len() - 1];
            assert(forall|i: int| 0 <= i < t.len() ==> #[trigger] t[i] == s[i]);
            Self::lemma_as_map_index(t, k);
            assert(Self::as_map(s) == Self::as_map(t).insert(last.base, last.bytes@));
            if last.base == k {
                assert(s[s.len() - 1].base == k);
                assert forall|i: int| 0 <= i < s.len() && (#[trigger] s[i].base) == k implies Self::as_map(
                    s,
                )[k] == s[i].bytes@ by {
                    if i != s.len() - 1 {
                        assert(s[i].base != s[s.len() - 1].base);
                    }
                }
            } else {
                if Self::as_map(s).dom().contains(k) {
                    assert(Self::as_map(t).dom().contains(k));
                    let i = choose|i: int| 0 <= i < t.len() && (#[trigger] t[i].base) == k;
                    assert(s[i].base == k);
                }
                if exists|i: int| 0 <= i < s.len() && (#[trigger] s[i].base) == k {
                    let i = choose|i: int| 0 <= i < s.len() && (#[trigger] s[i].base) == k;
                    assert(i != s.len() - 1);
                    assert(t[i].base == k);
                    assert(Self::as_map(t).dom().contains(k));
                }
                assert forall|i: int| 0 <= i < s.len() && (#[trigger] s[i].base) == k implies Self::as_map(
                    s,
                )[k] == s[i].bytes@ by {
                    assert(i != s.len() - 1);
                    assert(t[i] == s[i]);
                    assert(Self::as_map(t)[k] == t[i].bytes@);
                }
            }
        }
    }

    proof fn lemma_as_map_update(s: Seq<Page>, i: int, p: Page)
        requires
            0 <= i < s.len(),
            p.base == s[i].base,
            forall|x: int, y: int|
                0 <= x < s.len() && 0 <= y < s.len() && x != y ==> (#[trigger] s[x].base) != (
                #[trigger] s[y].base),
        ensures
            Self::as_map(s.update(i, p)) == Self::as_map(s).insert(p.base, p.bytes@),
        decreases s.len(),
    {
        let t = s.update(i, p);
        if i == s.len() - 1 {
            assert(t.drop_last() =~= s.drop_last());
            assert(Self::as_map(t) == Self::as_map(s.drop_last()).insert(p.base, p.bytes@));
            assert(Self::as_map(s).insert(p.base, p.bytes@) == Self::as_map(
                s.drop_last(),
            ).insert(s.last().base, s.last().bytes@).insert(p.base, p.bytes@));
            assert(Self::as_map(s.drop_last()).insert(s.last().base, s.last().bytes@).insert(
                p.base,
                p.bytes@,
            ) =~= Self::as_map(s.drop_last()).insert(p.base, p.bytes@));
        } else {
            let sd = s.drop_last();
            assert(forall|x: int| 0 <= x < sd.len() ==> #[trigger] sd[x] == s[x]);
            assert(t.drop_last() =~= sd.update(i, p));
            Self::lemma_as_map_update(sd, i, p);
            assert(t.last() == s.last());
            assert(Self::as_map(t) == Self::as_map(sd).insert(p.base, p.bytes@).insert(
                s.last().base,
                s.last().bytes@,
            ));
            assert(s.last().base != p.base);
            assert(Self::as_map(sd).insert(p.base, p.bytes@).insert(s.last().base, s.last().bytes@)
                =~= Self::as_map(sd).insert(s.last().base, s.last().bytes@).insert(
                p.base,
                p.bytes@,
            ));
        }
    }

    /// An empty region: no page was ever written.
    pub fn new() -> (r: PageTable)
        ensures
            r.wf(),
            r.view() == Map::<u64, Seq<u8>>::empty(),
    {
        PageTable { pages: Vec::new() }
    }

    /// Index of the page with base address `base`, if materialised.
    fn find(&self, base: u64) -> (r: Option<usize>)
        ensures
            match r {
                Some(i) => i < self.pages.len() && self.pages[i as int].base == base,
                None => forall|i: int|
                    0 <= i < self.pages.len() ==> (#[trigger] self.pages[i].base) != base,
            },
    {
        let mut i: usize = self.pages.len();
        loop
            invariant
                i <= self.pages.len(),
                forall|j: int| i <= j < self.pages.len() ==> (#[trigger] self.pages[j].base) != base,
            decreases i,
        {
            if i == 0 {
                return None;
            }
            i = i - 1;
            if self.pages[i].base == base {
                return Some(i);
            }
        }
    }

    /// The byte the region holds at `a`, or `None` when no write ever
    /// touched the page of `a`.
    pub fn read_byte(&self, a: u64) -> (r: Option<u8>)
        requires
            self.wf(),
        ensures
            r == if has_byte(self.view(), a as int) {
                Some(byte_at(self.view(), a as int))
            } else {
                None::<u8>
            },
    {
        let base: u64 = (a / PAGE_SIZE) * PAGE_SIZE;
        let off: usize = (a % PAGE_SIZE) as usize;
        proof {
            lemma_page_addr(a as int);
            assert(base as int == page_base(a as int));
            Self::lemma_as_map_index(self.pages@, base);
        }
        match self.find(base) {
            Some(i) => {
                proof {
                    assert(self.view()[base] == self.pages[i as int].bytes@);
                }
                Some(self.pages[i].bytes[off])
            },
            None => None,
        }
    }

    /// Record one byte at address `a`, materialising its page if needed.
    pub fn write_byte(&mut self, a: u64, b: u8)
        requires
            old(self).wf(),
        ensures
            final(self).wf(),
            final(self).view() == write_byte_spec(old(self).view(), a as int, b),
    {
        let base: u64 = (a / PAGE_SIZE) * PAGE_SIZE;
        let off: usize = (a % PAGE_SIZE) as usize;
        proof {
            lemma_page_addr(a as int);
            assert(base as int == page_base(a as int));
            assert(off as int == page_off(a as int));
            Self::lemma_as_map_index(self.pages@, base);
        }
        let ghost m0 = self.view();
        match self.find(base) {
            Some(i) => {
                let mut bytes = self.pages[i].bytes.clone();
                proof {
                    assert forall|j: int| 0 <= j < bytes@.len() implies bytes@[j]
                        == self.pages[i as int].bytes@[j] by {
                        assert(cloned::<u8>(self.pages[i as int].bytes@[j], bytes@[j]));
                    }
                    assert(bytes@ =~= self.pages[i as int].bytes@);
                }
                bytes.set(off, b);
                let ghost s = self.pages@;
                let p = Page { base, bytes };
                proof {
                    Self::lemma_as_map_update(s, i as int, p);
                    assert(m0.dom().contains(base));
                    assert(m0[base] == s[i as int].bytes@);
                    assert(p.bytes@ == m0[base].update(off as int, b));
                }
                self.pages.set(i, p);
                proof {
                    assert(self.pages@ == s.update(i as int, p));
                    assert(self.view() == m0.insert(base, m0[base].update(off as int, b)));
                    assert(self.view() == write_byte_spec(m0, a as int, b));
                    assert forall|x: int|
                        0 <= x < self.pages.len() implies (#[trigger] self.pages[x].base) as int % (
                    PAGE_SIZE as int) == 0 && self.pages[x].bytes.len() == PAGE_SIZE by {
                        if x != i as int {
                            assert(self.pages[x] == s[x]);
                        }
                    }
                    assert(self.wf());
                }
            },
            None => {
                proof {
                    assert(!m0.dom().contains(base));
                }
                let mut bytes = zero_page_vec();
                bytes.set(off, b);
                let ghost s = self.pages@;
                let p = Page { base, bytes };
                self.pages.push(p);
                proof {
                    assert(self.pages@.drop_last() =~= s);
                    assert(self.pages@.last() == p);
                    assert(bytes@ == zero_page().update(off as int, b));
                    assert(self.view() == Self::as_map(s).insert(base, bytes@));
                    assert(self.view() == write_byte_spec(m0, a as int, b));
                    assert forall|x: int|
                        0 <= x < self.pages.len() implies (#[trigger] self.pages[x].base) as int % (
                    PAGE_SIZE as int) == 0 && self.pages[x].bytes.len() == PAGE_SIZE by {
                        if x != s.len() {
                            assert(self.pages[x] == s[x]);
                        }
                    }
                    assert forall|x: int, y: int|
                        0 <= x < self.pages.len() && 0 <= y < self.pages.len() && x
                            != y implies (#[trigger] self.pages[x].base) != (
                    #[trigger] self.pages[y].base) by {
                        if x < s.len() && y < s.len() {
                            assert(self.pages[x] == s[x]);
                            assert(self.pages[y] == s[y]);
                        }
                    }
                    assert(self.wf());
                }
            },
        }
    }

    /// Record a whole write event: `data` starting at `addr`, applied
    /// byte by byte in file order. Bytes that would land above
    /// `u64::MAX` are dropped, matching `write_seq_spec`.
    pub fn write(&mut self, addr: u64, data: &Vec<u8>)
        requires
            old(self).wf(),
        ensures
            final(self).wf(),
            final(self).view() == write_seq_spec(old(self).view(), addr as int, data@),
    {
        let ghost m0 = self.view();
        let mut k: usize = 0;
        let mut cur: u64 = addr;
        while k < data.len()
            invariant
                self.wf(),
                m0 == old(self).view(),
                k <= data.len(),
                cur as int == addr as int + k as int,
                self.view() == write_prefix(m0, addr as int, data@, k as int),
            decreases data.len() - k,
        {
            self.write_byte(cur, data[k]);
            k = k + 1;
            proof {
                assert(self.view() == write_prefix(m0, addr as int, data@, k as int));
            }
            if cur == u64::MAX {
                proof {
                    lemma_write_prefix_stops(m0, addr as int, data@, k as int, data@.len() as int);
                    assert(write_prefix(m0, addr as int, data@, data@.len() as int) == write_prefix(
                        m0,
                        addr as int,
                        data@,
                        k as int,
                    ));
                    assert(self.view() == write_seq_spec(m0, addr as int, data@));
                }
                return ;
            }
            cur = cur + 1;
        }
    }
}

/// Once a prefix already reaches the top of the address space, the
/// remaining byte steps are dropped and change nothing.
proof fn lemma_write_prefix_stops(m: Map<u64, Seq<u8>>, addr: int, data: Seq<u8>, k: int, n: int)
    requires
        0 <= k <= n,
        addr + k > u64::MAX,
    ensures
        write_prefix(m, addr, data, n) == write_prefix(m, addr, data, k),
    decreases n,
{
    if n > k {
        lemma_write_prefix_stops(m, addr, data, k, n - 1);
        assert(addr + (n - 1) > u64::MAX);
    }
}

/// A zero-filled page, the content a page has when first materialised.
fn zero_page_vec() -> (r: Vec<u8>)
    ensures
        r@ == zero_page(),
{
    let mut v: Vec<u8> = Vec::new();
    let mut i: usize = 0;
    while i < PAGE_SIZE as usize
        invariant
            i <= PAGE_SIZE,
            v@.len() == i as int,
            forall|j: int| 0 <= j < i as int ==> v@[j] == 0u8,
        decreases PAGE_SIZE - i,
    {
        v.push(0u8);
        i = i + 1;
    }
    proof {
        assert(v@ =~= zero_page());
    }
    v
}

/// Every byte of the write reads back as written: after the write,
/// the region holds, at each in-range address the write covered,
/// exactly the byte the write put there.
pub proof fn lemma_write_reads_back(m: Map<u64, Seq<u8>>, addr: int, data: Seq<u8>)
    requires
        map_wf(m),
    ensures
        map_wf(write_seq_spec(m, addr, data)),
        forall|a: int|
            #![trigger has_byte(write_seq_spec(m, addr, data), a)]
            #![trigger byte_at(write_seq_spec(m, addr, data), a)]
            addr <= a < addr + data.len() && 0 <= a <= u64::MAX ==> has_byte(
                write_seq_spec(m, addr, data),
                a,
            ) && byte_at(write_seq_spec(m, addr, data), a) == data[a - addr],
{
    lemma_write_prefix_wf(m, addr, data, data.len() as int);
    assert forall|a: int|
        #![trigger has_byte(write_seq_spec(m, addr, data), a)]
        #![trigger byte_at(write_seq_spec(m, addr, data), a)]
        addr <= a < addr + data.len() && 0 <= a <= u64::MAX implies has_byte(
        write_seq_spec(m, addr, data),
        a,
    ) && byte_at(write_seq_spec(m, addr, data), a) == data[a - addr] by {
        lemma_write_prefix_reads_at(m, addr, data, data.len() as int, a - addr);
    }
}

/// Applying a write to a well-formed page map keeps it well formed.
proof fn lemma_write_prefix_wf(m: Map<u64, Seq<u8>>, addr: int, data: Seq<u8>, n: int)
    requires
        map_wf(m),
    ensures
        map_wf(write_prefix(m, addr, data, n)),
    decreases n,
{
    if n > 0 {
        lemma_write_prefix_wf(m, addr, data, n - 1);
        let prev = write_prefix(m, addr, data, n - 1);
        let a = addr + (n - 1);
        let cur = write_byte_spec(prev, a, data[n - 1]);
        if 0 <= a <= u64::MAX {
            lemma_page_addr(a);
            let base = page_base(a) as u64;
            assert forall|k: u64| #[trigger] cur.dom().contains(k) implies k as int % (
            PAGE_SIZE as int) == 0 && cur[k].len() == PAGE_SIZE as int by {
                if k != base {
                    assert(prev.dom().contains(k));
                }
            }
        }
    }
}

/// Byte `j` of the write reads back as written, for one fixed `j`.
proof fn lemma_write_prefix_reads_at(m: Map<u64, Seq<u8>>, addr: int, data: Seq<u8>, n: int, j: int)
    requires
        map_wf(m),
        n <= data.len(),
        0 <= j < n,
        0 <= addr + j <= u64::MAX,
    ensures
        has_byte(write_prefix(m, addr, data, n), addr + j),
        byte_at(write_prefix(m, addr, data, n), addr + j) == data[j],
    decreases n,
{
    lemma_write_prefix_wf(m, addr, data, n - 1);
    let prev = write_prefix(m, addr, data, n - 1);
    let a = addr + (n - 1);
    let cur = write_byte_spec(prev, a, data[n - 1]);
    let aj = addr + j;
    lemma_page_addr(aj);
    if j == n - 1 {
        lemma_page_addr(a);
        let base = page_base(a) as u64;
        let page = if prev.dom().contains(base) {
            prev[base]
        } else {
            zero_page()
        };
        assert(page.len() == PAGE_SIZE as int);
        assert(has_byte(cur, a));
        assert(byte_at(cur, a) == page.update(page_off(a), data[n - 1])[page_off(a)]);
    } else {
        lemma_write_prefix_reads_at(m, addr, data, n - 1, j);
        if 0 <= a <= u64::MAX {
            lemma_page_addr(a);
            let base = page_base(a) as u64;
            let page = if prev.dom().contains(base) {
                prev[base]
            } else {
                zero_page()
            };
            assert(page.len() == PAGE_SIZE as int);
            assert(has_byte(cur, aj));
            if page_base(aj) == page_base(a) {
                assert(page_off(aj) != page_off(a));
                assert(prev.dom().contains(base));
                assert(byte_at(cur, aj) == page.update(page_off(a), data[n - 1])[page_off(aj)]);
                assert(byte_at(cur, aj) == byte_at(prev, aj));
            } else {
                assert(cur[page_base(aj) as u64] == prev[page_base(aj) as u64]);
            }
        } else {
            assert(cur == prev);
        }
    }
}

} // verus!
