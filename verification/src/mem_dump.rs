//! Summaries of memory regions: page counts, active areas and rows for a hex dump.

use crate::guest_mem::GuestMem;
use vstd::prelude::*;

verus! {

/// Bytes per page of a summary.
pub const PAGE: usize = 4096;

/// One row of a hex dump: its offset and its bytes, zero-padded.
#[derive(Clone, Copy)]
pub struct HexRow {
    pub offset: usize,
    pub bytes: [u8; 32],
}

/// The number of rows for `n` bytes, a last partial row included.
pub open spec fn row_count(n: int) -> int {
    (n + 31) / 32
}

/// Splits `bytes` into rows; the last one is padded with zeros.
pub fn hex_block(bytes: &[u8]) -> (rows: Vec<HexRow>)
    ensures
        rows@.len() == row_count(bytes@.len() as int),
        forall|r: int, j: int|
            #![trigger rows@[r].bytes[j]]
            0 <= r < rows@.len() && 0 <= j < 32 ==> rows@[r].bytes[j] == if 32 * r + j
                < bytes@.len() {
                bytes@[32 * r + j]
            } else {
                0
            },
        forall|r: int| 0 <= r < rows@.len() ==> (#[trigger] rows@[r]).offset == 32 * r,
{
    let mut rows: Vec<HexRow> = Vec::new();
    let total: usize = bytes.len();
    let mut off: usize = 0;
    while off < total
        invariant
            total == bytes@.len(),
            off <= bytes@.len(),
            off < bytes@.len() ==> off == 32 * rows@.len(),
            off == bytes@.len() ==> rows@.len() == row_count(off as int),
            forall|r: int, j: int|
                #![trigger rows@[r].bytes[j]]
                0 <= r < rows@.len() && 0 <= j < 32 ==> rows@[r].bytes[j] == if 32 * r + j
                    < bytes@.len() {
                    bytes@[32 * r + j]
                } else {
                    0
                },
            forall|r: int| 0 <= r < rows@.len() ==> (#[trigger] rows@[r]).offset == 32 * r,
        decreases bytes@.len() - off,
    {
        let left: usize = total - off;
        let n: usize = if left < 32 {
            left
        } else {
            32
        };
        let mut line: [u8; 32] = [0u8;32];
        let mut j: usize = 0;
        while j < n
            invariant
                j <= n <= 32,
                total == bytes@.len(),
                off + n <= total,
                forall|k: int|
                    0 <= k < 32 ==> #[trigger] line[k] == if k < j {
                        bytes@[off + k]
                    } else {
                        0
                    },
            decreases n - j,
        {
            line[j] = bytes[off + j];
            j = j + 1;
        }
        rows.push(HexRow { offset: off, bytes: line });
        off = off + n;
    }
    rows
}

/// Whether page `p` of `s` (its last one may be partial) holds a nonzero byte.
pub open spec fn page_populated(s: Seq<u8>, p: int) -> bool {
    exists|i: int| PAGE * p <= i < PAGE * (p + 1) && i < s.len() && #[trigger] s[i] != 0
}

/// Whether every byte of page `p` of `s` is 0xFF.
pub open spec fn page_erased(s: Seq<u8>, p: int) -> bool {
    forall|i: int| PAGE * p <= i < PAGE * (p + 1) && i < s.len() ==> #[trigger] s[i] == 0xFF
}

/// The number of pages, a last partial one included.
pub open spec fn page_count(n: int) -> int {
    (n + 4095) / 4096
}

/// Populated pages among the first `n`.
pub open spec fn populated_pages(s: Seq<u8>, n: int) -> nat
    decreases n,
{
    if n <= 0 {
        0
    } else {
        populated_pages(s, n - 1) + if page_populated(s, n - 1) {
            1nat
        } else {
            0nat
        }
    }
}

/// Erased pages among the first `n`.
pub open spec fn erased_pages(s: Seq<u8>, n: int) -> nat
    decreases n,
{
    if n <= 0 {
        0
    } else {
        erased_pages(s, n - 1) + if page_erased(s, n - 1) {
            1nat
        } else {
            0nat
        }
    }
}

/// The offsets that a summary looks at further in.
pub open spec fn probe_offsets() -> Seq<int> {
    seq![0x1000, 0x4000, 0x1_0000, 0x4_0000]
}

/// Whether the 256 bytes at `off` hold something that is neither zero nor erased.
pub open spec fn active_at(s: Seq<u8>, off: int) -> bool {
    exists|i: int| off <= i < off + 256 && #[trigger] s[i] != 0 && s[i] != 0xFF
}

/// What a summary of a region says.
pub struct RegionSummary {
    /// Pages with a nonzero byte.
    pub populated: usize,
    /// The same in KiB.
    pub populated_kib: usize,
    /// Pages that are all 0xFF.
    pub erased: usize,
    /// Populated pages that are not all 0xFF.
    pub mixed: usize,
    /// The first sixteen rows.
    pub head: Vec<HexRow>,
    /// The probed offsets with content, each with four rows.
    pub active: Vec<(usize, Vec<HexRow>)>,
}

/// Whether `rows` are the rows of `s[off .. off + 32 * n]`.
pub open spec fn rows_of(rows: Seq<HexRow>, s: Seq<u8>, off: int, n: int) -> bool {
    &&& rows.len() == n
    &&& forall|r: int, j: int|
        #![trigger rows[r].bytes[j]]
        0 <= r < n && 0 <= j < 32 ==> rows[r].bytes[j] == s[off + 32 * r + j]
    &&& forall|r: int| 0 <= r < n ==> (#[trigger] rows[r]).offset == 32 * r
}

/// The probed offsets among the first `k` that exist in `s` and hold content.
pub open spec fn active_offsets(s: Seq<u8>, k: int) -> Seq<int>
    decreases k,
{
    if k <= 0 {
        Seq::empty()
    } else {
        let off = probe_offsets()[k - 1];
        if off + 32 < s.len() && active_at(s, off) {
            active_offsets(s, k - 1).push(off)
        } else {
            active_offsets(s, k - 1)
        }
    }
}

/// What a summary shows: each row the 32 bytes behind those of the row before, and its own offset; the first
/// 512 bytes; and 128 bytes at each place with content. Pages in use are told in KiB, and those that
/// are not erased are told apart.
pub proof fn rows_show_bytes(sum: RegionSummary, s: Seq<u8>, i: int, k: int)
    requires
        summarises(sum, s),
    ensures
        sum.head@.len() == 16,
        0 <= i < 512 ==> sum.head@[i / 32].bytes[i % 32] == s[i] && sum.head@[i / 32].offset == i / 32 * 32,
        0 <= k < sum.active@.len() ==> sum.active@[k].1@.len() == 4,
        0 <= k < sum.active@.len() && 0 <= i < 128 ==> sum.active@[k].1@[i / 32].bytes[i % 32]
            == s[sum.active@[k].0 + i],
        sum.populated_kib == 4 * sum.populated,
        sum.populated >= sum.erased ==> sum.mixed + sum.erased == sum.populated,
        sum.populated == populated_pages(s, (s.len() as int + 4095) / 4096) && sum.erased == erased_pages(
            s,
            (s.len() as int + 4095) / 4096,
        ),
{
    if 0 <= i < 512 {
        let r = sum.head@[i / 32];
        assert(r.bytes[i % 32] == s[0 + 32 * (i / 32) + i % 32]);
    }
    if 0 <= k < sum.active@.len() && 0 <= i < 128 {
        let rows = sum.active@[k].1@;
        assert(rows_of(rows, s, sum.active@[k].0 as int, 4));
        assert(rows[i / 32].bytes[i % 32] == s[sum.active@[k].0 + 32 * (i / 32) + i % 32]);
    }
}

/// The pages of a region are just enough for its bytes, and so are the rows of a dump.
pub proof fn pages_and_rows_cover(n: int)
    requires
        0 <= n,
    ensures
        4096 * page_count(n) >= n > 4096 * (page_count(n) - 1),
        32 * row_count(n) >= n > 32 * (row_count(n) - 1),
{
}

/// Whether a byte of page `p` is other than zero.
pub open spec fn holds_something(s: Seq<u8>, p: int) -> bool {
    exists|i: int| 4096 * p <= i < 4096 * p + 4096 && i < s.len() && #[trigger] s[i] != 0
}

/// Whether a byte of page `p` is other than 0xFF.
pub open spec fn holds_data(s: Seq<u8>, p: int) -> bool {
    exists|i: int| 4096 * p <= i < 4096 * p + 4096 && i < s.len() && #[trigger] s[i] != 0xFF
}

/// The counts of a summary are those of the pages with a byte other than zero, and of the pages
/// without a byte other than 0xFF.
pub proof fn pages_are_counted(s: Seq<u8>, n: int)
    requires
        0 <= n,
    ensures
        Set::new(|p: int| 0 <= p < n && holds_something(s, p)).finite(),
        populated_pages(s, n) == Set::new(|p: int| 0 <= p < n && holds_something(s, p)).len(),
        Set::new(|p: int| 0 <= p < n && !holds_data(s, p)).finite(),
        erased_pages(s, n) == Set::new(|p: int| 0 <= p < n && !holds_data(s, p)).len(),
    decreases n,
{
    let a = Set::new(|p: int| 0 <= p < n && holds_something(s, p));
    let b = Set::new(|p: int| 0 <= p < n && !holds_data(s, p));
    if n == 0 {
        assert(a =~= Set::<int>::empty());
        assert(b =~= Set::<int>::empty());
    } else {
        pages_are_counted(s, n - 1);
        let c = Set::new(|p: int| 0 <= p < n - 1 && holds_something(s, p));
        let d = Set::new(|p: int| 0 <= p < n - 1 && !holds_data(s, p));
        assert(page_populated(s, n - 1) == holds_something(s, n - 1)) by {
            if holds_something(s, n - 1) {
                let i = choose|i: int|
                    4096 * (n - 1) <= i < 4096 * (n - 1) + 4096 && i < s.len() && #[trigger] s[i] != 0;
                assert(s[i] != 0);
            }
        }
        assert(page_erased(s, n - 1) == !holds_data(s, n - 1));
        assert(a =~= if holds_something(s, n - 1) {
            c.insert(n - 1)
        } else {
            c
        });
        assert(b =~= if holds_data(s, n - 1) {
            d
        } else {
            d.insert(n - 1)
        });
    }
}

/// The offsets that a summary shows are those of 0x1000, 0x4000, 0x10000 and 0x40000 that the region
/// reaches by more than a row and behind which, within 256 bytes, there is a byte other than zero and
/// 0xFF; in rising order.
pub proof fn active_areas_are_shown(s: Seq<u8>, off: int)
    ensures
        active_offsets(s, 4).contains(off) <==> (off == 0x1000 || off == 0x4000 || off == 0x1_0000 || off
            == 0x4_0000) && off + 32 < s.len() && (exists|i: int|
            off <= i < off + 256 && #[trigger] s[i] != 0 && s[i] != 0xFF),
        forall|a: int, b: int|
            0 <= a < b < active_offsets(s, 4).len() ==> #[trigger] active_offsets(s, 4)[a]
                < #[trigger] active_offsets(s, 4)[b],
{
    let e0 = Seq::<int>::empty();
    let e1 = active_offsets(s, 1);
    let e2 = active_offsets(s, 2);
    let e3 = active_offsets(s, 3);
    let e4 = active_offsets(s, 4);
    assert(active_offsets(s, 0) == e0);
    assert(e1 == if 0x1000 + 32 < s.len() && active_at(s, 0x1000) {
        e0.push(0x1000)
    } else {
        e0
    });
    assert(e2 == if 0x4000 + 32 < s.len() && active_at(s, 0x4000) {
        e1.push(0x4000)
    } else {
        e1
    });
    assert(e3 == if 0x1_0000 + 32 < s.len() && active_at(s, 0x1_0000) {
        e2.push(0x1_0000)
    } else {
        e2
    });
    assert(e4 == if 0x4_0000 + 32 < s.len() && active_at(s, 0x4_0000) {
        e3.push(0x4_0000)
    } else {
        e3
    });
    pushed(e0, 0x1000, off);
    pushed(e1, 0x4000, off);
    pushed(e2, 0x1_0000, off);
    pushed(e3, 0x4_0000, off);
}

proof fn pushed(e: Seq<int>, x: int, off: int)
    ensures
        e.push(x).contains(off) <==> e.contains(off) || off == x,
        e.len() == 0 ==> !e.contains(off),
{
    if e.contains(off) {
        let i = choose|i: int| 0 <= i < e.len() && e[i] == off;
        assert(e.push(x)[i] == off);
    }
    assert(e.push(x)[e.len() as int] == x);
    if e.push(x).contains(off) && off != x {
        let i = choose|i: int| 0 <= i < e.push(x).len() && e.push(x)[i] == off;
        assert(e[i] == off);
    }
}

/// Whether page `p` holds a nonzero byte, and whether it is all 0xFF.
fn page_kind(s: &[u8], p: usize) -> (r: (bool, bool))
    requires
        PAGE * p < s@.len(),
    ensures
        r.0 == page_populated(s@, p as int),
        r.1 == page_erased(s@, p as int),
{
    let total: usize = s.len();
    let mut any: bool = false;
    let mut all_ff: bool = true;
    let start: usize = PAGE * p;
    let mut i: usize = start;
    while i < total && i - start < PAGE
        invariant
            total == s@.len(),
            start == PAGE * p,
            start < s@.len(),
            start <= i <= start + PAGE,
            i <= s@.len(),
            any ==> exists|k: int| start <= k < i && #[trigger] s@[k] != 0,
            !any ==> forall|k: int| start <= k < i ==> #[trigger] s@[k] == 0,
            all_ff ==> forall|k: int| start <= k < i ==> #[trigger] s@[k] == 0xFF,
            !all_ff ==> exists|k: int| start <= k < i && #[trigger] s@[k] != 0xFF,
        decreases start + PAGE - i,
    {
        if s[i] != 0 {
            any = true;
        }
        if s[i] != 0xFF {
            all_ff = false;
        }
        i = i + 1;
    }
    (any, all_ff)
}

/// Whether the 256 bytes at `off` hold something that is neither zero nor erased.
fn probe(s: &[u8], off: usize) -> (active: bool)
    requires
        off + 256 <= s@.len(),
    ensures
        active == active_at(s@, off as int),
{
    let total: usize = s.len();
    let mut i: usize = off;
    while i < off + 256
        invariant
            total == s@.len(),
            off <= i <= off + 256 <= total,
            forall|k: int| off <= k < i ==> #[trigger] s@[k] == 0 || s@[k] == 0xFF,
        decreases off + 256 - i,
    {
        if s[i] != 0 && s[i] != 0xFF {
            return true;
        }
        i = i + 1;
    }
    false
}

/// Copies `n` rows' worth of bytes out of `s`.
fn rows_at(s: &[u8], off: usize, n: usize) -> (rows: Vec<HexRow>)
    requires
        n <= 16,
        off + 32 * n <= s@.len(),
    ensures
        rows_of(rows@, s@, off as int, n as int),
{
    let total: usize = s.len();
    let mut part: Vec<u8> = Vec::new();
    let mut i: usize = 0;
    while i < 32 * n
        invariant
            n <= 16,
            i <= 32 * n,
            total == s@.len(),
            off + 32 * n <= total,
            part@ == s@.subrange(off as int, off + i),
        decreases 32 * n - i,
    {
        part.push(s[off + i]);
        assert(part@ =~= s@.subrange(off as int, off + i + 1));
        i = i + 1;
    }
    hex_block(&part)
}

/// Whether `sum` is the summary of `s`: page counts, the first sixteen rows, and four rows
/// at each probed offset with content.
pub open spec fn summarises(sum: RegionSummary, s: Seq<u8>) -> bool {
    &&& sum.populated == populated_pages(s, page_count(s.len() as int))
    &&& sum.populated_kib == 4 * sum.populated
    &&& sum.erased == erased_pages(s, page_count(s.len() as int))
    &&& sum.mixed == if sum.populated >= sum.erased {
        sum.populated - sum.erased
    } else {
        0
    }
    &&& rows_of(sum.head@, s, 0, 16)
    &&& sum.active@.len() == active_offsets(s, 4).len()
    &&& forall|k: int|
        #![trigger sum.active@[k]]
        0 <= k < sum.active@.len() ==> {
            &&& sum.active@[k].0 == active_offsets(s, 4)[k]
            &&& rows_of(sum.active@[k].1@, s, sum.active@[k].0 as int, 4)
        }
}

/// Summarises a region: page counts, its first sixteen rows, and four rows at each probed
/// offset with content. A region must not end inside one of the probed areas.
pub fn summarise_region(s: &[u8]) -> (sum: RegionSummary)
    requires
        512 <= s@.len(),
        forall|k: int|
            0 <= k < 4 ==> !(#[trigger] probe_offsets()[k] + 32 < s@.len() < probe_offsets()[k]
                + 256),
    ensures
        summarises(sum, s@),
{
    let pages: usize = if s.len() % PAGE == 0 {
        s.len() / PAGE
    } else {
        s.len() / PAGE + 1
    };
    let mut populated: usize = 0;
    let mut erased: usize = 0;
    let mut p: usize = 0;
    while p < pages
        invariant
            p <= pages,
            pages == page_count(s@.len() as int),
            512 <= s@.len(),
            populated == populated_pages(s@, p as int),
            erased == erased_pages(s@, p as int),
            populated <= p,
            erased <= p,
        decreases pages - p,
    {
        let (any, all_ff) = page_kind(s, p);
        if any {
            populated = populated + 1;
        }
        if all_ff {
            erased = erased + 1;
        }
        p = p + 1;
    }
    let head = rows_at(s, 0, 16);
    let offsets: [usize; 4] = [0x1000, 0x4000, 0x1_0000, 0x4_0000];
    let mut active: Vec<(usize, Vec<HexRow>)> = Vec::new();
    let mut k: usize = 0;
    while k < 4
        invariant
            k <= 4,
            512 <= s@.len(),
            offsets@ == seq![0x1000usize, 0x4000, 0x1_0000, 0x4_0000],
            forall|k: int|
                0 <= k < 4 ==> !(#[trigger] probe_offsets()[k] + 32 < s@.len()
                    < probe_offsets()[k] + 256),
            active@.len() == active_offsets(s@, k as int).len(),
            forall|j: int|
                #![trigger active@[j]]
                0 <= j < active@.len() ==> {
                    &&& active@[j].0 == active_offsets(s@, k as int)[j]
                    &&& rows_of(active@[j].1@, s@, active@[j].0 as int, 4)
                },
        decreases 4 - k,
    {
        let off = offsets[k];
        assert(off == probe_offsets()[k as int]);
        if off + 32 < s.len() {
            if probe(s, off) {
                let rows = rows_at(s, off, 4);
                active.push((off, rows));
            }
        }
        k = k + 1;
    }
    RegionSummary {
        populated,
        populated_kib: populated * 4,
        erased,
        mixed: if populated >= erased {
            populated - erased
        } else {
            0
        },
        head,
        active,
    }
}

/// Summarises the framebuffer.
pub fn dump_framebuffer_to_uart(mem: &GuestMem) -> (sum: RegionSummary)
    requires
        mem.wf(),
    ensures
        summarises(sum, mem@.fb),
{
    summarise_region(&mem.fb)
}

/// Summarises the RAM, with the rows of its first 512 bytes, the start of the L1 table.
pub fn dump_ram_to_uart(mem: &GuestMem) -> (r: (RegionSummary, Vec<HexRow>))
    requires
        mem.wf(),
    ensures
        summarises(r.0, mem@.ram),
        rows_of(r.1@, mem@.ram, 0, 16),
{
    let sum = summarise_region(&mem.ram);
    let table = rows_at(&mem.ram, 0, 16);
    (sum, table)
}

} // verus!
