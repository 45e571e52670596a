//! A watch on the three pages of the guest's page tables that map themselves: each write to
//! them is noted as it traps, and the page is made read-only again afterwards.

use vstd::prelude::*;

verus! {

/// The pages: this one and the two behind it.
pub const G1_FIRST_PA: u32 = 0x0400_4000;

/// Writes to a page that are reported.
pub const LOG_BUDGET_PER_PAGE: u32 = 64;

/// The state of the watch.
pub struct G1Capture {
    pub armed: bool,
    pub rearm_pending: [bool; 3],
    pub budget: [u32; 3],
}

/// Page `i`.
pub open spec fn g1_page(i: int) -> u32 {
    (G1_FIRST_PA + 0x1000 * i) as u32
}

/// The number of the page that an address is in; three where it is in none.
pub open spec fn page_number(pa: u32) -> int {
    if G1_FIRST_PA <= pa < G1_FIRST_PA + 0x3000 {
        (pa - G1_FIRST_PA) / 0x1000
    } else {
        3
    }
}

fn page_idx(pa: u32) -> (i: usize)
    ensures
        i == page_number(pa),
        i <= 3,
{
    if pa >= G1_FIRST_PA && pa < G1_FIRST_PA + 0x3000 {
        ((pa - G1_FIRST_PA) / 0x1000) as usize
    } else {
        3
    }
}

impl G1Capture {
    /// Nothing watched yet.
    pub fn new() -> (c: Self)
        ensures
            !c.armed,
            c.rearm_pending@ == seq![false, false, false],
            c.budget@ == seq![LOG_BUDGET_PER_PAGE, LOG_BUDGET_PER_PAGE, LOG_BUDGET_PER_PAGE],
    {
        let c = G1Capture {
            armed: false,
            rearm_pending: [false, false, false],
            budget: [LOG_BUDGET_PER_PAGE, LOG_BUDGET_PER_PAGE, LOG_BUDGET_PER_PAGE],
        };
        assert(c.rearm_pending@ =~= seq![false, false, false]);
        assert(c.budget@ =~= seq![
            LOG_BUDGET_PER_PAGE,
            LOG_BUDGET_PER_PAGE,
            LOG_BUDGET_PER_PAGE,
        ]);
        c
    }
}

/// Starts the watch: the pages to make read-only.
pub fn arm(c: &mut G1Capture) -> (pages: [u32; 3])
    ensures
        final(c).armed,
        final(c).rearm_pending@ == old(c).rearm_pending@,
        final(c).budget@ == old(c).budget@,
        pages@ == seq![g1_page(0), g1_page(1), g1_page(2)],
{
    c.armed = true;
    let pages: [u32; 3] = [G1_FIRST_PA, G1_FIRST_PA + 0x1000, G1_FIRST_PA + 0x2000];
    assert(pages@ =~= seq![g1_page(0), g1_page(1), g1_page(2)]);
    pages
}

/// Whether an address is in a page that is watched.
pub fn is_armed_pa(c: &G1Capture, pa: u32) -> (armed: bool)
    ensures
        armed == (c.armed && page_number(pa) < 3),
{
    c.armed && page_idx(pa) < 3
}

/// A write to a page: the page, where in it, from where, what was written if that is known,
/// and from which register.
#[derive(Clone, Copy, PartialEq, Eq, Structural, Debug)]
pub struct Captured {
    pub page: u32,
    pub offset: u32,
    pub elr: u32,
    pub value: Option<u32>,
    pub srt: u32,
}

/// A write to `ipa` trapped: the report, if the page's budget lasts.
pub fn note_perm_fault(c: &mut G1Capture, elr: u32, ipa: u32, value: Option<u32>, srt: u32) -> (r:
    Option<Captured>)
    ensures
        final(c).armed == old(c).armed,
        ({
            let i = page_number(ipa);
            if i == 3 {
                &&& r is None
                &&& final(c).rearm_pending@ == old(c).rearm_pending@
                &&& final(c).budget@ == old(c).budget@
            } else {
                &&& final(c).rearm_pending@ == old(c).rearm_pending@.update(i, true)
                &&& final(c).budget@ == (if old(c).budget@[i] == 0 {
                    old(c).budget@
                } else {
                    old(c).budget@.update(i, (old(c).budget@[i] - 1) as u32)
                })
                &&& r == (if old(c).budget@[i] == 0 {
                    None
                } else {
                    Some(
                        Captured {
                            page: g1_page(i),
                            offset: (ipa - g1_page(i)) as u32,
                            elr,
                            value,
                            srt,
                        },
                    )
                })
            }
        }),
{
    let i: usize = page_idx(ipa);
    if i == 3 {
        return None;
    }
    c.rearm_pending[i] = true;
    let left: u32 = c.budget[i];
    if left == 0 {
        return None;
    }
    c.budget[i] = left - 1;
    let page: u32 = G1_FIRST_PA + 0x1000 * (i as u32);
    Some(Captured { page, offset: ipa - page, elr, value, srt })
}

/// The pages, of the first `n`, that wait to be made read-only again.
pub open spec fn waiting(pending: Seq<bool>, n: int) -> Seq<u32>
    decreases n,
{
    if n <= 0 {
        seq![]
    } else if pending[n - 1] {
        waiting(pending, n - 1).push(g1_page(n - 1))
    } else {
        waiting(pending, n - 1)
    }
}

/// The watched pages are the three from 0x0400_4000 on, and an address is in the page that its bits
/// from 12 up number.
pub proof fn watched_pages(pa: u32, i: int)
    ensures
        0 <= i < 3 ==> g1_page(i) == 0x0400_4000 + 0x1000 * i,
        0 <= i < 3 ==> (page_number(pa) == i <==> 0x0400_4000 + 0x1000 * i <= pa < 0x0400_5000 + 0x1000
            * i),
        page_number(pa) == 3 <==> pa < 0x0400_4000 || pa >= 0x0400_7000,
        0 <= page_number(pa) <= 3,
{
}

/// The pages to protect again are those that wait for it, and no others, from the first on.
pub proof fn waiting_pages_are_listed(pending: Seq<bool>, n: int, i: int)
    requires
        0 <= n <= 3,
        0 <= i < n,
        pending.len() == 3,
    ensures
        waiting(pending, n).contains((0x0400_4000 + 0x1000 * i) as u32) <==> pending[i],
        forall|a: int, b: int|
            0 <= a < b < waiting(pending, n).len() ==> #[trigger] waiting(pending, n)[a]
                < #[trigger] waiting(pending, n)[b],
        forall|a: int|
            0 <= a < waiting(pending, n).len() ==> 0x0400_4000 <= #[trigger] waiting(pending, n)[a]
                < 0x0400_4000 + 0x1000 * n,
    decreases n,
{
    let w = waiting(pending, n);
    let v = waiting(pending, n - 1);
    let page = (0x0400_4000 + 0x1000 * i) as u32;
    if n > 1 {
        waiting_pages_are_listed(
            pending,
            n - 1,
            if i < n - 1 {
                i
            } else {
                0
            },
        );
    }
    assert forall|a: int| 0 <= a < w.len() implies 0x0400_4000 <= #[trigger] w[a] < 0x0400_4000
        + 0x1000 * n by {
        if a < v.len() {
            assert(w[a] == v[a]);
        }
    }
    assert forall|a: int, b: int| 0 <= a < b < w.len() implies #[trigger] w[a] < #[trigger] w[b] by {
        assert(w[a] == v[a]);
        if b < v.len() {
            assert(w[b] == v[b]);
        }
    }
    if i < n - 1 {
        if v.contains(page) {
            let a = choose|a: int| 0 <= a < v.len() && v[a] == page;
            assert(w[a] == page);
        }
        if w.contains(page) {
            let a = choose|a: int| 0 <= a < w.len() && w[a] == page;
            if a < v.len() {
                assert(v[a] == page);
            }
        }
    } else {
        if pending[i] {
            assert(w[v.len() as int] == page);
        } else if w.contains(page) {
            let a = choose|a: int| 0 <= a < w.len() && w[a] == page;
            assert(v[a] == page);
        }
    }
}

/// The pages to make read-only again.
pub fn maybe_rearm(c: &mut G1Capture) -> (pages: Vec<u32>)
    ensures
        final(c).armed == old(c).armed,
        final(c).budget@ == old(c).budget@,
        old(c).armed ==> pages@ == waiting(old(c).rearm_pending@, 3) && final(c).rearm_pending@
            == seq![false, false, false],
        !old(c).armed ==> pages@.len() == 0 && final(c).rearm_pending@ == old(c).rearm_pending@,
{
    let mut pages: Vec<u32> = Vec::new();
    if !c.armed {
        return pages;
    }
    let mut i: usize = 0;
    while i < 3
        invariant
            i <= 3,
            c.armed,
            old(c).armed,
            c.budget@ == old(c).budget@,
            pages@ =~= waiting(old(c).rearm_pending@, i as int),
            forall|k: int| 0 <= k < i ==> !(#[trigger] c.rearm_pending@[k]),
            forall|k: int|
                i <= k < 3 ==> #[trigger] c.rearm_pending@[k] == old(c).rearm_pending@[k],
        decreases 3 - i,
    {
        if c.rearm_pending[i] {
            pages.push(G1_FIRST_PA + 0x1000 * (i as u32));
        }
        c.rearm_pending[i] = false;
        i = i + 1;
    }
    assert(c.rearm_pending@ =~= seq![false, false, false]);
    pages
}

} // verus!
