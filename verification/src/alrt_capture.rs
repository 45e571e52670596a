//! A watch on one page of the guest's memory: it is made read-only, each write to it is
//! noted as it traps, and it is made read-only again afterwards.

use crate::guest_mem;
use crate::guest_mem::GuestMem;
use vstd::prelude::*;

verus! {

/// The page that is watched, by the guest's virtual address.
pub const TARGET_VA: u32 = 0x0CCA_3000;

/// The physical page that is behind it.
pub const KNOWN_TARGET_PA: u32 = 0x0402_E000;

/// Writes that are reported.
pub const LOG_BUDGET: u32 = 4096;

/// The part of the page whose writes are reported.
pub const CLIST_OFFSET_LO: u32 = 0x7C0;

pub const CLIST_OFFSET_HI: u32 = 0x800;

/// What is shown of a word that cannot be read.
pub const UNREADABLE: u32 = 0xDEAD_BEEF;

/// The state of the watch.
#[derive(Clone, Copy, PartialEq, Eq, Structural)]
pub struct AlrtCapture {
    /// The page that is watched; zero for none.
    pub target_pa: u32,
    pub rearm_pending: bool,
    pub total_traps: u32,
    pub out_of_window: u32,
    pub budget: u32,
}

/// The page of an address.
pub open spec fn page_of(pa: u32) -> u32 {
    (pa - pa % 0x1000) as u32
}

fn page(pa: u32) -> (p: u32)
    ensures
        p == page_of(pa),
{
    pa - pa % 0x1000
}

/// Whether an address is in the page that is watched.
pub open spec fn watched(c: AlrtCapture, pa: u32) -> bool {
    c.target_pa != 0 && page_of(pa) == c.target_pa
}

impl AlrtCapture {
    /// Nothing watched yet.
    pub fn new() -> (c: Self)
        ensures
            c == (AlrtCapture {
                target_pa: 0,
                rearm_pending: false,
                total_traps: 0,
                out_of_window: 0,
                budget: LOG_BUDGET,
            }),
    {
        AlrtCapture {
            target_pa: 0,
            rearm_pending: false,
            total_traps: 0,
            out_of_window: 0,
            budget: LOG_BUDGET,
        }
    }
}

/// Starts the watch at boot: the page to make read-only, with the sixteen words in its
/// reported part as they are, unless the watch has started.
pub fn arm_at_boot(c: &mut AlrtCapture, mem: &GuestMem) -> (r: Option<(u32, Vec<u32>)>)
    requires
        mem.wf(),
    ensures
        old(c).target_pa != 0 ==> r is None && *final(c) == *old(c),
        old(c).target_pa == 0 ==> {
            &&& *final(c) == (AlrtCapture { target_pa: KNOWN_TARGET_PA, ..*old(c) })
            &&& r matches Some((page, words)) && page == KNOWN_TARGET_PA && words@ == Seq::new(
                16,
                |i: int|
                    match mem@.word((KNOWN_TARGET_PA + CLIST_OFFSET_LO + 4 * i) as u32) {
                        Some(w) => w,
                        None => UNREADABLE,
                    },
            )
        },
{
    if c.target_pa != 0 {
        return None;
    }
    c.target_pa = KNOWN_TARGET_PA;
    let ghost shown = Seq::new(
        16,
        |i: int|
            match mem@.word((KNOWN_TARGET_PA + CLIST_OFFSET_LO + 4 * i) as u32) {
                Some(w) => w,
                None => UNREADABLE,
            },
    );
    let mut words: Vec<u32> = Vec::new();
    let mut i: u32 = 0;
    while i < 16
        invariant
            i <= 16,
            mem.wf(),
            shown == Seq::new(
                16,
                |i: int|
                    match mem@.word((KNOWN_TARGET_PA + CLIST_OFFSET_LO + 4 * i) as u32) {
                        Some(w) => w,
                        None => UNREADABLE,
                    },
            ),
            words@ =~= shown.take(i as int),
        decreases 16 - i,
    {
        let w: u32 = match guest_mem::read_word_pa(mem, KNOWN_TARGET_PA + CLIST_OFFSET_LO + i * 4) {
            Some(w) => w,
            None => UNREADABLE,
        };
        assert(w == shown[i as int]);
        words.push(w);
        i = i + 1;
    }
    assert(words@ =~= shown);
    Some((KNOWN_TARGET_PA, words))
}

/// What the guest's mapping of an address means for the watch.
#[derive(Clone, Copy, PartialEq, Eq, Structural, Debug)]
pub enum Mapped {
    /// Nothing: it is another page, or the page that is watched.
    Unchanged,
    /// The watch starts: make this page read-only.
    Armed(u32),
    /// The page has moved, from one physical page to another.
    Remapped(u32, u32),
}

/// The guest maps `va` to `pa`: the watch starts there, if it is the page's address and
/// nothing is watched yet.
pub fn maybe_arm_for_va(c: &mut AlrtCapture, va: u32, pa: u32) -> (r: Mapped)
    ensures
        r == (if page_of(va) != TARGET_VA {
            Mapped::Unchanged
        } else if old(c).target_pa == 0 {
            Mapped::Armed(page_of(pa))
        } else if old(c).target_pa != page_of(pa) {
            Mapped::Remapped(old(c).target_pa, page_of(pa))
        } else {
            Mapped::Unchanged
        }),
        *final(c) == (match r {
            Mapped::Armed(p) => AlrtCapture { target_pa: p, ..*old(c) },
            _ => *old(c),
        }),
{
    if page(va) != TARGET_VA {
        return Mapped::Unchanged;
    }
    let aligned: u32 = page(pa);
    if c.target_pa != 0 {
        if c.target_pa != aligned {
            return Mapped::Remapped(c.target_pa, aligned);
        }
        return Mapped::Unchanged;
    }
    c.target_pa = aligned;
    Mapped::Armed(aligned)
}

/// Whether an address is in the page that is watched.
pub fn is_armed_pa(c: &AlrtCapture, pa: u32) -> (armed: bool)
    ensures
        armed == watched(*c, pa),
{
    c.target_pa != 0 && page(pa) == c.target_pa
}

/// A write to the page: where in it, from where, what was written if that is known, from
/// which register, and the mode.
#[derive(Clone, Copy, PartialEq, Eq, Structural, Debug)]
pub struct Captured {
    pub offset: u32,
    pub elr: u32,
    pub value: Option<u32>,
    pub srt: u32,
    pub mode: u32,
}

/// Whether an offset is in the part of the page that is reported.
pub open spec fn in_window(ipa: u32) -> bool {
    CLIST_OFFSET_LO <= ipa % 0x1000 < CLIST_OFFSET_HI
}

/// The watch after a write to `ipa` trapped. Every such write takes from the budget, reported
/// or not.
pub open spec fn noted(c: AlrtCapture, ipa: u32) -> AlrtCapture {
    if !watched(c, ipa) {
        c
    } else {
        AlrtCapture {
            total_traps: c.total_traps.wrapping_add(1),
            rearm_pending: true,
            out_of_window: if in_window(ipa) {
                c.out_of_window
            } else {
                c.out_of_window.wrapping_add(1)
            },
            budget: if c.budget == 0 {
                0
            } else {
                (c.budget - 1) as u32
            },
            ..c
        }
    }
}

/// A write to `ipa` trapped: the report, if it is one to report and the budget lasts.
pub fn note_perm_fault(
    c: &mut AlrtCapture,
    elr: u32,
    ipa: u32,
    value: Option<u32>,
    srt: u32,
    src_cpsr: u32,
) -> (r: Option<Captured>)
    ensures
        *final(c) == noted(*old(c), ipa),
        r == (if watched(*old(c), ipa) && in_window(ipa) && old(c).budget > 0 {
            Some(Captured { offset: ipa % 0x1000, elr, value, srt, mode: src_cpsr & 0x1F })
        } else {
            None
        }),
{
    if !is_armed_pa(c, ipa) {
        return None;
    }
    c.total_traps = c.total_traps.wrapping_add(1);
    c.rearm_pending = true;
    let left: u32 = c.budget;
    if left > 0 {
        c.budget = left - 1;
    }
    let off: u32 = ipa % 0x1000;
    if off < CLIST_OFFSET_LO || off >= CLIST_OFFSET_HI {
        c.out_of_window = c.out_of_window.wrapping_add(1);
        return None;
    }
    if left == 0 {
        return None;
    }
    Some(Captured { offset: off, elr, value, srt, mode: src_cpsr & 0x1F })
}

/// The page to make read-only again, if a write to it trapped since.
pub fn maybe_rearm(c: &mut AlrtCapture) -> (page: Option<u32>)
    ensures
        page == (if old(c).target_pa != 0 && old(c).rearm_pending {
            Some(old(c).target_pa)
        } else {
            None
        }),
        *final(c) == (if old(c).target_pa != 0 {
            AlrtCapture { rearm_pending: false, ..*old(c) }
        } else {
            *old(c)
        }),
{
    if c.target_pa == 0 {
        return None;
    }
    if c.rearm_pending {
        c.rearm_pending = false;
        return Some(c.target_pa);
    }
    None
}

/// The counters of the watch: its page, the writes that trapped, those outside the reported
/// part, and what is left of the budget.
pub fn dump_counters(c: &AlrtCapture) -> (r: (u32, u32, u32, u32))
    ensures
        r == (c.target_pa, c.total_traps, c.out_of_window, c.budget),
{
    (c.target_pa, c.total_traps, c.out_of_window, c.budget)
}

/// What a trapped write does to the watch. A write outside the watched page does nothing. One inside
/// is counted, asks for the page to be protected again and uses up one of the reports that are left;
/// one outside the bytes 0x7C0 to 0x7FF of the page is counted as such too.
pub proof fn trapped_writes_are_counted(c: AlrtCapture, ipa: u32)
    requires
        c.total_traps < u32::MAX,
        c.out_of_window < u32::MAX,
    ensures
        ({
            let n = noted(c, ipa);
            let inside = c.target_pa != 0 && ipa as int / 0x1000 * 0x1000 == c.target_pa;
            let shown = 0x7C0 <= ipa % 0x1000 <= 0x7FF;
            &&& watched(c, ipa) <==> inside
            &&& in_window(ipa) <==> shown
            &&& !inside ==> n == c
            &&& inside ==> {
                &&& n.target_pa == c.target_pa
                &&& n.rearm_pending
                &&& n.total_traps == c.total_traps + 1
                &&& n.out_of_window == c.out_of_window + (if shown {
                    0int
                } else {
                    1
                })
                &&& c.budget > 0 ==> n.budget == c.budget - 1
                &&& c.budget == 0 ==> n.budget == 0
            }
        }),
        page_of(ipa) == ipa as int / 0x1000 * 0x1000,
{
}

/// No write is missed: after one has trapped, the page is made read-only again, whether or
/// not the write was reported.
pub proof fn every_trap_rearms(c: AlrtCapture, ipa: u32)
    requires
        watched(c, ipa),
    ensures
        noted(c, ipa).rearm_pending,
        noted(c, ipa).target_pa == c.target_pa,
{
}

} // verus!
