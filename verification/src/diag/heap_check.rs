//! The guest's object heap, as the probes look at it. The bounds are kept for good once they
//! are found, so they are read through the guest's own translation alone: the words of
//! physical memory at those addresses would be unrelated.

use crate::guest_endian;
use crate::guest_endian::{guest_read_u32_pa, guest_read_u32_va};
use crate::guest_mem::{GuestMem, MemView};
use crate::heap_check::{HeapCheck, HeapReport, G_OBJECT_HEAP};
use crate::ref_printer;
use vstd::prelude::*;

verus! {

/// The bounds that the guest's memory gives at the guest's virtual addresses.
pub open spec fn bounds_in(m: MemView) -> Option<(u32, u32)> {
    match guest_endian::value_va(m, G_OBJECT_HEAP) {
        Some(p) if p != 0 => match (
            guest_endian::value_va(m, p.wrapping_add(8)),
            guest_endian::value_va(m, p.wrapping_add(12)),
        ) {
            (Some(lo), Some(hi)) if lo < hi => Some((lo, hi)),
            _ => None,
        },
        _ => None,
    }
}

/// The bounds: those found before, or those that the guest's memory gives now.
pub open spec fn bounds(c: HeapCheck, m: MemView) -> Option<(u32, u32)> {
    if c.lo != 0 || c.hi != 0 {
        Some((c.lo, c.hi))
    } else {
        bounds_in(m)
    }
}

/// Where the bounds come from: the word at the guest's virtual address 0x0C10_5548 holds the address of
/// the heap's head, zero before there is one, and the words 8 and 12 bytes behind it the heap's start
/// and end. Bounds that are known already are kept; bounds out of order count as none.
pub proof fn bounds_are_the_guests(c: HeapCheck, m: MemView)
    ensures
        ({
            let p = guest_endian::value_va(m, 0x0C10_5548);
            let lo = guest_endian::value_va(m, ((p->0 + 8) % 0x1_0000_0000) as u32);
            let hi = guest_endian::value_va(m, ((p->0 + 12) % 0x1_0000_0000) as u32);
            let sound = p is Some && p->0 != 0 && lo is Some && hi is Some && lo->0 < hi->0;
            &&& c.lo != 0 || c.hi != 0 ==> bounds(c, m) == Some((c.lo, c.hi))
            &&& c.lo == 0 && c.hi == 0 && sound ==> bounds(c, m) == Some((lo->0, hi->0))
            &&& c.lo == 0 && c.hi == 0 && !sound ==> bounds(c, m) is None
        }),
{
}

/// The bounds of the object heap.
pub fn heap_bounds(c: &mut HeapCheck, mem: &GuestMem) -> (b: Option<(u32, u32)>)
    requires
        mem.wf(),
        old(c).wf(),
    ensures
        final(c).wf(),
        b == bounds(*old(c), mem@),
        *final(c) == (match bounds(*old(c), mem@) {
            Some((lo, hi)) => HeapCheck { lo, hi, ..*old(c) },
            None => *old(c),
        }),
{
    if c.lo != 0 || c.hi != 0 {
        return Some((c.lo, c.hi));
    }
    let heap_ptr: u32 = match guest_read_u32_va(mem, G_OBJECT_HEAP) {
        Some(p) => p,
        None => {
            return None;
        },
    };
    if heap_ptr == 0 {
        return None;
    }
    let lo: u32 = match guest_read_u32_va(mem, heap_ptr.wrapping_add(8)) {
        Some(w) => w,
        None => {
            return None;
        },
    };
    let hi: u32 = match guest_read_u32_va(mem, heap_ptr.wrapping_add(12)) {
        Some(w) => w,
        None => {
            return None;
        },
    };
    if lo >= hi {
        return None;
    }
    c.lo = lo;
    c.hi = hi;
    Some((lo, hi))
}

/// Reports the bounds, the first time that they are known.
pub fn log_heap_bounds_once(c: &mut HeapCheck, mem: &GuestMem) -> (r: Option<HeapReport>)
    requires
        mem.wf(),
        old(c).wf(),
    ensures
        final(c).wf(),
        old(c).logged ==> r is None && *final(c) == *old(c),
        !old(c).logged ==> match bounds(*old(c), mem@) {
            None => r is None && *final(c) == *old(c),
            Some((lo, hi)) => {
                &&& *final(c) == (HeapCheck { lo, hi, logged: true })
                &&& r == Some(
                    HeapReport {
                        heap_ptr: match guest_endian::value_any(mem@, G_OBJECT_HEAP) {
                            Some(p) => p,
                            None => 0,
                        },
                        lo,
                        hi,
                        kib: ((hi - lo) / 1024) as u32,
                    },
                )
            },
        },
{
    if c.logged {
        return None;
    }
    match heap_bounds(c, mem) {
        Some((lo, hi)) => {
            c.logged = true;
            let found = match guest_read_u32_va(mem, G_OBJECT_HEAP) {
                Some(w) => Some(w),
                None => guest_read_u32_pa(mem, G_OBJECT_HEAP),
            };
            let heap_ptr: u32 = match found {
                Some(p) => p,
                None => 0,
            };
            Some(HeapReport { heap_ptr, lo, hi, kib: (hi - lo) / 1024 })
        },
        None => None,
    }
}

/// A reference rendered, with neither label nor line end.
pub fn pretty_print_ref_inline(mem: &GuestMem, ref_value: u32, depth: u32) -> (out: String)
    requires
        mem.wf(),
    ensures
        out@ == ref_printer::ref_text(mem@, ref_value, depth as nat),
{
    crate::heap_check::pretty_print_ref_inline(mem, ref_value, depth)
}

} // verus!
