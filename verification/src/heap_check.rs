//! The guest's object heap: where it lies, whether a reference points into it, and what the
//! object behind a reference looks like.

use crate::guest_endian;
use crate::guest_endian::{
    guest_read_bytes_va, guest_read_u32_pa, guest_read_u32_va, guest_write_u32_pa,
    guest_write_u32_va,
};
use crate::guest_mem::{GuestMem, MemView};
use crate::newton_objects;
use crate::newton_objects::{Endian, Heap, HeapView, ObjKind, ObjView, Object, Ref, SYMBOL_CLASS};
use crate::ref_printer;
use crate::ref_printer::write_ref;
use crate::text;
use crate::text::{push_dec, push_hex8, push_int, push_text};
use vstd::prelude::*;

verus! {

/// Where the guest keeps the address of its object heap.
pub const G_OBJECT_HEAP: u32 = 0x0C10_5548;

/// Where the guest keeps its serial-debugging flags.
pub const G_WANT_SERIAL_DEBUGGING: u32 = 0x0C10_17C4;

/// The value that turns every one of those flags on.
pub const SERIAL_DEBUGGING_ON: u32 = 0x48FF_FFFF;

/// Where the guest keeps the address of its interpreter.
pub const G_INTERPRETER_PTR: u32 = 0x0C10_5458;

/// The interpreter's trace flag.
pub const TINTERPRETER_TRACE_OFF: u32 = 124;

/// Bytes that are read of an object to be dumped.
pub const DUMP_BUF_BYTES: usize = 256;

/// The bounds of the heap, once they are known, and whether they have been reported.
#[derive(Clone, Copy, PartialEq, Eq, Structural)]
pub struct HeapCheck {
    pub lo: u32,
    pub hi: u32,
    pub logged: bool,
}

impl HeapCheck {
    /// Bounds are ordered, or else unknown, and only known ones have been reported.
    pub open spec fn wf(self) -> bool {
        self.lo < self.hi || self.lo == 0 && self.hi == 0 && !self.logged
    }

    /// No bounds are known yet.
    pub fn new() -> (c: HeapCheck)
        ensures
            c.wf(),
            c == (HeapCheck { lo: 0, hi: 0, logged: false }),
    {
        HeapCheck { lo: 0, hi: 0, logged: false }
    }
}

/// The bounds that the guest's memory gives: none before its heap is set up, or where they
/// make no sense.
pub open spec fn bounds_in(m: MemView) -> Option<(u32, u32)> {
    match guest_endian::value_any(m, G_OBJECT_HEAP) {
        Some(p) if p != 0 => match (
            guest_endian::value_any(m, p.wrapping_add(8)),
            guest_endian::value_any(m, p.wrapping_add(12)),
        ) {
            (Some(lo), Some(hi)) if lo < hi => Some((lo, hi)),
            _ => None,
        },
        _ => None,
    }
}

/// The bounds: those found before, or those that the guest's memory gives now.
pub open spec fn bounds(c: HeapCheck, m: MemView) -> Option<(u32, u32)> {
    if c.lo != 0 || c.hi != 0 {
        Some((c.lo, c.hi))
    } else {
        bounds_in(m)
    }
}

/// What is kept once the bounds have been asked for.
pub open spec fn kept(c: HeapCheck, m: MemView) -> HeapCheck {
    match bounds(c, m) {
        Some((lo, hi)) => HeapCheck { lo, hi, ..c },
        None => c,
    }
}

/// What is kept once the bounds have been reported, if there are any.
pub open spec fn reported(c: HeapCheck, m: MemView) -> HeapCheck {
    match bounds(c, m) {
        Some((lo, hi)) => HeapCheck { lo, hi, logged: true },
        None => c,
    }
}

/// Bounds, once found, never change: later memory is not asked.
pub proof fn bounds_are_kept(c: HeapCheck, m: MemView, later: MemView)
    requires
        bounds(c, m) is Some,
    ensures
        bounds(kept(c, m), later) == bounds(c, m),
{
}

/// Reads a word at a virtual address, or failing that at a physical one.
fn read_word(mem: &GuestMem, va: u32) -> (w: Option<u32>)
    requires
        mem.wf(),
    ensures
        w == guest_endian::value_any(mem@, va),
{
    match guest_read_u32_va(mem, va) {
        Some(w) => Some(w),
        None => guest_read_u32_pa(mem, va),
    }
}

/// The bounds of the object heap.
pub fn heap_bounds(c: &mut HeapCheck, mem: &GuestMem) -> (b: Option<(u32, u32)>)
    requires
        mem.wf(),
        old(c).wf(),
    ensures
        final(c).wf(),
        b == bounds(*old(c), mem@),
        *final(c) == kept(*old(c), mem@),
{
    if c.lo != 0 || c.hi != 0 {
        return Some((c.lo, c.hi));
    }
    let heap_ptr: u32 = match read_word(mem, G_OBJECT_HEAP) {
        Some(p) => p,
        None => {
            return None;
        },
    };
    if heap_ptr == 0 {
        return None;
    }
    let lo: u32 = match read_word(mem, heap_ptr.wrapping_add(8)) {
        Some(w) => w,
        None => {
            return None;
        },
    };
    let hi: u32 = match read_word(mem, heap_ptr.wrapping_add(12)) {
        Some(w) => w,
        None => {
            return None;
        },
    };
    if lo >= hi {
        return None;
    }
    c.lo = lo;
    c.hi = hi;
    Some((lo, hi))
}

/// Where the object of a pointer lies.
#[derive(Clone, Copy, PartialEq, Eq, Structural, Debug)]
pub enum PtrLoc {
    InHeap,
    OutOfHeap,
    /// The heap is not set up yet.
    HeapUnknown,
}

/// Where an address lies.
pub open spec fn location(b: Option<(u32, u32)>, addr: u32) -> PtrLoc {
    match b {
        Some((lo, hi)) => if lo <= addr < hi {
            PtrLoc::InHeap
        } else {
            PtrLoc::OutOfHeap
        },
        None => PtrLoc::HeapUnknown,
    }
}

/// Where an address lies, with regard to the object heap.
pub fn classify_ptr(c: &mut HeapCheck, mem: &GuestMem, addr: u32) -> (loc: PtrLoc)
    requires
        mem.wf(),
        old(c).wf(),
    ensures
        final(c).wf(),
        loc == location(bounds(*old(c), mem@), addr),
        *final(c) == kept(*old(c), mem@),
{
    match heap_bounds(c, mem) {
        Some((lo, hi)) => {
            if addr >= lo && addr < hi {
                PtrLoc::InHeap
            } else {
                PtrLoc::OutOfHeap
            }
        },
        None => PtrLoc::HeapUnknown,
    }
}

/// The words for where a pointer points.
pub open spec fn location_text(loc: PtrLoc, addr: u32) -> Seq<char> {
    match loc {
        PtrLoc::InHeap => "in-heap"@,
        PtrLoc::OutOfHeap => if addr < 0x100_0000 {
            "ROM    "@
        } else {
            "OUT-OF-HEAP"@
        },
        PtrLoc::HeapUnknown => "heap?"@,
    }
}

/// What a reference is, in words.
pub open spec fn ref_class_text(b: Option<(u32, u32)>, r: u32) -> Seq<char> {
    if r % 4 == 0 {
        "integer "@ + text::int_text(newton_objects::signed(r) / 4)
    } else if r % 4 == 1 {
        "real-ptr "@ + location_text(location(b, (r - 1) as u32), (r - 1) as u32) + " @"@
            + text::hex8((r - 1) as nat)
    } else if r % 4 == 3 {
        "magic-ptr "@ + text::dec((r / 4) as nat)
    } else if r == 0x02 {
        "NIL"@
    } else if r == 0x1A {
        "TRUE"@
    } else {
        "immediate (char/special)"@
    }
}

/// The line that reports a reference.
pub open spec fn ref_line(b: Option<(u32, u32)>, label: Seq<char>, r: u32) -> Seq<char> {
    label + ": ref="@ + text::hex8(r as nat) + " → "@ + ref_class_text(b, r)
}

/// The line that reports a reference, behind a label. Only a pointer asks for the bounds.
pub fn log_ref(c: &mut HeapCheck, mem: &GuestMem, label: &str, ref_value: u32) -> (line: String)
    requires
        mem.wf(),
        old(c).wf(),
    ensures
        final(c).wf(),
        line@ == ref_line(bounds(*old(c), mem@), label@, ref_value),
        *final(c) == (if ref_value % 4 == 1 {
            kept(*old(c), mem@)
        } else {
            *old(c)
        }),
{
    let ghost b = bounds(*old(c), mem@);
    let mut out = String::new();
    push_text(&mut out, label);
    push_text(&mut out, ": ref=");
    push_hex8(&mut out, ref_value);
    push_text(&mut out, " → ");
    let ghost head = out@;
    assert(head =~= label@ + ": ref="@ + text::hex8(ref_value as nat) + " → "@);
    if ref_value % 4 == 0 {
        push_text(&mut out, "integer ");
        if let newton_objects::RefKind::Integer(v) = Ref(ref_value).kind() {
            push_int(&mut out, v);
        }
    } else if ref_value % 4 == 1 {
        let addr: u32 = ref_value - 1;
        push_text(&mut out, "real-ptr ");
        match classify_ptr(c, mem, addr) {
            PtrLoc::InHeap => push_text(&mut out, "in-heap"),
            PtrLoc::OutOfHeap => {
                if addr < 0x100_0000 {
                    push_text(&mut out, "ROM    ");
                } else {
                    push_text(&mut out, "OUT-OF-HEAP");
                }
            },
            PtrLoc::HeapUnknown => push_text(&mut out, "heap?"),
        }
        push_text(&mut out, " @");
        push_hex8(&mut out, addr);
    } else if ref_value % 4 == 3 {
        push_text(&mut out, "magic-ptr ");
        push_dec(&mut out, (ref_value / 4) as u64);
    } else if ref_value == 0x02 {
        push_text(&mut out, "NIL");
    } else if ref_value == 0x1A {
        push_text(&mut out, "TRUE");
    } else {
        push_text(&mut out, "immediate (char/special)");
    }
    assert(out@ =~= head + ref_class_text(b, ref_value));
    out
}

/// Where the bounds come from: the word at 0x0C10_5548 holds the address of the heap's head, zero
/// before there is one, and the words 8 and 12 bytes behind it the heap's start and end. Bounds that
/// are known already are kept; bounds out of order count as none.
pub proof fn bounds_are_the_guests(c: HeapCheck, m: MemView)
    ensures
        ({
            let p = guest_endian::value_any(m, 0x0C10_5548);
            let lo = guest_endian::value_any(m, ((p->0 + 8) % 0x1_0000_0000) as u32);
            let hi = guest_endian::value_any(m, ((p->0 + 12) % 0x1_0000_0000) as u32);
            let sound = p is Some && p->0 != 0 && lo is Some && hi is Some && lo->0 < hi->0;
            &&& c.lo != 0 || c.hi != 0 ==> bounds(c, m) == Some((c.lo, c.hi))
            &&& c.lo == 0 && c.hi == 0 && sound ==> bounds(c, m) == Some((lo->0, hi->0))
            &&& c.lo == 0 && c.hi == 0 && !sound ==> bounds(c, m) is None
            &&& bounds(c, m) is None ==> kept(c, m) == c && reported(c, m) == c
            &&& bounds(c, m) matches Some(b) ==> kept(c, m) == (HeapCheck {
                lo: b.0,
                hi: b.1,
                logged: c.logged,
            }) && reported(c, m) == (HeapCheck { lo: b.0, hi: b.1, logged: true })
        }),
{
}

/// An address is in the heap from its start up to, and not with, its end; with no bounds known nothing
/// is said of it.
pub proof fn heap_holds_its_addresses(lo: u32, hi: u32, addr: u32)
    ensures
        location(Some((lo, hi)), addr) == PtrLoc::InHeap <==> lo <= addr && addr < hi,
        location(Some((lo, hi)), addr) == PtrLoc::OutOfHeap <==> addr < lo || hi <= addr,
        location(None, addr) == PtrLoc::HeapUnknown,
{
}

/// What is said of a reference is by its two low bits: an integer with its value, a pointer with where
/// it points and its address, a magic pointer with its number, and NIL and TRUE by name. A pointer out
/// of the heap and below 16 MiB points into the ROM.
pub proof fn references_are_told_apart(b: Option<(u32, u32)>, r: u32)
    ensures
        r % 4 == 0 && r < 0x8000_0000 ==> ref_class_text(b, r) == "integer "@ + text::int_text(
            r as int / 4,
        ),
        r % 4 == 0 && r >= 0x8000_0000 ==> ref_class_text(b, r) == "integer "@ + text::int_text(
            (r - 0x1_0000_0000) / 4,
        ),
        r % 4 == 1 ==> ref_class_text(b, r) == "real-ptr "@ + (match b {
            Some((lo, hi)) => if lo <= r - 1 < hi {
                "in-heap"@
            } else if r - 1 < 0x0100_0000 {
                "ROM    "@
            } else {
                "OUT-OF-HEAP"@
            },
            None => "heap?"@,
        }) + " @"@ + text::hex8((r - 1) as nat),
        r % 4 == 3 ==> ref_class_text(b, r) == "magic-ptr "@ + text::dec((r / 4) as nat),
        r == 2 ==> ref_class_text(b, r) == "NIL"@,
        r == 26 ==> ref_class_text(b, r) == "TRUE"@,
        r % 4 == 2 && r != 2 && r != 26 ==> ref_class_text(b, r) == "immediate (char/special)"@,
{
}

/// The report of the heap's bounds.
#[derive(Clone, Copy, PartialEq, Eq, Structural)]
pub struct HeapReport {
    pub heap_ptr: u32,
    pub lo: u32,
    pub hi: u32,
    pub kib: u32,
}

/// Reports the bounds, the first time that they are known.
pub fn log_heap_bounds_once(c: &mut HeapCheck, mem: &GuestMem) -> (r: Option<HeapReport>)
    requires
        mem.wf(),
        old(c).wf(),
    ensures
        final(c).wf(),
        old(c).logged ==> r is None && *final(c) == *old(c),
        !old(c).logged ==> match bounds(*old(c), mem@) {
            None => r is None && *final(c) == *old(c),
            Some((lo, hi)) => {
                &&& *final(c) == (HeapCheck { lo, hi, logged: true })
                &&& r == Some(
                    HeapReport {
                        heap_ptr: match guest_endian::value_any(mem@, G_OBJECT_HEAP) {
                            Some(p) => p,
                            None => 0,
                        },
                        lo,
                        hi,
                        kib: ((hi - lo) / 1024) as u32,
                    },
                )
            },
        },
{
    if c.logged {
        return None;
    }
    match heap_bounds(c, mem) {
        Some((lo, hi)) => {
            c.logged = true;
            let heap_ptr: u32 = match read_word(mem, G_OBJECT_HEAP) {
                Some(p) => p,
                None => 0,
            };
            Some(HeapReport { heap_ptr, lo, hi, kib: (hi - lo) / 1024 })
        },
        None => None,
    }
}

/// Whether a word can be written at an address, taken as virtual or else as physical.
pub open spec fn writable_any(m: MemView, va: u32) -> bool {
    m.writable(m.effective(va), 4) || m.writable(va, 4)
}

/// The memory after a word was written so.
pub open spec fn stored_any(m: MemView, va: u32, value: u32) -> MemView {
    if m.writable(m.effective(va), 4) {
        guest_endian::stored_pa(m, m.effective(va), value)
    } else {
        guest_endian::stored_pa(m, va, value)
    }
}

/// Writes a word at a virtual address, or failing that at a physical one.
fn write_word(mem: &mut GuestMem, va: u32, value: u32) -> (done: bool)
    requires
        old(mem).wf(),
    ensures
        final(mem).wf(),
        done == writable_any(old(mem)@, va),
        final(mem)@ == stored_any(old(mem)@, va, value),
{
    let ghost m = mem@;
    if guest_write_u32_va(mem, va, value) {
        return true;
    }
    assert(mem@ == m);
    guest_write_u32_pa(mem, va, value)
}

/// What came of setting the interpreter's trace flag.
#[derive(Clone, Copy, PartialEq, Eq, Structural, Debug)]
pub enum TraceSet {
    /// Set, in the interpreter at an address.
    On(u32),
    /// It could not be written.
    Failed(u32),
    /// The guest has no interpreter yet.
    NotInit,
}

/// What comes of setting the trace flag.
pub open spec fn trace_outcome(m: MemView) -> TraceSet {
    match guest_endian::value_any(m, G_INTERPRETER_PTR) {
        Some(p) if p != 0 => if writable_any(m, p.wrapping_add(TINTERPRETER_TRACE_OFF)) {
            TraceSet::On(p)
        } else {
            TraceSet::Failed(p)
        },
        _ => TraceSet::NotInit,
    }
}

/// The memory with the trace flag set, if the guest has an interpreter.
pub open spec fn traced(m: MemView) -> MemView {
    match guest_endian::value_any(m, G_INTERPRETER_PTR) {
        Some(p) if p != 0 => stored_any(m, p.wrapping_add(TINTERPRETER_TRACE_OFF), 1),
        _ => m,
    }
}

/// The trace flag is the word 124 bytes into the interpreter that the word at 0x0C10_5458 points at.
/// Where there is an interpreter and the word can be written, it is one afterwards; where there is
/// none, nothing is written.
pub proof fn trace_flag_is_set(m: MemView)
    requires
        m.wf(),
    ensures
        ({
            let p = guest_endian::value_any(m, 0x0C10_5458);
            let at = ((p->0 + 124) % 0x1_0000_0000) as u32;
            let va = m.effective(at);
            let there = p is Some && p->0 != 0;
            &&& !there ==> trace_outcome(m) is NotInit && traced(m) == m
            &&& there ==> trace_outcome(m) == (if m.writable(va, 4) || m.writable(at, 4) {
                TraceSet::On(p->0)
            } else {
                TraceSet::Failed(p->0)
            })
            &&& there && m.writable(va, 4) ==> guest_endian::value_pa(traced(m), va) == Some(1u32)
            &&& there && !m.writable(va, 4) && m.writable(at, 4) ==> guest_endian::value_pa(
                traced(m),
                at,
            ) == Some(1u32)
            &&& trace_outcome(m) is Failed ==> traced(m) == m
        }),
{
    let p = guest_endian::value_any(m, 0x0C10_5458);
    if p is Some && p->0 != 0 {
        let at = ((p->0 + 124) % 0x1_0000_0000) as u32;
        let va = m.effective(at);
        if m.writable(va, 4) {
            guest_endian::stored_value_reads_back(m, va, 1);
        } else if m.writable(at, 4) {
            guest_endian::stored_value_reads_back(m, at, 1);
        }
    }
}

/// A word that is written reads back, at the virtual address where that can be written and at the
/// physical one where only that can.
pub proof fn written_words_read_back(m: MemView, va: u32, value: u32)
    requires
        m.wf(),
    ensures
        writable_any(m, va) <==> m.writable(m.effective(va), 4) || m.writable(va, 4),
        m.writable(m.effective(va), 4) ==> guest_endian::value_pa(
            stored_any(m, va, value),
            m.effective(va),
        ) == Some(value),
        !m.writable(m.effective(va), 4) && m.writable(va, 4) ==> guest_endian::value_pa(
            stored_any(m, va, value),
            va,
        ) == Some(value),
        !writable_any(m, va) ==> stored_any(m, va, value) == m,
{
    if m.writable(m.effective(va), 4) {
        guest_endian::stored_value_reads_back(m, m.effective(va), value);
    } else if m.writable(va, 4) {
        guest_endian::stored_value_reads_back(m, va, value);
    }
}

/// Sets the interpreter's trace flag.
pub fn force_interpreter_trace_on(mem: &mut GuestMem) -> (t: TraceSet)
    requires
        old(mem).wf(),
    ensures
        final(mem).wf(),
        t == trace_outcome(old(mem)@),
        final(mem)@ == traced(old(mem)@),
{
    match read_word(mem, G_INTERPRETER_PTR) {
        Some(p) => {
            if p == 0 {
                TraceSet::NotInit
            } else if write_word(mem, p.wrapping_add(TINTERPRETER_TRACE_OFF), 1) {
                TraceSet::On(p)
            } else {
                TraceSet::Failed(p)
            }
        },
        None => TraceSet::NotInit,
    }
}

/// The line that reports both settings.
pub open spec fn force_text(serial: bool, t: TraceSet) -> Seq<char> {
    (if serial {
        "WantSerial=on"@
    } else {
        "WantSerial=ERR"@
    }) + " "@ + match t {
        TraceSet::On(_) => "TInterp=on "@,
        TraceSet::Failed(_) => "TInterp=ERR "@,
        TraceSet::NotInit => "TInterp=not-init "@,
    }
}

/// Turns the guest's serial debugging and its interpreter's trace on: the line that reports
/// what came of it.
pub fn force_kernel_diag_on(mem: &mut GuestMem) -> (line: String)
    requires
        old(mem).wf(),
    ensures
        final(mem).wf(),
        ({
            let after = stored_any(old(mem)@, G_WANT_SERIAL_DEBUGGING, SERIAL_DEBUGGING_ON);
            &&& final(mem)@ == traced(after)
            &&& line@ == force_text(
                writable_any(old(mem)@, G_WANT_SERIAL_DEBUGGING),
                trace_outcome(after),
            )
        }),
{
    let mut out = String::new();
    let serial: bool = write_word(mem, G_WANT_SERIAL_DEBUGGING, SERIAL_DEBUGGING_ON);
    if serial {
        push_text(&mut out, "WantSerial=on");
    } else {
        push_text(&mut out, "WantSerial=ERR");
    }
    push_text(&mut out, " ");
    let t = force_interpreter_trace_on(mem);
    match t {
        TraceSet::On(_) => push_text(&mut out, "TInterp=on "),
        TraceSet::Failed(_) => push_text(&mut out, "TInterp=ERR "),
        TraceSet::NotInit => push_text(&mut out, "TInterp=not-init "),
    }
    assert(out@ =~= force_text(serial, t));
    out
}

/// The tail of an object's first line: its address and its size.
pub open spec fn place_text(o: ObjView) -> Seq<char> {
    " @"@ + text::hex8(o.offset as nat) + " size="@ + text::dec(o.size as nat)
}

/// The stored hash of a symbol.
pub open spec fn stored_hash(o: ObjView) -> u32 {
    if o.data().len() < 4 {
        0
    } else {
        match o.heap.endian {
            Endian::Big => crate::words::be32(o.data(), 0),
            Endian::Little => crate::words::le32(o.data(), 0),
        }
    }
}

/// The line for a binary.
pub open spec fn binary_line(o: ObjView) -> Seq<char> {
    if o.class().0 == SYMBOL_CLASS {
        match newton_objects::symbol_text(o) {
            Some(n) => "symbol '"@ + n + " (hash="@ + text::hex8(stored_hash(o) as nat) + ")"@
                + place_text(o),
            None => "symbol <bad-utf8>"@ + place_text(o),
        }
    } else {
        "binary class="@ + newton_objects::ref_text(o.class().0) + place_text(o) + " (data "@
            + text::dec(o.data().len()) + " B)"@
    }
}

/// The line for slot `i`.
pub open spec fn slot_line(indent: Seq<char>, mark: Seq<char>, i: nat, r: Ref) -> Seq<char> {
    indent + mark + text::dec(i) + "] = "@ + newton_objects::ref_text(r.0) + "\n"@
}

/// The lines for the slots from `i` on: eight at most, up to one that cannot be read.
pub open spec fn slot_lines(o: ObjView, indent: Seq<char>, mark: Seq<char>, i: nat) -> Seq<char>
    decreases 8 - i,
{
    if i >= 8 {
        seq![]
    } else {
        match o.slot(i as int) {
            Some(r) => slot_line(indent, mark, i, r) + slot_lines(o, indent, mark, i + 1),
            None => seq![],
        }
    }
}

/// The first line of an array or a frame.
pub open spec fn slotted_head(o: ObjView, indent: Seq<char>, title: Seq<char>) -> Seq<char> {
    indent + title + newton_objects::ref_text(o.class().0) + place_text(o) + " len="@ + text::dec(
        o.slots() as nat,
    ) + "\n"@
}

/// The line for the slots that are not shown.
pub open spec fn more_line(o: ObjView, indent: Seq<char>) -> Seq<char> {
    indent + "  ... ("@ + text::dec((o.slots() - 8) as nat) + " more slots)\n"@
}

/// The lines of an array or a frame.
pub open spec fn slotted_lines(
    o: ObjView,
    indent: Seq<char>,
    title: Seq<char>,
    mark: Seq<char>,
) -> Seq<char> {
    slotted_head(o, indent, title) + slot_lines(o, indent, mark, 0) + (if o.slots() > 8 {
        more_line(o, indent)
    } else {
        seq![]
    })
}

/// The lines of an object.
pub open spec fn object_lines(o: ObjView, indent: Seq<char>) -> Seq<char> {
    match o.kind() {
        ObjKind::Binary => indent + binary_line(o) + "\n"@,
        ObjKind::Array => slotted_lines(o, indent, "array class="@, "  ["@),
        ObjKind::Frame => slotted_lines(o, indent, "frame map="@, "  slot["@),
    }
}

/// A dump shows the first eight slots: each of them that can be read, with those before it, has its
/// line, and slots behind the eighth are counted and not shown.
pub proof fn first_slots_are_shown(o: ObjView, indent: Seq<char>, mark: Seq<char>, k: nat)
    requires
        k < 8,
        forall|j: int| 0 <= j <= k ==> #[trigger] o.slot(j) is Some,
    ensures
        text::within(
            indent + mark + text::dec(k) + "] = "@ + newton_objects::ref_text((o.slot(k as int)->0).0)
                + "\n"@,
            slot_lines(o, indent, mark, 0),
        ),
{
    shown_from(o, indent, mark, 0, k);
}

proof fn shown_from(o: ObjView, indent: Seq<char>, mark: Seq<char>, i: nat, k: nat)
    requires
        i <= k < 8,
        forall|j: int| 0 <= j <= k ==> #[trigger] o.slot(j) is Some,
    ensures
        text::within(
            slot_line(indent, mark, k, o.slot(k as int)->0),
            slot_lines(o, indent, mark, i),
        ),
    decreases k - i,
{
    let line = slot_line(indent, mark, k, o.slot(k as int)->0);
    assert(o.slot(i as int) is Some);
    let rest = slot_lines(o, indent, mark, i + 1);
    let here = slot_line(indent, mark, i, o.slot(i as int)->0);
    if i == k {
        text::within_longer(line, here, Seq::empty(), rest);
    } else {
        shown_from(o, indent, mark, i + 1, k);
        text::within_longer(line, rest, here, Seq::empty());
    }
}

/// What a dump says of an object: a symbol with its name, another binary with its class and the length
/// of its data, an array with its class and a frame with its map, and of each its address and size. A
/// reference that is no pointer has no dump.
pub proof fn objects_are_described(m: MemView, o: ObjView, indent: Seq<char>, r: u32)
    ensures
        o.kind() is Binary && o.class().0 == 0x55552 && newton_objects::symbol_text(o) is Some
            ==> text::within(
            "symbol '"@ + newton_objects::symbol_text(o)->0 + " (hash="@,
            object_lines(o, indent),
        ),
        o.kind() is Binary && o.class().0 != 0x55552 ==> text::within(
            "binary class="@ + newton_objects::ref_text(o.class().0),
            object_lines(o, indent),
        ) && text::within(" (data "@ + text::dec(o.data().len()) + " B)"@, object_lines(o, indent)),
        o.kind() is Array ==> text::within(
            "array class="@ + newton_objects::ref_text(o.class().0),
            object_lines(o, indent),
        ),
        o.kind() is Frame ==> text::within(
            "frame map="@ + newton_objects::ref_text(o.class().0),
            object_lines(o, indent),
        ),
        text::within(
            " @"@ + text::hex8(o.offset as nat) + " size="@ + text::dec(o.size as nat),
            object_lines(o, indent),
        ),
        o.kind() is Array || o.kind() is Frame ==> (o.slots() > 8 ==> text::within(
            "  ... ("@ + text::dec((o.slots() - 8) as nat) + " more slots)\n"@,
            object_lines(o, indent),
        )),
        r % 4 != 1 ==> dump_lines(m, indent, r).len() == 0,
{
    let e = Seq::<char>::empty();
    let place = " @"@ + text::hex8(o.offset as nat) + " size="@ + text::dec(o.size as nat);
    let all = object_lines(o, indent);
    match o.kind() {
        ObjKind::Binary => {
            let line = binary_line(o);
            if o.class().0 == SYMBOL_CLASS {
                match newton_objects::symbol_text(o) {
                    Some(n) => {
                        let head = "symbol '"@ + n + " (hash="@;
                        let tail = text::hex8(stored_hash(o) as nat) + ")"@;
                        assert(all =~= indent + head + (tail + place + "\n"@));
                        assert(all =~= (indent + head + tail) + place + "\n"@);
                    },
                    None => {
                        assert(all =~= (indent + "symbol <bad-utf8>"@) + place + "\n"@);
                    },
                }
            } else {
                let head = "binary class="@ + newton_objects::ref_text(o.class().0);
                let tail = " (data "@ + text::dec(o.data().len()) + " B)"@;
                assert(all =~= indent + head + (place + tail + "\n"@));
                assert(all =~= (indent + head) + place + (tail + "\n"@));
                assert(all =~= (indent + head + place) + tail + "\n"@);
            }
        },
        _ => {
            let title = if o.kind() is Array {
                "array class="@
            } else {
                "frame map="@
            };
            let mark = if o.kind() is Array {
                "  ["@
            } else {
                "  slot["@
            };
            let head = title + newton_objects::ref_text(o.class().0);
            let slots = slot_lines(o, indent, mark, 0);
            let more = if o.slots() > 8 {
                more_line(o, indent)
            } else {
                seq![]
            };
            let tail = " len="@ + text::dec(o.slots() as nat) + "\n"@ + slots + more;
            assert(all =~= indent + head + (place + tail));
            assert(all =~= (indent + head) + place + tail);
            if o.slots() > 8 {
                let m = "  ... ("@ + text::dec((o.slots() - 8) as nat) + " more slots)\n"@;
                assert(more =~= indent + m);
                assert(all =~= (slotted_head(o, indent, title) + slots + indent) + m + e);
            }
        },
    }
}

fn push_place(out: &mut String, offset: u32, size: u32)
    ensures
        final(out)@ == old(out)@ + (" @"@ + text::hex8(offset as nat) + " size="@ + text::dec(
            size as nat,
        )),
{
    push_text(out, " @");
    push_hex8(out, offset);
    push_text(out, " size=");
    push_dec(out, size as u64);
    assert(out@ =~= old(out)@ + (" @"@ + text::hex8(offset as nat) + " size="@ + text::dec(
        size as nat,
    )));
}

fn push_string(out: &mut String, s: String)
    ensures
        final(out)@ == old(out)@ + s@,
{
    push_text(out, s.as_str());
}

fn print_binary(out: &mut String, b: newton_objects::Binary<'_>)
    requires
        b.wf(),
    ensures
        final(out)@ == old(out)@ + binary_line(b@),
{
    match b.as_symbol() {
        Some(sym) => {
            match sym.name() {
                Ok(n) => {
                    push_text(out, "symbol '");
                    push_text(out, n);
                    push_text(out, " (hash=");
                    push_hex8(out, sym.hash());
                    push_text(out, ")");
                },
                Err(_) => push_text(out, "symbol <bad-utf8>"),
            }
            push_place(out, b.offset(), b.size());
        },
        None => {
            push_text(out, "binary class=");
            push_string(out, b.class().text());
            push_place(out, b.offset(), b.size());
            push_text(out, " (data ");
            push_dec(out, b.data().len() as u64);
            push_text(out, " B)");
        },
    }
    assert(out@ =~= old(out)@ + binary_line(b@));
}

fn push_slotted_head(out: &mut String, indent: &str, title: &str, a: newton_objects::Array<'_>)
    ensures
        final(out)@ == old(out)@ + slotted_head(a@, indent@, title@),
{
    push_text(out, indent);
    push_text(out, title);
    push_string(out, a.class().text());
    push_place(out, a.offset(), a.size());
    push_text(out, " len=");
    push_dec(out, a.len() as u64);
    push_text(out, "\n");
    assert(out@ =~= old(out)@ + slotted_head(a@, indent@, title@));
}

fn push_slot_line(out: &mut String, indent: &str, mark: &str, i: usize, r: Ref)
    ensures
        final(out)@ == old(out)@ + slot_line(indent@, mark@, i as nat, r),
{
    push_text(out, indent);
    push_text(out, mark);
    push_dec(out, i as u64);
    push_text(out, "] = ");
    push_string(out, r.text());
    push_text(out, "\n");
    assert(out@ =~= old(out)@ + slot_line(indent@, mark@, i as nat, r));
}

fn push_slot_lines(out: &mut String, indent: &str, mark: &str, a: newton_objects::Array<'_>)
    ensures
        final(out)@ == old(out)@ + slot_lines(a@, indent@, mark@, 0),
{
    let ghost head = out@;
    let mut i: usize = 0;
    let mut more: bool = true;
    while more && i < 8
        invariant
            i <= 8,
            more ==> out@ + slot_lines(a@, indent@, mark@, i as nat) =~= head + slot_lines(
                a@,
                indent@,
                mark@,
                0,
            ),
            !more ==> out@ =~= head + slot_lines(a@, indent@, mark@, 0),
        decreases
                8 - i,
                (if more {
                    1int
                } else {
                    0
                }),
    {
        match a.slot(i) {
            Some(r) => {
                push_slot_line(out, indent, mark, i, r);
                i = i + 1;
            },
            None => {
                more = false;
            },
        }
    }
    assert(out@ =~= head + slot_lines(a@, indent@, mark@, 0));
}

fn print_slotted(
    out: &mut String,
    indent: &str,
    title: &str,
    mark: &str,
    a: newton_objects::Array<'_>,
)
    ensures
        final(out)@ == old(out)@ + slotted_lines(a@, indent@, title@, mark@),
{
    push_slotted_head(out, indent, title, a);
    push_slot_lines(out, indent, mark, a);
    let ghost lines = out@;
    if a.len() > 8 {
        push_text(out, indent);
        push_text(out, "  ... (");
        push_dec(out, (a.len() - 8) as u64);
        push_text(out, " more slots)\n");
        assert(out@ =~= lines + more_line(a@, indent@));
    }
    assert(out@ =~= old(out)@ + slotted_lines(a@, indent@, title@, mark@));
}

/// Appends the lines of an object: what it is, and its first slots.
pub fn print_object(out: &mut String, indent: &str, obj: Object<'_>)
    requires
        obj@.wf(),
        obj.variant() == obj@.kind(),
    ensures
        final(out)@ == old(out)@ + object_lines(obj@, indent@),
{
    match obj {
        Object::Binary(b) => {
            push_text(out, indent);
            print_binary(out, b);
            push_text(out, "\n");
        },
        Object::Array(a) => print_slotted(out, indent, "array class=", "  [", a),
        Object::Frame(f) => print_slotted(
            out,
            indent,
            "frame map=",
            "  slot[",
            newton_objects::Array(f.0),
        ),
    }
    assert(out@ =~= old(out)@ + object_lines(obj@, indent@));
}

/// The bytes that a dump of the object at `addr` goes by.
pub open spec fn dump_heap(m: MemView, addr: u32) -> HeapView {
    HeapView {
        bytes: guest_endian::bytes_of_words(m, addr, guest_endian::readable_run(m, addr, 64)),
        load_addr: addr,
        endian: Endian::Big,
    }
}

/// The lines of the object that a reference points at.
pub open spec fn dump_lines(m: MemView, indent: Seq<char>, r: u32) -> Seq<char> {
    if r % 4 != 1 {
        seq![]
    } else {
        let addr = (r - 1) as u32;
        if guest_endian::readable_run(m, addr, 64) == 0 {
            indent + "<unreadable @"@ + text::hex8(addr as nat) + ">\n"@
        } else {
            match dump_heap(m, addr).object(addr) {
                Ok(o) => object_lines(o, indent),
                Err(e) => indent + "parse error @"@ + text::hex8(addr as nat) + ": "@
                    + newton_objects::error_text(e) + "\n"@,
            }
        }
    }
}

/// The lines of the object that a reference points at, each behind `indent`.
pub fn dump_object(mem: &GuestMem, indent: &str, ref_value: u32) -> (out: String)
    requires
        mem.wf(),
    ensures
        out@ == dump_lines(mem@, indent@, ref_value),
{
    let mut out = String::new();
    if ref_value % 4 != 1 {
        assert(out@ =~= dump_lines(mem@, indent@, ref_value));
        return out;
    }
    let addr: u32 = ref_value - 1;
    let bytes = match guest_read_bytes_va(mem, addr, DUMP_BUF_BYTES) {
        Some(b) => b,
        None => {
            push_text(&mut out, indent);
            push_text(&mut out, "<unreadable @");
            push_hex8(&mut out, addr);
            push_text(&mut out, ">\n");
            assert(out@ =~= dump_lines(mem@, indent@, ref_value));
            return out;
        },
    };
    let heap = Heap::with_load_addr(bytes.as_slice(), addr);
    assert(heap@ == dump_heap(mem@, addr));
    match heap.object_at(addr) {
        Ok(obj) => print_object(&mut out, indent, obj),
        Err(e) => {
            push_text(&mut out, indent);
            push_text(&mut out, "parse error @");
            push_hex8(&mut out, addr);
            push_text(&mut out, ": ");
            push_string(&mut out, e.text());
            push_text(&mut out, "\n");
        },
    }
    assert(out@ =~= dump_lines(mem@, indent@, ref_value));
    out
}

/// The line that renders a reference, behind a label if there is one.
pub fn pretty_print_ref(mem: &GuestMem, label: &str, ref_value: u32, depth: u32) -> (out: String)
    requires
        mem.wf(),
    ensures
        out@ == (if label@.len() == 0 {
            seq![]
        } else {
            label@ + ": "@
        }) + ref_printer::ref_text(mem@, ref_value, depth as nat) + "\n"@,
{
    let mut out = String::new();
    if !label.is_empty() {
        push_text(&mut out, label);
        push_text(&mut out, ": ");
    }
    write_ref(&mut out, mem, ref_value, depth);
    push_text(&mut out, "\n");
    assert(out@ =~= (if label@.len() == 0 {
        seq![]
    } else {
        label@ + ": "@
    }) + ref_printer::ref_text(mem@, ref_value, depth as nat) + "\n"@);
    out
}

/// A reference rendered, with neither label nor line end.
pub fn pretty_print_ref_inline(mem: &GuestMem, ref_value: u32, depth: u32) -> (out: String)
    requires
        mem.wf(),
    ensures
        out@ == ref_printer::ref_text(mem@, ref_value, depth as nat),
{
    let mut out = String::new();
    write_ref(&mut out, mem, ref_value, depth);
    assert(out@ =~= ref_printer::ref_text(mem@, ref_value, depth as nat));
    out
}

} // verus!
