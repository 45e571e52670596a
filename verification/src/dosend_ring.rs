//! The last sixteen messages that the guest's interpreter sent, for the report of one that
//! went wrong.

use crate::guest_endian;
use crate::guest_mem::{GuestMem, MemView};
use crate::heap_check;
use crate::heap_check::{dump_object, log_heap_bounds_once, log_ref, HeapCheck, G_OBJECT_HEAP};
use crate::text;
use crate::text::{push_dec, push_hex8, push_text};
use vstd::prelude::*;

verus! {

/// Messages that are kept.
pub const CAP: usize = 16;

/// A message: its receiver, the implementor, the method, the number of arguments, and where
/// it was sent from.
#[derive(Clone, Copy, PartialEq, Eq, Structural)]
pub struct Entry {
    pub seq: u32,
    pub recv: u32,
    pub implementor: u32,
    pub method: u32,
    pub argc: u32,
    pub caller_lr: u32,
}

/// The messages: those before `write_pos` are the latest, and once all are filled those from
/// it on the oldest.
pub struct DosendRing {
    pub entries: Vec<Entry>,
    pub write_pos: usize,
}

impl View for DosendRing {
    type V = Seq<Entry>;

    /// The messages, the oldest first.
    open spec fn view(&self) -> Seq<Entry> {
        self.entries@.skip(self.write_pos as int) + self.entries@.take(self.write_pos as int)
    }
}

/// The messages with one more, the oldest gone if there are too many.
pub open spec fn with_entry(s: Seq<Entry>, e: Entry) -> Seq<Entry> {
    if s.len() < CAP {
        s.push(e)
    } else {
        s.skip(1).push(e)
    }
}

/// The messages that are kept of a stream of them.
pub open spec fn kept(stream: Seq<Entry>) -> Seq<Entry>
    decreases stream.len(),
{
    if stream.len() == 0 {
        seq![]
    } else {
        with_entry(kept(stream.drop_last()), stream.last())
    }
}

/// The last sixteen messages are kept, in order.
pub proof fn last_messages_are_kept(stream: Seq<Entry>)
    ensures
        kept(stream) == (if stream.len() <= CAP {
            stream
        } else {
            stream.skip(stream.len() - CAP)
        }),
    decreases stream.len(),
{
    if stream.len() == 0 {
        assert(kept(stream) =~= stream);
    } else {
        last_messages_are_kept(stream.drop_last());
        if stream.len() <= CAP {
            assert(kept(stream) =~= stream);
        } else {
            assert(kept(stream) =~= stream.skip(stream.len() - CAP));
        }
    }
}

impl DosendRing {
    pub open spec fn wf(self) -> bool {
        if self.entries@.len() < CAP {
            self.write_pos == 0
        } else {
            self.entries@.len() == CAP && self.write_pos < CAP
        }
    }

    /// No message yet.
    pub fn new() -> (r: DosendRing)
        ensures
            r.wf(),
            r@ == Seq::<Entry>::empty(),
    {
        let r = DosendRing { entries: Vec::new(), write_pos: 0 };
        assert(r@ =~= Seq::<Entry>::empty());
        r
    }

    /// Message `i`, counted from the oldest.
    fn nth(&self, i: usize) -> (e: Entry)
        requires
            self.wf(),
            i < self@.len(),
        ensures
            e == self@[i as int],
    {
        let n: usize = self.entries.len();
        let at: usize = self.write_pos + i;
        if at < n {
            self.entries[at]
        } else {
            self.entries[at - n]
        }
    }
}

/// Keeps a message.
pub fn record(
    r: &mut DosendRing,
    seq: u32,
    recv: u32,
    implementor: u32,
    method: u32,
    argc: u32,
    caller_lr: u32,
)
    requires
        old(r).wf(),
    ensures
        final(r).wf(),
        final(r)@ == with_entry(
            old(r)@,
            Entry { seq, recv, implementor, method, argc, caller_lr },
        ),
{
    let e = Entry { seq, recv, implementor, method, argc, caller_lr };
    if r.entries.len() < CAP {
        r.entries.push(e);
        assert(r@ =~= with_entry(old(r)@, e));
    } else {
        r.entries.set(r.write_pos, e);
        r.write_pos = (r.write_pos + 1) % CAP;
        assert(r@ =~= with_entry(old(r)@, e));
    }
}

/// The lines of one reference: what it is, and the object that it points at.
pub open spec fn ref_lines(m: MemView, b: Option<(u32, u32)>, label: Seq<char>, r: u32) -> Seq<char> {
    heap_check::ref_line(b, label, r) + "\n"@ + heap_check::dump_lines(m, "      "@, r)
}

/// The first line of one message.
pub open spec fn entry_head(e: Entry) -> Seq<char> {
    "  #"@ + text::dec(e.seq as nat) + ": recv="@ + text::hex8(e.recv as nat) + " impl="@
        + text::hex8(e.implementor as nat) + " meth="@ + text::hex8(e.method as nat) + " argc="@
        + text::dec(e.argc as nat) + " caller_lr="@ + text::hex8(e.caller_lr as nat) + "\n"@
}

/// The lines of one message.
pub open spec fn entry_lines(m: MemView, b: Option<(u32, u32)>, e: Entry) -> Seq<char> {
    entry_head(e) + ref_lines(m, b, "    recv"@, e.recv) + ref_lines(
        m,
        b,
        "    impl"@,
        e.implementor,
    ) + ref_lines(m, b, "    meth"@, e.method)
}

/// The lines of the first `n` messages.
pub open spec fn entries_lines(
    m: MemView,
    b: Option<(u32, u32)>,
    s: Seq<Entry>,
    n: int,
) -> Seq<char>
    decreases n,
{
    if n <= 0 {
        seq![]
    } else {
        entries_lines(m, b, s, n - 1) + entry_lines(m, b, s[n - 1])
    }
}

/// The report has the lines of every message that is kept, one message behind the other, the oldest
/// first.
pub proof fn every_message_is_reported(
    m: MemView,
    b: Option<(u32, u32)>,
    s: Seq<Entry>,
    n: int,
    k: int,
)
    requires
        0 <= k < n <= s.len(),
    ensures
        text::within(entry_lines(m, b, s[k]), entries_lines(m, b, s, n)),
        k + 1 < n ==> text::within(
            entry_lines(m, b, s[k]) + entry_lines(m, b, s[k + 1]),
            entries_lines(m, b, s, n),
        ),
    decreases n,
{
    let last = entry_lines(m, b, s[n - 1]);
    let before = entries_lines(m, b, s, n - 1);
    let here = entry_lines(m, b, s[k]);
    assert(entries_lines(m, b, s, n) == before + last);
    if k == n - 1 {
        joined(here, before, last, seq![]);
    } else {
        every_message_is_reported(m, b, s, n - 1, k);
        text::within_longer(here, before, Seq::empty(), last);
        let next = entry_lines(m, b, s[k + 1]);
        if k + 1 < n - 1 {
            text::within_longer(here + next, before, Seq::empty(), last);
        } else {
            let earlier = entries_lines(m, b, s, k);
            assert(before == earlier + here);
            joined(here, earlier, here, last);
        }
    }
}

proof fn joined(part: Seq<char>, before: Seq<char>, middle: Seq<char>, behind: Seq<char>)
    requires
        part == middle,
    ensures
        text::within(part, before + middle),
        text::within(part + behind, before + middle + behind),
{
    let e = Seq::<char>::empty();
    assert(before + middle =~= before + part + e);
    assert(before + middle + behind =~= before + (part + behind) + e);
}

/// The lines of a message have its number, its references, its argument count and its caller in front,
/// and behind that what its receiver, its implementor and its method are.
pub proof fn messages_are_told_in_full(m: MemView, b: Option<(u32, u32)>, e: Entry)
    ensures
        entry_lines(m, b, e) == ("  #"@ + text::dec(e.seq as nat) + ": recv="@ + text::hex8(
            e.recv as nat,
        ) + " impl="@ + text::hex8(e.implementor as nat) + " meth="@ + text::hex8(e.method as nat)
            + " argc="@ + text::dec(e.argc as nat) + " caller_lr="@ + text::hex8(e.caller_lr as nat)
            + "\n"@) + (heap_check::ref_line(b, "    recv"@, e.recv) + "\n"@ + heap_check::dump_lines(
            m,
            "      "@,
            e.recv,
        )) + (heap_check::ref_line(b, "    impl"@, e.implementor) + "\n"@ + heap_check::dump_lines(
            m,
            "      "@,
            e.implementor,
        )) + (heap_check::ref_line(b, "    meth"@, e.method) + "\n"@ + heap_check::dump_lines(
            m,
            "      "@,
            e.method,
        )),
{
}

/// The line that reports the bounds of the heap.
pub open spec fn heap_line(m: MemView, lo: u32, hi: u32) -> Seq<char> {
    "heap_check: TObjectHeap @"@ + text::hex8(
        match guest_endian::value_any(m, G_OBJECT_HEAP) {
            Some(p) => p as nat,
            None => 0,
        },
    ) + " → ["@ + text::hex8(lo as nat) + ", "@ + text::hex8(hi as nat) + ") ("@ + text::dec(
        ((hi - lo) / 1024) as nat,
    ) + " KiB)\n"@
}

/// The report of the messages. The bounds of the heap are a part of it, the first time that
/// they are known.
pub open spec fn dump_text(s: Seq<Entry>, c: HeapCheck, m: MemView, label: Seq<char>) -> Seq<char> {
    if s.len() == 0 {
        "dosend_ring ("@ + label + "): empty\n"@
    } else {
        heading(s.len(), c, m, label) + entries_lines(
            m,
            heap_check::bounds(c, m),
            s,
            s.len() as int,
        )
    }
}

fn classify_and_dump(out: &mut String, c: &mut HeapCheck, mem: &GuestMem, label: &str, r: u32)
    requires
        mem.wf(),
        old(c).wf(),
    ensures
        final(out)@ == old(out)@ + ref_lines(mem@, heap_check::bounds(*old(c), mem@), label@, r),
        final(c).wf(),
        *final(c) == (if r % 4 == 1 {
            heap_check::kept(*old(c), mem@)
        } else {
            *old(c)
        }),
{
    let line = log_ref(c, mem, label, r);
    push_text(out, line.as_str());
    push_text(out, "\n");
    let lines = dump_object(mem, "      ", r);
    push_text(out, lines.as_str());
    assert(out@ =~= old(out)@ + ref_lines(mem@, heap_check::bounds(*old(c), mem@), label@, r));
}

fn push_entry_head(out: &mut String, e: Entry)
    ensures
        final(out)@ == old(out)@ + entry_head(e),
{
    push_text(out, "  #");
    push_dec(out, e.seq as u64);
    push_text(out, ": recv=");
    push_hex8(out, e.recv);
    push_text(out, " impl=");
    push_hex8(out, e.implementor);
    push_text(out, " meth=");
    push_hex8(out, e.method);
    push_text(out, " argc=");
    push_dec(out, e.argc as u64);
    push_text(out, " caller_lr=");
    push_hex8(out, e.caller_lr);
    push_text(out, "\n");
    assert(out@ =~= old(out)@ + entry_head(e));
}

fn push_entry(out: &mut String, c: &mut HeapCheck, mem: &GuestMem, e: Entry)
    requires
        mem.wf(),
        old(c).wf(),
    ensures
        final(out)@ == old(out)@ + entry_lines(mem@, heap_check::bounds(*old(c), mem@), e),
        final(c).wf(),
        *final(c) == (if e.recv % 4 == 1 || e.implementor % 4 == 1 || e.method % 4 == 1 {
            heap_check::kept(*old(c), mem@)
        } else {
            *old(c)
        }),
{
    let ghost b = heap_check::bounds(*old(c), mem@);
    push_entry_head(out, e);
    classify_and_dump(out, c, mem, "    recv", e.recv);
    assert(heap_check::bounds(*c, mem@) == b);
    classify_and_dump(out, c, mem, "    impl", e.implementor);
    assert(heap_check::bounds(*c, mem@) == b);
    classify_and_dump(out, c, mem, "    meth", e.method);
    assert(out@ =~= old(out)@ + entry_lines(mem@, b, e));
}

/// The report's first lines: how many messages there are, and the bounds of the heap, the
/// first time that they are known.
pub open spec fn heading(n: nat, c: HeapCheck, m: MemView, label: Seq<char>) -> Seq<char> {
    let b = heap_check::bounds(c, m);
    "dosend_ring ("@ + label + "): last "@ + text::dec(n) + " invocations (oldest first):\n"@ + (
    if !c.logged && b is Some {
        heap_line(m, b->Some_0.0, b->Some_0.1)
    } else {
        seq![]
    })
}

fn push_heap_line(out: &mut String, h: heap_check::HeapReport)
    requires
        h.lo <= h.hi,
        h.kib == (h.hi - h.lo) / 1024,
    ensures
        final(out)@ == old(out)@ + ("heap_check: TObjectHeap @"@ + text::hex8(h.heap_ptr as nat)
            + " → ["@ + text::hex8(h.lo as nat) + ", "@ + text::hex8(h.hi as nat) + ") ("@
            + text::dec(((h.hi - h.lo) / 1024) as nat) + " KiB)\n"@),
{
    push_text(out, "heap_check: TObjectHeap @");
    push_hex8(out, h.heap_ptr);
    push_text(out, " → [");
    push_hex8(out, h.lo);
    push_text(out, ", ");
    push_hex8(out, h.hi);
    push_text(out, ") (");
    push_dec(out, h.kib as u64);
    push_text(out, " KiB)\n");
    assert(out@ =~= old(out)@ + ("heap_check: TObjectHeap @"@ + text::hex8(h.heap_ptr as nat)
        + " → ["@ + text::hex8(h.lo as nat) + ", "@ + text::hex8(h.hi as nat) + ") ("@
        + text::dec(((h.hi - h.lo) / 1024) as nat) + " KiB)\n"@));
}

fn push_heading(out: &mut String, n: usize, c: &mut HeapCheck, mem: &GuestMem, label: &str)
    requires
        mem.wf(),
        old(c).wf(),
    ensures
        final(out)@ == old(out)@ + heading(n as nat, *old(c), mem@, label@),
        final(c).wf(),
        *final(c) == heap_check::reported(*old(c), mem@),
{
    push_text(out, "dosend_ring (");
    push_text(out, label);
    push_text(out, "): last ");
    push_dec(out, n as u64);
    push_text(out, " invocations (oldest first):\n");
    let ghost head = out@;
    assert(head =~= old(out)@ + ("dosend_ring ("@ + label@ + "): last "@ + text::dec(n as nat)
        + " invocations (oldest first):\n"@));
    if let Some(h) = log_heap_bounds_once(c, mem) {
        push_heap_line(out, h);
    }
    assert(out@ =~= old(out)@ + heading(n as nat, *old(c), mem@, label@));
}

/// The report of a ring with messages counts them and then tells them, one behind the other.
pub proof fn reports_count_and_tell(s: Seq<Entry>, c: HeapCheck, m: MemView, label: Seq<char>, k: int)
    requires
        0 <= k < s.len(),
    ensures
        text::within(label, dump_text(s, c, m, label)),
        text::within(text::dec(s.len()) + " invocations (oldest first):\n"@, dump_text(s, c, m, label)),
        text::within(entry_lines(m, heap_check::bounds(c, m), s[k]), dump_text(s, c, m, label)),
        k + 1 < s.len() ==> text::within(
            entry_lines(m, heap_check::bounds(c, m), s[k]) + entry_lines(
                m,
                heap_check::bounds(c, m),
                s[k + 1],
            ),
            dump_text(s, c, m, label),
        ),
{
    let b = heap_check::bounds(c, m);
    let lines = entries_lines(m, b, s, s.len() as int);
    let head = heading(s.len(), c, m, label);
    let bounds_line = if !c.logged && b is Some {
        heap_line(m, b->Some_0.0, b->Some_0.1)
    } else {
        seq![]
    };
    let count = text::dec(s.len()) + " invocations (oldest first):\n"@;
    let whole = dump_text(s, c, m, label);
    assert(whole =~= "dosend_ring ("@ + label + ("): last "@ + count + bounds_line + lines));
    assert(whole =~= ("dosend_ring ("@ + label + "): last "@) + count + (bounds_line + lines));
    every_message_is_reported(m, b, s, s.len() as int, k);
    text::within_longer(entry_lines(m, b, s[k]), lines, head, Seq::empty());
    if k + 1 < s.len() {
        text::within_longer(
            entry_lines(m, b, s[k]) + entry_lines(m, b, s[k + 1]),
            lines,
            head,
            Seq::empty(),
        );
    }
}

/// The line on the heap tells where it begins and ends.
pub proof fn heap_is_told(m: MemView, lo: u32, hi: u32)
    requires
        lo <= hi,
    ensures
        text::within(
            text::hex8(lo as nat) + ", "@ + text::hex8(hi as nat) + ") ("@ + text::dec(
                ((hi - lo) / 1024) as nat,
            ) + " KiB)\n"@,
            heap_line(m, lo, hi),
        ),
{
    let part = text::hex8(lo as nat) + ", "@ + text::hex8(hi as nat) + ") ("@ + text::dec(
        ((hi - lo) / 1024) as nat,
    ) + " KiB)\n"@;
    let at = "heap_check: TObjectHeap @"@ + text::hex8(
        match guest_endian::value_any(m, G_OBJECT_HEAP) {
            Some(p) => p as nat,
            None => 0,
        },
    ) + " → ["@;
    assert(heap_line(m, lo, hi) =~= at + part + Seq::<char>::empty());
}

/// The report of the messages, the oldest first, with what each reference is. The bounds of the
/// heap that it reports are kept.
pub fn dump(r: &DosendRing, c: &mut HeapCheck, mem: &GuestMem, label: &str) -> (out: String)
    requires
        r.wf(),
        mem.wf(),
        old(c).wf(),
    ensures
        out@ == dump_text(r@, *old(c), mem@, label@),
        final(c).wf(),
        *final(c) == (if r@.len() == 0 {
            *old(c)
        } else {
            heap_check::reported(*old(c), mem@)
        }),
{
    let ghost c0 = *old(c);
    let ghost b = heap_check::bounds(c0, mem@);
    let mut out = String::new();
    let n: usize = r.entries.len();
    assert(r@.len() == n);
    if n == 0 {
        push_text(&mut out, "dosend_ring (");
        push_text(&mut out, label);
        push_text(&mut out, "): empty\n");
        assert(out@ =~= dump_text(r@, c0, mem@, label@));
        return out;
    }
    push_heading(&mut out, n, c, mem, label);
    let ghost head = out@;
    assert(head =~= heading(n as nat, c0, mem@, label@));
    let mut i: usize = 0;
    while i < n
        invariant
            i <= n,
            n == r@.len(),
            r.wf(),
            mem.wf(),
            c.wf(),
            b == heap_check::bounds(c0, mem@),
            *c == heap_check::reported(c0, mem@),
            heap_check::bounds(*c, mem@) == b,
            out@ =~= head + entries_lines(mem@, b, r@, i as int),
        decreases n - i,
    {
        let ghost before = out@;
        push_entry(&mut out, c, mem, r.nth(i));
        assert(out@ =~= before + entry_lines(mem@, b, r@[i as int]));
        i = i + 1;
    }
    out
}

} // verus!
