//! The longest stretch that the hypervisor ran with interrupts masked, and which handler it
//! was. That stretch is the worst delay of an interrupt.

use vstd::prelude::*;

verus! {

pub const KIND_SYNC: u8 = 1;

pub const KIND_IRQ: u8 = 2;

/// What is left of a handler after a window with interrupts on.
pub const KIND_WINDOW_TAIL: u8 = 3;

/// Which handler a stretch belongs to.
#[derive(Clone, Copy, PartialEq, Eq, Structural)]
pub struct Tag {
    pub kind: u8,
    /// The exception class, six bits.
    pub ec: u32,
    pub pc: u32,
}

/// The stretch that is open, and the longest since it was last taken.
#[derive(Clone, Copy, PartialEq, Eq, Structural)]
pub struct Stall {
    /// When the open stretch began; zero for none.
    pub start: u64,
    pub tag: Tag,
    pub max_ticks: u64,
    pub max_tag: Tag,
}

/// The state with a stretch opened at `now`.
pub open spec fn begun(s: Stall, kind: u8, ec: u32, pc: u32, now: u64) -> Stall {
    Stall {
        start: if now == 0 {
            1
        } else {
            now
        },
        tag: Tag { kind, ec: ec & 0x3F, pc },
        ..s
    }
}

/// The state with the stretch that was open closed at `now`.
pub open spec fn ended(s: Stall, now: u64) -> Stall {
    let dur = now.wrapping_sub(s.start);
    if s.start == 0 {
        s
    } else if dur > s.max_ticks {
        Stall { start: 0, max_ticks: dur, max_tag: s.tag, ..s }
    } else {
        Stall { start: 0, ..s }
    }
}

/// The longest stretch only grows until it is taken, and it is never less than a stretch
/// that was closed.
pub proof fn longest_covers_every_stretch(
    s: Stall,
    kind: u8,
    ec: u32,
    pc: u32,
    from: u64,
    to: u64,
)
    requires
        0 < from <= to,
    ensures
        ({
            let t = ended(begun(s, kind, ec, pc, from), to);
            &&& t.max_ticks >= to - from
            &&& t.max_ticks >= s.max_ticks
            &&& t.max_ticks == to - from || t.max_tag == s.max_tag
        }),
{
}

/// The time in a window with interrupts on is not counted: the handler's stretch ends where
/// the window opens, and another begins where it closes.
pub proof fn windows_are_not_counted(s: Stall, opened: u64, closed: u64, end: u64)
    requires
        s.start != 0,
        0 < s.start <= opened <= closed <= end,
        closed > 0,
    ensures
        ({
            let t = ended(begun(ended(s, opened), KIND_WINDOW_TAIL, 0, 0, closed), end);
            t.max_ticks == s.max_ticks || t.max_ticks == opened - s.start || t.max_ticks == end
                - closed
        }),
{
}

/// A stretch is as long as from its start to its end. Closing it keeps the longer of it and the longest
/// so far, with its own handler, and leaves none open; closing where none is open changes nothing. A
/// stretch that starts at zero counts from one.
pub proof fn stretches_are_measured(s: Stall, kind: u8, ec: u32, pc: u32, from: u64, to: u64)
    requires
        from <= to,
        0 < to,
    ensures
        ({
            let b = begun(s, kind, ec, pc, from);
            let t = ended(b, to);
            let dur = to - (if from == 0 {
                1
            } else {
                from
            });
            &&& b.start != 0 && b.max_ticks == s.max_ticks && b.max_tag == s.max_tag
            &&& b.tag.kind == kind && b.tag.pc == pc && b.tag.ec == ec & 0x3F
            &&& t.start == 0
            &&& dur > s.max_ticks ==> t.max_ticks == dur && t.max_tag == b.tag
            &&& dur <= s.max_ticks ==> t.max_ticks == s.max_ticks && t.max_tag == s.max_tag
            &&& ended(t, from) == t
        }),
{
}

/// Opens a stretch.
pub fn stretch_begin(s: &mut Stall, kind: u8, ec: u32, pc: u32, now: u64)
    ensures
        *final(s) == begun(*old(s), kind, ec, pc, now),
{
    s.tag = Tag { kind, ec: ec & 0x3F, pc };
    s.start = if now == 0 {
        1
    } else {
        now
    };
}

/// Closes the stretch that is open, and keeps it if it is the longest.
pub fn stretch_end(s: &mut Stall, now: u64)
    ensures
        *final(s) == ended(*old(s), now),
{
    let start: u64 = s.start;
    s.start = 0;
    if start == 0 {
        return ;
    }
    let dur: u64 = now.wrapping_sub(start);
    if dur > s.max_ticks {
        s.max_ticks = dur;
        s.max_tag = s.tag;
    }
}

/// A handler's stretch, to be closed on its way out.
pub struct StretchGuard {}

impl StretchGuard {
    /// Closes the stretch.
    pub fn end(self, s: &mut Stall, now: u64)
        ensures
            *final(s) == ended(*old(s), now),
    {
        stretch_end(s, now);
    }
}

/// Opens a handler's stretch.
#[must_use]
pub fn trap_stretch(s: &mut Stall, kind: u8, ec: u32, pc: u32, now: u64) -> (guard: StretchGuard)
    ensures
        *final(s) == begun(*old(s), kind, ec, pc, now),
{
    stretch_begin(s, kind, ec, pc, now);
    StretchGuard {  }
}

/// Interrupts are about to be let through: the stretch ends.
pub fn window_open(s: &mut Stall, now: u64)
    ensures
        *final(s) == ended(*old(s), now),
{
    stretch_end(s, now);
}

/// Interrupts are masked again: another stretch begins.
pub fn window_close(s: &mut Stall, now: u64)
    ensures
        *final(s) == begun(*old(s), KIND_WINDOW_TAIL, 0, 0, now),
{
    stretch_begin(s, KIND_WINDOW_TAIL, 0, 0, now);
}

/// The longest stretch in microseconds, and its handler.
pub open spec fn longest(s: Stall, freq: u64) -> Option<(u64, u8, u32, u32)> {
    if s.max_ticks == 0 {
        None
    } else {
        let scaled = if s.max_ticks * 1_000_000 > u64::MAX {
            u64::MAX as int
        } else {
            s.max_ticks * 1_000_000
        };
        Some(
            (
                (scaled / (if freq == 0 {
                    1
                } else {
                    freq as int
                })) as u64,
                s.max_tag.kind,
                s.max_tag.ec,
                s.max_tag.pc,
            ),
        )
    }
}

/// The longest stretch is told in whole microseconds of its ticks, with its handler; a stretch of no
/// ticks is none.
pub proof fn longest_is_told(s: Stall, freq: u64)
    requires
        freq > 0,
        s.max_ticks * 1_000_000 <= u64::MAX,
    ensures
        longest(s, freq) is None <==> s.max_ticks == 0,
        longest(s, freq) matches Some(r) ==> r.0 * freq <= s.max_ticks * 1_000_000 < (r.0 + 1) * freq
            && r.1 == s.max_tag.kind && r.2 == s.max_tag.ec && r.3 == s.max_tag.pc,
{
    let x = s.max_ticks * 1_000_000;
    let f = freq as int;
    vstd::arithmetic::div_mod::lemma_fundamental_div_mod(x, f);
    vstd::arithmetic::div_mod::lemma_div_is_ordered_by_denominator(x, 1, f);
    assert(x / f * f <= x < (x / f + 1) * f) by (nonlinear_arith)
        requires
            x == f * (x / f) + x % f,
            0 <= x % f < f,
    ;
}

/// Takes the longest stretch since the last time.
pub fn take_max_us(s: &mut Stall, freq: u64) -> (r: Option<(u64, u8, u32, u32)>)
    ensures
        r == longest(*old(s), freq),
        *final(s) == (Stall { max_ticks: 0, ..*old(s) }),
{
    let ticks: u64 = s.max_ticks;
    s.max_ticks = 0;
    if ticks == 0 {
        return None;
    }
    let scaled: u64 = match ticks.checked_mul(1_000_000) {
        Some(p) => p,
        None => u64::MAX,
    };
    let divisor: u64 = if freq == 0 {
        1
    } else {
        freq
    };
    let us: u64 = scaled / divisor;
    proof {
        vstd::arithmetic::div_mod::lemma_div_is_ordered_by_denominator(
            scaled as int,
            1,
            divisor as int,
        );
    }
    Some((us, s.max_tag.kind, s.max_tag.ec, s.max_tag.pc))
}

/// A short name for a kind of stretch.
pub fn kind_label(kind: u8) -> (label: &'static str)
    ensures
        label@ == (if kind == KIND_SYNC {
            "sync"@
        } else if kind == KIND_IRQ {
            "irq"@
        } else if kind == KIND_WINDOW_TAIL {
            "wtail"@
        } else {
            "?"@
        }),
{
    match kind {
        1 => "sync",
        2 => "irq",
        3 => "wtail",
        _ => "?",
    }
}

} // verus!
