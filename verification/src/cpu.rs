//! Arithmetic around the processor: cache lines of a range, delays, the stack guard, and
//! fields of identification registers.

use crate::text;
use crate::text::{push_numeral, push_text};
use vstd::prelude::*;

verus! {

/// Bytes of a cache line.
pub const LINE: u64 = 64;

/// The word below the stack while the stack has not grown into it.
pub const STACK_GUARD_MAGIC: u64 = 0x5354_4B47_5541_5244;

proof fn field_bits(v: u64)
    by (bit_vector)
    ensures
        (v >> 2) & 3 == (v / 4) % 4,
        v & 0xFF == v % 256,
        v & !63u64 == v / 64 * 64,
{
}

/// The exception level, from the CurrentEL register.
pub fn current_el(reg: u64) -> (el: u32)
    ensures
        el == (reg / 4) % 4,
{
    proof {
        field_bits(reg);
    }
    ((reg >> 2) & 3) as u32
}

/// The core's number, from the MPIDR_EL1 register.
pub fn core_id(reg: u64) -> (id: u32)
    ensures
        id == reg % 256,
{
    proof {
        field_bits(reg);
    }
    (reg & 0xFF) as u32
}

/// What is reported of an overflown stack.
pub open spec fn overflow_text(word: u64) -> Seq<char> {
    "*** EL2 STACK OVERFLOW: guard canary = 0x"@ + text::hex_pad(word as nat, 16)
        + ", expected 0x"@ + text::hex_pad(STACK_GUARD_MAGIC as nat, 16)
        + " — the EL2 stack has descended into its guard word; halting."@
}

/// What to report before halting, if the word below the stack is no longer what it was.
pub fn check_stack_guard(word: u64) -> (report: Option<String>)
    ensures
        report is None <==> word == STACK_GUARD_MAGIC,
        report is Some ==> report->0@ == overflow_text(word),
{
    if word == STACK_GUARD_MAGIC {
        return None;
    }
    let mut out = String::new();
    push_text(&mut out, "*** EL2 STACK OVERFLOW: guard canary = 0x");
    push_numeral(&mut out, word, 16, 16);
    push_text(&mut out, ", expected 0x");
    push_numeral(&mut out, STACK_GUARD_MAGIC, 16, 16);
    push_text(&mut out, " — the EL2 stack has descended into its guard word; halting.");
    assert(out@ =~= overflow_text(word));
    Some(out)
}

/// The cache lines of a range, in order: from the one that holds its first byte to the one
/// that holds its last.
pub open spec fn lines(va: u64, len: usize) -> Seq<u64> {
    let first = va / 64;
    Seq::new(
        ((va + len + 63) / 64 - first) as nat,
        |i: int| ((first + i) * 64) as u64,
    )
}

/// The lines are those that hold a byte of the range, and no others.
pub proof fn lines_cover_the_range(va: u64, len: usize, i: int)
    requires
        va + len + 63 <= u64::MAX,
        len > 0,
    ensures
        va <= i < va + len ==> lines(va, len).contains((i / 64 * 64) as u64),
        0 <= i < lines(va, len).len() ==> lines(va, len)[i] < va + len && va < lines(va, len)[i]
            + 64,
{
    let first = va as int / 64;
    if va <= i < va + len {
        let k = i / 64 - first;
        assert(0 <= k < lines(va, len).len());
        assert(lines(va, len)[k] == (i / 64 * 64) as u64);
    }
}

/// The lines follow one another, each 64 bytes behind the one before, and the first holds the range's first
/// byte.
pub proof fn lines_follow_one_another(va: u64, len: usize, i: int)
    requires
        va + len + 63 <= u64::MAX,
        0 <= i < lines(va, len).len(),
    ensures
        lines(va, len)[i] % 64 == 0,
        lines(va, len)[0] <= va < lines(va, len)[0] + 64,
        i > 0 ==> lines(va, len)[i] == lines(va, len)[i - 1] + 64,
{
}

/// The report of an overflown stack shows what stands below the stack, and what should.
pub proof fn overflow_is_told(word: u64)
    ensures
        text::within(text::hex_pad(word as nat, 16), overflow_text(word)),
        text::within(text::hex_pad(0x5354_4B47_5541_5244, 16), overflow_text(word)),
{
    let a = text::hex_pad(word as nat, 16);
    let b = text::hex_pad(0x5354_4B47_5541_5244, 16);
    let t0 = "*** EL2 STACK OVERFLOW: guard canary = 0x"@;
    let t1 = ", expected 0x"@;
    let t2 = " — the EL2 stack has descended into its guard word; halting."@;
    assert(overflow_text(word) =~= t0 + a + (t1 + b + t2));
    assert(overflow_text(word) =~= (t0 + a + t1) + b + t2);
}

fn line_addresses(va: u64, len: usize) -> (out: Vec<u64>)
    requires
        va + len + 63 <= u64::MAX,
    ensures
        out@ == lines(va, len),
{
    let last: u64 = va + len as u64 + (LINE - 1);
    proof {
        field_bits(va);
        field_bits(last);
    }
    let start: u64 = va & !(LINE - 1);
    let end: u64 = last & !(LINE - 1);
    let mut out: Vec<u64> = Vec::new();
    let mut p: u64 = start;
    while p < end
        invariant
            va + len + 63 <= u64::MAX,
            end == (va + len + 63) / 64 * 64,
            p == (va / 64 + out@.len()) * 64,
            p <= end,
            out@ =~= lines(va, len).take(out@.len() as int),
        decreases end - p,
    {
        assert(out@.len() < lines(va, len).len());
        assert(lines(va, len).take(out@.len() as int + 1) =~= lines(va, len).take(
            out@.len() as int,
        ).push(p));
        out.push(p);
        p = p + LINE;
    }
    assert(out@ =~= lines(va, len));
    out
}

/// The lines whose instructions are to be published, each cleaned and invalidated.
pub fn icache_publish_range(va: u64, len: usize) -> (out: Vec<u64>)
    requires
        va + len + 63 <= u64::MAX,
    ensures
        out@ == lines(va, len),
{
    line_addresses(va, len)
}

/// The lines whose data is to be cleaned and invalidated.
pub fn dc_civac_range(va: u64, len: usize) -> (out: Vec<u64>)
    requires
        va + len + 63 <= u64::MAX,
    ensures
        out@ == lines(va, len),
{
    line_addresses(va, len)
}

/// The count at which a delay of `ms` milliseconds from `start` is over.
pub fn delay_ms(start: u64, freq: u64, ms: u32) -> (target: u64)
    requires
        freq * ms <= u64::MAX,
    ensures
        target == start.wrapping_add((freq as int * ms as int / 1000) as u64),
{
    start.wrapping_add((freq * ms as u64) / 1000)
}

proof fn sign_bits(x: u64)
    by (bit_vector)
    ensures
        (x as i64 >= 0) == (x < 0x8000_0000_0000_0000),
{
}

/// Whether the count `now` has reached `target`, the counter wrapping around.
pub fn delay_over(now: u64, target: u64) -> (over: bool)
    ensures
        over == (now.wrapping_sub(target) < 0x8000_0000_0000_0000),
{
    let d: u64 = now.wrapping_sub(target);
    proof {
        sign_bits(d);
    }
    d as i64 >= 0
}

} // verus!
