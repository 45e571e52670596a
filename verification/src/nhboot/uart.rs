//! The PL011 UART: baud divisors, register values, and what its status flags allow.

use vstd::prelude::*;

verus! {

pub const UART_BASE: usize = 0x3F20_1000;

pub const UART_CLOCK_HZ: u32 = 48_000_000;

pub const UART_DR: usize = UART_BASE;

pub const UART_FR: usize = UART_BASE + 0x18;

pub const UART_IBRD: usize = UART_BASE + 0x24;

pub const UART_FBRD: usize = UART_BASE + 0x28;

pub const UART_LCRH: usize = UART_BASE + 0x2C;

pub const UART_CR: usize = UART_BASE + 0x30;

pub const UART_IMSC: usize = UART_BASE + 0x38;

pub const UART_ICR: usize = UART_BASE + 0x44;

pub const FR_BUSY: u32 = 0x08;

pub const FR_RXFE: u32 = 0x10;

pub const FR_TXFF: u32 = 0x20;

/// FIFOs on, eight-bit words.
pub const LCRH_FIFO_8BIT: u32 = 0x70;

/// UART, transmitter and receiver on.
pub const CR_ENABLE: u32 = 0x301;

/// The baud of the console.
pub const CONSOLE_BAUD: u32 = 115_200;

/// The integer and fractional baud divisors, the fraction in 64ths: the clock divided by
/// sixteen times the baud, truncated.
pub fn divisors(baud: u32) -> (d: (u32, u32))
    requires
        0 < baud,
        16 * baud <= u32::MAX,
    ensures
        d.0 == 48_000_000int / (16 * baud as int),
        d.1 == 3_072_000_000int / (16 * baud as int) - 64 * d.0,
        d.1 < 64,
{
    let ibrd: u32 = UART_CLOCK_HZ / (16 * baud);
    let scaled: u64 = (UART_CLOCK_HZ as u64 * 64) / (16 * baud as u64);
    proof {
        let d = 16 * baud as int;
        let q = 48_000_000int / d;
        vstd::arithmetic::div_mod::lemma_fundamental_div_mod(48_000_000, d);
        let r = 48_000_000int % d;
        assert(0 <= r < d);
        assert(3_072_000_000int == d * (64 * q) + 64 * r) by (nonlinear_arith)
            requires
                48_000_000 == d * q + r,
        ;
        vstd::arithmetic::div_mod::lemma_fundamental_div_mod(3_072_000_000int, d);
        let s = 3_072_000_000int / d;
        let t = 3_072_000_000int % d;
        assert(64 * q <= s < 64 * q + 64) by (nonlinear_arith)
            requires
                d > 0,
                0 <= r < d,
                0 <= t < d,
                d * s + t == d * (64 * q) + 64 * r,
        ;
    }
    (ibrd, (scaled - ibrd as u64 * 64) as u32)
}

/// The divisors for `baud`, as one number of 64ths.
pub open spec fn divisor_64ths(baud: u32) -> int {
    3_072_000_000int / (16 * baud as int)
}

/// The register writes that bring the UART up: off, interrupts cleared, divisors, line
/// control (which latches the divisors, and so comes after them), interrupts masked, on.
pub open spec fn init_writes(baud: u32) -> Seq<(usize, u32)> {
    seq![
        (UART_CR, 0u32),
        (UART_ICR, 0x7FFu32),
        (UART_IBRD, (divisor_64ths(baud) / 64) as u32),
        (UART_FBRD, (divisor_64ths(baud) % 64) as u32),
        (UART_LCRH, LCRH_FIFO_8BIT),
        (UART_IMSC, 0u32),
        (UART_CR, CR_ENABLE),
    ]
}

/// The register writes that bring the UART up at `baud`, eight bits, no parity, FIFOs on.
pub fn init(baud: u32) -> (w: [(usize, u32); 7])
    requires
        0 < baud,
        16 * baud <= u32::MAX,
    ensures
        w@ == init_writes(baud),
{
    let (ibrd, fbrd) = divisors(baud);
    let w: [(usize, u32); 7] = [
        (UART_CR, 0),
        (UART_ICR, 0x7FF),
        (UART_IBRD, ibrd),
        (UART_FBRD, fbrd),
        (UART_LCRH, LCRH_FIFO_8BIT),
        (UART_IMSC, 0),
        (UART_CR, CR_ENABLE),
    ];
    proof {
        let s = divisor_64ths(baud);
        assert(s == 64 * ibrd + fbrd);
        assert(s / 64 == ibrd && s % 64 == fbrd);
        assert(w@ =~= init_writes(baud));
    }
    w
}

/// A step of a baud change.
#[derive(Clone, Copy, PartialEq, Eq, Structural)]
pub enum BaudStep {
    /// Wait until the last byte has left.
    Drain,
    /// Write a register.
    Write(usize, u32),
}

/// The steps of a baud change: drain first, or the last bytes go out at the new rate.
pub fn set_baud(baud: u32) -> (steps: Vec<BaudStep>)
    requires
        0 < baud,
        16 * baud <= u32::MAX,
    ensures
        steps@.len() == 8,
        steps@[0] == BaudStep::Drain,
        forall|i: int|
            0 <= i < 7 ==> #[trigger] steps@[i + 1] == BaudStep::Write(
                init_writes(baud)[i].0,
                init_writes(baud)[i].1,
            ),
{
    let w = init(baud);
    let mut steps: Vec<BaudStep> = Vec::new();
    steps.push(BaudStep::Drain);
    let mut i: usize = 0;
    while i < 7
        invariant
            i <= 7,
            w@ == init_writes(baud),
            steps@.len() == i + 1,
            steps@[0] == BaudStep::Drain,
            forall|k: int|
                0 <= k < i ==> #[trigger] steps@[k + 1] == BaudStep::Write(w@[k].0, w@[k].1),
        decreases 7 - i,
    {
        let (reg, val) = w[i];
        steps.push(BaudStep::Write(reg, val));
        i = i + 1;
    }
    steps
}

/// Whether the last byte has left, by the flag register.
pub fn flush(fr: u32) -> (idle: bool)
    ensures
        idle == (fr & FR_BUSY == 0),
{
    fr & FR_BUSY == 0
}

/// The data-register value to send byte `b`, or `None` while the transmit FIFO is full.
pub fn putc(fr: u32, b: u8) -> (dr: Option<u32>)
    ensures
        dr == (if fr & FR_TXFF != 0 {
            None
        } else {
            Some(b as u32)
        }),
{
    if fr & FR_TXFF != 0 {
        None
    } else {
        Some(b as u32)
    }
}

/// The received byte, or `None` while the receive FIFO is empty. The error flags of the
/// data register are dropped; the protocol's checksums catch the damage.
pub fn getc_nonblock(fr: u32, dr: u32) -> (b: Option<u8>)
    ensures
        b == (if fr & FR_RXFE != 0 {
            None
        } else {
            Some((dr & 0xFF) as u8)
        }),
{
    if fr & FR_RXFE != 0 {
        None
    } else {
        Some((dr & 0xFF) as u8)
    }
}

/// `s` with a carriage return before every newline.
pub open spec fn console_bytes(s: Seq<u8>) -> Seq<u8>
    decreases s.len(),
{
    if s.len() == 0 {
        Seq::empty()
    } else if s.last() == 0x0A {
        console_bytes(s.drop_last()).push(0x0D).push(0x0A)
    } else {
        console_bytes(s.drop_last()).push(s.last())
    }
}

/// Text goes out in order and whole: what is written in two parts is the one behind the other, a
/// newline becomes a carriage return and a newline, and any other byte goes out as it is.
pub proof fn console_keeps_text(a: Seq<u8>, b: Seq<u8>, c: u8)
    ensures
        console_bytes(a + b) == console_bytes(a) + console_bytes(b),
        console_bytes(seq![c]) == (if c == 10 {
            seq![13u8, 10u8]
        } else {
            seq![c]
        }),
        console_bytes(Seq::empty()) == Seq::<u8>::empty(),
    decreases b.len(),
{
    reveal_with_fuel(console_bytes, 2);
    assert(seq![c].drop_last() =~= Seq::<u8>::empty());
    assert(console_bytes(seq![c]) =~= (if c == 10 {
        seq![13u8, 10u8]
    } else {
        seq![c]
    }));
    if b.len() == 0 {
        assert(a + b =~= a);
        assert(console_bytes(a) + console_bytes(b) =~= console_bytes(a));
    } else {
        console_keeps_text(a, b.drop_last(), c);
        assert((a + b).drop_last() =~= a + b.drop_last());
        assert(console_bytes(a + b) =~= console_bytes(a) + console_bytes(b));
    }
}

/// Bringing the UART up ends with turning it on, and begins with turning it off; the divisor that is
/// written, its integer and its 64ths, is the largest that is not above the clock over sixteen times
/// the baud, and the line control that latches it comes behind it.
pub proof fn divisor_is_latched(baud: u32)
    requires
        0 < baud,
        16 * baud <= u32::MAX,
    ensures
        ({
            let w = init_writes(baud);
            let d = 64 * w[2].1 + w[3].1;
            &&& w.len() == 7
            &&& w[0].0 == 0x3F20_1030 && w[0].1 == 0
            &&& w[2].0 == 0x3F20_1024 && w[3].0 == 0x3F20_1028 && w[3].1 < 64
            &&& w[4].0 == 0x3F20_102C && w[4].1 == 0x70
            &&& w[6].0 == 0x3F20_1030 && w[6].1 == 0x301
            &&& d * (16 * baud) <= 64 * 48_000_000 < (d + 1) * (16 * baud)
        }),
{
    let b = 16 * baud as int;
    let s = divisor_64ths(baud);
    vstd::arithmetic::div_mod::lemma_fundamental_div_mod(3_072_000_000int, b);
    assert(0 <= s <= 3_072_000_000) by (nonlinear_arith)
        requires
            b > 0,
            3_072_000_000 == b * s + 3_072_000_000int % b,
            0 <= 3_072_000_000int % b < b,
    ;
    assert(s * b <= 3_072_000_000 < (s + 1) * b) by (nonlinear_arith)
        requires
            3_072_000_000 == b * s + 3_072_000_000int % b,
            0 <= 3_072_000_000int % b < b,
    ;
    assert(64 * (s / 64) + s % 64 == s);
}

/// The text side of the UART.
pub struct Writer;

impl Writer {
    /// The bytes that writing `s` sends.
    pub fn write_str(&self, s: &[u8]) -> (out: Vec<u8>)
        ensures
            out@ == console_bytes(s@),
    {
        let mut out: Vec<u8> = Vec::new();
        let mut i: usize = 0;
        assert(s@.take(0) =~= Seq::<u8>::empty());
        while i < s.len()
            invariant
                i <= s@.len(),
                out@ == console_bytes(s@.take(i as int)),
            decreases s@.len() - i,
        {
            proof {
                assert(s@.take(i + 1).drop_last() =~= s@.take(i as int));
            }
            let b = s[i];
            if b == 0x0A {
                out.push(0x0D);
            }
            out.push(b);
            i = i + 1;
        }
        assert(s@.take(s@.len() as int) =~= s@);
        out
    }
}

} // verus!
