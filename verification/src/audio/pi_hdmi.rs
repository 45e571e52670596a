//! The HDMI audio backend: the register programs that bring the block up, the clocks they
//! are computed from, and the ring between the guest's buffers and the link.

use crate::audio::iec958;
use crate::audio::iec958::{encode_iec958_pair, IEC958_BLOCK_FRAMES};
use crate::guest_endian;
use crate::guest_endian::guest_read_u16_va;
use crate::guest_mem::{GuestMem, MemView};
use vstd::prelude::*;

verus! {

pub const HDMI_BASE: usize = 0x3F90_2000;

pub const HD_BASE: usize = 0x3F80_8000;

pub const HDMI_MAI_CTL: usize = HD_BASE + 0x14;

pub const HDMI_MAI_THR: usize = HD_BASE + 0x18;

pub const HDMI_MAI_FMT: usize = HD_BASE + 0x1C;

pub const HDMI_MAI_DATA: usize = HD_BASE + 0x20;

pub const HDMI_MAI_SMP: usize = HD_BASE + 0x2C;

pub const HDMI_MAI_CHANNEL_MAP: usize = HDMI_BASE + 0x90;

pub const HDMI_MAI_CONFIG: usize = HDMI_BASE + 0x94;

pub const HDMI_AUDIO_PACKET_CONFIG: usize = HDMI_BASE + 0x9C;

pub const HDMI_RAM_PACKET_CONFIG: usize = HDMI_BASE + 0xA0;

pub const HDMI_RAM_PACKET_STATUS: usize = HDMI_BASE + 0xA4;

pub const HDMI_CRP_CFG: usize = HDMI_BASE + 0xA8;

pub const HDMI_CTS_0: usize = HDMI_BASE + 0xAC;

pub const HDMI_CTS_1: usize = HDMI_BASE + 0xB0;

pub const HDMI_SCHEDULER_CONTROL: usize = HDMI_BASE + 0xC0;

pub const HDMI_TX_PHY_CTL0: usize = HDMI_BASE + 0x2C4;

/// The packet RAM: 36 bytes a slot.
pub const HDMI_RAM_PACKET_START: usize = HDMI_BASE + 0x400;

pub const CM_BASE: usize = 0x3F10_1000;

pub const CM_HSMCTL: usize = CM_BASE + 0x88;

pub const CM_HSMDIV: usize = CM_BASE + 0x8C;

/// The control, fraction and divider registers of PLLA; those of PLLC and PLLD follow at
/// 0x20 and 0x40.
pub const A2W_PLLA_CTRL: usize = CM_BASE + 0x1100;

pub const A2W_PLLA_FRAC: usize = CM_BASE + 0x1200;

pub const A2W_PLLA_PER: usize = CM_BASE + 0x1500;

/// The crystal.
pub const BCM283X_OSC_HZ: u32 = 19_200_000;

pub const MAI_CTL_RESET: u32 = 0x1;

pub const MAI_CTL_ERRORF: u32 = 0x2;

pub const MAI_CTL_ERRORE: u32 = 0x4;

pub const MAI_CTL_ENABLE: u32 = 0x8;

pub const MAI_CTL_PAREN: u32 = 0x100;

pub const MAI_CTL_FLUSH: u32 = 0x200;

pub const MAI_CTL_EMPTY: u32 = 0x400;

pub const MAI_CTL_FULL: u32 = 0x800;

pub const MAI_CTL_BUSY: u32 = 0x4000;

/// Playing: two channels, whole samples, channel-aligned, enabled.
pub const MAI_CTL_PLAYBACK: u32 = 0x3028;

/// Stopped: reset, the error flags cleared, and DLATE.
pub const MAI_CTL_SHUTDOWN: u32 = 0x8007;

/// As the block is first found: stopped, and flushed.
pub const MAI_CTL_STARTUP: u32 = 0x8207;

/// Powers the PHY's random number generator down.
pub const TX_PHY_CTL0_RNG_POWER_DOWN: u32 = 0x200_0000;

/// PCM at 44.1 kHz.
pub const MAI_FMT_PCM_44_1_KHZ: u32 = 0x2_0800;

pub const MAI_THRESHOLDS: u32 = 0x0808_0608;

/// Bits and format reversed, channels 0 and 1.
pub const MAI_CONFIG_STEREO: u32 = 0x0C00_0003;

pub const MAI_CHANNEL_MAP_STEREO: u32 = 0x8;

/// Zero data on flat samples and on inactive channels, the block-start preamble, and
/// channels 0 and 1.
pub const AUDIO_PACKET_CONFIG: u32 = 0x2100_2003;

/// The audio clock regeneration value N of 44.1 kHz, 5644, with the cycle time stamp
/// supplied by software.
pub const CRP_CFG: u32 = 0x100_160C;

/// The cycle time stamp.
pub const HDMI_CTS: u32 = 0xC7F8;

pub const SCHEDULER_CONTROL_MODE_HDMI: u32 = 0x1;

/// The packet slot of the audio info frame.
pub const RAM_PACKET_AUDIO_SLOT: usize = 4;

pub const RAM_PACKET_AUDIO_BIT: u32 = 0x10;

/// Packets on, slots 2, 3 and 4.
pub const RAM_PACKET_SCHEDULE: u32 = 0x1_001C;

/// Samples per second on the link: twice the guest's.
pub const HDMI_RATE_HZ: u32 = 44_100;

/// Stereo frames that the ring holds.
pub const RING_FRAMES: usize = 8192;

/// With fewer frames waiting than this, the guest is asked for more.
pub const LOW_WATERMARK_FRAMES: u32 = 2000;

/// Polls of the packet status before giving up.
pub const STATUS_POLLS: u32 = 200_000;

proof fn truncation_bits(x: u64)
    by (bit_vector)
    ensures
        (x as u32) == x % 0x1_0000_0000,
{
}

proof fn field_bits(x: u32)
    by (bit_vector)
    ensures
        x & 0xF == x % 16,
        (x >> 12) & 0xFFF == (x / 0x1000) % 0x1000,
        x & 0xFFF == x % 0x1000,
        x & 0x3FF == x % 0x400,
        x & 0xF_FFFF == x % 0x10_0000,
        x & 0xFF == x % 0x100,
{
}

/// Where a pixel clock rate came from.
#[derive(Clone, Copy, PartialEq, Eq, Structural)]
pub enum ClockSource {
    Measured,
    Configured,
}

/// The pixel clock: the measured rate, and the configured one where that query failed or
/// gave zero.
pub fn pixel_clock_hz(measured: Option<u32>, configured: Option<u32>) -> (clock: Option<
    (u32, ClockSource),
>)
    ensures
        clock == (if measured is Some && measured->0 != 0 {
            Some((measured->0, ClockSource::Measured))
        } else if configured is Some && configured->0 != 0 {
            Some((configured->0, ClockSource::Configured))
        } else {
            None
        }),
{
    if let Some(hz) = measured {
        if hz != 0 {
            return Some((hz, ClockSource::Measured));
        }
    }
    if let Some(hz) = configured {
        if hz != 0 {
            return Some((hz, ClockSource::Configured));
        }
    }
    None
}

/// The registers of a PLL that set the rate of its peripheral output.
#[derive(Clone, Copy, PartialEq, Eq, Structural)]
pub struct PllRegs {
    pub ctrl: u32,
    pub frac: u32,
    pub per: u32,
}

/// The rate of a PLL's peripheral output: the crystal times a 10.20 fixed-point
/// multiplier, truncated to whole hertz, over an eight-bit divider. `None` where either is
/// off.
pub open spec fn pll_rate(p: PllRegs) -> Option<u32> {
    let ndiv = (p.ctrl % 0x400) as int;
    let frac = (p.frac % 0x10_0000) as int;
    let per = (p.per % 0x100) as int;
    if ndiv == 0 || per == 0 {
        None
    } else {
        Some(
            (((19_200_000 * ndiv + 19_200_000 * frac / 0x10_0000) / per)
                % 0x1_0000_0000int) as u32,
        )
    }
}

/// The peripheral-output rate of a PLL.
pub fn read_pll_per_hz(p: PllRegs) -> (hz: Option<u32>)
    ensures
        hz == pll_rate(p),
{
    proof {
        field_bits(p.ctrl);
        field_bits(p.frac);
        field_bits(p.per);
    }
    let ndiv: u64 = (p.ctrl & 0x3FF) as u64;
    let frac20: u64 = (p.frac & 0xF_FFFF) as u64;
    let per_div: u64 = (p.per & 0xFF) as u64;
    if ndiv == 0 || per_div == 0 {
        return None;
    }
    let osc: u64 = BCM283X_OSC_HZ as u64;
    let vco: u64 = osc * ndiv + (osc * frac20) / 0x10_0000;
    let out: u64 = vco / per_div;
    proof {
        truncation_bits(out);
    }
    Some(out as u32)
}

/// The clock-manager registers behind the HDMI state machine clock.
#[derive(Clone, Copy, PartialEq, Eq, Structural)]
pub struct ClockRegs {
    pub hsm_ctl: u32,
    pub hsm_div: u32,
    pub plla: PllRegs,
    pub pllc: PllRegs,
    pub plld: PllRegs,
}

/// The rate of the source that the clock's multiplexer selects.
pub open spec fn source_rate(r: ClockRegs) -> Option<u32> {
    if r.hsm_ctl % 16 == 1 {
        Some(19_200_000u32)
    } else if r.hsm_ctl % 16 == 4 {
        pll_rate(r.plla)
    } else if r.hsm_ctl % 16 == 5 {
        pll_rate(r.pllc)
    } else if r.hsm_ctl % 16 == 6 {
        pll_rate(r.plld)
    } else {
        None
    }
}

/// The rate of the state machine clock: its source over a 12.12 fixed-point divider. `None`
/// with the divider off, or a source that is not a clock.
pub open spec fn audio_clock(r: ClockRegs) -> Option<u32> {
    let divider = (r.hsm_div % 0x100_0000) as int;
    match source_rate(r) {
        Some(hz) if divider != 0 => Some(((hz * 4096 / divider) % 0x1_0000_0000int) as u32),
        _ => None,
    }
}

/// The rate of the state machine clock.
pub fn read_audio_clock_hz(r: &ClockRegs) -> (hz: Option<u32>)
    ensures
        hz == audio_clock(*r),
{
    proof {
        field_bits(r.hsm_ctl);
        field_bits(r.hsm_div);
        assert(r.hsm_div % 0x100_0000 == ((r.hsm_div / 0x1000) % 0x1000) * 0x1000 + r.hsm_div
            % 0x1000);
    }
    let src: u32 = r.hsm_ctl & 0xF;
    let divi: u32 = (r.hsm_div >> 12) & 0xFFF;
    let divf: u32 = r.hsm_div & 0xFFF;
    if divi == 0 && divf == 0 {
        return None;
    }
    let divider_q12: u64 = (divi as u64) * 4096 + (divf as u64);
    let src_hz: Option<u32> = match src {
        1 => Some(BCM283X_OSC_HZ),
        4 => read_pll_per_hz(r.plla),
        5 => read_pll_per_hz(r.pllc),
        6 => read_pll_per_hz(r.plld),
        _ => None,
    };
    match src_hz {
        Some(hz) => {
            let rate: u64 = (hz as u64 * 4096) / divider_q12;
            proof {
                truncation_bits(rate);
            }
            Some(rate as u32)
        },
        None => None,
    }
}

/// The last convergent of a continued fraction within bounds, from the state of its
/// expansion: `n / d` is what is left to expand, `c / e` the convergent so far and `a / b`
/// the one before it.
pub open spec fn expand(
    n: nat,
    d: nat,
    a: nat,
    b: nat,
    c: nat,
    e: nat,
    max_num: nat,
    max_denom: nat,
) -> (nat, nat)
    decreases d,
{
    if d == 0 || a + n / d * c > max_num || b + n / d * e > max_denom {
        (c, e)
    } else {
        expand(d, n % d, c, e, a + n / d * c, b + n / d * e, max_num, max_denom)
    }
}

/// The last convergent of `num / denom` with a numerator and a denominator within bounds.
pub open spec fn convergent(num: nat, denom: nat, max_num: nat, max_denom: nat) -> (nat, nat) {
    expand(num, denom, 0, 1, 1, 0, max_num, max_denom)
}

/// The state of an expansion of `num / denom`: each of the two is a combination of what is
/// left, with the convergents' numerators and denominators.
pub open spec fn expanding(
    num: nat,
    denom: nat,
    n: nat,
    d: nat,
    a: nat,
    b: nat,
    c: nat,
    e: nat,
) -> bool {
    &&& num == c * n + a * d
    &&& denom == e * n + b * d
    &&& c * b - a * e == 1 || a * e - c * b == 1
}

proof fn expanding_step(
    num: nat,
    denom: nat,
    n: nat,
    d: nat,
    a: nat,
    b: nat,
    c: nat,
    e: nat,
)
    requires
        expanding(num, denom, n, d, a, b, c, e),
        d > 0,
    ensures
        expanding(num, denom, d, n % d, c, e, a + n / d * c, b + n / d * e),
        a + n / d * c <= num,
        b + n / d * e <= denom,
        n / d * c <= num,
        n / d * e <= denom,
        n - n / d * d == n % d,
        n / d * d <= n,
{
    let t = n / d;
    let r = n % d;
    vstd::arithmetic::div_mod::lemma_fundamental_div_mod(n as int, d as int);
    assert(n == d * t + r);
    assert(t * d == d * t) by (nonlinear_arith);
    let na = a + t * c;
    let nb = b + t * e;
    assert(c * n + a * d == na * d + c * r) by (nonlinear_arith)
        requires
            n == d * t + r,
            na == a + t * c,
    ;
    assert(e * n + b * d == nb * d + e * r) by (nonlinear_arith)
        requires
            n == d * t + r,
            nb == b + t * e,
    ;
    assert(na * e - c * nb == a * e - c * b) by (nonlinear_arith)
        requires
            na == a + t * c,
            nb == b + t * e,
    ;
    assert(na <= na * d && nb <= nb * d) by (nonlinear_arith)
        requires
            d > 0,
            na >= 0,
            nb >= 0,
    ;
    assert(c * r >= 0 && e * r >= 0) by (nonlinear_arith)
        requires
            c >= 0,
            e >= 0,
            r >= 0,
    ;
    assert(t * c >= 0 && t * e >= 0) by (nonlinear_arith)
        requires
            c >= 0,
            e >= 0,
            t >= 0,
    ;
    assert(nb * c - e * na == -(na * e - c * nb)) by (nonlinear_arith);
}

/// Whether a fraction that misses `num / denom` by `miss`, over both denominators, leaves no room for a
/// better one within the bounds.
pub open spec fn near_miss(num: nat, denom: nat, max_num: nat, max_denom: nat, miss: int) -> bool {
    let m = if miss < 0 {
        -miss
    } else {
        miss
    };
    m == 0 || m * (max_denom + 1) <= denom || m * (max_num + 1) <= num
}

proof fn expand_is_close(
    num: nat,
    denom: nat,
    n: nat,
    d: nat,
    a: nat,
    b: nat,
    c: nat,
    e: nat,
    max_num: nat,
    max_denom: nat,
)
    requires
        expanding(num, denom, n, d, a, b, c, e),
        e <= max_denom,
        max_num >= 1 ==> c <= max_num,
        d <= denom,
        e > 0 ==> d < denom,
        e > 0 ==> d < n,
        e == 0 ==> b == 1,
    ensures
        ({
            let r = expand(n, d, a, b, c, e, max_num, max_denom);
            &&& r.1 <= max_denom
            &&& max_num >= 1 ==> r.0 <= max_num
            &&& -denom <= num * r.1 - denom * r.0 <= denom
            &&& r.1 > 0 ==> -denom < num * r.1 - denom * r.0 < denom
            &&& num <= max_num && denom <= max_denom ==> num * r.1 == denom * r.0
            &&& near_miss(num, denom, max_num, max_denom, num * r.1 - denom * r.0)
            &&& r.1 == 0 ==> r.0 == 1
        }),
    decreases d,
{
    assert(num * e - denom * c == d * (a * e - c * b)) by (nonlinear_arith)
        requires
            num == c * n + a * d,
            denom == e * n + b * d,
    ;
    assert(num * e - denom * c == d || num * e - denom * c == -d) by (nonlinear_arith)
        requires
            num * e - denom * c == d * (a * e - c * b),
            c * b - a * e == 1 || a * e - c * b == 1,
    ;
    assert(e == 0 ==> c == 1) by (nonlinear_arith)
        requires
            c * b - a * e == 1 || a * e - c * b == 1,
            e == 0 ==> b == 1,
            c >= 0,
    ;
    if d > 0 {
        expanding_step(num, denom, n, d, a, b, c, e);
        let t = n / d;
        let na = a + t * c;
        let nb = b + t * e;
        if na > max_num || nb > max_denom {
            assert(na > max_num ==> d * (max_num + 1) <= num) by (nonlinear_arith)
                requires
                    num == na * d + c * (n % d),
                    n % d >= 0,
                    c >= 0,
                    d > 0,
            ;
            assert(nb > max_denom ==> d * (max_denom + 1) <= denom) by (nonlinear_arith)
                requires
                    denom == nb * d + e * (n % d),
                    n % d >= 0,
                    e >= 0,
                    d > 0,
            ;
        }
        if a + t * c <= max_num && b + t * e <= max_denom {
            assert(e == 0 ==> t * e == 0) by (nonlinear_arith);
            assert(e > 0 ==> t * e >= 0) by (nonlinear_arith);
            assert(d > n % d);
            if e > 0 {
                assert(t >= 1) by (nonlinear_arith)
                    requires
                        0 < d < n,
                        t == n / d,
                ;
                assert(t * e >= 1) by (nonlinear_arith)
                    requires
                        t >= 1,
                        e >= 1,
                ;
            }
            expand_is_close(
                num,
                denom,
                d,
                n % d,
                c,
                e,
                a + t * c,
                b + t * e,
                max_num,
                max_denom,
            );
        }
    }
}

/// The convergent keeps to its bounds and is less than one part in its denominator away
/// from the fraction; where the fraction itself fits, it is the fraction. It is the last one within
/// its bounds: what it misses, times a bound and one, is no more than the fraction's own part.
pub proof fn convergent_is_close(num: nat, denom: nat, max_num: nat, max_denom: nat)
    requires
        denom > 0,
    ensures
        ({
            let r = convergent(num, denom, max_num, max_denom);
            &&& r.1 <= max_denom
            &&& max_num >= 1 ==> r.0 <= max_num
            &&& r.1 > 0 ==> -denom < num * r.1 - denom * r.0 < denom
            &&& num <= max_num && denom <= max_denom ==> num * r.1 == denom * r.0
            &&& near_miss(num, denom, max_num, max_denom, num * r.1 - denom * r.0)
            &&& r.1 == 0 ==> r.0 == 1
        }),
{
    expand_is_close(num, denom, num, denom, 0, 1, 1, 0, max_num, max_denom);
}

/// The last convergent of `num / denom` within bounds.
pub fn rational_best_approximation(num: u32, denom: u32, max_num: u64, max_denom: u64) -> (r: (
    u32,
    u32,
))
    ensures
        (r.0 as nat, r.1 as nat) == convergent(
            num as nat,
            denom as nat,
            max_num as nat,
            max_denom as nat,
        ),
{
    let mut n: u64 = num as u64;
    let mut d: u64 = denom as u64;
    let mut a: u64 = 0;
    let mut b: u64 = 1;
    let mut c: u64 = 1;
    let mut d_out: u64 = 0;
    while d != 0
        invariant
            expanding(
                num as nat,
                denom as nat,
                n as nat,
                d as nat,
                a as nat,
                b as nat,
                c as nat,
                d_out as nat,
            ),
            expand(
                n as nat,
                d as nat,
                a as nat,
                b as nat,
                c as nat,
                d_out as nat,
                max_num as nat,
                max_denom as nat,
            ) == convergent(num as nat, denom as nat, max_num as nat, max_denom as nat),
            c <= num || c == 1,
            d_out <= denom,
        decreases d,
    {
        let t: u64 = n / d;
        proof {
            expanding_step(
                num as nat,
                denom as nat,
                n as nat,
                d as nat,
                a as nat,
                b as nat,
                c as nat,
                d_out as nat,
            );
        }
        let na: u64 = a + t * c;
        let nb: u64 = b + t * d_out;
        if na > max_num || nb > max_denom {
            return (c as u32, d_out as u32);
        }
        a = c;
        b = d_out;
        c = na;
        d_out = nb;
        let nr: u64 = n - t * d;
        n = d;
        d = nr;
    }
    (c as u32, d_out as u32)
}

/// A step of a register program.
#[derive(Clone, Copy, PartialEq, Eq, Structural)]
pub enum MaiStep {
    /// Write a register.
    Write(usize, u32),
    /// Read a register, clear bits in it, write it back.
    ClearBits(usize, u32),
    /// Poll the packet status until its bits under a mask are all set (or all clear).
    Await(u32, bool),
    /// Wait until the writes so far have reached the device.
    Barrier,
}

/// Why the block was not brought up.
#[derive(Clone, Copy, PartialEq, Eq, Structural)]
pub enum MaiError {
    /// Neither query for the pixel clock gave a rate.
    NoPixelClock,
    /// The state machine clock runs at a rate outside one megahertz to one gigahertz.
    ClockOutOfRange(u32),
    /// The state machine clock could not be read.
    NoAudioClock,
    /// The encoder is not in HDMI mode and would drop the packets.
    NotHdmi(u32),
}

/// The value of the sample-rate divider register: the convergent of the clock over the
/// sample rate, its numerator in the upper 24 bits and its denominator, less one, below.
pub open spec fn sample_divider(audio_hz: u32) -> u32 {
    let r = convergent(audio_hz as nat, 44_100, 0xFF_FFFF, 256);
    (r.0 * 256 + if r.1 == 0 {
        0int
    } else {
        r.1 - 1
    }) as u32
}

proof fn divider_bits(n: u32, m: u32)
    by (bit_vector)
    requires
        n <= 0xFF_FFFF,
        m <= 255,
    ensures
        ((n & 0xFF_FFFF) << 8) | (m & 0xFF) == n * 256 + m,
{
}

/// The program that brings the block up, from the rate of its clock.
pub open spec fn bringup_steps(audio_hz: u32) -> Seq<MaiStep> {
    seq![
        MaiStep::Write(HDMI_MAI_CTL, MAI_CTL_STARTUP),
        MaiStep::ClearBits(HDMI_TX_PHY_CTL0, TX_PHY_CTL0_RNG_POWER_DOWN),
        MaiStep::Barrier,
        MaiStep::Write(HDMI_MAI_SMP, sample_divider(audio_hz)),
        MaiStep::Write(HDMI_MAI_CTL, MAI_CTL_PLAYBACK),
        MaiStep::Write(HDMI_MAI_FMT, MAI_FMT_PCM_44_1_KHZ),
        MaiStep::Write(HDMI_MAI_THR, MAI_THRESHOLDS),
        MaiStep::Write(HDMI_MAI_CONFIG, MAI_CONFIG_STEREO),
        MaiStep::Write(HDMI_MAI_CHANNEL_MAP, MAI_CHANNEL_MAP_STEREO),
        MaiStep::Write(HDMI_AUDIO_PACKET_CONFIG, AUDIO_PACKET_CONFIG),
        MaiStep::Write(HDMI_CRP_CFG, CRP_CFG),
        MaiStep::Write(HDMI_CTS_0, HDMI_CTS),
        MaiStep::Write(HDMI_CTS_1, HDMI_CTS),
        MaiStep::Barrier,
    ]
}

/// The program that brings the block up. Both clocks must be known: no rate is made up.
pub fn bringup_mai(measured: Option<u32>, configured: Option<u32>, regs: &ClockRegs) -> (r: Result<
    Vec<MaiStep>,
    MaiError,
>)
    ensures
        ({
            let no_pixel = (measured is None || measured->0 == 0) && (configured is None
                || configured->0 == 0);
            match r {
                Ok(steps) => {
                    &&& !no_pixel
                    &&& audio_clock(*regs) is Some
                    &&& 1_000_000 <= audio_clock(*regs)->0 < 1_000_000_000
                    &&& steps@ == bringup_steps(audio_clock(*regs)->0)
                },
                Err(MaiError::NoPixelClock) => no_pixel,
                Err(MaiError::NoAudioClock) => !no_pixel && audio_clock(*regs) is None,
                Err(MaiError::ClockOutOfRange(hz)) => {
                    &&& !no_pixel
                    &&& audio_clock(*regs) == Some(hz)
                    &&& !(1_000_000 <= hz < 1_000_000_000)
                },
                Err(MaiError::NotHdmi(_)) => false,
            }
        }),
{
    if pixel_clock_hz(measured, configured).is_none() {
        return Err(MaiError::NoPixelClock);
    }
    let audio_clock_hz: u32 = match read_audio_clock_hz(regs) {
        Some(hz) => hz,
        None => {
            return Err(MaiError::NoAudioClock);
        },
    };
    if audio_clock_hz < 1_000_000 || audio_clock_hz >= 1_000_000_000 {
        return Err(MaiError::ClockOutOfRange(audio_clock_hz));
    }
    let (smp_n, smp_m) = rational_best_approximation(audio_clock_hz, HDMI_RATE_HZ, 0xFF_FFFF, 256);
    let below: u32 = if smp_m == 0 {
        0
    } else {
        smp_m - 1
    };
    proof {
        convergent_is_close(audio_clock_hz as nat, 44_100, 0xFF_FFFF, 256);
        divider_bits(smp_n, below);
    }
    let smp: u32 = ((smp_n & 0xFF_FFFF) << 8) | (below & 0xFF);
    let steps = vec![
        MaiStep::Write(HDMI_MAI_CTL, MAI_CTL_STARTUP),
        MaiStep::ClearBits(HDMI_TX_PHY_CTL0, TX_PHY_CTL0_RNG_POWER_DOWN),
        MaiStep::Barrier,
        MaiStep::Write(HDMI_MAI_SMP, smp),
        MaiStep::Write(HDMI_MAI_CTL, MAI_CTL_PLAYBACK),
        MaiStep::Write(HDMI_MAI_FMT, MAI_FMT_PCM_44_1_KHZ),
        MaiStep::Write(HDMI_MAI_THR, MAI_THRESHOLDS),
        MaiStep::Write(HDMI_MAI_CONFIG, MAI_CONFIG_STEREO),
        MaiStep::Write(HDMI_MAI_CHANNEL_MAP, MAI_CHANNEL_MAP_STEREO),
        MaiStep::Write(HDMI_AUDIO_PACKET_CONFIG, AUDIO_PACKET_CONFIG),
        MaiStep::Write(HDMI_CRP_CFG, CRP_CFG),
        MaiStep::Write(HDMI_CTS_0, HDMI_CTS),
        MaiStep::Write(HDMI_CTS_1, HDMI_CTS),
        MaiStep::Barrier,
    ];
    assert(steps@ =~= bringup_steps(audio_clock_hz));
    Ok(steps)
}

/// The bytes of the audio info frame: type 0x84, version 1, ten payload bytes, a checksum,
/// and the payload, which says two channels and leaves the rest to the stream.
pub open spec fn info_frame() -> Seq<u8> {
    seq![0x84u8, 1, 10, 0x70, 1, 0, 0, 0, 0, 0, 0, 0, 0, 0]
}

/// The sum of a sequence of bytes.
pub open spec fn byte_sum(s: Seq<u8>) -> int
    decreases s.len(),
{
    if s.len() == 0 {
        0
    } else {
        byte_sum(s.drop_last()) + s.last()
    }
}

/// The bytes of an info frame add up to a multiple of 256.
pub proof fn info_frame_sums_to_zero()
    ensures
        byte_sum(info_frame()) % 256 == 0,
{
    reveal_with_fuel(byte_sum, 15);
    assert(byte_sum(info_frame()) == 0x100);
}

/// The words that a 14-byte info frame is stored as: three bytes, then twice four, then
/// three, each the lowest byte first. A header of three bytes fills the first word.
pub open spec fn packet_words(b: Seq<u8>) -> Seq<u32> {
    seq![
        (b[0] + b[1] * 0x100 + b[2] * 0x1_0000) as u32,
        (b[3] + b[4] * 0x100 + b[5] * 0x1_0000 + b[6] * 0x100_0000) as u32,
        (b[7] + b[8] * 0x100 + b[9] * 0x1_0000 + b[10] * 0x100_0000) as u32,
        (b[11] + b[12] * 0x100 + b[13] * 0x1_0000) as u32,
    ]
}

/// The program that sends the info frame: the slot off, its nine words written with zeros
/// behind the frame, the slot on.
pub open spec fn info_frame_steps() -> Seq<MaiStep> {
    let w = packet_words(info_frame());
    let base = HDMI_RAM_PACKET_START + 0x90;
    seq![
        MaiStep::ClearBits(HDMI_RAM_PACKET_CONFIG, RAM_PACKET_AUDIO_BIT),
        MaiStep::Await(RAM_PACKET_AUDIO_BIT, false),
        MaiStep::Write(base as usize, w[0]),
        MaiStep::Write((base + 4) as usize, w[1]),
        MaiStep::Write((base + 8) as usize, w[2]),
        MaiStep::Write((base + 12) as usize, w[3]),
        MaiStep::Write((base + 16) as usize, 0),
        MaiStep::Write((base + 20) as usize, 0),
        MaiStep::Write((base + 24) as usize, 0),
        MaiStep::Write((base + 28) as usize, 0),
        MaiStep::Write((base + 32) as usize, 0),
        MaiStep::Write(HDMI_RAM_PACKET_CONFIG, RAM_PACKET_SCHEDULE),
        MaiStep::Await(RAM_PACKET_AUDIO_BIT, true),
        MaiStep::Barrier,
    ]
}

/// A word of four bytes, the lowest first.
fn packet_word(b0: u8, b1: u8, b2: u8, b3: u8) -> (w: u32)
    ensures
        w == b0 + b1 * 0x100 + b2 * 0x1_0000 + b3 * 0x100_0000,
{
    b0 as u32 + b1 as u32 * 0x100 + b2 as u32 * 0x1_0000 + b3 as u32 * 0x100_0000
}

/// The program that sends the audio info frame.
pub fn set_audio_info_frame() -> (steps: Vec<MaiStep>)
    ensures
        steps@ == info_frame_steps(),
{
    let mut buffer: [u8; 14] = [0x84, 0x01, 0x0A, 0, 0x01, 0, 0, 0, 0, 0, 0, 0, 0, 0];
    let ghost blank = buffer@;
    let mut sum: u32 = 0;
    let mut i: usize = 0;
    while i < 14
        invariant
            i <= 14,
            buffer@ == blank,
            blank.len() == 14,
            sum == byte_sum(blank.take(i as int)),
            sum <= 255 * i,
        decreases 14 - i,
    {
        assert(blank.take(i + 1).drop_last() =~= blank.take(i as int));
        sum = sum + buffer[i] as u32;
        i = i + 1;
    }
    proof {
        assert(blank.take(14) =~= blank);
        reveal_with_fuel(byte_sum, 15);
        assert(sum == 0x90);
    }
    let low: u32 = (256 - sum % 256) % 256;
    buffer[3] = low as u8;
    assert(buffer@ =~= info_frame());
    let base: usize = HDMI_RAM_PACKET_START + RAM_PACKET_AUDIO_SLOT * 0x24;
    let w0: u32 = packet_word(buffer[0], buffer[1], buffer[2], 0);
    let w1: u32 = packet_word(buffer[3], buffer[4], buffer[5], buffer[6]);
    let w2: u32 = packet_word(buffer[7], buffer[8], buffer[9], buffer[10]);
    let w3: u32 = packet_word(buffer[11], buffer[12], buffer[13], 0);
    let mut steps: Vec<MaiStep> = vec![
        MaiStep::ClearBits(HDMI_RAM_PACKET_CONFIG, RAM_PACKET_AUDIO_BIT),
        MaiStep::Await(RAM_PACKET_AUDIO_BIT, false),
        MaiStep::Write(base, w0),
        MaiStep::Write(base + 4, w1),
        MaiStep::Write(base + 8, w2),
        MaiStep::Write(base + 12, w3),
    ];
    let ghost head = steps@;
    let mut off: usize = 16;
    while off < 0x24
        invariant
            16 <= off <= 0x24,
            off % 4 == 0,
            base == HDMI_RAM_PACKET_START + 0x90,
            head.len() == 6,
            steps@.len() == 6 + (off - 16) / 4,
            forall|k: int| 0 <= k < 6 ==> steps@[k] == head[k],
            forall|k: int|
                6 <= k < steps@.len() ==> #[trigger] steps@[k] == MaiStep::Write(
                    (base + 16 + (k - 6) * 4) as usize,
                    0,
                ),
        decreases 0x24 - off,
    {
        steps.push(MaiStep::Write(base + off, 0));
        off = off + 4;
    }
    steps.push(MaiStep::Write(HDMI_RAM_PACKET_CONFIG, RAM_PACKET_SCHEDULE));
    steps.push(MaiStep::Await(RAM_PACKET_AUDIO_BIT, true));
    steps.push(MaiStep::Barrier);
    assert(steps@ =~= info_frame_steps());
    steps
}

/// What a poll of the packet status says.
#[derive(Clone, Copy, PartialEq, Eq, Structural)]
pub enum Poll {
    Reached,
    Again,
    TimedOut,
}

/// One poll of the packet status, the `done`th before it having failed: whether the bits
/// under `mask` are all set, or all clear, and if not, whether polls are left.
pub fn wait_for_ram_packet_status(status: u32, mask: u32, set: bool, done: u32) -> (p: Poll)
    requires
        done < STATUS_POLLS,
    ensures
        p == (if status & mask == (if set {
            mask
        } else {
            0
        }) {
            Poll::Reached
        } else if done + 1 < STATUS_POLLS {
            Poll::Again
        } else {
            Poll::TimedOut
        }),
{
    let target: u32 = if set {
        mask
    } else {
        0
    };
    if status & mask == target {
        Poll::Reached
    } else if done + 1 < STATUS_POLLS {
        Poll::Again
    } else {
        Poll::TimedOut
    }
}

/// The state of the backend.
pub struct PiHdmi {
    /// Stereo frames, the left sample in the lower half.
    pub frames: Vec<u32>,
    /// Frames written so far, wrapping around.
    pub head: u32,
    /// Frames played so far, wrapping around.
    pub tail: u32,
    pub init_done: bool,
    pub output_running: bool,
    pub input_int_mask: u32,
    pub output_int_mask: u32,
    /// Set when the ring runs low, cleared by fresh samples: the guest is asked once.
    pub watermark_crossed: bool,
    pub output_volume: u32,
    pub buf1_addr: u32,
    pub buf2_addr: u32,
    /// The place of the next frame in its block.
    pub iec_frame: u32,
}

/// The backend, its ring as the frames waiting in it, the oldest first.
#[verifier::ext_equal]
pub struct HdmiView {
    pub queue: Seq<u32>,
    pub init_done: bool,
    pub output_running: bool,
    pub input_int_mask: u32,
    pub output_int_mask: u32,
    pub watermark_crossed: bool,
    pub output_volume: u32,
    pub buf1_addr: u32,
    pub buf2_addr: u32,
    pub iec_frame: u32,
}

impl View for PiHdmi {
    type V = HdmiView;

    open spec fn view(&self) -> HdmiView {
        HdmiView {
            queue: Seq::new(
                self.head.wrapping_sub(self.tail) as nat,
                |i: int| self.frames@[(self.tail + i) % 8192],
            ),
            init_done: self.init_done,
            output_running: self.output_running,
            input_int_mask: self.input_int_mask,
            output_int_mask: self.output_int_mask,
            watermark_crossed: self.watermark_crossed,
            output_volume: self.output_volume,
            buf1_addr: self.buf1_addr,
            buf2_addr: self.buf2_addr,
            iec_frame: self.iec_frame,
        }
    }
}

/// The frame that plays one sample on both channels.
pub open spec fn mono_frame(sample: u16) -> u32 {
    (sample * 0x1_0001) as u32
}

/// The guest's sample at `addr`, silence where nothing is mapped.
pub open spec fn sample_at(m: MemView, addr: u32) -> u16 {
    match guest_endian::half_pa(m, m.effective(addr)) {
        Some(h) => h,
        None => 0,
    }
}

/// The frames of `n` samples from `base` on: each sample twice, to double the rate.
pub open spec fn doubled(m: MemView, base: u32, n: int) -> Seq<u32> {
    Seq::new(
        (2 * n) as nat,
        |i: int| mono_frame(sample_at(m, base.wrapping_add((2 * (i / 2)) as u32))),
    )
}

/// The samples of a buffer that still fit into the ring, two frames each.
pub open spec fn fitting(v: HdmiView, byte_count: u32) -> int {
    if byte_count / 2 <= (8192 - v.queue.len()) / 2 {
        (byte_count / 2) as int
    } else {
        (8192 - v.queue.len()) / 2
    }
}

/// The backend after a buffer was handed over.
pub open spec fn scheduled(v: HdmiView, m: MemView, which: u32, byte_count: u32) -> HdmiView {
    let base = if which == 0 {
        v.buf1_addr
    } else {
        v.buf2_addr
    };
    if !v.init_done || byte_count == 0 || base == 0 {
        v
    } else {
        HdmiView {
            watermark_crossed: false,
            queue: v.queue + doubled(m, base, fitting(v, byte_count)),
            ..v
        }
    }
}

/// The left and right sample of a frame.
pub open spec fn left_of(frame: u32) -> i16 {
    (frame % 0x1_0000) as i16
}

pub open spec fn right_of(frame: u32) -> i16 {
    (frame / 0x1_0000) as i16
}

/// The subframes of a queue of frames, from a place in a block on.
pub open spec fn subframes(queue: Seq<u32>, iec_frame: u32) -> Seq<u32> {
    Seq::new(
        2 * queue.len(),
        |i: int|
            {
                let f = queue[i / 2];
                let pair = iec958::frame_pair(
                    left_of(f),
                    right_of(f),
                    ((iec_frame + i / 2) % 192) as u32,
                );
                if i % 2 == 0 {
                    pair.0
                } else {
                    pair.1
                }
            },
    )
}

/// Whether a pump plays a frame: the backend runs, one waits, and the FIFO, by the control
/// register, has room.
pub open spec fn plays(v: HdmiView, ctl: u32) -> bool {
    v.init_done && v.output_running && v.queue.len() > 0 && ctl & MAI_CTL_FULL == 0
}

/// Whether a pump that plays nothing asks the guest for more: the ring is low, and the guest was
/// not asked since it handed over samples last.
pub open spec fn asks(v: HdmiView) -> bool {
    v.init_done && v.output_running && v.queue.len() < LOW_WATERMARK_FRAMES && !v.watermark_crossed
}

/// The backend after a pump.
pub open spec fn pumped(v: HdmiView, ctl: u32) -> HdmiView {
    if plays(v, ctl) {
        HdmiView {
            queue: v.queue.skip(1),
            iec_frame: ((v.iec_frame + 1) % 192) as u32,
            ..v
        }
    } else if asks(v) {
        HdmiView { watermark_crossed: true, ..v }
    } else {
        v
    }
}

/// What a pump asks for.
pub open spec fn pump_step(v: HdmiView, ctl: u32) -> PumpStep {
    if plays(v, ctl) {
        let pair = iec958::frame_pair(left_of(v.queue[0]), right_of(v.queue[0]), v.iec_frame);
        PumpStep::Frame(pair.0, pair.1)
    } else if asks(v) && v.output_int_mask != 0 {
        PumpStep::Done(Some(v.output_int_mask))
    } else {
        PumpStep::Done(None)
    }
}

/// The backend after a pump at each of the readings of the control register.
pub open spec fn pumped_at(v: HdmiView, ctls: Seq<u32>) -> HdmiView
    decreases ctls.len(),
{
    if ctls.len() == 0 {
        v
    } else {
        pumped(pumped_at(v, ctls.drop_last()), ctls.last())
    }
}

/// The words that pumps at each of the readings play.
pub open spec fn played_at(v: HdmiView, ctls: Seq<u32>) -> Seq<u32>
    decreases ctls.len(),
{
    if ctls.len() == 0 {
        Seq::empty()
    } else {
        let before = pumped_at(v, ctls.drop_last());
        played_at(v, ctls.drop_last()) + (match pump_step(before, ctls.last()) {
            PumpStep::Frame(l, r) => seq![l, r],
            PumpStep::Done(_) => Seq::empty(),
        })
    }
}

/// The frame that plays one sample on both channels.
fn encode_stereo_frame(sample: u16) -> (f: u32)
    ensures
        f == mono_frame(sample),
{
    sample as u32 * 0x1_0001
}

impl PiHdmi {
    /// The ring is whole and holds no more than fits; the block place is within a block.
    pub open spec fn wf(self) -> bool {
        &&& self.frames@.len() == 8192
        &&& self.head.wrapping_sub(self.tail) <= 8192
        &&& self.iec_frame < 192
    }

    /// The backend before the block is up.
    pub fn new() -> (h: PiHdmi)
        ensures
            h.wf(),
            h@ == (HdmiView {
                queue: seq![],
                init_done: false,
                output_running: false,
                input_int_mask: 0,
                output_int_mask: 0,
                watermark_crossed: false,
                output_volume: 0,
                buf1_addr: 0,
                buf2_addr: 0,
                iec_frame: 0,
            }),
    {
        let h = PiHdmi {
            frames: vec![0u32; RING_FRAMES],
            head: 0,
            tail: 0,
            init_done: false,
            output_running: false,
            input_int_mask: 0,
            output_int_mask: 0,
            watermark_crossed: false,
            output_volume: 0,
            buf1_addr: 0,
            buf2_addr: 0,
            iec_frame: 0,
        };
        assert(h@.queue =~= seq![]);
        h
    }

    /// Appends a frame.
    fn push_frame(&mut self, frame: u32)
        requires
            old(self).wf(),
            old(self)@.queue.len() < 8192,
        ensures
            final(self).wf(),
            final(self)@ == (HdmiView { queue: old(self)@.queue.push(frame), ..old(self)@ }),
    {
        let slot: usize = (self.head % 8192) as usize;
        self.frames.set(slot, frame);
        self.head = self.head.wrapping_add(1);
        assert(self@.queue =~= old(self)@.queue.push(frame)) by {
            let n = old(self)@.queue.len() as int;
            assert(self@.queue.len() == n + 1);
            assert((self.tail + n) % 8192 == old(self).head as int % 8192);
            assert forall|i: int| 0 <= i < n implies #[trigger] self@.queue[i]
                == old(self)@.queue[i] by {
                assert((self.tail + i) % 8192 != slot);
            }
        }
    }

    /// Takes the oldest frame out.
    fn pop_frame(&mut self) -> (frame: u32)
        requires
            old(self).wf(),
            old(self)@.queue.len() > 0,
        ensures
            final(self).wf(),
            frame == old(self)@.queue[0],
            final(self)@ == (HdmiView { queue: old(self)@.queue.skip(1), ..old(self)@ }),
    {
        let frame: u32 = self.frames[(self.tail % 8192) as usize];
        self.tail = self.tail.wrapping_add(1);
        assert(self@.queue =~= old(self)@.queue.skip(1)) by {
            assert forall|i: int| 0 <= i < self@.queue.len() implies #[trigger] self@.queue[i]
                == old(self)@.queue[i + 1] by {
                assert((self.tail + i) % 8192 == (old(self).tail + (i + 1)) % 8192);
            }
        }
        frame
    }
}

/// Takes note of the scheduler's mode, once the program of `bringup_mai` has run: in HDMI
/// mode the backend is up, and the info frame is to be sent.
pub fn init(h: &mut PiHdmi, scheduler: u32) -> (r: Result<Vec<MaiStep>, MaiError>)
    requires
        old(h).wf(),
    ensures
        final(h).wf(),
        scheduler & SCHEDULER_CONTROL_MODE_HDMI == 0 ==> r == Err::<Vec<MaiStep>, MaiError>(
            MaiError::NotHdmi(scheduler),
        ) && *final(h) == *old(h),
        scheduler & SCHEDULER_CONTROL_MODE_HDMI != 0 ==> {
            &&& r is Ok
            &&& r->Ok_0@ == info_frame_steps()
            &&& final(h)@ == (HdmiView { init_done: true, ..old(h)@ })
        },
{
    if scheduler & SCHEDULER_CONTROL_MODE_HDMI == 0 {
        return Err(MaiError::NotHdmi(scheduler));
    }
    let steps = set_audio_info_frame();
    h.init_done = true;
    assert(h@.queue =~= old(h)@.queue);
    Ok(steps)
}

/// Installs the interrupt bits of input and output.
pub fn set_interrupt_mask(h: &mut PiHdmi, input_mask: u32, output_mask: u32)
    requires
        old(h).wf(),
    ensures
        final(h).wf(),
        final(h)@ == (HdmiView {
            input_int_mask: input_mask,
            output_int_mask: output_mask,
            ..old(h)@
        }),
{
    h.input_int_mask = input_mask;
    h.output_int_mask = output_mask;
    assert(h@.queue =~= old(h)@.queue);
}

/// Takes note of the guest's two buffers.
pub fn set_output_buffers(h: &mut PiHdmi, buf1_addr: u32, buf2_addr: u32)
    requires
        old(h).wf(),
    ensures
        final(h).wf(),
        final(h)@ == (HdmiView { buf1_addr, buf2_addr, ..old(h)@ }),
{
    h.buf1_addr = buf1_addr;
    h.buf2_addr = buf2_addr;
    assert(h@.queue =~= old(h)@.queue);
}

/// Keeps the volume.
pub fn output_volume_set(h: &mut PiHdmi, volume: u32)
    requires
        old(h).wf(),
    ensures
        final(h).wf(),
        final(h)@ == (HdmiView { output_volume: volume, ..old(h)@ }),
{
    h.output_volume = volume;
    assert(h@.queue =~= old(h)@.queue);
}

/// The volume last set.
pub fn output_volume_get(h: &PiHdmi) -> (volume: u32)
    ensures
        volume == h@.output_volume,
{
    h.output_volume
}

/// Starts playing, once the block is up: the register write that does so.
pub fn start_output(h: &mut PiHdmi) -> (write: Option<(usize, u32)>)
    requires
        old(h).wf(),
    ensures
        final(h).wf(),
        old(h)@.init_done ==> final(h)@ == (HdmiView { output_running: true, ..old(h)@ }) && write
            == Some((HDMI_MAI_CTL, MAI_CTL_PLAYBACK)),
        !old(h)@.init_done ==> final(h)@ == old(h)@ && write is None,
{
    if !h.init_done {
        return None;
    }
    h.output_running = true;
    assert(h@.queue =~= old(h)@.queue);
    Some((HDMI_MAI_CTL, MAI_CTL_PLAYBACK))
}

/// Stops playing and drops what waits: the register write that does so.
pub fn stop_output(h: &mut PiHdmi) -> (write: (usize, u32))
    requires
        old(h).wf(),
    ensures
        final(h).wf(),
        final(h)@ == (HdmiView { output_running: false, queue: seq![], ..old(h)@ }),
        write == (HDMI_MAI_CTL, MAI_CTL_SHUTDOWN),
{
    h.output_running = false;
    h.tail = h.head;
    assert(h@.queue =~= seq![]);
    (HDMI_MAI_CTL, MAI_CTL_SHUTDOWN)
}

/// Whether frames wait to be played.
pub fn output_is_running(h: &PiHdmi) -> (running: bool)
    requires
        h.wf(),
    ensures
        running == (h@.queue.len() > 0),
{
    h.head != h.tail
}

/// Hands a buffer over: its samples go into the ring, as many as fit.
pub fn schedule_output(h: &mut PiHdmi, mem: &GuestMem, which: u32, byte_count: u32)
    requires
        old(h).wf(),
        mem.wf(),
    ensures
        final(h).wf(),
        final(h)@ == scheduled(old(h)@, mem@, which, byte_count),
{
    if !h.init_done {
        return ;
    }
    let base: u32 = if which == 0 {
        h.buf1_addr
    } else {
        h.buf2_addr
    };
    if byte_count == 0 || base == 0 {
        return ;
    }
    h.watermark_crossed = false;
    assert(h@.queue =~= old(h)@.queue);
    let input_samples: u32 = byte_count / 2;
    let space: u32 = 8192 - h.head.wrapping_sub(h.tail);
    let writable: u32 = if input_samples <= space / 2 {
        input_samples
    } else {
        space / 2
    };
    let ghost v0 = old(h)@;
    let mut i: u32 = 0;
    while i < writable
        invariant
            i <= writable,
            h.wf(),
            mem.wf(),
            writable == fitting(v0, byte_count),
            v0.queue.len() + 2 * writable <= 8192,
            h@ == (HdmiView {
                watermark_crossed: false,
                queue: v0.queue + doubled(mem@, base, i as int),
                ..v0
            }),
        decreases writable - i,
    {
        let va: u32 = base.wrapping_add(i * 2);
        let sample: u16 = match guest_read_u16_va(mem, va) {
            Some(v) => v,
            None => 0,
        };
        let frame: u32 = encode_stereo_frame(sample);
        let ghost before = h@.queue;
        h.push_frame(frame);
        h.push_frame(frame);
        assert(before.push(frame).push(frame) =~= v0.queue + doubled(mem@, base, i + 1)) by {
            assert(doubled(mem@, base, i + 1) =~= doubled(mem@, base, i as int).push(frame).push(
                frame,
            ));
        }
        i = i + 1;
    }
    assert(v0.queue + doubled(mem@, base, writable as int) == h@.queue);
}

/// What a pump asks for.
#[derive(Debug, Clone, Copy, PartialEq, Eq)]
pub enum PumpStep {
    /// The left and the right word of a frame go to the data register, the second once the FIFO
    /// has room for it too; then pump again.
    Frame(u32, u32),
    /// The FIFO is full or nothing waits: raise the interrupt bits, if there are any.
    Done(Option<u32>),
}

/// Plays the next frame, if one waits and the FIFO, by its control register `ctl`, has room. A
/// pump that plays nothing asks the guest for more the first time the ring is low.
pub fn pump(h: &mut PiHdmi, ctl: u32) -> (step: PumpStep)
    requires
        old(h).wf(),
    ensures
        final(h).wf(),
        final(h)@ == pumped(old(h)@, ctl),
        step == pump_step(old(h)@, ctl),
{
    if !h.init_done || !h.output_running {
        return PumpStep::Done(None);
    }
    if h.tail != h.head && !mai_fifo_full(ctl) {
        let frame: u32 = h.pop_frame();
        let left: i16 = (frame % 0x1_0000) as i16;
        let right: i16 = (frame / 0x1_0000) as i16;
        let (sf_l, sf_r) = encode_iec958_pair(left, right, h.iec_frame);
        h.iec_frame = (h.iec_frame + 1) % IEC958_BLOCK_FRAMES;
        assert(h@.queue =~= old(h)@.queue.skip(1));
        return PumpStep::Frame(sf_l, sf_r);
    }
    let queued: u32 = h.head.wrapping_sub(h.tail);
    if queued < LOW_WATERMARK_FRAMES && !h.watermark_crossed {
        h.watermark_crossed = true;
        assert(h@.queue =~= old(h)@.queue);
        if h.output_int_mask != 0 {
            return PumpStep::Done(Some(h.output_int_mask));
        }
    }
    PumpStep::Done(None)
}

/// Whether the FIFO has no room, by the control register.
pub fn mai_fifo_full(ctl: u32) -> (full: bool)
    ensures
        full == (ctl & MAI_CTL_FULL != 0),
{
    ctl & MAI_CTL_FULL != 0
}

/// The register write that feeds a word, or `None` while the FIFO has no room.
pub fn write_mai_data_wait(ctl: u32, word: u32) -> (write: Option<(usize, u32)>)
    ensures
        write == (if ctl & MAI_CTL_FULL != 0 {
            None
        } else {
            Some((HDMI_MAI_DATA, word))
        }),
{
    if mai_fifo_full(ctl) {
        None
    } else {
        Some((HDMI_MAI_DATA, word))
    }
}

/// What a buffer adds. Once the block is up, a buffer that is not empty and whose address is known
/// puts its samples behind those that wait, each as two frames with the sample on both channels, as
/// many samples as there is room for; what waits already stays. Otherwise nothing changes.
pub proof fn buffers_are_queued(v: HdmiView, m: MemView, which: u32, byte_count: u32, i: int)
    requires
        v.queue.len() <= 8192,
    ensures
        ({
            let s = scheduled(v, m, which, byte_count);
            let base = if which == 0 {
                v.buf1_addr
            } else {
                v.buf2_addr
            };
            let idle = !v.init_done || byte_count == 0 || base == 0;
            let n = v.queue.len() as int;
            let added = s.queue.len() - n;
            &&& idle ==> s == v
            &&& !idle ==> {
                &&& added % 2 == 0
                &&& added <= byte_count
                &&& s.queue.len() <= 8192
                &&& added + 1 >= byte_count || s.queue.len() + 1 >= 8192
                &&& !s.watermark_crossed
                &&& s == HdmiView { queue: s.queue, watermark_crossed: false, ..v }
            }
            &&& 0 <= i < n ==> s.queue[i] == v.queue[i]
            &&& n <= i < s.queue.len() ==> {
                let at = ((base + (i - n) / 2 * 2) % 0x1_0000_0000) as u32;
                let h = guest_endian::half_pa(m, m.effective(at));
                &&& s.queue[i] % 0x1_0000 == s.queue[i] / 0x1_0000
                &&& h is Some ==> s.queue[i] % 0x1_0000 == h->0
                &&& h is None ==> s.queue[i] == 0
            }
        }),
{
    let base = if which == 0 {
        v.buf1_addr
    } else {
        v.buf2_addr
    };
    let n = v.queue.len() as int;
    if v.init_done && byte_count != 0 && base != 0 {
        let f = fitting(v, byte_count);
        let s = scheduled(v, m, which, byte_count);
        if n <= i < s.queue.len() {
            let at = ((base + (i - n) / 2 * 2) % 0x1_0000_0000) as u32;
            assert(2 * ((i - n) / 2) == (i - n) / 2 * 2);
            assert(base.wrapping_add((2 * ((i - n) / 2)) as u32) == at);
            let x = sample_at(m, at) as int;
            assert(s.queue[i] == x * 0x1_0001);
            assert(x * 0x1_0001 == x * 0x1_0000 + x);
        }
    }
}

/// What a pump does. While the backend runs, a frame waits and the FIFO has room, it plays the oldest
/// frame: its lower half on the left and its upper half on the right, at the next place of the block.
/// Otherwise, where fewer than 2000 frames wait and it has not asked yet, it asks for more with the
/// bits that the guest installed. It does nothing else.
pub proof fn pump_plays_or_asks(v: HdmiView, ctl: u32)
    requires
        v.iec_frame < 192,
    ensures
        ({
            let w = pumped(v, ctl);
            let s = pump_step(v, ctl);
            let up = v.init_done && v.output_running;
            let room = ctl & 0x800 == 0;
            &&& up && v.queue.len() > 0 && room ==> {
                let f = v.queue[0];
                &&& s matches PumpStep::Frame(l, r) && (l, r) == iec958::frame_pair(
                    (f % 0x1_0000) as i16,
                    (f / 0x1_0000) as i16,
                    v.iec_frame,
                )
                &&& w.queue == v.queue.skip(1)
                &&& w.iec_frame == (if v.iec_frame == 191 {
                    0
                } else {
                    v.iec_frame + 1
                })
                &&& w == HdmiView { queue: w.queue, iec_frame: w.iec_frame, ..v }
            }
            &&& !(up && v.queue.len() > 0 && room) ==> {
                let low = up && v.queue.len() < 2000 && !v.watermark_crossed;
                &&& s is Done
                &&& w == HdmiView { watermark_crossed: v.watermark_crossed || low, ..v }
                &&& s matches PumpStep::Done(bits) ==> bits == (if low && v.output_int_mask != 0 {
                    Some(v.output_int_mask)
                } else {
                    None
                })
            }
        }),
{
}

/// The block is brought up in order: reset and flushed, the random number generator powered, then
/// the divider, and only then enabled; every register of the link gets its value.
pub proof fn bringup_program(audio_hz: u32)
    ensures
        ({
            let p = bringup_steps(audio_hz);
            &&& p.len() == 14
            &&& p[0] == MaiStep::Write(0x3F80_8014, 0x8207)
            &&& p[1] == MaiStep::ClearBits(0x3F90_22C4, 0x200_0000)
            &&& p[2] == MaiStep::Barrier
            &&& p[3] == MaiStep::Write(0x3F80_802C, sample_divider(audio_hz))
            &&& p[4] == MaiStep::Write(0x3F80_8014, 0x3028)
            &&& p[5] == MaiStep::Write(0x3F80_801C, 0x2_0800)
            &&& p[6] == MaiStep::Write(0x3F80_8018, 0x0808_0608)
            &&& p[7] == MaiStep::Write(0x3F90_2094, 0x0C00_0003)
            &&& p[8] == MaiStep::Write(0x3F90_2090, 0x8)
            &&& p[9] == MaiStep::Write(0x3F90_209C, 0x2100_2003)
            &&& p[10] == MaiStep::Write(0x3F90_20A8, 0x100_160C)
            &&& p[11] == MaiStep::Write(0x3F90_20AC, 0xC7F8)
            &&& p[12] == MaiStep::Write(0x3F90_20B0, 0xC7F8)
            &&& p[13] == MaiStep::Barrier
        }),
{
}

/// The divider register holds a fraction that is close to the clock over 44100, its upper 24 bits over
/// its lower eight and one: what it misses, times a term too large for the register, is no more than
/// the fraction's own part.
pub proof fn divider_gives_the_sample_rate(audio_hz: u32)
    requires
        1_000_000 <= audio_hz < 1_000_000_000,
    ensures
        ({
            let n = sample_divider(audio_hz) / 256;
            let m = sample_divider(audio_hz) % 256 + 1;
            let miss = audio_hz * m - 44_100 * n;
            &&& -44_100 < miss < 44_100
            &&& miss == 0 || 257 * miss <= 44_100 && -257 * miss <= 44_100 || (0x100_0000 * miss
                <= audio_hz && -0x100_0000 * miss <= audio_hz)
        }),
{
    convergent_is_close(audio_hz as nat, 44_100, 0xFF_FFFF, 256);
    let r = convergent(audio_hz as nat, 44_100, 0xFF_FFFF, 256);
    let miss = audio_hz * r.1 - 44_100 * r.0;
    if r.1 == 0 {
        assert(audio_hz * r.1 == 0) by (nonlinear_arith)
            requires
                r.1 == 0,
        ;
    }
    assert(sample_divider(audio_hz) / 256 == r.0 && sample_divider(audio_hz) % 256 == r.1 - 1);
    let m = if miss < 0 {
        -miss
    } else {
        miss
    };
    assert(near_miss(audio_hz as nat, 44_100, 0xFF_FFFF, 256, miss));
    assert(m * (256nat + 1) == 257 * m && m * (0xFF_FFFFnat + 1) == 0x100_0000 * m)
        by (nonlinear_arith);
    assert(audio_hz * (sample_divider(audio_hz) % 256 + 1) == audio_hz * r.1);
}

/// The rate of a PLL output: the crystal times the multiplier, its integer and its 20-bit fraction,
/// over the divider, to within a hertz of the undivided rate and truncated; none where the multiplier's
/// integer or the divider is zero.
pub proof fn pll_rates(p: PllRegs)
    ensures
        ({
            let mul = p.ctrl as int % 1024 * 0x10_0000 + p.frac as int % 0x10_0000;
            let per = p.per as int % 256;
            let off = p.ctrl as int % 1024 == 0 || per == 0;
            &&& off <==> pll_rate(p) is None
            &&& !off && 19_200_000 * mul < 0x10_0000 * 0x1_0000_0000 ==> {
                let hz = pll_rate(p)->0 as int;
                &&& 0x10_0000 * per * hz <= 19_200_000 * mul
                &&& 19_200_000 * mul < 0x10_0000 * per * (hz + 1)
            }
        }),
{
    let ndiv = p.ctrl as int % 1024;
    let frac = p.frac as int % 0x10_0000;
    let per = p.per as int % 256;
    if ndiv != 0 && per != 0 {
        let whole = 19_200_000 * ndiv + 19_200_000 * frac / 0x10_0000;
        let mul = ndiv * 0x10_0000 + frac;
        let q = whole / per;
        assert(0x10_0000 * whole <= 19_200_000 * mul < 0x10_0000 * (whole + 1));
        vstd::arithmetic::div_mod::lemma_fundamental_div_mod(whole, per);
        assert(per * q <= whole && whole + 1 <= per * (q + 1)) by (nonlinear_arith)
            requires
                per > 0,
                whole == per * q + whole % per,
                0 <= whole % per < per,
        ;
        if 19_200_000 * mul < 0x10_0000 * 0x1_0000_0000 {
            assert(whole < 0x1_0000_0000);
            assert(0 <= q <= whole) by (nonlinear_arith)
                requires
                    per >= 1,
                    whole >= 0,
                    per * q <= whole,
                    whole + 1 <= per * (q + 1),
            ;
            assert(pll_rate(p)->0 == q);
            assert(0x10_0000 * per * q == 0x10_0000 * (per * q)) by (nonlinear_arith);
            assert(0x10_0000 * per * (q + 1) == 0x10_0000 * (per * (q + 1))) by (nonlinear_arith);
        }
    }
}

/// The rate of the state machine clock: that of its source, the crystal or the output of PLLA, PLLC or
/// PLLD, over a divider of twelve bits and twelve fraction bits, truncated; none where the source is
/// none of these or off, or the divider is zero.
pub proof fn audio_clock_rates(r: ClockRegs)
    ensures
        ({
            let s = r.hsm_ctl as int % 16;
            let src = if s == 1 {
                Some(19_200_000u32)
            } else if s == 4 {
                pll_rate(r.plla)
            } else if s == 5 {
                pll_rate(r.pllc)
            } else if s == 6 {
                pll_rate(r.plld)
            } else {
                None
            };
            let div = r.hsm_div as int % 0x100_0000;
            &&& audio_clock(r) is None <==> src is None || div == 0
            &&& audio_clock(r) is Some && src->0 * 4096 < 0x1_0000_0000 * div ==> {
                let hz = audio_clock(r)->0 as int;
                div * hz <= src->0 * 4096 < div * (hz + 1)
            }
        }),
{
    let div = r.hsm_div as int % 0x100_0000;
    if source_rate(r) is Some && div != 0 {
        let x = source_rate(r)->0 * 4096;
        vstd::arithmetic::div_mod::lemma_fundamental_div_mod(x, div);
        let q = x / div;
        assert(div * q <= x < div * (q + 1)) by (nonlinear_arith)
            requires
                x == div * q + x % div,
                0 <= x % div < div,
        ;
        if x < 0x1_0000_0000 * div {
            assert(0 <= q < 0x1_0000_0000) by (nonlinear_arith)
                requires
                    div > 0,
                    0 <= x,
                    div * q <= x < div * (q + 1),
                    x < 0x1_0000_0000 * div,
            ;
        }
    }
}

/// The info frame is stored in its slot whole, with the slot off while it is written: the bytes of the
/// frame, the header's three in the first word, and zeros behind.
pub proof fn info_frame_program()
    ensures
        ({
            let p = info_frame_steps();
            &&& p.len() == 14
            &&& p[0] == MaiStep::ClearBits(0x3F90_20A0, 0x10)
            &&& p[1] == MaiStep::Await(0x10, false)
            &&& p[2] == MaiStep::Write(0x3F90_2490, 0x0A_0184)
            &&& p[3] == MaiStep::Write(0x3F90_2494, 0x0170)
            &&& forall|k: int|
                4 <= k < 11 ==> #[trigger] p[k] == MaiStep::Write(
                    (0x3F90_2490 + 4 * (k - 2)) as usize,
                    0,
                )
            &&& p[11] == MaiStep::Write(0x3F90_20A0, 0x1_001C)
            &&& p[12] == MaiStep::Await(0x10, true)
            &&& p[13] == MaiStep::Barrier
        }),
{
}

/// Frames are played in the order in which they wait: pumps while the FIFO has room play as many
/// frames as there are pumps and leave the others.
pub proof fn frames_are_played_in_order(v: HdmiView, ctls: Seq<u32>)
    requires
        v.init_done,
        v.output_running,
        v.iec_frame < 192,
        ctls.len() <= v.queue.len(),
        forall|i: int| 0 <= i < ctls.len() ==> #[trigger] ctls[i] & MAI_CTL_FULL == 0,
    ensures
        played_at(v, ctls) == subframes(v.queue.take(ctls.len() as int), v.iec_frame),
        pumped_at(v, ctls) == (HdmiView {
            queue: v.queue.skip(ctls.len() as int),
            iec_frame: ((v.iec_frame + ctls.len()) % 192) as u32,
            ..v
        }),
    decreases ctls.len(),
{
    if ctls.len() == 0 {
        assert(v.queue.skip(0) =~= v.queue);
        assert(played_at(v, ctls) =~= subframes(v.queue.take(0), v.iec_frame));
    } else {
        let n = ctls.len() as int;
        frames_are_played_in_order(v, ctls.drop_last());
        let before = pumped_at(v, ctls.drop_last());
        assert(ctls[n - 1] & MAI_CTL_FULL == 0);
        assert(before.queue.skip(1) =~= v.queue.skip(n));
        let old_words = subframes(v.queue.take(n - 1), v.iec_frame);
        let words = subframes(v.queue.take(n), v.iec_frame);
        assert(before.queue[0] == v.queue[n - 1]);
        assert((2 * (n - 1) + 1) / 2 == n - 1 && (2 * (n - 1) + 1) % 2 == 1);
        assert(played_at(v, ctls) =~= words);
    }
}

/// A full FIFO stops the pump: nothing is played and every frame keeps its place.
pub proof fn full_fifo_stops_the_pump(v: HdmiView, ctl: u32)
    requires
        ctl & MAI_CTL_FULL != 0,
    ensures
        pump_step(v, ctl) is Done,
        pumped(v, ctl).queue == v.queue,
        pumped(v, ctl).iec_frame == v.iec_frame,
{
}

/// What the guest hands over is what the link plays: a buffer that fits, scheduled into an
/// empty ring of a running backend, comes out of as many pumps, while the FIFO has room, as each
/// of its samples twice, on both channels.
pub proof fn scheduled_samples_are_played(
    v: HdmiView,
    m: MemView,
    which: u32,
    byte_count: u32,
    ctls: Seq<u32>,
)
    requires
        v.init_done,
        v.output_running,
        v.iec_frame < 192,
        v.queue.len() == 0,
        0 < byte_count <= 8192,
        which == 0 ==> v.buf1_addr != 0,
        which != 0 ==> v.buf2_addr != 0,
        ctls.len() == 2 * (byte_count / 2),
        forall|i: int| 0 <= i < ctls.len() ==> #[trigger] ctls[i] & MAI_CTL_FULL == 0,
    ensures
        ({
            let base = if which == 0 {
                v.buf1_addr
            } else {
                v.buf2_addr
            };
            let s = scheduled(v, m, which, byte_count);
            let frames = doubled(m, base, (byte_count / 2) as int);
            &&& s.queue == frames
            &&& played_at(s, ctls) == subframes(frames, v.iec_frame)
            &&& pumped_at(s, ctls).queue.len() == 0
            &&& !s.watermark_crossed
        }),
{
    let base = if which == 0 {
        v.buf1_addr
    } else {
        v.buf2_addr
    };
    let s = scheduled(v, m, which, byte_count);
    let frames = doubled(m, base, (byte_count / 2) as int);
    assert(s.queue =~= frames);
    frames_are_played_in_order(s, ctls);
    assert(frames.take(ctls.len() as int) =~= frames);
}

/// The guest is asked for more once per refill: once a pump has asked, none does, until a
/// buffer is handed over and the ring is low again.
pub proof fn refill_is_requested_once(
    v: HdmiView,
    m: MemView,
    which: u32,
    byte_count: u32,
    ctl: u32,
    later: u32,
)
    requires
        v.init_done,
        v.output_running,
        byte_count > 0,
        which == 0 ==> v.buf1_addr != 0,
        which != 0 ==> v.buf2_addr != 0,
        pump_step(v, ctl) matches PumpStep::Done(Some(_)),
    ensures
        pumped(v, ctl).watermark_crossed,
        !(pump_step(pumped(v, ctl), later) matches PumpStep::Done(Some(_))),
        pumped(pumped(v, ctl), later).watermark_crossed,
        !scheduled(pumped(v, ctl), m, which, byte_count).watermark_crossed,
{
}

} // verus!
