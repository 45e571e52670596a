//! The link's self-test: a triangle wave near 200 Hz, and a watch on the control register
//! while it plays.

use crate::audio::iec958;
use crate::audio::iec958::{encode_iec958_pair, IEC958_BLOCK_FRAMES};
use crate::audio::pi_hdmi::{
    HDMI_RATE_HZ, MAI_CTL_BUSY, MAI_CTL_EMPTY, MAI_CTL_ENABLE, MAI_CTL_ERRORE, MAI_CTL_ERRORF,
    MAI_CTL_FLUSH, MAI_CTL_PAREN, MAI_CTL_RESET,
};
use crate::text::push_text;
use vstd::prelude::*;

verus! {

/// The wave's largest value.
pub const AMPLITUDE: i32 = 0x4000;

/// What a frame adds to or takes from the wave: from end to end in 110 frames, truncated.
pub const STEP: i32 = 297;

/// Every bit of the control register but FULL, which toggles with each word.
pub const CTL_DIFF_MASK: u32 = 0xFFFF_F7FF;

/// The state of the test.
#[derive(Clone, Copy, PartialEq, Eq, Structural)]
pub struct Tone {
    pub value: i32,
    pub direction: i32,
    pub frame_idx_in_block: u32,
    pub frame_count: u64,
    /// The control register as last reported.
    pub last_logged_ctl: u32,
}

/// A change of the control register.
#[derive(Clone, Copy, PartialEq, Eq, Structural)]
pub struct CtlChange {
    pub ms: u64,
    pub from: u32,
    pub to: u32,
    pub flips: u32,
}

/// The wave one frame on: a step in its direction, held at the ends, where it turns.
pub open spec fn advance(value: int, direction: int) -> (int, int) {
    let next = value + direction;
    if next >= 0x4000 {
        (0x4000, -297)
    } else if next <= -0x4000 {
        (-0x4000, 297)
    } else {
        (next, direction)
    }
}

/// The wave `n` frames after its start at the lower end.
pub open spec fn wave(n: nat) -> (int, int)
    decreases n,
{
    if n == 0 {
        (-0x4000, 297)
    } else {
        advance(wave((n - 1) as nat).0, wave((n - 1) as nat).1)
    }
}

/// The wave is a triangle with a period of 222 frames: up in steps, held at the top on the
/// last, and down again.
pub proof fn wave_is_a_triangle(n: nat)
    ensures
        ({
            let p = (n % 222) as int;
            &&& p < 111 ==> wave(n) == (-0x4000 + 297 * p, 297int)
            &&& p == 111 ==> wave(n) == (0x4000int, -297int)
            &&& p > 111 ==> wave(n) == (0x4000 - 297 * (p - 111), -297int)
        }),
    decreases n,
{
    if n > 0 {
        wave_is_a_triangle((n - 1) as nat);
    }
}

/// The time that `count` frames took, in milliseconds. The product saturates.
pub open spec fn frames_ms(count: u64) -> int {
    (if count * 1000 > u64::MAX {
        u64::MAX as int
    } else {
        count * 1000
    }) / 44_100
}

/// The time is counted in whole milliseconds at 44100 frames a second, up to where the product is too large.
pub proof fn frames_take_their_time(count: u64)
    requires
        count * 1000 <= u64::MAX,
    ensures
        frames_ms(count) * 44_100 <= count * 1000 < (frames_ms(count) + 1) * 44_100,
{
}

/// Each flag is named where its bit has changed, and only there, in the order of their bits.
pub proof fn changed_flags_are_named(flips: u32)
    ensures
        ({
            let of = |bit: u32, name: Seq<char>|
                if flips & bit != 0 {
                    name
                } else {
                    Seq::<char>::empty()
                };
            flag_text(flips) == of(0x1, " RESET"@) + of(0x2, " ERRORF"@) + of(0x4, " ERRORE"@) + of(
                0x8,
                " ENABLE"@,
            ) + of(0x100, " PAREN"@) + of(0x200, " FLUSH"@) + of(0x400, " EMPTY"@) + of(0x4000, " BUSY"@)
        }),
        CTL_DIFF_MASK == u32::MAX - 0x800,
{
}

/// The names of the flags in `flips`.
pub open spec fn flag_text(flips: u32) -> Seq<char> {
    named(flips, MAI_CTL_RESET, " RESET"@) + named(flips, MAI_CTL_ERRORF, " ERRORF"@) + named(
        flips,
        MAI_CTL_ERRORE,
        " ERRORE"@,
    ) + named(flips, MAI_CTL_ENABLE, " ENABLE"@) + named(flips, MAI_CTL_PAREN, " PAREN"@) + named(
        flips,
        MAI_CTL_FLUSH,
        " FLUSH"@,
    ) + named(flips, MAI_CTL_EMPTY, " EMPTY"@) + named(flips, MAI_CTL_BUSY, " BUSY"@)
}

/// `name` where `bit` is in `flips`.
pub open spec fn named(flips: u32, bit: u32, name: Seq<char>) -> Seq<char> {
    if flips & bit != 0 {
        name
    } else {
        seq![]
    }
}

fn push_named(out: &mut String, flips: u32, bit: u32, name: &str)
    ensures
        final(out)@ == old(out)@ + named(flips, bit, name@),
{
    if flips & bit != 0 {
        push_text(out, name);
    }
    assert(out@ =~= old(out)@ + named(flips, bit, name@));
}

/// The names of the flags in `flips`, each after a space.
pub fn flag_names(flips: u32) -> (out: String)
    ensures
        out@ == flag_text(flips),
{
    let mut out = String::new();
    push_named(&mut out, flips, MAI_CTL_RESET, " RESET");
    push_named(&mut out, flips, MAI_CTL_ERRORF, " ERRORF");
    push_named(&mut out, flips, MAI_CTL_ERRORE, " ERRORE");
    push_named(&mut out, flips, MAI_CTL_ENABLE, " ENABLE");
    push_named(&mut out, flips, MAI_CTL_PAREN, " PAREN");
    push_named(&mut out, flips, MAI_CTL_FLUSH, " FLUSH");
    push_named(&mut out, flips, MAI_CTL_EMPTY, " EMPTY");
    push_named(&mut out, flips, MAI_CTL_BUSY, " BUSY");
    assert(out@ =~= flag_text(flips));
    out
}

impl Tone {
    /// The wave is within its amplitude and heads one way or the other.
    pub open spec fn wf(self) -> bool {
        &&& -0x4000 <= self.value <= 0x4000
        &&& self.direction == 297 || self.direction == -297
        &&& self.frame_idx_in_block < 192
    }

    /// The test at its start: the wave at its lower end, the first look at the control
    /// register bound to report.
    pub fn new() -> (t: Tone)
        ensures
            t.wf(),
            (t.value as int, t.direction as int) == wave(0),
            t.frame_idx_in_block == 0,
            t.frame_count == 0,
            t.last_logged_ctl == 0xFFFF_FFFF,
    {
        Tone {
            value: -AMPLITUDE,
            direction: STEP,
            frame_idx_in_block: 0,
            frame_count: 0,
            last_logged_ctl: 0xFFFF_FFFF,
        }
    }

    /// The two subframes of the present frame, the wave on both channels.
    pub fn frame(&self) -> (pair: (u32, u32))
        requires
            self.wf(),
        ensures
            pair == iec958::frame_pair(
                self.value as i16,
                self.value as i16,
                self.frame_idx_in_block,
            ),
    {
        let sample: i16 = self.value as i16;
        encode_iec958_pair(sample, sample, self.frame_idx_in_block)
    }

    /// Goes on to the next frame, with the control register as it reads after this one. A
    /// change in it, other than of FULL, is reported.
    pub fn play_test_tone(&mut self, ctl: u32) -> (change: Option<CtlChange>)
        requires
            old(self).wf(),
        ensures
            final(self).wf(),
            (final(self).value as int, final(self).direction as int) == advance(
                old(self).value as int,
                old(self).direction as int,
            ),
            final(self).frame_idx_in_block == (old(self).frame_idx_in_block + 1) % 192,
            final(self).frame_count == old(self).frame_count.wrapping_add(1),
            (ctl & CTL_DIFF_MASK) == (old(self).last_logged_ctl & CTL_DIFF_MASK) ==> change is None
                && final(self).last_logged_ctl == old(self).last_logged_ctl,
            (ctl & CTL_DIFF_MASK) != (old(self).last_logged_ctl & CTL_DIFF_MASK) ==> {
                &&& final(self).last_logged_ctl == ctl
                &&& change == Some(
                    CtlChange {
                        ms: frames_ms(old(self).frame_count) as u64,
                        from: old(self).last_logged_ctl,
                        to: ctl,
                        flips: (ctl ^ old(self).last_logged_ctl) & CTL_DIFF_MASK,
                    },
                )
            },
    {
        let mut change: Option<CtlChange> = None;
        if (ctl & CTL_DIFF_MASK) != (self.last_logged_ctl & CTL_DIFF_MASK) {
            let product: u64 = match self.frame_count.checked_mul(1000) {
                Some(p) => p,
                None => u64::MAX,
            };
            change = Some(
                CtlChange {
                    ms: product / HDMI_RATE_HZ as u64,
                    from: self.last_logged_ctl,
                    to: ctl,
                    flips: (ctl ^ self.last_logged_ctl) & CTL_DIFF_MASK,
                },
            );
            self.last_logged_ctl = ctl;
        }
        self.frame_count = self.frame_count.wrapping_add(1);
        let mut value: i32 = self.value + self.direction;
        if value >= AMPLITUDE {
            value = AMPLITUDE;
            self.direction = -STEP;
        } else if value <= -AMPLITUDE {
            value = -AMPLITUDE;
            self.direction = STEP;
        }
        self.value = value;
        self.frame_idx_in_block = (self.frame_idx_in_block + 1) % IEC958_BLOCK_FRAMES;
        change
    }
}

} // verus!
