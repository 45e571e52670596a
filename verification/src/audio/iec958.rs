//! IEC 60958 subframes: how a stereo pair of samples is put on an HDMI audio link.

use vstd::arithmetic::power2;
use vstd::prelude::*;

verus! {

/// Frames in a block. The channel status spreads one bit over each.
pub const IEC958_BLOCK_FRAMES: u32 = 192;

/// The preamble of the left subframe that starts a block.
pub const PREAMBLE_Z: u32 = 0x8;

/// The preamble of every other left subframe.
pub const PREAMBLE_X: u32 = 0x2;

/// The preamble of a right subframe.
pub const PREAMBLE_Y: u32 = 0x4;

/// The ones in the binary form of `n`.
pub open spec fn ones(n: nat) -> nat
    decreases n,
{
    if n == 0 {
        0
    } else {
        n % 2 + ones(n / 2)
    }
}

/// The two's-complement bits of a sample, as a number.
pub open spec fn sample_bits(sample: i16) -> int {
    if sample < 0 {
        sample + 0x1_0000
    } else {
        sample as int
    }
}

/// What a subframe carries besides its preamble and its parity: the sample in the upper
/// sixteen of the 24 sample bits, and the channel status bit.
pub open spec fn subframe_body(sample: i16, status: u32) -> nat {
    (sample_bits(sample) * 0x1000 + status * 0x4000_0000) as nat
}

/// A subframe with a preamble nibble, the parity bit on top.
#[verifier::opaque]
pub open spec fn subframe(sample: i16, status: u32, preamble: u32) -> u32 {
    (preamble + subframe_body(sample, status) + (if ones(subframe_body(sample, status)) % 2 == 1 {
        0x8000_0000int
    } else {
        0
    })) as u32
}

/// The channel status: a consumer PCM stream, original, from a PCM coder, 44.1 kHz, words
/// of 16 bits. Three of its bits are set.
pub open spec fn status_bit(frame: u32) -> u32 {
    if frame == 9 || frame == 15 || frame == 33 {
        1
    } else {
        0
    }
}

/// The left and right subframe of frame `frame` of a block.
pub open spec fn frame_pair(left: i16, right: i16, frame: u32) -> (u32, u32) {
    (
        subframe(
            left,
            status_bit(frame),
            if frame == 0 {
                PREAMBLE_Z
            } else {
                PREAMBLE_X
            },
        ),
        subframe(right, status_bit(frame), PREAMBLE_Y),
    )
}

proof fn ones_with_top(n: nat, k: nat)
    requires
        n < power2::pow2(k),
    ensures
        ones(n + power2::pow2(k)) == ones(n) + 1,
    decreases k,
{
    if k == 0 {
        power2::lemma2_to64();
        reveal_with_fuel(ones, 2);
    } else {
        power2::lemma_pow2_unfold(k);
        let half = power2::pow2((k - 1) as nat);
        assert((n + power2::pow2(k)) / 2 == n / 2 + half);
        assert((n + power2::pow2(k)) % 2 == n % 2);
        ones_with_top(n / 2, (k - 1) as nat);
        assert(ones(n) == n % 2 + ones(n / 2));
    }
}

proof fn ones_times_sixteen(n: nat)
    ensures
        ones(16 * n) == ones(n),
{
    reveal_with_fuel(ones, 5);
    assert(16 * n / 2 == 8 * n && 8 * n / 2 == 4 * n && 4 * n / 2 == 2 * n && 2 * n / 2 == n);
    assert(16 * n % 2 == 0 && 8 * n % 2 == 0 && 4 * n % 2 == 0 && 2 * n % 2 == 0);
}

/// The bits of a subframe above its preamble hold an even number of ones.
pub proof fn subframe_parity_is_even(sample: i16, status: u32, preamble: u32)
    requires
        status <= 1,
        preamble < 16,
    ensures
        ones((subframe(sample, status, preamble) / 16) as nat) % 2 == 0,
{
    let body = subframe_body(sample, status);
    let upper = (sample_bits(sample) * 0x100 + status * 0x400_0000) as nat;
    assert(body == 16 * upper);
    ones_times_sixteen(upper);
    power2::lemma2_to64();
    assert(power2::pow2(27) == 0x800_0000);
    ones_with_top(upper, 27);
    let q = subframe_sum(sample, status, preamble);
    place_values(preamble as int, sample_bits(sample), status as int, q);
}

/// A subframe gives back its sample, its status bit and its preamble.
pub proof fn subframe_carries_its_fields(sample: i16, status: u32, preamble: u32)
    requires
        status <= 1,
        preamble < 16,
    ensures
        ({
            let w = subframe(sample, status, preamble) as int;
            &&& w % 16 == preamble
            &&& (w / 0x1000) % 0x1_0000 == sample_bits(sample)
            &&& (w / 0x4000_0000) % 2 == status
        }),
{
    let q = subframe_sum(sample, status, preamble);
    place_values(preamble as int, sample_bits(sample), status as int, q);
}

/// A frame carries both samples: each subframe its own in bits 12 to 27, the frame's channel status bit
/// in bit 30, nothing in the bits between, and a preamble that tells the first frame of a block, any
/// other left subframe, and a right one apart. The status bits say 44.1 kHz and 16 bits.
pub proof fn frames_carry_both_samples(left: i16, right: i16, frame: u32)
    ensures
        ({
            let (l, r) = frame_pair(left, right, frame);
            let status = if frame == 9 || frame == 15 || frame == 33 {
                1int
            } else {
                0
            };
            &&& l % 16 == (if frame == 0 {
                8int
            } else {
                2
            })
            &&& r % 16 == 4
            &&& (l / 16) % 256 == 0 && (r / 16) % 256 == 0
            &&& (l / 0x1000) % 0x1_0000 == (if left < 0 {
                left + 0x1_0000
            } else {
                left as int
            })
            &&& (r / 0x1000) % 0x1_0000 == (if right < 0 {
                right + 0x1_0000
            } else {
                right as int
            })
            &&& (l / 0x1000_0000) % 8 == 4 * status && (r / 0x1000_0000) % 8 == 4 * status
            &&& ones((l / 16) as nat) % 2 == 0 && ones((r / 16) as nat) % 2 == 0
        }),
{
    let s = status_bit(frame);
    let p = if frame == 0 {
        PREAMBLE_Z
    } else {
        PREAMBLE_X
    };
    subframe_carries_its_fields(left, s, p);
    subframe_carries_its_fields(right, s, PREAMBLE_Y);
    subframe_parity_is_even(left, s, p);
    subframe_parity_is_even(right, s, PREAMBLE_Y);
    let ql = subframe_sum(left, s, p);
    let qr = subframe_sum(right, s, PREAMBLE_Y);
    place_values(p as int, sample_bits(left), s as int, ql);
    place_values(PREAMBLE_Y as int, sample_bits(right), s as int, qr);
    gap_values(p as int, sample_bits(left), s as int, ql);
    gap_values(PREAMBLE_Y as int, sample_bits(right), s as int, qr);
}

proof fn gap_values(p: int, s: int, t: int, q: int)
    requires
        0 <= p < 16,
        0 <= s < 0x1_0000,
        0 <= t <= 1,
        0 <= q <= 1,
    ensures
        ({
            let w = p + 0x1000 * s + 0x4000_0000 * t + 0x8000_0000 * q;
            &&& (w / 16) % 256 == 0
            &&& (w / 0x1000_0000) % 8 == 4 * t
        }),
{
    let w = p + 0x1000 * s + 0x4000_0000 * t + 0x8000_0000 * q;
    assert(w / 16 == 256 * (s + 0x4_0000 * t + 0x8_0000 * q));
    assert(w / 0x1000_0000 == 4 * t + 8 * q);
}

/// Parity looks at bits 4 to 30 and nothing else: one more bit set among them changes it.
pub proof fn ones_count_bits(n: nat, k: nat)
    requires
        n < power2::pow2(k),
    ensures
        ones(0) == 0,
        ones(n + power2::pow2(k)) == ones(n) + 1,
{
    ones_with_top(n, k);
}

/// A subframe as a sum of its fields; the result is its parity bit.
proof fn subframe_sum(sample: i16, status: u32, preamble: u32) -> (q: int)
    requires
        status <= 1,
        preamble < 16,
    ensures
        0 <= q <= 1,
        q == ones(subframe_body(sample, status)) % 2,
        subframe_body(sample, status) == 0x1000 * sample_bits(sample) + 0x4000_0000 * status,
        subframe(sample, status, preamble) == preamble + 0x1000 * sample_bits(sample)
            + 0x4000_0000 * status + 0x8000_0000 * q,
{
    reveal(subframe);
    if ones(subframe_body(sample, status)) % 2 == 1 {
        1
    } else {
        0
    }
}

proof fn place_values(p: int, s: int, t: int, q: int)
    requires
        0 <= p < 16,
        0 <= s < 0x1_0000,
        0 <= t <= 1,
        0 <= q <= 1,
    ensures
        ({
            let w = p + 0x1000 * s + 0x4000_0000 * t + 0x8000_0000 * q;
            &&& w % 16 == p
            &&& w / 16 == 0x100 * s + 0x400_0000 * t + 0x800_0000 * q
            &&& (w / 0x1000) % 0x1_0000 == s
            &&& (w / 0x4000_0000) % 2 == t
        }),
{
    let w = p + 0x1000 * s + 0x4000_0000 * t + 0x8000_0000 * q;
    assert(w / 0x1000 == s + 0x4_0000 * t + 0x8_0000 * q);
    assert(w / 0x4000_0000 == t + 2 * q);
}

proof fn body_bits(v: u32)
    by (bit_vector)
    ensures
        v < 0x8000_0000 && v % 16 == 0 ==> v & 0x7FFF_FFF0 == v,
        v < 0x8000_0000 ==> v | 0x8000_0000 == v + 0x8000_0000,
{
}

proof fn sample_field_bits(s: i16)
    by (bit_vector)
    ensures
        ((s as u16) as u32) == (if s < 0 {
            s + 0x1_0000
        } else {
            s as int
        }),
{
}

proof fn shift_bits(lo: u32, status: u32)
    by (bit_vector)
    requires
        lo < 0x1_0000,
        status <= 1,
    ensures
        (lo << 12) == lo * 0x1000,
        (status << 30) == status * 0x4000_0000,
        (lo << 12) | (status << 30) == lo * 0x1000 + status * 0x4000_0000,
{
}

proof fn preamble_bits(w: u32, p: u32)
    by (bit_vector)
    requires
        w % 16 == 0,
        p < 16,
    ensures
        (w & 0xFFFF_FFF0) | p == w + p,
{
}

proof fn status_byte_bits(b: u32)
    by (bit_vector)
    requires
        b < 8,
    ensures
        (0x82u32 >> b) & 1 == (if b == 1 || b == 7 {
            1u32
        } else {
            0
        }),
        (0x02u32 >> b) & 1 == (if b == 1 {
            1u32
        } else {
            0
        }),
        (0u32 >> b) & 1 == 0u32,
{
}

/// Whether the ones in bits 4 to 30 are odd in number, so that the parity bit must be set
/// to make them even.
pub fn even_parity(v: u32) -> (set: bool)
    ensures
        set == (ones((v & 0x7FFF_FFF0) as nat) % 2 == 1),
{
    let masked: u32 = v & 0x7FFF_FFF0;
    let mut rest: u32 = masked;
    let mut odd: bool = false;
    while rest != 0
        invariant
            ones(masked as nat) % 2 == (ones(rest as nat) + (if odd {
                1nat
            } else {
                0
            })) % 2,
        decreases rest,
    {
        if rest % 2 == 1 {
            odd = !odd;
        }
        rest = rest / 2;
    }
    odd
}

/// A subframe without its preamble: the sample, the channel status bit, the parity.
pub fn build_iec958_subframe(sample: i16, channel_status_bit: u32) -> (w: u32)
    requires
        channel_status_bit <= 1,
    ensures
        w == subframe(sample, channel_status_bit, 0),
{
    let lo: u32 = (sample as u16) as u32;
    let mut w: u32 = (lo << 12) | (channel_status_bit << 30);
    proof {
        sample_field_bits(sample);
        shift_bits(lo, channel_status_bit);
        body_bits(w);
        assert(w == subframe_body(sample, channel_status_bit));
        let q = subframe_sum(sample, channel_status_bit, 0);
    }
    if even_parity(w) {
        w = w | 0x8000_0000;
    }
    w
}

/// The channel status bit of frame `frame_idx_in_block`.
pub fn channel_status_bit(frame_idx_in_block: u32) -> (bit: u32)
    ensures
        bit == status_bit(frame_idx_in_block),
{
    let byte_idx: u32 = frame_idx_in_block / 8;
    let bit_idx: u32 = frame_idx_in_block % 8;
    let byte: u32 = match byte_idx {
        1 => 0x82,
        4 => 0x02,
        _ => 0,
    };
    proof {
        status_byte_bits(bit_idx);
    }
    (byte >> bit_idx) & 1
}

/// The two subframes of a stereo frame, at a place in its block.
pub fn encode_iec958_pair(left: i16, right: i16, frame_idx_in_block: u32) -> (pair: (u32, u32))
    ensures
        pair == frame_pair(left, right, frame_idx_in_block),
{
    let c: u32 = channel_status_bit(frame_idx_in_block);
    let l: u32 = build_iec958_subframe(left, c);
    let r: u32 = build_iec958_subframe(right, c);
    let left_preamble: u32 = if frame_idx_in_block == 0 {
        PREAMBLE_Z
    } else {
        PREAMBLE_X
    };
    proof {
        let ql = subframe_sum(left, c, 0);
        let qr = subframe_sum(right, c, 0);
        let _ = subframe_sum(left, c, left_preamble);
        let _ = subframe_sum(right, c, PREAMBLE_Y);
        place_values(0, sample_bits(left), c as int, ql);
        place_values(0, sample_bits(right), c as int, qr);
        preamble_bits(l, left_preamble);
        preamble_bits(r, PREAMBLE_Y);
    }
    ((l & 0xFFFF_FFF0) | left_preamble, (r & 0xFFFF_FFF0) | PREAMBLE_Y)
}

} // verus!
