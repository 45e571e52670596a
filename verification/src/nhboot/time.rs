//! Microseconds from the generic timer's count.

use vstd::prelude::*;

verus! {

/// The counter frequency to assume where none was programmed: the board's crystal.
pub const DEFAULT_FREQ_HZ: u64 = 19_200_000;

/// The time in microseconds at count `cnt` of a counter that runs at `freq` hertz. The
/// product wraps around, as the counter itself does.
pub open spec fn micros(cnt: u64, freq: u64) -> u64 {
    cnt.wrapping_mul(1_000_000) / if freq == 0 {
        DEFAULT_FREQ_HZ
    } else {
        freq
    }
}

/// The time in microseconds at count `cnt` of a counter that runs at `freq` hertz; a
/// frequency of zero means that none was programmed.
pub fn now_us(cnt: u64, freq: u64) -> (us: u64)
    ensures
        us == micros(cnt, freq),
{
    let f: u64 = if freq == 0 {
        DEFAULT_FREQ_HZ
    } else {
        freq
    };
    cnt.wrapping_mul(1_000_000) / f
}

/// Microseconds from `since` to `now`.
pub fn elapsed_us(now: u64, since: u64) -> (us: u64)
    ensures
        us == now.wrapping_sub(since),
{
    now.wrapping_sub(since)
}

/// The time in microseconds is the count over the frequency, in whole microseconds; a frequency of
/// zero stands for 19.2 megahertz.
pub proof fn time_is_count_over_frequency(cnt: u64, freq: u64)
    requires
        cnt * 1_000_000 <= u64::MAX,
    ensures
        freq > 0 ==> micros(cnt, freq) * freq <= cnt * 1_000_000 < (micros(cnt, freq) + 1) * freq,
        micros(cnt, 0) * 19_200_000 <= cnt * 1_000_000 < (micros(cnt, 0) + 1) * 19_200_000,
{
    let x = cnt * 1_000_000;
    if freq > 0 {
        let f = freq as int;
        vstd::arithmetic::div_mod::lemma_fundamental_div_mod(x, f);
        assert(x / f * f <= x < (x / f + 1) * f) by (nonlinear_arith)
            requires
                x == f * (x / f) + x % f,
                0 <= x % f < f,
        ;
    }
}

/// While the count stays small enough not to wrap, time does not run backwards.
pub proof fn time_is_monotonic(a: u64, b: u64, freq: u64)
    requires
        a <= b,
        b * 1_000_000 <= u64::MAX,
    ensures
        micros(a, freq) <= micros(b, freq),
        micros(b, freq).wrapping_sub(micros(a, freq)) == micros(b, freq) - micros(a, freq),
{
    let f = if freq == 0 {
        DEFAULT_FREQ_HZ
    } else {
        freq
    };
    assert(a * 1_000_000 <= b * 1_000_000);
    vstd::arithmetic::div_mod::lemma_div_is_ordered(
        a * 1_000_000,
        b * 1_000_000,
        f as int,
    );
}

} // verus!
