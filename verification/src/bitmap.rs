//! Bitmaps of 32-bit words, as sets of indices.

use vstd::prelude::*;

verus! {

/// Bit `k` of `w`.
pub open spec fn bit_set(w: u32, k: u32) -> bool {
    w & (1u32 << k) != 0
}

/// The indices whose bits are set: bit `i % 32` of word `i / 32` stands for `i`.
pub open spec fn members(bm: Seq<u32>) -> Set<int> {
    Set::new(|i: int| 0 <= i < 32 * bm.len() && bit_set(bm[i / 32], (i % 32) as u32))
}

/// Whether `i` is the first member of `s` from `from` on.
pub open spec fn is_next(s: Set<int>, from: int, i: int) -> bool {
    &&& s.contains(i)
    &&& from <= i
    &&& forall|j: int| from <= j < i ==> !#[trigger] s.contains(j)
}

/// Whether `s` has no member from `from` on.
pub open spec fn none_from(s: Set<int>, from: int) -> bool {
    forall|j: int| from <= j ==> !#[trigger] s.contains(j)
}

proof fn word_bits(w: u32, v: u32, i: u32, k: u32)
    by (bit_vector)
    requires
        i < 32,
        k < 32,
    ensures
        (w | (1u32 << i)) & (1u32 << k) != 0 <==> w & (1u32 << k) != 0 || i == k,
        (w & !(1u32 << i)) & (1u32 << k) != 0 <==> w & (1u32 << k) != 0 && i != k,
        (w | v) & (1u32 << k) != 0 <==> w & (1u32 << k) != 0 || v & (1u32 << k) != 0,
        0u32 & (1u32 << k) == 0,
        w & (1u32 << k) != 0 <==> (w >> k) % 2 == 1,
{
}

proof fn span_bits(w: u32, lo: u32, hi: u32, k: u32)
    by (bit_vector)
    requires
        lo <= hi,
        hi < 32,
        k < 32,
    ensures
        ({
            let m = if hi - lo + 1 == 32 {
                0xFFFF_FFFFu32
            } else {
                ((1u32 << ((hi - lo + 1) as u32)) - 1) as u32
            };
            (w | (m << lo)) & (1u32 << k) != 0 <==> w & (1u32 << k) != 0 || (lo <= k && k <= hi)
        }),
        hi - lo + 1 < 32 ==> 1u32 << ((hi - lo + 1) as u32) >= 1,
{
}

/// Bit `i % 32` of word `i / 32` says whether `i` is a member.
pub proof fn members_are_bits(bm: Seq<u32>, i: int)
    ensures
        members(bm).contains(i) <==> 0 <= i < 32 * bm.len() && (bm[i / 32] >> ((i % 32) as u32)) % 2 == 1,
{
    if 0 <= i < 32 * bm.len() {
        word_bits(bm[i / 32], 0, 0, (i % 32) as u32);
    }
}

/// No member from `from` on comes before the next one, and where there is none there is no member.
pub proof fn next_is_the_smallest(s: Set<int>, from: int, i: int, j: int)
    requires
        s.contains(j),
        from <= j,
    ensures
        is_next(s, from, i) ==> from <= i <= j && s.contains(i),
        !none_from(s, from),
{
}

/// A bitmap with all words zero has no members.
pub proof fn zero_words_have_no_members(bm: Seq<u32>)
    requires
        forall|k: int| 0 <= k < bm.len() ==> #[trigger] bm[k] == 0,
    ensures
        members(bm) == Set::<int>::empty(),
{
    assert forall|i: int| !members(bm).contains(i) by {
        if 0 <= i < 32 * bm.len() {
            word_bits(0, 0, 0, (i % 32) as u32);
            assert(bm[i / 32] == 0);
        }
    }
    assert(members(bm) =~= Set::<int>::empty());
}

/// A bitmap without members has all words zero.
pub proof fn no_members_mean_zero_words(bm: Seq<u32>, k: int)
    requires
        members(bm) == Set::<int>::empty(),
        0 <= k < bm.len(),
    ensures
        bm[k] == 0,
{
    let w = bm[k];
    assert forall|b: u32| b < 32 implies !#[trigger] bit_set(w, b) by {
        let i = 32 * k + b;
        assert(i / 32 == k && i % 32 == b);
        assert(!members(bm).contains(i));
    }
    assert(!bit_set(w, 0) && !bit_set(w, 1) && !bit_set(w, 2) && !bit_set(w, 3) && !bit_set(w, 4)
        && !bit_set(w, 5) && !bit_set(w, 6) && !bit_set(w, 7) && !bit_set(w, 8) && !bit_set(w, 9)
        && !bit_set(w, 10) && !bit_set(w, 11) && !bit_set(w, 12) && !bit_set(w, 13) && !bit_set(
        w,
        14,
    ) && !bit_set(w, 15) && !bit_set(w, 16) && !bit_set(w, 17) && !bit_set(w, 18) && !bit_set(w, 19)
        && !bit_set(w, 20) && !bit_set(w, 21) && !bit_set(w, 22) && !bit_set(w, 23) && !bit_set(
        w,
        24,
    ) && !bit_set(w, 25) && !bit_set(w, 26) && !bit_set(w, 27) && !bit_set(w, 28) && !bit_set(w, 29)
        && !bit_set(w, 30) && !bit_set(w, 31));
    all_bits_clear(w);
}

proof fn all_bits_clear(w: u32)
    by (bit_vector)
    requires
        w & (1u32 << 0) == 0 && w & (1u32 << 1) == 0 && w & (1u32 << 2) == 0 && w & (1u32 << 3)
            == 0 && w & (1u32 << 4) == 0 && w & (1u32 << 5) == 0 && w & (1u32 << 6) == 0 && w & (
        1u32 << 7) == 0 && w & (1u32 << 8) == 0 && w & (1u32 << 9) == 0 && w & (1u32 << 10) == 0
            && w & (1u32 << 11) == 0 && w & (1u32 << 12) == 0 && w & (1u32 << 13) == 0 && w & (1u32
            << 14) == 0 && w & (1u32 << 15) == 0 && w & (1u32 << 16) == 0 && w & (1u32 << 17) == 0
            && w & (1u32 << 18) == 0 && w & (1u32 << 19) == 0 && w & (1u32 << 20) == 0 && w & (1u32
            << 21) == 0 && w & (1u32 << 22) == 0 && w & (1u32 << 23) == 0 && w & (1u32 << 24) == 0
            && w & (1u32 << 25) == 0 && w & (1u32 << 26) == 0 && w & (1u32 << 27) == 0 && w & (1u32
            << 28) == 0 && w & (1u32 << 29) == 0 && w & (1u32 << 30) == 0 && w & (1u32 << 31) == 0,
    ensures
        w == 0,
{
}

/// Whether index `i` is set.
pub fn cl_test(bm: &Vec<u32>, i: usize) -> (yes: bool)
    requires
        i < 32 * bm@.len(),
    ensures
        yes == members(bm@).contains(i as int),
{
    let k: u32 = (i % 32) as u32;
    bm[i / 32] & (1u32 << k) != 0
}

/// Sets index `i`.
pub fn cl_set(bm: &mut Vec<u32>, i: usize)
    requires
        i < 32 * old(bm)@.len(),
    ensures
        final(bm)@.len() == old(bm)@.len(),
        members(final(bm)@) == members(old(bm)@).insert(i as int),
{
    let k: u32 = (i % 32) as u32;
    let w = bm[i / 32] | (1u32 << k);
    bm.set(i / 32, w);
    proof {
        let a = members(old(bm)@);
        let b = members(bm@);
        assert forall|j: int| b.contains(j) == a.insert(i as int).contains(j) by {
            if 0 <= j < 32 * bm@.len() {
                word_bits(old(bm)@[i as int / 32], 0, k, (j % 32) as u32);
            }
        }
        assert(b =~= a.insert(i as int));
    }
}

/// Clears index `i`.
pub fn cl_clear(bm: &mut Vec<u32>, i: usize)
    requires
        i < 32 * old(bm)@.len(),
    ensures
        final(bm)@.len() == old(bm)@.len(),
        members(final(bm)@) == members(old(bm)@).remove(i as int),
{
    let k: u32 = (i % 32) as u32;
    let w = bm[i / 32] & !(1u32 << k);
    bm.set(i / 32, w);
    proof {
        let a = members(old(bm)@);
        let b = members(bm@);
        assert forall|j: int| b.contains(j) == a.remove(i as int).contains(j) by {
            if 0 <= j < 32 * bm@.len() {
                word_bits(old(bm)@[i as int / 32], 0, k, (j % 32) as u32);
            }
        }
        assert(b =~= a.remove(i as int));
    }
}

/// The first set index from `from` on. Words of zero are skipped whole.
pub fn cl_next(bm: &Vec<u32>, from: usize) -> (next: Option<usize>)
    requires
        bm@.len() <= 64,
    ensures
        match next {
            Some(i) => i < 32 * bm@.len() && is_next(members(bm@), from as int, i as int),
            None => none_from(members(bm@), from as int),
        },
{
    let n: usize = 32 * bm.len();
    let mut i: usize = from;
    while i < n
        invariant
            n == 32 * bm@.len(),
            bm@.len() <= 64,
            from <= i,
            forall|j: int| from <= j < i ==> !#[trigger] members(bm@).contains(j),
        decreases n + 32 - i,
    {
        if i % 32 == 0 && bm[i / 32] == 0 {
            proof {
                assert forall|j: int| i <= j < i + 32 implies !#[trigger] members(bm@).contains(
                    j,
                ) by {
                    if j < n {
                        assert(j / 32 == i as int / 32);
                        word_bits(0, 0, 0, (j % 32) as u32);
                    }
                }
            }
            i = i + 32;
            continue ;
        }
        if cl_test(bm, i) {
            return Some(i);
        }
        i = i + 1;
    }
    None
}

/// Adds every member of `src` to `dst`.
pub fn bm_union(dst: &mut Vec<u32>, src: &Vec<u32>)
    requires
        old(dst)@.len() == src@.len(),
    ensures
        final(dst)@.len() == old(dst)@.len(),
        members(final(dst)@) == members(old(dst)@).union(members(src@)),
{
    let mut k: usize = 0;
    while k < src.len()
        invariant
            k <= src@.len(),
            dst@.len() == src@.len(),
            old(dst)@.len() == src@.len(),
            forall|j: int| 0 <= j < k ==> #[trigger] dst@[j] == (old(dst)@[j] | src@[j]),
            forall|j: int| k <= j < src@.len() ==> #[trigger] dst@[j] == old(dst)@[j],
        decreases src@.len() - k,
    {
        let w = dst[k] | src[k];
        dst.set(k, w);
        k = k + 1;
    }
    proof {
        let a = members(old(dst)@);
        let b = members(src@);
        assert forall|i: int| members(dst@).contains(i) == a.union(b).contains(i) by {
            if 0 <= i < 32 * src@.len() {
                assert(dst@[i / 32] == (old(dst)@[i / 32] | src@[i / 32]));
                word_bits(old(dst)@[i / 32], src@[i / 32], 0, (i % 32) as u32);
            }
        }
        assert(members(dst@) =~= a.union(b));
    }
}

/// Removes every member.
pub fn bm_zero(bm: &mut Vec<u32>)
    ensures
        final(bm)@.len() == old(bm)@.len(),
        members(final(bm)@) == Set::<int>::empty(),
{
    let mut k: usize = 0;
    while k < bm.len()
        invariant
            k <= bm@.len(),
            bm@.len() == old(bm)@.len(),
            forall|j: int| 0 <= j < k ==> #[trigger] bm@[j] == 0,
        decreases bm@.len() - k,
    {
        bm.set(k, 0);
        k = k + 1;
    }
    proof {
        zero_words_have_no_members(bm@);
    }
}

/// Whether there is no member.
pub fn bm_is_empty(bm: &Vec<u32>) -> (empty: bool)
    ensures
        empty == (members(bm@) == Set::<int>::empty()),
{
    let mut k: usize = 0;
    while k < bm.len()
        invariant
            k <= bm@.len(),
            forall|j: int| 0 <= j < k ==> #[trigger] bm@[j] == 0,
        decreases bm@.len() - k,
    {
        if bm[k] != 0 {
            proof {
                if members(bm@) == Set::<int>::empty() {
                    no_members_mean_zero_words(bm@, k as int);
                }
            }
            return false;
        }
        k = k + 1;
    }
    proof {
        zero_words_have_no_members(bm@);
    }
    true
}

/// Adds every index from `first` to `last`, both included.
pub fn bm_set_span(bm: &mut Vec<u32>, first: usize, last: usize)
    requires
        first <= last < 32 * old(bm)@.len(),
        old(bm)@.len() <= 64,
    ensures
        final(bm)@.len() == old(bm)@.len(),
        members(final(bm)@) == members(old(bm)@).union(
            Set::new(|i: int| first <= i <= last),
        ),
{
    let ghost bm0 = bm@;
    let mut w: usize = first / 32;
    while w * 32 <= last && w < bm.len()
        invariant
            first <= last < 32 * bm0.len(),
            bm0.len() <= 64,
            bm@.len() == bm0.len(),
            first / 32 <= w <= last / 32 + 1,
            forall|i: int|
                0 <= i < 32 * bm0.len() ==> (#[trigger] bit_set(bm@[i / 32], (i % 32) as u32)
                    == (bit_set(bm0[i / 32], (i % 32) as u32) || (first <= i <= last && i < 32
                    * w))),
            forall|k: int| w <= k < bm0.len() ==> #[trigger] bm@[k] == bm0[k],
        decreases last + 32 - 32 * w,
    {
        let ghost before = bm@;
        let word_first: usize = w * 32;
        let word_last: usize = word_first + 31;
        let lo: u32 = ((if first > word_first {
            first
        } else {
            word_first
        }) - word_first) as u32;
        let hi: u32 = ((if last < word_last {
            last
        } else {
            word_last
        }) - word_first) as u32;
        let span: u32 = hi - lo + 1;
        proof {
            span_bits(0, lo, hi, 0);
        }
        let m: u32 = if span == 32 {
            u32::MAX
        } else {
            (1u32 << span) - 1
        };
        let mask: u32 = m << lo;
        let v = bm[w] | mask;
        bm.set(w, v);
        proof {
            assert forall|i: int|
                0 <= i < 32 * bm0.len() implies #[trigger] bit_set(bm@[i / 32], (i % 32) as u32)
                == (bit_set(bm0[i / 32], (i % 32) as u32) || (first <= i <= last && i < 32 * (w
                + 1))) by {
                let k = (i % 32) as u32;
                assert(bit_set(before[i / 32], k) == (bit_set(bm0[i / 32], k) || (first <= i
                    <= last && i < 32 * w)));
                if i / 32 == w {
                    span_bits(before[w as int], lo, hi, k);
                    assert(i == 32 * w + k);
                }
            }
        }
        w = w + 1;
    }
    proof {
        let span = Set::new(|i: int| first <= i <= last);
        assert forall|i: int|
            members(bm@).contains(i) == members(bm0).union(span).contains(i) by {
            if 0 <= i < 32 * bm0.len() {
                assert(bit_set(bm@[i / 32], (i % 32) as u32) == (bit_set(
                    bm0[i / 32],
                    (i % 32) as u32,
                ) || (first <= i <= last && i < 32 * w)));
            }
        }
        assert(members(bm@) =~= members(bm0).union(span));
    }
}

} // verus!
