//! Words as bytes: little-endian and big-endian views of 16- and 32-bit values.

use vstd::prelude::*;

verus! {

/// The 32-bit value whose little-endian encoding is `s[off..off + 4]`.
#[verifier::opaque]
pub open spec fn le32(s: Seq<u8>, off: int) -> u32 {
    (s[off] + 0x100 * s[off + 1] + 0x1_0000 * s[off + 2] + 0x100_0000 * s[off + 3]) as u32
}

/// The 32-bit value whose big-endian encoding is `s[off..off + 4]`.
#[verifier::opaque]
pub open spec fn be32(s: Seq<u8>, off: int) -> u32 {
    (0x100_0000 * s[off] + 0x1_0000 * s[off + 1] + 0x100 * s[off + 2] + s[off + 3]) as u32
}

/// The 16-bit value whose little-endian encoding is `s[off..off + 2]`.
#[verifier::opaque]
pub open spec fn le16(s: Seq<u8>, off: int) -> u16 {
    (s[off] + 0x100 * s[off + 1]) as u16
}

/// Byte `k` of `w`, counting from the least significant.
#[verifier::opaque]
pub open spec fn byte_of(w: u32, k: int) -> u8 {
    if k == 0 {
        (w as int % 0x100) as u8
    } else if k == 1 {
        (w as int / 0x100 % 0x100) as u8
    } else if k == 2 {
        (w as int / 0x1_0000 % 0x100) as u8
    } else {
        (w as int / 0x100_0000) as u8
    }
}

/// `s` with the little-endian encoding of `w` stored at `off..off + 4`.
#[verifier::opaque]
pub open spec fn put_le32(s: Seq<u8>, off: int, w: u32) -> Seq<u8> {
    s.update(off, byte_of(w, 0)).update(off + 1, byte_of(w, 1)).update(
        off + 2,
        byte_of(w, 2),
    ).update(off + 3, byte_of(w, 3))
}

/// `w` with its four bytes in the opposite order.
#[verifier::opaque]
pub open spec fn swap32(w: u32) -> u32 {
    (0x100_0000 * byte_of(w, 0) + 0x1_0000 * byte_of(w, 1) + 0x100 * byte_of(w, 2) + byte_of(
        w,
        3,
    )) as u32
}

/// `w` with its two bytes in the opposite order.
#[verifier::opaque]
pub open spec fn swap16(w: u16) -> u16 {
    (0x100 * (w as int % 0x100) + w as int / 0x100) as u16
}

/// The big-endian encoding of `w`.
pub open spec fn be_bytes(w: u32) -> Seq<u8> {
    seq![byte_of(w, 3), byte_of(w, 2), byte_of(w, 1), byte_of(w, 0)]
}

/// The little-endian encoding of `w`.
pub open spec fn le_bytes(w: u32) -> Seq<u8> {
    seq![byte_of(w, 0), byte_of(w, 1), byte_of(w, 2), byte_of(w, 3)]
}

proof fn digits_bits(a: u8, b: u8, c: u8, d: u8)
    by (bit_vector)
    ensures
        ({
            let v = (a + 0x100 * b + 0x1_0000 * c + 0x100_0000 * d) as u32;
            &&& v % 0x100 == a
            &&& v / 0x100 % 0x100 == b
            &&& v / 0x1_0000 % 0x100 == c
            &&& v / 0x100_0000 == d
        }),
{
}

/// The bytes of a sum of weighted bytes are those bytes.
proof fn digits(a: u8, b: u8, c: u8, d: u8)
    ensures
        ({
            let v = (a + 0x100 * b + 0x1_0000 * c + 0x100_0000 * d) as u32;
            &&& byte_of(v, 0) == a
            &&& byte_of(v, 1) == b
            &&& byte_of(v, 2) == c
            &&& byte_of(v, 3) == d
        }),
{
    reveal(byte_of);
    digits_bits(a, b, c, d);
}

/// Swapping a word's bytes twice gives the word back.
pub proof fn swap32_involutive(w: u32)
    ensures
        swap32(swap32(w)) == w,
{
    reveal(swap32);
    digits(byte_of(w, 3), byte_of(w, 2), byte_of(w, 1), byte_of(w, 0));
    bytes_compose(w);
}

/// Which byte weighs what: the first of a little-endian number weighs one and each next one 256 times as
/// much; a big-endian number is the other way round; and a swapped number weighs its bytes in the
/// opposite order.
pub proof fn bytes_have_weights(s: Seq<u8>, at: int, w: u32, h: u16)
    requires
        0 <= at,
        at + 4 <= s.len(),
    ensures
        le32(s, at) as int == s[at] + s[at + 1] * 0x100 + s[at + 2] * 0x1_0000 + s[at + 3] * 0x100_0000,
        be32(s, at) as int == s[at + 3] + s[at + 2] * 0x100 + s[at + 1] * 0x1_0000 + s[at] * 0x100_0000,
        le16(s, at) as int == s[at] + s[at + 1] * 0x100,
        le32(put_le32(s, at, w), at) == w,
        be32(s, at) == w ==> le32(s, at) == swap32(w),
        swap16(h) as int == h as int / 0x100 + h as int % 0x100 * 0x100,
{
    reveal(le32);
    reveal(be32);
    reveal(le16);
    reveal(swap16);
    put_le32_reads_back(s, at, w);
    be32_is_swapped_le32(s, at);
    swap32_involutive(le32(s, at));
}

/// The bytes of a swapped word are the word's bytes in the opposite order.
pub proof fn swap32_bytes(w: u32)
    ensures
        byte_of(swap32(w), 0) == byte_of(w, 3),
        byte_of(swap32(w), 1) == byte_of(w, 2),
        byte_of(swap32(w), 2) == byte_of(w, 1),
        byte_of(swap32(w), 3) == byte_of(w, 0),
{
    reveal(swap32);
    digits(byte_of(w, 3), byte_of(w, 2), byte_of(w, 1), byte_of(w, 0));
}

/// A word is the sum of its bytes, each at its weight.
proof fn bytes_compose_bits(w: u32)
    by (bit_vector)
    ensures
        w % 0x100 + 0x100 * (w / 0x100 % 0x100) + 0x1_0000 * (w / 0x1_0000 % 0x100) + 0x100_0000 * (w
            / 0x100_0000) == w,
        w / 0x100_0000 < 0x100,
{
}

/// A word is the sum of its bytes, each at its weight.
pub proof fn bytes_compose(w: u32)
    ensures
        byte_of(w, 0) + 0x100 * byte_of(w, 1) + 0x1_0000 * byte_of(w, 2) + 0x100_0000 * byte_of(w, 3)
            == w,
{
    reveal(byte_of);
    bytes_compose_bits(w);
}

/// A stored word reads back, and nothing outside its four bytes changes.
pub proof fn put_le32_reads_back(s: Seq<u8>, off: int, w: u32)
    requires
        0 <= off,
        off + 4 <= s.len(),
    ensures
        le32(put_le32(s, off, w), off) == w,
        put_le32(s, off, w).len() == s.len(),
        put_le32(s, off, w)[off] == byte_of(w, 0),
        put_le32(s, off, w)[off + 1] == byte_of(w, 1),
        put_le32(s, off, w)[off + 2] == byte_of(w, 2),
        put_le32(s, off, w)[off + 3] == byte_of(w, 3),
        forall|i: int|
            0 <= i < s.len() && !(off <= i < off + 4) ==> #[trigger] put_le32(s, off, w)[i] == s[i],
{
    reveal(put_le32);
    reveal(le32);
    bytes_compose(w);
}

/// The bytes of a little-endian word are the bytes it was read from.
pub proof fn le32_bytes(s: Seq<u8>, off: int)
    ensures
        byte_of(le32(s, off), 0) == s[off],
        byte_of(le32(s, off), 1) == s[off + 1],
        byte_of(le32(s, off), 2) == s[off + 2],
        byte_of(le32(s, off), 3) == s[off + 3],
{
    reveal(le32);
    digits(s[off], s[off + 1], s[off + 2], s[off + 3]);
}

/// Where the four bytes of a word stand, the word reads.
pub proof fn le_bytes_read(s: Seq<u8>, off: int, w: u32)
    requires
        s[off] == le_bytes(w)[0],
        s[off + 1] == le_bytes(w)[1],
        s[off + 2] == le_bytes(w)[2],
        s[off + 3] == le_bytes(w)[3],
    ensures
        le32(s, off) == w,
{
    reveal(le32);
    bytes_compose(w);
}

/// Storing a word keeps the length.
pub broadcast proof fn put_le32_len(s: Seq<u8>, off: int, w: u32)
    requires
        0 <= off,
        off + 4 <= s.len(),
    ensures
        #[trigger] put_le32(s, off, w).len() == s.len(),
{
    reveal(put_le32);
}

/// Storing a word over itself changes nothing.
pub proof fn put_le32_same(s: Seq<u8>, off: int)
    requires
        0 <= off,
        off + 4 <= s.len(),
    ensures
        put_le32(s, off, le32(s, off)) == s,
{
    reveal(put_le32);
    le32_bytes(s, off);
    assert(put_le32(s, off, le32(s, off)) =~= s);
}

/// Storing a word leaves every word that does not overlap it alone.
pub proof fn put_le32_frames(s: Seq<u8>, off: int, w: u32, other: int)
    requires
        0 <= off,
        off + 4 <= s.len(),
        0 <= other,
        other + 4 <= s.len(),
        other + 4 <= off || off + 4 <= other,
    ensures
        le32(put_le32(s, off, w), other) == le32(s, other),
{
    reveal(le32);
    put_le32_reads_back(s, off, w);
}

/// The big-endian reading of four bytes is the byte swap of the little-endian one.
pub proof fn be32_is_swapped_le32(s: Seq<u8>, off: int)
    requires
        0 <= off,
        off + 4 <= s.len(),
    ensures
        be32(s, off) == swap32(le32(s, off)),
        le32(s, off) == swap32(be32(s, off)),
{
    reveal(le32);
    reveal(be32);
    reveal(swap32);
    le32_bytes(s, off);
    swap32_involutive(le32(s, off));
}

/// Byte strings of whole words with equal words are equal.
pub proof fn equal_by_words(a: Seq<u8>, b: Seq<u8>)
    requires
        a.len() == b.len(),
        a.len() % 4 == 0,
        forall|k: int|
            0 <= k && 4 * k + 4 <= a.len() ==> #[trigger] le32(a, 4 * k) == le32(
                b,
                4 * k,
            ),
    ensures
        a == b,
{
    assert forall|i: int| 0 <= i < a.len() implies a[i] == b[i] by {
        let k = i / 4;
        le32_bytes(a, 4 * k);
        le32_bytes(b, 4 * k);
        assert(le32(a, 4 * k) == le32(b, 4 * k));
    }
    assert(a =~= b);
}

/// `s` with word `k` replaced by `f(k)` for `lo <= k < hi`.
pub open spec fn from_words(s: Seq<u8>, lo: int, hi: int, f: spec_fn(int) -> u32) -> Seq<u8> {
    Seq::new(
        s.len(),
        |i: int|
            if 4 * lo <= i < 4 * hi {
                byte_of(f(i / 4), i % 4)
            } else {
                s[i]
            },
    )
}

/// The words of `from_words`.
pub proof fn from_words_word(s: Seq<u8>, lo: int, hi: int, f: spec_fn(int) -> u32, k: int)
    requires
        0 <= k,
        4 * k + 4 <= s.len(),
    ensures
        le32(from_words(s, lo, hi, f), 4 * k) == (if lo <= k < hi {
            f(k)
        } else {
            le32(s, 4 * k)
        }),
{
    reveal(le32);
    let t = from_words(s, lo, hi, f);
    let a = 4 * k;
    assert((a + 1) / 4 == k && (a + 2) / 4 == k && (a + 3) / 4 == k && a / 4 == k);
    assert((a + 1) % 4 == 1 && (a + 2) % 4 == 2 && (a + 3) % 4 == 3 && a % 4 == 0);
    if lo <= k < hi {
        bytes_compose(f(k));
        assert(t[a] == byte_of(f(k), 0));
        assert(t[a + 1] == byte_of(f(k), 1));
        assert(t[a + 2] == byte_of(f(k), 2));
        assert(t[a + 3] == byte_of(f(k), 3));
    } else {
        assert(t[a] == s[a]);
        assert(t[a + 1] == s[a + 1]);
        assert(t[a + 2] == s[a + 2]);
        assert(t[a + 3] == s[a + 3]);
    }
}

/// Storing word `hi` extends `from_words` by one word.
pub proof fn from_words_step(s: Seq<u8>, lo: int, hi: int, f: spec_fn(int) -> u32)
    requires
        0 <= lo <= hi,
        4 * hi + 4 <= s.len(),
    ensures
        put_le32(from_words(s, lo, hi, f), 4 * hi, f(hi)) == from_words(s, lo, hi + 1, f),
{
    let p = from_words(s, lo, hi, f);
    let q = put_le32(p, 4 * hi, f(hi));
    let t = from_words(s, lo, hi + 1, f);
    put_le32_reads_back(p, 4 * hi, f(hi));
    assert forall|i: int| 0 <= i < s.len() implies q[i] == t[i] by {
        if 4 * hi <= i < 4 * hi + 4 {
            assert(i / 4 == hi);
            assert(i % 4 == i - 4 * hi);
            assert(i == 4 * hi || i == 4 * hi + 1 || i == 4 * hi + 2 || i == 4 * hi + 3);
        }
    }
    assert(q =~= t);
}

/// `s` with the words `ws` stored from word `base` on.
pub open spec fn put_words(s: Seq<u8>, base: int, ws: Seq<u32>) -> Seq<u8> {
    from_words(s, base, base + ws.len(), |k: int| ws[k - base])
}

/// Reads the little-endian word at `off`.
pub fn get_le32(s: &[u8], off: usize) -> (w: u32)
    requires
        off + 4 <= s@.len(),
    ensures
        w == le32(s@, off as int),
{
    proof {
        reveal(le32);
    }
    s[off] as u32 + 0x100 * (s[off + 1] as u32) + 0x1_0000 * (s[off + 2] as u32) + 0x100_0000 * (
    s[off + 3] as u32)
}

/// Reads the big-endian word at `off`.
pub fn get_be32(s: &[u8], off: usize) -> (w: u32)
    requires
        off + 4 <= s@.len(),
    ensures
        w == be32(s@, off as int),
{
    proof {
        reveal(be32);
    }
    0x100_0000 * (s[off] as u32) + 0x1_0000 * (s[off + 1] as u32) + 0x100 * (s[off + 2] as u32)
        + s[off + 3] as u32
}

/// Reads the little-endian halfword at `off`.
pub fn get_le16(s: &[u8], off: usize) -> (w: u16)
    requires
        off + 2 <= s@.len(),
    ensures
        w == le16(s@, off as int),
{
    proof {
        reveal(le16);
    }
    s[off] as u16 + 0x100 * (s[off + 1] as u16)
}

/// Byte `k` of `w`, counting from the least significant.
pub fn nth_byte(w: u32, k: usize) -> (b: u8)
    requires
        k < 4,
    ensures
        b == byte_of(w, k as int),
{
    proof {
        reveal(byte_of);
    }
    if k == 0 {
        (w % 0x100) as u8
    } else if k == 1 {
        (w / 0x100 % 0x100) as u8
    } else if k == 2 {
        (w / 0x1_0000 % 0x100) as u8
    } else {
        (w / 0x100_0000) as u8
    }
}

/// Stores the little-endian encoding of `w` at `off`.
pub fn set_le32(s: &mut Vec<u8>, off: usize, w: u32)
    requires
        off + 4 <= old(s).len(),
    ensures
        final(s)@ == put_le32(old(s)@, off as int, w),
{
    proof {
        reveal(put_le32);
    }
    s[off] = nth_byte(w, 0);
    s[off + 1] = nth_byte(w, 1);
    s[off + 2] = nth_byte(w, 2);
    s[off + 3] = nth_byte(w, 3);
}

/// `w` with its four bytes in the opposite order.
pub fn swap_bytes32(w: u32) -> (r: u32)
    ensures
        r == swap32(w),
{
    proof {
        reveal(swap32);
    }
    0x100_0000 * (nth_byte(w, 0) as u32) + 0x1_0000 * (nth_byte(w, 1) as u32) + 0x100 * (nth_byte(
        w,
        2,
    ) as u32) + nth_byte(w, 3) as u32
}

/// `w` with its two bytes in the opposite order.
pub fn swap_bytes16(w: u16) -> (r: u16)
    ensures
        r == swap16(w),
{
    proof {
        reveal(swap16);
    }
    0x100 * (w % 0x100) + w / 0x100
}

} // verus!
