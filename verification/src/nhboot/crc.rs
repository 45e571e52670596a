//! CRC-32 with the IEEE polynomial, and Adler-32.

use vstd::prelude::*;

verus! {

/// One bit step of the reflected CRC register.
pub open spec fn crc_bit(c: u32) -> u32 {
    if c & 1 != 0 {
        0xEDB8_8320 ^ (c >> 1)
    } else {
        c >> 1
    }
}

/// Four bit steps.
pub open spec fn crc_nibble(c: u32) -> u32 {
    crc_bit(crc_bit(crc_bit(crc_bit(c))))
}

/// The register after one message byte.
#[verifier::opaque]
pub open spec fn crc_byte(c: u32, b: u8) -> u32 {
    crc_nibble(crc_nibble(c ^ (b as u32)))
}

/// The register after the message `data`, from register value `state`.
pub open spec fn crc_register(state: u32, data: Seq<u8>) -> u32
    decreases data.len(),
{
    if data.len() == 0 {
        state
    } else {
        crc_byte(crc_register(state, data.drop_last()), data.last())
    }
}

/// The CRC-32 of `data`.
pub open spec fn crc32_of(data: Seq<u8>) -> u32 {
    crc_register(0xFFFF_FFFF, data) ^ 0xFFFF_FFFF
}

/// A CRC can be carried on over a second part of the message.
pub proof fn crc_of_concatenation(state: u32, a: Seq<u8>, b: Seq<u8>)
    ensures
        crc_register(state, a + b) == crc_register(crc_register(state, a), b),
    decreases b.len(),
{
    if b.len() == 0 {
        assert(a + b =~= a);
    } else {
        crc_of_concatenation(state, a, b.drop_last());
        assert((a + b).drop_last() =~= a + b.drop_last());
    }
}

proof fn crc_byte_injective_bits(c: u32, d: u32, a: u8, b: u8)
    by (bit_vector)
    ensures
        crc_nibble(crc_nibble(c ^ (a as u32))) == crc_nibble(crc_nibble(d ^ (a as u32))) ==> c == d,
        crc_nibble(crc_nibble(c ^ (a as u32))) == crc_nibble(crc_nibble(c ^ (b as u32))) ==> a == b,
        (c ^ 0xFFFF_FFFF) == (d ^ 0xFFFF_FFFF) ==> c == d,
{
}

proof fn register_differences_survive(c: u32, d: u32, tail: Seq<u8>)
    requires
        c != d,
    ensures
        crc_register(c, tail) != crc_register(d, tail),
    decreases tail.len(),
{
    if tail.len() > 0 {
        register_differences_survive(c, d, tail.drop_last());
        reveal(crc_byte);
        crc_byte_injective_bits(
            crc_register(c, tail.drop_last()),
            crc_register(d, tail.drop_last()),
            tail.last(),
            0,
        );
    }
}

/// Changing one byte of a message changes its CRC-32.
pub proof fn one_changed_byte_is_detected(data: Seq<u8>, i: int, b: u8)
    requires
        0 <= i < data.len(),
        data[i] != b,
    ensures
        crc32_of(data.update(i, b)) != crc32_of(data),
{
    let head = data.take(i);
    let tail = data.skip(i + 1);
    let r = crc_register(0xFFFF_FFFF, head);
    assert(data =~= head + seq![data[i]] + tail);
    assert(data.update(i, b) =~= head + seq![b] + tail);
    crc_of_concatenation(0xFFFF_FFFF, head + seq![data[i]], tail);
    crc_of_concatenation(0xFFFF_FFFF, head + seq![b], tail);
    assert((head + seq![data[i]]).drop_last() =~= head);
    assert((head + seq![b]).drop_last() =~= head);
    reveal(crc_byte);
    crc_byte_injective_bits(r, r, data[i], b);
    let c = crc_register(0xFFFF_FFFF, head + seq![data[i]]);
    let d = crc_register(0xFFFF_FFFF, head + seq![b]);
    assert(c == crc_byte(r, data[i]));
    assert(d == crc_byte(r, b));
    register_differences_survive(c, d, tail);
    crc_byte_injective_bits(crc_register(c, tail), crc_register(d, tail), 0, 0);
}

proof fn residue_bits(r: u32)
    by (bit_vector)
    ensures
        crc_nibble(crc_nibble(0xFF)) == 0x2D02_EF8D,
        crc_nibble(crc_nibble(0x72)) == 0xBE0B_1010,
        crc_nibble(crc_nibble(0x00)) == 0x0000_0000,
        crc_nibble(crc_nibble(0xED)) == 0xDEBB_9EC5,
        ({
            let v = r ^ 0xFFFF_FFFF;
            let r1 = 0x2D02_EF8Du32 ^ (r >> 8);
            let r2 = 0xBE0B_1010u32 ^ (r1 >> 8);
            let r3 = 0x0000_0000u32 ^ (r2 >> 8);
            let r4 = 0xDEBB_9EC5u32 ^ (r3 >> 8);
            &&& (r ^ (((v % 0x100) as u8) as u32)) & 0xFF == 0xFF
            &&& (r1 ^ (((v / 0x100 % 0x100) as u8) as u32)) & 0xFF == 0x72
            &&& (r2 ^ (((v / 0x1_0000 % 0x100) as u8) as u32)) & 0xFF == 0x00
            &&& (r3 ^ (((v / 0x100_0000) as u8) as u32)) & 0xFF == 0xED
            &&& r4 ^ 0xFFFF_FFFF == 0x2144_DF1C
        }),
        0xFFFF_FFFFu32 ^ 0xFFFF_FFFF == 0,
{
}

/// A message that is followed by its own CRC-32, the least significant byte first, has the residue of the
/// IEEE polynomial, whatever the message is; and nothing has the CRC-32 zero.
pub proof fn residue_is_constant(data: Seq<u8>, a: u8, b: u8, c: u8, d: u8)
    requires
        a + 0x100 * b + 0x1_0000 * c + 0x100_0000 * d == crc32_of(data),
    ensures
        crc32_of(data.push(a).push(b).push(c).push(d)) == 0x2144_DF1C,
        crc32_of(Seq::empty()) == 0,
{
    let r = crc_register(0xFFFF_FFFF, data);
    residue_of_bytes(r, a, b, c, d);
    let d1 = data.push(a);
    let d2 = d1.push(b);
    let d3 = d2.push(c);
    let d4 = d3.push(d);
    assert(d1.drop_last() =~= data);
    assert(d2.drop_last() =~= d1);
    assert(d3.drop_last() =~= d2);
    assert(d4.drop_last() =~= d3);
    assert(crc_register(0xFFFF_FFFF, d1) == crc_byte(r, a));
    assert(crc_register(0xFFFF_FFFF, d2) == crc_byte(crc_byte(r, a), b));
    assert(crc_register(0xFFFF_FFFF, d3) == crc_byte(crc_byte(crc_byte(r, a), b), c));
}

proof fn byte_by_its_low_bits(x: u32, b: u8, low: u32, k: u32)
    requires
        (x ^ (b as u32)) & 0xFF == low,
        crc_nibble(crc_nibble(low)) == k,
    ensures
        crc_byte(x, b) == k ^ (x >> 8),
{
    reveal(crc_byte);
    byte_table_bits(x, b);
}

proof fn residue_of_bytes(r: u32, a: u8, b: u8, c: u8, d: u8)
    requires
        a + 0x100 * b + 0x1_0000 * c + 0x100_0000 * d == r ^ 0xFFFF_FFFF,
    ensures
        crc_byte(crc_byte(crc_byte(crc_byte(r, a), b), c), d) ^ 0xFFFF_FFFF == 0x2144_DF1C,
        0xFFFF_FFFFu32 ^ 0xFFFF_FFFF == 0,
{
    let v = r ^ 0xFFFF_FFFF;
    assert(v % 0x100 == a && v / 0x100 % 0x100 == b && v / 0x1_0000 % 0x100 == c && v / 0x100_0000 == d);
    residue_bits(r);
    let r1 = 0x2D02_EF8Du32 ^ (r >> 8);
    let r2 = 0xBE0B_1010u32 ^ (r1 >> 8);
    let r3 = 0x0000_0000u32 ^ (r2 >> 8);
    byte_by_its_low_bits(r, a, 0xFF, 0x2D02_EF8D);
    byte_by_its_low_bits(r1, b, 0x72, 0xBE0B_1010);
    byte_by_its_low_bits(r2, c, 0x00, 0x0000_0000);
    byte_by_its_low_bits(r3, d, 0xED, 0xDEBB_9EC5);
}

proof fn nibble_table_bits()
    by (bit_vector)
    ensures
        crc_nibble(0) == 0x0000_0000,
        crc_nibble(1) == 0x1DB7_1064,
        crc_nibble(2) == 0x3B6E_20C8,
        crc_nibble(3) == 0x26D9_30AC,
        crc_nibble(4) == 0x76DC_4190,
        crc_nibble(5) == 0x6B6B_51F4,
        crc_nibble(6) == 0x4DB2_6158,
        crc_nibble(7) == 0x5005_713C,
        crc_nibble(8) == 0xEDB8_8320,
        crc_nibble(9) == 0xF00F_9344,
        crc_nibble(10) == 0xD6D6_A3E8,
        crc_nibble(11) == 0xCB61_B38C,
        crc_nibble(12) == 0x9B64_C2B0,
        crc_nibble(13) == 0x86D3_D2D4,
        crc_nibble(14) == 0xA00A_E278,
        crc_nibble(15) == 0xBDBD_F21C,
{
}

/// The CRC of each nibble.
fn nibble_table() -> (t: [u32; 16])
    ensures
        forall|i: int| 0 <= i < 16 ==> #[trigger] t[i] == crc_nibble(i as u32),
{
    proof {
        nibble_table_bits();
    }
    [
        0x0000_0000,
        0x1DB7_1064,
        0x3B6E_20C8,
        0x26D9_30AC,
        0x76DC_4190,
        0x6B6B_51F4,
        0x4DB2_6158,
        0x5005_713C,
        0xEDB8_8320,
        0xF00F_9344,
        0xD6D6_A3E8,
        0xCB61_B38C,
        0x9B64_C2B0,
        0x86D3_D2D4,
        0xA00A_E278,
        0xBDBD_F21C,
    ]
}

proof fn nibble_step_bits(c: u32, b: u8)
    by (bit_vector)
    ensures
        (c ^ (b as u32)) & 0xF < 16,
        ({
            let c1 = crc_nibble((c ^ (b as u32)) & 0xF) ^ (c >> 4);
            let x = (c1 ^ ((b as u32) >> 4)) & 0xF;
            x < 16 && crc_nibble(x) ^ (c1 >> 4) == crc_nibble(crc_nibble(c ^ (b as u32)))
        }),
{
}

/// CRC-32 of `data`: initial value and final complement of all ones.
pub fn crc32(data: &[u8]) -> (crc: u32)
    ensures
        crc == crc32_of(data@),
{
    crc32_update(0xFFFF_FFFF, data) ^ 0xFFFF_FFFF
}

/// Carries a CRC on from a raw register value.
pub fn crc32_update(state: u32, data: &[u8]) -> (crc: u32)
    ensures
        crc == crc_register(state, data@),
{
    crc32_sw(state, data)
}

/// The register after `data`, by a table of nibbles.
pub fn crc32_sw(state: u32, data: &[u8]) -> (crc: u32)
    ensures
        crc == crc_register(state, data@),
{
    let table = nibble_table();
    let mut crc: u32 = state;
    let mut i: usize = 0;
    assert(data@.take(0) =~= Seq::<u8>::empty());
    while i < data.len()
        invariant
            i <= data@.len(),
            forall|k: int| 0 <= k < 16 ==> #[trigger] table[k] == crc_nibble(k as u32),
            crc == crc_register(state, data@.take(i as int)),
        decreases data@.len() - i,
    {
        let d: u8 = data[i];
        let b: u32 = d as u32;
        proof {
            nibble_step_bits(crc, d);
            reveal(crc_byte);
            assert(data@.take(i + 1).drop_last() =~= data@.take(i as int));
        }
        let lo: usize = ((crc ^ b) & 0xF) as usize;
        let half = table[lo] ^ (crc >> 4);
        let hi: usize = ((half ^ (b >> 4)) & 0xF) as usize;
        crc = table[hi] ^ (half >> 4);
        i = i + 1;
    }
    assert(data@.take(data@.len() as int) =~= data@);
    crc
}

proof fn byte_table_bits(c: u32, b: u8)
    by (bit_vector)
    ensures
        (c ^ (b as u32)) & 0xFF < 256,
        crc_nibble(crc_nibble((c ^ (b as u32)) & 0xFF)) ^ (c >> 8) == crc_nibble(
            crc_nibble(c ^ (b as u32)),
        ),
{
}

/// The CRC of each byte.
pub fn build_crc_table() -> (t: [u32; 256])
    ensures
        forall|i: int|
            0 <= i < 256 ==> #[trigger] t[i] == crc_nibble(crc_nibble(i as u32)),
{
    let mut t: [u32; 256] = [0u32;256];
    let mut i: usize = 0;
    while i < 256
        invariant
            i <= 256,
            forall|k: int|
                0 <= k < i ==> #[trigger] t[k] == crc_nibble(crc_nibble(k as u32)),
        decreases 256 - i,
    {
        let mut c: u32 = i as u32;
        let mut k: usize = 0;
        while k < 8
            invariant
                k <= 8,
                i < 256,
                bits_after(i as u32, k as nat) == c,
            decreases 8 - k,
        {
            c = if c & 1 != 0 {
                0xEDB8_8320 ^ (c >> 1)
            } else {
                c >> 1
            };
            k = k + 1;
        }
        proof {
            reveal_with_fuel(bits_after, 9);
        }
        t[i] = c;
        i = i + 1;
    }
    t
}

/// The register `c` after `k` bit steps.
pub open spec fn bits_after(c: u32, k: nat) -> u32
    decreases k,
{
    if k == 0 {
        c
    } else {
        crc_bit(bits_after(c, (k - 1) as nat))
    }
}

/// CRC-32 of `data`, by a table of bytes.
pub fn crc32_bytewise(table: &[u32; 256], data: &[u8]) -> (crc: u32)
    requires
        forall|i: int|
            0 <= i < 256 ==> #[trigger] table[i] == crc_nibble(crc_nibble(i as u32)),
    ensures
        crc == crc32_of(data@),
{
    let mut c: u32 = 0xFFFF_FFFF;
    let mut i: usize = 0;
    assert(data@.take(0) =~= Seq::<u8>::empty());
    while i < data.len()
        invariant
            i <= data@.len(),
            forall|i: int|
                0 <= i < 256 ==> #[trigger] table[i] == crc_nibble(crc_nibble(i as u32)),
            c == crc_register(0xFFFF_FFFF, data@.take(i as int)),
        decreases data@.len() - i,
    {
        let d: u8 = data[i];
        proof {
            byte_table_bits(c, d);
            reveal(crc_byte);
            assert(data@.take(i + 1).drop_last() =~= data@.take(i as int));
        }
        let at: usize = ((c ^ (d as u32)) & 0xFF) as usize;
        c = table[at] ^ (c >> 8);
        i = i + 1;
    }
    assert(data@.take(data@.len() as int) =~= data@);
    c ^ 0xFFFF_FFFF
}

/// The modulus of Adler-32.
pub const ADLER_MOD: u32 = 65521;

/// The two sums of Adler-32 after `data`, from sums `a` and `b`.
pub open spec fn adler_sums(a: int, b: int, data: Seq<u8>) -> (int, int)
    decreases data.len(),
{
    if data.len() == 0 {
        (a, b)
    } else {
        let (x, y) = adler_sums(a, b, data.drop_last());
        ((x + data.last()) % 65521, (y + (x + data.last()) % 65521) % 65521)
    }
}

/// The Adler-32 checksum of `data`.
pub open spec fn adler32_of(data: Seq<u8>) -> u32 {
    let (a, b) = adler_sums(1, 0, data);
    (0x1_0000 * b + a) as u32
}

/// A running Adler-32 checksum.
pub struct Adler32 {
    pub a: u32,
    pub b: u32,
}

proof fn adler_combine_bits(a: u32, b: u32)
    by (bit_vector)
    requires
        a < 65521,
        b < 65521,
    ensures
        (b << 16) | a == 0x1_0000 * b + a,
{
}

/// The sums can be carried on over a second part of the message.
pub proof fn adler_of_concatenation(a: int, b: int, x: Seq<u8>, y: Seq<u8>)
    ensures
        adler_sums(a, b, x + y) == adler_sums(adler_sums(a, b, x).0, adler_sums(a, b, x).1, y),
    decreases y.len(),
{
    if y.len() == 0 {
        assert(x + y =~= x);
    } else {
        adler_of_concatenation(a, b, x, y.drop_last());
        assert((x + y).drop_last() =~= x + y.drop_last());
    }
}

/// The sum of the bytes of `data`.
pub open spec fn byte_sum(data: Seq<u8>) -> int
    decreases data.len(),
{
    if data.len() == 0 {
        0
    } else {
        data[0] + byte_sum(data.skip(1))
    }
}

/// The sum of the bytes of `data`, each as often as there are bytes from it to the end.
pub open spec fn weighted_sum(data: Seq<u8>) -> int
    decreases data.len(),
{
    if data.len() == 0 {
        0
    } else {
        data.len() * data[0] + weighted_sum(data.skip(1))
    }
}

proof fn sums_of_one_more(data: Seq<u8>)
    requires
        data.len() > 0,
    ensures
        byte_sum(data) == byte_sum(data.drop_last()) + data.last(),
        weighted_sum(data) == weighted_sum(data.drop_last()) + byte_sum(data),
    decreases data.len(),
{
    let rest = data.skip(1);
    if data.len() > 1 {
        sums_of_one_more(rest);
        assert(rest.drop_last() =~= data.drop_last().skip(1));
        assert(data.len() * data[0] == (data.len() - 1) * data[0] + data[0]) by (nonlinear_arith);
    } else {
        assert(rest =~= Seq::empty());
        assert(data.drop_last() =~= Seq::empty());
    }
}

/// Adler-32 is two remainders by 65521: that of one more than the sum of the bytes below, and above it
/// that of the number of bytes and the sum in which each byte counts once for each byte from it on.
pub proof fn adler_is_two_sums(data: Seq<u8>)
    ensures
        adler32_of(data) as int % 0x1_0000 == (1 + byte_sum(data)) % 65521,
        adler32_of(data) as int / 0x1_0000 == (data.len() + weighted_sum(data)) % 65521,
{
    adler_sums_are(data);
}

proof fn adler_sums_are(data: Seq<u8>)
    ensures
        adler_sums(1, 0, data) == (
            (1 + byte_sum(data)) % 65521,
            (data.len() + weighted_sum(data)) % 65521,
        ),
    decreases data.len(),
{
    if data.len() > 0 {
        let before = data.drop_last();
        adler_sums_are(before);
        sums_of_one_more(data);
        let x = 1 + byte_sum(before);
        let y = before.len() + weighted_sum(before);
        assert((x % 65521 + data.last()) % 65521 == (x + data.last()) % 65521);
        let z = x + data.last();
        assert((y % 65521 + z % 65521) % 65521 == (y + z) % 65521);
    }
}

impl Adler32 {
    /// Both sums are reduced.
    pub open spec fn wf(self) -> bool {
        self.a < 65521 && self.b < 65521
    }

    /// The checksum of nothing.
    pub fn new() -> (s: Self)
        ensures
            s.wf(),
            s.a == 1,
            s.b == 0,
    {
        Adler32 { a: 1, b: 0 }
    }

    /// Takes in more of the message.
    pub fn update(&mut self, data: &[u8])
        requires
            old(self).wf(),
        ensures
            final(self).wf(),
            (final(self).a as int, final(self).b as int) == adler_sums(
                old(self).a as int,
                old(self).b as int,
                data@,
            ),
    {
        let mut i: usize = 0;
        assert(data@.take(0) =~= Seq::<u8>::empty());
        while i < data.len()
            invariant
                i <= data@.len(),
                self.wf(),
                (self.a as int, self.b as int) == adler_sums(
                    old(self).a as int,
                    old(self).b as int,
                    data@.take(i as int),
                ),
            decreases data@.len() - i,
        {
            proof {
                assert(data@.take(i + 1).drop_last() =~= data@.take(i as int));
            }
            self.a = (self.a + data[i] as u32) % 65521;
            self.b = (self.b + self.a) % 65521;
            i = i + 1;
        }
        assert(data@.take(data@.len() as int) =~= data@);
    }

    /// The checksum of what was taken in.
    pub fn finish(&self) -> (sum: u32)
        requires
            self.wf(),
        ensures
            sum == 0x1_0000 * self.b + self.a,
    {
        proof {
            adler_combine_bits(self.a, self.b);
        }
        (self.b << 16) | self.a
    }
}

/// Adler-32 of `data`.
pub fn adler32(data: &[u8]) -> (sum: u32)
    ensures
        sum == adler32_of(data@),
{
    let mut s = Adler32::new();
    s.update(data);
    s.finish()
}

} // verus!
