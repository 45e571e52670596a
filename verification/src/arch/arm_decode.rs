//! AArch32 decode helpers: the condition truth table, the immediate-shift evaluator
//! and the mode names.

use vstd::prelude::*;

verus! {

/// Bit `k` of `w`.
pub open spec fn bit(w: u32, k: u32) -> bool {
    (w >> k) & 1 != 0
}

/// Whether condition `cond` (low four bits) holds for the N, Z, C and V flags of `cpsr`.
pub open spec fn cond_holds(cond: u32, cpsr: u32) -> bool {
    let n = bit(cpsr, 31);
    let z = bit(cpsr, 30);
    let c = bit(cpsr, 29);
    let v = bit(cpsr, 28);
    let k = cond & 0xF;
    if k == 0x0 {
        z
    } else if k == 0x1 {
        !z
    } else if k == 0x2 {
        c
    } else if k == 0x3 {
        !c
    } else if k == 0x4 {
        n
    } else if k == 0x5 {
        !n
    } else if k == 0x6 {
        v
    } else if k == 0x7 {
        !v
    } else if k == 0x8 {
        c && !z
    } else if k == 0x9 {
        !c || z
    } else if k == 0xA {
        n == v
    } else if k == 0xB {
        n != v
    } else if k == 0xC {
        !z && n == v
    } else if k == 0xD {
        z || n != v
    } else {
        true
    }
}

proof fn cond_pair_bits(cond: u32)
    by (bit_vector)
    ensures
        cond & 0xF < 16,
        cond < 16 ==> cond & 0xF == cond,
        cond & 1 == 0 ==> ((cond | 1) & 0xF) == (cond & 0xF) + 1,
        cond & 1 == 0 ==> (cond & 0xF) % 2 == 0,
{
}

/// Below AL, an odd condition code is the negation of the even one before it.
pub proof fn odd_condition_negates_even(cond: u32, cpsr: u32)
    requires
        cond & 1 == 0,
        cond & 0xF < 0xE,
    ensures
        cond_holds(cond | 1, cpsr) == !cond_holds(cond, cpsr),
{
    cond_pair_bits(cond);
}

/// After a comparison of `a` with `b`, whose flags `cpsr` holds, each condition means what its name
/// says: equal, unsigned and signed order, the sign and the overflow of the difference, always.
pub proof fn conditions_compare(a: u32, b: u32, cpsr: u32)
    requires
        bit(cpsr, 31) == ((a - b) % 0x1_0000_0000 >= 0x8000_0000),
        bit(cpsr, 30) == (a == b),
        bit(cpsr, 29) == (a >= b),
        bit(cpsr, 28) == !(-0x8000_0000 <= signed_value(a) - signed_value(b) < 0x8000_0000),
    ensures
        cond_holds(0x0, cpsr) == (a == b),
        cond_holds(0x1, cpsr) == (a != b),
        cond_holds(0x2, cpsr) == (a >= b),
        cond_holds(0x3, cpsr) == (a < b),
        cond_holds(0x4, cpsr) == ((a - b) % 0x1_0000_0000 >= 0x8000_0000),
        cond_holds(0x5, cpsr) == ((a - b) % 0x1_0000_0000 < 0x8000_0000),
        cond_holds(0x6, cpsr) == !(-0x8000_0000 <= signed_value(a) - signed_value(b) < 0x8000_0000),
        cond_holds(0x7, cpsr) == (-0x8000_0000 <= signed_value(a) - signed_value(b) < 0x8000_0000),
        cond_holds(0x8, cpsr) == (a > b),
        cond_holds(0x9, cpsr) == (a <= b),
        cond_holds(0xA, cpsr) == (signed_value(a) >= signed_value(b)),
        cond_holds(0xB, cpsr) == (signed_value(a) < signed_value(b)),
        cond_holds(0xC, cpsr) == (signed_value(a) > signed_value(b)),
        cond_holds(0xD, cpsr) == (signed_value(a) <= signed_value(b)),
        cond_holds(0xE, cpsr),
        cond_holds(0xF, cpsr),
{
    cond_pair_bits(0x0);
    cond_pair_bits(0x1);
    cond_pair_bits(0x2);
    cond_pair_bits(0x3);
    cond_pair_bits(0x4);
    cond_pair_bits(0x5);
    cond_pair_bits(0x6);
    cond_pair_bits(0x7);
    cond_pair_bits(0x8);
    cond_pair_bits(0x9);
    cond_pair_bits(0xA);
    cond_pair_bits(0xB);
    cond_pair_bits(0xC);
    cond_pair_bits(0xD);
    cond_pair_bits(0xE);
    cond_pair_bits(0xF);
}

/// A word as a two's-complement number.
pub open spec fn signed_value(w: u32) -> int {
    if w < 0x8000_0000 {
        w as int
    } else {
        w - 0x1_0000_0000
    }
}

/// The value of an immediate shift of `val`: `amount == 0` stands for 32 with LSR
/// and ASR, and for a one-bit rotate through carry with ROR.
pub open spec fn shifted(val: u32, shift_type: u32, amount: u32, cpsr: u32) -> u32 {
    let k = shift_type & 3;
    if k == 0 {
        if amount >= 32 {
            0
        } else {
            val << amount
        }
    } else if k == 1 {
        if amount == 0 || amount >= 32 {
            0
        } else {
            val >> amount
        }
    } else if k == 2 {
        if amount == 0 || amount >= 32 {
            if (val as i32) < 0 {
                u32::MAX
            } else {
                0
            }
        } else {
            ((val as i32) >> amount) as u32
        }
    } else {
        if amount == 0 {
            (val >> 1) | (((cpsr >> 29) & 1) << 31)
        } else {
            rotated_right(val, amount & 31)
        }
    }
}

/// `val` rotated right by `n` places, `n` below 32.
pub open spec fn rotated_right(val: u32, n: u32) -> u32 {
    if n == 0 {
        val
    } else {
        (val >> n) | (val << ((32 - n) as u32))
    }
}

proof fn low_five_bits(x: u32)
    by (bit_vector)
    ensures
        x & 31 < 32,
        x & 3 < 4,
        x & 0x1F < 32,
        x & 0x1F == x % 32,
{
}

/// Evaluates an ARM condition code against the NZCV flags in `cpsr`. AL and the
/// unconditional encoding both pass.
pub fn arm_cond_passed(cond: u32, cpsr: u32) -> (pass: bool)
    ensures
        pass == cond_holds(cond, cpsr),
{
    let n = (cpsr >> 31) & 1 != 0;
    let z = (cpsr >> 30) & 1 != 0;
    let c = (cpsr >> 29) & 1 != 0;
    let v = (cpsr >> 28) & 1 != 0;
    let k = cond & 0xF;
    match k {
        0x0 => z,
        0x1 => !z,
        0x2 => c,
        0x3 => !c,
        0x4 => n,
        0x5 => !n,
        0x6 => v,
        0x7 => !v,
        0x8 => c && !z,
        0x9 => !c || z,
        0xA => n == v,
        0xB => n != v,
        0xC => !z && (n == v),
        0xD => z || (n != v),
        _ => true,
    }
}

/// Applies an ARM immediate shift to `val`; `shift_type` is the two-bit type field
/// (LSL, LSR, ASR, ROR), and RRX reads the carry from `cpsr`.
pub fn arm_shift(val: u32, shift_type: u32, amount: u32, cpsr: u32) -> (r: u32)
    ensures
        r == shifted(val, shift_type, amount, cpsr),
{
    proof {
        low_five_bits(amount);
        low_five_bits(shift_type);
    }
    let k = shift_type & 3;
    if k == 0 {
        if amount >= 32 {
            0
        } else {
            val << amount
        }
    } else if k == 1 {
        let n: u32 = if amount == 0 {
            32
        } else {
            amount
        };
        if n >= 32 {
            0
        } else {
            val >> n
        }
    } else if k == 2 {
        let n: u32 = if amount == 0 {
            32
        } else {
            amount
        };
        if n >= 32 {
            if (val as i32) < 0 {
                u32::MAX
            } else {
                0
            }
        } else {
            ((val as i32) >> n) as u32
        }
    } else {
        if amount == 0 {
            let c = (cpsr >> 29) & 1;
            (val >> 1) | (c << 31)
        } else {
            let n: u32 = amount & 31;
            if n == 0 {
                val
            } else {
                (val >> n) | (val << (32 - n))
            }
        }
    }
}

proof fn shift_bits(val: u32, n: u32, k: u32, cpsr: u32)
    by (bit_vector)
    requires
        k < 32,
        n < 32,
    ensures
        n & 31 == n,
        0u32 & 3 == 0 && 1u32 & 3 == 1 && 2u32 & 3 == 2 && 3u32 & 3 == 3,
        k >= n ==> (((val << n) >> k) & 1) == (val >> ((k - n) as u32)) & 1,
        k < n ==> (((val << n) >> k) & 1) == 0,
        k + n < 32 ==> (((val >> n) >> k) & 1) == (val >> ((k + n) as u32)) & 1,
        k + n >= 32 ==> (((val >> n) >> k) & 1) == 0,
        k + n < 32 ==> (((((val as i32) >> n) as u32) >> k) & 1) == (val >> ((k + n) as u32)) & 1,
        k + n >= 32 ==> (((((val as i32) >> n) as u32) >> k) & 1) == val >> 31,
        n > 0 ==> ((((val >> n) | (val << ((32 - n) as u32))) >> k) & 1) == (val >> ((if k + n >= 32 {
            k + n - 32
        } else {
            k + n
        }) as u32)) & 1,
        k < 31 ==> ((((val >> 1) | (((cpsr >> 29) & 1) << 31)) >> k) & 1) == (val >> ((k + 1) as u32))
            & 1,
        k == 31 ==> ((((val >> 1) | (((cpsr >> 29) & 1) << 31)) >> k) & 1) == (cpsr >> 29) & 1,
        (0u32 >> k) & 1 == 0,
        (0xFFFF_FFFFu32 >> k) & 1 == 1,
        (val as i32) < 0 <==> val >> 31 == 1,
        val >> 31 == 0 || val >> 31 == 1,
{
}

/// What a shift does to each bit. A left shift moves bits up and a logical right shift moves them
/// down, with zeros behind; an arithmetic right shift repeats the sign; a rotation brings back at the
/// top what leaves at the bottom. An amount of zero leaves a left shift out, stands for 32 in a right
/// shift, and makes a rotation go through the carry by one.
pub proof fn shifts_move_bits(val: u32, amount: u32, cpsr: u32, k: u32)
    requires
        k < 32,
    ensures
        bit(shifted(val, 0, amount, cpsr), k) == (k >= amount && bit(val, (k - amount) as u32)),
        bit(shifted(val, 1, amount, cpsr), k) == (amount != 0 && k + amount < 32 && bit(
            val,
            (k + amount) as u32,
        )),
        bit(shifted(val, 2, amount, cpsr), k) == (if amount != 0 && k + amount < 32 {
            bit(val, (k + amount) as u32)
        } else {
            val >> 31 == 1
        }),
        0 < amount < 32 ==> bit(shifted(val, 3, amount, cpsr), k) == bit(
            val,
            ((k + amount) % 32) as u32,
        ),
        amount == 0 && k < 31 ==> bit(shifted(val, 3, amount, cpsr), k) == bit(val, (k + 1) as u32),
        amount == 0 && k == 31 ==> bit(shifted(val, 3, amount, cpsr), k) == bit(cpsr, 29),
{
    let n = if amount < 32 {
        amount
    } else {
        0
    };
    shift_bits(val, n, k, cpsr);
    shift_bits(val, 0, 0, cpsr);
}

/// The name of AArch32 mode `mode` (low five bits).
pub open spec fn mode_name(mode: u32) -> Seq<char> {
    let m = mode & 0x1F;
    if m == 0x10 {
        "usr"@
    } else if m == 0x11 {
        "fiq"@
    } else if m == 0x12 {
        "irq"@
    } else if m == 0x13 {
        "svc"@
    } else if m == 0x16 {
        "mon"@
    } else if m == 0x17 {
        "abt"@
    } else if m == 0x1A {
        "hyp"@
    } else if m == 0x1B {
        "und"@
    } else if m == 0x1F {
        "sys"@
    } else {
        "???"@
    }
}

/// A status register's mode is in its low five bits, and none below 16 has a name.
pub proof fn names_are_of_low_bits(mode: u32)
    ensures
        mode & 0x1F == mode % 32,
        mode_name(mode) == mode_name(mode % 32),
        (mode % 32 < 16) ==> mode_name(mode) == "???"@,
{
    low_five_bits(mode);
    low_five_bits(mode % 32);
}

/// Lower-case AArch32 mode name for a mode field or a whole CPSR.
pub fn aarch32_mode_name(mode: u32) -> (name: &'static str)
    ensures
        name@ == mode_name(mode),
{
    match mode & 0x1F {
        0x10 => "usr",
        0x11 => "fiq",
        0x12 => "irq",
        0x13 => "svc",
        0x16 => "mon",
        0x17 => "abt",
        0x1A => "hyp",
        0x1B => "und",
        0x1F => "sys",
        _ => "???",
    }
}

} // verus!
