//! AArch32 instruction encoders for branches and PC-relative literal loads.
//!
//! ARM A1 branch encoding (`B{cond} label`): `cond[31:28] 1010 imm24[23:0]`, with
//! the target at `(PC + 8) + (SignExtend(imm24) << 2)`.

use vstd::prelude::*;

verus! {

pub const COND_EQ: u32 = 0x0;

pub const COND_NE: u32 = 0x1;

pub const COND_AL: u32 = 0xE;

/// The signed byte distance from the PC that an instruction at `src_pc` sees
/// (two instructions ahead) to `target`.
pub open spec fn pc_distance(src_pc: u32, target: u32) -> i32 {
    target.wrapping_sub(src_pc.wrapping_add(8)) as i32
}

/// The encoding of `B{cond} target` at `src_pc`.
pub open spec fn branch_word(src_pc: u32, target: u32, cond: u32) -> u32 {
    ((cond & 0xF) << 28) | 0x0A00_0000 | (((pc_distance(src_pc, target) >> 2) as u32)
        & 0x00FF_FFFF)
}

/// The address a branch word at `src_pc` jumps to: the 24-bit word offset,
/// sign-extended, from two instructions ahead.
pub open spec fn branch_target(insn: u32, src_pc: u32) -> u32 {
    (src_pc + 8 + 4 * (if insn & 0x0080_0000 != 0 {
        (insn & 0x00FF_FFFF) as int - 0x0100_0000
    } else {
        (insn & 0x00FF_FFFF) as int
    })) as u32
}

/// The encoding of `LDR Rd, [pc, #imm12]` at `src_pc` for the literal at `literal_pc`.
pub open spec fn ldr_lit_word(src_pc: u32, rd: u32, literal_pc: u32) -> u32 {
    let off = pc_distance(src_pc, literal_pc);
    let up = if off >= 0 {
        1u32 << 23
    } else {
        0u32
    };
    let imm12 = if off >= 0 {
        off as u32 & 0xFFF
    } else {
        (-off) as u32 & 0xFFF
    };
    (COND_AL << 28) | 0x0510_0000 | up | (0xFu32 << 16) | ((rd & 0xF) << 12) | imm12
}

proof fn wrapping_distance_bits(src_pc: u32, target: u32)
    by (bit_vector)
    ensures
        ({
            let p = (src_pc + 8) as u32;
            (if src_pc + 8 > 0xFFFF_FFFF {
                (src_pc + 8 - 0x1_0000_0000) as u32
            } else {
                (src_pc + 8) as u32
            }) == p
        }),
        ({
            let p = (src_pc + 8) as u32;
            (if target - p < 0 {
                (target - p + 0x1_0000_0000) as u32
            } else {
                (target - p) as u32
            }) == (target - src_pc - 8) as u32
        }),
{
}

/// The PC distance is the difference of the two addresses less eight, modulo 2^32.
proof fn distance_is_difference(src_pc: u32, target: u32)
    ensures
        pc_distance(src_pc, target) == ((target - src_pc - 8) as u32) as i32,
{
    wrapping_distance_bits(src_pc, target);
}

proof fn branch_fields_bits(src_pc: u32, target: u32, cond: u32)
    by (bit_vector)
    ensures
        ({
            let d = ((target - src_pc - 8) as u32) as i32;
            let w = ((cond & 0xF) << 28) | 0x0A00_0000 | (((d >> 2) as u32) & 0x00FF_FFFF);
            &&& w >> 28 == cond & 0xF
            &&& w & 0x0F00_0000 == 0x0A00_0000
            &&& d % 4 == 0 && -0x0200_0000 <= d && d < 0x0200_0000 ==> (src_pc + 8 + 4 * (if w
                & 0x0080_0000 != 0 {
                (w & 0x00FF_FFFF) - 0x0100_0000
            } else {
                (w & 0x00FF_FFFF) - 0
            })) as u32 == target
            &&& w / 0x1000_0000 == cond % 16
            &&& w / 0x100_0000 % 16 == 10
            &&& d >= 0 ==> w % 0x100_0000 == (d as u32) / 4 % 0x100_0000
            &&& d < 0 && d % 4 == 0 && d >= -0x0200_0000 ==> (w % 0x100_0000) * 4 - 0x0400_0000 == d
            &&& 0 <= target - src_pc - 8 ==> target - src_pc - 8 < 0x8000_0000 ==> d == target - src_pc - 8
            &&& target - src_pc - 8 < 0 ==> target - src_pc - 8 >= -0x8000_0000 ==> d == target - src_pc
                - 8
        }),
{
}

/// What a branch word holds: its condition in the top four bits, ten in the next four, and below them the
/// number of words, up or down, from two instructions ahead to where it goes.
pub proof fn branches_hold_their_distance(src_pc: u32, target: u32, cond: u32)
    requires
        (target - src_pc - 8) % 4 == 0,
        -0x0200_0000 <= target - src_pc - 8 < 0x0200_0000,
    ensures
        ({
            let w = branch_word(src_pc, target, cond) as int;
            &&& w / 0x1000_0000 == cond % 16
            &&& w / 0x100_0000 % 16 == 10
            &&& target >= src_pc + 8 ==> src_pc + 8 + 4 * (w % 0x100_0000) == target
            &&& target < src_pc + 8 ==> src_pc + 8 - 4 * (0x100_0000 - w % 0x100_0000) == target
        }),
{
    distance_is_difference(src_pc, target);
    branch_fields_bits(src_pc, target, cond);
}

proof fn load_fields_bits(off: i32, rd: u32)
    by (bit_vector)
    requires
        -0x1000 < off,
        off < 0x1000,
    ensures
        ({
            let up = if off >= 0 {
                1u32 << 23
            } else {
                0u32
            };
            let far = if off >= 0 {
                off as u32 & 0xFFF
            } else {
                ((0 - off) as i32) as u32 & 0xFFF
            };
            let w = (0xEu32 << 28) | 0x0510_0000 | up | (0xFu32 << 16) | ((rd & 0xF) << 12) | far;
            &&& off >= 0 ==> w / 0x1_0000 == 0xE59F && w % 0x1000 == off
            &&& off < 0 ==> w / 0x1_0000 == 0xE51F && w % 0x1000 == 0 - off
            &&& w / 0x1000 % 16 == rd % 16
        }),
{
}

/// What a literal load holds: the load from the PC, upwards or downwards, its register, and how many bytes
/// the literal is from two instructions ahead.
pub proof fn loads_reach_their_literal(src_pc: u32, rd: u32, literal_pc: u32)
    requires
        -0x1000 < literal_pc - src_pc - 8 < 0x1000,
    ensures
        ({
            let w = ldr_lit_word(src_pc, rd, literal_pc) as int;
            &&& w / 0x1000 % 16 == rd % 16
            &&& literal_pc >= src_pc + 8 ==> w / 0x1_0000 == 0xE59F && src_pc + 8 + w % 0x1000
                == literal_pc
            &&& literal_pc < src_pc + 8 ==> w / 0x1_0000 == 0xE51F && src_pc + 8 - w % 0x1000
                == literal_pc
        }),
{
    distance_is_difference(src_pc, literal_pc);
    branch_fields_bits(src_pc, literal_pc, 0);
    load_fields_bits(pc_distance(src_pc, literal_pc), rd);
}

/// A branch within its reach (a multiple of four, within 32 MiB either way) goes
/// where it was asked to go, and carries the condition it was given.
pub proof fn branch_reaches_target(src_pc: u32, target: u32, cond: u32)
    requires
        pc_distance(src_pc, target) % 4 == 0,
        -0x0200_0000 <= pc_distance(src_pc, target) < 0x0200_0000,
    ensures
        branch_target(branch_word(src_pc, target, cond), src_pc) == target,
        branch_word(src_pc, target, cond) >> 28 == cond & 0xF,
        branch_word(src_pc, target, cond) & 0x0F00_0000 == 0x0A00_0000,
{
    distance_is_difference(src_pc, target);
    branch_fields_bits(src_pc, target, cond);
}

/// Encodes `B{cond} target` situated at `src_pc`. Both addresses are guest byte
/// addresses, not word indices.
pub fn b_cond(src_pc: u32, target: u32, cond: u32) -> (insn: u32)
    ensures
        insn == branch_word(src_pc, target, cond),
{
    let off_bytes: i32 = target.wrapping_sub(src_pc.wrapping_add(8)) as i32;
    let off_words: u32 = (off_bytes >> 2) as u32;
    ((cond & 0xF) << 28) | 0x0A00_0000 | (off_words & 0x00FF_FFFF)
}

/// Encodes an unconditional `B target` situated at `src_pc`.
pub fn b(src_pc: u32, target: u32) -> (insn: u32)
    ensures
        insn == branch_word(src_pc, target, COND_AL),
{
    b_cond(src_pc, target, COND_AL)
}

/// Encodes `LDR Rd, [pc, #imm12]` situated at `src_pc`, loading the word at byte
/// address `literal_pc`; the distance is taken from `src_pc + 8`, and its sign sets
/// the U bit.
pub fn ldr_rd_lit(src_pc: u32, rd: u32, literal_pc: u32) -> (insn: u32)
    requires
        pc_distance(src_pc, literal_pc) != i32::MIN,
    ensures
        insn == ldr_lit_word(src_pc, rd, literal_pc),
{
    let off: i32 = literal_pc.wrapping_sub(src_pc.wrapping_add(8)) as i32;
    let up: u32 = if off >= 0 {
        1u32 << 23
    } else {
        0
    };
    let imm12: u32 = if off >= 0 {
        off as u32 & 0xFFF
    } else {
        (-off) as u32 & 0xFFF
    };
    (COND_AL << 28) | 0x0510_0000 | up | (0xFu32 << 16) | ((rd & 0xF) << 12) | imm12
}

} // verus!
