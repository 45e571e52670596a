//! A trace of the guest's function calls. The first instruction of each function becomes a
//! branch to a slot of its own, which calls the hypervisor, runs the displaced instruction
//! and goes on behind it.

use crate::arch::aarch32_emit;
use crate::arch::aarch32_emit::b;
use crate::arch::banked;
use crate::arch::banked::lr_for_mode;
use crate::arch::trap_context::TrapContext;
use crate::guest_endian;
use crate::guest_endian::guest_read_u32_pa;
use crate::guest_mem::{GuestMem, MemView, ROM_SIZE};
use crate::guest_trampolines;
use crate::guest_trampolines::{write_rom_code_word, write_rom_words};
use crate::words;
use crate::words::{get_le32, swap_bytes32};
use vstd::prelude::*;

verus! {

/// The slots lie in the ROM, behind what it holds and before the other stubs.
pub const TRAMPOLINE_IPA: u32 = 0x0090_0000;

pub const TRAMPOLINE_END: u32 = 0x00E0_0000;

/// Bytes of a slot, five words.
pub const SLOT_SIZE: u32 = 20;

/// Slots that there is room for.
pub const POOL_CAPACITY: usize = 262_144;

/// The stubs behind the slots.
pub const STUB_POOL_IPA: u32 = 0x00E0_0000;

pub const STUB_POOL_END: u32 = 0x00FF_FF00;

/// `LDR PC, [pc, #0]`.
pub const LDR_PC_NEXT: u32 = 0xE59F_F000;

/// The guest's function that prints one character.
pub const PUTC_PC: u32 = 0x0034_F7E0;

/// Characters of a line of the guest's output.
pub const PUTC_CAP: usize = 512;

/// Whether `addr` must keep its instruction: the vectors, the stubs and the return stub in
/// the ROM's tail, and the `canaries`, which are the hypervisor's own patches.
pub open spec fn reserved(addr: u32, canaries: Seq<u32>) -> bool {
    ||| addr < 0x20
    ||| STUB_POOL_IPA <= addr < STUB_POOL_END
    ||| 0x00FF_FF00 <= addr < 0x00FF_FFF0
    ||| 0x00FF_FEC0 <= addr < 0x00FF_FEE0
    ||| canaries.contains(addr)
}

/// The words that are never patched: the eight vectors, the stubs behind the slots and up to the
/// return stub's end, the floating-point stub's start, and the hypervisor's own patches.
pub proof fn reserved_addresses(addr: u32, canaries: Seq<u32>)
    ensures
        reserved(addr, canaries) <==> addr < 0x20 || 0x00E0_0000 <= addr < 0x00FF_FFF0 || exists|i: int|
            0 <= i < canaries.len() && #[trigger] canaries[i] == addr,
{
}

/// Whether `addr` must keep its instruction.
pub fn in_reserved_range(addr: u32, canaries: &[u32]) -> (yes: bool)
    ensures
        yes == reserved(addr, canaries@),
{
    if addr < 0x20 {
        return true;
    }
    if addr >= STUB_POOL_IPA && addr < STUB_POOL_END {
        return true;
    }
    if addr >= 0x00FF_FF00 && addr < 0x00FF_FFF0 {
        return true;
    }
    if addr >= 0x00FF_FEC0 && addr < 0x00FF_FEE0 {
        return true;
    }
    let mut i: usize = 0;
    while i < canaries.len()
        invariant
            i <= canaries@.len(),
            forall|k: int| 0 <= k < i ==> canaries@[k] != addr,
        decreases canaries.len() - i,
    {
        if canaries[i] == addr {
            assert(canaries@.contains(addr));
            return true;
        }
        i = i + 1;
    }
    false
}

/// Whether `pc` is in a slot.
pub fn in_trampoline_pool(pc: u32) -> (yes: bool)
    ensures
        yes == (TRAMPOLINE_IPA <= pc < TRAMPOLINE_END),
{
    pc >= TRAMPOLINE_IPA && pc < TRAMPOLINE_END
}

/// The distance of a branch, without wrapping.
pub open spec fn reach(from_pc: u32, target: u32) -> int {
    target - from_pc.wrapping_add(8)
}

/// The branch from `from_pc` to `target`, if it is within a branch's reach.
pub open spec fn branch(from_pc: u32, target: u32) -> Option<u32> {
    let d = reach(from_pc, target);
    if d % 4 == 0 && -0x0200_0000 <= d < 0x0200_0000 {
        Some(aarch32_emit::branch_word(from_pc, target, aarch32_emit::COND_AL))
    } else {
        None
    }
}

proof fn distance_bits(t: u32, p: u32)
    by (bit_vector)
    ensures
        -0x0200_0000 <= t - p < 0x0200_0000 ==> (((if t - p < 0 {
            t - p + 0x1_0000_0000
        } else {
            t - p
        }) as u32) as i32) == t - p,
{
}

/// A branch that is given out goes where it is meant to go.
pub proof fn branch_arrives(from_pc: u32, target: u32)
    requires
        branch(from_pc, target) is Some,
    ensures
        aarch32_emit::branch_target(branch(from_pc, target)->0, from_pc) == target,
{
    distance_bits(target, from_pc.wrapping_add(8));
    aarch32_emit::branch_reaches_target(from_pc, target, aarch32_emit::COND_AL);
}

/// Encodes the branch from `from_pc` to `target`, if it is within a branch's reach.
pub fn encode_b(from_pc: u32, target: u32) -> (insn: Option<u32>)
    ensures
        insn == branch(from_pc, target),
{
    let offset: i64 = target as i64 - from_pc.wrapping_add(8) as i64;
    if offset < -0x0200_0000 || offset >= 0x0200_0000 {
        return None;
    }
    let up: u32 = (offset + 0x0200_0000) as u32;
    if up % 4 != 0 {
        return None;
    }
    Some(b(from_pc, target))
}

/// A word rotated to the right.
pub open spec fn rotated(v: u32, by: u32) -> u32 {
    if by == 0 {
        v
    } else {
        (v >> by) | (v << ((32 - by) as u32))
    }
}

/// The target of the branch `orig` at `pc`, wrapping around.
pub open spec fn branched_to(orig: u32, pc: u32) -> u32 {
    let imm = orig & 0x00FF_FFFF;
    pc.wrapping_add(8).wrapping_add(
        if imm & 0x0080_0000 != 0 {
            (imm | 0xFF00_0000) << 2
        } else {
            imm << 2
        },
    )
}

/// Whether the four bits of `w` from bit `lo` on name the program counter.
pub open spec fn names_pc(w: u32, lo: u32) -> bool {
    (w >> lo) & 0xF == 0xF
}

/// Whether bit `k` of `w` is set.
pub open spec fn bit(w: u32, k: u32) -> bool {
    (w >> k) & 1 == 1
}

/// Whether a miscellaneous instruction reads the program counter: those that take registers do
/// where one of these names it.
pub open spec fn misc_reads_pc(w: u32) -> bool {
    let kind = (w >> 4) & 0xF;
    if kind == 0 {
        bit(w, 21) && names_pc(w, 0)
    } else if kind == 1 || kind == 2 || kind == 3 {
        names_pc(w, 0)
    } else if kind == 5 {
        names_pc(w, 16) || names_pc(w, 0)
    } else if kind == 8 || kind == 10 || kind == 12 || kind == 14 {
        names_pc(w, 16) || names_pc(w, 12) || names_pc(w, 8) || names_pc(w, 0)
    } else {
        false
    }
}

/// Whether a multiplication, a swap or a halfword transfer reads the program counter.
pub open spec fn extra_reads_pc(w: u32) -> bool {
    if (w >> 5) & 3 != 0 {
        names_pc(w, 16) || !bit(w, 22) && names_pc(w, 0) || !bit(w, 20) && names_pc(w, 12)
    } else if bit(w, 24) {
        names_pc(w, 16) || !bit(w, 23) && names_pc(w, 0)
    } else {
        names_pc(w, 16) || names_pc(w, 12) || names_pc(w, 8) || names_pc(w, 0)
    }
}

/// Whether what instruction `w` does depends on where it stands: it takes the program counter as
/// an operand or a base, stores it by itself, or branches relative to it. A push or another
/// store of many registers does not count, though the program counter be among them: it saves a
/// frame, and the address in it then lies in the slot. Nor does a branch through a register that
/// links: it comes back by way of the slot.
pub open spec fn reads_pc(w: u32) -> bool {
    let group = (w >> 25) & 7;
    let opcode = (w >> 21) & 0xF;
    let load = bit(w, 20);
    let misc = opcode >= 8 && opcode < 12 && !load;
    let one_operand = opcode == 13 || opcode == 15;
    if group == 5 {
        true
    } else if group == 7 {
        !bit(w, 24) && bit(w, 4) && !load && names_pc(w, 12)
    } else if w >> 28 == 0xF {
        group > 1 && names_pc(w, 16)
    } else if group == 0 {
        if bit(w, 7) && bit(w, 4) {
            extra_reads_pc(w)
        } else if misc {
            misc_reads_pc(w)
        } else {
            !one_operand && names_pc(w, 16) || names_pc(w, 0) || bit(w, 4) && names_pc(w, 8)
        }
    } else if group == 1 {
        !misc && !one_operand && names_pc(w, 16)
    } else if group == 2 {
        names_pc(w, 16) || !load && names_pc(w, 12)
    } else if group == 3 {
        !bit(w, 4) && (names_pc(w, 16) || names_pc(w, 0) || !load && names_pc(w, 12))
    } else if group == 4 {
        names_pc(w, 16)
    } else if opcode == 2 {
        !load && (names_pc(w, 16) || names_pc(w, 12))
    } else {
        names_pc(w, 16)
    }
}

fn has_pc(w: u32, lo: u32) -> (yes: bool)
    requires
        lo < 32,
    ensures
        yes == names_pc(w, lo),
{
    ((w >> lo) & 0xF) == 0xF
}

fn has_bit(w: u32, k: u32) -> (yes: bool)
    requires
        k < 32,
    ensures
        yes == bit(w, k),
{
    ((w >> k) & 1) == 1
}

fn misc_has_pc(w: u32) -> (yes: bool)
    ensures
        yes == misc_reads_pc(w),
{
    match (w >> 4) & 0xF {
        0 => has_bit(w, 21) && has_pc(w, 0),
        1 | 2 | 3 => has_pc(w, 0),
        5 => has_pc(w, 16) || has_pc(w, 0),
        8 | 10 | 12 | 14 => has_pc(w, 16) || has_pc(w, 12) || has_pc(w, 8) || has_pc(w, 0),
        _ => false,
    }
}

fn extra_has_pc(w: u32) -> (yes: bool)
    ensures
        yes == extra_reads_pc(w),
{
    if (w >> 5) & 3 != 0 {
        has_pc(w, 16) || !has_bit(w, 22) && has_pc(w, 0) || !has_bit(w, 20) && has_pc(w, 12)
    } else if has_bit(w, 24) {
        has_pc(w, 16) || !has_bit(w, 23) && has_pc(w, 0)
    } else {
        has_pc(w, 16) || has_pc(w, 12) || has_pc(w, 8) || has_pc(w, 0)
    }
}

proof fn group_bits(w: u32)
    by (bit_vector)
    ensures
        (w >> 25) & 7 <= 7,
{
}

/// Whether what instruction `w` does depends on where it stands.
pub fn depends_on_pc(w: u32) -> (yes: bool)
    ensures
        yes == reads_pc(w),
{
    let opcode: u32 = (w >> 21) & 0xF;
    let load: bool = has_bit(w, 20);
    let misc: bool = opcode >= 8 && opcode < 12 && !load;
    let one_operand: bool = opcode == 13 || opcode == 15;
    let group: u32 = (w >> 25) & 7;
    proof {
        group_bits(w);
    }
    if w >> 28 == 0xF && group != 5 && group != 7 {
        return group > 1 && has_pc(w, 16);
    }
    match group {
        0 => if has_bit(w, 7) && has_bit(w, 4) {
            extra_has_pc(w)
        } else if misc {
            misc_has_pc(w)
        } else {
            !one_operand && has_pc(w, 16) || has_pc(w, 0) || has_bit(w, 4) && has_pc(w, 8)
        },
        1 => !misc && !one_operand && has_pc(w, 16),
        2 => has_pc(w, 16) || !load && has_pc(w, 12),
        3 => !has_bit(w, 4) && (has_pc(w, 16) || has_pc(w, 0) || !load && has_pc(w, 12)),
        4 => has_pc(w, 16),
        5 => true,
        6 => if opcode == 2 {
            !load && (has_pc(w, 16) || has_pc(w, 12))
        } else {
            has_pc(w, 16)
        },
        _ => !has_bit(w, 24) && has_bit(w, 4) && !load && has_pc(w, 12),
    }
}

/// What takes the place of the displaced instruction `orig` of the function at `pc`, and the
/// literal that it loads. An instruction that does not depend on where it stands is kept. A
/// literal load, a branch and an address computation, each without a condition, become a load of
/// what they would have computed. Any other has no place: `None`.
pub open spec fn rewritten(m: MemView, orig: u32, pc: u32) -> Option<(u32, u32)> {
    let rd = (orig >> 12) & 0xF;
    let load = 0xE59F_0000u32 | (rd << 12);
    let here = pc.wrapping_add(8);
    if !reads_pc(orig) {
        Some((orig, 0))
    } else if orig & 0xFF00_0000 == 0xEA00_0000 {
        Some((LDR_PC_NEXT, branched_to(orig, pc)))
    } else if rd == 0xF {
        None
    } else if orig & 0xFFFF_0000 == 0xE59F_0000 {
        let literal = here.wrapping_add(orig & 0xFFF);
        if literal >= 0x0100_0000 {
            None
        } else {
            match guest_endian::value_pa(m, literal) {
                Some(v) => Some((load, v)),
                None => None,
            }
        }
    } else if orig & 0xFFFF_0000 == 0xE28F_0000 {
        Some((load, here.wrapping_add(rotated(orig & 0xFF, (((orig >> 8) & 0xF) * 2) as u32))))
    } else if orig & 0xFFFF_0000 == 0xE24F_0000 {
        Some((load, here.wrapping_sub(rotated(orig & 0xFF, (((orig >> 8) & 0xF) * 2) as u32))))
    } else {
        None
    }
}

proof fn nibble_bits(orig: u32)
    by (bit_vector)
    ensures
        (orig >> 8) & 0xF < 16,
        orig & 0xFF00_0000 == 0xEA00_0000 || orig & 0xFFFF_0000 == 0xE59F_0000 || orig & 0xFFFF_0000
            == 0xE28F_0000 || orig & 0xFFFF_0000 == 0xE24F_0000 ==> orig >> 28 == 0xE,
{
}

/// An instruction is kept as it is only where it does not depend on where it stands, and
/// replaced only where it has no condition.
pub proof fn moved_instructions_are_safe(m: MemView, orig: u32, pc: u32)
    ensures
        rewritten(m, orig, pc) is Some ==> !reads_pc(orig) && rewritten(m, orig, pc) == Some(
            (orig, 0u32),
        ) || reads_pc(orig) && orig >> 28 == 0xE,
{
    nibble_bits(orig);
}

proof fn decode_bits(w: u32)
    by (bit_vector)
    ensures
        (w >> 25) & 7 == 5 <==> w & 0x0E00_0000 == 0x0A00_0000,
        (w >> 25) & 7 == 4 <==> w & 0x0E00_0000 == 0x0800_0000,
        (w >> 25) & 7 == 3 <==> w & 0x0E00_0000 == 0x0600_0000,
        (w >> 25) & 7 == 2 <==> w & 0x0E00_0000 == 0x0400_0000,
        (w >> 25) & 7 == 1 <==> w & 0x0E00_0000 == 0x0200_0000,
        (w >> 25) & 7 == 0 <==> w & 0x0E00_0000 == 0,
        (w >> 20) & 1 == 1 <==> w & 0x0010_0000 != 0,
        (w >> 4) & 1 == 1 <==> w & 0x10 != 0,
        (w >> 7) & 1 == 1 <==> w & 0x80 != 0,
        (w >> 16) & 0xF == 0xF <==> w & 0x000F_0000 == 0x000F_0000,
        (w >> 12) & 0xF == 0xF <==> w & 0xF000 == 0xF000,
        (w >> 8) & 0xF == 0xF <==> w & 0xF00 == 0xF00,
        (w >> 0) & 0xF == 0xF <==> w & 0xF == 0xF,
        w >> 28 == 0xF <==> w & 0xF000_0000 == 0xF000_0000,
        w & 0x90 == 0x10 <==> w & 0x10 != 0 && w & 0x80 == 0,
        ((w >> 21) & 0xF == 13 || (w >> 21) & 0xF == 15) <==> w & 0x01A0_0000 == 0x01A0_0000,
        ((w >> 21) & 0xF >= 8 && (w >> 21) & 0xF < 12) <==> w & 0x0180_0000 == 0x0100_0000,
        w & 0xFF00_0000 == 0xEA00_0000 ==> w & 0x0E00_0000 == 0x0A00_0000,
        w & 0xFFFF_0000 == 0xE59F_0000 ==> w & 0x0E00_0000 == 0x0400_0000 && w & 0x000F_0000
            == 0x000F_0000 && w & 0xF000_0000 != 0xF000_0000 && w & 0xFF00_0000 != 0xEA00_0000,
        w & 0xFFFF_0000 == 0xE28F_0000 || w & 0xFFFF_0000 == 0xE24F_0000 ==> w & 0x0E00_0000 == 0x0200_0000
            && w & 0x000F_0000 == 0x000F_0000 && w & 0xF000_0000 != 0xF000_0000 && w & 0x01A0_0000
            != 0x01A0_0000 && w & 0x0180_0000 != 0x0100_0000 && w & 0xFF00_0000 != 0xEA00_0000,
        w & 0xFFFF_0000 == 0xE28F_0000 ==> w & 0xFFFF_0000 != 0xE59F_0000,
        w & 0xFFFF_0000 == 0xE24F_0000 ==> w & 0xFFFF_0000 != 0xE59F_0000 && w & 0xFFFF_0000
            != 0xE28F_0000,
        ({
            let imm = w & 0x00FF_FFFF;
            let off = if imm & 0x0080_0000 != 0 {
                (imm | 0xFF00_0000) << 2
            } else {
                imm << 2
            };
            off == (if imm & 0x0080_0000 != 0 {
                (4 * imm + 0xFC00_0000) as u32
            } else {
                (4 * imm) as u32
            })
        }),
        w & 0x00FF_FFFF <= 0x00FF_FFFF,
        w & 0xFFF <= 0xFFF,
        (w & 0x00FF_FFFF) & 0x0080_0000 != 0 <==> w & 0x00FF_FFFF >= 0x0080_0000,
        0xE59F_0000u32 | (((w >> 12) & 0xF) << 12) == 0xE59F_0000 | (w & 0xF000),
        (0xE59F_0000u32 | (w & 0xF000)) & 0xFFF == 0,
{
}

/// Which instructions depend on where they stand. Every branch with an offset does. A load or a store
/// does where its base or its offset register is the program counter, and a store of one register
/// where it stores the program counter; a transfer of many where its base is. An operation on an
/// immediate does where its operand is the program counter, and one on registers where any of them
/// is, but moves have no first operand. No instruction but a branch does that has no field of fifteen
/// where a register may be named.
pub proof fn instructions_that_read_the_pc(w: u32)
    ensures
        ({
            let conditional = w & 0xF000_0000 != 0xF000_0000;
            let base = w & 0x000F_0000 == 0x000F_0000;
            let dest = w & 0xF000 == 0xF000;
            let shift = w & 0xF00 == 0xF00;
            let low = w & 0xF == 0xF;
            let store = w & 0x0010_0000 == 0;
            let moves = w & 0x01A0_0000 == 0x01A0_0000;
            let operation = store ==> w & 0x0180_0000 != 0x0100_0000;
            &&& w & 0x0E00_0000 == 0x0A00_0000 ==> reads_pc(w)
            &&& conditional && w & 0x0E00_0000 == 0x0400_0000 ==> reads_pc(w) == (base || store && dest)
            &&& conditional && w & 0x0E00_0000 == 0x0600_0000 && w & 0x10 == 0 ==> reads_pc(w) == (base
                || low || store && dest)
            &&& conditional && w & 0x0E00_0000 == 0x0800_0000 ==> reads_pc(w) == base
            &&& conditional && w & 0x0E00_0000 == 0x0200_0000 && operation ==> reads_pc(w) == (base
                && !moves)
            &&& conditional && w & 0x0E00_0000 == 0 && w & 0x10 == 0 && operation ==> reads_pc(w) == (
            base && !moves || low)
            &&& conditional && w & 0x0E00_0000 == 0 && w & 0x90 == 0x10 && operation ==> reads_pc(w) == (
            base && !moves || low || shift)
            &&& !base && !dest && !shift && !low && w & 0x0E00_0000 != 0x0A00_0000 ==> !reads_pc(w)
        }),
{
    decode_bits(w);
    group_bits(w);
}

/// What takes the place of an instruction that depends on where it stands does the same from a slot: a
/// load of its literal gives it what it would have loaded or computed at its own place. That is the
/// word that a literal load names, as the guest reads it and only where it lies in the ROM; the
/// address that a branch goes to; and the address that an addition to the program counter, or a
/// subtraction from it, gives. One that depends on nothing is kept, and nothing else has a place.
pub proof fn displaced_instructions_compute_the_same(m: MemView, orig: u32, pc: u32)
    requires
        m.wf(),
        pc + 0x1008 <= 0xFFFF_FFFF,
    ensures
        ({
            let r = rewritten(m, orig, pc);
            let offset = orig & 0x00FF_FFFF;
            let dest = orig & 0xF000;
            let at = pc + 8 + (orig & 0xFFF);
            let branches = orig & 0xFF00_0000 == 0xEA00_0000;
            let loads = orig & 0xFFFF_0000 == 0xE59F_0000 && dest != 0xF000;
            let adds = orig & 0xFFFF_0000 == 0xE28F_0000 && dest != 0xF000;
            let subtracts = orig & 0xFFFF_0000 == 0xE24F_0000 && dest != 0xF000;
            let imm = rotated(orig & 0xFF, (((orig >> 8) & 0xF) * 2) as u32);
            &&& !reads_pc(orig) ==> r == Some((orig, 0u32))
            &&& branches ==> r is Some && (r->0).0 == 0xE59F_F000 && (r->0).1 == (pc + 8 + 4 * (
            if offset >= 0x0080_0000 {
                offset - 0x0100_0000
            } else {
                offset as int
            })) % 0x1_0000_0000
            &&& loads && at < 0x0100_0000 && guest_endian::value_pa(m, at as u32) is Some ==> r is Some
                && (r->0).0 == 0xE59F_0000 | dest && Some((r->0).1) == guest_endian::value_pa(m, at as u32)
            &&& loads && at >= 0x0100_0000 ==> r is None
            &&& adds ==> r is Some && (r->0).0 == 0xE59F_0000 | dest && (r->0).1 == (pc + 8 + imm)
                % 0x1_0000_0000
            &&& subtracts ==> r is Some && (r->0).0 == 0xE59F_0000 | dest && (r->0).1 == (pc + 8 - imm)
                % 0x1_0000_0000
            &&& reads_pc(orig) && !branches && !loads && !adds && !subtracts ==> r is None
        }),
{
    decode_bits(orig);
    nibble_bits(orig);
}

/// Rewrites the displaced instruction `orig` of the function at `orig_pc`. `None` where it
/// depends on where it stands in a way that a load cannot take over, or its literal is outside
/// the ROM.
pub fn rewrite_first_insn(mem: &GuestMem, orig: u32, orig_pc: u32) -> (r: Option<(u32, u32)>)
    requires
        mem.wf(),
    ensures
        r == rewritten(mem@, orig, orig_pc),
{
    if !depends_on_pc(orig) {
        return Some((orig, 0));
    }
    let rd: u32 = (orig >> 12) & 0xF;
    let load: u32 = 0xE59F_0000 | (rd << 12);
    let here: u32 = orig_pc.wrapping_add(8);
    if orig & 0xFF00_0000 == 0xEA00_0000 {
        let imm24: u32 = orig & 0x00FF_FFFF;
        let offset: u32 = if imm24 & 0x0080_0000 != 0 {
            (imm24 | 0xFF00_0000) << 2
        } else {
            imm24 << 2
        };
        return Some((LDR_PC_NEXT, here.wrapping_add(offset)));
    }
    if rd == 0xF {
        return None;
    }
    if orig & 0xFFFF_0000 == 0xE59F_0000 {
        let literal_addr: u32 = here.wrapping_add(orig & 0xFFF);
        if literal_addr >= 0x0100_0000 {
            return None;
        }
        return match guest_read_u32_pa(mem, literal_addr) {
            Some(v) => Some((load, v)),
            None => None,
        };
    }
    let is_add_pc: bool = orig & 0xFFFF_0000 == 0xE28F_0000;
    let is_sub_pc: bool = orig & 0xFFFF_0000 == 0xE24F_0000;
    if is_add_pc || is_sub_pc {
        let imm8: u32 = orig & 0xFF;
        proof {
            nibble_bits(orig);
        }
        let rot: u32 = ((orig >> 8) & 0xF) * 2;
        let imm: u32 = if rot == 0 {
            imm8
        } else {
            (imm8 >> rot) | (imm8 << (32 - rot))
        };
        let literal: u32 = if is_add_pc {
            here.wrapping_add(imm)
        } else {
            here.wrapping_sub(imm)
        };
        return Some((load, literal));
    }
    None
}

/// What became of a function.
#[derive(Clone, Copy, PartialEq, Eq, Structural)]
pub enum Outcome {
    Patched,
    Reserved,
    Unrewritable,
    OutOfReach,
}

/// The address of slot `i`.
pub open spec fn slot_address(i: int) -> u32 {
    (TRAMPOLINE_IPA + 20 * i) as u32
}

/// The words of a slot: the call of the hypervisor, the displaced instruction, the way back,
/// and the literals of the two. Literals are stored so that a guest load gives them.
pub open spec fn slot_words(trace_insn: u32, insn: u32, literal: u32, pc: u32) -> Seq<u32> {
    seq![
        trace_insn,
        insn,
        LDR_PC_NEXT,
        words::swap32(literal),
        words::swap32(pc.wrapping_add(4)),
    ]
}

/// What becomes of function `i` at `pc`.
pub open spec fn outcome(m: MemView, i: int, pc: u32, canaries: Seq<u32>) -> Outcome {
    if reserved(pc, canaries) {
        Outcome::Reserved
    } else if rewritten(m, m.rom_word(pc as int / 4), pc) is None {
        Outcome::Unrewritable
    } else if branch(pc, slot_address(i)) is None {
        Outcome::OutOfReach
    } else {
        Outcome::Patched
    }
}

/// The memory once function `i` at `pc` is traced.
pub open spec fn patched(m: MemView, i: int, pc: u32, trace_insn: u32) -> MemView {
    let (insn, literal) = rewritten(m, m.rom_word(pc as int / 4), pc)->0;
    guest_trampolines::with_rom_words(
        m,
        slot_address(i) as int / 4,
        slot_words(trace_insn, insn, literal, pc),
    ).set_rom_word(pc as int / 4, branch(pc, slot_address(i))->0)
}

/// The memory once the first `n` functions are traced.
pub open spec fn traced(m: MemView, fns: Seq<u32>, n: int, trace_insn: u32, canaries: Seq<u32>) -> MemView
    decreases n,
{
    if n <= 0 {
        m
    } else {
        let before = traced(m, fns, n - 1, trace_insn, canaries);
        if outcome(before, n - 1, fns[n - 1], canaries) is Patched {
            patched(before, n - 1, fns[n - 1], trace_insn)
        } else {
            before
        }
    }
}

/// How many of the first `n` functions had a given outcome.
pub open spec fn counted(
    m: MemView,
    fns: Seq<u32>,
    n: int,
    trace_insn: u32,
    canaries: Seq<u32>,
    what: Outcome,
) -> int
    decreases n,
{
    if n <= 0 {
        0
    } else {
        counted(m, fns, n - 1, trace_insn, canaries, what) + (if outcome(
            traced(m, fns, n - 1, trace_insn, canaries),
            n - 1,
            fns[n - 1],
            canaries,
        ) == what {
            1int
        } else {
            0
        })
    }
}

/// Every function of a list is at a word of the ROM.
pub open spec fn in_rom(fns: Seq<u32>) -> bool {
    forall|i: int| 0 <= i < fns.len() ==> #[trigger] fns[i] < 0x0100_0000 && fns[i] % 4 == 0
}

/// How the functions fared.
#[derive(Clone, Copy, PartialEq, Eq, Structural)]
pub struct TraceStats {
    /// Functions looked at: as many as there are slots for.
    pub considered: usize,
    pub patched: usize,
    pub skipped_reserved: usize,
    pub skipped_rewrite: usize,
    pub skipped_b_reach: usize,
}

/// Traces function `i` at `pc`, if it can be.
fn patch_one(
    mem: &mut GuestMem,
    i: usize,
    orig_pc: u32,
    trace_insn: u32,
    canaries: &[u32],
) -> (o: Outcome)
    requires
        old(mem).wf(),
        i < POOL_CAPACITY,
        orig_pc < 0x0100_0000,
        orig_pc % 4 == 0,
    ensures
        final(mem).wf(),
        o == outcome(old(mem)@, i as int, orig_pc, canaries@),
        final(mem)@ == (if o is Patched {
            patched(old(mem)@, i as int, orig_pc, trace_insn)
        } else {
            old(mem)@
        }),
{
    if in_reserved_range(orig_pc, canaries) {
        return Outcome::Reserved;
    }
    let word_index: usize = (orig_pc / 4) as usize;
    let orig: u32 = get_le32(&mem.rom, 4 * word_index);
    let (insn, literal) = match rewrite_first_insn(mem, orig, orig_pc) {
        Some(v) => v,
        None => {
            return Outcome::Unrewritable;
        },
    };
    let slot_ipa: u32 = TRAMPOLINE_IPA + (i as u32) * SLOT_SIZE;
    let b_insn: u32 = match encode_b(orig_pc, slot_ipa) {
        Some(b) => b,
        None => {
            return Outcome::OutOfReach;
        },
    };
    let ws: [u32; 5] = [
        trace_insn,
        insn,
        LDR_PC_NEXT,
        swap_bytes32(literal),
        swap_bytes32(orig_pc.wrapping_add(4)),
    ];
    assert(ws@ =~= slot_words(trace_insn, insn, literal, orig_pc));
    write_rom_words(mem, (slot_ipa / 4) as usize, &ws);
    write_rom_code_word(mem, word_index, b_insn);
    Outcome::Patched
}

/// Traces every function of `fns`, as far as there are slots. Done once: a tracer that is
/// already installed changes nothing.
pub fn init(
    t: &mut Tracer,
    mem: &mut GuestMem,
    fns: &[u32],
    trace_insn: u32,
    canaries: &[u32],
) -> (stats: Option<TraceStats>)
    requires
        old(mem).wf(),
        in_rom(fns@),
    ensures
        final(mem).wf(),
        *final(t) == (Tracer { installed: true, ..*old(t) }),
        old(t).installed ==> stats is None && final(mem)@ == old(mem)@,
        !old(t).installed ==> {
            let n = if fns@.len() < POOL_CAPACITY {
                fns@.len() as int
            } else {
                POOL_CAPACITY as int
            };
            let m = old(mem)@;
            &&& final(mem)@ == traced(m, fns@, n, trace_insn, canaries@)
            &&& stats is Some
            &&& stats->0.considered == n
            &&& stats->0.patched == counted(
                m,
                fns@,
                n,
                trace_insn,
                canaries@,
                Outcome::Patched,
            )
            &&& stats->0.skipped_reserved == counted(
                m,
                fns@,
                n,
                trace_insn,
                canaries@,
                Outcome::Reserved,
            )
            &&& stats->0.skipped_rewrite == counted(
                m,
                fns@,
                n,
                trace_insn,
                canaries@,
                Outcome::Unrewritable,
            )
            &&& stats->0.skipped_b_reach == counted(
                m,
                fns@,
                n,
                trace_insn,
                canaries@,
                Outcome::OutOfReach,
            )
        },
{
    if t.installed {
        return None;
    }
    t.installed = true;
    let n: usize = if fns.len() < POOL_CAPACITY {
        fns.len()
    } else {
        POOL_CAPACITY
    };
    let ghost m = mem@;
    let mut s = TraceStats {
        considered: n,
        patched: 0,
        skipped_reserved: 0,
        skipped_rewrite: 0,
        skipped_b_reach: 0,
    };
    let mut i: usize = 0;
    while i < n
        invariant
            i <= n <= POOL_CAPACITY,
            n <= fns@.len(),
            in_rom(fns@),
            mem.wf(),
            mem@ == traced(m, fns@, i as int, trace_insn, canaries@),
            s.considered == n,
            0 <= s.patched <= i,
            0 <= s.skipped_reserved <= i,
            0 <= s.skipped_rewrite <= i,
            0 <= s.skipped_b_reach <= i,
            s.patched == counted(m, fns@, i as int, trace_insn, canaries@, Outcome::Patched),
            s.skipped_reserved == counted(
                m,
                fns@,
                i as int,
                trace_insn,
                canaries@,
                Outcome::Reserved,
            ),
            s.skipped_rewrite == counted(
                m,
                fns@,
                i as int,
                trace_insn,
                canaries@,
                Outcome::Unrewritable,
            ),
            s.skipped_b_reach == counted(
                m,
                fns@,
                i as int,
                trace_insn,
                canaries@,
                Outcome::OutOfReach,
            ),
        decreases n - i,
    {
        let pc: u32 = fns[i];
        assert(fns@[i as int] < 0x0100_0000);
        match patch_one(mem, i, pc, trace_insn, canaries) {
            Outcome::Patched => {
                s.patched = s.patched + 1;
            },
            Outcome::Reserved => {
                s.skipped_reserved = s.skipped_reserved + 1;
            },
            Outcome::Unrewritable => {
                s.skipped_rewrite = s.skipped_rewrite + 1;
            },
            Outcome::OutOfReach => {
                s.skipped_b_reach = s.skipped_b_reach + 1;
            },
        }
        i = i + 1;
    }
    Some(s)
}

/// A traced function leads through its slot and on: its first word branches to the slot,
/// which holds the call of the hypervisor, the displaced instruction and the way back to the
/// word behind it. No other word of the ROM changes.
pub proof fn traced_function_goes_on(m: MemView, i: int, pc: u32, trace_insn: u32, canaries: Seq<u32>, k: int)
    requires
        m.wf(),
        0 <= i < POOL_CAPACITY,
        pc < 0x0100_0000,
        pc % 4 == 0,
        !(slot_address(i) <= pc < slot_address(i) + 20),
        outcome(m, i, pc, canaries) is Patched,
        0 <= k,
        4 * k + 4 <= ROM_SIZE,
    ensures
        ({
            let p = patched(m, i, pc, trace_insn);
            let (insn, literal) = rewritten(m, m.rom_word(pc as int / 4), pc)->0;
            let base = slot_address(i) as int / 4;
            &&& aarch32_emit::branch_target(p.rom_word(pc as int / 4), pc) == slot_address(i)
            &&& base <= k < base + 5 ==> p.rom_word(k) == slot_words(
                trace_insn,
                insn,
                literal,
                pc,
            )[k - base]
            &&& !(base <= k < base + 5) && k != pc as int / 4 ==> p.rom_word(k) == m.rom_word(k)
        }),
{
    let (insn, literal) = rewritten(m, m.rom_word(pc as int / 4), pc)->0;
    let base = slot_address(i) as int / 4;
    let at = pc as int / 4;
    let ws = slot_words(trace_insn, insn, literal, pc);
    let mid = guest_trampolines::with_rom_words(m, base, ws);
    assert(slot_address(i) % 4 == 0);
    branch_arrives(pc, slot_address(i));
    guest_trampolines::rom_words_read_back(m, base, ws, k);
    words::put_le32_reads_back(mid.rom, 4 * at, branch(pc, slot_address(i))->0);
    if k != at {
        words::put_le32_frames(mid.rom, 4 * at, branch(pc, slot_address(i))->0, 4 * k);
    }
}

/// How a slot works: its first word calls the hypervisor, its second is the displaced instruction, and
/// a load there without offset reads the fourth, where its literal is; the third loads the program
/// counter from the fifth, which is the address behind the function's first word.
pub proof fn slots_find_their_literals(trace_insn: u32, insn: u32, literal: u32, pc: u32)
    requires
        pc + 4 <= 0xFFFF_FFFF,
    ensures
        ({
            let s = slot_words(trace_insn, insn, literal, pc);
            &&& s.len() == 5
            &&& s[0] == trace_insn
            &&& s[1] == insn
            &&& s[2] == 0xE59F_F000
            &&& words::swap32(s[3]) == literal
            &&& words::swap32(s[4]) == pc + 4
        }),
{
    words::swap32_involutive(literal);
    words::swap32_involutive((pc + 4) as u32);
}

/// Every function has one of the four outcomes.
pub proof fn outcomes_add_up(
    m: MemView,
    fns: Seq<u32>,
    n: int,
    trace_insn: u32,
    canaries: Seq<u32>,
)
    requires
        0 <= n <= fns.len(),
    ensures
        counted(m, fns, n, trace_insn, canaries, Outcome::Patched) + counted(
            m,
            fns,
            n,
            trace_insn,
            canaries,
            Outcome::Reserved,
        ) + counted(m, fns, n, trace_insn, canaries, Outcome::Unrewritable) + counted(
            m,
            fns,
            n,
            trace_insn,
            canaries,
            Outcome::OutOfReach,
        ) == n,
    decreases n,
{
    if n > 0 {
        outcomes_add_up(m, fns, n - 1, trace_insn, canaries);
    }
}

/// Tracing touches the functions and the slots, and nothing else: a word behind neither keeps its
/// value, and so does everything but the ROM.
pub proof fn tracing_touches_functions_and_slots(
    m: MemView,
    fns: Seq<u32>,
    n: int,
    trace_insn: u32,
    canaries: Seq<u32>,
    k: int,
)
    requires
        m.wf(),
        in_rom(fns),
        0 <= n <= fns.len(),
        n <= POOL_CAPACITY,
        0 <= k < ROM_SIZE / 4,
        forall|i: int| 0 <= i < n ==> #[trigger] fns[i] != 4 * k,
        !(0x0090_0000 <= 4 * k < 0x0090_0000 + 20 * n),
    ensures
        ({
            let t = traced(m, fns, n, trace_insn, canaries);
            &&& t.rom_word(k) == m.rom_word(k)
            &&& t == MemView { rom: t.rom, ..m }
            &&& t.wf()
        }),
    decreases n,
{
    if n > 0 {
        tracing_touches_functions_and_slots(m, fns, n - 1, trace_insn, canaries, k);
        let before = traced(m, fns, n - 1, trace_insn, canaries);
        let pc = fns[n - 1];
        if outcome(before, n - 1, pc, canaries) is Patched {
            patch_leaves(before, n - 1, pc, trace_insn, k);
        }
    }
}

proof fn patch_leaves(m: MemView, i: int, pc: u32, trace_insn: u32, k: int)
    requires
        m.wf(),
        0 <= i < POOL_CAPACITY,
        pc < 0x0100_0000,
        pc % 4 == 0,
        0 <= k < ROM_SIZE / 4,
        pc != 4 * k,
        !(slot_address(i) <= 4 * k < slot_address(i) + 20),
    ensures
        patched(m, i, pc, trace_insn).rom_word(k) == m.rom_word(k),
        patched(m, i, pc, trace_insn) == (MemView { rom: patched(m, i, pc, trace_insn).rom, ..m }),
        patched(m, i, pc, trace_insn).wf(),
{
    let (insn, literal) = rewritten(m, m.rom_word(pc as int / 4), pc)->0;
    let base = slot_address(i) as int / 4;
    let ws = slot_words(trace_insn, insn, literal, pc);
    let mid = guest_trampolines::with_rom_words(m, base, ws);
    assert(slot_address(i) % 4 == 0);
    guest_trampolines::rom_words_read_back(m, base, ws, k);
    words::put_le32_frames(mid.rom, 4 * (pc as int / 4), branch(pc, slot_address(i))->0, 4 * k);
    words::put_le32_len(mid.rom, 4 * (pc as int / 4), branch(pc, slot_address(i))->0);
}

/// When all functions have been gone through, each that was patched still leads to its own slot, and a
/// function that was not has its own first word: no function's patch disturbs another's.
pub proof fn traced_functions_keep_their_slots(
    m: MemView,
    fns: Seq<u32>,
    n: int,
    trace_insn: u32,
    canaries: Seq<u32>,
    i: int,
)
    requires
        m.wf(),
        in_rom(fns),
        0 <= i < n <= fns.len(),
        n <= POOL_CAPACITY,
        forall|j: int| 0 <= j < n ==> !(0x0090_0000 <= #[trigger] fns[j] < 0x00E0_0000),
        forall|a: int, b: int| 0 <= a < b < n ==> #[trigger] fns[a] != #[trigger] fns[b],
    ensures
        ({
            let before = traced(m, fns, i, trace_insn, canaries);
            let t = traced(m, fns, n, trace_insn, canaries);
            let at = fns[i] as int / 4;
            let slot = (0x0090_0000 + 20 * i) / 4;
            &&& before.rom_word(at) == m.rom_word(at)
            &&& outcome(before, i, fns[i], canaries) is Patched ==> {
                let r = rewritten(before, m.rom_word(at), fns[i])->0;
                &&& aarch32_emit::branch_target(t.rom_word(at), fns[i]) == 0x0090_0000 + 20 * i
                &&& t.rom_word(slot) == trace_insn
                &&& t.rom_word(slot + 1) == r.0
                &&& t.rom_word(slot + 2) == 0xE59F_F000
                &&& words::swap32(t.rom_word(slot + 3)) == r.1
                &&& words::swap32(t.rom_word(slot + 4)) == fns[i] + 4
            }
            &&& !(outcome(before, i, fns[i], canaries) is Patched) ==> t.rom_word(at) == m.rom_word(at)
        }),
    decreases n,
{
    let at = fns[i] as int / 4;
    let slot = (0x0090_0000 + 20 * i) / 4;
    let before = traced(m, fns, i, trace_insn, canaries);
    assert(!(0x0090_0000 <= fns[i] < 0x00E0_0000));
    assert(fns[i] % 4 == 0 && fns[i] < 0x0100_0000);
    assert forall|j: int| 0 <= j < i implies #[trigger] fns[j] != 4 * at by {
        assert(fns[j] != fns[i]);
    }
    tracing_touches_functions_and_slots(m, fns, i, trace_insn, canaries, at);
    if n == i + 1 {
        if outcome(before, i, fns[i], canaries) is Patched {
            let r = rewritten(before, m.rom_word(at), fns[i])->0;
            traced_function_goes_on(before, i, fns[i], trace_insn, canaries, at);
            traced_function_goes_on(before, i, fns[i], trace_insn, canaries, slot);
            traced_function_goes_on(before, i, fns[i], trace_insn, canaries, slot + 1);
            traced_function_goes_on(before, i, fns[i], trace_insn, canaries, slot + 2);
            traced_function_goes_on(before, i, fns[i], trace_insn, canaries, slot + 3);
            traced_function_goes_on(before, i, fns[i], trace_insn, canaries, slot + 4);
            slots_find_their_literals(trace_insn, r.0, r.1, fns[i]);
        }
    } else {
        traced_functions_keep_their_slots(m, fns, n - 1, trace_insn, canaries, i);
        assert forall|j: int| 0 <= j < n - 1 implies !(0x0090_0000 <= #[trigger] fns[j]
            < 0x00E0_0000) by {}
        let p = traced(m, fns, n - 1, trace_insn, canaries);
        traced_keeps_shape(m, fns, n - 1, trace_insn, canaries);
        let pc = fns[n - 1];
        assert(fns[i] != fns[n - 1]);
        assert(!(0x0090_0000 <= fns[n - 1] < 0x00E0_0000));
        if outcome(p, n - 1, pc, canaries) is Patched {
            patch_leaves(p, n - 1, pc, trace_insn, at);
            patch_leaves(p, n - 1, pc, trace_insn, slot);
            patch_leaves(p, n - 1, pc, trace_insn, slot + 1);
            patch_leaves(p, n - 1, pc, trace_insn, slot + 2);
            patch_leaves(p, n - 1, pc, trace_insn, slot + 3);
            patch_leaves(p, n - 1, pc, trace_insn, slot + 4);
        }
    }
}

proof fn traced_keeps_shape(
    m: MemView,
    fns: Seq<u32>,
    n: int,
    trace_insn: u32,
    canaries: Seq<u32>,
)
    requires
        m.wf(),
        in_rom(fns),
        0 <= n <= fns.len(),
        n <= POOL_CAPACITY,
    ensures
        traced(m, fns, n, trace_insn, canaries).wf(),
    decreases n,
{
    if n > 0 {
        traced_keeps_shape(m, fns, n - 1, trace_insn, canaries);
        let before = traced(m, fns, n - 1, trace_insn, canaries);
        let pc = fns[n - 1];
        let mid = guest_trampolines::with_rom_words(
            before,
            slot_address(n - 1) as int / 4,
            slot_words(
                trace_insn,
                (rewritten(before, before.rom_word(pc as int / 4), pc)->0).0,
                (rewritten(before, before.rom_word(pc as int / 4), pc)->0).1,
                pc,
            ),
        );
        assert(mid.rom.len() == ROM_SIZE);
        assert(fns[n - 1] < 0x0100_0000);
        words::put_le32_len(mid.rom, 4 * (pc as int / 4), branch(pc, slot_address(n - 1))->0);
    }
}

/// A line of the guest's output, as far as it is there.
pub struct PutcLine {
    pub buf: Vec<u8>,
    pub first_lr: u32,
    pub first_seq: u32,
}

/// A whole line of the guest's output: the calls that it took, and the first one's caller.
pub struct PutcOut {
    pub first_seq: u32,
    pub seq: u32,
    pub lr: u32,
    pub text: Vec<u8>,
}

/// Whether a character prints.
pub open spec fn printable(c: u8) -> bool {
    0x20 <= c < 0x7F
}

/// The line with one more character.
pub open spec fn with_char(buf: Seq<u8>, c: u8) -> Seq<u8> {
    if printable(c) && buf.len() < PUTC_CAP {
        buf.push(c)
    } else {
        buf
    }
}

/// Whether the line is whole after `c`: `c` does not print, or the line is full.
pub open spec fn line_ends(buf: Seq<u8>, c: u8) -> bool {
    with_char(buf, c).len() > 0 && (!printable(c) || with_char(buf, c).len() == PUTC_CAP)
}

/// No character that prints is lost: what is given out and what is kept are what was kept
/// before and the character.
pub proof fn output_keeps_every_character(buf: Seq<u8>, c: u8)
    requires
        buf.len() < PUTC_CAP,
    ensures
        ({
            let given: Seq<u8> = if line_ends(buf, c) {
                with_char(buf, c)
            } else {
                seq![]
            };
            let left: Seq<u8> = if line_ends(buf, c) {
                seq![]
            } else {
                with_char(buf, c)
            };
            &&& left.len() < PUTC_CAP
            &&& given + left == buf + (if printable(c) {
                seq![c]
            } else {
                seq![]
            })
        }),
{
    let given: Seq<u8> = if line_ends(buf, c) {
        with_char(buf, c)
    } else {
        seq![]
    };
    let left: Seq<u8> = if line_ends(buf, c) {
        seq![]
    } else {
        with_char(buf, c)
    };
    assert(given + left =~= buf + (if printable(c) {
        seq![c]
    } else {
        seq![]
    }));
}

impl PutcLine {
    pub open spec fn wf(self) -> bool {
        self.buf@.len() < PUTC_CAP
    }

    /// Takes one character of the guest's output: the line, if it is whole.
    pub fn buffer_putc_char(&mut self, ch: u32, lr: u32, seq: u32) -> (out: Option<PutcOut>)
        requires
            old(self).wf(),
        ensures
            final(self).wf(),
            ({
                let c = (ch % 256) as u8;
                let lr0 = if old(self).buf@.len() == 0 {
                    lr
                } else {
                    old(self).first_lr
                };
                let seq0 = if old(self).buf@.len() == 0 {
                    seq
                } else {
                    old(self).first_seq
                };
                &&& final(self).first_lr == lr0
                &&& final(self).first_seq == seq0
                &&& match out {
                    Some(o) => {
                        &&& line_ends(old(self).buf@, c)
                        &&& o.text@ == with_char(old(self).buf@, c)
                        &&& o.first_seq == seq0
                        &&& o.seq == seq
                        &&& o.lr == lr0
                        &&& final(self).buf@ == Seq::<u8>::empty()
                    },
                    None => {
                        &&& !line_ends(old(self).buf@, c)
                        &&& final(self).buf@ == with_char(old(self).buf@, c)
                    },
                }
            }),
    {
        let byte: u8 = (ch % 256) as u8;
        if self.buf.len() == 0 {
            self.first_lr = lr;
            self.first_seq = seq;
        }
        let prints: bool = byte >= 0x20 && byte < 0x7F;
        if prints && self.buf.len() < PUTC_CAP {
            self.buf.push(byte);
        }
        if (!prints || self.buf.len() == PUTC_CAP) && self.buf.len() > 0 {
            let mut text: Vec<u8> = Vec::new();
            core::mem::swap(&mut text, &mut self.buf);
            return Some(
                PutcOut { first_seq: self.first_seq, seq, lr: self.first_lr, text },
            );
        }
        None
    }
}

/// The state of the trace.
pub struct Tracer {
    pub installed: bool,
    /// Calls so far, wrapping around.
    pub seq: u32,
    /// Whether each function is shown once only.
    pub once: bool,
    /// The functions that were shown, where that matters.
    pub fired: Vec<bool>,
    pub line: PutcLine,
}

/// A traced call.
#[derive(Clone, Copy, PartialEq, Eq, Structural)]
pub struct CallLine {
    pub seq: u32,
    /// The function's number in the list, and its address.
    pub idx: usize,
    pub addr: u32,
    pub mode: u32,
    pub r0: u32,
    pub r1: u32,
    pub r2: u32,
    pub r3: u32,
    pub lr: u32,
}

/// What a call of the hypervisor from a slot amounts to.
pub enum TraceEvent {
    /// It did not come from a slot.
    OutsidePool,
    /// It came from the middle of one, at an offset into the slots.
    NotAligned(u32),
    /// It came from a slot that no function has.
    NoFunction(usize),
    /// A call to be shown.
    Call(CallLine),
    /// A call that was shown before.
    Shown,
    /// A character of output, and the line if it is whole.
    Output(Option<PutcOut>),
}

/// The short name of a mode.
pub open spec fn mode_text(mode: u32) -> Seq<char> {
    if mode == 0x10 {
        "usr"@
    } else if mode == 0x11 {
        "fiq"@
    } else if mode == 0x12 {
        "irq"@
    } else if mode == 0x13 {
        "svc"@
    } else if mode == 0x17 {
        "abt"@
    } else if mode == 0x1B {
        "und"@
    } else if mode == 0x1F {
        "sys"@
    } else {
        "???"@
    }
}

/// A mode has the name that it has everywhere, but for the two that the guest's processor does not have.
pub proof fn modes_have_one_name(mode: u32)
    requires
        mode < 32,
        mode != 0x16,
        mode != 0x1A,
    ensures
        mode_text(mode) == crate::arch::arm_decode::mode_name(mode),
{
    crate::arch::arm_decode::names_are_of_low_bits(mode);
}

/// The short name of a mode.
pub fn mode_label(mode: u32) -> (label: &'static str)
    ensures
        label@ == mode_text(mode),
{
    match mode {
        0x10 => "usr",
        0x11 => "fiq",
        0x12 => "irq",
        0x13 => "svc",
        0x17 => "abt",
        0x1B => "und",
        0x1F => "sys",
        _ => "???",
    }
}

/// The call that a slot reports.
pub open spec fn call_line(seq: u32, idx: int, fns: Seq<u32>, ctx: TrapContext, spsr: u32) -> CallLine {
    CallLine {
        seq: seq.wrapping_add(1),
        idx: idx as usize,
        addr: fns[idx],
        mode: spsr & 0x1F,
        r0: ctx.x[0] as u32,
        r1: ctx.x[1] as u32,
        r2: ctx.x[2] as u32,
        r3: ctx.x[3] as u32,
        lr: ctx.x[banked::lr_slot(spsr)] as u32,
    }
}

impl Tracer {
    /// The list of shown functions, where one is kept, is as long as the list of functions.
    pub open spec fn wf(self, fns: Seq<u32>) -> bool {
        &&& self.line.wf()
        &&& self.once ==> self.fired@.len() == fns.len()
    }

    /// Nothing traced yet, of `count` functions.
    pub fn new(once: bool, count: usize) -> (t: Tracer)
        ensures
            !t.installed,
            t.seq == 0,
            t.once == once,
            t.fired@ == Seq::new(count as nat, |i: int| false),
            t.line.wf(),
            t.line.buf@ == Seq::<u8>::empty(),
    {
        let fired: Vec<bool> = vec![false; count];
        assert(fired@ =~= Seq::new(count as nat, |i: int| false));
        Tracer {
            installed: false,
            seq: 0,
            once,
            fired,
            line: PutcLine { buf: Vec::new(), first_lr: 0, first_seq: 0 },
        }
    }

    /// Whether function `idx` was shown before; from now on it was.
    fn already_fired(&mut self, idx: usize) -> (before: bool)
        requires
            old(self).once ==> idx < old(self).fired@.len(),
        ensures
            before == (old(self).once && old(self).fired@[idx as int]),
            final(self).fired@ == (if old(self).once {
                old(self).fired@.update(idx as int, true)
            } else {
                old(self).fired@
            }),
            final(self).installed == old(self).installed,
            final(self).seq == old(self).seq,
            final(self).once == old(self).once,
            final(self).line == old(self).line,
    {
        if !self.once {
            return false;
        }
        let before: bool = self.fired[idx];
        self.fired.set(idx, true);
        before
    }
}

/// The call of the hypervisor that a slot makes, the word behind it being at `elr`.
pub fn handle_trace_hvc(t: &mut Tracer, ctx: &TrapContext, fns: &[u32], elr: u32, spsr: u32) -> (e:
    TraceEvent)
    requires
        old(t).wf(fns@),
    ensures
        final(t).wf(fns@),
        logged(*old(t), *final(t), *ctx, fns@, elr.wrapping_sub(4), spsr, e),
{
    log_trace_at(t, ctx, fns, elr.wrapping_sub(4), spsr)
}

/// What a call of the hypervisor from `slot_base` amounts to, and what it leaves behind.
pub open spec fn logged(
    old_t: Tracer,
    new_t: Tracer,
    ctx: TrapContext,
    fns: Seq<u32>,
    slot_base: u32,
    spsr: u32,
    e: TraceEvent,
) -> bool {
    let off = slot_base - TRAMPOLINE_IPA;
    let idx = off / 20;
    if !(TRAMPOLINE_IPA <= slot_base < TRAMPOLINE_END) {
        e is OutsidePool && new_t == old_t
    } else if off % 20 != 0 {
        e == TraceEvent::NotAligned(off as u32) && new_t == old_t
    } else if idx >= fns.len() {
        e == TraceEvent::NoFunction(idx as usize) && new_t == old_t
    } else {
        let c = call_line(old_t.seq, idx, fns, ctx, spsr);
        &&& new_t.seq == c.seq
        &&& new_t.installed == old_t.installed
        &&& new_t.once == old_t.once
        &&& if fns[idx] == PUTC_PC {
            let byte = (c.r0 % 256) as u8;
            let fresh = old_t.line.buf@.len() == 0;
            &&& e is Output
            &&& new_t.line.first_lr == (if fresh {
                c.lr
            } else {
                old_t.line.first_lr
            })
            &&& new_t.line.first_seq == (if fresh {
                c.seq
            } else {
                old_t.line.first_seq
            })
            &&& e->Output_0 is Some ==> e->Output_0->0.lr == new_t.line.first_lr
                && e->Output_0->0.first_seq == new_t.line.first_seq
            &&& new_t.fired@ == old_t.fired@
            &&& e->Output_0 is Some <==> line_ends(old_t.line.buf@, byte)
            &&& e->Output_0 is Some ==> e->Output_0->0.text@ == with_char(old_t.line.buf@, byte)
                && e->Output_0->0.seq == c.seq && new_t.line.buf@ == Seq::<u8>::empty()
            &&& e->Output_0 is None ==> new_t.line.buf@ == with_char(old_t.line.buf@, byte)
        } else {
            &&& new_t.line == old_t.line
            &&& new_t.fired@ == (if old_t.once {
                old_t.fired@.update(idx, true)
            } else {
                old_t.fired@
            })
            &&& e == (if old_t.once && old_t.fired@[idx] {
                TraceEvent::Shown
            } else {
                TraceEvent::Call(c)
            })
        }
    }
}

/// A line of output ends with a character that does not print, or with the five hundred and twelfth
/// that does; an empty line is not given out. A character prints from the space to the tilde.
pub proof fn lines_of_output(buf: Seq<u8>, c: u8)
    requires
        buf.len() < 512,
    ensures
        32 <= c <= 126 ==> with_char(buf, c) == buf.push(c),
        c < 32 || c > 126 ==> with_char(buf, c) == buf,
        32 <= c <= 126 ==> (line_ends(buf, c) <==> buf.len() == 511),
        c < 32 || c > 126 ==> (line_ends(buf, c) <==> buf.len() > 0),
{
}

/// What a call from a slot is: that of the function whose slot it is, by the slot's place, with its
/// number, its first four arguments, the mode, and that mode's link register. Outside the slots, inside
/// one and behind the last function's it is none and changes nothing.
pub proof fn calls_come_from_their_slots(
    old_t: Tracer,
    new_t: Tracer,
    ctx: TrapContext,
    fns: Seq<u32>,
    slot_base: u32,
    spsr: u32,
    e: TraceEvent,
    idx: int,
)
    requires
        old_t.wf(fns),
        logged(old_t, new_t, ctx, fns, slot_base, spsr, e),
        old_t.seq < u32::MAX,
    ensures
        slot_base < 0x0090_0000 || slot_base >= 0x00E0_0000 ==> e is OutsidePool && new_t == old_t,
        0x0090_0000 <= slot_base < 0x00E0_0000 && (slot_base - 0x0090_0000) % 20 != 0 ==> e is NotAligned
            && new_t == old_t,
        0 <= idx && slot_base == 0x0090_0000 + 20 * idx && slot_base < 0x00E0_0000 ==> {
            &&& idx >= fns.len() ==> e is NoFunction && new_t == old_t
            &&& idx < fns.len() ==> new_t.seq == old_t.seq + 1
            &&& idx < fns.len() && fns[idx] == 0x0034_F7E0 ==> e is Output && new_t.fired@
                == old_t.fired@
            &&& idx < fns.len() && fns[idx] != 0x0034_F7E0 ==> {
                let again = old_t.once && old_t.fired@[idx];
                &&& new_t.line == old_t.line
                &&& again ==> e is Shown
                &&& !again ==> (e matches TraceEvent::Call(c) && c.seq == old_t.seq + 1 && c.idx == idx
                    && c.addr == fns[idx] && c.mode == spsr & 0x1F && c.r0 == ctx.x[0] as u32 && c.r1
                    == ctx.x[1] as u32 && c.r2 == ctx.x[2] as u32 && c.r3 == ctx.x[3] as u32 && c.lr
                    == ctx.x[banked::lr_slot(spsr)] as u32)
                &&& old_t.once ==> new_t.fired@[idx]
            }
        },
{
}

/// A call of the hypervisor from the slot at `slot_base`, in the mode of `spsr`.
pub fn log_trace_at(t: &mut Tracer, ctx: &TrapContext, fns: &[u32], slot_base: u32, spsr: u32) -> (e:
    TraceEvent)
    requires
        old(t).wf(fns@),
    ensures
        final(t).wf(fns@),
        logged(*old(t), *final(t), *ctx, fns@, slot_base, spsr, e),
{
    if slot_base < TRAMPOLINE_IPA || slot_base >= TRAMPOLINE_END {
        return TraceEvent::OutsidePool;
    }
    let slot_offset: u32 = slot_base - TRAMPOLINE_IPA;
    if slot_offset % SLOT_SIZE != 0 {
        return TraceEvent::NotAligned(slot_offset);
    }
    let idx: usize = (slot_offset / SLOT_SIZE) as usize;
    if idx >= fns.len() {
        return TraceEvent::NoFunction(idx);
    }
    let seq: u32 = t.seq.wrapping_add(1);
    t.seq = seq;
    let cur_lr: u32 = lr_for_mode(ctx, spsr);
    let addr: u32 = fns[idx];
    let r0: u32 = ctx.x[0] as u32;
    if addr == PUTC_PC {
        return TraceEvent::Output(t.line.buffer_putc_char(r0, cur_lr, seq));
    }
    if t.already_fired(idx) {
        return TraceEvent::Shown;
    }
    TraceEvent::Call(
        CallLine {
            seq,
            idx,
            addr,
            mode: spsr & 0x1F,
            r0,
            r1: ctx.x[1] as u32,
            r2: ctx.x[2] as u32,
            r3: ctx.x[3] as u32,
            lr: cur_lr,
        },
    )
}

} // verus!
