//! AArch32 banked registers in the AArch64 register file.
//!
//! At an AArch32 to AArch64 exception entry the AArch64 registers alias the AArch32
//! ones by bank name: R0..R12 are X0..X12 outside FIQ mode, SP_usr and LR_usr are X13
//! and X14, LR_irq and SP_irq X16 and X17, LR_svc and SP_svc X18 and X19, LR_abt and
//! SP_abt X20 and X21, LR_und and SP_und X22 and X23, R8_fiq..R12_fiq X24..X28, and
//! SP_fiq and LR_fiq X29 and X30. The upper halves of X16..X30 are unpredictable, so
//! every read keeps the low 32 bits only.

use crate::arch::trap_context::TrapContext;
use vstd::prelude::*;

verus! {

pub const MODE_USR: u32 = 0x10;

pub const MODE_FIQ: u32 = 0x11;

pub const MODE_IRQ: u32 = 0x12;

pub const MODE_SVC: u32 = 0x13;

pub const MODE_ABT: u32 = 0x17;

pub const MODE_UND: u32 = 0x1B;

pub const MODE_SYS: u32 = 0x1F;

/// The X register that holds R13 of the mode in the low five bits of `cpsr`; that of
/// USR for a mode without a bank of its own here.
pub open spec fn sp_slot(cpsr: u32) -> int {
    let m = cpsr & 0x1F;
    if m == MODE_FIQ {
        29
    } else if m == MODE_IRQ {
        17
    } else if m == MODE_SVC {
        19
    } else if m == MODE_ABT {
        21
    } else if m == MODE_UND {
        23
    } else {
        13
    }
}

/// The X register that holds R14 of the mode in the low five bits of `cpsr`.
pub open spec fn lr_slot(cpsr: u32) -> int {
    let m = cpsr & 0x1F;
    if m == MODE_FIQ {
        30
    } else if m == MODE_IRQ {
        16
    } else if m == MODE_SVC {
        18
    } else if m == MODE_ABT {
        20
    } else if m == MODE_UND {
        22
    } else {
        14
    }
}

/// The X register that holds AArch32 register `reg` in the mode of `cpsr`. Register
/// numbers above 14 have no slot and stand for themselves.
pub open spec fn reg_slot(reg: u32, cpsr: u32) -> int {
    if 8 <= reg <= 12 && cpsr & 0x1F == MODE_FIQ {
        reg + 16
    } else if reg == 13 {
        sp_slot(cpsr)
    } else if reg == 14 {
        lr_slot(cpsr)
    } else {
        reg as int
    }
}

/// Within one mode no two of R0..R14 share a slot, and every slot exists.
pub proof fn slots_are_distinct(a: u32, b: u32, cpsr: u32)
    requires
        a <= 14,
        b <= 14,
        a != b,
    ensures
        reg_slot(a, cpsr) != reg_slot(b, cpsr),
        0 <= reg_slot(a, cpsr) < 31,
{
}

/// Where each mode keeps its stack pointer and link register, and FIQ its r8 to r12; every other
/// register has its own number.
pub proof fn banks_of_modes(cpsr: u32, reg: u32)
    ensures
        ({
            let m = cpsr & 0x1F;
            &&& m == 0x10 || m == 0x1F ==> sp_slot(cpsr) == 13 && lr_slot(cpsr) == 14
            &&& m == 0x11 ==> sp_slot(cpsr) == 29 && lr_slot(cpsr) == 30
            &&& m == 0x12 ==> sp_slot(cpsr) == 17 && lr_slot(cpsr) == 16
            &&& m == 0x13 ==> sp_slot(cpsr) == 19 && lr_slot(cpsr) == 18
            &&& m == 0x17 ==> sp_slot(cpsr) == 21 && lr_slot(cpsr) == 20
            &&& m == 0x1B ==> sp_slot(cpsr) == 23 && lr_slot(cpsr) == 22
            &&& m == 0x11 && 8 <= reg <= 12 ==> reg_slot(reg, cpsr) == 24 + (reg - 8)
            &&& m != 0x11 && reg <= 12 ==> reg_slot(reg, cpsr) == reg
            &&& reg <= 7 ==> reg_slot(reg, cpsr) == reg
            &&& reg_slot(13, cpsr) == sp_slot(cpsr) && reg_slot(14, cpsr) == lr_slot(cpsr)
        }),
{
}

pub fn sp_slot_for_mode(cpsr: u32) -> (slot: usize)
    ensures
        slot == sp_slot(cpsr),
        slot < 31,
{
    match cpsr & 0x1F {
        0x10 | 0x1F => 13,
        0x11 => 29,
        0x12 => 17,
        0x13 => 19,
        0x17 => 21,
        0x1B => 23,
        _ => 13,
    }
}

pub fn lr_slot_for_mode(cpsr: u32) -> (slot: usize)
    ensures
        slot == lr_slot(cpsr),
        slot < 31,
{
    match cpsr & 0x1F {
        0x10 | 0x1F => 14,
        0x11 => 30,
        0x12 => 16,
        0x13 => 18,
        0x17 => 20,
        0x1B => 22,
        _ => 14,
    }
}

/// Reads R13 of the AArch32 mode encoded in `cpsr`.
pub fn sp_for_mode(ctx: &TrapContext, cpsr: u32) -> (sp: u32)
    ensures
        sp == ctx.x[sp_slot(cpsr)] as u32,
{
    let slot = sp_slot_for_mode(cpsr);
    ctx.x[slot] as u32
}

/// Reads R14 of the AArch32 mode encoded in `cpsr`.
pub fn lr_for_mode(ctx: &TrapContext, cpsr: u32) -> (lr: u32)
    ensures
        lr == ctx.x[lr_slot(cpsr)] as u32,
{
    let slot = lr_slot_for_mode(cpsr);
    ctx.x[slot] as u32
}

/// Maps an AArch32 register number and mode to its slot. R15 is not in the X file;
/// callers handle PC reads themselves.
pub fn ctx_slot_for_reg(reg: u32, cpsr: u32) -> (slot: usize)
    ensures
        slot == reg_slot(reg, cpsr),
{
    if reg <= 7 {
        return reg as usize;
    }
    let mode = cpsr & 0x1F;
    if reg <= 12 {
        if mode == MODE_FIQ {
            return (24 + (reg - 8)) as usize;
        }
        return reg as usize;
    }
    match reg {
        13 => sp_slot_for_mode(cpsr),
        14 => lr_slot_for_mode(cpsr),
        _ => reg as usize,
    }
}

} // verus!
