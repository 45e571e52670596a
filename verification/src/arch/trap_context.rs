//! The saved-register frame of a trap, and the exception-class names.

use vstd::prelude::*;

verus! {

/// The AArch64 general registers as saved at trap entry; index `i` is register `xi`.
#[derive(Clone, Copy)]
pub struct TrapContext {
    pub x: [u64; 31],
}

/// The return address `bytes` past `elr`.
pub fn advance_elr(elr: u64, bytes: u64) -> (next: u64)
    requires
        elr + bytes <= u64::MAX,
    ensures
        next == elr + bytes,
{
    elr + bytes
}

/// What exception class `ec` stands for.
pub open spec fn ec_text(ec: u32) -> Seq<char> {
    if ec == 0x00 {
        "Unknown reason"@
    } else if ec == 0x03 {
        "Trapped CP15 MCR/MRC"@
    } else if ec == 0x07 {
        "SIMD/FP access trap (CPTR_EL2.TFP)"@
    } else if ec == 0x0E {
        "Illegal execution state"@
    } else if ec == 0x11 {
        "SVC from AArch32"@
    } else if ec == 0x12 {
        "HVC from AArch32"@
    } else if ec == 0x13 {
        "SMC from AArch32"@
    } else if ec == 0x15 {
        "SVC from AArch64"@
    } else if ec == 0x16 {
        "HVC from AArch64"@
    } else if ec == 0x17 {
        "SMC from AArch64"@
    } else if ec == 0x18 {
        "Trapped MSR/MRS/system instruction"@
    } else if ec == 0x20 {
        "Instruction abort from lower EL"@
    } else if ec == 0x21 {
        "Instruction abort from current EL"@
    } else if ec == 0x22 {
        "PC alignment fault"@
    } else if ec == 0x24 {
        "Data abort from lower EL"@
    } else if ec == 0x25 {
        "Data abort from current EL"@
    } else if ec == 0x26 {
        "SP alignment fault"@
    } else if ec == 0x3C {
        "BRK instruction"@
    } else {
        "other"@
    }
}

/// Names exception class `ec`.
pub fn describe_ec(ec: u32) -> (text: &'static str)
    ensures
        text@ == ec_text(ec),
{
    match ec {
        0x00 => "Unknown reason",
        0x03 => "Trapped CP15 MCR/MRC",
        0x07 => "SIMD/FP access trap (CPTR_EL2.TFP)",
        0x0E => "Illegal execution state",
        0x11 => "SVC from AArch32",
        0x12 => "HVC from AArch32",
        0x13 => "SMC from AArch32",
        0x15 => "SVC from AArch64",
        0x16 => "HVC from AArch64",
        0x17 => "SMC from AArch64",
        0x18 => "Trapped MSR/MRS/system instruction",
        0x20 => "Instruction abort from lower EL",
        0x21 => "Instruction abort from current EL",
        0x22 => "PC alignment fault",
        0x24 => "Data abort from lower EL",
        0x25 => "Data abort from current EL",
        0x26 => "SP alignment fault",
        0x3C => "BRK instruction",
        _ => "other",
    }
}

} // verus!
