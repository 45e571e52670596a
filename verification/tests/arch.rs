//! Instruction encoders, condition codes, shifts and banked registers.

use newton_hypervisor::arch::aarch32_emit::{b, b_cond, ldr_rd_lit, COND_AL, COND_EQ, COND_NE};
use newton_hypervisor::arch::arm_decode::{aarch32_mode_name, arm_cond_passed, arm_shift};
use newton_hypervisor::arch::banked::{
    ctx_slot_for_reg, lr_for_mode, lr_slot_for_mode, sp_for_mode, sp_slot_for_mode, MODE_ABT,
    MODE_FIQ, MODE_IRQ, MODE_SVC, MODE_SYS, MODE_UND, MODE_USR,
};
use newton_hypervisor::arch::trap_context::{advance_elr, describe_ec, TrapContext};

const N: u32 = 1 << 31;
const Z: u32 = 1 << 30;
const C: u32 = 1 << 29;
const V: u32 = 1 << 28;

#[test]
fn branch_encodings() {
    assert_eq!(b(0, 8), 0xEA00_0000);
    assert_eq!(b(0, 0), 0xEAFF_FFFE);
    assert_eq!(b_cond(0, 0, COND_EQ), 0x0AFF_FFFE);
    assert_eq!(b_cond(0, 0, COND_NE), 0x1AFF_FFFE);
    assert_eq!(b(0x008F_FF78, 0x00FF_FFA8), 0xEA1C_000A);
    assert_eq!(b(0x04, 0x00FF_FEC0), 0xEA3F_FFAD);
    assert_eq!(b_cond(0x100, 0x100, COND_NE), 0x1AFF_FFFE);
    assert_eq!(b_cond(0x100, 0x10C, COND_EQ), 0x0A00_0001);
    assert_eq!(b_cond(0x100, 0x10C, COND_AL), b(0x100, 0x10C));
}

#[test]
fn branch_comes_back_to_its_target() {
    for (src, target) in [(0u32, 0x01FF_FFFCu32), (0x0200_0000, 0x0000_0010), (0x18, 0x0039_3114)] {
        let insn = b(src, target);
        let imm = ((insn & 0x00FF_FFFF) << 8) as i32 >> 8;
        assert_eq!(src.wrapping_add(8).wrapping_add((imm as u32) << 2), target);
        assert_eq!(insn >> 28, COND_AL);
    }
}

#[test]
fn literal_load_encodings() {
    assert_eq!(ldr_rd_lit(0, 0, 16), 0xE59F_0008);
    assert_eq!(ldr_rd_lit(0, 12, 16), 0xE59F_C008);
    assert_eq!(ldr_rd_lit(0, 15, 4), 0xE51F_F004);
    assert_eq!(ldr_rd_lit(0x1000, 12, 0x1010), 0xE59F_C008);
    assert_eq!(ldr_rd_lit(0x1000, 3, 0x0FFC), 0xE51F_300C);
    assert_eq!(ldr_rd_lit(0x00FF_FFE4, 14, 0x00FF_FFEC), 0xE59F_E000);
}

#[test]
fn conditions() {
    assert!(arm_cond_passed(0x0, Z));
    assert!(!arm_cond_passed(0x0, 0));
    assert!(arm_cond_passed(0x2, C));
    assert!(arm_cond_passed(0x4, N));
    assert!(arm_cond_passed(0x6, V));
    assert!(arm_cond_passed(0x8, C));
    assert!(!arm_cond_passed(0x8, C | Z));
    assert!(arm_cond_passed(0x9, C | Z));
    assert!(arm_cond_passed(0xA, N | V));
    assert!(arm_cond_passed(0xB, N));
    assert!(arm_cond_passed(0xC, 0));
    assert!(!arm_cond_passed(0xC, Z));
    assert!(arm_cond_passed(0xD, Z));
    assert!(arm_cond_passed(0xE, 0));
    assert!(arm_cond_passed(0xF, 0));
}

#[test]
fn odd_conditions_negate_even_ones() {
    for flags in 0..16u32 {
        let cpsr = flags << 28 | 0x13;
        for k in 0..7u32 {
            assert_eq!(arm_cond_passed(2 * k, cpsr), !arm_cond_passed(2 * k + 1, cpsr));
        }
    }
}

#[test]
fn shifts() {
    assert_eq!(arm_shift(0x8000_0001, 0, 1, 0), 2);
    assert_eq!(arm_shift(0x8000_0001, 0, 0, 0), 0x8000_0001);
    assert_eq!(arm_shift(1, 0, 32, 0), 0);
    assert_eq!(arm_shift(0x8000_0000, 1, 31, 0), 1);
    assert_eq!(arm_shift(0xFFFF_FFFF, 1, 0, 0), 0);
    assert_eq!(arm_shift(0x8000_0000, 2, 4, 0), 0xF800_0000);
    assert_eq!(arm_shift(0x8000_0000, 2, 0, 0), 0xFFFF_FFFF);
    assert_eq!(arm_shift(0x7FFF_FFFF, 2, 40, 0), 0);
    assert_eq!(arm_shift(0x0000_0001, 3, 1, 0), 0x8000_0000);
    assert_eq!(arm_shift(0x1234_5678, 3, 32, 0), 0x1234_5678);
    assert_eq!(arm_shift(0x0000_0003, 3, 0, C), 0x8000_0001);
    assert_eq!(arm_shift(0x0000_0003, 3, 0, 0), 0x0000_0001);
}

#[test]
fn mode_names() {
    let names = [
        (0x10, "usr"),
        (0x11, "fiq"),
        (0x12, "irq"),
        (0x13, "svc"),
        (0x16, "mon"),
        (0x17, "abt"),
        (0x1A, "hyp"),
        (0x1B, "und"),
        (0x1F, "sys"),
        (0x00, "???"),
        (0x6000_0093, "svc"),
    ];
    for (mode, name) in names {
        assert_eq!(aarch32_mode_name(mode), name);
    }
}

#[test]
fn banked_slots() {
    let banks = [
        (MODE_USR, 13, 14),
        (MODE_SYS, 13, 14),
        (MODE_IRQ, 17, 16),
        (MODE_SVC, 19, 18),
        (MODE_ABT, 21, 20),
        (MODE_UND, 23, 22),
        (MODE_FIQ, 29, 30),
    ];
    for (mode, sp, lr) in banks {
        assert_eq!(sp_slot_for_mode(mode), sp);
        assert_eq!(lr_slot_for_mode(mode), lr);
        assert_eq!(ctx_slot_for_reg(13, mode), sp);
        assert_eq!(ctx_slot_for_reg(14, mode), lr);
    }
    assert_eq!(ctx_slot_for_reg(8, MODE_FIQ), 24);
    assert_eq!(ctx_slot_for_reg(12, MODE_FIQ), 28);
    assert_eq!(ctx_slot_for_reg(8, MODE_SVC), 8);
}

#[test]
fn registers_of_a_mode_have_slots_of_their_own() {
    for mode in [MODE_USR, MODE_IRQ, MODE_SVC, MODE_ABT, MODE_UND, MODE_FIQ] {
        for i in 0..15u32 {
            for j in 0..i {
                assert_ne!(ctx_slot_for_reg(i, mode), ctx_slot_for_reg(j, mode));
            }
        }
    }
}

#[test]
fn banked_reads_keep_the_low_half() {
    let mut ctx = TrapContext { x: [0; 31] };
    ctx.x[19] = 0xFFFF_FFFF_0400_1234;
    ctx.x[18] = 0x1111_2222_0039_3114;
    assert_eq!(sp_for_mode(&ctx, 0x93), 0x0400_1234);
    assert_eq!(lr_for_mode(&ctx, 0x93), 0x0039_3114);
}

#[test]
fn exception_classes() {
    assert_eq!(advance_elr(0x1000, 4), 0x1004);
    assert_eq!(describe_ec(0x00), "Unknown reason");
    assert_eq!(describe_ec(0x12), "HVC from AArch32");
    assert_eq!(describe_ec(0x24), "Data abort from lower EL");
    assert_eq!(describe_ec(0x3C), "BRK instruction");
    assert_eq!(describe_ec(0x3D), "other");
}
