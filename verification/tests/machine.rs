//! The processor's control registers, cache lines, delays and the framebuffer.

use newton_hypervisor::cpu::{
    check_stack_guard, core_id, current_el, dc_civac_range, delay_ms, delay_over,
    icache_publish_range, STACK_GUARD_MAGIC,
};
use newton_hypervisor::display::fb::{
    alloc_fb, alloc_native, fill_h_gradient, fill_solid, FbAllocation, FbError, FbInfo,
};
use newton_hypervisor::display::probe;
use newton_hypervisor::guest::{
    configure_el2_traps, eret_to_guest, eret_to_restored, run_newton_rom, set_dc_for_stage1_off,
    zero_el1_guest_state, RestoreState, HCR_DC,
};
use newton_hypervisor::nhboot::mailbox::MailboxError;

#[test]
fn trap_controls() {
    let t = configure_el2_traps(0x8000_0001, 0x33FF);
    assert_eq!(t.hcr, 0x0450_1039);
    assert_eq!(t.cptr, 0x37FF);
    assert_eq!(t.fpexc32, 0x4000_0000);
    assert_eq!(t.vpidr, 0x4401_A100);
    assert_eq!(set_dc_for_stage1_off(0, true), HCR_DC);
    assert_eq!(set_dc_for_stage1_off(0x1001, false), 1);
    assert_eq!(set_dc_for_stage1_off(set_dc_for_stage1_off(5, false), true), 5 | HCR_DC);
}

#[test]
fn cold_entry() {
    let e = eret_to_guest(0x40, false, 0, 0);
    assert_eq!((e.elr, e.spsr), (0x40, 0x3D3));
    assert!(e.el1 == zero_el1_guest_state(false));
    assert_eq!(e.el1.sctlr, 0x0300_0000);
    let e = run_newton_rom(true, 0, 0);
    assert_eq!((e.elr, e.spsr, e.el1.sctlr, e.el1.cpacr), (0, 0x1D3, 0, 0x00F0_0000));
    assert!(e.traps == configure_el2_traps(0, 0));
}

#[test]
fn entry_from_a_snapshot() {
    let mut gprs = [0u32; 31];
    gprs[30] = 0xFFFF_FFFF;
    let state = RestoreState { gprs, pc: 0x1234, cpsr: 0x6000_0013 };
    let on = eret_to_restored(&state, 1, 0, 0);
    assert_eq!(on.traps.hcr & HCR_DC, 0);
    assert_eq!((on.elr, on.spsr, on.gprs[30]), (0x1234, 0x6000_0013, 0xFFFF_FFFF));
    let off = eret_to_restored(&state, 0, 0, 0);
    assert_eq!(off.traps.hcr & HCR_DC, HCR_DC);
}

#[test]
fn processor_registers() {
    assert_eq!(current_el(0x8), 2);
    assert_eq!(current_el(0xFFFF_FFF4), 1);
    assert_eq!(core_id(0x8000_0103), 3);
    assert!(check_stack_guard(STACK_GUARD_MAGIC).is_none());
    assert_eq!(
        check_stack_guard(0xAB).unwrap(),
        "*** EL2 STACK OVERFLOW: guard canary = 0x00000000000000ab, expected \
         0x53544b4755415244 — the EL2 stack has descended into its guard word; halting."
    );
}

#[test]
fn cache_lines_cover_the_range() {
    assert_eq!(icache_publish_range(0x1000, 64), vec![0x1000]);
    assert_eq!(dc_civac_range(0x103F, 2), vec![0x1000, 0x1040]);
    assert_eq!(dc_civac_range(0x1010, 1), vec![0x1000]);
    assert_eq!(dc_civac_range(0x1000, 0), Vec::<u64>::new());
    assert_eq!(dc_civac_range(0x1020, 200).len(), 4);
}

#[test]
fn delays() {
    assert_eq!(delay_ms(100, 19_200_000, 5), 96_100);
    assert_eq!(delay_ms(u64::MAX, 1000, 1), 0);
    assert!(!delay_over(95_999, 96_100));
    assert!(delay_over(96_100, 96_100));
    assert!(delay_over(1, u64::MAX));
}

#[test]
fn framebuffer_allocation() {
    let r = alloc_native(Ok((1920, 1080))).unwrap();
    assert_eq!((r.width, r.height, r.depth, r.pixel_order, r.align), (1920, 1080, 32, 1, 4096));
    assert_eq!(alloc_native(Ok((0, 1080))).unwrap().width, 1024);
    assert_eq!(alloc_native(Ok((5, 0))).unwrap().height, 768);
    assert!(alloc_native(Err(MailboxError::Timeout)) == Err(FbError::Mailbox(MailboxError::Timeout)));
    let a = FbAllocation { bus_addr: 0xFE00_1000, size: 640, width: 16, height: 10, pitch: 64, depth: 32 };
    let info = alloc_fb(Ok(a)).unwrap();
    assert_eq!((info.pa, info.width, info.height, info.pitch, info.bpp, info.size), (0x3E00_1000, 16, 10, 64, 32, 640));
    assert!(alloc_fb(Ok(FbAllocation { bus_addr: 0, ..a })) == Err(FbError::EmptyAllocation));
    assert!(alloc_fb(Ok(FbAllocation { size: 0, ..a })) == Err(FbError::EmptyAllocation));
    assert!(
        alloc_fb(Err(MailboxError::FirmwareError))
            == Err(FbError::Mailbox(MailboxError::FirmwareError))
    );
}

#[test]
fn fills_keep_to_the_picture() {
    let info = FbInfo { pa: 0x1000, width: 3, height: 2, pitch: 16, bpp: 32, size: 32 };
    let mut words = vec![7u32; 10];
    fill_solid(&info, &mut words, 9);
    assert_eq!(words, vec![9, 9, 9, 7, 9, 9, 9, 7, 7, 7]);
    fill_h_gradient(&info, &mut words, 0xFF00_00FF, 0x0000_FF00);
    assert_eq!(words, vec![
        0xFF00_00FF, 0x7F00_7F7F, 0x0000_FF00, 7, 0xFF00_00FF, 0x7F00_7F7F, 0x0000_FF00, 7, 7, 7,
    ]);
    let mut words = vec![0u32; 8];
    assert_eq!(probe::run(&info, &mut words), "fb: 3x2 32 bpp pitch=16 pa=0x1000 size=32");
    assert_eq!((words[0], words[2]), (0xFF, 0xFF00));
}
