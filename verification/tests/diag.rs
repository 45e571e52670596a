//! Diagnostics: watches, breakpoints, the tracer, timing, screenshots and log budgets.

use newton_hypervisor::alrt_capture;
use newton_hypervisor::alrt_capture::{AlrtCapture, Mapped};
use newton_hypervisor::arch::trap_context::TrapContext;
use newton_hypervisor::diag::blit_timing::{BlitReport, BlitTimer};
use newton_hypervisor::diag::off;
use newton_hypervisor::diag::off::TrapRegs;
use newton_hypervisor::diag::stall;
use newton_hypervisor::diag::stall::{Stall, Tag, KIND_IRQ, KIND_SYNC, KIND_WINDOW_TAIL};
use newton_hypervisor::diag::tracer;
use newton_hypervisor::diag::tracer::{
    depends_on_pc, encode_b, handle_trace_hvc, in_reserved_range, in_trampoline_pool, log_trace_at,
    mode_label, rewrite_first_insn, CallLine, TraceEvent, Tracer,
};
use newton_hypervisor::diag_util::{halt_unknown_subfn, LogBudget, SeenSet, TopK, TwoTierLog};
use newton_hypervisor::fb_dump;
use newton_hypervisor::fb_dump::{
    encode_png, force_dump_now, format_path, maybe_dump, png_outcome, write_chunk_at,
    write_idat_at, FbDump, PngError, FB_BYTES,
};
use newton_hypervisor::g1_capture;
use newton_hypervisor::g1_capture::G1Capture;
use newton_hypervisor::guest_bp::{
    any_installed, handle_user_bp_und, install_guest_bp, list_guest_bps, remove_guest_bp, BpTable,
    BP_UDF_INSN, DONE, ERR_ALREADY_PRESENT, ERR_NOT_ALIGNED, ERR_NOT_FOUND, ERR_OUT_OF_RANGE,
    ERR_TABLE_FULL,
};
use newton_hypervisor::guest_endian::guest_read_u32_pa;
use newton_hypervisor::guest_mem::{read_word_pa, write_word_pa, GuestMem, Region};
use newton_hypervisor::nhboot::crc::{adler32, crc32};

fn guest() -> GuestMem {
    GuestMem::new(vec![], false)
}

fn regs() -> TrapContext {
    let mut ctx = TrapContext { x: [0; 31] };
    for i in 0..31 {
        ctx.x[i] = 0xFFFF_FFFF_0000_0000 + 0x100 + i as u64;
    }
    ctx
}

#[test]
fn watch_notes_writes_and_rearms() {
    let mut mem = guest();
    assert!(write_word_pa(&mut mem, 0x0402_E7C4, 77));
    let mut c = AlrtCapture::new();
    assert!(!alrt_capture::is_armed_pa(&c, 0x0402_E000));
    assert_eq!(alrt_capture::maybe_rearm(&mut c), None);
    let (page, words) = alrt_capture::arm_at_boot(&mut c, &mem).unwrap();
    assert_eq!(page, 0x0402_E000);
    assert_eq!(words.len(), 16);
    assert_eq!(words[1], 77);
    assert!(alrt_capture::arm_at_boot(&mut c, &mem).is_none());
    assert!(alrt_capture::is_armed_pa(&c, 0x0402_EFFF));
    let hit = alrt_capture::note_perm_fault(&mut c, 0x1234, 0x0402_E7C8, Some(5), 3, 0x6000_0013);
    let hit = hit.unwrap();
    assert_eq!((hit.offset, hit.elr, hit.value, hit.srt, hit.mode), (0x7C8, 0x1234, Some(5), 3, 0x13));
    assert_eq!(alrt_capture::maybe_rearm(&mut c), Some(0x0402_E000));
    assert_eq!(alrt_capture::maybe_rearm(&mut c), None);
    // A write outside the reported part is not reported, and still rearms and takes
    // from the budget.
    assert!(alrt_capture::note_perm_fault(&mut c, 0, 0x0402_E800, None, 0, 0).is_none());
    assert_eq!(alrt_capture::maybe_rearm(&mut c), Some(0x0402_E000));
    assert!(alrt_capture::note_perm_fault(&mut c, 0, 0x0402_F7C8, None, 0, 0).is_none());
    assert_eq!(alrt_capture::dump_counters(&c), (0x0402_E000, 2, 1, 4094));
    c.budget = 0;
    assert!(alrt_capture::note_perm_fault(&mut c, 0, 0x0402_E7C8, None, 0, 0).is_none());
    assert_eq!(alrt_capture::maybe_rearm(&mut c), Some(0x0402_E000));
}

#[test]
fn watch_follows_the_mapping() {
    let mut c = AlrtCapture::new();
    assert_eq!(alrt_capture::maybe_arm_for_va(&mut c, 0x0CCA_4000, 0x0401_0000), Mapped::Unchanged);
    assert_eq!(
        alrt_capture::maybe_arm_for_va(&mut c, 0x0CCA_3123, 0x0401_0456),
        Mapped::Armed(0x0401_0000)
    );
    assert_eq!(alrt_capture::maybe_arm_for_va(&mut c, 0x0CCA_3000, 0x0401_0000), Mapped::Unchanged);
    assert_eq!(
        alrt_capture::maybe_arm_for_va(&mut c, 0x0CCA_3000, 0x0402_0000),
        Mapped::Remapped(0x0401_0000, 0x0402_0000)
    );
}

#[test]
fn page_table_watch() {
    let mut c = G1Capture::new();
    assert!(!g1_capture::is_armed_pa(&c, 0x0400_4000));
    assert_eq!(g1_capture::maybe_rearm(&mut c), Vec::<u32>::new());
    assert_eq!(g1_capture::arm(&mut c), [0x0400_4000, 0x0400_5000, 0x0400_6000]);
    assert!(g1_capture::is_armed_pa(&c, 0x0400_6FFF));
    assert!(!g1_capture::is_armed_pa(&c, 0x0400_7000));
    let hit = g1_capture::note_perm_fault(&mut c, 9, 0x0400_5010, Some(1), 2).unwrap();
    assert_eq!((hit.page, hit.offset, hit.elr, hit.value, hit.srt), (0x0400_5000, 0x10, 9, Some(1), 2));
    assert!(g1_capture::note_perm_fault(&mut c, 9, 0x0400_4000, None, 2).is_some());
    assert!(g1_capture::note_perm_fault(&mut c, 9, 0x0400_3000, None, 2).is_none());
    assert_eq!(g1_capture::maybe_rearm(&mut c), vec![0x0400_4000, 0x0400_5000]);
    for _ in 0..63 {
        assert!(g1_capture::note_perm_fault(&mut c, 9, 0x0400_4000, None, 2).is_some());
    }
    assert!(g1_capture::note_perm_fault(&mut c, 9, 0x0400_4000, None, 2).is_none());
    assert_eq!(g1_capture::maybe_rearm(&mut c), vec![0x0400_4000]);
}

#[test]
fn breakpoint_fires_once_and_restores() {
    let mut mem = guest();
    mem.set_word(Region::Rom, 0x1000, 0xE1A0_0000);
    let before = mem.rom.clone();
    let mut t = BpTable::new();
    assert_eq!(list_guest_bps(&t), "guest_bp: active breakpoints\n  (none)\n");
    assert_eq!(install_guest_bp(&mut t, &mut mem, 0x1000), 0);
    assert_eq!(read_word_pa(&mem, 0x1000), Some(BP_UDF_INSN));
    assert!(any_installed(&t));
    assert_eq!(
        list_guest_bps(&t),
        "guest_bp: active breakpoints\n  slot 0: ipa=0x00001000 orig=0xe1a00000\n"
    );
    assert!(handle_user_bp_und(&mut t, &mut mem, &regs(), 0x1004, 0x13, BP_UDF_INSN).is_none());
    assert!(handle_user_bp_und(&mut t, &mut mem, &regs(), 0x1000, 0x13, 0).is_none());
    let hit = handle_user_bp_und(&mut t, &mut mem, &regs(), 0x1000, 0x6000_0013, BP_UDF_INSN).unwrap();
    assert_eq!((hit.slot, hit.pc, hit.cpsr), (0, 0x1000, 0x6000_0013));
    assert_eq!((hit.regs[0], hit.regs[12], hit.sp, hit.lr), (0x100, 0x10C, 0x113, 0x112));
    assert_eq!(mem.rom, before);
    assert!(!any_installed(&t));
    assert!(handle_user_bp_und(&mut t, &mut mem, &regs(), 0x1000, 0x13, BP_UDF_INSN).is_none());
}

#[test]
fn breakpoint_refusals() {
    let mut mem = guest();
    let mut t = BpTable::new();
    assert_eq!(install_guest_bp(&mut t, &mut mem, 0x0100_0000), ERR_OUT_OF_RANGE);
    assert_eq!(install_guest_bp(&mut t, &mut mem, 0), ERR_OUT_OF_RANGE);
    assert_eq!(install_guest_bp(&mut t, &mut mem, 0x1002), ERR_NOT_ALIGNED);
    assert_eq!(remove_guest_bp(&mut t, &mut mem, 0x1000), ERR_NOT_FOUND);
    assert_eq!(remove_guest_bp(&mut t, &mut mem, 0), ERR_NOT_FOUND);
    for i in 0..16 {
        assert_eq!(install_guest_bp(&mut t, &mut mem, 0x1000 + 4 * i), i as i32);
    }
    assert_eq!(install_guest_bp(&mut t, &mut mem, 0x1000), ERR_ALREADY_PRESENT);
    assert_eq!(install_guest_bp(&mut t, &mut mem, 0x2000), ERR_TABLE_FULL);
    assert_eq!(remove_guest_bp(&mut t, &mut mem, 0x1014), DONE);
    assert_eq!(read_word_pa(&mem, 0x1014), Some(0));
    mem.set_word(Region::Rom, 0x2000, BP_UDF_INSN);
    assert_eq!(install_guest_bp(&mut t, &mut mem, 0x2000), ERR_ALREADY_PRESENT);
    assert_eq!(install_guest_bp(&mut t, &mut mem, 0x3000), 5);
}

#[test]
fn longest_stretch() {
    let tag = Tag { kind: 0, ec: 0, pc: 0 };
    let mut s = Stall { start: 0, tag, max_ticks: 0, max_tag: tag };
    assert_eq!(stall::take_max_us(&mut s, 1_000_000), None);
    stall::stretch_begin(&mut s, KIND_SYNC, 0xFF24, 0x1000, 100);
    stall::stretch_end(&mut s, 150);
    let guard = stall::trap_stretch(&mut s, KIND_IRQ, 0, 0x2000, 200);
    // The time in the window is not counted.
    stall::window_open(&mut s, 210);
    stall::window_close(&mut s, 10_000);
    guard.end(&mut s, 10_020);
    assert_eq!(stall::take_max_us(&mut s, 1_000_000), Some((50, KIND_SYNC, 0x24, 0x1000)));
    assert_eq!(stall::take_max_us(&mut s, 1_000_000), None);
    stall::window_close(&mut s, 0);
    stall::stretch_end(&mut s, 101);
    stall::stretch_end(&mut s, 1_000_000);
    assert_eq!(stall::take_max_us(&mut s, 0), Some((100_000_000, KIND_WINDOW_TAIL, 0, 0)));
    assert_eq!(stall::kind_label(KIND_SYNC), "sync");
    assert_eq!(stall::kind_label(KIND_IRQ), "irq");
}

#[test]
fn screen_update_times() {
    let mut t = BlitTimer::new();
    for i in 0..15 {
        assert!(t.record_since(0, i).is_none());
    }
    assert_eq!(
        t.record_since(0, 39),
        Some(BlitReport { n: 16, total_us: 144, avg_us: 9, max_us: 39 })
    );
    assert!(t == BlitTimer::new());
}

#[test]
fn tracer_ranges() {
    for a in [0u32, 0x1C, 0x00E0_0000, 0x00FF_FE00, 0x00FF_FF00, 0x00FF_FFEC, 0x4444] {
        assert!(in_reserved_range(a, &[0x4444]));
    }
    for a in [0x20u32, 0x008F_0000, 0x00FF_FFF0, 0x4448] {
        assert!(!in_reserved_range(a, &[0x4444]));
    }
    assert!(in_trampoline_pool(0x0090_0000));
    assert!(!in_trampoline_pool(0x00E0_0000));
    assert_eq!(mode_label(0x13), "svc");
    assert_eq!(mode_label(0x14), "???");
}

#[test]
fn tracer_branches() {
    assert_eq!(encode_b(0, 8), Some(0xEA00_0000));
    assert_eq!(encode_b(0x0090_0000, 0x1000), Some(0xEADC_03FE));
    assert_eq!(encode_b(0, 0x0200_0008), None);
    assert_eq!(encode_b(0, 0x0200_0004), Some(0xEA7F_FFFF));
    assert_eq!(encode_b(0, 10), None);
}

#[test]
fn displaced_instructions() {
    let mut mem = guest();
    mem.set_word(Region::Rom, 0x1010, 0x7856_3412);
    assert_eq!(rewrite_first_insn(&mem, 0xE59F_3008, 0x1000), Some((0xE59F_3000, 0x1234_5678)));
    assert_eq!(rewrite_first_insn(&mem, 0xE59F_F008, 0x1000), None);
    assert_eq!(rewrite_first_insn(&mem, 0xE59F_3008, 0x00FF_FFFC), None);
    assert_eq!(rewrite_first_insn(&mem, 0xEA00_0010, 0x1000), Some((0xE59F_F000, 0x1048)));
    assert_eq!(rewrite_first_insn(&mem, 0xEAFF_FFFE, 0x1000), Some((0xE59F_F000, 0x1000)));
    assert_eq!(rewrite_first_insn(&mem, 0xE28F_0C01, 0x1000), Some((0xE59F_0000, 0x1108)));
    assert_eq!(rewrite_first_insn(&mem, 0xE24F_1004, 0x1000), Some((0xE59F_1000, 0x1004)));
    assert_eq!(rewrite_first_insn(&mem, 0xE28F_F004, 0x1000), None);
    // Conditional branches and loads, BL, MOV r0, pc, ADDS, ADD with a register, LDR with a
    // negative or a register offset, LDRB, a store of PC, and BLX to a label.
    for orig in [
        0x0A00_0010u32, 0x059F_3008, 0x128F_0004, 0xEB00_0010, 0xE1A0_000F, 0xE29F_0004,
        0xE08F_0001, 0xE51F_3008, 0xE79F_3001, 0xE5DF_3008, 0xE58D_F000, 0xFA00_0000,
    ] {
        assert_eq!(rewrite_first_insn(&mem, orig, 0x1000), None, "{:#x}", orig);
        assert!(depends_on_pc(orig));
    }
    // Pushes, one with PC too, moves, MOV pc, lr, BX lr, BLX r1, a conditional move, status and
    // coprocessor transfers, a load into PC off the stack, and a supervisor call stay as they are.
    for orig in [
        0xE92D_4010u32, 0xE92D_D800, 0xE12F_FF31, 0xE1A0_C00D, 0xE24D_D010, 0xE3A0_00FF,
        0xE3E0_0000, 0xE1A0_F00E, 0xE12F_FF1E, 0x03A0_0001, 0xE10F_0000, 0xE129_F000, 0xE321_F0D3, 0xEE01_0F10, 0xEE11_0F10,
        0xE52D_E004, 0xE49D_F004, 0xE8BD_8010, 0xEF00_000F, 0xE000_0291, 0xE1D0_00B0,
    ] {
        assert_eq!(rewrite_first_insn(&mem, orig, 0x1000), Some((orig, 0)), "{:#x}", orig);
        assert!(!depends_on_pc(orig));
    }
}

#[test]
fn traced_functions() {
    let mut mem = guest();
    mem.set_word(Region::Rom, 0x1000, 0xE92D_4010);
    mem.set_word(Region::Rom, 0x2000, 0xE59F_F000);
    let mut t = Tracer::new(false, 3);
    let fns = [0x10, 0x1000, 0x2000];
    let stats = tracer::init(&mut t, &mut mem, &fns, 0xE140_0172, &[]).unwrap();
    assert_eq!((stats.considered, stats.patched), (3, 1));
    assert_eq!((stats.skipped_reserved, stats.skipped_rewrite, stats.skipped_b_reach), (1, 1, 0));
    assert!(tracer::init(&mut t, &mut mem, &fns, 0xE140_0172, &[]).is_none());
    // The function branches to its slot; the slot runs the displaced instruction and goes on.
    assert_eq!(read_word_pa(&mem, 0x1000), encode_b(0x1000, 0x0090_0014));
    assert_eq!(read_word_pa(&mem, 0x0090_0014), Some(0xE140_0172));
    assert_eq!(read_word_pa(&mem, 0x0090_0018), Some(0xE92D_4010));
    assert_eq!(read_word_pa(&mem, 0x0090_001C), Some(0xE59F_F000));
    assert_eq!(read_word_pa(&mem, 0x0090_0024), Some(0x0410_0000));
    assert_eq!(read_word_pa(&mem, 0x2000), Some(0xE59F_F000));
    assert_eq!(guest_read_u32_pa(&mem, 0x0090_0018), Some(0xE92D_4010));
}

#[test]
fn traced_calls() {
    let fns = [0x1000u32, 0x2000];
    let mut t = Tracer::new(true, 2);
    let e = handle_trace_hvc(&mut t, &regs(), &fns, 0x0090_0018, 0x13);
    match e {
        TraceEvent::Call(c) => assert!(
            c == CallLine {
                seq: 1,
                idx: 1,
                addr: 0x2000,
                mode: 0x13,
                r0: 0x100,
                r1: 0x101,
                r2: 0x102,
                r3: 0x103,
                lr: 0x112,
            }
        ),
        _ => panic!("no call"),
    }
    assert!(matches!(log_trace_at(&mut t, &regs(), &fns, 0x0090_0014, 0x13), TraceEvent::Shown));
    assert!(matches!(log_trace_at(&mut t, &regs(), &fns, 0x0080_0000, 0x13), TraceEvent::OutsidePool));
    assert!(matches!(log_trace_at(&mut t, &regs(), &fns, 0x0090_0004, 0x13), TraceEvent::NotAligned(4)));
    assert!(matches!(log_trace_at(&mut t, &regs(), &fns, 0x0090_0028, 0x13), TraceEvent::NoFunction(2)));
    assert_eq!(t.seq, 2);
}

#[test]
fn guest_output_comes_in_lines() {
    let fns = [0x0034_F7E0u32];
    let mut t = Tracer::new(false, 1);
    let mut lines = Vec::new();
    for b in b"hi there\r\nsecond\n" {
        let mut ctx = regs();
        ctx.x[0] = 0xAB00 + *b as u64;
        match handle_trace_hvc(&mut t, &ctx, &fns, 0x0090_0004, 0x10) {
            TraceEvent::Output(Some(o)) => lines.push((o.text, o.first_seq, o.seq, o.lr)),
            TraceEvent::Output(None) => {}
            _ => panic!("not output"),
        }
    }
    assert_eq!(lines.len(), 2);
    assert_eq!(lines[0], (b"hi there".to_vec(), 1, 9, 0x10E));
    assert_eq!(lines[1].0, b"second".to_vec());
    for _ in 0..511 {
        let mut ctx = regs();
        ctx.x[0] = b'x' as u64;
        assert!(matches!(
            handle_trace_hvc(&mut t, &ctx, &fns, 0x0090_0004, 0x10),
            TraceEvent::Output(None)
        ));
    }
    let mut ctx = regs();
    ctx.x[0] = b'x' as u64;
    match handle_trace_hvc(&mut t, &ctx, &fns, 0x0090_0004, 0x10) {
        TraceEvent::Output(Some(o)) => assert_eq!(o.text.len(), 512),
        _ => panic!("full line kept"),
    }
}

#[test]
fn reports_without_diagnostics() {
    let r = TrapRegs { elr: 0x1000, spsr: 0x13, esr: 0x1_0000_0000, far: 0 };
    let text = off::handle_diag(&regs(), r);
    assert!(text.starts_with(
        "\n*** DIAG vector intercept (diagnostics stubbed out; rebuild with feature `diag` for \
         the full dump) ***\n  ELR_EL2=0x00001000 SPSR_EL2=0x00000013 ESR_EL2=0x100000000 \
         FAR_EL1=0x00000000\n  r0 =0x00000100 r1 =0x00000101"
    ));
    assert!(text.ends_with(" r14=0x0000010e\n"));
    assert!(off::handle_loud_halt(&regs(), r).starts_with("\n*** LoudHalt canary fired ("));
    assert!(off::handle_unhandled_exception(&regs(), true, r)
        .starts_with("\n*** kernel reached UnhandledNonUserModeException ("));
    assert!(off::handle_unhandled_exception(&regs(), false, r)
        .starts_with("\n*** kernel reached UnhandledException ("));
    assert_eq!(off::basic_halt_dump("DIAG vector intercept", &regs(), r), text);
    assert_eq!(off::pretty_print_ref_inline(0x1A2, 3), "#1a2");
    let mut ctx = regs();
    assert!(!off::any_installed() && !off::handle_user_bp_und(&mut ctx, 0x1000, 0, BP_UDF_INSN));
    assert_eq!(ctx.x, regs().x);
    let mut buf = vec![1u8, 2];
    assert_eq!(off::render_into(&mut buf, 0x1000, off::VaArgs::new(1, 2, 3)), 0);
    assert_eq!(buf, vec![1, 2]);
    assert_eq!((off::begin(), off::take_max_us(), off::kind_label(1)), (0, None, "?"));
    assert_eq!((off::periodic(&ctx), off::cp15_key(0, 1, 0, 0, true), off::sync_count()), (false, 0, 0));
}

#[test]
fn screenshots_wait_for_rest() {
    let fb = vec![0u8; FB_BYTES];
    let mut d =
        FbDump { dirty: false, deadline_ticks: 0, dump_seq: 7, dir_made: false, guest_test: false };
    assert!(maybe_dump(&mut d, 1000, &fb).is_none());
    fb_dump::mark_dirty(&mut d, 0, 100);
    fb_dump::mark_dirty(&mut d, 50, 100);
    assert!(maybe_dump(&mut d, 149, &fb).is_none());
    let job = maybe_dump(&mut d, 150, &fb).unwrap();
    assert!(job.make_dir);
    assert_eq!(job.path, b"/tmp/newton-fb/00007.png\0".to_vec());
    assert_eq!(job.data, encode_png(&fb));
    assert!(maybe_dump(&mut d, 9999, &fb).is_none());
    let job = force_dump_now(&mut d, &fb).unwrap();
    assert!(!job.make_dir);
    assert_eq!(format_path(99_999), b"/tmp/newton-fb/99999.png\0".to_vec());
    assert_eq!(job.path, b"/tmp/newton-fb-99999.png\0".to_vec());
    assert_eq!(d.dump_seq, 8);
    d.guest_test = true;
    fb_dump::mark_dirty(&mut d, 0, 100);
    assert!(!d.dirty);
    assert!(force_dump_now(&mut d, &fb).is_none());
    assert_eq!(png_outcome(-1, 0, 9), Err(PngError::OpenFailed));
    assert_eq!(png_outcome(3, 1, 9), Err(PngError::ShortWrite));
    assert_eq!(png_outcome(3, 0, 9), Ok(9));
}

#[test]
fn screenshot_files() {
    let fb: Vec<u8> = (0..FB_BYTES).map(|i| (i % 253) as u8).collect();
    let png = encode_png(&fb);
    assert_eq!(png.len(), 19_748);
    assert_eq!(&png[..8], b"\x89PNG\r\n\x1a\n");
    assert_eq!(&png[8..16], b"\0\0\0\x0dIHDR");
    assert_eq!(&png[16..26], &[0, 0, 1, 0x40, 0, 0, 1, 0xE0, 1, 0]);
    assert_eq!(&png[37..41], b"IDAT");
    assert_eq!(&png[41..48], &[0x78, 0x01, 0x01, 0xE0, 0x4C, 0x1F, 0xB3]);
    for (row, j) in [(0usize, 0usize), (0, 39), (17, 5), (479, 39)] {
        assert_eq!(png[48 + 41 * row], 0);
        assert_eq!(png[48 + 41 * row + 1 + j], !fb[40 * row + j]);
    }
    let payload = &png[48..48 + 19_680];
    assert_eq!(&png[19_728..19_732], &adler32(payload).to_be_bytes());
    assert_eq!(&png[19_732..19_736], &crc32(&png[37..19_732]).to_be_bytes());
    assert_eq!(&png[19_736..], b"\0\0\0\0IEND\xae\x42\x60\x82");
    let mut out = Vec::new();
    write_chunk_at(&mut out, b"IEND", &[]);
    assert_eq!(&png[19_736..], out.as_slice());
    let mut out = Vec::new();
    write_idat_at(&mut out, &fb);
    assert_eq!(&png[33..19_736], out.as_slice());
}

#[test]
fn seen_keys() {
    let mut s: SeenSet<u32, 2> = SeenSet::new(0);
    assert!(s.first_time(5));
    assert!(!s.first_time(5));
    assert!(s.first_time(6));
    assert!(!s.first_time(7));
    assert!(!s.contains(7));
    assert!(s.contains(6));
    assert!(!s.insert(8));
}

#[test]
fn first_distinct_keys_are_reported() {
    let mut s: SeenSet<u32, 3> = SeenSet::new(9);
    let stream = [9u32, 4, 9, 4, 7, 1, 7, 9];
    let first: Vec<bool> = stream.iter().map(|k| s.first_time(*k)).collect();
    assert_eq!(first, vec![true, true, false, false, true, false, false, false]);
    assert!(s.contains(9) && s.contains(4) && s.contains(7) && !s.contains(1));
}

#[test]
fn frequent_keys() {
    let mut t: TopK<2> = TopK::new();
    let stream = [1u32, 1, 1, 2, 3, 1, 1, 4, 2];
    for k in stream {
        t.record(k);
    }
    let top = t.snapshot_sorted();
    assert_eq!(top[0].0, 1);
    // Never over the true count, and under it by no more than the stream allows.
    assert!(top[0].1 <= 5 && 5 <= top[0].1 + 9 / 3);
    assert!(top[0].1 >= top[1].1);
    t.reset();
    assert_eq!(t.snapshot_sorted(), vec![(0, 0), (0, 0)]);
    t.record(9);
    t.record(8);
    t.record(8);
    assert_eq!(t.snapshot_sorted(), vec![(8, 2), (9, 1)]);
    t.record(7);
    assert_eq!(t.snapshot_sorted()[0], (8, 1));
}

#[test]
fn log_budgets() {
    let mut b = LogBudget::new(2);
    assert_eq!([b.allow(), b.allow(), b.allow()], [true, true, false]);
    let mut b = LogBudget::new(1);
    let let_through: Vec<usize> = (0..10).filter(|_| b.allow_or_every(4)).collect();
    assert_eq!(let_through, vec![0, 4, 8]);
    let mut b = LogBudget::new(1);
    assert_eq!([b.allow_or_every(0), b.allow_or_every(0)], [true, false]);
    let mut t = TwoTierLog::new(1, 1);
    assert_eq!([t.expected(), t.expected(), t.unknown(), t.unknown()], [true, false, true, false]);
    assert_eq!(
        halt_unknown_subfn("sound", 0x1F, 0x1000, 1, 2, 3, 0xFF),
        "\n*** sound: unknown subfn 0x1f @PC=0x1000 r0=0x1 r1=0x2 r2=0x3 r3=0xff\n    \
         (extend peripherals/sound.rs::handle to add this subfn)\n"
    );
}
