//! Objects in the guest's memory: rendering, the heap probes, the message ring, and the
//! reports of a halt.

use newton_hypervisor::arch::trap_context::TrapContext;
use newton_hypervisor::diag::heap_check as probe_heap;
use newton_hypervisor::diag::trap_diag::{
    dump_tstacks_and_check_invariants, find_frame_seed, handle_diag, handle_loud_halt,
    handle_unhandled_exception, read_cstr_at, sync_trap_beacon, Controls, DabtSave, DiagRegs,
    LoudSite, LoudSites, Run, Syndrome, TStackError,
};
use newton_hypervisor::dosend_ring;
use newton_hypervisor::dosend_ring::DosendRing;
use newton_hypervisor::guest_endian::{guest_read_u32_va, guest_write_u32_pa, guest_write_u32_va};
use newton_hypervisor::guest_mem::{write_pt_entry, GuestMem, Region};
use newton_hypervisor::heap_check::{
    classify_ptr, dump_object, force_interpreter_trace_on, force_kernel_diag_on, heap_bounds,
    log_heap_bounds_once, log_ref, pretty_print_ref, pretty_print_ref_inline, HeapCheck, PtrLoc,
    TraceSet,
};
use newton_hypervisor::ref_printer::{
    follow, read_obj_header, read_symbol_name_into, resolve_forwarding, resolve_slot_name_into,
    write_binary_at, write_char_literal, write_ref, write_squirrely_at, write_string_body_at,
    write_string_char, write_symbol_name_at, End, ObjHeader,
};

const HEAP: u32 = 0x0CC0_0000;
const SYM_STRING: u32 = HEAP + 0x101;
const SYM_FOO: u32 = HEAP + 0x201;
const STRING: u32 = HEAP + 0x301;
const ARRAY: u32 = HEAP + 0x401;
const MAP: u32 = HEAP + 0x501;
const FRAME: u32 = HEAP + 0x601;
const MOVED: u32 = HEAP + 0x701;

fn poke(mem: &mut GuestMem, va: u32, words: &[u32]) {
    for (i, w) in words.iter().enumerate() {
        assert!(guest_write_u32_va(mem, va + 4 * i as u32, *w));
    }
}

/// A guest with its kernel globals and an object heap mapped, and some objects in it.
fn guest() -> GuestMem {
    let mut mem = GuestMem::new(vec![], false);
    write_pt_entry(&mut mem, Region::Ram, 4 * 0x0C1, 0x0410_0C0E);
    write_pt_entry(&mut mem, Region::Ram, 4 * 0x0CC, 0x0420_0C0E);
    mem.mmu_on = true;
    poke(&mut mem, SYM_STRING - 1, &[0x1740, 0, 0x55552, 0x1234, 0x7374_7269, 0x6E67_0000]);
    poke(&mut mem, SYM_FOO - 1, &[0x1440, 0, 0x55552, 0x5678, 0x666F_6F00]);
    poke(&mut mem, STRING - 1, &[0x1440, 0, SYM_STRING, 0x0048_0069, 0x0022_0000]);
    poke(&mut mem, ARRAY - 1, &[0x1C41, 0, SYM_FOO, 20, 0x02, 0x1A, 0x41A]);
    poke(&mut mem, MAP - 1, &[0x1441, 0, 0, 0x02, SYM_FOO]);
    poke(&mut mem, FRAME - 1, &[0x1043, 0, MAP, STRING]);
    poke(&mut mem, MOVED - 1, &[0x1420, 0, STRING]);
    mem
}

fn with_heap() -> GuestMem {
    let mut mem = guest();
    poke(&mut mem, 0x0C10_5548, &[0x0C10_6000]);
    poke(&mut mem, 0x0C10_6008, &[HEAP, HEAP + 0x8000]);
    mem
}

fn shown(mem: &GuestMem, r: u32, depth: u32) -> String {
    pretty_print_ref_inline(mem, r, depth)
}

#[test]
fn immediates_are_rendered() {
    let mem = guest();
    assert_eq!(shown(&mem, 20, 0), "5");
    assert_eq!(shown(&mem, (-3i32 << 2) as u32, 0), "-3");
    assert_eq!(shown(&mem, 0x02, 3), "nil");
    assert_eq!(shown(&mem, 0x1A, 3), "true");
    assert_eq!(shown(&mem, 0x41A, 3), "$A");
    assert_eq!(shown(&mem, (0x20AC << 4) | 0xA, 3), "$\\u20ac");
    assert_eq!(shown(&mem, (7 << 2) | 3, 3), "@0.7");
}

#[test]
fn objects_are_rendered() {
    let mem = guest();
    assert_eq!(shown(&mem, SYM_FOO, 1), "'foo");
    assert_eq!(shown(&mem, STRING, 1), "\"Hi\\\"\"");
    assert_eq!(shown(&mem, ARRAY, 1), "[5, nil, true, $A]");
    assert_eq!(shown(&mem, FRAME, 1), "{foo: #cc00301}");
    assert_eq!(shown(&mem, FRAME, 2), "{foo: \"Hi\\\"\"}");
    assert_eq!(pretty_print_ref(&mem, "x", FRAME, 0), "x: #cc00601\n");
    assert_eq!(pretty_print_ref(&mem, "", ARRAY, 1), "[5, nil, true, $A]\n");
    assert_eq!(probe_heap::pretty_print_ref_inline(&mem, FRAME, 2), "{foo: \"Hi\\\"\"}");
    let mut out = String::from("= ");
    write_ref(&mut out, &mem, FRAME, 2);
    assert_eq!(out, "= {foo: \"Hi\\\"\"}");
}

#[test]
fn unexpanded_pointers_read_no_memory() {
    let mem = guest();
    let empty = GuestMem::new(vec![], false);
    assert_eq!(shown(&mem, FRAME, 0), shown(&empty, FRAME, 0));
}

#[test]
fn moved_objects_are_followed() {
    let mut mem = guest();
    assert_eq!(shown(&mem, MOVED, 1), "→\"Hi\\\"\"");
    let f = follow(&mem, MOVED - 1, MOVED);
    assert_eq!((f.hops, f.addr, f.ref_value), (1, STRING - 1, STRING));
    assert!(f.end == End::Found(ObjHeader { size: 20, flags: 0x40, class_or_map: SYM_STRING }));
    assert!(resolve_forwarding(&mem, MOVED - 1).unwrap().0 == STRING - 1);
    assert!(read_obj_header(&mem, STRING - 1) == resolve_forwarding(&mem, MOVED - 1).map(|r| r.1));
    // A move to itself is given up on.
    poke(&mut mem, MOVED - 1, &[0x1420, 0, MOVED]);
    assert_eq!(shown(&mem, MOVED, 1), "→→→→→→→→→ <fwd-loop?>");
    assert!(resolve_forwarding(&mem, MOVED - 1).is_none());
    poke(&mut mem, MOVED - 1, &[0x1420, 0, 20]);
    assert_eq!(shown(&mem, MOVED, 1), "→5");
    assert!(follow(&mem, 0x2000_0000, 1).end == End::Unreadable);
}

#[test]
fn senseless_objects_are_shown_raw() {
    let mut mem = guest();
    poke(&mut mem, HEAP + 0x800, &[0x0B40, 1, 2, 3, 4, 5, 6, 7]);
    assert_eq!(
        shown(&mem, HEAP + 0x801, 1),
        "<? #cc00801 [00000b40 00000001 00000002 00000003 00000004 00000005 00000006 00000007]>"
    );
    assert!(shown(&mem, 0x2000_0001, 1).starts_with("<? #20000001 [-------- "));
    let mut out = String::new();
    write_squirrely_at(&mut out, &mem, HEAP + 0x800, HEAP + 0x801);
    assert_eq!(out, shown(&mem, HEAP + 0x801, 1));
}

#[test]
fn binaries_are_named_by_class() {
    let mut mem = guest();
    poke(&mut mem, HEAP + 0x800, &[0x1440, 0, SYM_FOO]);
    assert_eq!(shown(&mem, HEAP + 0x801, 1), "<bin 'foo 8 bytes>");
    poke(&mut mem, HEAP + 0x800, &[0x1440, 0, 0x02]);
    assert_eq!(shown(&mem, HEAP + 0x801, 1), "<bin class=#2 8 bytes>");
    let mut out = String::new();
    write_binary_at(&mut out, &mem, HEAP + 0x800, HEAP + 0x801, 20, SYM_FOO);
    assert_eq!(out, "<bin 'foo 8 bytes>");
    let mut out = String::new();
    write_symbol_name_at(&mut out, &mem, SYM_FOO - 1, 20, SYM_FOO);
    write_string_body_at(&mut out, &mem, STRING - 1, 20);
    write_string_char(&mut out, 0x5C);
    write_string_char(&mut out, 0x0A);
    write_char_literal(&mut out, 0x41);
    assert_eq!(out, "'foo\"Hi\\\"\"\\\\\\u000a$A");
    // A symbol whose name is no text is shown raw.
    poke(&mut mem, SYM_FOO - 1 + 16, &[0xFF00_0000]);
    assert!(shown(&mem, SYM_FOO, 1).starts_with("<? #cc00201 ["));
}

#[test]
fn long_values_are_cut_short() {
    let mut mem = guest();
    let mut words = vec![((12 + 2 * 60) << 8) | 0x40, 0, SYM_STRING];
    words.extend_from_slice(&[0x0061_0061; 30]);
    poke(&mut mem, HEAP + 0x800, &words);
    let want = format!("\"{}...\"", "a".repeat(48));
    assert_eq!(shown(&mem, HEAP + 0x801, 1), want);
    let mut words = vec![((12 + 4 * 10) << 8) | 0x41, 0, 0x02];
    words.extend_from_slice(&[4; 10]);
    poke(&mut mem, HEAP + 0x800, &words);
    assert_eq!(shown(&mem, HEAP + 0x801, 1), "[1, 1, 1, 1, 1, 1, 1, 1, ...]");
}

#[test]
fn slot_names() {
    let mut mem = guest();
    assert_eq!(read_symbol_name_into(&mem, SYM_STRING, 32), b"string".to_vec());
    assert_eq!(read_symbol_name_into(&mem, SYM_STRING, 4), b"stri".to_vec());
    // Only whole words are read.
    assert_eq!(read_symbol_name_into(&mem, SYM_STRING, 5), b"stri".to_vec());
    assert_eq!(read_symbol_name_into(&mem, SYM_STRING, 3), Vec::<u8>::new());
    assert_eq!(read_symbol_name_into(&mem, SYM_STRING, usize::MAX), b"string".to_vec());
    assert_eq!(read_symbol_name_into(&mem, STRING, 32), Vec::<u8>::new());
    assert_eq!(resolve_slot_name_into(&mem, MAP, 0, 1, 64), b"foo".to_vec());
    assert_eq!(resolve_slot_name_into(&mem, 0x02, 0, 1, 64), Vec::<u8>::new());
    // The names of the map above come first.
    poke(&mut mem, HEAP + 0x800, &[0x1441, 0, 0, MAP, SYM_STRING]);
    assert_eq!(resolve_slot_name_into(&mem, HEAP + 0x801, 0, 2, 64), b"foo".to_vec());
    assert_eq!(resolve_slot_name_into(&mem, HEAP + 0x801, 1, 2, 64), b"string".to_vec());
    // A slot without a name is shown by its number.
    poke(&mut mem, FRAME - 1, &[0x1043, 0, 0x02, 20]);
    assert_eq!(shown(&mem, FRAME, 1), "{?0: 5}");
}

#[test]
fn heap_bounds_are_kept_once_found() {
    let mut c = HeapCheck::new();
    let empty = guest();
    assert_eq!(heap_bounds(&mut c, &empty), None);
    assert!(classify_ptr(&mut c, &empty, HEAP) == PtrLoc::HeapUnknown);
    assert!(log_heap_bounds_once(&mut c, &empty).is_none());
    let mem = with_heap();
    let report = log_heap_bounds_once(&mut c, &mem).unwrap();
    assert_eq!((report.heap_ptr, report.lo, report.hi, report.kib), (0x0C10_6000, HEAP, HEAP + 0x8000, 32));
    assert!(log_heap_bounds_once(&mut c, &mem).is_none());
    assert_eq!(heap_bounds(&mut c, &empty), Some((HEAP, HEAP + 0x8000)));
    assert!(classify_ptr(&mut c, &empty, HEAP) == PtrLoc::InHeap);
    assert!(classify_ptr(&mut c, &empty, HEAP + 0x8000) == PtrLoc::OutOfHeap);
    let mut p = HeapCheck::new();
    assert_eq!(probe_heap::heap_bounds(&mut p, &mem), Some((HEAP, HEAP + 0x8000)));
    assert_eq!(probe_heap::log_heap_bounds_once(&mut p, &mem).unwrap().kib, 32);
    assert!(probe_heap::log_heap_bounds_once(&mut p, &mem).is_none());
}

#[test]
fn references_in_words() {
    let mem = with_heap();
    let mut c = HeapCheck::new();
    assert_eq!(log_ref(&mut c, &mem, "a", 0xFFFF_FFF4), "a: ref=0xfffffff4 → integer -3");
    assert_eq!(log_ref(&mut c, &mem, "a", STRING), "a: ref=0x0cc00301 → real-ptr in-heap @0x0cc00300");
    assert_eq!(log_ref(&mut c, &mem, "a", 0x1001), "a: ref=0x00001001 → real-ptr ROM     @0x00001000");
    assert_eq!(
        log_ref(&mut c, &mem, "a", 0x0C20_0001),
        "a: ref=0x0c200001 → real-ptr OUT-OF-HEAP @0x0c200000"
    );
    assert_eq!(log_ref(&mut c, &mem, "a", 31), "a: ref=0x0000001f → magic-ptr 7");
    assert_eq!(log_ref(&mut c, &mem, "a", 2), "a: ref=0x00000002 → NIL");
    assert_eq!(log_ref(&mut c, &mem, "a", 0x1A), "a: ref=0x0000001a → TRUE");
    assert_eq!(log_ref(&mut c, &mem, "a", 0x41A), "a: ref=0x0000041a → immediate (char/special)");
    let mut unknown = HeapCheck::new();
    assert_eq!(
        log_ref(&mut unknown, &guest(), "a", STRING),
        "a: ref=0x0cc00301 → real-ptr heap? @0x0cc00300"
    );
}

#[test]
fn object_dumps() {
    let mut mem = guest();
    assert_eq!(dump_object(&mem, "  ", 20), "");
    assert_eq!(dump_object(&mem, "  ", 0x2000_0001), "  <unreadable @0x20000000>\n");
    assert_eq!(
        dump_object(&mem, "  ", SYM_FOO),
        "  symbol 'foo (hash=0x00005678) @0x0cc00200 size=20\n"
    );
    let text = dump_object(&mem, "  ", ARRAY);
    assert!(text.starts_with("  array class="));
    assert!(text.contains(" @0x0cc00400 size=28 len=4\n    [0] = "));
    assert_eq!(text.lines().count(), 5);
    assert!(dump_object(&mem, "", FRAME).starts_with("frame map="));
    assert!(dump_object(&mem, "", STRING).ends_with(" @0x0cc00300 size=20 (data 8 B)\n"));
    poke(&mut mem, HEAP + 0x800, &[0x0440, 0, 0]);
    assert_eq!(
        dump_object(&mem, "", HEAP + 0x801),
        "parse error @0x0cc00800: bad object header at 0x0cc00800: size=4 flags=0x40\n"
    );
}

#[test]
fn kernel_diagnostics_are_switched_on() {
    let mut mem = guest();
    assert!(force_interpreter_trace_on(&mut mem) == TraceSet::NotInit);
    assert_eq!(force_kernel_diag_on(&mut mem), "WantSerial=on TInterp=not-init ");
    assert_eq!(guest_read_u32_va(&mem, 0x0C10_17C4), Some(0x48FF_FFFF));
    poke(&mut mem, 0x0C10_5458, &[HEAP + 0x1000]);
    assert!(force_interpreter_trace_on(&mut mem) == TraceSet::On(HEAP + 0x1000));
    assert_eq!(guest_read_u32_va(&mem, HEAP + 0x1000 + 124), Some(1));
    poke(&mut mem, 0x0C10_5458, &[0x2000_0000]);
    assert!(force_interpreter_trace_on(&mut mem) == TraceSet::Failed(0x2000_0000));
    assert_eq!(force_kernel_diag_on(&mut mem), "WantSerial=on TInterp=ERR ");
    let mut bare = GuestMem::new(vec![], false);
    assert_eq!(force_kernel_diag_on(&mut bare), "WantSerial=ERR TInterp=not-init ");
}

#[test]
fn last_messages() {
    let mem = with_heap();
    let mut c = HeapCheck::new();
    let mut r = DosendRing::new();
    assert_eq!(dosend_ring::dump(&r, &mut c, &mem, "t"), "dosend_ring (t): empty\n");
    for i in 0..20 {
        dosend_ring::record(&mut r, i, 20, 2, 0x1A, 3, 0x1000);
    }
    let text = dosend_ring::dump(&r, &mut c, &mem, "t");
    assert!(text.starts_with(
        "dosend_ring (t): last 16 invocations (oldest first):\n\
         heap_check: TObjectHeap @0x0c106000 → [0x0cc00000, 0x0cc08000) (32 KiB)\n  \
         #4: recv=0x00000014 impl=0x00000002 meth=0x0000001a argc=3 caller_lr=0x00001000\n    \
         recv: ref=0x00000014 → integer 5\n    impl: ref=0x00000002 → NIL\n    \
         meth: ref=0x0000001a → TRUE\n  #5: "
    ));
    assert!(text.contains("  #19: "));
    assert!(!text.contains("  #3: "));
    // The bounds are reported once, and kept.
    assert!(c == HeapCheck { lo: HEAP, hi: HEAP + 0x8000, logged: true });
    assert!(!dosend_ring::dump(&r, &mut c, &mem, "t").contains("TObjectHeap"));
}

#[test]
fn trap_beacon() {
    let mut n = 9_998u64;
    assert_eq!(sync_trap_beacon(&mut n), None);
    assert_eq!(sync_trap_beacon(&mut n), Some(10_000));
    assert_eq!(sync_trap_beacon(&mut n), None);
}

fn with_stacks() -> GuestMem {
    let mut mem = guest();
    let mgr = 0x0C10_8000;
    let domain = 0x0C10_9000;
    poke(&mut mem, 0x0C10_4C0C, &[mgr]);
    poke(&mut mem, mgr + 0xD0, &[domain + 0x20, 0, 0x20]);
    poke(&mut mem, domain + 16, &[0x0C50_0000, 0x0C60_0000, 6, 0x0C10_A000]);
    let (a, b) = (0x0C10_B000, 0x0C10_C000);
    poke(&mut mem, 0x0C10_A000, &[a, a, 0, b, b, b]);
    poke(&mut mem, a, &[0x0C50_4000, 0x0C50_1000, 2, 0, 0, 0x0C50_0000, 0x0C50_2000, 0x0C50_4000]);
    poke(&mut mem, b, &[0x0C50_8000, 0x0C50_5000, 3, 0, 0, 0x0C50_4000, 0x0C50_6000, 0x0C50_8000]);
    mem
}

#[test]
fn sound_stacks_have_no_errors() {
    let mem = with_stacks();
    let r = match dump_tstacks_and_check_invariants(&mem, 0x0C50_0010) {
        Ok(r) => r,
        Err(_) => panic!("not walked"),
    };
    assert_eq!(r.errors, 0);
    assert_eq!(r.domains.len(), 1);
    assert_eq!(r.stacks.len(), 2);
    assert!(r.stacks[0].run == Run { info: 0x0C10_B000, first: 0, count: 2 });
    assert!(r.stacks[1].run == Run { info: 0x0C10_C000, first: 3, count: 3 });
    assert!(r.stacks[0].covers_marker);
    assert!(!r.stacks[1].covers_marker);
    assert!(r.overlaps.is_empty());
    assert_eq!(r.stray, None);
}

#[test]
fn stray_domain_ends_the_walk() {
    let mut mem = with_stacks();
    poke(&mut mem, 0x0C10_9000 + 0x20, &[0x0400_0020]);
    let r = match dump_tstacks_and_check_invariants(&mem, 0) {
        Ok(r) => r,
        Err(_) => panic!("not walked"),
    };
    assert_eq!((r.domains.len(), r.stray), (1, Some(0x0400_0000)));
}

#[test]
fn broken_stacks_are_counted() {
    let mut mem = with_stacks();
    // The second stack starts inside the first; its guard is then two pages.
    poke(&mut mem, 0x0C10_C000 + 20, &[0x0C50_3000]);
    // The first one's tops differ.
    poke(&mut mem, 0x0C10_B000, &[0x0C50_4004]);
    let r = match dump_tstacks_and_check_invariants(&mem, 0) {
        Ok(r) => r,
        Err(_) => panic!("not walked"),
    };
    assert_eq!(r.overlaps, vec![(0, 1)]);
    assert!(r.stacks[1].bad_guard && r.stacks[0].bad_top);
    assert_eq!(r.errors, 3);
    poke(&mut mem, 0x0C10_8000 + 0xD8, &[0x104]);
    assert!(matches!(
        dump_tstacks_and_check_invariants(&mem, 0),
        Err(TStackError::BadItemOffset(0x104))
    ));
    poke(&mut mem, 0x0C10_4C0C, &[0x0400_0000]);
    assert!(matches!(
        dump_tstacks_and_check_invariants(&mem, 0),
        Err(TStackError::BadManager(0x0400_0000))
    ));
}

#[test]
fn frame_seeds_and_strings() {
    let mut mem = guest();
    let sp = HEAP + 0x2000;
    poke(&mut mem, sp, &[0xFFFF_FFFF, sp + 0x10, 0]);
    poke(&mut mem, sp + 0x10, &[0x0012_3456]);
    assert_eq!(find_frame_seed(&mem, sp), Some((sp + 0x10, sp + 4)));
    poke(&mut mem, sp + 0x10, &[0x0080_0000]);
    assert_eq!(find_frame_seed(&mem, sp), None);
    poke(&mut mem, HEAP + 0x3000, &[0x6576_742E, 0x6578_0041]);
    assert_eq!(read_cstr_at(&mem, HEAP + 0x3000, 128), b"evt.ex".to_vec());
    assert_eq!(read_cstr_at(&mem, HEAP + 0x3000, 3), b"evt".to_vec());
    assert_eq!(read_cstr_at(&mem, 0x2000_0000, 3), Vec::<u8>::new());
}

fn sites() -> LoudSites {
    LoudSites { reboot: 0x1000, power_off: 0x2000, stop_image: 0x3000, bus_error: 0x4000 }
}

#[test]
fn loud_halts() {
    let mut mem = with_stacks();
    let mut ctx = TrapContext { x: [0; 31] };
    ctx.x[18] = 0x2004;
    ctx.x[12] = 0x1_0000_0012;
    let r = handle_loud_halt(&ctx, &mem, sites(), 0x13, 0x1004, 0);
    assert!(r.site == LoudSite::Reboot && r.bus_error.is_none());
    assert_eq!((r.site_pc, r.mode, r.caller_lr), (0x1000, 0x13, 0x2004));
    assert_eq!((r.regs[12], r.regs[0]), (0x12, 0));
    let r = handle_loud_halt(&ctx, &mem, sites(), 0x13, 0x5000, 0);
    assert!(r.site == LoudSite::PowerOffAndReboot);
    ctx.x[18] = 0;
    assert!(handle_loud_halt(&ctx, &mem, sites(), 0x13, 0x3004, 0).site == LoudSite::StopImage);
    assert!(handle_loud_halt(&ctx, &mem, sites(), 0x13, 0x5000, 0).site == LoudSite::Unknown);
    for (i, w) in [0x0001_0008u32, 0x0400_0000, 0x10].iter().enumerate() {
        assert!(guest_write_u32_pa(&mut mem, 0x0600_F0A0 + 4 * i as u32, *w));
    }
    let r = handle_loud_halt(&ctx, &mem, sites(), 0x13, 0x4004, 0x0C50_0010);
    assert!(r.site == LoudSite::BusErrorThrow);
    let b = r.bus_error.unwrap();
    assert_eq!(b.faulting_pc, 0x0001_0000);
    assert!(b.save == DabtSave { lr_abt: 0x0001_0008, sp_abt: 0x0400_0000, spsr_abt: 0x10 });
    assert!(b.stacks.is_ok() && b.seed.is_none());
    assert_eq!((b.pre_mode, b.thumb), (0x10, false));
}

#[test]
fn unhandled_exceptions() {
    let mut mem = guest();
    poke(&mut mem, HEAP + 0x3000, &[0x6576_7400]);
    poke(&mut mem, HEAP + 0x3100, &[1, 2, 3, 4, 5, 6, 7, 8]);
    assert!(guest_write_u32_pa(&mut mem, 0x0600_F004, 0x10));
    let mut ctx = TrapContext { x: [0; 31] };
    ctx.x[0] = (HEAP + 0x3000) as u64;
    ctx.x[1] = (HEAP + 0x3100) as u64;
    ctx.x[13] = 0xAA;
    ctx.x[14] = 0xBB;
    let r = handle_unhandled_exception(&ctx, &mem, false);
    assert_eq!(r.label, "UnhandledException");
    assert_eq!(r.name, b"evt".to_vec());
    assert_eq!((r.mode, r.sp, r.caller_lr), (0x10, 0xAA, 0xBB));
    assert_eq!(r.data[7], Some(8));
    assert_eq!(r.args[1], HEAP + 0x3100);
    assert_eq!(handle_unhandled_exception(&ctx, &mem, true).label, "UnhandledNonUserModeException");
}

#[test]
fn diagnostic_halt() {
    let mut mem = guest();
    mem.set_word(Region::Rom, 0x1000, 0x0102_0304);
    mem.set_word(Region::Rom, 0x2000, 0xEBu32);
    poke(&mut mem, HEAP + 0x4000, &[0x2004, 0x2005, 0x2006, 0x3000]);
    let mut ctx = TrapContext { x: [0; 31] };
    ctx.x[20] = 0x1004;
    ctx.x[19] = (HEAP + 0x4000) as u64;
    ctx.x[18] = 0x77;
    let regs = DiagRegs {
        far: 0x0CC0_0000,
        spsr_el2: 0x17,
        spsr_abt: 0x13,
        spsr_und: 0,
        esr_el2: 0x4A00_1234,
        esr_el1: 0x9200_0007,
        sctlr_el1: 0x2005,
    };
    let r = handle_diag(&ctx, &mem, regs);
    assert_eq!((r.src_mode, r.pre_mode, r.pre_sp, r.pre_lr), (0x17, 0x13, HEAP + 0x4000, 0x77));
    assert_eq!((r.thumb, r.faulting_pc, r.insn), (false, 0x1000, 0x0403_0201));
    assert_eq!(r.walks.len(), 22);
    assert_eq!(r.walks[0].l1, 0x0420_0C0E);
    assert_eq!(r.trace, vec![(0x2004, 0xEB00_0000), (0x2004, 0xEB00_0000)]);
    ctx.x[22] = 0x1003;
    assert!(r.trap == Syndrome { ec: 0x12, iss: 0x1234, dfsc: 0x34 });
    assert!(r.fault == Syndrome { ec: 0x24, iss: 7, dfsc: 7 });
    assert!(
        r.controls
            == Controls { mmu: true, data_cache: true, insn_cache: false, high_vectors: true }
    );
    assert_eq!((r.banked.svc, r.banked.abt), ((HEAP + 0x4000, 0x77), (0, 0x1004)));
    assert_eq!((r.caller, r.regs[14]), (0x76, 0));
    let regs = DiagRegs { far: 0, spsr_el2: 0x1B, spsr_abt: 0, spsr_und: 0x30, ..regs };
    let r = handle_diag(&ctx, &mem, regs);
    assert_eq!((r.pre_mode, r.thumb, r.faulting_pc, r.insn), (0x10, true, 0x1000, 0x0403_0201));
}
