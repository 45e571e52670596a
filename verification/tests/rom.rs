//! Trampolines, ROM loading and patching, and memory summaries.

use newton_hypervisor::guest_mem::{read_word_pa, GuestMem, Region, ROM_SIZE};
use newton_hypervisor::guest_trampolines::{
    data_word, hvc_insn, install_und_vector_swap_post_mmu, install_und_vector_swap_pre_mmu,
    is_hypervisor_code_region, patch_dabt_vector, patch_und_vector, write_rom_code_word,
    write_rom_data_word, write_rom_word_by_kind, write_rom_words,
};
use newton_hypervisor::guest_endian::guest_read_u32_pa;
use newton_hypervisor::mem_dump::{
    dump_framebuffer_to_uart, dump_ram_to_uart, hex_block, summarise_region,
};
use newton_hypervisor::rom_loader::{
    apply_patches, load_guest_test, load_image, load_newton_rom, load_rom,
    load_test_bin_via_semihosting, patch_cp15_encodings, patch_native_prim_mcr_lr_to_r12,
    test_path, BootImage, RomPatch, TestLoad, TestLoadError,
};

/// A big-endian guest in which the first 64 ROM words and the words from `rex` on are code.
fn guest() -> GuestMem {
    let mut reach = vec![0xFFu8; 8];
    reach.resize(0x0080_0000 / 32, 0);
    reach.push(0xFE);
    GuestMem::new(reach, false)
}

fn word(mem: &GuestMem, pa: u32) -> u32 {
    read_word_pa(mem, pa).unwrap()
}

#[test]
fn hypervisor_calls() {
    assert_eq!(hvc_insn(0x10), 0xE140_0170);
    assert_eq!(hvc_insn(0x11), 0xE140_0171);
    assert_eq!(hvc_insn(0xFFFF), 0xE14F_FF7F);
}

#[test]
fn hypervisor_regions() {
    for pa in [0x008F_FF00u32, 0x0090_0000, 0x00DF_FFFC, 0x00FF_FD80, 0x00FF_FFFC] {
        assert!(is_hypervisor_code_region(pa));
    }
    for pa in [0u32, 0x008F_FEFC, 0x00E0_0000, 0x00FF_FD7C, 0x0100_0000] {
        assert!(!is_hypervisor_code_region(pa));
    }
}

#[test]
fn rom_stores_by_kind() {
    let mut mem = guest();
    write_rom_code_word(&mut mem, 3, 0x1122_3344);
    assert_eq!(word(&mem, 12), 0x1122_3344);
    write_rom_data_word(&mut mem, 100, 0x1122_3344);
    assert_eq!(word(&mem, 400), 0x4433_2211);
    write_rom_word_by_kind(&mut mem, 5, 0x1122_3344);
    write_rom_word_by_kind(&mut mem, 200, 0x1122_3344);
    assert_eq!(word(&mem, 20), 0x1122_3344);
    assert_eq!(word(&mem, 800), 0x4433_2211);
    assert_eq!(data_word(&mem, 0x0600_F000), 0x00F0_0006);
    assert_eq!(data_word(&GuestMem::new(vec![], true), 0x0600_F000), 0x0600_F000);
    write_rom_words(&mut mem, 10, &[1, 2, 3]);
    assert_eq!((word(&mem, 40), word(&mem, 44), word(&mem, 48)), (1, 2, 3));
}

#[test]
fn vectors_and_trampolines() {
    let mut mem = guest();
    patch_und_vector(&mut mem);
    patch_dabt_vector(&mut mem, 0xE140_0172);
    assert_eq!(word(&mem, 0x04), 0xEA3F_FFAD);
    assert_eq!(word(&mem, 0x10), 0xEA23_FFBA);
    assert_eq!(word(&mem, 0x00FF_FEC0), 0xEE0D_CF50);
    assert_eq!(word(&mem, 0x00FF_FEF4), 0xEACE_365E);
    assert_eq!(word(&mem, 0x00FF_FEFC), 0xEAFF_FFFF);
    assert_eq!(word(&mem, 0x00FF_FF04), 0xE59F_C050);
    assert_eq!(word(&mem, 0x00FF_FF54), 0xE140_0170);
    assert_eq!(word(&mem, 0x00FF_FF5C), 0x00F0_0006);
    assert_eq!(word(&mem, 0x00FF_FFA8), 0xEE0D_0F50);
    assert_eq!(word(&mem, 0x00FF_FFD4), 0xE140_0172);
    assert_eq!(word(&mem, 0x00FF_FFD8), 0xE140_0173);
    assert_eq!(word(&mem, 0x00FF_FFE0), 0xA0F0_0006);
    assert_eq!(word(&mem, 0x00FF_FFE4), 0xE59F_E000);
    assert_eq!(word(&mem, 0x00FF_FFE8), 0xE1B0_F00E);
    assert_eq!(word(&mem, 0x00FF_FFEC), 0xDEC0_ADDE);
    // The literal loads of the fast path reach its own literals.
    assert_eq!(word(&mem, 0x008F_FF08), 0xE59F_0088);
    assert_eq!(word(&mem, 0x008F_FF98), 0xA0F0_0006);
    assert_eq!(word(&mem, 0x008F_FF88), 0x1431_3900);
    // Every word of the trampolines is one that the guest executes as it stands.
    for pa in [0x00FF_FEC0u32, 0x00FF_FF00, 0x00FF_FFA8, 0x00FF_FFE4, 0x008F_FF00] {
        assert!(is_hypervisor_code_region(pa));
        assert_eq!(guest_read_u32_pa(&mem, pa), Some(word(&mem, pa)));
    }
}

#[test]
fn scratch_literals() {
    let mut mem = guest();
    install_und_vector_swap_pre_mmu(&mut mem);
    assert_eq!(word(&mem, 0x00FF_FF5C), 0x00F0_0006);
    assert_eq!(word(&mem, 0x00FF_FFE0), 0xA0F0_0006);
    let mut other = guest();
    install_und_vector_swap_post_mmu(&mut other);
    assert_eq!(other.rom, mem.rom);
}

#[test]
fn image_words_mean_the_image() {
    let mut mem = guest();
    load_image(&mut mem, 63, &[0xE1, 0xA0, 0x00, 0x00, 0x12, 0x34, 0x56, 0x78, 0xFF]);
    assert_eq!(word(&mem, 252), 0xE1A0_0000);
    assert_eq!(word(&mem, 256), 0x7856_3412);
    assert_eq!(guest_read_u32_pa(&mem, 256), Some(0x1234_5678));
    assert_eq!(word(&mem, 260), 0);
}

#[test]
fn primitive_calls_move_to_r12() {
    let mut mem = guest();
    write_rom_words(
        &mut mem,
        0,
        &[
            0xE3A0_E005, 0xEE00_EA10, // too near the start
            0xE3A0_E012, 0xE28E_EC01, 0xEE00_EA10, // mov, add, mcr
            0xE59F_E010, 0xEE00_EA10, // ldr, mcr
            0xE1A0_E000, 0xEE00_EA10, // something else before it
        ],
    );
    assert_eq!(patch_native_prim_mcr_lr_to_r12(&mut mem, 0, 64), 2);
    let want = [
        0xE3A0_E005u32, 0xEE00_EA10, 0xE3A0_C012, 0xE28C_CC01, 0xEE00_CA10, 0xE59F_C010,
        0xEE00_CA10, 0xE1A0_E000, 0xEE00_EA10,
    ];
    for (i, w) in want.iter().enumerate() {
        assert_eq!(word(&mem, 4 * i as u32), *w);
    }
}

#[test]
fn system_control_accesses_in_standard_form() {
    let mut mem = guest();
    write_rom_words(&mut mem, 0, &[0xEE01_0F11, 0xEE11_0F10, 0xEE05_1F15, 0xEE07_0F17]);
    write_rom_words(&mut mem, 100, &[0xEE01_0F11]);
    let (count, first) = patch_cp15_encodings(&mut mem, 200);
    assert_eq!(count, 2);
    assert_eq!(first, vec![0, 8]);
    assert_eq!(word(&mem, 0), 0xEE01_0F10);
    assert_eq!(word(&mem, 8), 0xEE05_1F10);
    assert_eq!(word(&mem, 12), 0xEE07_0F17);
    assert_eq!(word(&mem, 400), 0xEE01_0F11);
    assert_eq!(patch_cp15_encodings(&mut mem, 200).0, 0);
}

#[test]
fn only_the_first_accesses_are_listed() {
    let mut mem = guest();
    write_rom_words(&mut mem, 0, &[0xEE01_0F11; 6]);
    let (count, first) = patch_cp15_encodings(&mut mem, 64);
    assert_eq!(count, 6);
    assert_eq!(first, vec![0, 4, 8, 12]);
}

#[test]
fn newton_boot_image() {
    let mut mem = guest();
    let mut rom = vec![0u8; 256];
    rom[0..4].copy_from_slice(&[0xEA, 0x00, 0x00, 0x10]);
    rom[32..36].copy_from_slice(&[0xEE, 0x02, 0x0F, 0x12]);
    let mut rex = vec![0u8; 64];
    rex[4..8].copy_from_slice(&[0xE3, 0xA0, 0xE0, 0x07]);
    rex[8..12].copy_from_slice(&[0xEE, 0x00, 0xEA, 0x10]);
    let patches = [RomPatch { index: 9, value: 0xE1A0_F00E }];
    let stats = load_newton_rom(&mut mem, &rom, &rex, &patches, 0xE140_0172);
    assert_eq!(stats.prims, 1);
    assert_eq!(stats.cp15, 1);
    assert_eq!(stats.first_cp15, vec![32]);
    assert_eq!(word(&mem, 0), 0xEA00_0010);
    assert_eq!(word(&mem, 12), 0xE140_0171);
    assert_eq!(word(&mem, 32), 0xEE02_0F10);
    assert_eq!(word(&mem, 36), 0xE1A0_F00E);
    assert_eq!(word(&mem, 0x0080_0004), 0xE3A0_C007);
    assert_eq!(word(&mem, 0x0080_0008), 0xEE00_CA10);
    assert_eq!(guest_read_u32_pa(&mem, 0x0080_001C), Some(1));
    let mut again = guest();
    load_rom(&mut again, BootImage::Newton(&rom, &rex, &patches, 0xE140_0172));
    assert_eq!(again.rom, mem.rom);
}

#[test]
fn patches_follow_the_kind_of_word() {
    let mut mem = guest();
    apply_patches(
        &mut mem,
        &[
            RomPatch { index: 2, value: 0x0102_0304 },
            RomPatch { index: 500, value: 0x0102_0304 },
        ],
    );
    assert_eq!(word(&mem, 8), 0x0102_0304);
    assert_eq!(word(&mem, 2000), 0x0403_0201);
}

#[test]
fn guest_test_binary() {
    let mut mem = GuestMem::new(vec![], true);
    load_guest_test(&mut mem, &[1, 2, 3, 4, 5, 6, 7, 8, 9]);
    assert_eq!(word(&mem, 0), 0x0403_0201);
    assert_eq!(word(&mem, 4), 0xEA3F_FFAD);
    assert_eq!(word(&mem, 8), 9);
    assert_eq!(word(&mem, 0x00FF_FF5C), 0x0600_F000);
    let mut again = GuestMem::new(vec![], true);
    load_rom(&mut again, BootImage::Test(&[1, 2, 3, 4, 5, 6, 7, 8, 9]));
    assert_eq!(again.rom, mem.rom);
}

#[test]
fn command_line_paths() {
    assert_eq!(test_path(b" \t/tmp/a b.bin \n\0junk"), b"/tmp/a b.bin".to_vec());
    assert_eq!(test_path(b"x"), b"x".to_vec());
    assert_eq!(test_path(b"  \0"), Vec::<u8>::new());
    assert_eq!(test_path(b""), Vec::<u8>::new());
}

#[test]
fn host_load_succeeds() {
    let next = load_test_bin_via_semihosting(TestLoad::GetCmdline, 0, b"t.bin\n\0");
    match &next {
        TestLoad::Open(p) => assert_eq!(p.as_slice(), b"t.bin\0"),
        _ => panic!("expected open"),
    }
    let next = load_test_bin_via_semihosting(next, 5, b"");
    assert!(matches!(next, TestLoad::Length(5)));
    let next = load_test_bin_via_semihosting(next, 1024, b"");
    assert!(matches!(next, TestLoad::Read(5, 1024)));
    let next = load_test_bin_via_semihosting(next, 0, b"");
    assert!(matches!(next, TestLoad::Close(5, 1024)));
    let next = load_test_bin_via_semihosting(next, 0, b"");
    assert!(matches!(next, TestLoad::Loaded(1024)));
    assert!(matches!(load_test_bin_via_semihosting(next, 0, b""), TestLoad::Loaded(1024)));
}

#[test]
fn host_load_failures() {
    let step = load_test_bin_via_semihosting;
    assert!(matches!(
        step(TestLoad::GetCmdline, -1, b"x"),
        TestLoad::Halt(TestLoadError::NoCmdline { rc: -1 })
    ));
    assert!(matches!(
        step(TestLoad::GetCmdline, 0, b"  \n"),
        TestLoad::Halt(TestLoadError::EmptyCmdline)
    ));
    assert!(matches!(
        step(TestLoad::GetCmdline, 0, &[b'a'; 255]),
        TestLoad::Halt(TestLoadError::PathTooLong { len: 255 })
    ));
    assert!(matches!(step(TestLoad::GetCmdline, 0, &[b'a'; 254]), TestLoad::Open(_)));
    assert!(matches!(
        step(TestLoad::Open(vec![0]), -7, b""),
        TestLoad::Halt(TestLoadError::OpenFailed { rc: -7 })
    ));
    assert!(matches!(
        step(TestLoad::Length(1), ROM_SIZE as i64 + 1, b""),
        TestLoad::Halt(TestLoadError::BadLength { .. })
    ));
    assert!(matches!(
        step(TestLoad::Length(1), -1, b""),
        TestLoad::Halt(TestLoadError::BadLength { flen: -1 })
    ));
    assert!(matches!(
        step(TestLoad::Read(1, 8), 3, b""),
        TestLoad::Halt(TestLoadError::ShortRead { unread: 3 })
    ));
}

#[test]
fn hex_rows() {
    let bytes: Vec<u8> = (0..40).collect();
    let rows = hex_block(&bytes);
    assert_eq!(rows.len(), 2);
    assert_eq!(rows[1].offset, 32);
    assert_eq!(rows[0].bytes[31], 31);
    assert_eq!(rows[1].bytes[7], 39);
    assert_eq!(rows[1].bytes[8], 0);
    assert_eq!(hex_block(&[]).len(), 0);
}

#[test]
fn region_summaries() {
    let mut mem = guest();
    mem.set_byte(Region::Fb, 4096 + 5, 0x42);
    for i in 0..4096 {
        mem.set_byte(Region::Fb, 0x4000 + i, 0xFF);
    }
    let sum = dump_framebuffer_to_uart(&mem);
    assert_eq!((sum.populated, sum.populated_kib, sum.erased, sum.mixed), (2, 8, 1, 1));
    assert_eq!(sum.head.len(), 16);
    assert_eq!(sum.active.len(), 1);
    mem.set_byte(Region::Ram, 3, 9);
    let (ram, _) = dump_ram_to_uart(&mem);
    assert_eq!(ram.populated, 1);
    assert_eq!(ram.head[0].bytes[3], 9);
    assert_eq!(summarise_region(&vec![0xFFu8; 8192]).erased, 2);
}
