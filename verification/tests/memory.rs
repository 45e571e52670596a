//! Words, numerals, bitmaps, guest memory, guest byte order and stage-1 tables.

use newton_hypervisor::bitmap::{
    bm_is_empty, bm_set_span, bm_union, bm_zero, cl_clear, cl_next, cl_set, cl_test,
};
use newton_hypervisor::guest_endian::{
    guest_read_bytes_va, guest_read_u16_pa, guest_read_u16_va, guest_read_u32_pa,
    guest_read_u32_va, guest_read_u8_pa, guest_read_u8_va, guest_write_u32_pa, guest_write_u32_va,
    guest_write_u8_pa, guest_write_u8_va,
};
use newton_hypervisor::guest_mem::{
    host_addr_for, read_byte_pa, read_halfword_pa, read_pt_entry, read_word_pa, read_word_va,
    rom_word_is_code, translate_va, write_byte_pa, write_pt_entry, write_word_pa, write_word_va,
    GuestMem, Region, RAM_SIZE, ROM_SIZE,
};
use newton_hypervisor::stage1::{
    dump_guest_l1_table, dump_l1_neighbourhood, dump_stage1_walk, fix_stage1_xn_bits,
    install_scratch_pool_l1_section, l1_kind_name, scratch_pool_l1_section, WalkStep,
    SCRATCH_L1_IDX,
};
use newton_hypervisor::text::{push_dec, push_hex, push_hex8, push_int, push_numeral, push_text};
use newton_hypervisor::words::{
    get_be32, get_le16, get_le32, nth_byte, set_le32, swap_bytes16, swap_bytes32,
};

fn big_endian() -> GuestMem {
    GuestMem::new(vec![0x05], false)
}

/// A guest with the MMU on: a section, a coarse table in RAM, one in ROM, one that is not
/// backed and a fine table.
fn mapped() -> GuestMem {
    let mut mem = big_endian();
    write_pt_entry(&mut mem, Region::Ram, 4, 0x0410_0C1E);
    write_pt_entry(&mut mem, Region::Ram, 8, 0x0400_8011);
    write_pt_entry(&mut mem, Region::Ram, 12, 0x0400_9003);
    write_pt_entry(&mut mem, Region::Ram, 16, 0x0001_0001);
    write_pt_entry(&mut mem, Region::Ram, 20, 0x2000_0001);
    write_pt_entry(&mut mem, Region::Ram, 0x8000, 0x0400_AFFE);
    write_pt_entry(&mut mem, Region::Ram, 0x8004, 0x0405_0001);
    write_pt_entry(&mut mem, Region::Ram, 0x8008, 0x0400_2003);
    write_pt_entry(&mut mem, Region::Rom, 0x1_0000, 0x0400_B002);
    mem.mmu_on = true;
    mem
}

#[test]
fn words_of_bytes() {
    let bytes = [0x12u8, 0x34, 0x56, 0x78, 0x9A];
    assert_eq!(get_le32(&bytes, 0), 0x7856_3412);
    assert_eq!(get_le32(&bytes, 1), 0x9A78_5634);
    assert_eq!(get_be32(&bytes, 0), 0x1234_5678);
    assert_eq!(get_le16(&bytes, 3), 0x9A78);
    assert_eq!(nth_byte(0x1234_5678, 0), 0x78);
    assert_eq!(nth_byte(0x1234_5678, 3), 0x12);
    let mut v = vec![0u8; 6];
    set_le32(&mut v, 1, 0x0A0B_0C0D);
    assert_eq!(v, vec![0, 0x0D, 0x0C, 0x0B, 0x0A, 0]);
    assert_eq!(swap_bytes32(0x1234_5678), 0x7856_3412);
    assert_eq!(swap_bytes16(0x1234), 0x3412);
}

#[test]
fn numerals() {
    let mut out = String::new();
    push_text(&mut out, "n=");
    push_dec(&mut out, 0);
    push_text(&mut out, " ");
    push_dec(&mut out, 18_446_744_073_709_551_615);
    push_text(&mut out, " ");
    push_int(&mut out, -2_147_483_648);
    push_text(&mut out, " ");
    push_int(&mut out, 37);
    push_text(&mut out, " ");
    push_hex(&mut out, 0xBEEF);
    push_text(&mut out, " ");
    push_hex8(&mut out, 0x1F);
    push_text(&mut out, " ");
    push_numeral(&mut out, 5, 2, 4);
    assert_eq!(out, "n=0 18446744073709551615 -2147483648 37 beef 0x0000001f 0101");
}

#[test]
fn bitmaps_as_sets() {
    let mut bm = vec![0u32; 3];
    assert!(bm_is_empty(&bm));
    cl_set(&mut bm, 33);
    cl_set(&mut bm, 95);
    assert!(cl_test(&bm, 33));
    assert!(!cl_test(&bm, 32));
    assert_eq!(cl_next(&bm, 0), Some(33));
    assert_eq!(cl_next(&bm, 34), Some(95));
    cl_clear(&mut bm, 95);
    assert_eq!(cl_next(&bm, 34), None);
    let other = vec![1u32, 0, 0];
    bm_union(&mut bm, &other);
    assert_eq!(bm, vec![1, 2, 0]);
    bm_zero(&mut bm);
    assert!(bm_is_empty(&bm));
}

#[test]
fn spans() {
    let mut bm = vec![0u32; 3];
    bm_set_span(&mut bm, 30, 65);
    assert_eq!(bm, vec![0xC000_0000, 0xFFFF_FFFF, 0x3]);
    bm_set_span(&mut bm, 0, 0);
    assert_eq!(bm[0], 0xC000_0001);
}

#[test]
fn regions_behind_addresses() {
    assert!(host_addr_for(0, 4, false) == Some((Region::Rom, 0)));
    assert!(host_addr_for(0, 4, true).is_none());
    assert!(host_addr_for(0x00FF_FFFC, 4, false) == Some((Region::Rom, 0x00FF_FFFC)));
    assert!(host_addr_for(0x00FF_FFFD, 4, false).is_none());
    assert!(host_addr_for(0x0400_0010, 4, true) == Some((Region::Ram, 0x10)));
    assert!(host_addr_for(0x043F_FFFE, 4, true).is_none());
    assert!(host_addr_for(0x043F_FFFE, 2, true) == Some((Region::Ram, RAM_SIZE - 2)));
    assert!(host_addr_for(0x0600_F000, 4, true) == Some((Region::Scratch, 0xF000)));
    assert!(host_addr_for(0x0E1F_FFFC, 4, true) == Some((Region::Fb, 0x001F_FFFC)));
    assert!(host_addr_for(0xFFFF_FFFF, 4, false).is_none());
}

#[test]
fn stored_words_read_back() {
    let mut mem = big_endian();
    assert!(write_word_pa(&mut mem, 0x0400_0101, 0x1122_3344));
    assert_eq!(read_word_pa(&mem, 0x0400_0101), Some(0x1122_3344));
    assert_eq!(read_halfword_pa(&mem, 0x0400_0101), Some(0x3344));
    assert_eq!(read_byte_pa(&mem, 0x0400_0104), Some(0x11));
    assert!(write_byte_pa(&mut mem, 0x0600_0000, 0x5A));
    assert_eq!(read_byte_pa(&mem, 0x0600_0000), Some(0x5A));
    assert!(!write_word_pa(&mut mem, 0x0000_0100, 1));
    assert!(!write_byte_pa(&mut mem, 0x2000_0000, 1));
    assert_eq!(read_word_pa(&mem, 0x0000_0100), Some(0));
    assert_eq!(read_word_pa(&mem, 0x2000_0000), None);
    assert_eq!(read_word_pa(&mem, 0x0400_0105), Some(0));
}

#[test]
fn code_bitmap() {
    let mem = big_endian();
    assert!(rom_word_is_code(&mem, 0));
    assert!(!rom_word_is_code(&mem, 1));
    assert!(rom_word_is_code(&mem, 2));
    assert!(!rom_word_is_code(&mem, 8));
}

#[test]
fn translations() {
    let mut mem = mapped();
    assert_eq!(translate_va(&mem, 0x0012_3456), Some(0x0412_3456));
    assert_eq!(translate_va(&mem, 0x0020_0123), Some(0x0400_A123));
    assert_eq!(translate_va(&mem, 0x0020_1123), Some(0x0405_1123));
    assert_eq!(translate_va(&mem, 0x0020_3000), None);
    assert_eq!(translate_va(&mem, 0x0030_0000), None);
    assert_eq!(translate_va(&mem, 0x0040_0004), Some(0x0400_B004));
    assert_eq!(translate_va(&mem, 0x0000_0000), None);
    assert!(write_word_va(&mut mem, 0x0020_0010, 77));
    assert_eq!(read_word_pa(&mem, 0x0400_A010), Some(77));
    assert_eq!(read_word_va(&mem, 0x0020_0010), Some(77));
    mem.mmu_on = false;
    assert_eq!(translate_va(&mem, 0x0012_3456), None);
}

#[test]
fn guest_values_read_back() {
    let mut mem = big_endian();
    assert!(guest_write_u32_pa(&mut mem, 0x0400_0200, 0x1234_5678));
    assert_eq!(guest_read_u32_pa(&mem, 0x0400_0200), Some(0x1234_5678));
    assert_eq!(read_word_pa(&mem, 0x0400_0200), Some(0x7856_3412));
    assert_eq!(guest_read_u8_pa(&mem, 0x0400_0200), Some(0x12));
    assert_eq!(guest_read_u8_pa(&mem, 0x0400_0203), Some(0x78));
    assert_eq!(guest_read_u16_pa(&mem, 0x0400_0202), Some(0x5678));
    assert!(guest_write_u8_pa(&mut mem, 0x0400_0201, 0xFF));
    assert_eq!(guest_read_u8_pa(&mem, 0x0400_0201), Some(0xFF));
    assert_eq!(guest_read_u32_pa(&mem, 0x0400_0200), Some(0x12FF_5678));
    assert!(!guest_write_u32_pa(&mut mem, 0x10, 0));
    assert!(!guest_write_u8_pa(&mut mem, 0x10, 0));
}

#[test]
fn instruction_words_are_not_swapped() {
    let mut mem = big_endian();
    mem.set_word(Region::Rom, 0, 0xEA00_0001);
    mem.set_word(Region::Rom, 4, 0x7856_3412);
    mem.set_word(Region::Rom, 0x00FF_FF00, 0xEE0D_CF50);
    assert_eq!(guest_read_u32_pa(&mem, 0), Some(0xEA00_0001));
    assert_eq!(guest_read_u32_pa(&mem, 4), Some(0x1234_5678));
    assert_eq!(guest_read_u32_pa(&mem, 0x00FF_FF00), Some(0xEE0D_CF50));
}

#[test]
fn little_endian_guest() {
    let mut mem = GuestMem::new(vec![], true);
    assert!(guest_write_u32_pa(&mut mem, 0x0400_0200, 0x1234_5678));
    assert_eq!(read_word_pa(&mem, 0x0400_0200), Some(0x1234_5678));
    assert_eq!(guest_read_u8_pa(&mem, 0x0400_0200), Some(0x12));
    assert_eq!(guest_read_u16_pa(&mem, 0x0400_0200), Some(0x1234));
    assert!(guest_write_u8_pa(&mut mem, 0x0400_0203, 0xAA));
    assert_eq!(guest_read_u32_pa(&mem, 0x0400_0200), Some(0x1234_56AA));
}

#[test]
fn guest_accesses_through_the_tables() {
    let mut mem = mapped();
    assert!(guest_write_u32_va(&mut mem, 0x0020_0040, 0xCAFE_F00D));
    assert_eq!(guest_read_u32_va(&mem, 0x0020_0040), Some(0xCAFE_F00D));
    assert_eq!(guest_read_u32_pa(&mem, 0x0400_A040), Some(0xCAFE_F00D));
    assert_eq!(guest_read_u8_va(&mem, 0x0020_0041), Some(0xFE));
    assert_eq!(guest_read_u16_va(&mem, 0x0020_0042), Some(0xF00D));
    assert!(guest_write_u8_va(&mut mem, 0x0020_0040, 0x00));
    assert_eq!(guest_read_u32_va(&mem, 0x0020_0040), Some(0x00FE_F00D));
    assert_eq!(guest_read_u32_va(&mem, 0x2000_0000), None);
}

#[test]
fn runs_of_guest_bytes() {
    let mut mem = big_endian();
    assert!(guest_write_u32_pa(&mut mem, 0x043F_FFF8, 0x0102_0304));
    assert!(guest_write_u32_pa(&mut mem, 0x043F_FFFC, 0x0506_0708));
    assert_eq!(
        guest_read_bytes_va(&mem, 0x043F_FFF8, 16),
        Some(vec![1, 2, 3, 4, 5, 6, 7, 8])
    );
    assert_eq!(guest_read_bytes_va(&mem, 0x043F_FFF8, 7), Some(vec![1, 2, 3, 4]));
    assert_eq!(guest_read_bytes_va(&mem, 0x0440_0000, 8), None);
    assert_eq!(guest_read_bytes_va(&mem, 0x043F_FFF8, 3), None);
}

#[test]
fn descriptors_in_minimal_form() {
    let mut mem = mapped();
    assert!(fix_stage1_xn_bits(&mut mem));
    assert_eq!(read_pt_entry(&mem, Region::Ram, 4), 0x0410_0C0E);
    assert_eq!(read_pt_entry(&mem, Region::Ram, 8), 0x0400_8001);
    assert_eq!(read_pt_entry(&mem, Region::Ram, 12), 0);
    assert_eq!(read_pt_entry(&mem, Region::Ram, 0x8000), 0x0400_A03E);
    assert_eq!(read_pt_entry(&mem, Region::Ram, 0x8004), 0x0405_003D);
    assert_eq!(read_pt_entry(&mem, Region::Ram, 0x8008), 0x0400_203E);
    assert_eq!(read_pt_entry(&mem, Region::Ram, 0x800C), 0);
    assert_eq!(read_pt_entry(&mem, Region::Rom, 0x1_0000), 0x0400_B03E);
    let (rom, ram) = (mem.rom.clone(), mem.ram.clone());
    assert!(!fix_stage1_xn_bits(&mut mem));
    assert!(mem.rom == rom && mem.ram == ram);
}

#[test]
fn rewrite_keeps_translations() {
    let mut mem = mapped();
    let addresses = [0x0012_3456u32, 0x0020_0123, 0x0020_1123, 0x0020_2004, 0x0020_3000, 0x0040_0004];
    let before: Vec<Option<u32>> = addresses.iter().map(|&va| translate_va(&mem, va)).collect();
    fix_stage1_xn_bits(&mut mem);
    let after: Vec<Option<u32>> = addresses.iter().map(|&va| translate_va(&mem, va)).collect();
    assert_eq!(before, after);
    for i in 0..4096usize {
        assert_ne!(read_pt_entry(&mem, Region::Ram, 4 * i) & 3, 3);
    }
}

#[test]
fn scratch_section() {
    let mut mem = mapped();
    assert_eq!(scratch_pool_l1_section(), 0x0600_0C1E);
    assert_eq!(install_scratch_pool_l1_section(&mut mem), Ok(0));
    assert_eq!(install_scratch_pool_l1_section(&mut mem), Ok(0x0600_0C1E));
    assert_eq!(translate_va(&mem, 0x0600_F0A0), Some(0x0600_F0A0));
    fix_stage1_xn_bits(&mut mem);
    assert_eq!(read_pt_entry(&mem, Region::Ram, 4 * SCRATCH_L1_IDX), 0x0600_0C1E);
    write_pt_entry(&mut mem, Region::Ram, 4 * SCRATCH_L1_IDX, 0x0600_0C0E);
    assert_eq!(install_scratch_pool_l1_section(&mut mem), Ok(0x0600_0C0E));
    write_pt_entry(&mut mem, Region::Ram, 4 * SCRATCH_L1_IDX, 0x0410_0C0E);
    assert_eq!(install_scratch_pool_l1_section(&mut mem), Err(0x0410_0C0E));
    assert_eq!(read_pt_entry(&mem, Region::Ram, 4 * SCRATCH_L1_IDX), 0x0410_0C0E);
}

#[test]
fn walks_level_by_level() {
    let mem = mapped();
    assert_eq!(l1_kind_name(0), "fault");
    assert_eq!(l1_kind_name(1), "coarse");
    assert_eq!(l1_kind_name(2), "section");
    assert_eq!(l1_kind_name(3), "fine");
    let w = dump_stage1_walk(&mem, 0x0012_3456);
    assert_eq!(w.l1_idx, 1);
    assert!(w.step == WalkStep::Section { pa: 0x0412_3456, ap: 3, ap2: 0, xn: 1, domain: 0 });
    let w = dump_stage1_walk(&mem, 0x0020_1123);
    assert!(w.step == WalkStep::Table {
        l2_pa: 0x0400_8000,
        l2_idx: 1,
        l2: 0x0405_0001,
        pa: Some(0x0405_1123),
    });
    assert!(dump_stage1_walk(&mem, 0x0030_0000).step == WalkStep::Stop);
    assert!(dump_stage1_walk(&mem, 0x0050_0000).step == WalkStep::Unbacked { l2_pa: 0x2000_0000 });
}

#[test]
fn table_dumps() {
    let mem = mapped();
    let near = dump_l1_neighbourhood(&mem, 0x0020_0000);
    assert_eq!(near.len(), 7);
    assert_eq!(near[1], (1, 0x0410_0C1E));
    assert_eq!(dump_l1_neighbourhood(&mem, 0xFFFF_FFFF).len(), 5);
    let rows = dump_guest_l1_table(&mem);
    assert_eq!(rows.len(), 5);
    assert_eq!(rows[0].va_start, 0x0010_0000);
    assert_eq!(rows[0].l2, None);
    assert_eq!(rows[1].index, 2);
    assert_eq!(rows[1].l2, Some((0x0400_8000, [0x0400_AFFE, 0, 0, 0, 0])));
    assert_eq!(rows[4].entry, 0x2000_0001);
    assert_eq!(rows[4].l2, None);
    assert_eq!(mem.region(Region::Rom).len(), ROM_SIZE);
}
