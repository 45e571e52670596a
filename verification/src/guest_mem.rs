//! Guest physical memory: the ROM, RAM, framebuffer and scratch-pool regions that back
//! the Newton address map, and the walk of the guest's stage-1 page tables.
//!
//! Guest physical layout:
//!
//! - `0x0000_0000 .. 0x0100_0000`: ROM
//! - `0x0400_0000 .. 0x0440_0000`: RAM, with the stage-1 L1 table at its start
//! - `0x0600_0000 .. 0x0601_0000`: scratch pool
//! - `0x0E00_0000 .. 0x0E20_0000`: framebuffer
//!
//! The guest stores data big-endian, while instruction words are little-endian; in
//! guest-test mode the guest is little-endian throughout.

use crate::words;
use vstd::prelude::*;

verus! {

broadcast use words::put_le32_len;

pub const ROM_SIZE: usize = 0x0100_0000;

pub const RAM_SIZE: usize = 0x0040_0000;

pub const FRAMEBUFFER_SIZE: usize = 0x0020_0000;

/// Framebuffer size in bytes.
pub const FB_SIZE: usize = FRAMEBUFFER_SIZE;

/// Framebuffer guest base address.
pub const FB_IPA_BASE: u32 = 0x0E00_0000;

/// Guest RAM base address; the stage-1 L1 table starts here.
pub const RAM_IPA_BASE: u32 = 0x0400_0000;

/// Scratch-pool guest base address.
pub const SCRATCH_POOL_IPA: u32 = 0x0600_0000;

/// Guest virtual address of the scratch pool; one L1 section maps it to itself.
pub const SCRATCH_POOL_VA: u32 = 0x0600_0000;

/// Scratch-pool size in bytes.
pub const SCRATCH_POOL_SIZE: usize = 0x0001_0000;

/// The backing stores.
#[derive(Clone, Copy, PartialEq, Eq, Structural)]
pub enum Region {
    Rom,
    Ram,
    Fb,
    Scratch,
}

/// The guest's memory as the hypervisor holds it.
pub struct GuestMem {
    /// ROM bytes.
    pub rom: Vec<u8>,
    /// RAM bytes.
    pub ram: Vec<u8>,
    /// Framebuffer bytes.
    pub fb: Vec<u8>,
    /// Scratch-pool bytes.
    pub scratch: Vec<u8>,
    /// One bit per 32-bit ROM word: set where the word is code.
    pub reach: Vec<u8>,
    /// Whether the guest's stage-1 MMU is on.
    pub mmu_on: bool,
    /// Whether the guest runs little-endian (guest-test mode).
    pub guest_test: bool,
}

/// What a `GuestMem` holds.
#[verifier::ext_equal]
pub struct MemView {
    pub rom: Seq<u8>,
    pub ram: Seq<u8>,
    pub fb: Seq<u8>,
    pub scratch: Seq<u8>,
    pub reach: Seq<u8>,
    pub mmu_on: bool,
    pub guest_test: bool,
}

impl View for GuestMem {
    type V = MemView;

    open spec fn view(&self) -> MemView {
        MemView {
            rom: self.rom@,
            ram: self.ram@,
            fb: self.fb@,
            scratch: self.scratch@,
            reach: self.reach@,
            mmu_on: self.mmu_on,
            guest_test: self.guest_test,
        }
    }
}

/// Whether the access `pa .. pa + size` starts and ends in the window of `len` bytes at `base`.
pub open spec fn in_window(pa: int, size: int, base: int, len: int) -> bool {
    base <= pa < base + len && pa + size <= base + len
}

/// The region and offset behind an access of `size` bytes at `pa`. ROM is not writable.
pub open spec fn locate(pa: int, size: int, for_write: bool) -> Option<(Region, int)> {
    if !for_write && pa + size <= ROM_SIZE {
        Some((Region::Rom, pa))
    } else if in_window(pa, size, RAM_IPA_BASE as int, RAM_SIZE as int) {
        Some((Region::Ram, pa - RAM_IPA_BASE))
    } else if in_window(pa, size, FB_IPA_BASE as int, FB_SIZE as int) {
        Some((Region::Fb, pa - FB_IPA_BASE))
    } else if in_window(pa, size, SCRATCH_POOL_IPA as int, SCRATCH_POOL_SIZE as int) {
        Some((Region::Scratch, pa - SCRATCH_POOL_IPA))
    } else {
        None
    }
}

impl MemView {
    /// Every store has its fixed size.
    pub open spec fn wf(self) -> bool {
        &&& self.rom.len() == ROM_SIZE
        &&& self.ram.len() == RAM_SIZE
        &&& self.fb.len() == FB_SIZE
        &&& self.scratch.len() == SCRATCH_POOL_SIZE
    }

    /// The bytes of one region.
    pub open spec fn region(self, r: Region) -> Seq<u8> {
        match r {
            Region::Rom => self.rom,
            Region::Ram => self.ram,
            Region::Fb => self.fb,
            Region::Scratch => self.scratch,
        }
    }

    /// The same memory with the bytes of one region replaced.
    pub open spec fn with_region(self, r: Region, bytes: Seq<u8>) -> MemView {
        match r {
            Region::Rom => MemView { rom: bytes, ..self },
            Region::Ram => MemView { ram: bytes, ..self },
            Region::Fb => MemView { fb: bytes, ..self },
            Region::Scratch => MemView { scratch: bytes, ..self },
        }
    }

    /// The word at `pa`, as a little-endian host reads it.
    pub open spec fn word(self, pa: u32) -> Option<u32> {
        match locate(pa as int, 4, false) {
            Some((r, off)) => Some(words::le32(self.region(r), off)),
            None => None,
        }
    }

    /// The halfword at `pa`, as a little-endian host reads it.
    pub open spec fn half(self, pa: u32) -> Option<u16> {
        match locate(pa as int, 2, false) {
            Some((r, off)) => Some(words::le16(self.region(r), off)),
            None => None,
        }
    }

    /// The byte at `pa`.
    pub open spec fn byte(self, pa: u32) -> Option<u8> {
        match locate(pa as int, 1, false) {
            Some((r, off)) => Some(self.region(r)[off]),
            None => None,
        }
    }

    /// Whether a store of `size` bytes at `pa` lands.
    pub open spec fn writable(self, pa: u32, size: int) -> bool {
        locate(pa as int, size, true) is Some
    }

    /// The memory after a word store at `pa`; a store that does not land changes nothing.
    pub open spec fn store_word(self, pa: u32, value: u32) -> MemView {
        match locate(pa as int, 4, true) {
            Some((r, off)) => self.with_region(r, words::put_le32(self.region(r), off, value)),
            None => self,
        }
    }

    /// The memory after a byte store at `pa`; a store that does not land changes nothing.
    pub open spec fn store_byte(self, pa: u32, value: u8) -> MemView {
        match locate(pa as int, 1, true) {
            Some((r, off)) => self.with_region(r, self.region(r).update(off, value)),
            None => self,
        }
    }

    /// Whether ROM word `idx` is code.
    pub open spec fn is_code(self, idx: int) -> bool {
        idx / 8 < self.reach.len() && (self.reach[idx / 8] >> ((idx % 8) as u8)) & 1 != 0
    }

    /// ROM word `idx` as a little-endian host reads it.
    pub open spec fn rom_word(self, idx: int) -> u32 {
        words::le32(self.rom, 4 * idx)
    }

    /// The memory with ROM word `idx` replaced.
    pub open spec fn set_rom_word(self, idx: int, w: u32) -> MemView {
        MemView { rom: words::put_le32(self.rom, 4 * idx, w), ..self }
    }

    /// How a data value that a guest load is to return is stored as a host word.
    pub open spec fn data_form(self, value: u32) -> u32 {
        if self.guest_test {
            value
        } else {
            words::swap32(value)
        }
    }

    /// A page-table entry at `pa` with the value the guest meant.
    pub open spec fn pt_entry(self, pa: u32) -> Option<u32> {
        match self.word(pa) {
            Some(w) => Some(self.data_form(w)),
            None => None,
        }
    }

    /// The physical address that the stage-1 tables give `va`; `None` while the MMU is
    /// off, for a fault entry and for a table that is not backed.
    pub open spec fn translate(self, va: u32) -> Option<u32> {
        if !self.mmu_on {
            None
        } else {
            match self.pt_entry((0x0400_0000 + (va >> 20) * 4) as u32) {
                None => None,
                Some(l1) => if l1 & 3 == 2 {
                    Some((l1 & 0xFFF0_0000) | (va & 0x000F_FFFF))
                } else if l1 & 3 == 1 {
                    match self.pt_entry(((l1 & 0xFFFF_FC00) + ((va >> 12) & 0xFF) * 4) as u32) {
                        None => None,
                        Some(l2) => l2_address(l2, va),
                    }
                } else {
                    None
                },
            }
        }
    }

    /// The physical address a guest access to `va` uses: the translation, or `va`
    /// itself where there is none.
    pub open spec fn effective(self, va: u32) -> u32 {
        match self.translate(va) {
            Some(pa) => pa,
            None => va,
        }
    }
}

/// The address a second-level entry gives `va`.
pub open spec fn l2_address(l2: u32, va: u32) -> Option<u32> {
    if l2 & 3 == 1 {
        Some((l2 & 0xFFFF_0000) | (va & 0x0000_FFFF))
    } else if l2 & 3 == 0 {
        None
    } else {
        Some((l2 & 0xFFFF_F000) | (va & 0x0000_0FFF))
    }
}

/// The value that the guest means by the four bytes at `at`: big-endian, but little-endian in
/// guest-test mode.
pub open spec fn meant(bytes: Seq<u8>, at: int, guest_test: bool) -> u32 {
    if guest_test {
        words::le32(bytes, at)
    } else {
        words::be32(bytes, at)
    }
}

/// The address map: what each guest physical address reads and whether it takes a store. The ROM
/// at zero is read only; RAM, framebuffer and scratch pool lie at their bases; an access that does
/// not lie whole in one of the four reads nothing and stores nothing.
pub proof fn address_map(m: MemView, pa: u32, value: u32)
    requires
        m.wf(),
    ensures
        pa + 4 <= 0x0100_0000 ==> m.word(pa) == Some(words::le32(m.rom, pa as int)),
        0x0400_0000 <= pa && pa + 4 <= 0x0440_0000 ==> m.word(pa) == Some(
            words::le32(m.ram, pa - 0x0400_0000),
        ) && m.store_word(pa, value) == (MemView {
            ram: words::put_le32(m.ram, pa - 0x0400_0000, value),
            ..m
        }),
        0x0E00_0000 <= pa && pa + 4 <= 0x0E20_0000 ==> m.word(pa) == Some(
            words::le32(m.fb, pa - 0x0E00_0000),
        ) && m.store_word(pa, value) == (MemView {
            fb: words::put_le32(m.fb, pa - 0x0E00_0000, value),
            ..m
        }),
        0x0600_0000 <= pa && pa + 4 <= 0x0601_0000 ==> m.word(pa) == Some(
            words::le32(m.scratch, pa - 0x0600_0000),
        ) && m.store_word(pa, value) == (MemView {
            scratch: words::put_le32(m.scratch, pa - 0x0600_0000, value),
            ..m
        }),
        m.writable(pa, 4) <==> (0x0400_0000 <= pa && pa + 4 <= 0x0440_0000) || (0x0E00_0000 <= pa && pa
            + 4 <= 0x0E20_0000) || (0x0600_0000 <= pa && pa + 4 <= 0x0601_0000),
        m.word(pa) is Some <==> pa + 4 <= 0x0100_0000 || m.writable(pa, 4),
        !m.writable(pa, 4) ==> m.store_word(pa, value) == m,
{
}

/// The same for bytes.
pub proof fn address_map_of_bytes(m: MemView, pa: u32, value: u8)
    requires
        m.wf(),
    ensures
        pa < 0x0100_0000 ==> m.byte(pa) == Some(m.rom[pa as int]),
        0x0400_0000 <= pa < 0x0440_0000 ==> m.byte(pa) == Some(m.ram[pa - 0x0400_0000])
            && m.store_byte(pa, value) == (MemView {
            ram: m.ram.update(pa - 0x0400_0000, value),
            ..m
        }),
        0x0E00_0000 <= pa < 0x0E20_0000 ==> m.byte(pa) == Some(m.fb[pa - 0x0E00_0000])
            && m.store_byte(pa, value) == (MemView {
            fb: m.fb.update(pa - 0x0E00_0000, value),
            ..m
        }),
        0x0600_0000 <= pa < 0x0601_0000 ==> m.byte(pa) == Some(m.scratch[pa - 0x0600_0000])
            && m.store_byte(pa, value) == (MemView {
            scratch: m.scratch.update(pa - 0x0600_0000, value),
            ..m
        }),
        m.writable(pa, 1) <==> 0x0400_0000 <= pa < 0x0440_0000 || 0x0E00_0000 <= pa < 0x0E20_0000
            || 0x0600_0000 <= pa < 0x0601_0000,
        m.byte(pa) is Some <==> pa < 0x0100_0000 || m.writable(pa, 1),
        !m.writable(pa, 1) ==> m.store_byte(pa, value) == m,
{
}

/// A halfword is its two bytes, the lower address first, wherever both lie in one region.
pub proof fn halfword_is_two_bytes(m: MemView, pa: u32)
    requires
        m.wf(),
        pa < 0xFFFF_FFFF,
    ensures
        m.half(pa) is Some <==> m.byte(pa) is Some && m.byte((pa + 1) as u32) is Some,
        m.half(pa) is Some ==> m.half(pa)->0 == m.byte(pa)->0 + 256 * m.byte((pa + 1) as u32)->0,
{
    reveal(words::le16);
}

proof fn translation_bits(e: u32, va: u32)
    by (bit_vector)
    ensures
        va >> 20 < 4096,
        (va >> 12) & 0xFF <= 0xFF,
        e & 0xFFFF_FC00 <= 0xFFFF_FC00,
        (e & 0xFFFF_FC00) % 0x400 == 0,
        e & 3 == 0 || e & 3 == 1 || e & 3 == 2 || e & 3 == 3,
        ((e & 0xFFF0_0000) | (va & 0x000F_FFFF)) >> 20 == e >> 20,
        ((e & 0xFFF0_0000) | (va & 0x000F_FFFF)) % 0x10_0000 == va % 0x10_0000,
        ((e & 0xFFFF_0000) | (va & 0x0000_FFFF)) >> 16 == e >> 16,
        ((e & 0xFFFF_0000) | (va & 0x0000_FFFF)) % 0x1_0000 == va % 0x1_0000,
        ((e & 0xFFFF_F000) | (va & 0x0000_0FFF)) >> 12 == e >> 12,
        ((e & 0xFFFF_F000) | (va & 0x0000_0FFF)) % 0x1000 == va % 0x1000,
{
}

/// Whether `pa` is where second-level entry `l2` puts `va`: the base of its page, of 64 KiB or of
/// 4 KiB, with the rest of the address as it is; a fault entry puts it nowhere.
pub open spec fn paged(l2: u32, va: u32, pa: Option<u32>) -> bool {
    &&& l2 & 3 == 0 ==> pa is None
    &&& l2 & 3 == 1 ==> pa is Some && pa->0 >> 16 == l2 >> 16 && pa->0 % 0x1_0000 == va % 0x1_0000
    &&& l2 & 3 == 2 || l2 & 3 == 3 ==> pa is Some && pa->0 >> 12 == l2 >> 12 && pa->0 % 0x1000 == va
        % 0x1000
}

/// What an address means to the guest. Without its MMU, and below a fault or fine-table entry, it
/// has no translation. A section moves it by whole megabytes; a coarse table in ROM or RAM gives
/// it the page of the entry that its bits 19 to 12 number.
pub proof fn translation_follows_the_tables(m: MemView, va: u32)
    requires
        m.wf(),
    ensures
        !m.mmu_on ==> m.translate(va) is None,
        m.mmu_on ==> {
            let l1 = meant(m.ram, 4 * (va >> 20), m.guest_test);
            let table = (l1 & 0xFFFF_FC00) as int;
            let at = table + 4 * ((va >> 12) & 0xFF);
            &&& l1 & 3 == 0 || l1 & 3 == 3 ==> m.translate(va) is None
            &&& l1 & 3 == 2 ==> m.translate(va) is Some && m.translate(va)->0 >> 20 == l1 >> 20
                && m.translate(va)->0 % 0x10_0000 == va % 0x10_0000
            &&& l1 & 3 == 1 && table < 0x0100_0000 ==> paged(
                meant(m.rom, at, m.guest_test),
                va,
                m.translate(va),
            )
            &&& l1 & 3 == 1 && 0x0400_0000 <= table < 0x0440_0000 ==> paged(
                meant(m.ram, at - 0x0400_0000, m.guest_test),
                va,
                m.translate(va),
            )
        },
{
    translation_bits(va, va);
    words::be32_is_swapped_le32(m.ram, 4 * (va >> 20));
    let l1 = meant(m.ram, 4 * (va >> 20), m.guest_test);
    assert(locate(0x0400_0000 + (va >> 20) * 4, 4, false) == Some((Region::Ram, (va >> 20) * 4int)));
    translation_bits(l1, va);
    let at = (l1 & 0xFFFF_FC00) + ((va >> 12) & 0xFF) * 4;
    if let Some((r, off)) = locate(at, 4, false) {
        words::be32_is_swapped_le32(m.region(r), off);
        translation_bits(meant(m.region(r), off, m.guest_test), va);
    }
}

/// Reading back a word that was stored: the value, whatever was there before.
pub proof fn stored_word_reads_back(m: MemView, pa: u32, value: u32)
    requires
        m.wf(),
        m.writable(pa, 4),
    ensures
        m.store_word(pa, value).word(pa) == Some(value),
        m.store_word(pa, value).wf(),
{
    let (r, off) = locate(pa as int, 4, true)->0;
    words::put_le32_reads_back(m.region(r), off, value);
}

/// A word store leaves every word that does not overlap it, and the ROM, unchanged.
pub proof fn store_word_frames(m: MemView, pa: u32, value: u32, other: u32)
    requires
        m.wf(),
        other + 4 <= pa || pa + 4 <= other,
    ensures
        m.store_word(pa, value).word(other) == m.word(other),
        m.store_word(pa, value).rom == m.rom,
{
    if locate(pa as int, 4, true) is Some && locate(other as int, 4, false) is Some {
        let (r, off) = locate(pa as int, 4, true)->0;
        let (r2, off2) = locate(other as int, 4, false)->0;
        if r == r2 {
            words::put_le32_frames(m.region(r), off, value, off2);
        }
    }
}

proof fn table_index_bits(x: u32)
    by (bit_vector)
    ensures
        x >> 20 < 4096,
        x & 0xFFFF_FC00 <= 0xFFFF_FC00,
        (x & 0xFFFF_FC00) % 0x400 == 0,
        (x >> 12) & 0xFF <= 0xFF,
        x & 3 <= 3,
{
}

impl GuestMem {
    /// Every store has its fixed size.
    pub open spec fn wf(self) -> bool {
        self@.wf()
    }

    /// Zeroed memory with the given code bitmap.
    pub fn new(reach: Vec<u8>, guest_test: bool) -> (mem: GuestMem)
        ensures
            mem.wf(),
            mem@ == (MemView {
                rom: Seq::new(ROM_SIZE as nat, |i: int| 0u8),
                ram: Seq::new(RAM_SIZE as nat, |i: int| 0u8),
                fb: Seq::new(FB_SIZE as nat, |i: int| 0u8),
                scratch: Seq::new(SCRATCH_POOL_SIZE as nat, |i: int| 0u8),
                reach: reach@,
                mmu_on: false,
                guest_test,
            }),
    {
        let mem = GuestMem {
            rom: vec![0u8; ROM_SIZE],
            ram: vec![0u8; RAM_SIZE],
            fb: vec![0u8; FB_SIZE],
            scratch: vec![0u8; SCRATCH_POOL_SIZE],
            reach,
            mmu_on: false,
            guest_test,
        };
        assert(mem.rom@ =~= Seq::new(ROM_SIZE as nat, |i: int| 0u8));
        assert(mem.ram@ =~= Seq::new(RAM_SIZE as nat, |i: int| 0u8));
        assert(mem.fb@ =~= Seq::new(FB_SIZE as nat, |i: int| 0u8));
        assert(mem.scratch@ =~= Seq::new(SCRATCH_POOL_SIZE as nat, |i: int| 0u8));
        mem
    }

    /// The bytes of one region.
    pub fn region(&self, r: Region) -> (bytes: &Vec<u8>)
        ensures
            bytes@ == self@.region(r),
    {
        match r {
            Region::Rom => &self.rom,
            Region::Ram => &self.ram,
            Region::Fb => &self.fb,
            Region::Scratch => &self.scratch,
        }
    }

    /// Stores a word into a region, as a little-endian host does.
    pub fn set_word(&mut self, r: Region, off: usize, value: u32)
        requires
            off + 4 <= old(self)@.region(r).len(),
        ensures
            final(self)@ == old(self)@.with_region(
                r,
                words::put_le32(old(self)@.region(r), off as int, value),
            ),
    {
        match r {
            Region::Rom => words::set_le32(&mut self.rom, off, value),
            Region::Ram => words::set_le32(&mut self.ram, off, value),
            Region::Fb => words::set_le32(&mut self.fb, off, value),
            Region::Scratch => words::set_le32(&mut self.scratch, off, value),
        }
    }

    /// Stores a byte into a region.
    pub fn set_byte(&mut self, r: Region, off: usize, value: u8)
        requires
            off < old(self)@.region(r).len(),
        ensures
            final(self)@ == old(self)@.with_region(
                r,
                old(self)@.region(r).update(off as int, value),
            ),
    {
        match r {
            Region::Rom => self.rom.set(off, value),
            Region::Ram => self.ram.set(off, value),
            Region::Fb => self.fb.set(off, value),
            Region::Scratch => self.scratch.set(off, value),
        }
    }
}

/// Whether ROM word `idx` (its offset divided by four) is code. An index past the
/// bitmap is data.
pub fn rom_word_is_code(mem: &GuestMem, idx: usize) -> (code: bool)
    ensures
        code == mem@.is_code(idx as int),
{
    if idx / 8 >= mem.reach.len() {
        return false;
    }
    let bit: u8 = (idx % 8) as u8;
    (mem.reach[idx / 8] >> bit) & 1 != 0
}

/// Maps a guest physical access to its backing region and offset. `for_write` leaves
/// the ROM out.
pub fn host_addr_for(pa: u32, size: u32, for_write: bool) -> (at: Option<(Region, usize)>)
    requires
        size <= 4,
    ensures
        match at {
            Some((r, off)) => locate(pa as int, size as int, for_write) == Some((r, off as int)),
            None => locate(pa as int, size as int, for_write) is None,
        },
{
    let end: u64 = pa as u64 + size as u64;
    if !for_write && end <= ROM_SIZE as u64 {
        return Some((Region::Rom, pa as usize));
    }
    if RAM_IPA_BASE <= pa && pa < RAM_IPA_BASE + RAM_SIZE as u32 && end <= RAM_IPA_BASE as u64
        + RAM_SIZE as u64 {
        return Some((Region::Ram, (pa - RAM_IPA_BASE) as usize));
    }
    if FB_IPA_BASE <= pa && pa < FB_IPA_BASE + FB_SIZE as u32 && end <= FB_IPA_BASE as u64
        + FB_SIZE as u64 {
        return Some((Region::Fb, (pa - FB_IPA_BASE) as usize));
    }
    if SCRATCH_POOL_IPA <= pa && pa < SCRATCH_POOL_IPA + SCRATCH_POOL_SIZE as u32 && end
        <= SCRATCH_POOL_IPA as u64 + SCRATCH_POOL_SIZE as u64 {
        return Some((Region::Scratch, (pa - SCRATCH_POOL_IPA) as usize));
    }
    None
}

/// Reads the word at a guest physical address; `None` outside the regions.
pub fn read_word_pa(mem: &GuestMem, pa: u32) -> (w: Option<u32>)
    requires
        mem.wf(),
    ensures
        w == mem@.word(pa),
{
    match host_addr_for(pa, 4, false) {
        Some((r, off)) => Some(words::get_le32(mem.region(r), off)),
        None => None,
    }
}

/// Reads the halfword at a guest physical address.
pub fn read_halfword_pa(mem: &GuestMem, pa: u32) -> (w: Option<u16>)
    requires
        mem.wf(),
    ensures
        w == mem@.half(pa),
{
    match host_addr_for(pa, 2, false) {
        Some((r, off)) => Some(words::get_le16(mem.region(r), off)),
        None => None,
    }
}

/// Reads the byte at a guest physical address.
pub fn read_byte_pa(mem: &GuestMem, pa: u32) -> (b: Option<u8>)
    requires
        mem.wf(),
    ensures
        b == mem@.byte(pa),
{
    match host_addr_for(pa, 1, false) {
        Some((r, off)) => Some(mem.region(r)[off]),
        None => None,
    }
}

/// Writes the word at a guest physical address; refused outside the writable regions.
pub fn write_word_pa(mem: &mut GuestMem, pa: u32, value: u32) -> (done: bool)
    requires
        old(mem).wf(),
    ensures
        done == old(mem)@.writable(pa, 4),
        final(mem)@ == old(mem)@.store_word(pa, value),
        final(mem).wf(),
{
    match host_addr_for(pa, 4, true) {
        Some((r, off)) => {
            mem.set_word(r, off, value);
            true
        },
        None => false,
    }
}

/// Writes the byte at a guest physical address; refused outside the writable regions.
pub fn write_byte_pa(mem: &mut GuestMem, pa: u32, value: u8) -> (done: bool)
    requires
        old(mem).wf(),
    ensures
        done == old(mem)@.writable(pa, 1),
        final(mem)@ == old(mem)@.store_byte(pa, value),
        final(mem).wf(),
{
    match host_addr_for(pa, 1, true) {
        Some((r, off)) => {
            mem.set_byte(r, off, value);
            true
        },
        None => false,
    }
}

/// Reads the page-table entry at `off` of a region as the value the guest meant.
pub fn read_pt_entry(mem: &GuestMem, r: Region, off: usize) -> (entry: u32)
    requires
        off + 4 <= mem@.region(r).len(),
    ensures
        entry == mem@.data_form(words::le32(mem@.region(r), off as int)),
{
    let raw = words::get_le32(mem.region(r), off);
    if mem.guest_test {
        raw
    } else {
        words::swap_bytes32(raw)
    }
}

/// Writes the page-table entry at `off` of a region so that the guest's walk sees `value`.
pub fn write_pt_entry(mem: &mut GuestMem, r: Region, off: usize, value: u32)
    requires
        off + 4 <= old(mem)@.region(r).len(),
    ensures
        final(mem)@ == old(mem)@.with_region(
            r,
            words::put_le32(old(mem)@.region(r), off as int, old(mem)@.data_form(value)),
        ),
{
    let raw = if mem.guest_test {
        value
    } else {
        words::swap_bytes32(value)
    };
    mem.set_word(r, off, raw);
}

/// Walks the stage-1 short-descriptor tables rooted at the start of RAM: L1 sections,
/// coarse tables, and large and small pages. `None` while the MMU is off.
pub fn translate_va(mem: &GuestMem, va: u32) -> (pa: Option<u32>)
    requires
        mem.wf(),
    ensures
        pa == mem@.translate(va),
{
    if !mem.mmu_on {
        return None;
    }
    proof {
        table_index_bits(va);
    }
    let l1_pa: u32 = 0x0400_0000 + (va >> 20) * 4;
    let l1: u32 = match host_addr_for(l1_pa, 4, false) {
        Some((r, off)) => read_pt_entry(mem, r, off),
        None => {
            return None;
        },
    };
    proof {
        table_index_bits(l1);
    }
    match l1 & 3 {
        2 => Some((l1 & 0xFFF0_0000) | (va & 0x000F_FFFF)),
        1 => {
            let l2_pa: u32 = (l1 & 0xFFFF_FC00) + ((va >> 12) & 0xFF) * 4;
            let l2: u32 = match host_addr_for(l2_pa, 4, false) {
                Some((r, off)) => read_pt_entry(mem, r, off),
                None => {
                    return None;
                },
            };
            proof {
                table_index_bits(l2);
            }
            match l2 & 3 {
                1 => Some((l2 & 0xFFFF_0000) | (va & 0x0000_FFFF)),
                2 | 3 => Some((l2 & 0xFFFF_F000) | (va & 0x0000_0FFF)),
                _ => None,
            }
        },
        _ => None,
    }
}

/// Writes a word at a guest virtual address through the stage-1 walk.
pub fn write_word_va(mem: &mut GuestMem, va: u32, value: u32) -> (done: bool)
    requires
        old(mem).wf(),
    ensures
        final(mem).wf(),
        match old(mem)@.translate(va) {
            Some(pa) => {
                &&& done == old(mem)@.writable(pa, 4)
                &&& final(mem)@ == old(mem)@.store_word(pa, value)
            },
            None => !done && final(mem)@ == old(mem)@,
        },
{
    match translate_va(mem, va) {
        Some(pa) => write_word_pa(mem, pa, value),
        None => false,
    }
}

/// Reads a word at a guest virtual address through the stage-1 walk.
pub fn read_word_va(mem: &GuestMem, va: u32) -> (w: Option<u32>)
    requires
        mem.wf(),
    ensures
        w == (match mem@.translate(va) {
            Some(pa) => mem@.word(pa),
            None => None,
        }),
{
    match translate_va(mem, va) {
        Some(pa) => read_word_pa(mem, pa),
        None => None,
    }
}

} // verus!
