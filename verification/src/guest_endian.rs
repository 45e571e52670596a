//! Guest memory as the guest itself sees it.
//!
//! The guest stores data big-endian, so a word is byte-swapped between its value and the
//! host's view of it. Instruction words, those of the ROM's code and those that the
//! hypervisor writes, are little-endian and are not swapped. In guest-test mode the guest
//! is little-endian and words are kept as they are, while bytes and halfwords sit in the
//! opposite lane of their word.

use crate::guest_mem;
use crate::guest_mem::{translate_va, GuestMem, MemView, ROM_SIZE};
use crate::guest_trampolines;
use crate::words;
use vstd::prelude::*;

verus! {

/// Whether the word at `pa` is an instruction word.
pub open spec fn code_at(m: MemView, pa: u32) -> bool {
    guest_trampolines::hypervisor_code(pa) || (pa + 4 <= ROM_SIZE && m.is_code(pa as int / 4))
}

/// Conversion between the host's view of the word at `pa` and the guest's value of it.
pub open spec fn swapped_at(m: MemView, pa: u32, w: u32) -> u32 {
    if m.guest_test || code_at(m, pa) {
        w
    } else {
        words::swap32(w)
    }
}

/// The guest's value of the word at physical address `pa`.
pub open spec fn value_pa(m: MemView, pa: u32) -> Option<u32> {
    match m.word(pa) {
        Some(w) => Some(swapped_at(m, pa, w)),
        None => None,
    }
}

/// The guest's value of the word at virtual address `va`; an address without translation
/// stands for itself.
pub open spec fn value_va(m: MemView, va: u32) -> Option<u32> {
    value_pa(m, m.effective(va))
}

/// The memory after the guest stores `value` at physical address `pa`.
pub open spec fn stored_pa(m: MemView, pa: u32, value: u32) -> MemView {
    m.store_word(pa, swapped_at(m, pa, value))
}

/// The lane of a byte at `pa` within its word.
pub open spec fn byte_lane(m: MemView, pa: u32) -> u32 {
    if m.guest_test {
        pa ^ 3
    } else {
        pa
    }
}

/// The byte the guest sees at physical address `pa`.
pub open spec fn byte_pa(m: MemView, pa: u32) -> Option<u8> {
    m.byte(byte_lane(m, pa))
}

/// The halfword the guest sees at physical address `pa`.
pub open spec fn half_pa(m: MemView, pa: u32) -> Option<u16> {
    if m.guest_test {
        m.half(pa ^ 2)
    } else {
        match m.half(pa) {
            Some(h) => Some(words::swap16(h)),
            None => None,
        }
    }
}

/// A word that the guest stores reads back, whether it is data or an instruction.
pub proof fn stored_value_reads_back(m: MemView, pa: u32, value: u32)
    requires
        m.wf(),
        m.writable(pa, 4),
    ensures
        value_pa(stored_pa(m, pa, value), pa) == Some(value),
{
    guest_mem::stored_word_reads_back(m, pa, swapped_at(m, pa, value));
    words::swap32_involutive(value);
}

/// A byte that the guest stores reads back.
pub proof fn stored_byte_reads_back(m: MemView, pa: u32, value: u8)
    requires
        m.wf(),
        m.writable(byte_lane(m, pa), 1),
    ensures
        byte_pa(m.store_byte(byte_lane(m, pa), value), pa) == Some(value),
{
}

/// Outside code, the bytes of a big-endian guest word are its value's bytes, the most
/// significant first.
pub proof fn word_bytes_are_big_endian(m: MemView, pa: u32)
    requires
        m.wf(),
        !m.guest_test,
        !code_at(m, pa),
        m.word(pa) is Some,
    ensures
        ({
            let v = value_pa(m, pa)->0;
            &&& byte_pa(m, pa) == Some(words::byte_of(v, 3))
            &&& byte_pa(m, (pa + 1) as u32) == Some(words::byte_of(v, 2))
            &&& byte_pa(m, (pa + 2) as u32) == Some(words::byte_of(v, 1))
            &&& byte_pa(m, (pa + 3) as u32) == Some(words::byte_of(v, 0))
        }),
{
    let (r, off) = guest_mem::locate(pa as int, 4, false)->0;
    let s = m.region(r);
    words::swap32_bytes(words::le32(s, off));
    words::le32_bytes(s, off);
}

fn pa_is_rom_code(mem: &GuestMem, pa: u32) -> (code: bool)
    ensures
        code == code_at(mem@, pa),
{
    if guest_trampolines::is_hypervisor_code_region(pa) {
        return true;
    }
    pa <= ROM_SIZE as u32 - 4 && guest_mem::rom_word_is_code(mem, (pa / 4) as usize)
}

fn swap_for_pa(mem: &GuestMem, pa: u32, raw: u32) -> (w: u32)
    ensures
        w == swapped_at(mem@, pa, raw),
{
    if mem.guest_test || pa_is_rom_code(mem, pa) {
        raw
    } else {
        words::swap_bytes32(raw)
    }
}

/// The physical address a guest access to `va` uses.
fn effective_pa(mem: &GuestMem, va: u32) -> (pa: u32)
    requires
        mem.wf(),
    ensures
        pa == mem@.effective(va),
{
    match translate_va(mem, va) {
        Some(pa) => pa,
        None => va,
    }
}

/// Reads the word at a guest virtual address.
pub fn guest_read_u32_va(mem: &GuestMem, va: u32) -> (w: Option<u32>)
    requires
        mem.wf(),
    ensures
        w == value_va(mem@, va),
{
    let pa = effective_pa(mem, va);
    guest_read_u32_pa(mem, pa)
}

/// Reads the word at a guest physical address.
pub fn guest_read_u32_pa(mem: &GuestMem, pa: u32) -> (w: Option<u32>)
    requires
        mem.wf(),
    ensures
        w == value_pa(mem@, pa),
{
    match guest_mem::read_word_pa(mem, pa) {
        Some(raw) => Some(swap_for_pa(mem, pa, raw)),
        None => None,
    }
}

/// Writes the word at a guest virtual address.
pub fn guest_write_u32_va(mem: &mut GuestMem, va: u32, value: u32) -> (done: bool)
    requires
        old(mem).wf(),
    ensures
        done == old(mem)@.writable(old(mem)@.effective(va), 4),
        final(mem)@ == stored_pa(old(mem)@, old(mem)@.effective(va), value),
        final(mem).wf(),
{
    let pa = effective_pa(mem, va);
    guest_write_u32_pa(mem, pa, value)
}

/// Writes the word at a guest physical address.
pub fn guest_write_u32_pa(mem: &mut GuestMem, pa: u32, value: u32) -> (done: bool)
    requires
        old(mem).wf(),
    ensures
        done == old(mem)@.writable(pa, 4),
        final(mem)@ == stored_pa(old(mem)@, pa, value),
        final(mem).wf(),
{
    let raw = swap_for_pa(mem, pa, value);
    guest_mem::write_word_pa(mem, pa, raw)
}

/// Reads the byte at a guest physical address.
pub fn guest_read_u8_pa(mem: &GuestMem, pa: u32) -> (b: Option<u8>)
    requires
        mem.wf(),
    ensures
        b == byte_pa(mem@, pa),
{
    if mem.guest_test {
        guest_mem::read_byte_pa(mem, pa ^ 3)
    } else {
        guest_mem::read_byte_pa(mem, pa)
    }
}

/// Reads the byte at a guest virtual address.
pub fn guest_read_u8_va(mem: &GuestMem, va: u32) -> (b: Option<u8>)
    requires
        mem.wf(),
    ensures
        b == byte_pa(mem@, mem@.effective(va)),
{
    let pa = effective_pa(mem, va);
    guest_read_u8_pa(mem, pa)
}

/// Writes the byte at a guest physical address.
pub fn guest_write_u8_pa(mem: &mut GuestMem, pa: u32, value: u8) -> (done: bool)
    requires
        old(mem).wf(),
    ensures
        done == old(mem)@.writable(byte_lane(old(mem)@, pa), 1),
        final(mem)@ == old(mem)@.store_byte(byte_lane(old(mem)@, pa), value),
        final(mem).wf(),
{
    if mem.guest_test {
        guest_mem::write_byte_pa(mem, pa ^ 3, value)
    } else {
        guest_mem::write_byte_pa(mem, pa, value)
    }
}

/// Writes the byte at a guest virtual address.
pub fn guest_write_u8_va(mem: &mut GuestMem, va: u32, value: u8) -> (done: bool)
    requires
        old(mem).wf(),
    ensures
        ({
            let lane = byte_lane(old(mem)@, old(mem)@.effective(va));
            &&& done == old(mem)@.writable(lane, 1)
            &&& final(mem)@ == old(mem)@.store_byte(lane, value)
        }),
        final(mem).wf(),
{
    let pa = effective_pa(mem, va);
    guest_write_u8_pa(mem, pa, value)
}

/// Reads the halfword at a guest physical address.
pub fn guest_read_u16_pa(mem: &GuestMem, pa: u32) -> (h: Option<u16>)
    requires
        mem.wf(),
    ensures
        h == half_pa(mem@, pa),
{
    if mem.guest_test {
        guest_mem::read_halfword_pa(mem, pa ^ 2)
    } else {
        match guest_mem::read_halfword_pa(mem, pa) {
            Some(h) => Some(words::swap_bytes16(h)),
            None => None,
        }
    }
}

/// Reads the halfword at a guest virtual address.
pub fn guest_read_u16_va(mem: &GuestMem, va: u32) -> (h: Option<u16>)
    requires
        mem.wf(),
    ensures
        h == half_pa(mem@, mem@.effective(va)),
{
    let pa = effective_pa(mem, va);
    guest_read_u16_pa(mem, pa)
}

/// The guest's value of the word at `addr`, read as a virtual address or, failing that, as
/// a physical one.
pub open spec fn value_any(m: MemView, addr: u32) -> Option<u32> {
    match value_va(m, addr) {
        Some(w) => Some(w),
        None => value_pa(m, addr),
    }
}

/// The address `k` words past `addr`, wrapping around.
pub open spec fn word_after(addr: u32, k: int) -> u32 {
    ((addr + 4 * k) % 0x1_0000_0000) as u32
}

/// How many of the first `n` words from `addr` on can be read before one cannot.
pub open spec fn readable_run(m: MemView, addr: u32, n: int) -> int
    decreases n,
{
    if n <= 0 {
        0
    } else {
        let k = readable_run(m, addr, n - 1);
        if k == n - 1 && value_any(m, word_after(addr, k)) is Some {
            n
        } else {
            k
        }
    }
}

/// Reads a run of guest bytes in the guest's order: whole words, most significant byte
/// first, up to the first word that cannot be read or that no longer fits in `len` bytes.
/// `None` when not even the first word can be read.
pub fn guest_read_bytes_va(mem: &GuestMem, addr: u32, len: usize) -> (out: Option<Vec<u8>>)
    requires
        mem.wf(),
    ensures
        ({
            let n = readable_run(mem@, addr, len as int / 4);
            match out {
                Some(bytes) => {
                    &&& n > 0
                    &&& bytes@ == bytes_of_words(mem@, addr, n)
                },
                None => n == 0,
            }
        }),
{
    let total: usize = len / 4;
    let mut bytes: Vec<u8> = Vec::new();
    let mut k: usize = 0;
    let mut cursor: u32 = addr;
    while k < total
        invariant
            mem.wf(),
            k <= total,
            total == len as int / 4,
            cursor == word_after(addr, k as int),
            readable_run(mem@, addr, k as int) == k,
            bytes@ == bytes_of_words(mem@, addr, k as int),
        decreases total - k,
    {
        let w = match guest_read_u32_va(mem, cursor) {
            Some(w) => Some(w),
            None => guest_read_u32_pa(mem, cursor),
        };
        match w {
            Some(w) => {
                proof {
                    assert(readable_run(mem@, addr, k + 1) == k + 1);
                }
                bytes.push(words::nth_byte(w, 3));
                bytes.push(words::nth_byte(w, 2));
                bytes.push(words::nth_byte(w, 1));
                bytes.push(words::nth_byte(w, 0));
                assert(bytes@ =~= bytes_of_words(mem@, addr, k as int) + words::be_bytes(w));
                cursor = cursor.wrapping_add(4);
            },
            None => {
                proof {
                    run_stops(mem@, addr, k as int, total as int);
                }
                if k == 0 {
                    return None;
                }
                return Some(bytes);
            },
        }
        k = k + 1;
    }
    if k == 0 {
        None
    } else {
        Some(bytes)
    }
}

/// The bytes of the first `n` words from `addr` on, most significant first.
pub open spec fn bytes_of_words(m: MemView, addr: u32, n: int) -> Seq<u8>
    decreases n,
{
    if n <= 0 {
        Seq::empty()
    } else {
        bytes_of_words(m, addr, n - 1) + words::be_bytes(
            value_any(m, word_after(addr, n - 1))->0,
        )
    }
}

proof fn run_stops(m: MemView, addr: u32, k: int, n: int)
    requires
        0 <= k < n,
        readable_run(m, addr, k) == k,
        value_any(m, word_after(addr, k)) is None,
    ensures
        readable_run(m, addr, n) == k,
    decreases n,
{
    if n > k + 1 {
        run_stops(m, addr, k, n - 1);
    }
}

proof fn lane_bits(pa: u32)
    by (bit_vector)
    requires
        pa % 4 == 0,
    ensures
        pa ^ 3 == pa + 3,
        ((pa + 1) as u32) ^ 3 == pa + 2,
        ((pa + 2) as u32) ^ 3 == pa + 1,
        ((pa + 3) as u32) ^ 3 == pa,
        pa ^ 2 == pa + 2,
        ((pa + 2) as u32) ^ 2 == pa,
{
}

/// Which words are instructions: those of the ROM that the map of code marks, and those of the
/// hypervisor's own regions. An instruction is kept as it is, and a data word of a big-endian guest
/// has its bytes reversed; a little-endian guest's words are kept.
pub proof fn words_are_code_or_data(m: MemView, pa: u32)
    requires
        m.wf(),
        m.word(pa) is Some,
    ensures
        ({
            let own = 0x008F_FF00 <= pa < 0x00E0_0000 || 0x00FF_FD80 <= pa < 0x0100_0000;
            let code = own || (pa + 4 <= 0x0100_0000 && m.is_code(pa as int / 4));
            let w = m.word(pa)->0;
            &&& code || m.guest_test ==> value_pa(m, pa) == Some(w)
            &&& !code && !m.guest_test ==> value_pa(m, pa) == Some(words::swap32(w))
        }),
{
}

/// A guest access goes where the tables lead; an address without a translation stands for itself.
pub proof fn accesses_follow_the_tables(m: MemView, va: u32)
    ensures
        m.translate(va) matches Some(pa) ==> value_va(m, va) == value_pa(m, pa),
        m.translate(va) is None ==> value_va(m, va) == value_pa(m, va),
        value_va(m, va) is Some ==> value_any(m, va) == value_va(m, va),
        value_va(m, va) is None ==> value_any(m, va) == value_pa(m, va),
{
}

/// To the guest a data word is its bytes and its halfwords, the most significant first, whatever the
/// byte order that it is stored in.
pub proof fn words_bytes_and_halfwords_agree(m: MemView, pa: u32)
    requires
        m.wf(),
        pa % 4 == 0,
        m.word(pa) is Some,
        m.guest_test || !code_at(m, pa),
    ensures
        ({
            let v = value_pa(m, pa)->0;
            &&& value_pa(m, pa) is Some
            &&& byte_pa(m, pa) == Some(words::byte_of(v, 3))
            &&& byte_pa(m, (pa + 1) as u32) == Some(words::byte_of(v, 2))
            &&& byte_pa(m, (pa + 2) as u32) == Some(words::byte_of(v, 1))
            &&& byte_pa(m, (pa + 3) as u32) == Some(words::byte_of(v, 0))
            &&& half_pa(m, pa) is Some
            &&& half_pa(m, pa)->0 == 256 * words::byte_of(v, 3) + words::byte_of(v, 2)
            &&& half_pa(m, (pa + 2) as u32) is Some
            &&& half_pa(m, (pa + 2) as u32)->0 == 256 * words::byte_of(v, 1) + words::byte_of(v, 0)
        }),
{
    lane_bits(pa);
    let (r, off) = guest_mem::locate(pa as int, 4, false)->0;
    let s = m.region(r);
    words::swap32_bytes(words::le32(s, off));
    words::le32_bytes(s, off);
    reveal(words::le16);
    reveal(words::swap16);
}

/// A run takes in every word up to the first that cannot be read, and none behind it.
pub proof fn runs_end_at_the_first_gap(m: MemView, addr: u32, n: int)
    requires
        0 <= n,
    ensures
        ({
            let k = readable_run(m, addr, n);
            &&& 0 <= k <= n
            &&& forall|i: int|
                0 <= i < k ==> (#[trigger] value_any(m, word_after(addr, i))) is Some
            &&& k < n ==> value_any(m, word_after(addr, k)) is None
        }),
        forall|i: int|
            addr + 4 * i <= u32::MAX && 0 <= i ==> #[trigger] word_after(addr, i) == addr + 4 * i,
    decreases n,
{
    if n > 0 {
        runs_end_at_the_first_gap(m, addr, n - 1);
    }
}

/// The bytes of a run are four to a word, and byte `j` of word `i` is the guest's.
pub proof fn run_bytes(m: MemView, addr: u32, n: int, i: int, j: int)
    requires
        0 <= i < n,
        0 <= j < 4,
    ensures
        bytes_of_words(m, addr, n).len() == 4 * n,
        bytes_of_words(m, addr, n)[4 * i + j] == words::be_bytes(
            value_any(m, word_after(addr, i))->0,
        )[j],
    decreases n,
{
    reveal_with_fuel(bytes_of_words, 2);
    if n > 1 && i < n - 1 {
        run_bytes(m, addr, n - 1, i, j);
    } else if n > 1 {
        run_bytes(m, addr, n - 1, 0, 0);
    }
}

} // verus!
