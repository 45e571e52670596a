//! The AArch32 trampolines that the hypervisor writes into the ROM: the undefined
//! instruction vector and its floating-point bypass, the data-abort vector with its fast
//! path, and the return stub.
//!
//! Instruction words are stored as the little-endian host writes them, which is what the
//! processor fetches; literals are stored so that a guest load gives the value.

use crate::arch::aarch32_emit;
use crate::guest_mem::{GuestMem, MemView, Region, ROM_SIZE};
use crate::words;
use vstd::prelude::*;

verus! {

broadcast use words::put_le32_len;

/// Scratch words of the trampolines, in the last page of the scratch pool; the address
/// holds with the MMU off and on.
pub const HYP_TRAMP_SCRATCH_BASE: u32 = 0x0600_F000;

/// Where the data-abort trampolines save LR_abt, SP_abt and SPSR_abt.
pub const DABT_SAVE_PA: u32 = 0x0600_F0A0;

/// The undefined-instruction trampoline.
pub const UND_TRAMP_OFFSET: usize = 0x00FF_FF00;

/// The stub that sends floating-point instructions straight to the guest's own emulator.
pub const FPA_BYPASS_STUB_OFFSET: usize = 0x00FF_FEC0;

/// The data-abort trampoline that enters the hypervisor.
pub const DABT_TRAMP_OFFSET: usize = 0x00FF_FFA8;

/// The data-abort trampoline that forwards the common aborts without leaving the guest.
pub const DABT_FAST_TRAMP_OFFSET: usize = 0x008F_FF00;

/// The guest kernel's data-abort handler.
pub const DABT_FAST_TRAMP_DAH_TARGET: u32 = 0x0039_3114;

/// The guest's floating-point emulator entry.
pub const FPE_ENTRY: u32 = 0x0038_D874;

/// The stub through which an undefined-instruction trap returns to the guest.
pub const UND_RETURN_STUB_OFFSET: usize = 0x00FF_FFE4;

pub const UND_RETURN_STUB_VA: u32 = 0x00FF_FFE4;

/// The target-PC literal of the return stub.
pub const UND_RETURN_STUB_LITERAL_OFFSET: usize = UND_RETURN_STUB_OFFSET + 8;

/// Start of the patch-stub arena, the first of the code regions at the ROM's end.
pub const PATCH_STUB_ARENA_BASE: u32 = 0x00FF_FD80;

/// End of the code regions at the ROM's end.
pub const ROM_TAIL_STUBS_END: u32 = 0x0100_0000;

pub const TRACER_POOL_BASE: u32 = 0x0090_0000;

pub const TRACER_POOL_END: u32 = 0x00E0_0000;

/// Hypervisor-call immediate of the undefined-instruction trampoline.
pub const HVC_UND: u32 = 0x10;

/// Hypervisor-call immediate of the diagnostic halt.
pub const HVC_DIAG: u32 = 0x11;

/// Hypervisor-call immediate of the alignment-fault path.
pub const HVC_ALIGN: u32 = 0x13;

/// The encoding of `hvc #imm`.
pub open spec fn hvc_word(imm: u32) -> u32 {
    0xE140_0070 | ((imm & 0xFFF0) << 4) | (imm & 0xF)
}

/// Encodes `hvc #imm`.
pub fn hvc_insn(imm: u32) -> (insn: u32)
    ensures
        insn == hvc_word(imm),
{
    0xE140_0070 | ((imm & 0xFFF0) << 4) | (imm & 0xF)
}

/// The regions that the hypervisor fills with instruction words at run time: the fast
/// data-abort trampoline, the tracer pool, and the stubs at the ROM's end.
pub open spec fn hypervisor_code(pa: u32) -> bool {
    ||| DABT_FAST_TRAMP_OFFSET <= pa < TRACER_POOL_END
    ||| PATCH_STUB_ARENA_BASE <= pa < ROM_TAIL_STUBS_END
}

/// Whether `pa` lies in a region that the hypervisor fills with instruction words at run
/// time. Such words are not byte-swapped on a guest read, and a guest PC there must not
/// anchor a snapshot.
pub fn is_hypervisor_code_region(pa: u32) -> (inside: bool)
    ensures
        inside == hypervisor_code(pa),
{
    if DABT_FAST_TRAMP_OFFSET as u32 <= pa && pa < TRACER_POOL_BASE {
        return true;
    }
    if TRACER_POOL_BASE <= pa && pa < TRACER_POOL_END {
        return true;
    }
    if PATCH_STUB_ARENA_BASE <= pa && pa < ROM_TAIL_STUBS_END {
        return true;
    }
    false
}

/// Stores an instruction word at ROM word `idx`.
pub fn write_rom_code_word(mem: &mut GuestMem, idx: usize, insn: u32)
    requires
        old(mem).wf(),
        4 * idx + 4 <= ROM_SIZE,
    ensures
        final(mem)@ == old(mem)@.set_rom_word(idx as int, insn),
        final(mem).wf(),
{
    mem.set_word(Region::Rom, 4 * idx, insn);
}

/// The host word of a data value in the guest's byte order.
pub fn data_word(mem: &GuestMem, value: u32) -> (w: u32)
    ensures
        w == mem@.data_form(value),
{
    if mem.guest_test {
        value
    } else {
        words::swap_bytes32(value)
    }
}

/// Stores a data value at ROM word `idx` so that a guest load gives it back.
pub fn write_rom_data_word(mem: &mut GuestMem, idx: usize, value: u32)
    requires
        old(mem).wf(),
        4 * idx + 4 <= ROM_SIZE,
    ensures
        final(mem)@ == old(mem)@.set_rom_word(idx as int, old(mem)@.data_form(value)),
        final(mem).wf(),
{
    let stored = data_word(mem, value);
    mem.set_word(Region::Rom, 4 * idx, stored);
}

/// The memory with `value` stored at ROM word `idx` as code or as data, whichever the
/// word is.
pub open spec fn set_by_kind(m: MemView, idx: int, value: u32) -> MemView {
    m.set_rom_word(
        idx,
        if m.is_code(idx) {
            value
        } else {
            m.data_form(value)
        },
    )
}

/// Stores a value at ROM word `idx` as code or as data, whichever the word is.
pub fn write_rom_word_by_kind(mem: &mut GuestMem, idx: usize, value: u32)
    requires
        old(mem).wf(),
        4 * idx + 4 <= ROM_SIZE,
    ensures
        final(mem)@ == set_by_kind(old(mem)@, idx as int, value),
        final(mem).wf(),
{
    if crate::guest_mem::rom_word_is_code(mem, idx) {
        write_rom_code_word(mem, idx, value);
    } else {
        write_rom_data_word(mem, idx, value);
    }
}

/// The memory with `ws` stored from ROM word `base` on.
pub open spec fn with_rom_words(m: MemView, base: int, ws: Seq<u32>) -> MemView {
    MemView { rom: words::put_words(m.rom, base, ws), ..m }
}

/// Stores a block of words from ROM word `base` on.
pub fn write_rom_words(mem: &mut GuestMem, base: usize, ws: &[u32])
    requires
        old(mem).wf(),
        4 * (base + ws@.len()) <= ROM_SIZE,
    ensures
        final(mem)@ == with_rom_words(old(mem)@, base as int, ws@),
        final(mem).wf(),
{
    let ghost f = |k: int| ws@[k - base];
    let mut i: usize = 0;
    assert(words::from_words(mem@.rom, base as int, base as int, f) =~= mem@.rom);
    while i < ws.len()
        invariant
            i <= ws@.len(),
            old(mem).wf(),
            mem.wf(),
            f == (|k: int| ws@[k - base]),
            4 * (base + ws@.len()) <= ROM_SIZE,
            mem@ == (MemView {
                rom: words::from_words(old(mem)@.rom, base as int, base + i, f),
                ..old(mem)@
            }),
        decreases ws@.len() - i,
    {
        proof {
            words::from_words_step(old(mem)@.rom, base as int, base + i, f);
        }
        mem.set_word(Region::Rom, 4 * (base + i), ws[i]);
        i = i + 1;
    }
}

/// The floating-point bypass: coprocessor instructions of coprocessors 1 and 2 go to the
/// guest's emulator, everything else to the undefined-instruction trampoline.
pub open spec fn fpa_bypass_words() -> Seq<u32> {
    seq![
        0xEE0D_CF50u32,
        0xE51E_C004,
        0xE20C_C40F,
        0xE35C_040C,
        0x135C_040D,
        0x135C_040E,
        0x1A00_0006,
        0xE51E_C004,
        0xE20C_CC0F,
        0xE35C_0C01,
        0x135C_0C02,
        0x1A00_0001,
        0xEE1D_CF50,
        aarch32_emit::branch_word(0x00FF_FEF4, FPE_ENTRY, aarch32_emit::COND_AL),
        0xEE1D_CF50,
        aarch32_emit::branch_word(0x00FF_FEFC, 0x00FF_FF00, aarch32_emit::COND_AL),
    ]
}

/// The undefined-instruction trampoline: R12 goes to the user thread register, then R0 to
/// R2, LR_und, SPSR_und and the faulting mode's SP and LR to the scratch words, then the
/// hypervisor is called. `save_base` is the literal with the scratch address.
pub open spec fn und_tramp_words(save_base: u32) -> Seq<u32> {
    seq![
        0xEE0D_CF50u32,
        0xE59F_C050,
        0xE58C_000C,
        0xE58C_1010,
        0xE58C_E000,
        0xE14F_0000,
        0xE58C_0004,
        0xE58C_2014,
        0xE200_101F,
        0xE381_10C0,
        0xE351_00D0,
        0x03A0_10DF,
        0xE129_F001,
        0xE58C_D018,
        0xE58C_E01C,
        0xE321_F0DB,
        0xE59C_2014,
        0xE321_F0D3,
        0xE1A0_000E,
        0xE58C_0008,
        0xE321_F0DB,
        hvc_word(HVC_UND),
        0xEAFF_FFFE,
        save_base,
    ]
}

/// The return stub: load the target PC from the literal behind it and return with the
/// saved program status.
pub open spec fn und_return_words(target: u32) -> Seq<u32> {
    seq![0xE59F_E000u32, 0xE1B0_F00E, target]
}

/// The memory with the undefined-instruction vector, the bypass, the trampoline and the
/// return stub in place.
pub open spec fn und_patched(m: MemView) -> MemView {
    let m1 = m.set_rom_word(
        1,
        aarch32_emit::branch_word(0x04, FPA_BYPASS_STUB_OFFSET as u32, aarch32_emit::COND_AL),
    );
    let m2 = with_rom_words(m1, FPA_BYPASS_STUB_OFFSET as int / 4, fpa_bypass_words());
    let m3 = with_rom_words(
        m2,
        UND_TRAMP_OFFSET as int / 4,
        und_tramp_words(m.data_form(HYP_TRAMP_SCRATCH_BASE)),
    );
    with_rom_words(
        m3,
        UND_RETURN_STUB_OFFSET as int / 4,
        und_return_words(m.data_form(0xDEAD_C0DE)),
    )
}

/// Installs the undefined-instruction vector at address 4 and everything behind it.
pub fn patch_und_vector(mem: &mut GuestMem)
    requires
        old(mem).wf(),
    ensures
        final(mem)@ == und_patched(old(mem)@),
        final(mem).wf(),
{
    let to_bypass = aarch32_emit::b(0x04, FPA_BYPASS_STUB_OFFSET as u32);
    write_rom_code_word(mem, 1, to_bypass);
    let stub: [u32; 16] = [
        0xEE0D_CF50,
        0xE51E_C004,
        0xE20C_C40F,
        0xE35C_040C,
        0x135C_040D,
        0x135C_040E,
        0x1A00_0006,
        0xE51E_C004,
        0xE20C_CC0F,
        0xE35C_0C01,
        0x135C_0C02,
        0x1A00_0001,
        0xEE1D_CF50,
        aarch32_emit::b(0x00FF_FEF4, FPE_ENTRY),
        0xEE1D_CF50,
        aarch32_emit::b(0x00FF_FEFC, 0x00FF_FF00),
    ];
    assert(stub@ =~= fpa_bypass_words());
    write_rom_words(mem, FPA_BYPASS_STUB_OFFSET / 4, &stub);
    let save_base = data_word(mem, HYP_TRAMP_SCRATCH_BASE);
    let tramp: [u32; 24] = [
        0xEE0D_CF50,
        0xE59F_C050,
        0xE58C_000C,
        0xE58C_1010,
        0xE58C_E000,
        0xE14F_0000,
        0xE58C_0004,
        0xE58C_2014,
        0xE200_101F,
        0xE381_10C0,
        0xE351_00D0,
        0x03A0_10DF,
        0xE129_F001,
        0xE58C_D018,
        0xE58C_E01C,
        0xE321_F0DB,
        0xE59C_2014,
        0xE321_F0D3,
        0xE1A0_000E,
        0xE58C_0008,
        0xE321_F0DB,
        hvc_insn(HVC_UND),
        0xEAFF_FFFE,
        save_base,
    ];
    assert(tramp@ =~= und_tramp_words(save_base));
    write_rom_words(mem, UND_TRAMP_OFFSET / 4, &tramp);
    let target = data_word(mem, 0xDEAD_C0DE);
    let ret: [u32; 3] = [0xE59F_E000, 0xE1B0_F00E, target];
    assert(ret@ =~= und_return_words(target));
    write_rom_words(mem, UND_RETURN_STUB_OFFSET / 4, &ret);
}

/// The address of word `k` of the fast data-abort trampoline.
pub open spec fn fast_pc(k: int) -> u32 {
    (DABT_FAST_TRAMP_OFFSET + 4 * k) as u32
}

/// `beq` from word `from` to word `to` of the fast trampoline.
pub open spec fn fast_beq(from: int, to: int) -> u32 {
    aarch32_emit::branch_word(fast_pc(from), fast_pc(to), aarch32_emit::COND_EQ)
}

/// `ldr r0` at word `from` of the literal at word `to` of the fast trampoline.
pub open spec fn fast_ldr(from: int, to: int) -> u32 {
    aarch32_emit::ldr_lit_word(fast_pc(from), 0, fast_pc(to))
}

/// The fast data-abort trampoline: save R0, R1 and the abort-mode state, skip a
/// cache-maintenance instruction that faulted, send the fault codes 7, 15, 9, 13, 6 and 3
/// to the guest kernel's handler, and everything else to the slow trampoline.
pub open spec fn fast_dabt_words(m: MemView) -> Seq<u32> {
    seq![
        0xEE0D_0F50u32,
        0xEE0D_1F70,
        fast_ldr(2, 38),
        0xE580_E000,
        0xE580_D004,
        0xE14F_1000,
        0xE580_1008,
        0xE51E_1008,
        0xE6BF_1F31,
        fast_ldr(9, 39),
        0xE001_1000,
        fast_ldr(11, 40),
        0xE131_0000,
        fast_beq(13, 35),
        0xEE15_0F10,
        0xE200_000F,
        0xE350_0007,
        fast_beq(17, 31),
        0xE350_000F,
        fast_beq(19, 31),
        0xE350_0009,
        fast_beq(21, 31),
        0xE350_000D,
        fast_beq(23, 31),
        0xE350_0006,
        fast_beq(25, 31),
        0xE350_0003,
        fast_beq(27, 31),
        0xEE1D_0F50,
        0xEE1D_1F70,
        aarch32_emit::branch_word(fast_pc(30), DABT_TRAMP_OFFSET as u32, aarch32_emit::COND_AL),
        0xEE1D_0F50,
        0xEE1D_1F70,
        0xE51F_F004,
        m.data_form(DABT_FAST_TRAMP_DAH_TARGET),
        0xEE1D_0F50,
        0xEE1D_1F70,
        0xE25E_F004,
        m.data_form(DABT_SAVE_PA),
        m.data_form(0x0FFF_0F10),
        m.data_form(0x0E07_0F10),
    ]
}

/// `beq` between two words of the fast trampoline.
fn beq_fast(from: u32, to: u32) -> (insn: u32)
    requires
        from <= 40,
        to <= 40,
    ensures
        insn == fast_beq(from as int, to as int),
{
    aarch32_emit::b_cond(
        DABT_FAST_TRAMP_OFFSET as u32 + 4 * from,
        DABT_FAST_TRAMP_OFFSET as u32 + 4 * to,
        aarch32_emit::COND_EQ,
    )
}

proof fn encoding_bits(d: u32, imm: u32)
    by (bit_vector)
    ensures
        d < 0x0100_0000 ==> d as i32 == d,
        imm < 0x1_0000 ==> 0xE140_0070 | ((imm & 0xFFF0) << 4) | (imm & 0xF) == 0xE140_0070 + imm / 16
            * 0x100 + imm % 16,
{
}

/// `ldr r0` of a literal of the fast trampoline.
fn ldr_fast(from: u32, to: u32) -> (insn: u32)
    requires
        from + 2 <= to <= 40,
    ensures
        insn == fast_ldr(from as int, to as int),
{
    proof {
        encoding_bits((4 * to - 4 * from - 8) as u32, 0);
    }
    aarch32_emit::ldr_rd_lit(
        DABT_FAST_TRAMP_OFFSET as u32 + 4 * from,
        0,
        DABT_FAST_TRAMP_OFFSET as u32 + 4 * to,
    )
}

/// Installs the fast data-abort trampoline.
pub fn install_dabt_fast_trampoline(mem: &mut GuestMem)
    requires
        old(mem).wf(),
    ensures
        final(mem)@ == with_rom_words(
            old(mem)@,
            DABT_FAST_TRAMP_OFFSET as int / 4,
            fast_dabt_words(old(mem)@),
        ),
        final(mem).wf(),
{
    let ws: [u32; 41] = [
        0xEE0D_0F50,
        0xEE0D_1F70,
        ldr_fast(2, 38),
        0xE580_E000,
        0xE580_D004,
        0xE14F_1000,
        0xE580_1008,
        0xE51E_1008,
        0xE6BF_1F31,
        ldr_fast(9, 39),
        0xE001_1000,
        ldr_fast(11, 40),
        0xE131_0000,
        beq_fast(13, 35),
        0xEE15_0F10,
        0xE200_000F,
        0xE350_0007,
        beq_fast(17, 31),
        0xE350_000F,
        beq_fast(19, 31),
        0xE350_0009,
        beq_fast(21, 31),
        0xE350_000D,
        beq_fast(23, 31),
        0xE350_0006,
        beq_fast(25, 31),
        0xE350_0003,
        beq_fast(27, 31),
        0xEE1D_0F50,
        0xEE1D_1F70,
        aarch32_emit::b(DABT_FAST_TRAMP_OFFSET as u32 + 4 * 30, DABT_TRAMP_OFFSET as u32),
        0xEE1D_0F50,
        0xEE1D_1F70,
        0xE51F_F004,
        data_word(mem, DABT_FAST_TRAMP_DAH_TARGET),
        0xEE1D_0F50,
        0xEE1D_1F70,
        0xE25E_F004,
        data_word(mem, DABT_SAVE_PA),
        data_word(mem, 0x0FFF_0F10),
        data_word(mem, 0x0E07_0F10),
    ];
    assert(ws@ =~= fast_dabt_words(mem@));
    write_rom_words(mem, DABT_FAST_TRAMP_OFFSET / 4, &ws);
}

/// The slow data-abort trampoline: save the abort-mode state, then call the hypervisor
/// with the alignment call for fault code 1 and with `dispatch` for every other.
pub open spec fn dabt_tramp_words(dispatch: u32, save_pa: u32) -> Seq<u32> {
    seq![
        0xEE0D_0F50u32,
        0xEE0D_1F70,
        0xE59F_0028,
        0xE580_E000,
        0xE580_D004,
        0xE14F_1000,
        0xE580_1008,
        0xEE15_0F10,
        0xE200_000F,
        0xE350_0001,
        0x0A00_0000,
        dispatch,
        hvc_word(HVC_ALIGN),
        0xEAFF_FFFE,
        save_pa,
    ]
}

/// The memory with the data-abort vector and both trampolines in place.
pub open spec fn dabt_patched(m: MemView, dispatch: u32) -> MemView {
    let m1 = m.set_rom_word(
        4,
        aarch32_emit::branch_word(0x10, DABT_FAST_TRAMP_OFFSET as u32, aarch32_emit::COND_AL),
    );
    let m2 = with_rom_words(m1, DABT_FAST_TRAMP_OFFSET as int / 4, fast_dabt_words(m));
    with_rom_words(
        m2,
        DABT_TRAMP_OFFSET as int / 4,
        dabt_tramp_words(dispatch, m.data_form(DABT_SAVE_PA)),
    )
}

/// Installs the data-abort vector at address 0x10 and both trampolines. `dispatch` is the
/// hypervisor call that takes the aborts the fast path does not forward.
pub fn patch_dabt_vector(mem: &mut GuestMem, dispatch: u32)
    requires
        old(mem).wf(),
    ensures
        final(mem)@ == dabt_patched(old(mem)@, dispatch),
        final(mem).wf(),
{
    let to_fast = aarch32_emit::b(0x10, DABT_FAST_TRAMP_OFFSET as u32);
    write_rom_code_word(mem, 4, to_fast);
    install_dabt_fast_trampoline(mem);
    assert(fast_dabt_words(mem@) =~= fast_dabt_words(old(mem)@));
    let save_pa = data_word(mem, DABT_SAVE_PA);
    let ws: [u32; 15] = [
        0xEE0D_0F50,
        0xEE0D_1F70,
        0xE59F_0028,
        0xE580_E000,
        0xE580_D004,
        0xE14F_1000,
        0xE580_1008,
        0xEE15_0F10,
        0xE200_000F,
        0xE350_0001,
        0x0A00_0000,
        dispatch,
        hvc_insn(HVC_ALIGN),
        0xEAFF_FFFE,
        save_pa,
    ];
    assert(ws@ =~= dabt_tramp_words(dispatch, save_pa));
    write_rom_words(mem, DABT_TRAMP_OFFSET / 4, &ws);
}

/// The memory with the scratch-address literals of both slow trampolines in place.
pub open spec fn literals_set(m: MemView) -> MemView {
    m.set_rom_word(
        UND_TRAMP_OFFSET as int / 4 + 23,
        m.data_form(HYP_TRAMP_SCRATCH_BASE),
    ).set_rom_word(DABT_TRAMP_OFFSET as int / 4 + 14, m.data_form(DABT_SAVE_PA))
}

/// Sets the trampolines' scratch-address literals for a guest whose MMU is on.
pub fn install_und_vector_swap_post_mmu(mem: &mut GuestMem)
    requires
        old(mem).wf(),
    ensures
        final(mem)@ == literals_set(old(mem)@),
        final(mem).wf(),
{
    write_rom_data_word(mem, UND_TRAMP_OFFSET / 4 + 23, HYP_TRAMP_SCRATCH_BASE);
    write_rom_data_word(mem, DABT_TRAMP_OFFSET / 4 + 14, DABT_SAVE_PA);
}

/// Sets the trampolines' scratch-address literals for a guest whose MMU is off; the
/// scratch pool has the same address either way.
pub fn install_und_vector_swap_pre_mmu(mem: &mut GuestMem)
    requires
        old(mem).wf(),
    ensures
        final(mem)@ == literals_set(old(mem)@),
        final(mem).wf(),
{
    write_rom_data_word(mem, UND_TRAMP_OFFSET / 4 + 23, HYP_TRAMP_SCRATCH_BASE);
    write_rom_data_word(mem, DABT_TRAMP_OFFSET / 4 + 14, DABT_SAVE_PA);
}

/// A block of words reads back, and words outside it are as they were.
pub proof fn rom_words_read_back(m: MemView, base: int, ws: Seq<u32>, k: int)
    requires
        m.wf(),
        0 <= base,
        4 * (base + ws.len()) <= ROM_SIZE,
        0 <= k,
        4 * k + 4 <= ROM_SIZE,
    ensures
        with_rom_words(m, base, ws).rom_word(k) == (if base <= k < base + ws.len() {
            ws[k - base]
        } else {
            m.rom_word(k)
        }),
{
    words::from_words_word(m.rom, base, base + ws.len(), |j: int| ws[j - base], k);
}

/// With both patches in place, the undefined-instruction vector leads to the bypass stub,
/// the data-abort vector to the fast trampoline, and every block reads back whole: no
/// block overlaps another.
pub proof fn trampolines_do_not_overlap(m: MemView, dispatch: u32)
    requires
        m.wf(),
    ensures
        ({
            let p = dabt_patched(und_patched(m), dispatch);
            &&& aarch32_emit::branch_target(p.rom_word(1), 0x04) == FPA_BYPASS_STUB_OFFSET
            &&& aarch32_emit::branch_target(p.rom_word(4), 0x10) == DABT_FAST_TRAMP_OFFSET
            &&& forall|k: int|
                0 <= k < 16 ==> #[trigger] p.rom_word(FPA_BYPASS_STUB_OFFSET / 4 + k)
                    == fpa_bypass_words()[k]
            &&& forall|k: int|
                0 <= k < 24 ==> #[trigger] p.rom_word(UND_TRAMP_OFFSET / 4 + k) == und_tramp_words(
                    m.data_form(HYP_TRAMP_SCRATCH_BASE),
                )[k]
            &&& forall|k: int|
                0 <= k < 3 ==> #[trigger] p.rom_word(UND_RETURN_STUB_OFFSET / 4 + k)
                    == und_return_words(m.data_form(0xDEAD_C0DE))[k]
            &&& forall|k: int|
                0 <= k < 15 ==> #[trigger] p.rom_word(DABT_TRAMP_OFFSET / 4 + k)
                    == dabt_tramp_words(dispatch, m.data_form(DABT_SAVE_PA))[k]
            &&& forall|k: int|
                0 <= k < 41 ==> #[trigger] p.rom_word(DABT_FAST_TRAMP_OFFSET / 4 + k)
                    == fast_dabt_words(m)[k]
        }),
{
    let u1 = m.set_rom_word(
        1,
        aarch32_emit::branch_word(0x04, FPA_BYPASS_STUB_OFFSET as u32, aarch32_emit::COND_AL),
    );
    let u2 = with_rom_words(u1, FPA_BYPASS_STUB_OFFSET as int / 4, fpa_bypass_words());
    let ut = und_tramp_words(m.data_form(HYP_TRAMP_SCRATCH_BASE));
    let u3 = with_rom_words(u2, UND_TRAMP_OFFSET as int / 4, ut);
    let ur = und_return_words(m.data_form(0xDEAD_C0DE));
    let u = with_rom_words(u3, UND_RETURN_STUB_OFFSET as int / 4, ur);
    let d1 = u.set_rom_word(
        4,
        aarch32_emit::branch_word(0x10, DABT_FAST_TRAMP_OFFSET as u32, aarch32_emit::COND_AL),
    );
    let fw = fast_dabt_words(m);
    assert(fast_dabt_words(u) =~= fw);
    let d2 = with_rom_words(d1, DABT_FAST_TRAMP_OFFSET as int / 4, fw);
    let dw = dabt_tramp_words(dispatch, m.data_form(DABT_SAVE_PA));
    let p = with_rom_words(d2, DABT_TRAMP_OFFSET as int / 4, dw);
    assert forall|k: int| 0 <= k && 4 * k + 4 <= ROM_SIZE implies #[trigger] p.rom_word(k) == (if 0x3F_FFEA
        <= k < 0x3F_FFF9 {
        dw[k - 0x3F_FFEA]
    } else if 0x23_FFC0 <= k < 0x23_FFE9 {
        fw[k - 0x23_FFC0]
    } else if k == 4 {
        d1.rom_word(4)
    } else if 0x3F_FFF9 <= k < 0x3F_FFFC {
        ur[k - 0x3F_FFF9]
    } else if 0x3F_FFC0 <= k < 0x3F_FFD8 {
        ut[k - 0x3F_FFC0]
    } else if 0x3F_FFB0 <= k < 0x3F_FFC0 {
        fpa_bypass_words()[k - 0x3F_FFB0]
    } else {
        u1.rom_word(k)
    }) by {
        rom_words_read_back(d2, DABT_TRAMP_OFFSET as int / 4, dw, k);
        rom_words_read_back(d1, DABT_FAST_TRAMP_OFFSET as int / 4, fw, k);
        if k != 4 {
            words::put_le32_frames(
                u.rom,
                16,
                aarch32_emit::branch_word(
                    0x10,
                    DABT_FAST_TRAMP_OFFSET as u32,
                    aarch32_emit::COND_AL,
                ),
                4 * k,
            );
        }
        rom_words_read_back(u3, UND_RETURN_STUB_OFFSET as int / 4, ur, k);
        rom_words_read_back(u2, UND_TRAMP_OFFSET as int / 4, ut, k);
        rom_words_read_back(u1, FPA_BYPASS_STUB_OFFSET as int / 4, fpa_bypass_words(), k);
    }
    words::put_le32_reads_back(
        m.rom,
        4,
        aarch32_emit::branch_word(0x04, FPA_BYPASS_STUB_OFFSET as u32, aarch32_emit::COND_AL),
    );
    words::put_le32_reads_back(
        u.rom,
        16,
        aarch32_emit::branch_word(0x10, DABT_FAST_TRAMP_OFFSET as u32, aarch32_emit::COND_AL),
    );
    encoding_bits(0x00FF_FEB4, 0);
    encoding_bits(0x008F_FEE8, 0);
    aarch32_emit::branch_reaches_target(
        0x04,
        FPA_BYPASS_STUB_OFFSET as u32,
        aarch32_emit::COND_AL,
    );
    aarch32_emit::branch_reaches_target(
        0x10,
        DABT_FAST_TRAMP_OFFSET as u32,
        aarch32_emit::COND_AL,
    );
    assert(p == dabt_patched(und_patched(m), dispatch));
    assert(p.rom_word(1) == u1.rom_word(1));
    assert(p.rom_word(4) == d1.rom_word(4));
}

/// A hypervisor call holds its number: the low four bits at the bottom, the others above eight more.
pub proof fn calls_hold_their_number(imm: u32)
    requires
        imm < 0x1_0000,
    ensures
        hvc_word(imm) as int == 0xE140_0070 + imm as int / 16 * 256 + imm as int % 16,
        hvc_word(HVC_DIAG) == 0xE140_0171,
{
    encoding_bits(0, imm);
    encoding_bits(0, 17);
}

/// Where the hypervisor's own code lies: from the fast trampoline to the end of the tracer pool, and from
/// the patch stubs to the end of the ROM.
pub proof fn code_lies_in_two_ranges(pa: u32)
    ensures
        hypervisor_code(pa) <==> (0x008F_FF00 <= pa && pa < 0x00E0_0000) || (0x00FF_FD80 <= pa && pa
            < 0x0100_0000),
{
}

/// The word that a branch `w` at word `k` of a block goes to, forwards.
pub open spec fn ahead(w: u32, k: int) -> int {
    k + 2 + w as int % 0x100_0000
}

/// The word of its block that a load from the PC at word `k` reads.
pub open spec fn loaded(w: u32, k: int) -> int {
    (4 * k + 8 + w as int % 0x1000) / 4
}

/// Which data aborts go to the guest kernel without leaving the guest: those whose fault code is 3, 6, 7,
/// 9, 13 or 15. Each is compared with the four bits of the fault status, and a branch on equality behind
/// the comparison goes to the words that load the kernel's handler. Every other code falls through to
/// the slow trampoline.
pub proof fn common_aborts_are_forwarded(m: MemView, code: u32)
    requires
        code < 16,
    ensures
        ({
            let w = fast_dabt_words(m);
            &&& w.len() == 41
            &&& w[14] == 0xEE15_0F10 && w[15] == 0xE200_000F
            &&& (exists|j: int|
                0 <= j < 6 && #[trigger] w[16 + 2 * j] == 0xE350_0000 + code && w[17 + 2 * j] as int
                    / 0x100_0000 == 0x0A && ahead(w[17 + 2 * j], 17 + 2 * j) == 31) <==> (code == 3
                || code == 6 || code == 7 || code == 9 || code == 13 || code == 15)
            &&& forall|j: int|
                0 <= j < 6 ==> (#[trigger] w[16 + 2 * j]) as int / 0x1_0000 == 0xE350
            &&& w[30] as int / 0x100_0000 == 0xEA && 0x008F_FF00 + 4 * ahead(w[30], 30) == 0x00FF_FFA8
            &&& w[33] == 0xE51F_F004
        }),
{
    let w = fast_dabt_words(m);
    aarch32_emit::branches_hold_their_distance(fast_pc(17), fast_pc(31), 0);
    aarch32_emit::branches_hold_their_distance(fast_pc(19), fast_pc(31), 0);
    aarch32_emit::branches_hold_their_distance(fast_pc(21), fast_pc(31), 0);
    aarch32_emit::branches_hold_their_distance(fast_pc(23), fast_pc(31), 0);
    aarch32_emit::branches_hold_their_distance(fast_pc(25), fast_pc(31), 0);
    aarch32_emit::branches_hold_their_distance(fast_pc(27), fast_pc(31), 0);
    aarch32_emit::branches_hold_their_distance(fast_pc(30), 0x00FF_FFA8, 14);
    assert(w[16] == 0xE350_0007 && ahead(w[17], 17) == 31);
    assert(w[18] == 0xE350_000F && ahead(w[19], 19) == 31);
    assert(w[20] == 0xE350_0009 && ahead(w[21], 21) == 31);
    assert(w[22] == 0xE350_000D && ahead(w[23], 23) == 31);
    assert(w[24] == 0xE350_0006 && ahead(w[25], 25) == 31);
    assert(w[26] == 0xE350_0003 && ahead(w[27], 27) == 31);
    assert forall|j: int| 0 <= j < 6 implies (#[trigger] w[16 + 2 * j]) as int / 0x1_0000 == 0xE350 by {
        assert(j == 0 || j == 1 || j == 2 || j == 3 || j == 4 || j == 5);
    }
    if code == 3 || code == 6 || code == 7 || code == 9 || code == 13 || code == 15 {
        let j: int = if code == 7 {
            0
        } else if code == 15 {
            1
        } else if code == 9 {
            2
        } else if code == 13 {
            3
        } else if code == 6 {
            4
        } else {
            5
        };
        assert(w[16 + 2 * j] == 0xE350_0000 + code && w[17 + 2 * j] as int / 0x100_0000 == 0x0A && ahead(
            w[17 + 2 * j],
            17 + 2 * j,
        ) == 31);
    }
}

/// What the fast trampoline keeps: R0 and R1 go to two thread registers and come back from the same two at
/// each of its three ends, LR_abt, SP_abt and SPSR_abt go to the save words, and a faulting
/// cache-maintenance instruction is told by a mask and its value and is returned behind.
pub proof fn fast_path_keeps_registers(m: MemView)
    ensures
        ({
            let w = fast_dabt_words(m);
            let lit = |k: int|
                if m.guest_test {
                    w[k]
                } else {
                    words::swap32(w[k])
                };
            &&& w[0] == 0xEE0D_0F50 && w[1] == 0xEE0D_1F70
            &&& w[28] == w[0] + 0x10_0000 && w[31] == w[28] && w[35] == w[28]
            &&& w[29] == w[1] + 0x10_0000 && w[32] == w[29] && w[36] == w[29]
            &&& w[2] as int / 0x1000 == 0xE59F0 && lit(loaded(w[2], 2)) == 0x0600_F0A0
            &&& w[9] as int / 0x1000 == 0xE59F0 && lit(loaded(w[9], 9)) == 0x0FFF_0F10
            &&& w[11] as int / 0x1000 == 0xE59F0 && lit(loaded(w[11], 11)) == 0x0E07_0F10
            &&& w[3] == 0xE580_E000 && w[4] == 0xE580_D004 && w[5] == 0xE14F_1000 && w[6] == 0xE580_1008
            &&& w[7] == 0xE51E_1008 && w[8] == 0xE6BF_1F31 && w[10] == 0xE001_1000 && w[12] == 0xE131_0000
            &&& w[13] as int / 0x100_0000 == 0x0A && ahead(w[13], 13) == 35 && w[37] == 0xE25E_F004
            &&& lit(34) == 0x0039_3114
        }),
{
    aarch32_emit::loads_reach_their_literal(fast_pc(2), 0, fast_pc(38));
    aarch32_emit::loads_reach_their_literal(fast_pc(9), 0, fast_pc(39));
    aarch32_emit::loads_reach_their_literal(fast_pc(11), 0, fast_pc(40));
    aarch32_emit::branches_hold_their_distance(fast_pc(13), fast_pc(35), 0);
    words::swap32_involutive(0x0600_F0A0);
    words::swap32_involutive(0x0FFF_0F10);
    words::swap32_involutive(0x0E07_0F10);
    words::swap32_involutive(0x0039_3114);
}

/// The slow trampoline saves the same words at the same place, compares the fault code with one, and makes
/// the alignment call on equality and the call that it was given otherwise.
pub proof fn other_aborts_reach_the_hypervisor(m: MemView, dispatch: u32, save_pa: u32)
    ensures
        ({
            let w = dabt_tramp_words(dispatch, save_pa);
            let fast = fast_dabt_words(m);
            &&& w.len() == 15
            &&& w[0] == fast[0] && w[1] == fast[1]
            &&& forall|k: int| 3 <= k < 7 ==> #[trigger] w[k] == fast[k]
            &&& w[7] == fast[14] && w[8] == fast[15]
            &&& w[2] as int / 0x1000 == 0xE59F0 && w[loaded(w[2], 2)] == save_pa
            &&& w[9] == 0xE350_0001
            &&& w[10] as int / 0x100_0000 == 0x0A && w[ahead(w[10], 10)] == 0xE140_0173
            &&& w[11] == dispatch
        }),
{
    calls_hold_their_number(19);
}

/// The undefined-instruction trampoline fills each of its eight scratch words once, LR_und, SPSR_und, LR_svc,
/// R0, R1, R2 and the faulting mode's SP and LR, from the base that it loads, gives R2 back, and
/// makes its call.
pub proof fn undefined_instructions_are_saved(save_base: u32)
    ensures
        ({
            let w = und_tramp_words(save_base);
            let stores = |k: int, r: int, slot: int|
                w[k] as int / 0x1_0000 == 0xE58C && w[k] as int / 0x1000 % 16 == r && w[k] as int % 0x1000
                    == 4 * slot;
            &&& w.len() == 24
            &&& w[0] == 0xEE0D_CF50
            &&& w[1] as int / 0x1000 == 0xE59FC && w[loaded(w[1], 1)] == save_base
            &&& stores(2, 0, 3) && stores(3, 1, 4) && stores(4, 14, 0) && stores(6, 0, 1) && stores(7, 2, 5)
            &&& stores(13, 13, 6) && stores(14, 14, 7) && stores(19, 0, 2)
            &&& w[5] == 0xE14F_0000 && w[18] == 0xE1A0_000E
            &&& w[16] == w[7] + 0x10_0000
            &&& w[15] == w[20] && w[15] as int % 32 == 0x1B && w[17] as int % 32 == 0x13
            &&& w[21] == 0xE140_0170
        }),
        ({
            let w = und_return_words(save_base);
            w.len() == 3 && w[0] as int / 0x1000 == 0xE59FE && w[loaded(w[0], 0)] == save_base && w[1]
                == 0xE1B0_F00E
        }),
{
    calls_hold_their_number(16);
}

/// The bypass looks at an instruction's class, 12 to 14, and at its coprocessor, 1 or 2: where either is
/// another it goes on to the undefined-instruction trampoline, and else to the guest's floating-point
/// emulator, with R12 as it was either way.
pub proof fn floating_point_goes_to_the_guest()
    ensures
        ({
            let w = fpa_bypass_words();
            &&& w.len() == 16
            &&& w[0] == 0xEE0D_CF50 && w[12] == w[0] + 0x10_0000 && w[14] == w[12]
            &&& w[1] == 0xE51E_C004 && w[7] == w[1]
            &&& w[2] == 0xE20C_C40F && w[3] == 0xE35C_0400 + 12 && w[4] == 0x135C_0400 + 13 && w[5]
                == 0x135C_0400 + 14
            &&& w[6] as int / 0x100_0000 == 0x1A && ahead(w[6], 6) == 14
            &&& w[8] == 0xE20C_CC0F && w[9] == 0xE35C_0C00 + 1 && w[10] == 0x135C_0C00 + 2
            &&& w[11] as int / 0x100_0000 == 0x1A && ahead(w[11], 11) == 14
            &&& w[13] as int / 0x100_0000 == 0xEA && 0x00FF_FEC0 + 4 * (ahead(w[13], 13) - 0x100_0000)
                == 0x0038_D874
            &&& w[15] as int / 0x100_0000 == 0xEA && 0x00FF_FEC0 + 4 * (ahead(w[15], 15) - 0x100_0000)
                == 0x00FF_FF00
        }),
{
    aarch32_emit::branches_hold_their_distance(0x00FF_FEF4, 0x0038_D874, 14);
    aarch32_emit::branches_hold_their_distance(0x00FF_FEFC, 0x00FF_FF00, 14);
}

/// Where the patches lie: the branch at address 4 goes to the bypass and the one at 16 to the fast
/// trampoline, and each block is at its own address.
pub proof fn vectors_lead_to_the_blocks(m: MemView, dispatch: u32, k: int)
    requires
        m.wf(),
    ensures
        ({
            let p = dabt_patched(und_patched(m), dispatch);
            let base = if m.guest_test {
                0x0600_F000u32
            } else {
                words::swap32(0x0600_F000)
            };
            let save = if m.guest_test {
                0x0600_F0A0u32
            } else {
                words::swap32(0x0600_F0A0)
            };
            &&& p.rom_word(1) as int / 0x100_0000 == 0xEA && 4 * ahead(p.rom_word(1), 1) == 0x00FF_FEC0
            &&& p.rom_word(4) as int / 0x100_0000 == 0xEA && 4 * ahead(p.rom_word(4), 4) == 0x008F_FF00
            &&& 0 <= k < 16 ==> p.rom_word(0x3F_FFB0 + k) == fpa_bypass_words()[k]
            &&& 0 <= k < 24 ==> p.rom_word(0x3F_FFC0 + k) == und_tramp_words(base)[k]
            &&& 0 <= k < 15 ==> p.rom_word(0x3F_FFEA + k) == dabt_tramp_words(dispatch, save)[k]
            &&& 0 <= k < 2 ==> p.rom_word(0x3F_FFF9 + k) == und_return_words(0)[k]
            &&& 0 <= k < 41 ==> p.rom_word(0x23_FFC0 + k) == fast_dabt_words(m)[k]
        }),
{
    trampolines_do_not_overlap(m, dispatch);
    vector_branches(m, dispatch);
    let p = dabt_patched(und_patched(m), dispatch);
    assert(0x3F_FFB0 + k == FPA_BYPASS_STUB_OFFSET / 4 + k);
    assert(0x3F_FFC0 + k == UND_TRAMP_OFFSET / 4 + k);
    assert(0x3F_FFEA + k == DABT_TRAMP_OFFSET / 4 + k);
    assert(0x3F_FFF9 + k == UND_RETURN_STUB_OFFSET / 4 + k);
    assert(0x23_FFC0 + k == DABT_FAST_TRAMP_OFFSET / 4 + k);
    assert(p.rom_word(FPA_BYPASS_STUB_OFFSET / 4 + k) == p.rom_word(0x3F_FFB0 + k));
    assert(p.rom_word(UND_TRAMP_OFFSET / 4 + k) == p.rom_word(0x3F_FFC0 + k));
    assert(p.rom_word(DABT_TRAMP_OFFSET / 4 + k) == p.rom_word(0x3F_FFEA + k));
    assert(p.rom_word(UND_RETURN_STUB_OFFSET / 4 + k) == p.rom_word(0x3F_FFF9 + k));
    assert(p.rom_word(DABT_FAST_TRAMP_OFFSET / 4 + k) == p.rom_word(0x23_FFC0 + k));
}

proof fn vector_branches(m: MemView, dispatch: u32)
    requires
        m.wf(),
    ensures
        dabt_patched(und_patched(m), dispatch).rom_word(1) as int == 0xEA00_0000 + (0x00FF_FEC0 - 12) / 4,
        dabt_patched(und_patched(m), dispatch).rom_word(4) as int == 0xEA00_0000 + (0x008F_FF00 - 24) / 4,
{
    let b1 = aarch32_emit::branch_word(0x04, 0x00FF_FEC0, aarch32_emit::COND_AL);
    let b4 = aarch32_emit::branch_word(0x10, 0x008F_FF00, aarch32_emit::COND_AL);
    aarch32_emit::branches_hold_their_distance(0x04, 0x00FF_FEC0, 14);
    aarch32_emit::branches_hold_their_distance(0x10, 0x008F_FF00, 14);
    let u1 = m.set_rom_word(1, b1);
    let u2 = with_rom_words(u1, FPA_BYPASS_STUB_OFFSET as int / 4, fpa_bypass_words());
    let ut = und_tramp_words(m.data_form(HYP_TRAMP_SCRATCH_BASE));
    let u3 = with_rom_words(u2, UND_TRAMP_OFFSET as int / 4, ut);
    let ur = und_return_words(m.data_form(0xDEAD_C0DE));
    let u = with_rom_words(u3, UND_RETURN_STUB_OFFSET as int / 4, ur);
    let d1 = u.set_rom_word(4, b4);
    let fw = fast_dabt_words(u);
    let d2 = with_rom_words(d1, DABT_FAST_TRAMP_OFFSET as int / 4, fw);
    let dw = dabt_tramp_words(dispatch, u.data_form(DABT_SAVE_PA));
    rom_words_read_back(d2, DABT_TRAMP_OFFSET as int / 4, dw, 1);
    rom_words_read_back(d2, DABT_TRAMP_OFFSET as int / 4, dw, 4);
    rom_words_read_back(d1, DABT_FAST_TRAMP_OFFSET as int / 4, fw, 1);
    rom_words_read_back(d1, DABT_FAST_TRAMP_OFFSET as int / 4, fw, 4);
    words::put_le32_frames(u.rom, 16, b4, 4);
    words::put_le32_reads_back(u.rom, 16, b4);
    rom_words_read_back(u3, UND_RETURN_STUB_OFFSET as int / 4, ur, 1);
    rom_words_read_back(u2, UND_TRAMP_OFFSET as int / 4, ut, 1);
    rom_words_read_back(u1, FPA_BYPASS_STUB_OFFSET as int / 4, fpa_bypass_words(), 1);
    words::put_le32_reads_back(m.rom, 4, b1);
}

/// A value that is stored by a word's kind is what the guest gets back: the word itself where it is code,
/// and the value in the guest's byte order where it is data; no other word changes.
pub proof fn stored_values_are_the_guests(m: MemView, idx: int, value: u32, other: int)
    requires
        m.wf(),
        0 <= idx,
        4 * idx + 4 <= ROM_SIZE,
        0 <= other,
        4 * other + 4 <= ROM_SIZE,
    ensures
        ({
            let p = set_by_kind(m, idx, value);
            &&& m.is_code(idx) ==> words::le32(p.rom, 4 * idx) == value
            &&& !m.is_code(idx) ==> crate::guest_mem::meant(p.rom, 4 * idx, m.guest_test) == value
            &&& other != idx ==> words::le32(p.rom, 4 * other) == words::le32(m.rom, 4 * other)
            &&& p == (MemView { rom: p.rom, ..m })
        }),
{
    let w = if m.is_code(idx) {
        value
    } else {
        m.data_form(value)
    };
    let p = words::put_le32(m.rom, 4 * idx, w);
    words::put_le32_reads_back(m.rom, 4 * idx, w);
    words::be32_is_swapped_le32(p, 4 * idx);
    words::swap32_involutive(value);
    if other != idx {
        words::put_le32_frames(m.rom, 4 * idx, w, 4 * other);
    }
}

/// With the literals set, the last word of each slow trampoline reads as its scratch address, and no other
/// word changes.
pub proof fn literals_read_as_addresses(m: MemView, other: int)
    requires
        m.wf(),
        0 <= other,
        4 * other + 4 <= ROM_SIZE,
    ensures
        ({
            let p = literals_set(m);
            &&& crate::guest_mem::meant(p.rom, 0x00FF_FF5C, m.guest_test) == 0x0600_F000
            &&& crate::guest_mem::meant(p.rom, 0x00FF_FFE0, m.guest_test) == 0x0600_F0A0
            &&& 4 * other != 0x00FF_FF5C && 4 * other != 0x00FF_FFE0 ==> words::le32(
                p.rom,
                4 * other,
            ) == words::le32(m.rom, 4 * other)
            &&& p == (MemView { rom: p.rom, ..m })
        }),
{
    let a = m.data_form(HYP_TRAMP_SCRATCH_BASE);
    let b = m.data_form(DABT_SAVE_PA);
    let x: int = 0x00FF_FF5C;
    let y: int = 0x00FF_FFE0;
    let r1 = words::put_le32(m.rom, x, a);
    let r2 = words::put_le32(r1, y, b);
    assert(literals_set(m).rom == r2);
    words::put_le32_reads_back(m.rom, x, a);
    words::put_le32_frames(r1, y, b, x);
    words::put_le32_reads_back(r1, y, b);
    words::be32_is_swapped_le32(r2, x);
    words::be32_is_swapped_le32(r2, y);
    words::swap32_involutive(HYP_TRAMP_SCRATCH_BASE);
    words::swap32_involutive(DABT_SAVE_PA);
    if 4 * other != x && 4 * other != y {
        words::put_le32_frames(m.rom, x, a, 4 * other);
        words::put_le32_frames(r1, y, b, 4 * other);
    }
}

/// Every ROM word that the two patches change, apart from the two vectors, lies in a
/// region that counts as hypervisor code.
pub proof fn patched_words_are_hypervisor_code(m: MemView, dispatch: u32, k: int)
    requires
        m.wf(),
        0 <= k,
        4 * k + 4 <= ROM_SIZE,
        k != 1,
        k != 4,
        dabt_patched(und_patched(m), dispatch).rom_word(k) != m.rom_word(k),
    ensures
        hypervisor_code((4 * k) as u32),
{
    if !hypervisor_code((4 * k) as u32) {
        let u1 = m.set_rom_word(
            1,
            aarch32_emit::branch_word(0x04, FPA_BYPASS_STUB_OFFSET as u32, aarch32_emit::COND_AL),
        );
        let u2 = with_rom_words(u1, FPA_BYPASS_STUB_OFFSET as int / 4, fpa_bypass_words());
        let ut = und_tramp_words(m.data_form(HYP_TRAMP_SCRATCH_BASE));
        let u3 = with_rom_words(u2, UND_TRAMP_OFFSET as int / 4, ut);
        let ur = und_return_words(m.data_form(0xDEAD_C0DE));
        let u = with_rom_words(u3, UND_RETURN_STUB_OFFSET as int / 4, ur);
        let bw = aarch32_emit::branch_word(
            0x10,
            DABT_FAST_TRAMP_OFFSET as u32,
            aarch32_emit::COND_AL,
        );
        let d1 = u.set_rom_word(4, bw);
        let fw = fast_dabt_words(u);
        let d2 = with_rom_words(d1, DABT_FAST_TRAMP_OFFSET as int / 4, fw);
        let dw = dabt_tramp_words(dispatch, u.data_form(DABT_SAVE_PA));
        rom_words_read_back(d2, DABT_TRAMP_OFFSET as int / 4, dw, k);
        rom_words_read_back(d1, DABT_FAST_TRAMP_OFFSET as int / 4, fw, k);
        words::put_le32_frames(u.rom, 16, bw, 4 * k);
        rom_words_read_back(u3, UND_RETURN_STUB_OFFSET as int / 4, ur, k);
        rom_words_read_back(u2, UND_TRAMP_OFFSET as int / 4, ut, k);
        rom_words_read_back(u1, FPA_BYPASS_STUB_OFFSET as int / 4, fpa_bypass_words(), k);
        words::put_le32_frames(
            m.rom,
            4,
            aarch32_emit::branch_word(0x04, FPA_BYPASS_STUB_OFFSET as u32, aarch32_emit::COND_AL),
            4 * k,
        );
    }
}

} // verus!
