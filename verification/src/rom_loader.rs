//! Filling the guest ROM: the big-endian ROM and extension images, the instruction
//! rewrites that an ARMv7 core needs, and the guest-test images.
//!
//! A code word is stored so that a little-endian fetch gives the instruction; a data word
//! keeps the byte order of its image.

use crate::guest_mem::{rom_word_is_code, GuestMem, MemView, Region, ROM_SIZE};
use crate::guest_trampolines;
use crate::guest_trampolines::{
    hvc_insn, patch_dabt_vector, patch_und_vector, write_rom_code_word, write_rom_word_by_kind,
    HVC_DIAG,
};
use crate::words;
use vstd::prelude::*;

verus! {

broadcast use words::put_le32_len;

/// Where the ROM extension lies.
pub const REX_PA_OFFSET: usize = 0x0080_0000;

/// The number of ROM extensions inside the ROM image; the external one comes after them.
pub const NUM_EMBEDDED_REXES: u32 = 1;

/// Offset of the id field in a ROM extension's header.
pub const REX_ID_OFFSET: usize = 0x1C;

/// The host word of image word `i`: the image's four bytes in reverse for code, as they
/// are for data.
pub open spec fn image_word(image: Seq<u8>, i: int, code: bool) -> u32 {
    if code {
        words::be32(image, 4 * i)
    } else {
        words::le32(image, 4 * i)
    }
}

/// The memory with a big-endian image stored from ROM word `base` on. Trailing bytes of
/// the image that make no whole word are dropped.
pub open spec fn with_image(m: MemView, base: int, image: Seq<u8>) -> MemView {
    MemView {
        rom: words::from_words(
            m.rom,
            base,
            base + image.len() / 4,
            |k: int| image_word(image, k - base, m.is_code(k)),
        ),
        ..m
    }
}

/// Stores a big-endian image from ROM word `base` on.
pub fn load_image(mem: &mut GuestMem, base: usize, image: &[u8])
    requires
        old(mem).wf(),
        4 * base + image@.len() <= ROM_SIZE,
    ensures
        final(mem)@ == with_image(old(mem)@, base as int, image@),
        final(mem).wf(),
{
    let ghost f = |k: int| image_word(image@, k - base, old(mem)@.is_code(k));
    let n: usize = image.len() / 4;
    let mut i: usize = 0;
    assert(words::from_words(mem@.rom, base as int, base as int, f) =~= mem@.rom);
    while i < n
        invariant
            i <= n,
            n == image@.len() / 4,
            old(mem).wf(),
            mem.wf(),
            4 * base + image@.len() <= ROM_SIZE,
            f == (|k: int| image_word(image@, k - base, old(mem)@.is_code(k))),
            mem@ == (MemView {
                rom: words::from_words(old(mem)@.rom, base as int, base + i, f),
                ..old(mem)@
            }),
        decreases n - i,
    {
        proof {
            words::from_words_step(old(mem)@.rom, base as int, base + i, f);
        }
        let code = rom_word_is_code(mem, base + i);
        let w = if code {
            words::get_be32(image, 4 * i)
        } else {
            words::get_le32(image, 4 * i)
        };
        mem.set_word(Region::Rom, 4 * (base + i), w);
        i = i + 1;
    }
}

/// A guest load of a data word gives the big-endian value of the image, and an
/// instruction fetch of a code word gives the instruction.
pub proof fn loaded_words_mean_the_image(m: MemView, base: int, image: Seq<u8>, i: int)
    requires
        m.wf(),
        0 <= base,
        4 * base + image.len() <= ROM_SIZE,
        !m.guest_test,
        0 <= i < image.len() / 4,
    ensures
        m.is_code(base + i) ==> with_image(m, base, image).rom_word(base + i) == words::be32(
            image,
            4 * i,
        ),
        !m.is_code(base + i) ==> with_image(m, base, image).data_form(
            with_image(m, base, image).rom_word(base + i),
        ) == words::be32(image, 4 * i),
{
    let f = |k: int| image_word(image, k - base, m.is_code(k));
    words::from_words_word(m.rom, base, base + image.len() / 4, f, base + i);
    words::be32_is_swapped_le32(image, 4 * i);
}

/// `mcr p10, 0, lr, c0, c0, 0`.
pub const MCR_P10_LR: u32 = 0xEE00_EA10;

/// `mcr p10, 0, r12, c0, c0, 0`.
pub const MCR_P10_R12: u32 = 0xEE00_CA10;

/// `mov lr, #imm`.
pub open spec fn is_mov_lr(w: u32) -> bool {
    w & 0xFFFF_F000 == 0xE3A0_E000
}

/// `add lr, lr, #imm`.
pub open spec fn is_add_lr(w: u32) -> bool {
    w & 0xFFFF_F000 == 0xE28E_E000
}

/// `ldr lr, [pc, #imm]`.
pub open spec fn is_ldr_lr(w: u32) -> bool {
    w & 0xFFFF_F000 == 0xE59F_E000
}

/// Whether word `j`, at least two past `lo` and below `hi`, is a native-primitive call
/// through LR: the coprocessor write behind a `mov`, a `mov` and `add`, or an `ldr`.
pub open spec fn prim_site(m: MemView, lo: int, hi: int, j: int) -> bool {
    &&& lo + 2 <= j < hi
    &&& m.is_code(j)
    &&& m.rom_word(j) == MCR_P10_LR
    &&& is_mov_lr(m.rom_word(j - 1)) || is_ldr_lr(m.rom_word(j - 1)) || (is_add_lr(
        m.rom_word(j - 1),
    ) && is_mov_lr(m.rom_word(j - 2)))
}

/// Word `k` after the calls in `lo .. hi` have been moved from LR to R12: the call itself,
/// and the one or two instructions that make its argument.
pub open spec fn prim_word(m: MemView, lo: int, hi: int, k: int) -> u32 {
    let w = m.rom_word(k);
    if prim_site(m, lo, hi, k) {
        MCR_P10_R12
    } else if prim_site(m, lo, hi, k + 1) && is_add_lr(w) {
        (w & !0x000F_F000u32) | 0x000C_C000
    } else if prim_site(m, lo, hi, k + 1) {
        (w & !0x0000_F000u32) | 0x0000_C000
    } else if prim_site(m, lo, hi, k + 2) && is_add_lr(m.rom_word(k + 1)) {
        (w & !0x0000_F000u32) | 0x0000_C000
    } else {
        w
    }
}

/// The number of native-primitive calls below `n`.
pub open spec fn prim_count(m: MemView, lo: int, hi: int, n: int) -> nat
    decreases n,
{
    if n <= 0 {
        0
    } else {
        prim_count(m, lo, hi, n - 1) + if prim_site(m, lo, hi, n - 1) {
            1nat
        } else {
            0nat
        }
    }
}

/// The memory with every native-primitive call in words `lo .. hi` moved to R12.
pub open spec fn prims_moved(m: MemView, lo: int, hi: int) -> MemView {
    MemView {
        rom: words::from_words(
            m.rom,
            0,
            ROM_SIZE as int / 4,
            |k: int| prim_word(m, lo, hi, k),
        ),
        ..m
    }
}

/// What the masks that recognise and rewrite instructions do to a word.
proof fn encoding_bits(w: u32)
    by (bit_vector)
    ensures
        0xEE00_CA10u32 & 0xFFFF_F000 == 0xEE00_C000,
        w & 0xFFFF_F000 == 0xE3A0_E000 ==> (w & !0x0000_F000u32) | 0x0000_C000 == 0xE3A0_C000 | (w
            & 0xFFF),
        w & 0xFFFF_F000 == 0xE59F_E000 ==> (w & !0x0000_F000u32) | 0x0000_C000 == 0xE59F_C000 | (w
            & 0xFFF),
        w & 0xFFFF_F000 == 0xE28E_E000 ==> (w & !0x000F_F000u32) | 0x000C_C000 == 0xE28C_C000 | (w
            & 0xFFF),
        w & 0xFFFF_F000 == 0xE28E_E000 ==> w & 0xFFFF_F000 != 0xE3A0_E000,
        0xEE00_EA10u32 & 0xFFFF_F000 == 0xEE00_E000,
        (w & !0xFu32) & 0xF == 0,
        (w & !0xFu32) >> 4 == w >> 4,
        (w & !0xFu32) & 0x0FE0_0FF0 == w & 0x0FE0_0FF0,
        ((w & !0xFu32) >> 16) & 0xF == (w >> 16) & 0xF,
        w & 0xF == 0 <==> w & !0xFu32 == w,
        0xE140_0070u32 | ((0x11u32 & 0xFFF0) << 4) | (0x11u32 & 0xF) == 0xE140_0171,
        0xE140_0171u32 & 0x0FE0_0FF0 != 0x0E00_0F10,
        1u32 & 0x0FE0_0FF0 != 0x0E00_0F10,
{
}

proof fn no_sites_below(m: MemView, lo: int, hi: int, n: int)
    requires
        n <= lo + 2,
    ensures
        prim_count(m, lo, hi, n) == 0,
    decreases n,
{
    if n > 0 {
        no_sites_below(m, lo, hi, n - 1);
    }
}

proof fn site_bound(m: MemView, lo: int, j: int, k: int)
    ensures
        k != j ==> prim_site(m, lo, j + 1, k) == prim_site(m, lo, j, k),
        !prim_site(m, lo, j, j),
{
}

/// Moves every native-primitive call between byte addresses `start` and `end` from LR to
/// R12, with the instructions that make its argument. LR is banked per mode, R12 is not.
/// Returns the number of calls.
#[verifier::rlimit(60)]
pub fn patch_native_prim_mcr_lr_to_r12(mem: &mut GuestMem, start: u32, end: u32) -> (patched: usize)
    requires
        old(mem).wf(),
        end <= ROM_SIZE,
    ensures
        final(mem)@ == prims_moved(old(mem)@, start as int / 4, end as int / 4),
        final(mem).wf(),
        patched == prim_count(
            old(mem)@,
            start as int / 4,
            end as int / 4,
            end as int / 4,
        ),
{
    let ghost m0 = mem@;
    let lo: usize = (start / 4) as usize;
    let hi: usize = (end / 4) as usize;
    let mut patched: usize = 0;
    let mut j: usize = lo + 2;
    proof {
        encoding_bits(0);
        no_sites_below(m0, lo as int, hi as int, lo + 2);
        if hi <= lo + 2 {
            no_sites_below(m0, lo as int, hi as int, hi as int);
        }
    }
    while j < hi
        invariant
            lo + 2 <= j,
            hi <= ROM_SIZE / 4,
            hi == end as int / 4,
            lo == start as int / 4,
            j <= hi || j == lo + 2,
            mem.wf(),
            m0 == old(mem)@,
            m0.wf(),
            0xEE00_CA10u32 & 0xFFFF_F000 == 0xEE00_C000,
            0xEE00_EA10u32 & 0xFFFF_F000 == 0xEE00_E000,
            mem@ == (MemView { rom: mem@.rom, ..m0 }),
            forall|k: int|
                0 <= k < ROM_SIZE / 4 ==> #[trigger] mem@.rom_word(k) == prim_word(
                    m0,
                    lo as int,
                    j as int,
                    k,
                ),
            patched == prim_count(m0, lo as int, hi as int, j as int),
            patched <= j,
        decreases hi - j,
    {
        let ghost m1 = mem@;
        assert(m1.rom_word(j as int) == prim_word(m0, lo as int, j as int, j as int));
        assert(m1.rom_word(j - 1) == prim_word(m0, lo as int, j as int, j - 1));
        assert(m1.rom_word(j - 2) == prim_word(m0, lo as int, j as int, j - 2));
        assert(m1.rom_word(j as int) == m0.rom_word(j as int));
        let mut lead: Option<usize> = None;
        let mut add_at: Option<usize> = None;
        if rom_word_is_code(mem, j) {
            let mcr = words::get_le32(&mem.rom, 4 * j);
            if mcr == MCR_P10_LR {
                let prev = words::get_le32(&mem.rom, 4 * (j - 1));
                if (prev & 0xFFFF_F000) == 0xE3A0_E000 || (prev & 0xFFFF_F000) == 0xE59F_E000 {
                    lead = Some(j - 1);
                } else if (prev & 0xFFFF_F000) == 0xE28E_E000 {
                    let prev2 = words::get_le32(&mem.rom, 4 * (j - 2));
                    if (prev2 & 0xFFFF_F000) == 0xE3A0_E000 {
                        lead = Some(j - 2);
                        add_at = Some(j - 1);
                    }
                }
            }
        }
        assert(lead is Some <==> prim_site(m0, lo as int, hi as int, j as int));
        if let Some(l) = lead {
            let old_lead = words::get_le32(&mem.rom, 4 * l);
            let new_lead: u32 = (old_lead & !0x0000_F000u32) | 0x0000_C000;
            write_rom_code_word(mem, l, new_lead);
            proof {
                words::put_le32_reads_back(m1.rom, 4 * l, new_lead);
            }
            let ghost m2 = mem@;
            assert forall|k: int|
                0 <= k < ROM_SIZE / 4 && k != l implies #[trigger] m2.rom_word(k) == m1.rom_word(
                k,
            ) by {
                words::put_le32_frames(m1.rom, 4 * l, new_lead, 4 * k);
            }
            if let Some(a) = add_at {
                let old_add = words::get_le32(&mem.rom, 4 * a);
                assert(m2.rom_word(a as int) == m1.rom_word(a as int));
                let new_add: u32 = (old_add & !0x000F_F000u32) | 0x000C_C000;
                write_rom_code_word(mem, a, new_add);
                proof {
                    words::put_le32_reads_back(m2.rom, 4 * a, new_add);
                    assert forall|k: int|
                        0 <= k < ROM_SIZE / 4 && k != a implies #[trigger] mem@.rom_word(k)
                        == m2.rom_word(k) by {
                        words::put_le32_frames(m2.rom, 4 * a, new_add, 4 * k);
                    }
                }
            }
            let ghost m3 = mem@;
            write_rom_code_word(mem, j, MCR_P10_R12);
            proof {
                words::put_le32_reads_back(m3.rom, 4 * j, MCR_P10_R12);
                assert forall|k: int|
                    0 <= k < ROM_SIZE / 4 && k != j implies #[trigger] mem@.rom_word(k)
                    == m3.rom_word(k) by {
                    words::put_le32_frames(m3.rom, 4 * j, MCR_P10_R12, 4 * k);
                }
            }
            patched = patched + 1;
            assert(m1.rom_word(j - 1) == m0.rom_word(j - 1));
            assert(add_at is Some ==> m1.rom_word(j - 2) == m0.rom_word(j - 2));
            assert forall|k: int|
                0 <= k < ROM_SIZE / 4 implies #[trigger] mem@.rom_word(k) == prim_word(
                m0,
                lo as int,
                j + 1,
                k,
            ) by {
                assert(m1.rom_word(k) == prim_word(m0, lo as int, j as int, k));
                site_bound(m0, lo as int, j as int, k);
                site_bound(m0, lo as int, j as int, k + 1);
                site_bound(m0, lo as int, j as int, k + 2);
                if k == j {
                    assert(mem@.rom_word(k) == MCR_P10_R12);
                } else if k == j - 1 {
                    assert(!prim_site(m0, lo as int, j + 1, k));
                    assert(prim_site(m0, lo as int, j + 1, k + 1));
                    assert(mem@.rom_word(k) == m3.rom_word(k));
                    assert(add_at is Some <==> is_add_lr(m0.rom_word(k)));
                } else if k == j - 2 {
                    assert(mem@.rom_word(k) == m3.rom_word(k));
                    assert(add_at is Some <==> is_add_lr(m0.rom_word(k + 1)));
                    assert(!prim_site(m0, lo as int, j + 1, k + 1));
                } else {
                    assert(mem@.rom_word(k) == m1.rom_word(k));
                }
            }
        } else {
            assert forall|k: int|
                0 <= k < ROM_SIZE / 4 implies #[trigger] mem@.rom_word(k) == prim_word(
                m0,
                lo as int,
                j + 1,
                k,
            ) by {
                assert(m1.rom_word(k) == prim_word(m0, lo as int, j as int, k));
                site_bound(m0, lo as int, j as int, k);
                site_bound(m0, lo as int, j as int, k + 1);
                site_bound(m0, lo as int, j as int, k + 2);
            }
        }
        j = j + 1;
    }
    proof {
        let f = |k: int| prim_word(m0, lo as int, hi as int, k);
        let want = words::from_words(m0.rom, 0, ROM_SIZE as int / 4, f);
        assert forall|k: int| 0 <= k && 4 * k + 4 <= mem@.rom.len() implies #[trigger] words::le32(
            mem@.rom,
            4 * k,
        ) == words::le32(want, 4 * k) by {
            words::from_words_word(m0.rom, 0, ROM_SIZE as int / 4, f, k);
            assert(mem@.rom_word(k) == prim_word(m0, lo as int, j as int, k));
        }
        words::equal_by_words(mem@.rom, want);
        assert(mem@ == prims_moved(m0, lo as int, hi as int));
    }
    patched
}

/// A native-primitive call in range, `mcr p10, 0, lr, c0, c0, 0` behind `mov lr, #imm`, behind
/// `ldr lr, [pc, #imm]`, or behind `mov lr, #imm` and `add lr, lr, #imm`, is made through R12
/// afterwards: the same instructions with the same immediates, R12 in place of LR. Any other such
/// write to the coprocessor stays.
pub proof fn primitive_calls_go_through_r12(m: MemView, lo: int, hi: int, j: int)
    requires
        m.wf(),
        0 <= lo,
        hi <= ROM_SIZE / 4,
        lo + 2 <= j < hi,
        m.is_code(j),
        m.rom_word(j) == 0xEE00_EA10,
    ensures
        ({
            let f = prims_moved(m, lo, hi);
            let a = m.rom_word(j - 1);
            let b = m.rom_word(j - 2);
            let mov = a & 0xFFFF_F000 == 0xE3A0_E000;
            let ldr = a & 0xFFFF_F000 == 0xE59F_E000;
            let add = a & 0xFFFF_F000 == 0xE28E_E000 && b & 0xFFFF_F000 == 0xE3A0_E000;
            &&& mov || ldr || add ==> f.rom_word(j) == 0xEE00_CA10
            &&& mov ==> f.rom_word(j - 1) == 0xE3A0_C000 | (a & 0xFFF)
            &&& ldr ==> f.rom_word(j - 1) == 0xE59F_C000 | (a & 0xFFF)
            &&& add ==> f.rom_word(j - 1) == 0xE28C_C000 | (a & 0xFFF)
            &&& add ==> f.rom_word(j - 2) == 0xE3A0_C000 | (b & 0xFFF)
            &&& !mov && !ldr && !add ==> f.rom_word(j) == m.rom_word(j)
        }),
{
    let g = |k: int| prim_word(m, lo, hi, k);
    words::from_words_word(m.rom, 0, ROM_SIZE as int / 4, g, j);
    words::from_words_word(m.rom, 0, ROM_SIZE as int / 4, g, j - 1);
    words::from_words_word(m.rom, 0, ROM_SIZE as int / 4, g, j - 2);
    encoding_bits(m.rom_word(j));
    encoding_bits(m.rom_word(j - 1));
    encoding_bits(m.rom_word(j - 2));
}

/// Words that belong to no native-primitive call in range are left alone: those that are not the
/// coprocessor write themselves nor one of the two words before one. So is everything but the ROM.
pub proof fn only_primitive_calls_are_moved(m: MemView, lo: int, hi: int, k: int)
    requires
        m.wf(),
        0 <= k < ROM_SIZE / 4,
        forall|j: int|
            k <= j <= k + 2 && lo + 2 <= j < hi && m.is_code(j) ==> #[trigger] m.rom_word(j)
                != 0xEE00_EA10,
    ensures
        prims_moved(m, lo, hi).rom_word(k) == m.rom_word(k),
        prims_moved(m, lo, hi) == (MemView { rom: prims_moved(m, lo, hi).rom, ..m }),
{
    words::from_words_word(m.rom, 0, ROM_SIZE as int / 4, |i: int| prim_word(m, lo, hi, i), k);
    assert(!prim_site(m, lo, hi, k)) by {
        assert(m.rom_word(k) == m.rom_word(k));
    }
    assert(!prim_site(m, lo, hi, k + 1)) by {
        assert(m.rom_word(k + 1) == m.rom_word(k + 1));
    }
    assert(!prim_site(m, lo, hi, k + 2)) by {
        assert(m.rom_word(k + 2) == m.rom_word(k + 2));
    }
}

/// The calls that are counted are the coprocessor writes that change.
pub proof fn moved_calls_are_counted(m: MemView, lo: int, hi: int, n: int)
    requires
        m.wf(),
        0 <= lo,
        0 <= n <= hi <= ROM_SIZE / 4,
    ensures
        prim_count(m, lo, hi, n) == Set::new(
            |j: int|
                0 <= j < n && m.rom_word(j) == 0xEE00_EA10 && prims_moved(m, lo, hi).rom_word(j)
                    == 0xEE00_CA10,
        ).len(),
        Set::new(
            |j: int|
                0 <= j < n && m.rom_word(j) == 0xEE00_EA10 && prims_moved(m, lo, hi).rom_word(j)
                    == 0xEE00_CA10,
        ).finite(),
    decreases n,
{
    let f = prims_moved(m, lo, hi);
    let s = Set::new(
        |j: int| 0 <= j < n && m.rom_word(j) == 0xEE00_EA10 && f.rom_word(j) == 0xEE00_CA10,
    );
    if n <= 0 {
        assert(s =~= Set::<int>::empty());
    } else {
        moved_calls_are_counted(m, lo, hi, n - 1);
        let t = Set::new(
            |j: int| 0 <= j < n - 1 && m.rom_word(j) == 0xEE00_EA10 && f.rom_word(j) == 0xEE00_CA10,
        );
        words::from_words_word(
            m.rom,
            0,
            ROM_SIZE as int / 4,
            |i: int| prim_word(m, lo, hi, i),
            n - 1,
        );
        encoding_bits(m.rom_word(n - 1));
        if prim_site(m, lo, hi, n - 1) {
            assert(s =~= t.insert(n - 1));
        } else {
            assert(s =~= t);
        }
    }
}

/// Whether `w` accesses a system-control register in the lax form with a nonzero CRm that
/// newer cores leave undefined: `mcr`/`mrc p15, 0, Rt, cN, cM, 0` for N in 1, 2, 3, 5, 6.
pub open spec fn lax_cp15(w: u32) -> bool {
    let crn = (w >> 16) & 0xF;
    &&& w & 0x0FE0_0FF0 == 0x0E00_0F10
    &&& crn == 1 || crn == 2 || crn == 3 || crn == 5 || crn == 6
    &&& w & 0xF != 0
}

/// ROM word `k` with a lax system-control access put in standard form; data is kept.
pub open spec fn cp15_word(m: MemView, k: int) -> u32 {
    let w = m.rom_word(k);
    if m.is_code(k) && lax_cp15(w) {
        w & !0xFu32
    } else {
        w
    }
}

/// The lax system-control accesses below word `n`, in order.
pub open spec fn lax_sites(m: MemView, n: int) -> Seq<int>
    decreases n,
{
    if n <= 0 {
        Seq::empty()
    } else if m.is_code(n - 1) && lax_cp15(m.rom_word(n - 1)) {
        lax_sites(m, n - 1).push(n - 1)
    } else {
        lax_sites(m, n - 1)
    }
}

/// The memory with the lax system-control accesses among its first `n` ROM words put in
/// standard form.
pub open spec fn cp15_fixed(m: MemView, n: int) -> MemView {
    MemView { rom: words::from_words(m.rom, 0, n, |k: int| cp15_word(m, k)), ..m }
}

/// Puts every lax system-control access in the first `word_count` ROM words in standard
/// form, code words only. Returns how many there were, and the addresses of the first
/// four.
pub fn patch_cp15_encodings(mem: &mut GuestMem, word_count: usize) -> (r: (usize, Vec<u32>))
    requires
        old(mem).wf(),
        word_count <= ROM_SIZE / 4,
    ensures
        final(mem)@ == cp15_fixed(old(mem)@, word_count as int),
        final(mem).wf(),
        r.0 == lax_sites(old(mem)@, word_count as int).len(),
        r.1@.len() == if r.0 < 4 {
            r.0 as int
        } else {
            4
        },
        forall|i: int|
            0 <= i < r.1@.len() ==> #[trigger] r.1@[i] == 4 * lax_sites(
                old(mem)@,
                word_count as int,
            )[i],
{
    let ghost m0 = mem@;
    let ghost f = |k: int| cp15_word(m0, k);
    let mut count: usize = 0;
    let mut first_pcs: Vec<u32> = Vec::new();
    let mut i: usize = 0;
    assert(words::from_words(mem@.rom, 0, 0, f) =~= mem@.rom);
    while i < word_count
        invariant
            i <= word_count <= ROM_SIZE / 4,
            m0 == old(mem)@,
            m0.wf(),
            mem.wf(),
            f == (|k: int| cp15_word(m0, k)),
            mem@ == (MemView { rom: words::from_words(m0.rom, 0, i as int, f), ..m0 }),
            count == lax_sites(m0, i as int).len(),
            count <= i,
            first_pcs@.len() == if count < 4 {
                count as int
            } else {
                4
            },
            forall|k: int|
                0 <= k < first_pcs@.len() ==> #[trigger] first_pcs@[k] == 4 * lax_sites(
                    m0,
                    i as int,
                )[k],
        decreases word_count - i,
    {
        proof {
            words::from_words_step(m0.rom, 0, i as int, f);
            words::from_words_word(m0.rom, 0, i as int, f, i as int);
            words::put_le32_same(mem@.rom, 4 * i);
        }
        if rom_word_is_code(mem, i) {
            let w = words::get_le32(&mem.rom, 4 * i);
            let crn = (w >> 16) & 0xF;
            let crm = w & 0xF;
            if (w & 0x0FE0_0FF0) == 0x0E00_0F10 && (crn == 1 || crn == 2 || crn == 3 || crn == 5
                || crn == 6) && crm != 0 {
                write_rom_code_word(mem, i, w & !0xFu32);
                if count < 4 {
                    first_pcs.push((i * 4) as u32);
                }
                count = count + 1;
            }
        }
        i = i + 1;
    }
    (count, first_pcs)
}

/// No lax system-control access is left in the rewritten words.
pub proof fn no_lax_cp15_left(m: MemView, n: int, k: int)
    requires
        m.wf(),
        0 <= k < n <= ROM_SIZE / 4,
        m.is_code(k),
    ensures
        !lax_cp15(cp15_fixed(m, n).rom_word(k)),
{
    words::from_words_word(m.rom, 0, n, |j: int| cp15_word(m, j), k);
    encoding_bits(m.rom_word(k));
}

/// After the rewrite no code word among the first `n` is `mcr` or `mrc` to coprocessor 15 with
/// both opcodes zero, register c1, c2, c3, c5 or c6 and a second register other than c0. The
/// rewrite changes the second register of such a word and nothing else: every other word, and
/// every data word, is as it was.
pub proof fn system_control_accesses_are_standard(m: MemView, n: int, k: int)
    requires
        m.wf(),
        0 <= n <= ROM_SIZE / 4,
        0 <= k < ROM_SIZE / 4,
    ensures
        ({
            let w = m.rom_word(k);
            let r = cp15_fixed(m, n).rom_word(k);
            let reg = (w >> 16) & 0xF;
            let lax = w & 0x0FE0_0FF0 == 0x0E00_0F10 && (reg == 1 || reg == 2 || reg == 3 || reg == 5
                || reg == 6);
            &&& m.is_code(k) && k < n && lax ==> r & 0xF == 0 && r >> 4 == w >> 4
            &&& !(m.is_code(k) && k < n && lax) ==> r == w
            &&& m.is_code(k) && k < n && r & 0x0FE0_0FF0 == 0x0E00_0F10 && ((r >> 16) & 0xF == 1 || (r
                >> 16) & 0xF == 2 || (r >> 16) & 0xF == 3 || (r >> 16) & 0xF == 5 || (r >> 16) & 0xF
                == 6) ==> r & 0xF == 0
            &&& cp15_fixed(m, n) == MemView { rom: cp15_fixed(m, n).rom, ..m }
        }),
{
    words::from_words_word(m.rom, 0, n, |j: int| cp15_word(m, j), k);
    encoding_bits(m.rom_word(k));
}

/// The addresses that are reported are those of the words that change, in rising order, each once.
pub proof fn rewritten_words_are_counted(m: MemView, n: int)
    requires
        m.wf(),
        0 <= n <= ROM_SIZE / 4,
    ensures
        forall|a: int, b: int|
            0 <= a < b < lax_sites(m, n).len() ==> #[trigger] lax_sites(m, n)[a] < #[trigger] lax_sites(
                m,
                n,
            )[b],
        forall|k: int|
            0 <= k < ROM_SIZE / 4 ==> (#[trigger] cp15_fixed(m, n).rom_word(k) != m.rom_word(k)
                <==> lax_sites(m, n).contains(k)),
        forall|k: int| #[trigger] lax_sites(m, n).contains(k) ==> 0 <= k < n,
{
    sites_in_order(m, n);
    assert forall|k: int| 0 <= k < ROM_SIZE / 4 implies (#[trigger] cp15_fixed(m, n).rom_word(k)
        != m.rom_word(k) <==> lax_sites(m, n).contains(k)) by {
        words::from_words_word(m.rom, 0, n, |j: int| cp15_word(m, j), k);
        encoding_bits(m.rom_word(k));
    }
}

proof fn sites_in_order(m: MemView, n: int)
    requires
        0 <= n,
    ensures
        forall|a: int, b: int|
            0 <= a < b < lax_sites(m, n).len() ==> #[trigger] lax_sites(m, n)[a] < #[trigger] lax_sites(
                m,
                n,
            )[b],
        forall|a: int| 0 <= a < lax_sites(m, n).len() ==> 0 <= #[trigger] lax_sites(m, n)[a] < n,
        forall|k: int| #[trigger]
            lax_sites(m, n).contains(k) <==> 0 <= k < n && m.is_code(k) && lax_cp15(m.rom_word(k)),
    decreases n,
{
    if n > 0 {
        sites_in_order(m, n - 1);
        let s = lax_sites(m, n - 1);
        let t = lax_sites(m, n);
        assert forall|k: int| #[trigger] t.contains(k) <==> 0 <= k < n && m.is_code(k) && lax_cp15(
            m.rom_word(k),
        ) by {
            if s.contains(k) {
                let a = choose|a: int| 0 <= a < s.len() && s[a] == k;
                assert(t[a] == k);
            }
            if t.contains(k) {
                let a = choose|a: int| 0 <= a < t.len() && t[a] == k;
                if a < s.len() {
                    assert(s[a] == k);
                    assert(s.contains(k));
                }
            }
            if k == n - 1 && t.len() > s.len() {
                assert(t[s.len() as int] == k);
            }
        }
    }
}

/// One word of a ROM patch: an instruction or a data value for a word index.
#[derive(Clone, Copy)]
pub struct RomPatch {
    pub index: usize,
    pub value: u32,
}

/// The memory after the first `n` patches of `ps`, in order.
pub open spec fn patches_applied(m: MemView, ps: Seq<RomPatch>, n: int) -> MemView
    decreases n,
{
    if n <= 0 {
        m
    } else {
        guest_trampolines::set_by_kind(
            patches_applied(m, ps, n - 1),
            ps[n - 1].index as int,
            ps[n - 1].value,
        )
    }
}

/// Stores every patch, each as code or data, whichever its word is.
pub fn apply_patches(mem: &mut GuestMem, ps: &[RomPatch])
    requires
        old(mem).wf(),
        forall|i: int| 0 <= i < ps@.len() ==> (#[trigger] ps@[i]).index < ROM_SIZE / 4,
    ensures
        final(mem)@ == patches_applied(old(mem)@, ps@, ps@.len() as int),
        final(mem).wf(),
{
    let mut i: usize = 0;
    while i < ps.len()
        invariant
            i <= ps@.len(),
            mem.wf(),
            mem@ == patches_applied(old(mem)@, ps@, i as int),
            forall|i: int| 0 <= i < ps@.len() ==> (#[trigger] ps@[i]).index < ROM_SIZE / 4,
        decreases ps@.len() - i,
    {
        let p = ps[i];
        write_rom_word_by_kind(mem, p.index, p.value);
        i = i + 1;
    }
}

/// The memory with the ROM image and the extension loaded and the extension's id set
/// behind the embedded ones.
pub open spec fn images_loaded(m: MemView, rom_be: Seq<u8>, rex_be: Seq<u8>) -> MemView {
    let base = REX_PA_OFFSET as int / 4;
    guest_trampolines::set_by_kind(
        with_image(with_image(m, 0, rom_be), base, rex_be),
        base + REX_ID_OFFSET as int / 4,
        NUM_EMBEDDED_REXES,
    )
}

/// The memory with the images loaded, the extension's native-primitive calls moved to R12,
/// the patches, the undefined-instruction and data-abort vectors, and a diagnostic halt in
/// the prefetch-abort vector.
pub open spec fn vectors_set(
    m: MemView,
    rom_be: Seq<u8>,
    rex_be: Seq<u8>,
    ps: Seq<RomPatch>,
    dispatch: u32,
) -> MemView {
    let moved = prims_moved(
        images_loaded(m, rom_be, rex_be),
        REX_PA_OFFSET as int / 4,
        (REX_PA_OFFSET + rex_be.len()) / 4,
    );
    guest_trampolines::dabt_patched(
        guest_trampolines::und_patched(patches_applied(moved, ps, ps.len() as int)),
        dispatch,
    ).set_rom_word(3, guest_trampolines::hvc_word(HVC_DIAG))
}

/// The memory of a guest ready to boot the Newton ROM: images, patches and vectors in
/// place, with standard system-control accesses throughout.
pub open spec fn newton_rom(
    m: MemView,
    rom_be: Seq<u8>,
    rex_be: Seq<u8>,
    ps: Seq<RomPatch>,
    dispatch: u32,
) -> MemView {
    cp15_fixed(vectors_set(m, rom_be, rex_be, ps, dispatch), ROM_SIZE as int / 4)
}

/// A word that no patch names keeps its value, and one that patches name has the value of the last
/// of them: as it is where the word is code, in the guest's byte order where it is data.
pub proof fn last_patch_of_a_word_holds(m: MemView, ps: Seq<RomPatch>, n: int, i: int, k: int)
    requires
        m.wf(),
        0 <= n <= ps.len(),
        forall|j: int| 0 <= j < ps.len() ==> (#[trigger] ps[j]).index < ROM_SIZE / 4,
        0 <= k < ROM_SIZE / 4,
        forall|j: int| i < j < n && 0 <= j ==> (#[trigger] ps[j]).index != k,
        0 <= i < n ==> ps[i].index == k,
        i < n,
    ensures
        ({
            let w = patches_applied(m, ps, n).rom_word(k);
            &&& i < 0 ==> w == m.rom_word(k)
            &&& 0 <= i && m.is_code(k) ==> w == ps[i].value
            &&& 0 <= i && !m.is_code(k) && m.guest_test ==> w == ps[i].value
            &&& 0 <= i && !m.is_code(k) && !m.guest_test ==> words::swap32(w) == ps[i].value
            &&& patches_applied(m, ps, n) == MemView { rom: patches_applied(m, ps, n).rom, ..m }
            &&& patches_applied(m, ps, n).wf()
        }),
    decreases n,
{
    if n > 0 {
        let p = patches_applied(m, ps, n - 1);
        let at = ps[n - 1].index as int;
        if i == n - 1 {
            patches_keep_the_rest(m, ps, n - 1);
            let v = if p.is_code(at) {
                ps[i].value
            } else {
                p.data_form(ps[i].value)
            };
            words::put_le32_reads_back(p.rom, 4 * at, v);
            words::swap32_involutive(ps[i].value);
        } else {
            last_patch_of_a_word_holds(m, ps, n - 1, i, k);
            let v = if p.is_code(at) {
                ps[n - 1].value
            } else {
                p.data_form(ps[n - 1].value)
            };
            words::put_le32_frames(p.rom, 4 * at, v, 4 * k);
        }
    }
}

proof fn patches_keep_the_rest(m: MemView, ps: Seq<RomPatch>, n: int)
    requires
        m.wf(),
        0 <= n <= ps.len(),
        forall|j: int| 0 <= j < ps.len() ==> (#[trigger] ps[j]).index < ROM_SIZE / 4,
    ensures
        patches_applied(m, ps, n) == (MemView { rom: patches_applied(m, ps, n).rom, ..m }),
        patches_applied(m, ps, n).wf(),
    decreases n,
{
    if n > 0 {
        patches_keep_the_rest(m, ps, n - 1);
    }
}

/// The word of the ROM image or the extension image that belongs at ROM word `k`, as the guest
/// reads it; `None` behind both.
pub open spec fn image_value(rom_be: Seq<u8>, rex_be: Seq<u8>, k: int) -> Option<u32> {
    if 0x20_0000 <= k < 0x20_0000 + rex_be.len() / 4 {
        Some(words::be32(rex_be, 4 * (k - 0x20_0000)))
    } else if 0 <= k < rom_be.len() / 4 {
        Some(words::be32(rom_be, 4 * k))
    } else {
        None
    }
}

/// What the guest reads at ROM word `k` of memory `m`: an instruction as it is stored, a data word
/// in the guest's byte order.
pub open spec fn guest_value(m: MemView, k: int) -> u32 {
    if m.is_code(k) || m.guest_test {
        m.rom_word(k)
    } else {
        words::swap32(m.rom_word(k))
    }
}

proof fn images_word(m: MemView, rom_be: Seq<u8>, rex_be: Seq<u8>, k: int)
    requires
        m.wf(),
        !m.guest_test,
        rom_be.len() <= ROM_SIZE,
        rex_be.len() <= ROM_SIZE - REX_PA_OFFSET,
        0 <= k < ROM_SIZE / 4,
    ensures
        ({
            let l = images_loaded(m, rom_be, rex_be);
            &&& l.wf()
            &&& l == MemView { rom: l.rom, ..m }
            &&& k == 0x20_0007 ==> guest_value(l, k) == 1
            &&& k != 0x20_0007 ==> (match image_value(rom_be, rex_be, k) {
                Some(v) => guest_value(l, k) == v,
                None => l.rom_word(k) == m.rom_word(k),
            })
        }),
{
    let a = with_image(m, 0, rom_be);
    let b = with_image(a, 0x20_0000, rex_be);
    let fa = |i: int| image_word(rom_be, i - 0, m.is_code(i));
    let fb = |i: int| image_word(rex_be, i - 0x20_0000, a.is_code(i));
    words::from_words_word(m.rom, 0, rom_be.len() as int / 4, fa, k);
    words::from_words_word(a.rom, 0x20_0000, 0x20_0000 + rex_be.len() as int / 4, fb, k);
    assert(a.rom == words::from_words(m.rom, 0, rom_be.len() as int / 4, fa));
    if 0 <= k < rom_be.len() as int / 4 {
        words::be32_is_swapped_le32(rom_be, 4 * k);
    }
    if 0x20_0000 <= k < 0x20_0000 + rex_be.len() as int / 4 {
        words::be32_is_swapped_le32(rex_be, 4 * (k - 0x20_0000));
    }
    let v = if b.is_code(0x20_0007) {
        1u32
    } else {
        b.data_form(1u32)
    };
    words::swap32_involutive(1);
    words::put_le32_reads_back(b.rom, 0x80_001C, v);
    if k != 0x20_0007 {
        words::put_le32_frames(b.rom, 0x80_001C, v, 4 * k);
    }
}

/// The loaded ROM is the images. Outside the three vectors, the hypervisor's own code regions, the
/// patches, the extension's id and its native-primitive calls, the guest reads at each word what
/// the image has there, system-control accesses in their standard form; the prefetch-abort vector
/// holds the diagnostic halt, and the extension's id is 1 unless a patch sets it.
pub proof fn loaded_rom_is_the_images(
    m: MemView,
    rom_be: Seq<u8>,
    rex_be: Seq<u8>,
    ps: Seq<RomPatch>,
    dispatch: u32,
    k: int,
)
    requires
        m.wf(),
        !m.guest_test,
        rom_be.len() <= ROM_SIZE,
        rex_be.len() <= ROM_SIZE - 0x0080_0000,
        forall|j: int| 0 <= j < ps.len() ==> (#[trigger] ps[j]).index < ROM_SIZE / 4,
        0 <= k < ROM_SIZE / 4,
    ensures
        ({
            let f = newton_rom(m, rom_be, rex_be, ps, dispatch);
            let plain = k != 1 && k != 3 && k != 4 && !(0x008F_FF00 <= 4 * k < 0x00E0_0000) && 4 * k
                < 0x00FF_FD80 && (forall|j: int|
                0 <= j < ps.len() ==> (#[trigger] ps[j]).index != k) && (forall|j: int|
                k <= j <= k + 2 && 0x20_0002 <= j < 0x20_0000 + rex_be.len() / 4
                    ==> #[trigger] image_value(rom_be, rex_be, j) != Some(0xEE00_EA10u32));
            &&& k == 3 ==> f.rom_word(k) == 0xE140_0171
            &&& plain && k == 0x20_0007 ==> guest_value(f, k) == 1
            &&& plain && k != 0x20_0007 && image_value(rom_be, rex_be, k) is Some ==> {
                let v = image_value(rom_be, rex_be, k)->0;
                let reg = (v >> 16) & 0xF;
                let control = v & 0x0FE0_0FF0 == 0x0E00_0F10 && (reg == 1 || reg == 2 || reg == 3
                    || reg == 5 || reg == 6);
                guest_value(f, k) == if m.is_code(k) && control {
                    v & !0xFu32
                } else {
                    v
                }
            }
            &&& plain && k != 0x20_0007 && image_value(rom_be, rex_be, k) is None && !m.is_code(k)
                ==> f.rom_word(k) == m.rom_word(k)
            &&& f == MemView { rom: f.rom, ..m }
        }),
{
    let lo = REX_PA_OFFSET as int / 4;
    let hi = (REX_PA_OFFSET + rex_be.len()) / 4;
    let l = images_loaded(m, rom_be, rex_be);
    images_word(m, rom_be, rex_be, k);
    let moved = prims_moved(l, lo, hi);
    let patched = patches_applied(moved, ps, ps.len() as int);
    patches_keep_the_rest(moved, ps, ps.len() as int);
    let u = guest_trampolines::dabt_patched(guest_trampolines::und_patched(patched), dispatch);
    let halt = guest_trampolines::hvc_word(HVC_DIAG);
    let s = u.set_rom_word(3, halt);
    assert(s == vectors_set(m, rom_be, rex_be, ps, dispatch));
    system_control_accesses_are_standard(s, ROM_SIZE as int / 4, k);
    words::from_words_word(s.rom, 0, ROM_SIZE as int / 4, |j: int| cp15_word(s, j), k);
    encoding_bits(s.rom_word(k));
    if k == 3 {
        words::put_le32_reads_back(u.rom, 12, halt);
    } else {
        words::put_le32_frames(u.rom, 12, halt, 4 * k);
        let plain = k != 1 && k != 3 && k != 4 && !(0x008F_FF00 <= 4 * k < 0x00E0_0000) && 4 * k
            < 0x00FF_FD80 && (forall|j: int| 0 <= j < ps.len() ==> (#[trigger] ps[j]).index != k)
            && (forall|j: int|
            k <= j <= k + 2 && 0x20_0002 <= j < 0x20_0000 + rex_be.len() / 4
                ==> #[trigger] image_value(rom_be, rex_be, j) != Some(0xEE00_EA10u32));
        if plain {
            if u.rom_word(k) != patched.rom_word(k) {
                guest_trampolines::patched_words_are_hypervisor_code(patched, dispatch, k);
            }
            last_patch_of_a_word_holds(moved, ps, ps.len() as int, -1, k);
            assert forall|j: int| k <= j <= k + 2 && lo + 2 <= j < hi && l.is_code(j) implies
                #[trigger] l.rom_word(j) != 0xEE00_EA10 by {
                images_word(m, rom_be, rex_be, j);
                assert(image_value(rom_be, rex_be, j) != Some(0xEE00_EA10u32));
            }
            only_primitive_calls_are_moved(l, lo, hi, k);
        }
    }
}

/// What `load_newton_rom` rewrote.
pub struct LoadStats {
    /// Native-primitive calls moved to R12.
    pub prims: usize,
    /// System-control accesses put in standard form.
    pub cp15: usize,
    /// The addresses of the first of those.
    pub first_cp15: Vec<u32>,
}

/// Loads the Newton ROM and its extension and applies every patch. `dispatch` is the
/// hypervisor call of the data-abort trampoline.
pub fn load_newton_rom(
    mem: &mut GuestMem,
    rom_be: &[u8],
    rex_be: &[u8],
    ps: &[RomPatch],
    dispatch: u32,
) -> (stats: LoadStats)
    requires
        old(mem).wf(),
        rom_be@.len() <= ROM_SIZE,
        rex_be@.len() <= ROM_SIZE - REX_PA_OFFSET,
        forall|i: int| 0 <= i < ps@.len() ==> (#[trigger] ps@[i]).index < ROM_SIZE / 4,
    ensures
        final(mem)@ == newton_rom(old(mem)@, rom_be@, rex_be@, ps@, dispatch),
        final(mem).wf(),
        stats.prims == prim_count(
            images_loaded(old(mem)@, rom_be@, rex_be@),
            REX_PA_OFFSET as int / 4,
            (REX_PA_OFFSET + rex_be@.len()) / 4,
            (REX_PA_OFFSET + rex_be@.len()) / 4,
        ),
        ({
            let sites = lax_sites(
                vectors_set(old(mem)@, rom_be@, rex_be@, ps@, dispatch),
                ROM_SIZE as int / 4,
            );
            &&& stats.cp15 == sites.len()
            &&& stats.first_cp15@.len() == if sites.len() < 4 {
                sites.len() as int
            } else {
                4
            }
            &&& forall|i: int|
                0 <= i < stats.first_cp15@.len() ==> #[trigger] stats.first_cp15@[i] == 4
                    * sites[i]
        }),
{
    load_image(mem, 0, rom_be);
    load_image(mem, REX_PA_OFFSET / 4, rex_be);
    write_rom_word_by_kind(mem, REX_PA_OFFSET / 4 + REX_ID_OFFSET / 4, NUM_EMBEDDED_REXES);
    let prims = patch_native_prim_mcr_lr_to_r12(
        mem,
        REX_PA_OFFSET as u32,
        (REX_PA_OFFSET + rex_be.len()) as u32,
    );
    apply_patches(mem, ps);
    patch_und_vector(mem);
    patch_dabt_vector(mem, dispatch);
    let halt = hvc_insn(HVC_DIAG);
    write_rom_code_word(mem, 3, halt);
    let (cp15, first_cp15) = patch_cp15_encodings(mem, ROM_SIZE / 4);
    LoadStats { prims, cp15, first_cp15 }
}

/// The memory with `bin` copied to the start of the ROM.
pub open spec fn with_binary(m: MemView, bin: Seq<u8>) -> MemView {
    MemView {
        rom: Seq::new(
            m.rom.len(),
            |i: int|
                if i < bin.len() {
                    bin[i]
                } else {
                    m.rom[i]
                },
        ),
        ..m
    }
}

/// Loads a guest-test binary: its bytes as they are, and the undefined-instruction vector.
pub fn load_guest_test(mem: &mut GuestMem, bin: &[u8])
    requires
        old(mem).wf(),
        bin@.len() <= ROM_SIZE,
    ensures
        final(mem)@ == guest_trampolines::und_patched(with_binary(old(mem)@, bin@)),
        final(mem).wf(),
{
    let mut i: usize = 0;
    while i < bin.len()
        invariant
            i <= bin@.len() <= ROM_SIZE,
            old(mem).wf(),
            mem.wf(),
            mem@ == (MemView { rom: mem@.rom, ..old(mem)@ }),
            forall|k: int|
                0 <= k < ROM_SIZE ==> #[trigger] mem@.rom[k] == if k < i {
                    bin@[k]
                } else {
                    old(mem)@.rom[k]
                },
        decreases bin@.len() - i,
    {
        mem.set_byte(Region::Rom, i, bin[i]);
        i = i + 1;
    }
    assert(mem@.rom =~= with_binary(old(mem)@, bin@).rom);
    assert(mem@ == with_binary(old(mem)@, bin@));
    patch_und_vector(mem);
}

/// What the guest is to run.
pub enum BootImage<'a> {
    /// A guest-test binary.
    Test(&'a [u8]),
    /// The Newton ROM with its extension, patches and data-abort call.
    Newton(&'a [u8], &'a [u8], &'a [RomPatch], u32),
}

/// Whether the images fit where they go.
pub open spec fn image_fits(image: BootImage<'_>) -> bool {
    match image {
        BootImage::Test(bin) => bin@.len() <= ROM_SIZE,
        BootImage::Newton(rom_be, rex_be, ps, _) => {
            &&& rom_be@.len() <= ROM_SIZE
            &&& rex_be@.len() <= ROM_SIZE - REX_PA_OFFSET
            &&& forall|i: int| 0 <= i < ps@.len() ==> (#[trigger] ps@[i]).index < ROM_SIZE / 4
        },
    }
}

/// Fills the ROM with what the guest is to run.
pub fn load_rom(mem: &mut GuestMem, image: BootImage<'_>)
    requires
        old(mem).wf(),
        image_fits(image),
    ensures
        final(mem).wf(),
        final(mem)@ == (match image {
            BootImage::Test(bin) => guest_trampolines::und_patched(with_binary(old(mem)@, bin@)),
            BootImage::Newton(rom_be, rex_be, ps, dispatch) => newton_rom(
                old(mem)@,
                rom_be@,
                rex_be@,
                ps@,
                dispatch,
            ),
        }),
{
    match image {
        BootImage::Test(bin) => {
            load_guest_test(mem, bin);
        },
        BootImage::Newton(rom_be, rex_be, ps, dispatch) => {
            load_newton_rom(mem, rom_be, rex_be, ps, dispatch);
        },
    }
}

/// Room for the command line, its terminator included.
pub const CMDLINE_CAP: usize = 256;

/// Room for the path, its terminator included.
pub const PATH_CAP: usize = 256;

/// Why a guest-test binary cannot be loaded.
#[derive(Clone, Copy, PartialEq, Eq, Structural)]
pub enum TestLoadError {
    /// The host gave no command line.
    NoCmdline { rc: i64 },
    /// The command line is blank.
    EmptyCmdline,
    /// The path does not fit.
    PathTooLong { len: usize },
    /// The host could not open the file.
    OpenFailed { rc: i64 },
    /// The file is larger than the ROM, or its length could not be had.
    BadLength { flen: i64 },
    /// The host left bytes unread.
    ShortRead { unread: i64 },
}

/// The next host call of a guest-test load, or its end.
pub enum TestLoad {
    /// Ask for the command line.
    GetCmdline,
    /// Open the file at this NUL-terminated path.
    Open(Vec<u8>),
    /// Ask for the length of the open file.
    Length(u64),
    /// Read this many bytes of the open file.
    Read(u64, usize),
    /// Close the file; the binary has this many bytes.
    Close(u64, usize),
    /// The binary is loaded and has this many bytes.
    Loaded(usize),
    /// The load has failed, and the machine must stop.
    Halt(TestLoadError),
}

/// Whether `b` is skipped at the start of a command line.
pub open spec fn leading_blank(b: u8) -> bool {
    b == 0x20 || b == 0x09
}

/// Whether `b` is dropped at the end of a command line.
pub open spec fn trailing_blank(b: u8) -> bool {
    b == 0x20 || b == 0x09 || b == 0x0A
}

/// Whether `path` is what `buf` holds up to its terminator, without blanks around it: only
/// blanks before and behind it, none at its own ends.
pub open spec fn trimmed_path(buf: Seq<u8>, path: Seq<u8>) -> bool {
    exists|n: int, start: int, end: int|
        {
            &&& 0 <= start <= end <= n <= buf.len()
            &&& forall|i: int| 0 <= i < n ==> buf[i] != 0
            &&& n == buf.len() || buf[n] == 0
            &&& path == #[trigger] buf.take(n).subrange(start, end)
            &&& forall|i: int| 0 <= i < start ==> leading_blank(buf[i])
            &&& forall|i: int| end <= i < n ==> trailing_blank(buf[i])
            &&& start < end ==> !leading_blank(buf[start]) && !trailing_blank(buf[end - 1])
            &&& start == end ==> start == n || !leading_blank(buf[start])
        }
}

/// The path in a command line, without its terminator.
pub fn test_path(buf: &[u8]) -> (path: Vec<u8>)
    ensures
        trimmed_path(buf@, path@),
{
    let mut n: usize = 0;
    while n < buf.len() && buf[n] != 0
        invariant
            n <= buf@.len(),
            forall|i: int| 0 <= i < n ==> buf@[i] != 0,
        decreases buf@.len() - n,
    {
        n = n + 1;
    }
    let mut start: usize = 0;
    let mut end: usize = n;
    while start < end && (buf[start] == 0x20 || buf[start] == 0x09)
        invariant
            start <= end == n <= buf@.len(),
            forall|i: int| 0 <= i < start ==> leading_blank(buf@[i]),
        decreases end - start,
    {
        start = start + 1;
    }
    while end > start && (buf[end - 1] == 0x20 || buf[end - 1] == 0x09 || buf[end - 1] == 0x0A)
        invariant
            start <= end <= n <= buf@.len(),
            start < n ==> !leading_blank(buf@[start as int]),
            forall|i: int| end <= i < n ==> trailing_blank(buf@[i]),
        decreases end - start,
    {
        end = end - 1;
    }
    let mut path: Vec<u8> = Vec::new();
    let mut i: usize = start;
    while i < end
        invariant
            start <= i <= end <= n <= buf@.len(),
            path@ == buf@.take(n as int).subrange(start as int, i as int),
        decreases end - i,
    {
        path.push(buf[i]);
        assert(path@ =~= buf@.take(n as int).subrange(start as int, i + 1));
        i = i + 1;
    }
    path
}

/// The step after the host has answered `step` with `rc`.
pub open spec fn next_load(step: TestLoad, rc: i64, buf: Seq<u8>, next: TestLoad) -> bool {
    match step {
        TestLoad::GetCmdline => if rc != 0 {
            next == TestLoad::Halt(TestLoadError::NoCmdline { rc })
        } else {
            exists|path: Seq<u8>|
                {
                    &&& #[trigger] trimmed_path(buf, path)
                    &&& if path.len() == 0 {
                        next == TestLoad::Halt(TestLoadError::EmptyCmdline)
                    } else if path.len() >= PATH_CAP - 1 {
                        next == TestLoad::Halt(
                            TestLoadError::PathTooLong { len: path.len() as usize },
                        )
                    } else {
                        next matches TestLoad::Open(p) && p@ == path.push(0)
                    }
                }
        },
        TestLoad::Open(_) => if rc < 0 {
            next == TestLoad::Halt(TestLoadError::OpenFailed { rc })
        } else {
            next == TestLoad::Length(rc as u64)
        },
        TestLoad::Length(fh) => if rc < 0 || rc > ROM_SIZE {
            next == TestLoad::Halt(TestLoadError::BadLength { flen: rc })
        } else {
            next == TestLoad::Read(fh, rc as usize)
        },
        TestLoad::Read(fh, len) => if rc != 0 {
            next == TestLoad::Halt(TestLoadError::ShortRead { unread: rc })
        } else {
            next == TestLoad::Close(fh, len)
        },
        TestLoad::Close(_, len) => next == TestLoad::Loaded(len),
        TestLoad::Loaded(_) => next == step,
        TestLoad::Halt(_) => next == step,
    }
}

/// The path of a command line is what stands between its blanks: spaces and tabs before it, these and line
/// feeds behind it, up to the first zero or the end. A command line of blanks alone has none.
pub proof fn paths_stand_between_blanks(buf: Seq<u8>, path: Seq<u8>, n: int, a: int, b: int)
    requires
        trimmed_path(buf, path),
        0 <= a <= b <= n <= buf.len(),
        forall|i: int| 0 <= i < n ==> #[trigger] buf[i] != 0,
        n == buf.len() || buf[n] == 0,
        forall|i: int| 0 <= i < a ==> #[trigger] buf[i] == 32 || buf[i] == 9,
        forall|i: int| b <= i < n ==> #[trigger] buf[i] == 32 || buf[i] == 9 || buf[i] == 10,
    ensures
        a < b && buf[a] != 32 && buf[a] != 9 && buf[b - 1] != 32 && buf[b - 1] != 9 && buf[b - 1] != 10
            ==> path == buf.subrange(a, b),
        a == b ==> path.len() == 0,
{
    let (k, start, end) = choose|k: int, start: int, end: int|
        {
            &&& 0 <= start <= end <= k <= buf.len()
            &&& forall|i: int| 0 <= i < k ==> buf[i] != 0
            &&& k == buf.len() || buf[k] == 0
            &&& path == #[trigger] buf.take(k).subrange(start, end)
            &&& forall|i: int| 0 <= i < start ==> leading_blank(buf[i])
            &&& forall|i: int| end <= i < k ==> trailing_blank(buf[i])
            &&& start < end ==> !leading_blank(buf[start]) && !trailing_blank(buf[end - 1])
            &&& start == end ==> start == k || !leading_blank(buf[start])
        };
    assert(k == n) by {
        if k < n {
            assert(buf[k] != 0);
        }
        if n < k {
            assert(buf[n] != 0);
        }
    }
    if start < end {
        assert(start >= a) by {
            if start < a {
                assert(leading_blank(buf[start]));
            }
        }
        assert(end - 1 < b) by {
            if end - 1 >= b {
                assert(trailing_blank(buf[end - 1]));
            }
        }
        if buf[a] != 32 && buf[a] != 9 {
            assert(start == a) by {
                if a < start {
                    assert(leading_blank(buf[a]));
                }
            }
        }
        if a < b && buf[b - 1] != 32 && buf[b - 1] != 9 && buf[b - 1] != 10 {
            assert(end == b) by {
                if end < b {
                    assert(trailing_blank(buf[b - 1]));
                }
            }
        }
        if start == a && end == b {
            assert(buf.take(k).subrange(start, end) =~= buf.subrange(a, b));
        }
    } else if a < b && buf[a] != 32 && buf[a] != 9 && buf[b - 1] != 32 && buf[b - 1] != 9 && buf[b - 1] != 10 {
        if start > a {
            assert(leading_blank(buf[a]));
        } else {
            assert(trailing_blank(buf[b - 1]));
        }
    }
}

/// The steps of a guest-test load: command line, open, length, read, close. Each goes on only where the host
/// answered well, and a failure stops the load with what the host answered. The file must fit in 16
/// MiB, and a path has 1 to 254 bytes, to which a zero is added.
pub proof fn test_loads_go_step_by_step(step: TestLoad, rc: i64, buf: Seq<u8>, next: TestLoad)
    requires
        next_load(step, rc, buf, next),
    ensures
        step is GetCmdline && rc != 0 ==> next == TestLoad::Halt(TestLoadError::NoCmdline { rc }),
        step is GetCmdline && next is Open ==> {
            let p = next->Open_0@;
            rc == 0 && 2 <= p.len() <= 255 && p.last() == 0 && trimmed_path(buf, p.drop_last())
        },
        step is GetCmdline ==> next is Open || next is Halt,
        step is GetCmdline && rc == 0 && next is Halt ==> exists|p: Seq<u8>| #[trigger]
            trimmed_path(buf, p) && ((p.len() == 0 && next->Halt_0 is EmptyCmdline) || (p.len() > 254
                && next->Halt_0 is PathTooLong)),
        step is Open && rc < 0 ==> next == TestLoad::Halt(TestLoadError::OpenFailed { rc }),
        step is Open && rc >= 0 ==> next is Length && next->Length_0 == rc,
        step is Length && 0 <= rc <= 0x0100_0000 ==> next is Read && next->Read_0 == step->Length_0
            && next->Read_1 == rc,
        step is Length && !(0 <= rc <= 0x0100_0000) ==> next == TestLoad::Halt(
            TestLoadError::BadLength { flen: rc },
        ),
        step is Read && rc == 0 ==> next is Close && next->Close_0 == step->Read_0 && next->Close_1
            == step->Read_1,
        step is Read && rc != 0 ==> next == TestLoad::Halt(TestLoadError::ShortRead { unread: rc }),
        step is Close ==> next is Loaded && next->Loaded_0 == step->Close_1,
        step is Loaded || step is Halt ==> next == step,
{
    if step is GetCmdline && next is Open {
        let path = choose|path: Seq<u8>| #[trigger] trimmed_path(buf, path) && next->Open_0@ == path.push(0);
        assert(next->Open_0@.drop_last() =~= path);
    }
}

/// A test binary lies at the ROM's start, byte for byte; the rest of memory is as it was.
pub proof fn test_binary_is_loaded_whole(m: MemView, bin: Seq<u8>, i: int)
    requires
        m.wf(),
        bin.len() <= 0x0100_0000,
        0 <= i < 0x0100_0000,
    ensures
        with_binary(m, bin).rom.len() == 0x0100_0000,
        i < bin.len() ==> with_binary(m, bin).rom[i] == bin[i],
        i >= bin.len() ==> with_binary(m, bin).rom[i] == m.rom[i],
        with_binary(m, bin).ram == m.ram && with_binary(m, bin).fb == m.fb && with_binary(m, bin).scratch
            == m.scratch,
{
}

/// Decides what a guest-test load does after the host has answered its last call: `rc` is
/// the answer, `buf` the command line.
pub fn load_test_bin_via_semihosting(step: TestLoad, rc: i64, buf: &[u8]) -> (next: TestLoad)
    ensures
        next_load(step, rc, buf@, next),
{
    match step {
        TestLoad::GetCmdline => {
            if rc != 0 {
                return TestLoad::Halt(TestLoadError::NoCmdline { rc });
            }
            let mut path = test_path(buf);
            let ghost whole = path@;
            assert(trimmed_path(buf@, whole));
            let len: usize = path.len();
            if len == 0 {
                return TestLoad::Halt(TestLoadError::EmptyCmdline);
            }
            if len >= PATH_CAP - 1 {
                return TestLoad::Halt(TestLoadError::PathTooLong { len });
            }
            path.push(0);
            TestLoad::Open(path)
        },
        TestLoad::Open(_) => {
            if rc < 0 {
                TestLoad::Halt(TestLoadError::OpenFailed { rc })
            } else {
                TestLoad::Length(rc as u64)
            }
        },
        TestLoad::Length(fh) => {
            if rc < 0 || rc > ROM_SIZE as i64 {
                TestLoad::Halt(TestLoadError::BadLength { flen: rc })
            } else {
                TestLoad::Read(fh, rc as usize)
            }
        },
        TestLoad::Read(fh, len) => {
            if rc != 0 {
                TestLoad::Halt(TestLoadError::ShortRead { unread: rc })
            } else {
                TestLoad::Close(fh, len)
            }
        },
        TestLoad::Close(_, len) => TestLoad::Loaded(len),
        TestLoad::Loaded(len) => TestLoad::Loaded(len),
        TestLoad::Halt(e) => TestLoad::Halt(e),
    }
}

} // verus!
