//! The guest's stage-1 page tables: rewriting ARMv4 descriptors into the minimal valid
//! ARMv7 form, the scratch-pool section, and table dumps.
//!
//! ARMv4 second-level descriptors carry per-subpage permissions in bits that ARMv7
//! reads as execute-never, AP[2] and TEX. The tables are rewritten when the guest turns
//! its MMU on; tables in ROM are rewritten in the backing store.

use crate::guest_mem::{
    meant, read_pt_entry, write_pt_entry, GuestMem, MemView, Region, RAM_IPA_BASE, RAM_SIZE, ROM_SIZE,
    SCRATCH_POOL_IPA, SCRATCH_POOL_VA,
};
use crate::words;
use vstd::prelude::*;

verus! {

broadcast use words::put_le32_len;

/// Entries in the L1 table.
pub const L1_ENTRIES: usize = 4096;

/// The L1 slot of the scratch pool.
pub const SCRATCH_L1_IDX: usize = 0x60;

/// Section attributes of the scratch pool: read/write at both levels, cacheable,
/// execute-never, domain 0.
pub const SCRATCH_POOL_L1_SECTION_ATTRS: u32 = 0x0000_0C1E;

/// An L1 entry in minimal valid form: a fine table becomes a fault, a section keeps its
/// address and domain, a coarse table keeps its pointer and domain.
pub open spec fn fix_l1(e: u32) -> u32 {
    if e & 3 == 3 {
        0
    } else if e & 3 == 2 {
        (e & 0xFFF0_01E0) | 0x0000_0C0E
    } else if e & 3 == 1 {
        (e & 0xFFFF_FC00) | (e & 0x0000_01E0) | 0x01
    } else {
        e
    }
}

/// An L2 entry in minimal valid form: a page keeps its address and gets read/write at
/// both levels, cacheable, executable.
pub open spec fn fix_l2(e: u32) -> u32 {
    if e & 3 == 0 {
        e
    } else if e & 3 == 1 {
        (e & 0xFFFF_0000) | 0x0000_003D
    } else {
        (e & 0xFFFF_F000) | 0x0000_003E
    }
}

/// Byte-order conversion between a host word and a page-table entry.
pub open spec fn pt_form(w: u32, guest_test: bool) -> u32 {
    if guest_test {
        w
    } else {
        words::swap32(w)
    }
}

/// The host word that replaces host word `w` of an L2 table.
pub open spec fn fixed_word(w: u32, guest_test: bool) -> u32 {
    pt_form(fix_l2(pt_form(w, guest_test)), guest_test)
}

/// `s` with the first `n` entries of the L2 table at `off` in minimal valid form.
pub open spec fn fixed_table(s: Seq<u8>, off: int, n: int, guest_test: bool) -> Seq<u8> {
    Seq::new(
        s.len(),
        |i: int|
            if off <= i < off + 4 * n {
                words::byte_of(
                    fixed_word(words::le32(s, off + (i - off) / 4 * 4), guest_test),
                    (i - off) % 4,
                )
            } else {
                s[i]
            },
    )
}

/// L1 entry `i`.
pub open spec fn l1_entry(m: MemView, i: int) -> u32 {
    m.data_form(words::le32(m.ram, 4 * i))
}

/// Where the coarse L2 table of L1 entry `e` is backed.
pub open spec fn l2_home(e: u32) -> Option<(Region, int)> {
    let l2_pa = (e & 0xFFFF_FC00) as int;
    if l2_pa < ROM_SIZE {
        Some((Region::Rom, l2_pa))
    } else if RAM_IPA_BASE <= l2_pa < RAM_IPA_BASE + RAM_SIZE {
        Some((Region::Ram, l2_pa - RAM_IPA_BASE))
    } else {
        None
    }
}

/// The memory after the walk has visited L1 slot `i`: the slot itself and then, for a
/// coarse entry, its L2 table. The scratch-pool slot is left alone.
pub open spec fn fix_slot(m: MemView, i: int) -> MemView {
    if i == SCRATCH_L1_IDX {
        m
    } else {
        let e = l1_entry(m, i);
        let m1 = m.with_region(
            Region::Ram,
            words::put_le32(m.ram, 4 * i, m.data_form(fix_l1(e))),
        );
        if e & 3 == 1 {
            match l2_home(e) {
                Some((r, off)) => m1.with_region(
                    r,
                    fixed_table(m1.region(r), off, 256, m.guest_test),
                ),
                None => m1,
            }
        } else {
            m1
        }
    }
}

/// The memory after the walk has visited the first `n` L1 slots.
pub open spec fn fix_slots(m: MemView, n: int) -> MemView
    decreases n,
{
    if n <= 0 {
        m
    } else {
        fix_slot(fix_slots(m, n - 1), n - 1)
    }
}

proof fn fix_bits(e: u32)
    by (bit_vector)
    ensures
        e & 3 == 1 ==> ((e & 0xFFFF_0000) | 0x0000_003D) & 3 == 1,
        e & 3 == 1 ==> (((e & 0xFFFF_0000) | 0x0000_003D) & 0xFFFF_0000) | 0x0000_003D == (e
            & 0xFFFF_0000) | 0x0000_003D,
        ((e & 0xFFFF_F000) | 0x0000_003E) & 3 == 2,
        (((e & 0xFFFF_F000) | 0x0000_003E) & 0xFFFF_F000) | 0x0000_003E == (e & 0xFFFF_F000)
            | 0x0000_003E,
        ((e & 0xFFF0_01E0) | 0x0000_0C0E) & 3 == 2,
        ((e & 0xFFFF_FC00) | (e & 0x0000_01E0) | 0x01) & 3 == 1,
        e & 3 <= 3,
        (e & 0xFFFF_FC00) % 0x400 == 0,
        0u32 & 3 == 0,
{
}

/// Putting an L2 entry in minimal form twice is putting it there once, and a fixed entry
/// is never of the fourth type.
pub proof fn fix_l2_settles(e: u32)
    ensures
        fix_l2(fix_l2(e)) == fix_l2(e),
        fix_l2(e) & 3 != 3,
        fix_l1(e) & 3 != 3,
{
    fix_bits(e);
}

proof fn address_bits(e: u32, va: u32)
    by (bit_vector)
    ensures
        (((e & 0xFFFF_0000) | 0x0000_003D) & 0xFFFF_0000) | (va & 0x0000_FFFF) == (e & 0xFFFF_0000)
            | (va & 0x0000_FFFF),
        (((e & 0xFFFF_F000) | 0x0000_003E) & 0xFFFF_F000) | (va & 0x0000_0FFF) == (e & 0xFFFF_F000)
            | (va & 0x0000_0FFF),
        (((e & 0xFFF0_01E0) | 0x0000_0C0E) & 0xFFF0_0000) == e & 0xFFF0_0000,
        (((e & 0xFFFF_FC00) | (e & 0x0000_01E0) | 0x01) & 0xFFFF_FC00) == e & 0xFFFF_FC00,
{
}

/// The rewrite keeps where an entry points: an L2 entry gives every address the same
/// translation as before, a section keeps its base and a coarse entry its table.
pub proof fn fixing_keeps_addresses(e: u32, va: u32)
    ensures
        crate::guest_mem::l2_address(fix_l2(e), va) == crate::guest_mem::l2_address(e, va),
        e & 3 == 2 ==> fix_l1(e) & 3 == 2 && fix_l1(e) & 0xFFF0_0000 == e & 0xFFF0_0000,
        e & 3 == 1 ==> fix_l1(e) & 3 == 1 && fix_l1(e) & 0xFFFF_FC00 == e & 0xFFFF_FC00,
{
    fix_bits(e);
    address_bits(e, va);
}

proof fn fixed_word_settles(w: u32, guest_test: bool)
    ensures
        fixed_word(fixed_word(w, guest_test), guest_test) == fixed_word(w, guest_test),
{
    let e = pt_form(w, guest_test);
    words::swap32_involutive(fix_l2(e));
    fix_l2_settles(e);
}

/// A fixed table holds the fixed words, and every other word is as it was.
proof fn fixed_table_words(s: Seq<u8>, off: int, n: int, guest_test: bool, k: int)
    requires
        0 <= off,
        off % 4 == 0,
        0 <= n,
        off + 4 * n <= s.len(),
        0 <= k,
        4 * k + 4 <= s.len(),
    ensures
        words::le32(fixed_table(s, off, n, guest_test), 4 * k) == (if off <= 4 * k < off + 4 * n {
            fixed_word(words::le32(s, 4 * k), guest_test)
        } else {
            words::le32(s, 4 * k)
        }),
{
    let t = fixed_table(s, off, n, guest_test);
    let a = 4 * k;
    if off <= a < off + 4 * n {
        let w = fixed_word(words::le32(s, a), guest_test);
        assert forall|j: int| 0 <= j < 4 implies #[trigger] t[a + j] == words::byte_of(w, j) by {
            assert(off + (a + j - off) / 4 * 4 == a);
            assert((a + j - off) % 4 == j);
        }
        assert(t[a + 0] == words::byte_of(w, 0));
        assert(t[a + 1] == words::byte_of(w, 1));
        assert(t[a + 2] == words::byte_of(w, 2));
        assert(t[a + 3] == words::byte_of(w, 3));
        words::bytes_compose(w);
        reveal(words::le32);
    } else {
        reveal(words::le32);
        assert(a + 3 < off || a >= off + 4 * n);
        assert(t[a] == s[a] && t[a + 1] == s[a + 1] && t[a + 2] == s[a + 2] && t[a + 3] == s[a
            + 3]);
    }
}

/// Every word of `s` is the word of `s0` or its fixed form.
pub open spec fn partly_fixed(s0: Seq<u8>, s: Seq<u8>, guest_test: bool) -> bool {
    &&& s.len() == s0.len()
    &&& forall|k: int|
        0 <= k && 4 * k + 4 <= s0.len() ==> #[trigger] words::le32(s, 4 * k) == words::le32(
            s0,
            4 * k,
        ) || words::le32(s, 4 * k) == fixed_word(words::le32(s0, 4 * k), guest_test)
}

/// Fixing one more table keeps the words partly fixed, and never undoes a change.
proof fn fixing_never_reverts(s0: Seq<u8>, s: Seq<u8>, off: int, guest_test: bool)
    requires
        partly_fixed(s0, s, guest_test),
        s.len() % 4 == 0,
        0 <= off,
        off % 4 == 0,
        off + 1024 <= s.len(),
    ensures
        partly_fixed(s0, fixed_table(s, off, 256, guest_test), guest_test),
        fixed_table(s, off, 256, guest_test) == s0 <==> s == s0 && fixed_table(
            s,
            off,
            256,
            guest_test,
        ) == s,
{
    let t = fixed_table(s, off, 256, guest_test);
    assert forall|k: int| 0 <= k && 4 * k + 4 <= s0.len() implies #[trigger] words::le32(t, 4 * k)
        == words::le32(s0, 4 * k) || words::le32(t, 4 * k) == fixed_word(
        words::le32(s0, 4 * k),
        guest_test,
    ) by {
        fixed_table_words(s, off, 256, guest_test, k);
        fixed_word_settles(words::le32(s0, 4 * k), guest_test);
        assert(words::le32(s, 4 * k) == words::le32(s0, 4 * k) || words::le32(s, 4 * k)
            == fixed_word(words::le32(s0, 4 * k), guest_test));
    }
    if t == s0 {
        assert forall|k: int| 0 <= k && 4 * k + 4 <= s.len() implies #[trigger] words::le32(
            s,
            4 * k,
        ) == words::le32(s0, 4 * k) by {
            fixed_table_words(s, off, 256, guest_test, k);
            fixed_word_settles(words::le32(s0, 4 * k), guest_test);
        }
        words::equal_by_words(s, s0);
    }
}

proof fn fixed_table_step(s: Seq<u8>, off: int, j: int, guest_test: bool)
    requires
        0 <= off,
        0 <= j,
        off + 4 * (j + 1) <= s.len(),
    ensures
        words::le32(fixed_table(s, off, j, guest_test), off + 4 * j) == words::le32(s, off + 4 * j),
        words::put_le32(
            fixed_table(s, off, j, guest_test),
            off + 4 * j,
            fixed_word(words::le32(s, off + 4 * j), guest_test),
        ) == fixed_table(s, off, j + 1, guest_test),
{
    let a = off + 4 * j;
    let p = fixed_table(s, off, j, guest_test);
    assert(words::le32(p, a) == words::le32(s, a)) by {
        reveal(words::le32);
    }
    let w = fixed_word(words::le32(s, a), guest_test);
    let q = words::put_le32(p, a, w);
    let t = fixed_table(s, off, j + 1, guest_test);
    words::put_le32_reads_back(p, a, w);
    assert forall|i: int| 0 <= i < s.len() implies q[i] == t[i] by {
        if a <= i < a + 4 {
            assert((i - off) / 4 == j);
            assert((i - off) % 4 == i - a);
            assert(i == a || i == a + 1 || i == a + 2 || i == a + 3);
        }
    }
    assert(q =~= t);
}

/// Rewrites the coarse L2 table at `off` of a region; tells whether any byte changed.
fn fix_l2_table(mem: &mut GuestMem, r: Region, off: usize) -> (changed: bool)
    requires
        old(mem).wf(),
        r == Region::Rom || r == Region::Ram,
        off + 1024 <= old(mem)@.region(r).len(),
    ensures
        final(mem)@ == old(mem)@.with_region(
            r,
            fixed_table(old(mem)@.region(r), off as int, 256, old(mem)@.guest_test),
        ),
        final(mem).wf(),
        changed == (final(mem)@.region(r) != old(mem)@.region(r)),
{
    let ghost s = mem@.region(r);
    let ghost test = mem.guest_test;
    let mut changed: bool = false;
    let mut j: usize = 0;
    assert(fixed_table(s, off as int, 0, test) =~= s);
    while j < 256
        invariant
            j <= 256,
            old(mem).wf(),
            mem.wf(),
            r == Region::Rom || r == Region::Ram,
            s == old(mem)@.region(r),
            test == old(mem).guest_test,
            off + 1024 <= s.len(),
            mem@ == old(mem)@.with_region(r, fixed_table(s, off as int, j as int, test)),
            !changed ==> mem@.region(r) == s,
            changed ==> exists|k: int|
                0 <= k < j && #[trigger] words::le32(s, off + 4 * k) != fixed_word(
                    words::le32(s, off + 4 * k),
                    test,
                ),
        decreases 256 - j,
    {
        let ghost p = mem@.region(r);
        proof {
            fixed_table_step(s, off as int, j as int, test);
        }
        let at: usize = off + 4 * j;
        let e = read_pt_entry(mem, r, at);
        proof {
            fix_bits(e);
            words::swap32_involutive(words::le32(s, at as int));
            words::swap32_involutive(fix_l2(e));
        }
        let new: u32 = match e & 3 {
            0 => e,
            1 => (e & 0xFFFF_0000) | 0x0000_003D,
            _ => (e & 0xFFFF_F000) | 0x0000_003E,
        };
        assert(new == fix_l2(e));
        if new != e {
            write_pt_entry(mem, r, at, new);
            changed = true;
            assert(words::le32(s, off + 4 * (j as int)) != fixed_word(
                words::le32(s, off + 4 * (j as int)),
                test,
            ));
        } else {
            proof {
                words::put_le32_same(p, at as int);
            }
            assert(mem@.region(r) == fixed_table(s, off as int, j + 1, test));
        }
        j = j + 1;
    }
    proof {
        if changed {
            let k = choose|k: int|
                0 <= k < 256 && #[trigger] words::le32(s, off + 4 * k) != fixed_word(
                    words::le32(s, off + 4 * k),
                    test,
                );
            let t = fixed_table(s, off as int, 256, test);
            let a = off + 4 * k;
            fixed_table_step(s, off as int, k, test);
            words::put_le32_reads_back(
                fixed_table(s, off as int, k, test),
                a,
                fixed_word(words::le32(s, a), test),
            );
            let u = fixed_table(s, off as int, k + 1, test);
            reveal(words::le32);
            assert(u[a] == t[a] && u[a + 1] == t[a + 1] && u[a + 2] == t[a + 2] && u[a + 3] == t[a
                + 3]);
            assert(words::le32(t, a) == fixed_word(words::le32(s, a), test));
            assert(t != s);
        }
    }
    changed
}

/// Rewrites every descriptor reachable from the L1 table at the start of RAM into minimal
/// valid form. Tells whether the ROM changed, so that callers know to re-seed its
/// checksums.
#[verifier::rlimit(40)]
pub fn fix_stage1_xn_bits(mem: &mut GuestMem) -> (rom_changed: bool)
    requires
        old(mem).wf(),
    ensures
        final(mem)@ == fix_slots(old(mem)@, L1_ENTRIES as int),
        final(mem).wf(),
        rom_changed == (final(mem)@.rom != old(mem)@.rom),
{
    let mut rom_changed: bool = false;
    let ghost test = mem.guest_test;
    let ghost rom0 = mem@.rom;
    let mut i: usize = 0;
    while i < L1_ENTRIES
        invariant
            i <= L1_ENTRIES,
            mem.wf(),
            old(mem).wf(),
            mem.guest_test == test,
            test == old(mem).guest_test,
            rom0 == old(mem)@.rom,
            mem@ == fix_slots(old(mem)@, i as int),
            partly_fixed(rom0, mem@.rom, test),
            rom_changed == (mem@.rom != rom0),
        decreases L1_ENTRIES - i,
    {
        let ghost m = mem@;
        if i == SCRATCH_L1_IDX {
            i = i + 1;
            continue ;
        }
        let at: usize = 4 * i;
        let entry = read_pt_entry(mem, Region::Ram, at);
        proof {
            fix_bits(entry);
            words::put_le32_same(m.ram, at as int);
            words::swap32_involutive(words::le32(m.ram, at as int));
        }
        let typ = entry & 3;
        let new: u32 = match typ {
            3 => 0,
            2 => (entry & 0xFFF0_01E0) | 0x0000_0C0E,
            1 => (entry & 0xFFFF_FC00) | (entry & 0x0000_01E0) | 0x01,
            _ => entry,
        };
        assert(new == fix_l1(entry));
        if new != entry {
            write_pt_entry(mem, Region::Ram, at, new);
        }
        let ghost m1 = m.with_region(
            Region::Ram,
            words::put_le32(m.ram, at as int, m.data_form(fix_l1(entry))),
        );
        assert(mem@ == m1);
        if typ == 1 {
            let l2_pa: u32 = entry & 0xFFFF_FC00;
            if l2_pa < ROM_SIZE as u32 {
                proof {
                    fixing_never_reverts(rom0, m.rom, l2_pa as int, test);
                }
                let changed = fix_l2_table(mem, Region::Rom, l2_pa as usize);
                if changed {
                    rom_changed = true;
                }
            } else if RAM_IPA_BASE <= l2_pa && l2_pa < RAM_IPA_BASE + RAM_SIZE as u32 {
                fix_l2_table(mem, Region::Ram, (l2_pa - RAM_IPA_BASE) as usize);
            }
        }
        assert(mem@ == fix_slot(m, i as int));
        i = i + 1;
    }
    rom_changed
}

/// After the walk no L1 slot but the scratch pool's holds a fine-table descriptor.
pub proof fn no_fine_tables_left(m: MemView, n: int, i: int)
    requires
        m.wf(),
        0 <= i < n <= L1_ENTRIES,
        i != SCRATCH_L1_IDX,
    ensures
        l1_entry(fix_slots(m, n), i) & 3 != 3,
        fix_slots(m, n).wf(),
        fix_slots(m, n).guest_test == m.guest_test,
    decreases n,
{
    let p = fix_slots(m, n - 1);
    if i < n - 1 {
        no_fine_tables_left(m, n - 1, i);
    } else {
        walk_keeps_shape(m, n - 1);
    }
    let q = fix_slots(m, n);
    let k = n - 1;
    if k != SCRATCH_L1_IDX {
        let e = l1_entry(p, k);
        fix_bits(e);
        let w = p.data_form(fix_l1(e));
        words::put_le32_reads_back(p.ram, 4 * k, w);
        words::swap32_involutive(fix_l1(e));
        let ram1 = words::put_le32(p.ram, 4 * k, w);
        if i < k {
            words::put_le32_frames(p.ram, 4 * k, w, 4 * i);
        }
        let before = pt_form(words::le32(ram1, 4 * i), p.guest_test);
        assert(before & 3 != 3) by {
            fix_l2_settles(e);
        }
        if e & 3 == 1 {
            if let Some((r, off)) = l2_home(e) {
                if r == Region::Ram {
                    fixed_table_words(ram1, off, 256, p.guest_test, i);
                    words::swap32_involutive(fix_l2(before));
                    fix_l2_settles(before);
                }
            }
        }
    }
}

/// The walk keeps the sizes of the regions and the byte order.
proof fn walk_keeps_shape(m: MemView, n: int)
    requires
        m.wf(),
        0 <= n <= L1_ENTRIES,
    ensures
        fix_slots(m, n).wf(),
        fix_slots(m, n).guest_test == m.guest_test,
    decreases n,
{
    if n > 0 {
        walk_keeps_shape(m, n - 1);
    }
}

/// Whether no coarse table that the walk visits lies in the L1 table itself.
pub open spec fn tables_apart(m: MemView) -> bool {
    forall|i: int| 0 <= i < L1_ENTRIES && i != SCRATCH_L1_IDX ==> table_apart(#[trigger] l1_entry(m, i))
}

/// Whether the coarse table of entry `e`, if there is one, lies outside the L1 table.
pub open spec fn table_apart(e: u32) -> bool {
    e & 3 == 1 ==> match l2_home(e) {
        Some((Region::Ram, off)) => off >= 4 * L1_ENTRIES,
        _ => true,
    }
}

/// Whether every entry of the table at `off` is in minimal valid form.
pub open spec fn table_settled(s: Seq<u8>, off: int, guest_test: bool) -> bool {
    forall|q: int|
        off <= 4 * q < off + 1024 ==> #[trigger] words::le32(s, 4 * q) == fixed_word(
            words::le32(s, 4 * q),
            guest_test,
        )
}

/// Whether the coarse table of entry `e`, if there is one, is in minimal valid form.
pub open spec fn below_settled(m: MemView, e: u32) -> bool {
    e & 3 == 1 ==> match l2_home(e) {
        Some((r, off)) => table_settled(m.region(r), off, m.guest_test),
        None => true,
    }
}

proof fn l1_bits(e: u32)
    by (bit_vector)
    ensures
        (((e & 0xFFF0_01E0) | 0x0000_0C0E) & 0xFFF0_01E0) | 0x0000_0C0E == (e & 0xFFF0_01E0)
            | 0x0000_0C0E,
        ({
            let c = (e & 0xFFFF_FC00) | (e & 0x0000_01E0) | 0x01;
            &&& (c & 0xFFFF_FC00) | (c & 0x0000_01E0) | 0x01 == c
            &&& c & 0xFFFF_FC00 == e & 0xFFFF_FC00
        }),
{
}

proof fn fix_l1_settles(e: u32)
    ensures
        fix_l1(fix_l1(e)) == fix_l1(e),
        e & 3 == 1 <==> fix_l1(e) & 3 == 1,
        e & 3 == 1 ==> l2_home(fix_l1(e)) == l2_home(e),
{
    fix_bits(e);
    l1_bits(e);
}

proof fn home_fits(e: u32)
    ensures
        match l2_home(e) {
            Some((r, off)) => {
                &&& off >= 0 && off % 4 == 0
                &&& r == Region::Rom && off + 1024 <= ROM_SIZE || r == Region::Ram && off + 1024
                    <= RAM_SIZE
            },
            None => true,
        },
{
    fix_bits(e);
}

/// A visit rewrites its own L1 slot and no other.
proof fn visit_l1(p: MemView, k: int, i: int)
    requires
        p.wf(),
        0 <= k < L1_ENTRIES,
        0 <= i < L1_ENTRIES,
        k != SCRATCH_L1_IDX ==> table_apart(l1_entry(p, k)),
    ensures
        l1_entry(fix_slot(p, k), i) == (if i == k && k != SCRATCH_L1_IDX {
            fix_l1(l1_entry(p, i))
        } else {
            l1_entry(p, i)
        }),
{
    if k != SCRATCH_L1_IDX {
        let e = l1_entry(p, k);
        let w = p.data_form(fix_l1(e));
        let ram1 = words::put_le32(p.ram, 4 * k, w);
        words::put_le32_reads_back(p.ram, 4 * k, w);
        words::swap32_involutive(fix_l1(e));
        if i != k {
            words::put_le32_frames(p.ram, 4 * k, w, 4 * i);
        }
        home_fits(e);
        if e & 3 == 1 {
            if let Some((r, off)) = l2_home(e) {
                if r == Region::Ram {
                    fixed_table_words(ram1, off, 256, p.guest_test, i);
                }
            }
        }
    }
}

/// A visit leaves a table that is in minimal valid form so.
proof fn visit_keeps_settled(p: MemView, k: int, e: u32)
    requires
        p.wf(),
        0 <= k < L1_ENTRIES,
        k != SCRATCH_L1_IDX ==> table_apart(l1_entry(p, k)),
        table_apart(e),
        below_settled(p, e),
    ensures
        below_settled(fix_slot(p, k), e),
{
    if e & 3 == 1 && l2_home(e) is Some && k != SCRATCH_L1_IDX {
        let (r, off) = l2_home(e)->0;
        home_fits(e);
        let d = l1_entry(p, k);
        home_fits(d);
        let w = p.data_form(fix_l1(d));
        let m1 = p.with_region(Region::Ram, words::put_le32(p.ram, 4 * k, w));
        let q1 = fix_slot(p, k);
        assert forall|q: int| off <= 4 * q < off + 1024 implies #[trigger] words::le32(
            q1.region(r),
            4 * q,
        ) == fixed_word(words::le32(q1.region(r), 4 * q), p.guest_test) by {
            assert(words::le32(p.region(r), 4 * q) == fixed_word(
                words::le32(p.region(r), 4 * q),
                p.guest_test,
            ));
            if r == Region::Ram {
                words::put_le32_frames(p.ram, 4 * k, w, 4 * q);
            }
            if d & 3 == 1 && l2_home(d) is Some {
                let (r2, off2) = l2_home(d)->0;
                if r2 == r {
                    fixed_table_words(m1.region(r), off2, 256, p.guest_test, q);
                }
            }
        }
    }
}

/// A visit puts the table below its slot into minimal valid form.
proof fn visit_settles(p: MemView, k: int)
    requires
        p.wf(),
        0 <= k < L1_ENTRIES,
        k != SCRATCH_L1_IDX,
    ensures
        below_settled(fix_slot(p, k), l1_entry(p, k)),
{
    let e = l1_entry(p, k);
    if e & 3 == 1 && l2_home(e) is Some {
        let (r, off) = l2_home(e)->0;
        home_fits(e);
        let w = p.data_form(fix_l1(e));
        let m1 = p.with_region(Region::Ram, words::put_le32(p.ram, 4 * k, w));
        let t = fix_slot(p, k).region(r);
        assert forall|q: int| off <= 4 * q < off + 1024 implies #[trigger] words::le32(t, 4 * q)
            == fixed_word(words::le32(t, 4 * q), p.guest_test) by {
            fixed_table_words(m1.region(r), off, 256, p.guest_test, q);
            fixed_word_settles(words::le32(m1.region(r), 4 * q), p.guest_test);
        }
    }
}

/// After `n` visits the first `n` L1 slots, the scratch pool's aside, and the tables below them
/// are in minimal valid form, and the other slots are as they were.
proof fn walk_so_far(m: MemView, n: int)
    requires
        m.wf(),
        tables_apart(m),
        0 <= n <= L1_ENTRIES,
    ensures
        fix_slots(m, n).wf(),
        fix_slots(m, n).guest_test == m.guest_test,
        forall|i: int|
            0 <= i < L1_ENTRIES ==> #[trigger] l1_entry(fix_slots(m, n), i) == (if i < n && i
                != SCRATCH_L1_IDX {
                fix_l1(l1_entry(m, i))
            } else {
                l1_entry(m, i)
            }),
        forall|i: int|
            0 <= i < n && i != SCRATCH_L1_IDX ==> below_settled(
                fix_slots(m, n),
                #[trigger] l1_entry(m, i),
            ),
    decreases n,
{
    if n > 0 {
        walk_so_far(m, n - 1);
        walk_keeps_shape(m, n);
        let p = fix_slots(m, n - 1);
        let k = n - 1;
        assert(l1_entry(p, k) == l1_entry(m, k));
        assert forall|i: int| 0 <= i < L1_ENTRIES implies #[trigger] l1_entry(fix_slots(m, n), i)
            == (if i < n && i != SCRATCH_L1_IDX {
            fix_l1(l1_entry(m, i))
        } else {
            l1_entry(m, i)
        }) by {
            visit_l1(p, k, i);
            assert(l1_entry(p, i) == (if i < k && i != SCRATCH_L1_IDX {
                fix_l1(l1_entry(m, i))
            } else {
                l1_entry(m, i)
            }));
        }
        assert forall|i: int| 0 <= i < n && i != SCRATCH_L1_IDX implies below_settled(
            fix_slots(m, n),
            #[trigger] l1_entry(m, i),
        ) by {
            if i < k {
                visit_keeps_settled(p, k, l1_entry(m, i));
            } else {
                visit_settles(p, k);
            }
        }
    }
}

/// A visit to a slot that is in minimal valid form, with its table, changes nothing.
proof fn settled_slot_stays(p: MemView, k: int)
    requires
        p.wf(),
        0 <= k < L1_ENTRIES,
        k != SCRATCH_L1_IDX ==> fix_l1(l1_entry(p, k)) == l1_entry(p, k) && below_settled(
            p,
            l1_entry(p, k),
        ),
    ensures
        fix_slot(p, k) == p,
{
    if k != SCRATCH_L1_IDX {
        let e = l1_entry(p, k);
        words::put_le32_same(p.ram, 4 * k);
        words::swap32_involutive(words::le32(p.ram, 4 * k));
        home_fits(e);
        if e & 3 == 1 && l2_home(e) is Some {
            let (r, off) = l2_home(e)->0;
            let s = p.region(r);
            let t = fixed_table(s, off, 256, p.guest_test);
            assert forall|q: int| 0 <= q && 4 * q + 4 <= t.len() implies #[trigger] words::le32(
                t,
                4 * q,
            ) == words::le32(s, 4 * q) by {
                fixed_table_words(s, off, 256, p.guest_test, q);
                if off <= 4 * q < off + 1024 {
                    assert(words::le32(s, 4 * q) == fixed_word(
                        words::le32(s, 4 * q),
                        p.guest_test,
                    ));
                }
            }
            words::equal_by_words(t, s);
        }
    }
}

/// The walk does everything at once: where no coarse table lies in the L1 table, a second walk
/// leaves the memory as it is, so that it finds the ROM unchanged.
pub proof fn second_walk_changes_nothing(m: MemView, n: int)
    requires
        m.wf(),
        tables_apart(m),
        0 <= n <= L1_ENTRIES,
    ensures
        fix_slots(fix_slots(m, L1_ENTRIES as int), n) == fix_slots(m, L1_ENTRIES as int),
    decreases n,
{
    if n > 0 {
        second_walk_changes_nothing(m, n - 1);
        walk_so_far(m, L1_ENTRIES as int);
        let f = fix_slots(m, L1_ENTRIES as int);
        let k = n - 1;
        let e = l1_entry(m, k);
        assert(l1_entry(f, k) == (if k != SCRATCH_L1_IDX {
            fix_l1(e)
        } else {
            e
        }));
        if k != SCRATCH_L1_IDX {
            fix_l1_settles(e);
            assert(below_settled(f, e));
        }
        settled_slot_stays(f, k);
    }
}

/// The walk puts every L1 entry into minimal valid form but that of the scratch pool, which it
/// leaves as it is, and it leaves fault entries as they are.
pub proof fn walk_fixes_each_entry(m: MemView, i: int)
    requires
        m.wf(),
        tables_apart(m),
        0 <= i < L1_ENTRIES,
    ensures
        ({
            let f = fix_slots(m, L1_ENTRIES as int);
            &&& l1_entry(f, i) == (if i == SCRATCH_L1_IDX {
                l1_entry(m, i)
            } else {
                fix_l1(l1_entry(m, i))
            })
            &&& l1_entry(m, i) & 3 == 0 ==> l1_entry(f, i) == l1_entry(m, i)
        }),
{
    walk_so_far(m, L1_ENTRIES as int);
}

/// Whether no L1 entry but the scratch pool's points at a coarse table inside the L1 table.
pub open spec fn no_table_in_l1(m: MemView) -> bool {
    forall|i: int|
        0 <= i < 4096 && i != 0x60 && #[trigger] meant(m.ram, 4 * i, m.guest_test) & 3 == 1 ==> {
            let pa = meant(m.ram, 4 * i, m.guest_test) & 0xFFFF_FC00;
            pa < 0x0400_0000 || pa >= 0x0400_4000
        }
}

proof fn meant_entry(m: MemView, i: int)
    requires
        m.wf(),
        0 <= i < L1_ENTRIES,
    ensures
        l1_entry(m, i) == meant(m.ram, 4 * i, m.guest_test),
{
    words::be32_is_swapped_le32(m.ram, 4 * i);
}

proof fn entries_are_apart(m: MemView)
    requires
        m.wf(),
        no_table_in_l1(m),
    ensures
        tables_apart(m),
{
    assert forall|i: int| 0 <= i < L1_ENTRIES && i != SCRATCH_L1_IDX implies table_apart(
        #[trigger] l1_entry(m, i),
    ) by {
        meant_entry(m, i);
        assert(meant(m.ram, 4 * i, m.guest_test) & 3 == 1 ==> {
            let pa = meant(m.ram, 4 * i, m.guest_test) & 0xFFFF_FC00;
            pa < 0x0400_0000 || pa >= 0x0400_4000
        });
    }
}

proof fn field_bits(e: u32)
    by (bit_vector)
    ensures
        ({
            let n = (e & 0xFFF0_01E0) | 0x0000_0C0E;
            &&& n & 3 == 2
            &&& n >> 20 == e >> 20
            &&& (n >> 5) & 0xF == (e >> 5) & 0xF
            &&& (n >> 10) & 3 == 3
            &&& (n >> 15) & 1 == 0
            &&& (n >> 4) & 1 == 0
            &&& (n >> 2) & 3 == 3
            &&& (n >> 12) & 7 == 0
            &&& (n >> 16) & 0xF == 0
            &&& (n >> 9) & 1 == 0
        }),
        ({
            let n = (e & 0xFFFF_FC00) | (e & 0x0000_01E0) | 0x01;
            &&& n & 3 == 1
            &&& n >> 10 == e >> 10
            &&& (n >> 5) & 0xF == (e >> 5) & 0xF
            &&& (n >> 9) & 1 == 0
            &&& (n >> 2) & 7 == 0
        }),
        ({
            let n = (e & 0xFFFF_0000) | 0x0000_003D;
            &&& n & 3 == 1
            &&& n >> 16 == e >> 16
            &&& (n >> 2) & 3 == 3
            &&& (n >> 4) & 3 == 3
            &&& (n >> 6) & 0x3FF == 0
        }),
        ({
            let n = (e & 0xFFFF_F000) | 0x0000_003E;
            &&& n & 3 == 2
            &&& n >> 12 == e >> 12
            &&& (n >> 2) & 3 == 3
            &&& (n >> 4) & 3 == 3
            &&& (n >> 6) & 0x3F == 0
        }),
        e & 3 == 0 || e & 3 == 1 || e & 3 == 2 || e & 3 == 3,
{
}

/// What the walk makes of each L1 entry, field by field. A fault entry stays. A section keeps its
/// base and its domain, and is read/write at both levels, cacheable and bufferable, executable,
/// with no extended type. A coarse entry keeps its table and its domain, with all else clear. A
/// fine table becomes a fault entry. The scratch pool's entry stays.
pub proof fn walk_keeps_base_and_domain(m: MemView, i: int)
    requires
        m.wf(),
        no_table_in_l1(m),
        0 <= i < 4096,
    ensures
        ({
            let f = fix_slots(m, L1_ENTRIES as int);
            let e = meant(m.ram, 4 * i, m.guest_test);
            let n = meant(f.ram, 4 * i, m.guest_test);
            &&& i == 0x60 || e & 3 == 0 ==> n == e
            &&& i != 0x60 && e & 3 == 3 ==> n == 0
            &&& i != 0x60 && e & 3 == 2 ==> {
                &&& n & 3 == 2
                &&& n >> 20 == e >> 20
                &&& (n >> 5) & 0xF == (e >> 5) & 0xF
                &&& (n >> 10) & 3 == 3
                &&& (n >> 15) & 1 == 0
                &&& (n >> 4) & 1 == 0
                &&& (n >> 2) & 3 == 3
                &&& (n >> 12) & 7 == 0
                &&& (n >> 16) & 0xF == 0
                &&& (n >> 9) & 1 == 0
            }
            &&& i != 0x60 && e & 3 == 1 ==> {
                &&& n & 3 == 1
                &&& n >> 10 == e >> 10
                &&& (n >> 5) & 0xF == (e >> 5) & 0xF
                &&& (n >> 9) & 1 == 0
                &&& (n >> 2) & 7 == 0
            }
        }),
{
    entries_are_apart(m);
    walk_so_far(m, L1_ENTRIES as int);
    let f = fix_slots(m, L1_ENTRIES as int);
    meant_entry(m, i);
    meant_entry(f, i);
    assert(l1_entry(f, i) == (if i < L1_ENTRIES && i != SCRATCH_L1_IDX {
        fix_l1(l1_entry(m, i))
    } else {
        l1_entry(m, i)
    }));
    field_bits(l1_entry(m, i));
}

/// A word behind the L1 table is, after any number of visits, as it was or in minimal valid form.
proof fn walk_words(m: MemView, n: int, r: Region, k: int)
    requires
        m.wf(),
        tables_apart(m),
        0 <= n <= L1_ENTRIES,
        r == Region::Rom || (r == Region::Ram && k >= L1_ENTRIES),
        0 <= k,
        4 * k + 4 <= m.region(r).len(),
    ensures
        ({
            let w = words::le32(fix_slots(m, n).region(r), 4 * k);
            let w0 = words::le32(m.region(r), 4 * k);
            w == w0 || w == fixed_word(w0, m.guest_test)
        }),
    decreases n,
{
    if n > 0 {
        walk_words(m, n - 1, r, k);
        visit_word(m, n - 1, r, k);
        fixed_word_settles(words::le32(m.region(r), 4 * k), m.guest_test);
    }
}

/// A visit puts the words of its coarse table into minimal valid form and leaves every other word
/// behind the L1 table.
proof fn visit_word(m: MemView, i: int, r: Region, k: int)
    requires
        m.wf(),
        tables_apart(m),
        0 <= i < L1_ENTRIES,
        r == Region::Rom || (r == Region::Ram && k >= L1_ENTRIES),
        0 <= k,
        4 * k + 4 <= m.region(r).len(),
    ensures
        ({
            let p = fix_slots(m, i);
            let w = words::le32(p.region(r), 4 * k);
            let e = l1_entry(m, i);
            words::le32(fix_slots(m, i + 1).region(r), 4 * k) == (match l2_home(e) {
                Some((r2, off)) if i != SCRATCH_L1_IDX && e & 3 == 1 && r2 == r && off <= 4 * k < off
                    + 1024 => fixed_word(w, m.guest_test),
                _ => w,
            })
        }),
{
    walk_so_far(m, i);
    let p = fix_slots(m, i);
    assert(l1_entry(p, i) == l1_entry(m, i));
    if i != SCRATCH_L1_IDX {
        let e = l1_entry(m, i);
        let w = p.data_form(fix_l1(e));
        let m1 = p.with_region(Region::Ram, words::put_le32(p.ram, 4 * i, w));
        if r == Region::Ram {
            words::put_le32_frames(p.ram, 4 * i, w, 4 * k);
        }
        home_fits(e);
        if e & 3 == 1 {
            if let Some((r2, off)) = l2_home(e) {
                if r2 == r {
                    fixed_table_words(m1.region(r), off, 256, m.guest_test, k);
                }
            }
        }
    }
}

/// What the walk makes of each entry of a coarse table in ROM or RAM, field by field. A fault
/// entry stays. A large page keeps its base, and so does a small one, into which an extended small
/// page turns; both are read/write at both levels, cacheable and bufferable, executable, with no
/// extended type.
pub proof fn walk_keeps_pages(m: MemView, i: int, j: int)
    requires
        m.wf(),
        no_table_in_l1(m),
        0 <= i < 4096,
        i != 0x60,
        meant(m.ram, 4 * i, m.guest_test) & 3 == 1,
        0 <= j < 256,
    ensures
        ({
            let f = fix_slots(m, L1_ENTRIES as int);
            let pa = (meant(m.ram, 4 * i, m.guest_test) & 0xFFFF_FC00) as int;
            &&& pa < 0x0100_0000 ==> page_kept(
                meant(m.rom, pa + 4 * j, m.guest_test),
                meant(f.rom, pa + 4 * j, m.guest_test),
            )
            &&& 0x0400_0000 <= pa < 0x0440_0000 ==> page_kept(
                meant(m.ram, pa - 0x0400_0000 + 4 * j, m.guest_test),
                meant(f.ram, pa - 0x0400_0000 + 4 * j, m.guest_test),
            )
        }),
{
    entries_are_apart(m);
    walk_so_far(m, L1_ENTRIES as int);
    let f = fix_slots(m, L1_ENTRIES as int);
    meant_entry(m, i);
    let e = l1_entry(m, i);
    home_fits(e);
    assert(below_settled(f, e));
    assert(table_apart(e));
    if l2_home(e) is Some {
        let (r, off) = l2_home(e)->0;
        let k = (off + 4 * j) / 4;
        assert(4 * k == off + 4 * j);
        walk_words(m, L1_ENTRIES as int, r, k);
        assert(words::le32(f.region(r), 4 * k) == fixed_word(
            words::le32(f.region(r), 4 * k),
            m.guest_test,
        ));
        let w0 = words::le32(m.region(r), 4 * k);
        let l2 = pt_form(w0, m.guest_test);
        words::be32_is_swapped_le32(m.region(r), 4 * k);
        words::be32_is_swapped_le32(f.region(r), 4 * k);
        words::swap32_involutive(fix_l2(l2));
        assert(meant(f.region(r), 4 * k, m.guest_test) == fix_l2(l2));
        field_bits(l2);
    }
}

/// Whether `n` maps what the second-level entry `e` maps, with the rights and attributes that the
/// rewrite gives every page.
pub open spec fn page_kept(e: u32, n: u32) -> bool {
    &&& e & 3 == 0 ==> n == e
    &&& e & 3 != 0 ==> (n >> 2) & 3 == 3 && (n >> 4) & 3 == 3
    &&& e & 3 == 1 ==> n & 3 == 1 && n >> 16 == e >> 16 && (n >> 6) & 0x3FF == 0
    &&& e & 3 == 2 || e & 3 == 3 ==> n & 3 == 2 && n >> 12 == e >> 12 && (n >> 6) & 0x3F == 0
}

/// The walk touches nothing but the L1 table and the coarse tables that it points at: every other
/// word of ROM and RAM, and the framebuffer, the scratch pool and the rest, are as they were.
pub proof fn walk_touches_tables_only(m: MemView, r: Region, k: int)
    requires
        m.wf(),
        no_table_in_l1(m),
        r == Region::Rom || (r == Region::Ram && k >= 4096),
        0 <= k,
        4 * k + 4 <= m.region(r).len(),
        forall|i: int|
            0 <= i < 4096 && i != 0x60 && #[trigger] meant(m.ram, 4 * i, m.guest_test) & 3 == 1 ==> {
                let pa = (meant(m.ram, 4 * i, m.guest_test) & 0xFFFF_FC00) as int;
                let at = if r == Region::Rom {
                    4 * k
                } else {
                    0x0400_0000 + 4 * k
                };
                !(pa <= at < pa + 1024)
            },
    ensures
        ({
            let f = fix_slots(m, L1_ENTRIES as int);
            &&& words::le32(f.region(r), 4 * k) == words::le32(m.region(r), 4 * k)
            &&& f == MemView { rom: f.rom, ram: f.ram, ..m }
        }),
{
    entries_are_apart(m);
    walk_leaves(m, L1_ENTRIES as int, r, k);
}

proof fn walk_leaves(m: MemView, n: int, r: Region, k: int)
    requires
        m.wf(),
        tables_apart(m),
        0 <= n <= L1_ENTRIES,
        r == Region::Rom || (r == Region::Ram && k >= L1_ENTRIES),
        0 <= k,
        4 * k + 4 <= m.region(r).len(),
        forall|i: int|
            0 <= i < 4096 && i != 0x60 && #[trigger] meant(m.ram, 4 * i, m.guest_test) & 3 == 1 ==> {
                let pa = (meant(m.ram, 4 * i, m.guest_test) & 0xFFFF_FC00) as int;
                let at = if r == Region::Rom {
                    4 * k
                } else {
                    0x0400_0000 + 4 * k
                };
                !(pa <= at < pa + 1024)
            },
    ensures
        words::le32(fix_slots(m, n).region(r), 4 * k) == words::le32(m.region(r), 4 * k),
        fix_slots(m, n) == (MemView { rom: fix_slots(m, n).rom, ram: fix_slots(m, n).ram, ..m }),
    decreases n,
{
    if n > 0 {
        walk_leaves(m, n - 1, r, k);
        visit_word(m, n - 1, r, k);
        meant_entry(m, n - 1);
        assert(meant(m.ram, 4 * (n - 1), m.guest_test) == l1_entry(m, n - 1));
    }
}

proof fn walk_keeps_rest(m: MemView, n: int)
    requires
        0 <= n <= L1_ENTRIES,
    ensures
        fix_slots(m, n) == (MemView { rom: fix_slots(m, n).rom, ram: fix_slots(m, n).ram, ..m }),
    decreases n,
{
    if n > 0 {
        walk_keeps_rest(m, n - 1);
    }
}

/// The walk changes what the tables permit, not where they lead: every address outside the scratch
/// pool's section has the translation that it had, or still has none.
pub proof fn walk_keeps_translations(m: MemView, va: u32)
    requires
        m.wf(),
        no_table_in_l1(m),
        va >> 20 != 0x60,
    ensures
        fix_slots(m, L1_ENTRIES as int).translate(va) == m.translate(va),
{
    entries_are_apart(m);
    walk_so_far(m, L1_ENTRIES as int);
    walk_keeps_rest(m, L1_ENTRIES as int);
    walk_bits(va);
    let f = fix_slots(m, L1_ENTRIES as int);
    let i = (va >> 20) as int;
    let e = l1_entry(m, i);
    assert(l1_entry(f, i) == fix_l1(e));
    fixing_keeps_addresses(e, va);
    fix_bits(e);
    home_fits(e);
    assert(crate::guest_mem::locate(0x0400_0000 + (va >> 20) * 4, 4, false) == Some(
        (Region::Ram, (va >> 20) * 4int),
    ));
    assert(table_apart(e));
    if m.mmu_on && e & 3 == 1 {
        let pa = ((e & 0xFFFF_FC00) + ((va >> 12) & 0xFF) * 4) as u32;
        walk_bits(e);
        if let Some((r, off)) = crate::guest_mem::locate(pa as int, 4, false) {
            if r == Region::Rom || r == Region::Ram {
                let k = off / 4;
                assert(4 * k == off);
                walk_words(m, L1_ENTRIES as int, r, k);
                let w0 = words::le32(m.region(r), 4 * k);
                let l2 = pt_form(w0, m.guest_test);
                words::swap32_involutive(fix_l2(l2));
                fixing_keeps_addresses(l2, va);
            }
        }
    }
}

/// The L1 entry that maps the scratch pool.
pub open spec fn scratch_section() -> u32 {
    SCRATCH_POOL_IPA | SCRATCH_POOL_L1_SECTION_ATTRS
}

/// The states in which the scratch-pool slot may be overwritten: any fault entry, the
/// section itself, and the section as the descriptor rewrite leaves it.
pub open spec fn scratch_slot_free(e: u32) -> bool {
    e & 3 == 0 || e == scratch_section() || e == (scratch_section() & 0xFFF0_01E0) | 0x0000_0C0E
}

/// The L1 entry that maps the scratch pool.
pub fn scratch_pool_l1_section() -> (e: u32)
    ensures
        e == scratch_section(),
{
    SCRATCH_POOL_IPA | SCRATCH_POOL_L1_SECTION_ATTRS
}

/// Installs the scratch-pool section in its L1 slot. `Ok` holds the entry that was there;
/// `Err` holds a mapping of the kernel's own, which is left in place and which the caller
/// must stop on.
pub fn install_scratch_pool_l1_section(mem: &mut GuestMem) -> (was: Result<u32, u32>)
    requires
        old(mem).wf(),
    ensures
        ({
            let e = l1_entry(old(mem)@, SCRATCH_L1_IDX as int);
            if scratch_slot_free(e) {
                &&& was == Ok::<u32, u32>(e)
                &&& final(mem)@ == old(mem)@.with_region(
                    Region::Ram,
                    words::put_le32(
                        old(mem)@.ram,
                        4 * SCRATCH_L1_IDX,
                        old(mem)@.data_form(scratch_section()),
                    ),
                )
            } else {
                &&& was == Err::<u32, u32>(e)
                &&& final(mem)@ == old(mem)@
            }
        }),
        final(mem).wf(),
{
    let entry = read_pt_entry(mem, Region::Ram, 4 * SCRATCH_L1_IDX);
    let installed = scratch_pool_l1_section();
    let normalised: u32 = (installed & 0xFFF0_01E0) | 0x0000_0C0E;
    if !((entry & 3) == 0 || entry == installed || entry == normalised) {
        return Err(entry);
    }
    if entry != installed {
        write_pt_entry(mem, Region::Ram, 4 * SCRATCH_L1_IDX, installed);
    } else {
        proof {
            words::put_le32_same(mem@.ram, 4 * SCRATCH_L1_IDX);
            words::swap32_involutive(words::le32(mem@.ram, 4 * SCRATCH_L1_IDX));
        }
    }
    Ok(entry)
}

proof fn scratch_section_bits()
    by (bit_vector)
    ensures
        (0x0600_0000u32 | 0x0000_0C1Eu32) & 3 == 2,
        (0x0600_0000u32 | 0x0000_0C1Eu32) & 0xFFF0_0000 == 0x0600_0000,
        0x0600_0000u32 >> 20 == 0x60,
        ({
            let s = 0x0600_0000u32 | 0x0000_0C1Eu32;
            &&& s == 0x0600_0C1E
            &&& (s & 0xFFF0_01E0) | 0x0000_0C0E == 0x0600_0C0E
            &&& s >> 20 == 0x60
            &&& (s >> 4) & 1 == 1
            &&& (s >> 10) & 3 == 3
            &&& (s >> 15) & 1 == 0
            &&& (s >> 5) & 0xF == 0
        }),
{
}

proof fn scratch_address_bits(va: u32)
    by (bit_vector)
    requires
        va >> 20 == 0x60,
    ensures
        0x0600_0000u32 | (va & 0x000F_FFFF) == va,
{
}

/// Once installed, the scratch pool is mapped to itself.
pub proof fn scratch_pool_is_identity_mapped(m: MemView, va: u32)
    requires
        m.wf(),
        m.mmu_on,
        l1_entry(m, SCRATCH_L1_IDX as int) == scratch_section(),
        va >> 20 == SCRATCH_POOL_VA >> 20,
    ensures
        m.translate(va) == Some(va),
{
    scratch_section_bits();
    scratch_address_bits(va);
}

/// The scratch pool's section is read/write at both levels, execute-never and in domain 0. Its
/// slot is free for it where it holds a fault entry or that section already, executable or not,
/// and taken where it holds anything else: any other address, or any coarse or fine table.
pub proof fn scratch_slot_is_the_pools_own(e: u32)
    ensures
        scratch_section() >> 20 == 0x60,
        scratch_section() & 3 == 2,
        (scratch_section() >> 4) & 1 == 1,
        (scratch_section() >> 10) & 3 == 3,
        (scratch_section() >> 15) & 1 == 0,
        (scratch_section() >> 5) & 0xF == 0,
        e & 3 == 0 ==> scratch_slot_free(e),
        e & 3 != 0 ==> (scratch_slot_free(e) <==> e == 0x0600_0C1E || e == 0x0600_0C0E),
{
    scratch_section_bits();
}

/// How one level-1 descriptor type is called.
pub open spec fn l1_kind(e: u32) -> Seq<char> {
    if e & 3 == 0 {
        "fault"@
    } else if e & 3 == 1 {
        "coarse"@
    } else if e & 3 == 2 {
        "section"@
    } else {
        "fine"@
    }
}

/// Names the type of a level-1 descriptor.
pub fn l1_kind_name(e: u32) -> (name: &'static str)
    ensures
        name@ == l1_kind(e),
{
    proof {
        fix_bits(e);
    }
    match e & 3 {
        0 => "fault",
        1 => "coarse",
        2 => "section",
        _ => "fine",
    }
}

/// What lies below an L1 entry on the way to an address.
#[derive(Clone, Copy, PartialEq, Eq, Structural)]
#[allow(inconsistent_fields)]
pub enum WalkStep {
    /// A fault or fine-table descriptor: nothing further.
    Stop,
    /// A section.
    Section { pa: u32, ap: u32, ap2: u32, xn: u32, domain: u32 },
    /// A coarse table outside the backed regions.
    Unbacked { l2_pa: u32 },
    /// A coarse table, its entry for the address, and the address it gives.
    Table { l2_pa: u32, l2_idx: u32, l2: u32, pa: Option<u32> },
}

/// A stage-1 walk, level by level.
#[derive(Clone, Copy, PartialEq, Eq, Structural)]
pub struct Stage1Walk {
    pub l1_idx: u32,
    pub l1: u32,
    pub step: WalkStep,
}

/// The walk for `va`, whether the MMU is on or not.
pub open spec fn walk(m: MemView, va: u32) -> Stage1Walk {
    let l1 = l1_entry(m, (va >> 20) as int);
    Stage1Walk {
        l1_idx: va >> 20,
        l1,
        step: if l1 & 3 == 2 {
            WalkStep::Section {
                pa: (l1 & 0xFFF0_0000) | (va & 0x000F_FFFF),
                ap: (l1 >> 10) & 3,
                ap2: (l1 >> 15) & 1,
                xn: (l1 >> 4) & 1,
                domain: (l1 >> 5) & 0xF,
            }
        } else if l1 & 3 == 1 {
            match l2_home(l1) {
                None => WalkStep::Unbacked { l2_pa: l1 & 0xFFFF_FC00 },
                Some((r, off)) => {
                    let idx = (va >> 12) & 0xFF;
                    let l2 = m.data_form(words::le32(m.region(r), off + 4 * idx));
                    WalkStep::Table {
                        l2_pa: l1 & 0xFFFF_FC00,
                        l2_idx: idx,
                        l2,
                        pa: crate::guest_mem::l2_address(l2, va),
                    }
                },
            }
        } else {
            WalkStep::Stop
        },
    }
}

/// The walk's outcome agrees with the translation wherever the MMU is on.
pub proof fn walk_agrees_with_translation(m: MemView, va: u32)
    requires
        m.wf(),
        m.mmu_on,
    ensures
        match walk(m, va).step {
            WalkStep::Section { pa, .. } => m.translate(va) == Some(pa),
            WalkStep::Table { pa, .. } => m.translate(va) == pa,
            WalkStep::Stop => m.translate(va) is None,
            WalkStep::Unbacked { .. } => true,
        },
{
    walk_bits(va);
    let l1 = l1_entry(m, (va >> 20) as int);
    fix_bits(l1);
    assert(crate::guest_mem::locate(0x0400_0000 + (va >> 20) * 4, 4, false) == Some(
        (Region::Ram, (va >> 20) * 4int),
    ));
}

proof fn walk_bits(x: u32)
    by (bit_vector)
    ensures
        x >> 20 < 4096,
        (x >> 12) & 0xFF <= 0xFF,
        x & 0xFFFF_FC00 <= 0xFFFF_FC00,
{
}

/// Walks the stage-1 tables for `va` and records each level.
pub fn dump_stage1_walk(mem: &GuestMem, va: u32) -> (w: Stage1Walk)
    requires
        mem.wf(),
    ensures
        w == walk(mem@, va),
{
    proof {
        walk_bits(va);
    }
    let l1_idx: u32 = va >> 20;
    let l1 = read_pt_entry(mem, Region::Ram, (l1_idx * 4) as usize);
    proof {
        walk_bits(l1);
        fix_bits(l1);
    }
    let ty = l1 & 3;
    if ty == 2 {
        return Stage1Walk {
            l1_idx,
            l1,
            step: WalkStep::Section {
                pa: (l1 & 0xFFF0_0000) | (va & 0x000F_FFFF),
                ap: (l1 >> 10) & 3,
                ap2: (l1 >> 15) & 1,
                xn: (l1 >> 4) & 1,
                domain: (l1 >> 5) & 0xF,
            },
        };
    }
    if ty == 1 {
        let l2_pa: u32 = l1 & 0xFFFF_FC00;
        let l2_idx: u32 = (va >> 12) & 0xFF;
        let l2: u32 = if l2_pa < ROM_SIZE as u32 {
            read_pt_entry(mem, Region::Rom, (l2_pa + 4 * l2_idx) as usize)
        } else if RAM_IPA_BASE <= l2_pa && l2_pa < RAM_IPA_BASE + RAM_SIZE as u32 {
            read_pt_entry(mem, Region::Ram, (l2_pa - RAM_IPA_BASE + 4 * l2_idx) as usize)
        } else {
            return Stage1Walk { l1_idx, l1, step: WalkStep::Unbacked { l2_pa } };
        };
        proof {
            fix_bits(l2);
        }
        let pa: Option<u32> = match l2 & 3 {
            1 => Some((l2 & 0xFFFF_0000) | (va & 0x0000_FFFF)),
            2 | 3 => Some((l2 & 0xFFFF_F000) | (va & 0x0000_0FFF)),
            _ => None,
        };
        return Stage1Walk { l1_idx, l1, step: WalkStep::Table { l2_pa, l2_idx, l2, pa } };
    }
    Stage1Walk { l1_idx, l1, step: WalkStep::Stop }
}

/// The L1 slots from four below to four above the one of `va`, as far as they exist.
pub open spec fn neighbourhood(m: MemView, va: u32) -> Seq<(usize, u32)> {
    let c = (va >> 20) as int;
    let lo = if c < 4 {
        0
    } else {
        c - 4
    };
    let hi = if c > 4091 {
        4096
    } else {
        c + 5
    };
    Seq::new((hi - lo) as nat, |k: int| ((lo + k) as usize, l1_entry(m, lo + k)))
}

/// Collects the L1 entries around the section of `va`, four on each side.
pub fn dump_l1_neighbourhood(mem: &GuestMem, va: u32) -> (rows: Vec<(usize, u32)>)
    requires
        mem.wf(),
    ensures
        rows@ == neighbourhood(mem@, va),
{
    proof {
        walk_bits(va);
    }
    let centre: usize = (va >> 20) as usize;
    let lo: usize = if centre < 4 {
        0
    } else {
        centre - 4
    };
    let hi: usize = if centre > 4091 {
        4096
    } else {
        centre + 5
    };
    let mut rows: Vec<(usize, u32)> = Vec::new();
    let mut i: usize = lo;
    while i < hi
        invariant
            mem.wf(),
            lo <= i <= hi <= 4096,
            rows@.len() == i - lo,
            forall|k: int|
                0 <= k < i - lo ==> #[trigger] rows@[k] == ((lo + k) as usize, l1_entry(
                    mem@,
                    lo + k,
                )),
        decreases hi - i,
    {
        let e = read_pt_entry(mem, Region::Ram, 4 * i);
        rows.push((i, e));
        i = i + 1;
    }
    assert(rows@ =~= neighbourhood(mem@, va));
    rows
}

/// One row of the L1 dump: a nonzero entry and, for a backed coarse table, the L2 entries
/// at indices 0x00 and 0x18 to 0x1b.
#[derive(Clone, Copy)]
pub struct L1Row {
    pub index: usize,
    pub va_start: u32,
    pub entry: u32,
    pub l2: Option<(u32, [u32; 5])>,
}

/// The L2 entry at index `j` of the table of L1 entry `e`.
pub open spec fn l2_entry(m: MemView, e: u32, j: int) -> u32 {
    let (r, off) = l2_home(e)->0;
    m.data_form(words::le32(m.region(r), off + 4 * j))
}

/// The indices of the L2 entries that the L1 dump shows.
pub open spec fn shown_l2(k: int) -> int {
    if k == 0 {
        0
    } else {
        0x17 + k
    }
}

/// Whether `row` shows L1 slot `i` truly.
pub open spec fn row_shows(m: MemView, row: L1Row, i: int) -> bool {
    let e = l1_entry(m, i);
    &&& row.index == i
    &&& row.va_start == 0x10_0000 * i
    &&& row.entry == e
    &&& match row.l2 {
        Some((l2_pa, shown)) => {
            &&& e & 3 == 1
            &&& l2_home(e) is Some
            &&& l2_pa == e & 0xFFFF_FC00
            &&& forall|k: int| 0 <= k < 5 ==> #[trigger] shown[k] == l2_entry(m, e, shown_l2(k))
        },
        None => e & 3 != 1 || l2_home(e) is None,
    }
}

/// The nonzero slots among the first `n` L1 slots, in order.
pub open spec fn nonzero_slots(m: MemView, n: int) -> Seq<int>
    decreases n,
{
    if n <= 0 {
        Seq::empty()
    } else if l1_entry(m, n - 1) != 0 {
        nonzero_slots(m, n - 1).push(n - 1)
    } else {
        nonzero_slots(m, n - 1)
    }
}

/// A dump of the table has every slot below `n` whose entry is not zero, and no other, in order.
pub proof fn nonzero_slots_are_listed(m: MemView, n: int, i: int, a: int, b: int)
    requires
        0 <= n,
    ensures
        nonzero_slots(m, n).contains(i) <==> 0 <= i < n && l1_entry(m, i) != 0,
        0 <= a < b < nonzero_slots(m, n).len() ==> nonzero_slots(m, n)[a] < nonzero_slots(m, n)[b],
    decreases n,
{
    if n > 0 {
        nonzero_slots_are_listed(m, n - 1, i, a, b);
        let s = nonzero_slots(m, n - 1);
        if l1_entry(m, n - 1) != 0 {
            let p = s.push(n - 1);
            if i == n - 1 {
                assert(p[s.len() as int] == i);
            }
            if s.contains(i) {
                let k = choose|k: int| 0 <= k < s.len() && s[k] == i;
                assert(p[k] == i);
            }
            if 0 <= a < s.len() {
                nonzero_slots_are_listed(m, n - 1, s[a], a, a);
                assert(s.contains(s[a]));
            }
        }
    }
}

/// A row of the dump tells a slot's number, address and entry, and of a coarse table that is backed its
/// address and its entries 0 and 24 to 27.
pub proof fn rows_show_their_slot(m: MemView, row: L1Row, i: int, k: int)
    requires
        row_shows(m, row, i),
        0 <= i < 4096,
    ensures
        row.index == i && row.va_start == i * 0x10_0000 && row.entry == l1_entry(m, i),
        row.l2 is Some ==> {
            let l2 = row.l2->0;
            let place = l2_home(l1_entry(m, i));
            &&& l1_entry(m, i) & 3 == 1 && place is Some
            &&& l2.0 == l1_entry(m, i) & 0xFFFF_FC00
            &&& l2.1[0] == m.data_form(words::le32(m.region((place->0).0), (place->0).1))
            &&& 1 <= k < 5 ==> l2.1[k] == m.data_form(
                words::le32(m.region((place->0).0), (place->0).1 + 92 + 4 * k),
            )
        },
        row.l2 is None ==> l1_entry(m, i) & 3 != 1 || l2_home(l1_entry(m, i)) is None,
{
}

/// The neighbourhood of an address is the slots up to four away from its own, those that exist, in order,
/// each with its entry.
pub proof fn neighbours_are_listed(m: MemView, va: u32, i: int, k: int)
    ensures
        ({
            let s = neighbourhood(m, va);
            let c = (va >> 20) as int;
            &&& 0 <= k < s.len() ==> 0 <= s[k].0 < 4096 && -4 <= s[k].0 - c <= 4 && s[k].1 == l1_entry(
                m,
                s[k].0 as int,
            )
            &&& 0 <= k && k + 1 < s.len() ==> s[k + 1].0 == s[k].0 + 1
            &&& 0 <= i < 4096 && -4 <= i - c <= 4 ==> s.contains((i as usize, l1_entry(m, i)))
        }),
{
    walk_bits(va);
    let s = neighbourhood(m, va);
    let c = (va >> 20) as int;
    let lo = if c < 4 {
        0
    } else {
        c - 4
    };
    if 0 <= i < 4096 && -4 <= i - c <= 4 {
        assert(s[i - lo] == (i as usize, l1_entry(m, i)));
    }
}

/// Collects the nonzero entries among the first 32 L1 slots, the first 32 MiB of
/// addresses.
pub fn dump_guest_l1_table(mem: &GuestMem) -> (rows: Vec<L1Row>)
    requires
        mem.wf(),
    ensures
        rows@.len() == nonzero_slots(mem@, 32).len(),
        forall|k: int|
            0 <= k < rows@.len() ==> row_shows(
                mem@,
                #[trigger] rows@[k],
                nonzero_slots(mem@, 32)[k],
            ),
{
    let mut rows: Vec<L1Row> = Vec::new();
    let mut i: usize = 0;
    while i < 32
        invariant
            i <= 32,
            mem.wf(),
            rows@.len() == nonzero_slots(mem@, i as int).len(),
            forall|k: int|
                0 <= k < rows@.len() ==> row_shows(
                    mem@,
                    #[trigger] rows@[k],
                    nonzero_slots(mem@, i as int)[k],
                ),
        decreases 32 - i,
    {
        let entry = read_pt_entry(mem, Region::Ram, 4 * i);
        if entry != 0 {
            let mut l2: Option<(u32, [u32; 5])> = None;
            if (entry & 3) == 1 {
                proof {
                    fix_bits(entry);
                }
                let l2_pa: u32 = entry & 0xFFFF_FC00;
                if l2_pa < ROM_SIZE as u32 {
                    let t: usize = l2_pa as usize;
                    let shown: [u32; 5] = [
                        read_pt_entry(mem, Region::Rom, t),
                        read_pt_entry(mem, Region::Rom, t + 4 * 0x18),
                        read_pt_entry(mem, Region::Rom, t + 4 * 0x19),
                        read_pt_entry(mem, Region::Rom, t + 4 * 0x1a),
                        read_pt_entry(mem, Region::Rom, t + 4 * 0x1b),
                    ];
                    l2 = Some((l2_pa, shown));
                } else if RAM_IPA_BASE <= l2_pa && l2_pa < RAM_IPA_BASE + RAM_SIZE as u32 {
                    let t: usize = (l2_pa - RAM_IPA_BASE) as usize;
                    let shown: [u32; 5] = [
                        read_pt_entry(mem, Region::Ram, t),
                        read_pt_entry(mem, Region::Ram, t + 4 * 0x18),
                        read_pt_entry(mem, Region::Ram, t + 4 * 0x19),
                        read_pt_entry(mem, Region::Ram, t + 4 * 0x1a),
                        read_pt_entry(mem, Region::Ram, t + 4 * 0x1b),
                    ];
                    l2 = Some((l2_pa, shown));
                }
            }
            let row = L1Row { index: i, va_start: (i as u32) * 0x10_0000, entry, l2 };
            assert(row_shows(mem@, row, i as int));
            rows.push(row);
        }
        i = i + 1;
    }
    rows
}

} // verus!
