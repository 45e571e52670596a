//! Breakpoints in the guest's ROM. One is set by putting an undefined instruction in place
//! of the guest's; when the guest runs into it, the guest's own is put back and the
//! breakpoint is gone.

use crate::arch::banked;
use crate::arch::banked::{lr_for_mode, sp_for_mode};
use crate::arch::trap_context::TrapContext;
use crate::guest_mem::{GuestMem, MemView, ROM_SIZE};
use crate::guest_trampolines::write_rom_code_word;
use crate::text;
use crate::text::{push_dec, push_hex8, push_text};
use crate::words;
use crate::words::get_le32;
use vstd::prelude::*;

verus! {

/// Breakpoints that can be set at once.
pub const TABLE_SIZE: usize = 16;

/// The instruction that marks a breakpoint.
pub const BP_UDF_INSN: u32 = 0xE7FF_F0FE;

pub const DONE: i32 = 0;

pub const ERR_OUT_OF_RANGE: i32 = -1;

pub const ERR_NOT_ALIGNED: i32 = -2;

pub const ERR_TABLE_FULL: i32 = -3;

pub const ERR_ALREADY_PRESENT: i32 = -4;

pub const ERR_NOT_FOUND: i32 = -5;

/// A breakpoint: its address, zero for none, and the instruction that it stands for.
#[derive(Clone, Copy, PartialEq, Eq, Structural)]
pub struct Slot {
    pub ipa: u32,
    pub orig: u32,
}

/// The breakpoints.
pub struct BpTable {
    pub slots: [Slot; 16],
}

/// The first slot, from `i` on, with the given address; sixteen where there is none.
pub open spec fn slot_of(s: Seq<Slot>, ipa: u32, i: int) -> int
    decreases 16 - i,
{
    if i >= 16 {
        16
    } else if s[i].ipa == ipa {
        i
    } else {
        slot_of(s, ipa, i + 1)
    }
}

/// Whether a breakpoint is set at `ipa`.
pub open spec fn set_at(s: Seq<Slot>, ipa: u32) -> bool {
    ipa != 0 && slot_of(s, ipa, 0) < 16
}

/// What setting a breakpoint at `ipa` answers: the slot, or why not.
pub open spec fn install_answer(s: Seq<Slot>, m: MemView, ipa: u32) -> int {
    if ipa >= 0x100_0000 || ipa == 0 {
        -1
    } else if ipa % 4 != 0 {
        -2
    } else if set_at(s, ipa) {
        -4
    } else if slot_of(s, 0, 0) == 16 {
        -3
    } else if m.rom_word(ipa as int / 4) == BP_UDF_INSN {
        -4
    } else {
        slot_of(s, 0, 0)
    }
}

/// The table once a breakpoint is set.
pub open spec fn installed(s: Seq<Slot>, m: MemView, ipa: u32) -> Seq<Slot> {
    if install_answer(s, m, ipa) >= 0 {
        s.update(
            install_answer(s, m, ipa),
            Slot { ipa, orig: m.rom_word(ipa as int / 4) },
        )
    } else {
        s
    }
}

/// The memory once a breakpoint is set.
pub open spec fn marked(s: Seq<Slot>, m: MemView, ipa: u32) -> MemView {
    if install_answer(s, m, ipa) >= 0 {
        m.set_rom_word(ipa as int / 4, BP_UDF_INSN)
    } else {
        m
    }
}

/// The table once the breakpoint at `ipa` is gone.
pub open spec fn removed(s: Seq<Slot>, ipa: u32) -> Seq<Slot> {
    if set_at(s, ipa) {
        s.update(slot_of(s, ipa, 0), Slot { ipa: 0, orig: 0 })
    } else {
        s
    }
}

/// The memory once the breakpoint at `ipa` is gone.
pub open spec fn restored(s: Seq<Slot>, m: MemView, ipa: u32) -> MemView {
    if set_at(s, ipa) {
        m.set_rom_word(ipa as int / 4, s[slot_of(s, ipa, 0)].orig)
    } else {
        m
    }
}

/// Every breakpoint of the table is at a word of the ROM.
pub open spec fn in_rom(s: Seq<Slot>) -> bool {
    forall|i: int| 0 <= i < 16 ==> #[trigger] s[i].ipa < 0x100_0000 && s[i].ipa % 4 == 0
}

/// No address has two breakpoints.
pub open spec fn distinct(s: Seq<Slot>) -> bool {
    forall|i: int, j: int|
        0 <= i < j < 16 && #[trigger] s[i].ipa != 0 ==> s[i].ipa != #[trigger] s[j].ipa
}

/// A breakpoint fires once: taken away, it is no longer set.
pub proof fn breakpoints_fire_once(s: Seq<Slot>, ipa: u32)
    requires
        s.len() == 16,
        distinct(s),
    ensures
        !set_at(removed(s, ipa), ipa),
        distinct(removed(s, ipa)),
{
    let u = removed(s, ipa);
    slot_found(s, ipa, 0);
    slot_found(u, ipa, 0);
    if set_at(s, ipa) && set_at(u, ipa) {
        let k = slot_of(s, ipa, 0);
        let j = slot_of(u, ipa, 0);
        assert(u[j] == s[j]);
        assert(s[j].ipa == s[k].ipa);
    }
}

proof fn installing_keeps_distinct(s: Seq<Slot>, m: MemView, ipa: u32)
    requires
        s.len() == 16,
        distinct(s),
    ensures
        distinct(installed(s, m, ipa)),
{
    slot_found(s, ipa, 0);
    slot_found(s, 0, 0);
}

proof fn slot_found(s: Seq<Slot>, ipa: u32, i: int)
    requires
        0 <= i <= 16,
    ensures
        i <= slot_of(s, ipa, i) <= 16,
        slot_of(s, ipa, i) < 16 ==> s[slot_of(s, ipa, i)].ipa == ipa,
        forall|k: int| i <= k < slot_of(s, ipa, i) ==> #[trigger] s[k].ipa != ipa,
    decreases 16 - i,
{
    if i < 16 && s[i].ipa != ipa {
        slot_found(s, ipa, i + 1);
    }
}

proof fn overwritten(s: Seq<u8>, off: int, a: u32, b: u32)
    requires
        0 <= off,
        off + 4 <= s.len(),
    ensures
        words::put_le32(words::put_le32(s, off, a), off, b) == words::put_le32(s, off, b),
{
    reveal(words::put_le32);
    assert(words::put_le32(words::put_le32(s, off, a), off, b) =~= words::put_le32(s, off, b));
}

/// Setting a breakpoint and taking it away leaves the guest's memory as it was, and no
/// breakpoint at the address.
pub proof fn removing_undoes_installing(s: Seq<Slot>, m: MemView, ipa: u32)
    requires
        s.len() == 16,
        m.wf(),
        install_answer(s, m, ipa) >= 0,
    ensures
        set_at(installed(s, m, ipa), ipa),
        restored(installed(s, m, ipa), marked(s, m, ipa), ipa) == m,
        !set_at(removed(installed(s, m, ipa), ipa), ipa),
{
    let k = install_answer(s, m, ipa);
    let t = installed(s, m, ipa);
    slot_found(s, 0, 0);
    slot_found(s, ipa, 0);
    slot_found(t, ipa, 0);
    assert(t[k].ipa == ipa);
    assert(slot_of(t, ipa, 0) == k) by {
        let j = slot_of(t, ipa, 0);
        if j < k {
            assert(t[j] == s[j]);
            assert(s[j].ipa == ipa);
        }
        if j > k {
            assert(t[k].ipa != ipa);
        }
    }
    let orig = m.rom_word(ipa as int / 4);
    let off = 4 * (ipa as int / 4);
    overwritten(m.rom, off, BP_UDF_INSN, orig);
    words::put_le32_same(m.rom, off);
    assert(restored(t, marked(s, m, ipa), ipa) =~= m);
    let u = removed(t, ipa);
    slot_found(u, ipa, 0);
    if slot_of(u, ipa, 0) < 16 {
        let j = slot_of(u, ipa, 0);
        assert(j != k);
        assert(u[j] == s[j]);
    }
}

/// Setting a breakpoint changes one word of the ROM, and no other.
pub proof fn breakpoint_touches_one_word(s: Seq<Slot>, m: MemView, ipa: u32, idx: int)
    requires
        m.wf(),
        install_answer(s, m, ipa) >= 0,
        0 <= idx,
        4 * idx + 4 <= ROM_SIZE,
        idx != ipa as int / 4,
    ensures
        marked(s, m, ipa).rom_word(idx) == m.rom_word(idx),
        marked(s, m, ipa).rom_word(ipa as int / 4) == BP_UDF_INSN,
{
    words::put_le32_frames(m.rom, 4 * (ipa as int / 4), BP_UDF_INSN, 4 * idx);
    words::put_le32_reads_back(m.rom, 4 * (ipa as int / 4), BP_UDF_INSN);
}

/// A breakpoint is set at an address exactly where a slot holds it.
pub proof fn breakpoints_are_in_slots(s: Seq<Slot>, ipa: u32)
    requires
        s.len() == 16,
    ensures
        set_at(s, ipa) <==> ipa != 0 && exists|i: int| 0 <= i < 16 && #[trigger] s[i].ipa == ipa,
        set_at(s, ipa) ==> s[slot_of(s, ipa, 0)].ipa == ipa,
{
    slot_found(s, ipa, 0);
}

/// What setting a breakpoint answers: -1 at zero and outside the ROM; then -2 at an address that is no
/// word's; then -4 where one is set already; then -3 where all sixteen slots are taken; then -4 where
/// the guest's own instruction is the mark; and otherwise a slot that was free, the first. A refused
/// one changes nothing. One that is set has its address and the guest's instruction in that slot and
/// leaves the others, and the mark in the place of that instruction.
pub proof fn setting_a_breakpoint(s: Seq<Slot>, m: MemView, ipa: u32, i: int)
    requires
        s.len() == 16,
        m.wf(),
        0 <= i < 16,
    ensures
        ({
            let r = install_answer(s, m, ipa);
            let ranged = 0 < ipa < 0x0100_0000;
            let aligned = ipa % 4 == 0;
            let present = exists|k: int| 0 <= k < 16 && #[trigger] s[k].ipa == ipa;
            let full = forall|k: int| 0 <= k < 16 ==> #[trigger] s[k].ipa != 0;
            let mark = m.rom_word(ipa as int / 4) == 0xE7FF_F0FE;
            &&& r == -1 <==> !ranged
            &&& r == -2 <==> ranged && !aligned
            &&& r == -3 <==> ranged && aligned && !present && full
            &&& r == -4 <==> ranged && aligned && (present || !full && mark)
            &&& r >= 0 <==> ranged && aligned && !present && !full && !mark
            &&& r < 0 ==> installed(s, m, ipa) == s && marked(s, m, ipa) == m
            &&& r >= 0 ==> {
                let t = installed(s, m, ipa);
                &&& r < 16 && s[r].ipa == 0
                &&& i < r ==> s[i].ipa != 0
                &&& t.len() == 16
                &&& t[r].ipa == ipa && t[r].orig == m.rom_word(ipa as int / 4)
                &&& i != r ==> t[i] == s[i]
                &&& marked(s, m, ipa).rom_word(ipa as int / 4) == 0xE7FF_F0FE
                &&& marked(s, m, ipa) == MemView { rom: marked(s, m, ipa).rom, ..m }
            }
        }),
{
    slot_found(s, ipa, 0);
    slot_found(s, 0, 0);
    if install_answer(s, m, ipa) >= 0 {
        words::put_le32_reads_back(m.rom, 4 * (ipa as int / 4), BP_UDF_INSN);
    }
}

/// Taking a breakpoint away puts the instruction of its slot back and frees the slot; the other slots
/// and words stay. Where none is set nothing changes.
pub proof fn taking_a_breakpoint_away(s: Seq<Slot>, m: MemView, ipa: u32, i: int, k: int)
    requires
        s.len() == 16,
        m.wf(),
        in_rom(s),
        distinct(s),
        0 <= i < 16,
        0 <= k < ROM_SIZE / 4,
    ensures
        ({
            let t = removed(s, ipa);
            let n = restored(s, m, ipa);
            &&& t.len() == 16
            &&& s[i].ipa == ipa && ipa != 0 ==> t[i].ipa == 0 && n.rom_word(ipa as int / 4) == s[i].orig
            &&& s[i].ipa != ipa ==> t[i] == s[i]
            &&& k != ipa as int / 4 ==> n.rom_word(k) == m.rom_word(k)
            &&& n == MemView { rom: n.rom, ..m }
            &&& (forall|j: int| 0 <= j < 16 ==> #[trigger] s[j].ipa != ipa) ==> t == s && n == m
        }),
{
    slot_found(s, ipa, 0);
    if set_at(s, ipa) {
        let j = slot_of(s, ipa, 0);
        assert(s[j].ipa < 0x100_0000);
        words::put_le32_reads_back(m.rom, 4 * (ipa as int / 4), s[j].orig);
        if k != ipa as int / 4 {
            words::put_le32_frames(m.rom, 4 * (ipa as int / 4), s[j].orig, 4 * k);
        }
        if s[i].ipa == ipa {
            assert(i == j);
        }
    }
}

impl BpTable {
    pub open spec fn wf(self) -> bool {
        in_rom(self.slots@) && distinct(self.slots@)
    }

    /// No breakpoint.
    pub fn new() -> (t: BpTable)
        ensures
            t.wf(),
            forall|i: int| 0 <= i < 16 ==> #[trigger] t.slots@[i] == (Slot { ipa: 0, orig: 0 }),
    {
        BpTable { slots: [Slot { ipa: 0, orig: 0 };16] }
    }

    /// The first slot with the given address; sixteen where there is none.
    fn position(&self, ipa: u32) -> (i: usize)
        ensures
            i == slot_of(self.slots@, ipa, 0),
            i <= 16,
            i < 16 ==> self.slots@[i as int].ipa == ipa,
    {
        let mut i: usize = 0;
        while i < 16
            invariant
                i <= 16,
                slot_of(self.slots@, ipa, 0) == slot_of(self.slots@, ipa, i as int),
            decreases 16 - i,
        {
            if self.slots[i].ipa == ipa {
                return i;
            }
            i = i + 1;
        }
        i
    }
}

/// Sets a breakpoint: its slot, or a negative number that says why not.
pub fn install_guest_bp(t: &mut BpTable, mem: &mut GuestMem, ipa: u32) -> (r: i32)
    requires
        old(t).wf(),
        old(mem).wf(),
    ensures
        final(t).wf(),
        final(mem).wf(),
        r == install_answer(old(t).slots@, old(mem)@, ipa),
        final(t).slots@ == installed(old(t).slots@, old(mem)@, ipa),
        final(mem)@ == marked(old(t).slots@, old(mem)@, ipa),
{
    if ipa >= ROM_SIZE as u32 {
        return ERR_OUT_OF_RANGE;
    }
    if ipa == 0 {
        return ERR_OUT_OF_RANGE;
    }
    if ipa % 4 != 0 {
        return ERR_NOT_ALIGNED;
    }
    if t.position(ipa) < TABLE_SIZE {
        return ERR_ALREADY_PRESENT;
    }
    let slot: usize = t.position(0);
    if slot == TABLE_SIZE {
        return ERR_TABLE_FULL;
    }
    let index: usize = (ipa / 4) as usize;
    let orig: u32 = get_le32(&mem.rom, 4 * index);
    if orig == BP_UDF_INSN {
        return ERR_ALREADY_PRESENT;
    }
    proof {
        installing_keeps_distinct(t.slots@, mem@, ipa);
    }
    write_rom_code_word(mem, index, BP_UDF_INSN);
    t.slots[slot] = Slot { ipa, orig };
    slot as i32
}

/// Takes a breakpoint away.
pub fn remove_guest_bp(t: &mut BpTable, mem: &mut GuestMem, ipa: u32) -> (r: i32)
    requires
        old(t).wf(),
        old(mem).wf(),
    ensures
        final(t).wf(),
        final(mem).wf(),
        r == (if set_at(old(t).slots@, ipa) {
            DONE
        } else {
            ERR_NOT_FOUND
        }),
        final(t).slots@ == removed(old(t).slots@, ipa),
        final(mem)@ == restored(old(t).slots@, old(mem)@, ipa),
{
    if ipa == 0 {
        return ERR_NOT_FOUND;
    }
    let slot: usize = t.position(ipa);
    if slot == TABLE_SIZE {
        return ERR_NOT_FOUND;
    }
    let orig: u32 = t.slots[slot].orig;
    proof {
        breakpoints_fire_once(t.slots@, ipa);
    }
    write_rom_code_word(mem, (ipa / 4) as usize, orig);
    t.slots[slot] = Slot { ipa: 0, orig: 0 };
    DONE
}

/// Whether any breakpoint is set.
pub fn any_installed(t: &BpTable) -> (any: bool)
    ensures
        any == (exists|i: int| 0 <= i < 16 && #[trigger] t.slots@[i].ipa != 0),
{
    let mut i: usize = 0;
    while i < 16
        invariant
            i <= 16,
            forall|k: int| 0 <= k < i ==> #[trigger] t.slots@[k].ipa == 0,
        decreases 16 - i,
    {
        if t.slots[i].ipa != 0 {
            return true;
        }
        i = i + 1;
    }
    false
}

/// The lines of the first `n` slots that hold a breakpoint.
pub open spec fn slot_lines(s: Seq<Slot>, n: int) -> Seq<char>
    decreases n,
{
    if n <= 0 {
        seq![]
    } else if s[n - 1].ipa == 0 {
        slot_lines(s, n - 1)
    } else {
        slot_lines(s, n - 1) + "  slot "@ + text::dec((n - 1) as nat) + ": ipa="@ + text::hex8(
            s[n - 1].ipa as nat,
        ) + " orig="@ + text::hex8(s[n - 1].orig as nat) + "\n"@
    }
}

/// The list has a line for each breakpoint, with its slot, address and instruction, and no other.
pub proof fn every_breakpoint_is_listed(s: Seq<Slot>, n: int, k: int)
    requires
        0 <= k < n <= 16,
    ensures
        s[k].ipa != 0 ==> exists|a: Seq<char>, b: Seq<char>|
            slot_lines(s, n) == #[trigger] (a + ("  slot "@ + text::dec(k as nat) + ": ipa="@ + text::hex8(
                s[k].ipa as nat,
            ) + " orig="@ + text::hex8(s[k].orig as nat) + "\n"@) + b),
        (forall|i: int| 0 <= i < n ==> #[trigger] s[i].ipa == 0) ==> slot_lines(s, n).len() == 0,
    decreases n,
{
    let line = "  slot "@ + text::dec(k as nat) + ": ipa="@ + text::hex8(s[k].ipa as nat) + " orig="@
        + text::hex8(s[k].orig as nat) + "\n"@;
    if forall|i: int| 0 <= i < n ==> #[trigger] s[i].ipa == 0 {
        assert(s[n - 1].ipa == 0);
        if n > 1 {
            every_breakpoint_is_listed(s, n - 1, 0);
        }
    }
    if s[k].ipa != 0 {
        if k == n - 1 {
            let a = slot_lines(s, n - 1);
            assert(slot_lines(s, n) =~= a + line + Seq::<char>::empty());
        } else {
            every_breakpoint_is_listed(s, n - 1, k);
            let (a, b) = choose|a: Seq<char>, b: Seq<char>|
                slot_lines(s, n - 1) == #[trigger] (a + line + b);
            if s[n - 1].ipa == 0 {
                assert(slot_lines(s, n) == a + line + b);
            } else {
                let last = "  slot "@ + text::dec((n - 1) as nat) + ": ipa="@ + text::hex8(
                    s[n - 1].ipa as nat,
                ) + " orig="@ + text::hex8(s[n - 1].orig as nat) + "\n"@;
                assert(slot_lines(s, n) =~= a + line + (b + last));
            }
        }
    }
}

/// Lists the breakpoints, one a line.
pub fn list_guest_bps(t: &BpTable) -> (out: String)
    ensures
        out@ == "guest_bp: active breakpoints\n"@ + (if exists|i: int|
            0 <= i < 16 && #[trigger] t.slots@[i].ipa != 0 {
            slot_lines(t.slots@, 16)
        } else {
            "  (none)\n"@
        }),
{
    let mut out = String::new();
    push_text(&mut out, "guest_bp: active breakpoints\n");
    let ghost head = out@;
    assert(head =~= "guest_bp: active breakpoints\n"@);
    if !any_installed(t) {
        push_text(&mut out, "  (none)\n");
        return out;
    }
    let mut i: usize = 0;
    while i < 16
        invariant
            i <= 16,
            out@ =~= head + slot_lines(t.slots@, i as int),
        decreases 16 - i,
    {
        let s = t.slots[i];
        if s.ipa != 0 {
            push_text(&mut out, "  slot ");
            push_dec(&mut out, i as u64);
            push_text(&mut out, ": ipa=");
            push_hex8(&mut out, s.ipa);
            push_text(&mut out, " orig=");
            push_hex8(&mut out, s.orig);
            push_text(&mut out, "\n");
        }
        assert(out@ =~= head + slot_lines(t.slots@, i + 1));
        i = i + 1;
    }
    out
}

/// What is known of the guest where it ran into a breakpoint. It goes on at `pc`, where its
/// own instruction is back.
pub struct BpHit {
    pub slot: usize,
    pub pc: u32,
    pub cpsr: u32,
    /// r0 to r12.
    pub regs: Vec<u32>,
    /// r13 and r14 of the mode that it was in.
    pub sp: u32,
    pub lr: u32,
}

/// The guest ran into the undefined instruction `insn` at `faulting_pc`: if that is a
/// breakpoint, it is taken away and reported.
pub fn handle_user_bp_und(
    t: &mut BpTable,
    mem: &mut GuestMem,
    ctx: &TrapContext,
    faulting_pc: u32,
    spsr_und: u64,
    insn: u32,
) -> (hit: Option<BpHit>)
    requires
        old(t).wf(),
        old(mem).wf(),
    ensures
        final(t).wf(),
        final(mem).wf(),
        hit is Some <==> insn == BP_UDF_INSN && set_at(old(t).slots@, faulting_pc),
        hit is None ==> *final(t) == *old(t) && final(mem)@ == old(mem)@,
        hit is Some ==> {
            let h = hit->0;
            &&& final(t).slots@ == removed(old(t).slots@, faulting_pc)
            &&& final(mem)@ == restored(old(t).slots@, old(mem)@, faulting_pc)
            &&& h.slot == slot_of(old(t).slots@, faulting_pc, 0)
            &&& h.pc == faulting_pc
            &&& h.cpsr == spsr_und as u32
            &&& h.regs@ == Seq::new(13, |i: int| ctx.x[i] as u32)
            &&& h.sp == ctx.x[banked::sp_slot(h.cpsr)] as u32
            &&& h.lr == ctx.x[banked::lr_slot(h.cpsr)] as u32
        },
{
    if insn != BP_UDF_INSN || faulting_pc == 0 {
        return None;
    }
    let slot: usize = t.position(faulting_pc);
    if slot == TABLE_SIZE {
        return None;
    }
    let orig: u32 = t.slots[slot].orig;
    proof {
        breakpoints_fire_once(t.slots@, faulting_pc);
    }
    t.slots[slot] = Slot { ipa: 0, orig: 0 };
    let cpsr: u32 = spsr_und as u32;
    let mut regs: Vec<u32> = Vec::new();
    let mut i: usize = 0;
    while i < 13
        invariant
            i <= 13,
            regs@ =~= Seq::new(i as nat, |k: int| ctx.x[k] as u32),
        decreases 13 - i,
    {
        regs.push(ctx.x[i] as u32);
        i = i + 1;
    }
    let sp: u32 = sp_for_mode(ctx, cpsr);
    let lr: u32 = lr_for_mode(ctx, cpsr);
    write_rom_code_word(mem, (faulting_pc / 4) as usize, orig);
    Some(BpHit { slot, pc: faulting_pc, cpsr, regs, sp, lr })
}

} // verus!
