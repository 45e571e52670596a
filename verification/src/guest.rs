//! The values of the system registers with which the guest is entered, at a cold boot and
//! from a snapshot.

use vstd::prelude::*;

verus! {

/// HCR_EL2.DC: the guest's accesses are cacheable while its own translation is off. While
/// it is set, the guest's translation counts as off.
pub const HCR_DC: u64 = 0x1000;

/// HCR_EL2.RW: the guest is AArch64.
pub const HCR_RW: u64 = 0x8000_0000;

/// HCR_EL2.TVM, TSW, TIDCP, DC, AMO, IMO and FMO.
pub const HCR_GUEST: u64 = 0x0450_1038;

/// FPEXC.EN.
pub const FPEXC_EN: u64 = 0x4000_0000;

/// CPTR_EL2.TFP.
pub const CPTR_TFP: u64 = 0x400;

/// The processor that the guest is shown, an SA-1100.
pub const GUEST_MIDR: u64 = 0x4401_A100;

/// CPACR_EL1 with coprocessors 10 and 11 open.
pub const CPACR_OPEN: u64 = 0x00F0_0000;

/// SCTLR_EL1.EE and E0E: data is big-endian.
pub const SCTLR_BIG_ENDIAN: u64 = 0x0300_0000;

/// Supervisor mode, interrupts and aborts masked, big-endian data.
pub const SPSR_SVC_BIG_ENDIAN: u64 = 0x3D3;

/// Supervisor mode, interrupts and aborts masked.
pub const SPSR_SVC: u64 = 0x1D3;

/// The hypervisor's trap controls.
#[derive(Clone, Copy, PartialEq, Eq, Structural)]
pub struct El2Traps {
    pub hcr: u64,
    /// Written before `cptr`, or the write itself would trap.
    pub fpexc32: u64,
    pub cptr: u64,
    pub vpidr: u64,
}

/// The trap controls for the guest, from what the registers held.
pub open spec fn el2_traps(hcr: u64, cptr: u64) -> El2Traps {
    El2Traps {
        hcr: (hcr & !HCR_RW) | HCR_GUEST,
        fpexc32: FPEXC_EN,
        cptr: cptr | CPTR_TFP,
        vpidr: GUEST_MIDR,
    }
}

/// The trap controls for the guest, from what the registers held.
pub fn configure_el2_traps(hcr: u64, cptr: u64) -> (t: El2Traps)
    ensures
        t == el2_traps(hcr, cptr),
{
    El2Traps {
        hcr: (hcr & !HCR_RW) | HCR_GUEST,
        fpexc32: FPEXC_EN,
        cptr: cptr | CPTR_TFP,
        vpidr: GUEST_MIDR,
    }
}

/// HCR_EL2 with DC set or clear.
pub open spec fn with_dc(hcr: u64, enable: bool) -> u64 {
    if enable {
        hcr | HCR_DC
    } else {
        hcr & !HCR_DC
    }
}

/// HCR_EL2 with DC set, while the guest's own translation is off, or clear.
pub fn set_dc_for_stage1_off(hcr: u64, enable: bool) -> (h: u64)
    ensures
        h == with_dc(hcr, enable),
{
    if enable {
        hcr | HCR_DC
    } else {
        hcr & !HCR_DC
    }
}

/// The guest's system registers at a cold boot: its translation off, its coprocessors open.
#[derive(Clone, Copy, PartialEq, Eq, Structural)]
pub struct El1State {
    pub cpacr: u64,
    pub sctlr: u64,
    pub tcr: u64,
    pub ttbr0: u64,
    pub ttbr1: u64,
    pub vbar: u64,
}

/// The guest's system registers at a cold boot. A test guest is little-endian.
pub fn zero_el1_guest_state(guest_test: bool) -> (s: El1State)
    ensures
        s == (El1State {
            cpacr: CPACR_OPEN,
            sctlr: if guest_test {
                0
            } else {
                SCTLR_BIG_ENDIAN
            },
            tcr: 0,
            ttbr0: 0,
            ttbr1: 0,
            vbar: 0,
        }),
{
    El1State {
        cpacr: CPACR_OPEN,
        sctlr: if guest_test {
            0
        } else {
            SCTLR_BIG_ENDIAN
        },
        tcr: 0,
        ttbr0: 0,
        ttbr1: 0,
        vbar: 0,
    }
}

/// Everything that is written before the guest is entered at a cold boot.
#[derive(Clone, Copy, PartialEq, Eq, Structural)]
pub struct ColdEntry {
    pub traps: El2Traps,
    pub el1: El1State,
    pub elr: u64,
    pub spsr: u64,
}

/// The state for entering the guest at `entry_ipa`, in supervisor mode.
pub fn eret_to_guest(entry_ipa: u64, guest_test: bool, hcr: u64, cptr: u64) -> (e: ColdEntry)
    ensures
        e.traps == el2_traps(hcr, cptr),
        e.el1.sctlr == (if guest_test {
            0
        } else {
            SCTLR_BIG_ENDIAN
        }),
        e.el1.cpacr == CPACR_OPEN,
        e.el1.tcr == 0 && e.el1.ttbr0 == 0 && e.el1.ttbr1 == 0 && e.el1.vbar == 0,
        e.elr == entry_ipa,
        e.spsr == (if guest_test {
            SPSR_SVC
        } else {
            SPSR_SVC_BIG_ENDIAN
        }),
{
    ColdEntry {
        traps: configure_el2_traps(hcr, cptr),
        el1: zero_el1_guest_state(guest_test),
        elr: entry_ipa,
        spsr: if guest_test {
            SPSR_SVC
        } else {
            SPSR_SVC_BIG_ENDIAN
        },
    }
}

/// The state for entering the ROM at its reset vector.
pub fn run_newton_rom(guest_test: bool, hcr: u64, cptr: u64) -> (e: ColdEntry)
    ensures
        e.traps == el2_traps(hcr, cptr),
        e.elr == 0,
        e.spsr == (if guest_test {
            SPSR_SVC
        } else {
            SPSR_SVC_BIG_ENDIAN
        }),
        e.el1.sctlr == (if guest_test {
            0
        } else {
            SCTLR_BIG_ENDIAN
        }),
        e.el1.cpacr == CPACR_OPEN,
        e.el1.tcr == 0 && e.el1.ttbr0 == 0 && e.el1.ttbr1 == 0 && e.el1.vbar == 0,
{
    eret_to_guest(0, guest_test, hcr, cptr)
}

/// The guest's registers as a snapshot holds them.
pub struct RestoreState {
    pub gprs: [u32; 31],
    pub pc: u32,
    pub cpsr: u32,
}

/// Everything that is written before a guest is entered from a snapshot.
pub struct RestoredEntry {
    pub traps: El2Traps,
    pub gprs: [u64; 31],
    pub elr: u64,
    pub spsr: u64,
}

/// The state for entering a guest from a snapshot. Where the guest's translation was on
/// (`sctlr` has M set), DC is cleared again, or it would count as off.
pub fn eret_to_restored(state: &RestoreState, sctlr: u64, hcr: u64, cptr: u64) -> (e: RestoredEntry)
    ensures
        e.gprs@ == Seq::new(31, |i: int| state.gprs@[i] as u64),
        e.elr == state.pc,
        e.spsr == state.cpsr,
        e.traps == (El2Traps {
            hcr: if sctlr & 1 != 0 {
                with_dc(el2_traps(hcr, cptr).hcr, false)
            } else {
                el2_traps(hcr, cptr).hcr
            },
            ..el2_traps(hcr, cptr)
        }),
{
    let mut gprs: [u64; 31] = [0u64;31];
    let mut i: usize = 0;
    while i < 31
        invariant
            i <= 31,
            forall|k: int| 0 <= k < i ==> gprs@[k] == state.gprs@[k] as u64,
        decreases 31 - i,
    {
        gprs[i] = state.gprs[i] as u64;
        i = i + 1;
    }
    let mut traps = configure_el2_traps(hcr, cptr);
    if sctlr & 1 != 0 {
        traps.hcr = set_dc_for_stage1_off(traps.hcr, false);
    }
    assert(gprs@ =~= Seq::new(31, |i: int| state.gprs@[i] as u64));
    RestoredEntry { traps, gprs, elr: state.pc as u64, spsr: state.cpsr as u64 }
}

proof fn control_bits(hcr: u64)
    by (bit_vector)
    ensures
        ((hcr & !0x8000_0000u64) | 0x0450_1038) & 0x8000_0000 == 0,
        ((hcr & !0x8000_0000u64) | 0x0450_1038) & 0x0450_1038 == 0x0450_1038,
        ((hcr & !0x1000u64) | 0x1000) == hcr | 0x1000,
        ((hcr | 0x1000) & !0x1000u64) & 0x1000 == 0,
        (hcr & !0x1000u64) & 0x1000 == 0,
        (hcr | 0x1000) & 0x1000 == 0x1000,
        ((hcr & !0x8000_0000u64) | 0x0450_1038) & 0x7BAF_EFC7 == hcr & 0x7BAF_EFC7,
        ((hcr & !0x8000_0000u64) | 0x0450_1038) >> 32 == hcr >> 32,
        (hcr | 0x1000) & !0x1000u64 == hcr & !0x1000u64,
        (hcr & !0x1000u64) & !0x1000u64 == hcr & !0x1000u64,
        (hcr | 0x400) & 0x400 == 0x400,
        (hcr | 0x400) & !0x400u64 == hcr & !0x400u64,
{
}

/// The guest is AArch32, whatever HCR_EL2 held; every trap that it needs is on; and DC can be
/// switched without regard to what was there.
pub proof fn guest_controls_hold(hcr: u64, cptr: u64)
    ensures
        el2_traps(hcr, cptr).hcr & HCR_RW == 0,
        el2_traps(hcr, cptr).hcr & HCR_GUEST == HCR_GUEST,
        with_dc(with_dc(hcr, false), true) == with_dc(hcr, true),
        with_dc(hcr, true) & HCR_DC == HCR_DC,
        with_dc(hcr, false) & HCR_DC == 0,
{
    control_bits(hcr);
}

/// The trap controls set what the guest needs and keep every other bit: in HCR_EL2 TVM, TSW, TIDCP, DC,
/// AMO, IMO and FMO go on and RW goes off, in CPTR_EL2 TFP goes on; floating point is enabled while
/// it is trapped, and the guest is shown an SA-1100. Switching DC keeps every other bit too.
pub proof fn guest_controls_keep_the_rest(hcr: u64, cptr: u64)
    ensures
        ({
            let t = el2_traps(hcr, cptr);
            &&& t.hcr & 0x8000_0000 == 0
            &&& t.hcr & 0x0450_1038 == 0x0450_1038
            &&& t.hcr & 0x7BAF_EFC7 == hcr & 0x7BAF_EFC7
            &&& t.hcr >> 32 == hcr >> 32
            &&& t.cptr & 0x400 == 0x400
            &&& t.cptr & !0x400u64 == cptr & !0x400u64
            &&& t.fpexc32 == 0x4000_0000
            &&& t.vpidr == 0x4401_A100
        }),
        with_dc(hcr, true) & 0x1000 == 0x1000,
        with_dc(hcr, false) & 0x1000 == 0,
        with_dc(hcr, true) & !0x1000u64 == hcr & !0x1000u64,
        with_dc(hcr, false) & !0x1000u64 == hcr & !0x1000u64,
{
    control_bits(hcr);
    control_bits(cptr);
}

} // verus!
