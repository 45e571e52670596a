//! What is left of the diagnostics in a build without them: a halt still reports the basic
//! registers, and a reference is shown as its raw word.

use crate::arch::trap_context::TrapContext;
use crate::text;
use crate::text::{push_dec, push_hex, push_numeral, push_text};
use vstd::prelude::*;

verus! {

/// The registers of the hypervisor that tell why it was entered.
#[derive(Clone, Copy, PartialEq, Eq, Structural)]
pub struct TrapRegs {
    pub elr: u64,
    pub spsr: u64,
    pub esr: u64,
    pub far: u64,
}

/// A value as `0x` and at least eight hexadecimal digits.
pub open spec fn wide_hex(v: u64) -> Seq<char> {
    "0x"@ + text::hex_pad(v as nat, 8)
}

/// Register `i` of the guest.
pub open spec fn reg_text(ctx: TrapContext, i: int) -> Seq<char> {
    "r"@ + text::dec(i as nat) + (if i < 10 {
        " "@
    } else {
        seq![]
    }) + "="@ + wide_hex(ctx.x[i] as u32 as u64)
}

/// The registers of the guest from the first on, `n` of them, five to a line.
pub open spec fn regs_text(ctx: TrapContext, n: int) -> Seq<char>
    decreases n,
{
    if n <= 0 {
        seq![]
    } else {
        regs_text(ctx, n - 1) + (if n % 5 == 1 {
            "  "@
        } else {
            " "@
        }) + reg_text(ctx, n - 1) + (if n % 5 == 0 {
            "\n"@
        } else {
            seq![]
        })
    }
}

/// The report of a halt.
pub open spec fn halt_text(what: Seq<char>, ctx: TrapContext, r: TrapRegs) -> Seq<char> {
    "\n*** "@ + what
        + " (diagnostics stubbed out; rebuild with feature `diag` for the full dump) ***\n"@
        + "  ELR_EL2="@ + wide_hex(r.elr) + " SPSR_EL2="@ + wide_hex(r.spsr) + " ESR_EL2="@
        + wide_hex(r.esr) + " FAR_EL1="@ + wide_hex(r.far) + "\n"@ + regs_text(ctx, 15)
}

/// The report of a halt has why it came, the four registers that tell where and why the hypervisor was
/// entered, and each of the guest's first fifteen registers.
pub proof fn halt_reports_registers(what: Seq<char>, ctx: TrapContext, r: TrapRegs, i: int)
    requires
        0 <= i < 15,
    ensures
        ({
            let t = halt_text(what, ctx, r);
            &&& text::within("\n*** "@ + what, t)
            &&& text::within("ELR_EL2="@ + ("0x"@ + text::hex_pad(r.elr as nat, 8)), t)
            &&& text::within(" SPSR_EL2="@ + ("0x"@ + text::hex_pad(r.spsr as nat, 8)), t)
            &&& text::within(" ESR_EL2="@ + ("0x"@ + text::hex_pad(r.esr as nat, 8)), t)
            &&& text::within(" FAR_EL1="@ + ("0x"@ + text::hex_pad(r.far as nat, 8)), t)
            &&& text::within(
                "r"@ + text::dec(i as nat) + (if i < 10 {
                    " "@
                } else {
                    seq![]
                }) + "="@ + ("0x"@ + text::hex_pad((ctx.x[i] as u32) as nat, 8)),
                t,
            )
        }),
{
    let t = halt_text(what, ctx, r);
    let regs = regs_text(ctx, 15);
    let a = "\n*** "@ + what;
    let b = " (diagnostics stubbed out; rebuild with feature `diag` for the full dump) ***\n"@;
    let c = "  ELR_EL2="@ + wide_hex(r.elr);
    let d = " SPSR_EL2="@ + wide_hex(r.spsr);
    let e = " ESR_EL2="@ + wide_hex(r.esr);
    let f = " FAR_EL1="@ + wide_hex(r.far);
    let g = "\n"@ + regs;
    assert(t =~= seq![] + a + (b + c + d + e + f + g));
    assert(t =~= (a + b + c) + d + (e + f + g));
    assert(t =~= (a + b + c + d) + e + (f + g));
    assert(t =~= (a + b + c + d + e) + f + g);
    assert(t =~= (a + b) + c + (d + e + f + g));
    reveal_strlit("  ELR_EL2=");
    reveal_strlit("ELR_EL2=");
    assert("  ELR_EL2="@ =~= seq![' ', ' '] + "ELR_EL2="@);
    let short = "ELR_EL2="@ + wide_hex(r.elr);
    assert(c =~= seq![' ', ' '] + short);
    text::within_longer(short, short, seq![' ', ' '], seq![]);
    assert(text::within(c, t));
    text::within_transitive(short, c, t);
    register_is_reported(ctx, 15, i);
    assert(t =~= (a + b + c + d + e + f + "\n"@) + regs + seq![]);
    assert(text::within(regs, t));
    text::within_transitive(reg_text(ctx, i), regs, t);
}

proof fn register_is_reported(ctx: TrapContext, n: int, i: int)
    requires
        0 <= i < n,
    ensures
        text::within(reg_text(ctx, i), regs_text(ctx, n)),
    decreases n,
{
    let before = regs_text(ctx, n - 1);
    let gap = if n % 5 == 1 {
        "  "@
    } else {
        " "@
    };
    let end: Seq<char> = if n % 5 == 0 {
        "\n"@
    } else {
        seq![]
    };
    let last = reg_text(ctx, n - 1);
    if i == n - 1 {
        assert(regs_text(ctx, n) =~= (before + gap) + last + end);
    } else {
        register_is_reported(ctx, n - 1, i);
        assert(regs_text(ctx, n) =~= before + (gap + last + end));
        text::within_longer(reg_text(ctx, i), before, seq![], gap + last + end);
    }
}

fn push_wide(out: &mut String, v: u64)
    ensures
        final(out)@ == old(out)@ + wide_hex(v),
{
    push_text(out, "0x");
    push_numeral(out, v, 16, 8);
    assert(out@ =~= old(out)@ + wide_hex(v));
}

fn push_reg(out: &mut String, ctx: &TrapContext, i: usize)
    requires
        i < 31,
    ensures
        final(out)@ == old(out)@ + reg_text(*ctx, i as int),
{
    push_text(out, "r");
    push_dec(out, i as u64);
    if i < 10 {
        push_text(out, " ");
    }
    push_text(out, "=");
    push_wide(out, ctx.x[i] as u32 as u64);
    assert(out@ =~= old(out)@ + reg_text(*ctx, i as int));
}

/// The report of a halt: why, the hypervisor's registers, and the guest's first fifteen.
pub fn basic_halt_dump(what: &str, ctx: &TrapContext, r: TrapRegs) -> (out: String)
    ensures
        out@ == halt_text(what@, *ctx, r),
{
    let mut out = String::new();
    push_text(&mut out, "\n*** ");
    push_text(&mut out, what);
    push_text(
        &mut out,
        " (diagnostics stubbed out; rebuild with feature `diag` for the full dump) ***\n",
    );
    push_text(&mut out, "  ELR_EL2=");
    push_wide(&mut out, r.elr);
    push_text(&mut out, " SPSR_EL2=");
    push_wide(&mut out, r.spsr);
    push_text(&mut out, " ESR_EL2=");
    push_wide(&mut out, r.esr);
    push_text(&mut out, " FAR_EL1=");
    push_wide(&mut out, r.far);
    push_text(&mut out, "\n");
    let ghost head = out@;
    let mut i: usize = 0;
    while i < 15
        invariant
            i <= 15,
            out@ =~= head + regs_text(*ctx, i as int),
        decreases 15 - i,
    {
        let ghost before = out@;
        push_text(
            &mut out,
            if i % 5 == 0 {
                "  "
            } else {
                " "
            },
        );
        push_reg(&mut out, ctx, i);
        if i % 5 == 4 {
            push_text(&mut out, "\n");
        }
        assert(out@ =~= before + (if (i + 1) % 5 == 1 {
            "  "@
        } else {
            " "@
        }) + reg_text(*ctx, i as int) + (if (i + 1) % 5 == 0 {
            "\n"@
        } else {
            seq![]
        }));
        i = i + 1;
    }
    assert(out@ =~= halt_text(what@, *ctx, r));
    out
}

/// The report of a canary.
pub fn handle_loud_halt(ctx: &TrapContext, r: TrapRegs) -> (out: String)
    ensures
        out@ == halt_text("LoudHalt canary fired"@, *ctx, r),
{
    basic_halt_dump("LoudHalt canary fired", ctx, r)
}

/// The report of an exception that the guest's kernel does not handle.
pub fn handle_unhandled_exception(ctx: &TrapContext, non_user: bool, r: TrapRegs) -> (out: String)
    ensures
        out@ == halt_text(
            if non_user {
                "kernel reached UnhandledNonUserModeException"@
            } else {
                "kernel reached UnhandledException"@
            },
            *ctx,
            r,
        ),
{
    basic_halt_dump(
        if non_user {
            "kernel reached UnhandledNonUserModeException"
        } else {
            "kernel reached UnhandledException"
        },
        ctx,
        r,
    )
}

/// The report of a vector that was intercepted.
pub fn handle_diag(ctx: &TrapContext, r: TrapRegs) -> (out: String)
    ensures
        out@ == halt_text("DIAG vector intercept"@, *ctx, r),
{
    basic_halt_dump("DIAG vector intercept", ctx, r)
}

/// A reference as its raw word, whatever the depth asked for.
pub fn pretty_print_ref_inline(ref_value: u32, _depth: u32) -> (out: String)
    ensures
        out@ == "#"@ + text::hex(ref_value as nat),
{
    let mut out = String::new();
    push_text(&mut out, "#");
    push_hex(&mut out, ref_value);
    assert(out@ =~= "#"@ + text::hex(ref_value as nat));
    out
}

/// The start of a measurement: no clock is read.
pub fn begin() -> (us: u64)
    ensures
        us == 0,
{
    0
}

/// Whether any breakpoint is set: there are none.
pub fn any_installed() -> (any: bool)
    ensures
        !any,
{
    false
}

/// Whether an undefined instruction is a breakpoint: it never is.
pub fn handle_user_bp_und(ctx: &mut TrapContext, _faulting_pc: u32, _spsr_und: u64, _insn: u32) -> (hit:
    bool)
    ensures
        !hit,
        *final(ctx) == *old(ctx),
{
    false
}

/// The arguments of a message of the guest's, none of which are kept.
pub struct VaArgs;

impl VaArgs {
    /// The arguments in the registers and on the stack.
    pub fn new(_r2: u32, _r3: u32, _sp: u32) -> (args: Self)
        ensures
            args == VaArgs,
    {
        VaArgs
    }
}

/// Renders a message of the guest's: nothing is written.
pub fn render_into(buf: &mut Vec<u8>, _fmt_ptr: u32, _args: VaArgs) -> (len: usize)
    ensures
        len == 0,
        final(buf)@ == old(buf)@,
{
    0
}

/// The longest stretch with interrupts masked: none is measured.
pub fn take_max_us() -> (r: Option<(u64, u8, u32, u32)>)
    ensures
        r is None,
{
    None
}

/// What a handler is called: nothing in particular.
pub fn kind_label(_kind: u8) -> (label: &'static str)
    ensures
        label@ == "?"@,
{
    "?"
}

/// Whether the tasks were dumped: they never are.
pub fn periodic(_ctx: &TrapContext) -> (dumped: bool)
    ensures
        !dumped,
{
    false
}

/// The key of a system-control access in the trap history, which has no entries.
pub fn cp15_key(_opc1: u32, _crn: u32, _crm: u32, _opc2: u32, _is_read: bool) -> (key: u32)
    ensures
        key == 0,
{
    0
}

/// The traps so far: none are counted.
pub fn sync_count() -> (n: u64)
    ensures
        n == 0,
{
    0
}

} // verus!
