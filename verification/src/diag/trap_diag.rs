//! What is collected when a trap stops the guest: the kernel's stacks with their
//! invariants, the loud-halt and diagnostic reports, and the trap-progress beacon.

use crate::arch::banked;
use crate::arch::banked::{lr_for_mode, sp_for_mode};
use crate::arch::trap_context::TrapContext;
use crate::guest_endian;
use crate::guest_endian::{guest_read_u32_pa, guest_read_u32_va, guest_read_u8_va};
use crate::guest_mem::{translate_va, GuestMem, MemView};
use crate::guest_trampolines::{DABT_SAVE_PA, HYP_TRAMP_SCRATCH_BASE};
use crate::stage1;
use crate::stage1::{dump_stage1_walk, Stage1Walk};
use vstd::prelude::*;

verus! {

/// Traps between two beacons.
pub const BEACON_EVERY: u64 = 10_000;

/// Counts a trap. Every ten-thousandth gives its number, to be printed as a sign of
/// progress.
pub fn sync_trap_beacon(counter: &mut u64) -> (beacon: Option<u64>)
    requires
        *old(counter) < u64::MAX,
    ensures
        *final(counter) == *old(counter) + 1,
        beacon == (if *final(counter) % 10_000 == 0 {
            Some(*final(counter))
        } else {
            None
        }),
{
    *counter = *counter + 1;
    let n = *counter;
    if n % BEACON_EVERY == 0 {
        Some(n)
    } else {
        None
    }
}

/// The guest's word at `va`, or zero where it cannot be read.
pub open spec fn word_or_zero(m: MemView, va: u32) -> u32 {
    match guest_endian::value_va(m, va) {
        Some(w) => w,
        None => 0,
    }
}

fn rd(mem: &GuestMem, va: u32) -> (w: u32)
    requires
        mem.wf(),
    ensures
        w == word_or_zero(mem@, va),
{
    match guest_read_u32_va(mem, va) {
        Some(w) => w,
        None => 0,
    }
}

/// The guest's word at physical address `pa`, or zero where it cannot be read.
pub open spec fn word_or_zero_pa(m: MemView, pa: u32) -> u32 {
    match guest_endian::value_pa(m, pa) {
        Some(w) => w,
        None => 0,
    }
}

fn rd_pa(mem: &GuestMem, pa: u32) -> (w: u32)
    requires
        mem.wf(),
    ensures
        w == word_or_zero_pa(mem@, pa),
{
    match guest_read_u32_pa(mem, pa) {
        Some(w) => w,
        None => 0,
    }
}

/// The global whose second word points to the kernel's stack manager.
pub const G_STACK_MGR_HEAP: u32 = 0x0C10_4C08;

/// Offset of the domain queue in the stack manager.
pub const DOMAIN_QUEUE: u32 = 0xD0;

/// The most domains that are walked.
pub const MAX_DOMAINS: usize = 16;

/// The most address ranges that are held against each other.
pub const MAX_RANGES: usize = 64;

/// Whether `p` lies where the kernel's heap objects do.
pub open spec fn heap_shaped(p: u32) -> bool {
    0x0C00_0000 <= p < 0x0D00_0000
}

fn is_heap_shaped(p: u32) -> (yes: bool)
    ensures
        yes == heap_shaped(p),
{
    0x0C00_0000 <= p && p < 0x0D00_0000
}

/// A run of consecutive slots that hold the same stack.
#[derive(Clone, Copy, PartialEq, Eq, Structural)]
pub struct Run {
    pub info: u32,
    pub first: u32,
    pub count: u32,
}

/// The maximal runs of equal nonzero slots.
pub open spec fn runs_of(slots: Seq<u32>) -> Seq<Run>
    decreases slots.len(),
{
    if slots.len() == 0 {
        Seq::empty()
    } else {
        let before = runs_of(slots.drop_last());
        let n = slots.len() - 1;
        let x = slots.last();
        if x == 0 {
            before
        } else if before.len() > 0 && before.last().info == x && before.last().first
            + before.last().count == n {
            before.drop_last().push(
                Run {
                    info: x,
                    first: before.last().first,
                    count: (before.last().count + 1) as u32,
                },
            )
        } else {
            before.push(Run { info: x, first: n as u32, count: 1 })
        }
    }
}

/// The slots of a domain.
pub open spec fn slots_of(m: MemView, slots_ptr: u32, n: int) -> Seq<u32> {
    Seq::new(
        n as nat,
        |s: int| word_or_zero(m, slots_ptr.wrapping_add((s as u32).wrapping_mul(4))),
    )
}

/// The fields of a stack descriptor and what is wrong with them.
#[derive(Clone, Copy, PartialEq, Eq, Structural)]
pub struct TStack {
    pub run: Run,
    /// Lowest address, guard included.
    pub norm: u32,
    /// Lowest address of the data.
    pub hard: u32,
    /// Current bound.
    pub curr: u32,
    /// Top.
    pub top: u32,
    /// The top as it is stored a second time.
    pub top_again: u32,
    /// The slot count.
    pub n: u32,
    /// Whether the marked address lies in the stack.
    pub covers_marker: bool,
    /// The guard is not one page.
    pub bad_guard: bool,
    /// The data is not whole pages.
    pub bad_range: bool,
    /// The current bound is outside the data.
    pub bad_curr: bool,
    /// The two tops differ.
    pub bad_top: bool,
    /// The data does not lie between the lowest address and the top.
    pub bad_hard: bool,
}

/// The stack descriptor of a run, checked, with `marker` the address to look out for.
pub open spec fn stack_of(m: MemView, run: Run, marker: u32) -> TStack {
    let norm = word_or_zero(m, run.info.wrapping_add(20));
    let hard = word_or_zero(m, run.info.wrapping_add(4));
    let curr = word_or_zero(m, run.info.wrapping_add(24));
    let top = word_or_zero(m, run.info.wrapping_add(28));
    let top_again = word_or_zero(m, run.info);
    TStack {
        run,
        norm,
        hard,
        curr,
        top,
        top_again,
        n: word_or_zero(m, run.info.wrapping_add(8)),
        covers_marker: norm <= marker < top,
        bad_guard: hard.wrapping_sub(norm) != 0x1000,
        bad_range: top.wrapping_sub(hard) % 0x1000 != 0,
        bad_curr: curr < hard || curr > top,
        bad_top: top_again != top,
        bad_hard: hard < norm || hard > top,
    }
}

/// How many invariants a stack breaks.
pub open spec fn stack_errors(s: TStack) -> nat {
    (if s.bad_guard {
        1nat
    } else {
        0
    }) + (if s.bad_range {
        1nat
    } else {
        0
    }) + (if s.bad_curr {
        1nat
    } else {
        0
    }) + (if s.bad_top {
        1nat
    } else {
        0
    }) + (if s.bad_hard {
        1nat
    } else {
        0
    })
}

/// A domain of the stack manager, with whether its slot array can be walked.
#[derive(Clone, Copy, PartialEq, Eq, Structural)]
pub struct Domain {
    pub addr: u32,
    pub pool_start: u32,
    pub pool_end: u32,
    pub num_slots: u32,
    pub slots_ptr: u32,
    pub sound: bool,
}

/// The domain at `d`.
pub open spec fn domain_at(m: MemView, d: u32) -> Domain {
    let num_slots = word_or_zero(m, d.wrapping_add(24));
    let slots_ptr = word_or_zero(m, d.wrapping_add(28));
    Domain {
        addr: d,
        pool_start: word_or_zero(m, d.wrapping_add(16)),
        pool_end: word_or_zero(m, d.wrapping_add(20)),
        num_slots,
        slots_ptr,
        sound: num_slots <= 1024 && heap_shaped(slots_ptr),
    }
}

/// The domains from `d` on, `fuel` at most: the walk ends at a null or misshapen pointer.
pub open spec fn domains_from(m: MemView, d: u32, item_offset: u32, fuel: nat) -> Seq<Domain>
    decreases fuel,
{
    if fuel == 0 || d == 0 || !heap_shaped(d) {
        Seq::empty()
    } else {
        let next = word_or_zero(m, d.wrapping_add(item_offset));
        seq![domain_at(m, d)] + (if next == 0 {
            Seq::empty()
        } else {
            domains_from(m, next.wrapping_sub(item_offset), item_offset, (fuel - 1) as nat)
        })
    }
}

/// The misshapen pointer that ends the walk from `d`, if one does.
pub open spec fn stray_from(m: MemView, d: u32, item_offset: u32, fuel: nat) -> Option<u32>
    decreases fuel,
{
    if fuel == 0 || d == 0 {
        None
    } else if !heap_shaped(d) {
        Some(d)
    } else {
        let next = word_or_zero(m, d.wrapping_add(item_offset));
        if next == 0 {
            None
        } else {
            stray_from(m, next.wrapping_sub(item_offset), item_offset, (fuel - 1) as nat)
        }
    }
}

/// The stacks of the runs `runs`.
pub open spec fn stacks_of_runs(m: MemView, runs: Seq<Run>, marker: u32) -> Seq<TStack> {
    runs.map_values(|r: Run| stack_of(m, r, marker))
}

/// The stacks of one domain; none where its slots cannot be walked.
pub open spec fn stacks_in(m: MemView, d: Domain, marker: u32) -> Seq<TStack> {
    if d.sound {
        stacks_of_runs(m, runs_of(slots_of(m, d.slots_ptr, d.num_slots as int)), marker)
    } else {
        Seq::empty()
    }
}

/// The stacks of the first `n` domains.
pub open spec fn all_stacks(m: MemView, ds: Seq<Domain>, n: int, marker: u32) -> Seq<TStack>
    decreases n,
{
    if n <= 0 {
        Seq::empty()
    } else {
        all_stacks(m, ds, n - 1, marker) + stacks_in(m, ds[n - 1], marker)
    }
}

/// The invariants that the first `n` stacks break, each by itself.
pub open spec fn errors_alone(s: Seq<TStack>, n: int) -> nat
    decreases n,
{
    if n <= 0 {
        0
    } else {
        errors_alone(s, n - 1) + stack_errors(s[n - 1])
    }
}

/// Whether two stacks share an address.
pub open spec fn stacks_overlap(a: TStack, b: TStack) -> bool {
    a.norm < b.top && b.norm < a.top
}

/// The stacks that are held against each other.
pub open spec fn compared(s: Seq<TStack>) -> int {
    if s.len() < MAX_RANGES {
        s.len() as int
    } else {
        MAX_RANGES as int
    }
}

/// The pairs of compared stacks that overlap, in order, up to the pair `i` and `j`.
pub open spec fn overlap_pairs(s: Seq<TStack>, i: int, j: int) -> Seq<(int, int)>
    decreases i + 1, j,
{
    if i < 0 {
        Seq::empty()
    } else if j <= i {
        overlap_pairs(s, i - 1, compared(s) - 1)
    } else {
        let before = overlap_pairs(s, i, j - 1);
        if stacks_overlap(s[i], s[j]) {
            before.push((i, j))
        } else {
            before
        }
    }
}

/// The kernel's stacks and what is wrong with them.
pub struct TStackReport {
    /// The stack manager.
    pub manager: u32,
    pub container: u32,
    pub head_item: u32,
    pub item_offset: u32,
    pub domains: Vec<Domain>,
    /// A domain pointer that ended the walk because it cannot be one.
    pub stray: Option<u32>,
    pub stacks: Vec<TStack>,
    /// Pairs of stacks that overlap.
    pub overlaps: Vec<(usize, usize)>,
    /// Broken invariants, overlaps included.
    pub errors: usize,
}

/// Why the stacks could not be walked.
#[derive(Clone, Copy, PartialEq, Eq, Structural)]
pub enum TStackError {
    /// The manager's pointer is not one.
    BadManager(u32),
    /// The queue's item offset cannot be right.
    BadItemOffset(u32),
}

/// Reads one run's stack and checks it.
fn read_stack(mem: &GuestMem, run: Run, marker: u32) -> (s: TStack)
    requires
        mem.wf(),
    ensures
        s == stack_of(mem@, run, marker),
{
    let info = run.info;
    let hard = rd(mem, info.wrapping_add(4));
    let norm = rd(mem, info.wrapping_add(20));
    let curr = rd(mem, info.wrapping_add(24));
    let top = rd(mem, info.wrapping_add(28));
    let top_again = rd(mem, info);
    let n = rd(mem, info.wrapping_add(8));
    TStack {
        run,
        norm,
        hard,
        curr,
        top,
        top_again,
        n,
        covers_marker: marker >= norm && marker < top,
        bad_guard: hard.wrapping_sub(norm) != 0x1000,
        bad_range: top.wrapping_sub(hard) % 0x1000 != 0,
        bad_curr: curr < hard || curr > top,
        bad_top: top_again != top,
        bad_hard: hard < norm || hard > top,
    }
}

/// Collects the runs of a domain's slots.
fn read_runs(mem: &GuestMem, slots_ptr: u32, num_slots: u32) -> (runs: Vec<Run>)
    requires
        mem.wf(),
        num_slots <= 1024,
    ensures
        runs@ == runs_of(slots_of(mem@, slots_ptr, num_slots as int)),
        runs@.len() <= num_slots,
{
    let ghost all = slots_of(mem@, slots_ptr, num_slots as int);
    let mut runs: Vec<Run> = Vec::new();
    let mut s: u32 = 0;
    assert(all.take(0) =~= Seq::<u32>::empty());
    while s < num_slots
        invariant
            mem.wf(),
            s <= num_slots <= 1024,
            all == slots_of(mem@, slots_ptr, num_slots as int),
            runs@ == runs_of(all.take(s as int)),
            runs@.len() <= s,
            forall|k: int|
                0 <= k < runs@.len() ==> (#[trigger] runs@[k]).first + runs@[k].count <= s
                    && runs@[k].count <= 1024,
        decreases num_slots - s,
    {
        let info = rd(mem, slots_ptr.wrapping_add(s.wrapping_mul(4)));
        proof {
            assert(all.take(s + 1).drop_last() =~= all.take(s as int));
            assert(all.take(s + 1).last() == info);
        }
        if info != 0 {
            let k: usize = runs.len();
            let extend = k > 0 && runs[k - 1].info == info && runs[k - 1].first + runs[k - 1].count
                == s;
            if extend {
                let last = runs[k - 1];
                let ghost before = runs@;
                runs.set(
                    k - 1,
                    Run { info, first: last.first, count: last.count + 1 },
                );
                assert(runs@ =~= before.drop_last().push(
                    Run { info, first: last.first, count: (last.count + 1) as u32 },
                ));
            } else {
                runs.push(Run { info, first: s, count: 1 });
            }
        }
        s = s + 1;
    }
    assert(all.take(num_slots as int) =~= all);
    runs
}

/// Counts the invariants that the stacks break, each by itself.
fn count_errors(stacks: &Vec<TStack>) -> (errors: usize)
    requires
        stacks@.len() <= 1024 * MAX_DOMAINS,
    ensures
        errors == errors_alone(stacks@, stacks@.len() as int),
        errors <= 5 * stacks@.len(),
{
    let mut errors: usize = 0;
    let mut i: usize = 0;
    while i < stacks.len()
        invariant
            i <= stacks@.len() <= 1024 * MAX_DOMAINS,
            errors == errors_alone(stacks@, i as int),
            errors <= 5 * i,
        decreases stacks@.len() - i,
    {
        let s = stacks[i];
        if s.bad_guard {
            errors = errors + 1;
        }
        if s.bad_range {
            errors = errors + 1;
        }
        if s.bad_curr {
            errors = errors + 1;
        }
        if s.bad_top {
            errors = errors + 1;
        }
        if s.bad_hard {
            errors = errors + 1;
        }
        i = i + 1;
    }
    errors
}

/// Finds the pairs of stacks that overlap, among the first ones.
fn find_overlaps(stacks: &Vec<TStack>) -> (pairs: Vec<(usize, usize)>)
    ensures
        pairs@.len() == overlap_pairs(
            stacks@,
            compared(stacks@) - 1,
            compared(stacks@) - 1,
        ).len(),
        forall|k: int|
            0 <= k < pairs@.len() ==> (#[trigger] pairs@[k]).0 == overlap_pairs(
                stacks@,
                compared(stacks@) - 1,
                compared(stacks@) - 1,
            )[k].0 && pairs@[k].1 == overlap_pairs(
                stacks@,
                compared(stacks@) - 1,
                compared(stacks@) - 1,
            )[k].1,
        pairs@.len() <= 64 * 64,
{
    let n: usize = if stacks.len() < MAX_RANGES {
        stacks.len()
    } else {
        MAX_RANGES
    };
    let mut pairs: Vec<(usize, usize)> = Vec::new();
    let mut i: usize = 0;
    while i < n
        invariant
            i <= n,
            n == compared(stacks@),
            pairs@.len() == overlap_pairs(stacks@, i - 1, n - 1).len(),
            forall|k: int|
                0 <= k < pairs@.len() ==> (#[trigger] pairs@[k]).0 == overlap_pairs(
                    stacks@,
                    i - 1,
                    n - 1,
                )[k].0 && pairs@[k].1 == overlap_pairs(stacks@, i - 1, n - 1)[k].1,
            pairs@.len() <= 64 * i,
        decreases n - i,
    {
        let ghost start = pairs@.len();
        let mut j: usize = i + 1;
        while j < n
            invariant
                i < n,
                i + 1 <= j <= n,
                n == compared(stacks@),
                pairs@.len() == overlap_pairs(stacks@, i as int, j - 1).len(),
                forall|k: int|
                    0 <= k < pairs@.len() ==> (#[trigger] pairs@[k]).0 == overlap_pairs(
                        stacks@,
                        i as int,
                        j - 1,
                    )[k].0 && pairs@[k].1 == overlap_pairs(stacks@, i as int, j - 1)[k].1,
                pairs@.len() <= start + j - i - 1,
                start <= 64 * i,
            decreases n - j,
        {
            let a = stacks[i];
            let b = stacks[j];
            if a.norm < b.top && b.norm < a.top {
                pairs.push((i, j));
            }
            j = j + 1;
        }
        i = i + 1;
    }
    pairs
}

/// What a report on the stacks tells: the manager, the queue of its domains, the domains of that queue, at
/// most sixteen, with all their stacks, the pairs that overlap, and as many errors as there are
/// pairs and broken stacks. There is none where the manager is no kernel address, or where the
/// queue's offset is more than 256.
pub proof fn stacks_are_reported(m: MemView, far: u32, r: Result<TStackReport, TStackError>)
    requires
        stacks_reported(m, far, r),
    ensures
        ({
            let manager = word_or_zero(m, 0x0C10_4C0C);
            let queue = manager.wrapping_add(208);
            let offset = word_or_zero(m, queue.wrapping_add(8));
            let kernel = 0x0C00_0000 <= manager && manager < 0x0D00_0000;
            &&& r is Ok <==> kernel && offset <= 256
            &&& !kernel ==> r == Err::<TStackReport, TStackError>(TStackError::BadManager(manager))
            &&& kernel && offset > 256 ==> r == Err::<TStackReport, TStackError>(
                TStackError::BadItemOffset(offset),
            )
            &&& r matches Ok(rep) ==> {
                let head = word_or_zero(m, queue);
                &&& rep.manager == manager && rep.container == queue && rep.head_item == head
                    && rep.item_offset == offset
                &&& head == 0 ==> rep.domains@.len() == 0 && rep.stray is None
                &&& head != 0 ==> rep.domains@ == domains_from(m, head.wrapping_sub(offset), offset, 16)
                    && rep.stray == stray_from(m, head.wrapping_sub(offset), offset, 16)
                &&& rep.stacks@ == all_stacks(m, rep.domains@, rep.domains@.len() as int, far)
                &&& rep.errors == errors_alone(rep.stacks@, rep.stacks@.len() as int)
                    + rep.overlaps@.len()
            }
        }),
{
}

/// Walks the kernel's stack manager and checks every stack it owns: a guard of one page, data
/// of whole pages, the current bound and the data bound in range, equal tops, and no two
/// stacks overlapping. `marker` is the address that faulted.
#[verifier::rlimit(40)]
pub fn dump_tstacks_and_check_invariants(mem: &GuestMem, marker: u32) -> (r: Result<
    TStackReport,
    TStackError,
>)
    requires
        mem.wf(),
    ensures
        stacks_reported(mem@, marker, r),
{
    let manager = rd(mem, G_STACK_MGR_HEAP + 4);
    if !is_heap_shaped(manager) {
        return Err(TStackError::BadManager(manager));
    }
    let container = manager.wrapping_add(DOMAIN_QUEUE);
    let head_item = rd(mem, container);
    let item_offset = rd(mem, container.wrapping_add(8));
    if item_offset > 0x100 {
        return Err(TStackError::BadItemOffset(item_offset));
    }
    let first: u32 = if head_item == 0 {
        0
    } else {
        head_item.wrapping_sub(item_offset)
    };
    let mut domain: u32 = first;
    let mut domains: Vec<Domain> = Vec::new();
    let mut stacks: Vec<TStack> = Vec::new();
    let ghost whole = domains_from(mem@, first, item_offset, 16);
    let ghost end = stray_from(mem@, first, item_offset, 16);
    let mut k: usize = 0;
    let mut more: bool = true;
    assert(Seq::<Domain>::empty() + whole =~= whole);
    while more && k < MAX_DOMAINS && domain != 0 && is_heap_shaped(domain)
        invariant
            mem.wf(),
            k <= MAX_DOMAINS,
            item_offset <= 0x100,
            domains@.len() == k,
            domains@ + (if more {
                domains_from(mem@, domain, item_offset, (16 - k) as nat)
            } else {
                Seq::empty()
            }) == whole,
            (if more {
                stray_from(mem@, domain, item_offset, (16 - k) as nat)
            } else {
                None
            }) == end,
            stacks@ == all_stacks(mem@, domains@, k as int, marker),
            stacks@.len() <= 1024 * k,
        decreases 16 - k,
    {
        let pool_start = rd(mem, domain.wrapping_add(16));
        let pool_end = rd(mem, domain.wrapping_add(20));
        let num_slots = rd(mem, domain.wrapping_add(24));
        let slots_ptr = rd(mem, domain.wrapping_add(28));
        let sound = num_slots <= 1024 && is_heap_shaped(slots_ptr);
        let d = Domain { addr: domain, pool_start, pool_end, num_slots, slots_ptr, sound };
        assert(d == domain_at(mem@, domain));
        let ghost before = domains@;
        let ghost stacks0 = stacks@;
        domains.push(d);
        proof {
            prefix_of_stacks(mem@, before, d, k as int, marker);
        }
        if sound {
            let runs = read_runs(mem, slots_ptr, num_slots);
            let mut i: usize = 0;
            while i < runs.len()
                invariant
                    mem.wf(),
                    i <= runs@.len() <= 1024,
                    stacks@.len() == stacks0.len() + i,
                    stacks@ == stacks0 + stacks_of_runs(mem@, runs@.take(i as int), marker),
                decreases runs@.len() - i,
            {
                let s = read_stack(mem, runs[i], marker);
                stacks.push(s);
                assert(runs@.take(i + 1) =~= runs@.take(i as int).push(runs@[i as int]));
                assert(stacks@ =~= stacks0 + stacks_of_runs(mem@, runs@.take(i + 1), marker));
                i = i + 1;
            }
            assert(runs@.take(runs@.len() as int) =~= runs@);
        }
        assert(stacks@ =~= stacks0 + stacks_in(mem@, d, marker));
        let next_item = rd(mem, domain.wrapping_add(item_offset));
        let ghost tail: Seq<Domain> = if next_item == 0 {
            Seq::empty()
        } else {
            domains_from(mem@, next_item.wrapping_sub(item_offset), item_offset, (15 - k) as nat)
        };
        assert(domains_from(mem@, domain, item_offset, (16 - k) as nat) == seq![d] + tail);
        assert(before + (seq![d] + tail) =~= domains@ + tail);
        if next_item == 0 {
            more = false;
        } else {
            domain = next_item.wrapping_sub(item_offset);
        }
        k = k + 1;
    }
    assert(domains@ + Seq::<Domain>::empty() =~= domains@);
    assert(domains@ == whole);
    let stray = if more && k < MAX_DOMAINS && domain != 0 {
        Some(domain)
    } else {
        None
    };
    let overlaps = find_overlaps(&stacks);
    let alone = count_errors(&stacks);
    let errors = alone + overlaps.len();
    Ok(
        TStackReport {
            manager,
            container,
            head_item,
            item_offset,
            domains,
            stray,
            stacks,
            overlaps,
            errors,
        },
    )
}

proof fn prefix_of_stacks(m: MemView, ds: Seq<Domain>, d: Domain, n: int, marker: u32)
    requires
        0 <= n <= ds.len(),
    ensures
        all_stacks(m, ds.push(d), n, marker) == all_stacks(m, ds, n, marker),
    decreases n,
{
    if n > 0 {
        prefix_of_stacks(m, ds, d, n - 1, marker);
        assert(ds.push(d)[n - 1] == ds[n - 1]);
    }
}

/// Every run stands for slots that hold its stack, and it cannot be made longer: the slots
/// before and behind it hold something else.
pub proof fn runs_are_maximal(slots: Seq<u32>, k: int)
    requires
        slots.len() <= 1024,
        0 <= k < runs_of(slots).len(),
    ensures
        ({
            let r = runs_of(slots)[k];
            &&& r.info != 0
            &&& r.count > 0
            &&& r.first + r.count <= slots.len()
            &&& forall|i: int| r.first <= i < r.first + r.count ==> #[trigger] slots[i] == r.info
            &&& r.first > 0 ==> slots[r.first - 1] != r.info
            &&& r.first + r.count < slots.len() ==> slots[r.first + r.count] != r.info
        }),
    decreases slots.len(),
{
    let before = runs_of(slots.drop_last());
    let shorter = slots.drop_last();
    let x = slots.last();
    let n = slots.len() - 1;
    let extend = before.len() > 0 && before.last().info == x && before.last().first
        + before.last().count == n;
    if k < before.len() {
        runs_are_maximal(shorter, k);
        runs_end_in_order(shorter, k);
        let r = before[k];
        assert forall|i: int| r.first <= i < r.first + r.count implies #[trigger] slots[i]
            == r.info by {
            assert(shorter[i] == slots[i]);
        }
        if r.first > 0 {
            assert(shorter[r.first - 1] == slots[r.first - 1]);
        }
        if r.first + r.count < shorter.len() {
            assert(shorter[r.first + r.count] == slots[r.first + r.count]);
        }
    } else if !extend && x != 0 && n > 0 {
        if slots[n - 1] == x {
            last_run_reaches_end(shorter);
        }
    }
}

proof fn runs_end_in_order(slots: Seq<u32>, k: int)
    requires
        slots.len() <= 1024,
        0 <= k < runs_of(slots).len(),
    ensures
        runs_of(slots)[k].first + runs_of(slots)[k].count <= slots.len(),
        k < runs_of(slots).len() - 1 ==> runs_of(slots)[k].first + runs_of(slots)[k].count
            < slots.len(),
    decreases slots.len(),
{
    let before = runs_of(slots.drop_last());
    if k < before.len() {
        runs_end_in_order(slots.drop_last(), k);
    }
}

proof fn last_run_reaches_end(slots: Seq<u32>)
    requires
        0 < slots.len() <= 1024,
        slots.last() != 0,
    ensures
        runs_of(slots).len() > 0,
        runs_of(slots).last().info == slots.last(),
        runs_of(slots).last().first + runs_of(slots).last().count == slots.len(),
{
}

/// Every slot with a stack is in a run: no stack is passed over.
pub proof fn every_stack_is_in_a_run(slots: Seq<u32>, i: int)
    requires
        slots.len() <= 1024,
        0 <= i < slots.len(),
        slots[i] != 0,
    ensures
        exists|k: int|
            0 <= k < runs_of(slots).len() && (#[trigger] runs_of(slots)[k]).info == slots[i]
                && runs_of(slots)[k].first <= i < runs_of(slots)[k].first + runs_of(slots)[k].count,
    decreases slots.len(),
{
    let shorter = slots.drop_last();
    let before = runs_of(shorter);
    let now = runs_of(slots);
    let n = slots.len() - 1;
    if i < n {
        every_stack_is_in_a_run(shorter, i);
        let k = choose|k: int|
            0 <= k < before.len() && (#[trigger] before[k]).info == shorter[i] && before[k].first <= i
                < before[k].first + before[k].count;
        runs_end_in_order(shorter, k);
        assert(now[k].info == slots[i]);
    } else {
        if before.len() > 0 {
            runs_end_in_order(shorter, before.len() - 1);
        }
        let k = now.len() - 1;
        assert(now[k].info == slots[i]);
    }
}

/// What a stack's descriptor says, word by word, and what is wrong with it: a guard that is not one
/// page, data that is not whole pages, a current bound or a data bound out of order, two tops that
/// differ. The marked address is in the stack from its lowest address up to its top.
pub proof fn stacks_are_checked(m: MemView, run: Run, marker: u32)
    requires
        run.info + 28 <= u32::MAX,
    ensures
        ({
            let s = stack_of(m, run, marker);
            &&& s.run == run
            &&& s.top_again == word_or_zero(m, run.info)
            &&& s.hard == word_or_zero(m, (run.info + 4) as u32)
            &&& s.n == word_or_zero(m, (run.info + 8) as u32)
            &&& s.norm == word_or_zero(m, (run.info + 20) as u32)
            &&& s.curr == word_or_zero(m, (run.info + 24) as u32)
            &&& s.top == word_or_zero(m, (run.info + 28) as u32)
            &&& s.covers_marker <==> s.norm <= marker && marker < s.top
            &&& s.norm <= s.hard ==> (s.bad_guard <==> s.hard - s.norm != 4096)
            &&& s.hard <= s.top ==> (s.bad_range <==> (s.top - s.hard) % 4096 != 0)
            &&& s.bad_curr <==> !(s.hard <= s.curr && s.curr <= s.top)
            &&& s.bad_top <==> s.top != s.top_again
            &&& s.bad_hard <==> !(s.norm <= s.hard && s.hard <= s.top)
            &&& stack_errors(s) == 0 <==> !s.bad_guard && !s.bad_range && !s.bad_curr && !s.bad_top
                && !s.bad_hard
            &&& s.bad_guard && s.bad_range && s.bad_curr && s.bad_top && s.bad_hard ==> stack_errors(s)
                == 5
        }),
{
}

/// The walk over the domains starts at the first, goes from each to the one that its link names, takes
/// in no more than asked for, and ends at a null link or at an address that no domain can have; that
/// address is then told.
pub proof fn domains_are_linked(m: MemView, d: u32, off: u32, fuel: nat, k: int)
    requires
        0 <= k < domains_from(m, d, off, fuel).len(),
    ensures
        ({
            let ds = domains_from(m, d, off, fuel);
            let a = ds[k].addr;
            let link = word_or_zero(m, a.wrapping_add(off));
            &&& ds.len() <= fuel
            &&& ds[0].addr == d
            &&& 0x0C00_0000 <= a && a < 0x0D00_0000
            &&& ds[k] == domain_at(m, a)
            &&& k + 1 < ds.len() ==> link != 0 && ds[k + 1].addr == link.wrapping_sub(off)
            &&& k + 1 == ds.len() && ds.len() < fuel && link != 0 ==> {
                let next = link.wrapping_sub(off);
                &&& next == 0 || !(0x0C00_0000 <= next && next < 0x0D00_0000)
                &&& next != 0 ==> stray_from(m, d, off, fuel) == Some(next)
                &&& next == 0 ==> stray_from(m, d, off, fuel) is None
            }
            &&& k + 1 == ds.len() && link == 0 ==> stray_from(m, d, off, fuel) is None
        }),
    decreases fuel,
{
    let ds = domains_from(m, d, off, fuel);
    let next = word_or_zero(m, d.wrapping_add(off));
    if next != 0 {
        let tail = domains_from(m, next.wrapping_sub(off), off, (fuel - 1) as nat);
        assert(ds =~= seq![domain_at(m, d)] + tail);
        if k > 0 {
            domains_are_linked(m, next.wrapping_sub(off), off, (fuel - 1) as nat, k - 1);
            assert(ds[k] == tail[k - 1]);
            if k + 1 < ds.len() {
                assert(ds[k + 1] == tail[k]);
            }
        } else if tail.len() > 0 {
            domains_are_linked(m, next.wrapping_sub(off), off, (fuel - 1) as nat, 0);
            assert(ds[1] == tail[0]);
        }
    } else {
        assert(ds =~= seq![domain_at(m, d)]);
    }
}

/// What a domain says: the words 16 to 28 bytes into it; its slots can be walked where there are at
/// most 1024 of them and their address is that of a heap object.
pub proof fn domains_are_read(m: MemView, d: u32)
    requires
        d + 28 <= u32::MAX,
    ensures
        ({
            let x = domain_at(m, d);
            &&& x.addr == d
            &&& x.pool_start == word_or_zero(m, (d + 16) as u32)
            &&& x.pool_end == word_or_zero(m, (d + 20) as u32)
            &&& x.num_slots == word_or_zero(m, (d + 24) as u32)
            &&& x.slots_ptr == word_or_zero(m, (d + 28) as u32)
            &&& x.sound <==> x.num_slots <= 1024 && 0x0C00_0000 <= x.slots_ptr && x.slots_ptr
                < 0x0D00_0000
        }),
{
}

/// The stacks of every domain are looked at: each run of each domain's slots, where they can be walked,
/// gives a stack of the report.
pub proof fn every_domain_is_looked_at(
    m: MemView,
    ds: Seq<Domain>,
    n: int,
    marker: u32,
    k: int,
    j: int,
)
    requires
        0 <= k < n <= ds.len(),
        ds[k].sound,
        0 <= j < runs_of(slots_of(m, ds[k].slots_ptr, ds[k].num_slots as int)).len(),
    ensures
        all_stacks(m, ds, n, marker).contains(
            stack_of(
                m,
                runs_of(slots_of(m, ds[k].slots_ptr, ds[k].num_slots as int))[j],
                marker,
            ),
        ),
    decreases n,
{
    let want = stack_of(
        m,
        runs_of(slots_of(m, ds[k].slots_ptr, ds[k].num_slots as int))[j],
        marker,
    );
    let before = all_stacks(m, ds, n - 1, marker);
    let last = stacks_in(m, ds[n - 1], marker);
    if k == n - 1 {
        assert(last[j] == want);
        assert((before + last)[before.len() + j] == want);
    } else {
        every_domain_is_looked_at(m, ds, n - 1, marker, k, j);
        let i = choose|i: int| 0 <= i < before.len() && before[i] == want;
        assert((before + last)[i] == want);
    }
}

/// The slots of a domain are the words from its slot array on.
pub proof fn slots_are_words(m: MemView, slots_ptr: u32, n: int, s: int)
    requires
        0 <= s < n <= 1024,
        slots_ptr + 4 * s <= u32::MAX,
    ensures
        slots_of(m, slots_ptr, n).len() == n,
        slots_of(m, slots_ptr, n)[s] == word_or_zero(m, (slots_ptr + 4 * s) as u32),
{
}

/// No broken invariant is passed over: the count is zero exactly where every stack is sound, and a
/// stack that is not adds to it what it breaks.
pub proof fn errors_are_counted(s: Seq<TStack>, n: int, i: int)
    requires
        0 <= i < n <= s.len(),
    ensures
        errors_alone(s, n) >= stack_errors(s[i]),
        errors_alone(s, n) == 0 ==> stack_errors(s[i]) == 0,
        (forall|k: int| 0 <= k < n ==> stack_errors(#[trigger] s[k]) == 0) ==> errors_alone(s, n) == 0,
        errors_alone(s, n) == errors_alone(s, n - 1) + stack_errors(s[n - 1]),
    decreases n,
{
    if n > 1 {
        errors_are_counted(
            s,
            n - 1,
            if i < n - 1 {
                i
            } else {
                0
            },
        );
    }
    if forall|k: int| 0 <= k < n ==> stack_errors(#[trigger] s[k]) == 0 {
        assert(stack_errors(s[n - 1]) == 0);
        assert(n == 1 ==> errors_alone(s, 0) == 0);
    }
}

/// The pairs that are reported are those of the compared stacks, the first before the second, whose
/// addresses meet.
pub proof fn overlaps_are_found(s: Seq<TStack>, i: int, j: int)
    ensures
        ({
            let n = if s.len() < 64 {
                s.len() as int
            } else {
                64
            };
            overlap_pairs(s, compared(s) - 1, compared(s) - 1).contains((i, j)) <==> 0 <= i < j < n
                && s[i].norm < s[j].top && s[j].norm < s[i].top
        }),
{
    pairs_up_to(s, compared(s) - 1, compared(s) - 1, i, j);
}

proof fn pairs_up_to(s: Seq<TStack>, a: int, b: int, i: int, j: int)
    requires
        b <= compared(s) - 1,
    ensures
        overlap_pairs(s, a, b).contains((i, j)) <==> 0 <= i < j < compared(s) && (i < a || i == a && j
            <= b) && s[i].norm < s[j].top && s[j].norm < s[i].top,
    decreases a + 1, b,
{
    if a >= 0 {
        if b <= a {
            pairs_up_to(s, a - 1, compared(s) - 1, i, j);
        } else {
            pairs_up_to(s, a, b - 1, i, j);
            let before = overlap_pairs(s, a, b - 1);
            let now = overlap_pairs(s, a, b);
            if before.contains((i, j)) {
                let k = choose|k: int| 0 <= k < before.len() && before[k] == (i, j);
                assert(now[k] == (i, j));
            }
            if now.contains((i, j)) {
                let k = choose|k: int| 0 <= k < now.len() && now[k] == (i, j);
                if k < before.len() {
                    assert(before[k] == (i, j));
                }
            }
            if stacks_overlap(s[a], s[b]) {
                assert(now[before.len() as int] == (a, b));
            }
        }
    }
}

/// The patched entry points that lead to a loud halt.
#[derive(Clone, Copy)]
pub struct LoudSites {
    pub reboot: u32,
    pub power_off: u32,
    pub stop_image: u32,
    pub bus_error: u32,
}

/// Where a loud halt came from.
#[derive(Clone, Copy, PartialEq, Eq, Structural)]
pub enum LoudSite {
    Reboot,
    PowerOffAndReboot,
    StopImage,
    BusErrorThrow,
    Unknown,
}

impl LoudSites {
    /// The site at `pc`.
    pub open spec fn site(self, pc: u32) -> LoudSite {
        if pc == self.reboot {
            LoudSite::Reboot
        } else if pc == self.power_off {
            LoudSite::PowerOffAndReboot
        } else if pc == self.stop_image {
            LoudSite::StopImage
        } else if pc == self.bus_error {
            LoudSite::BusErrorThrow
        } else {
            LoudSite::Unknown
        }
    }

    fn site_at(&self, pc: u32) -> (s: LoudSite)
        ensures
            s == self.site(pc),
    {
        if pc == self.reboot {
            LoudSite::Reboot
        } else if pc == self.power_off {
            LoudSite::PowerOffAndReboot
        } else if pc == self.stop_image {
            LoudSite::StopImage
        } else if pc == self.bus_error {
            LoudSite::BusErrorThrow
        } else {
            LoudSite::Unknown
        }
    }

    /// The patched address behind a loud halt: just before `elr`, or, where that is no known
    /// site but the address before `lr` is one, that.
    pub open spec fn site_pc(self, elr: u32, lr: u32) -> u32 {
        let from_elr = elr.wrapping_sub(4);
        let from_lr = lr.wrapping_sub(4);
        if self.site(from_elr) == LoudSite::Unknown && self.site(from_lr) != LoudSite::Unknown {
            from_lr
        } else {
            from_elr
        }
    }
}

/// The abort-mode state that the data-abort trampolines saved last.
#[derive(Clone, Copy, PartialEq, Eq, Structural)]
pub struct DabtSave {
    pub lr_abt: u32,
    pub sp_abt: u32,
    pub spsr_abt: u32,
}

/// The saved abort-mode state in memory.
pub open spec fn dabt_save(m: MemView) -> DabtSave {
    DabtSave {
        lr_abt: word_or_zero_pa(m, 0x0600_F0A0),
        sp_abt: word_or_zero_pa(m, 0x0600_F0A4),
        spsr_abt: word_or_zero_pa(m, 0x0600_F0A8),
    }
}

fn read_dabt_save(mem: &GuestMem) -> (s: DabtSave)
    requires
        mem.wf(),
    ensures
        s == dabt_save(mem@),
{
    DabtSave {
        lr_abt: rd_pa(mem, DABT_SAVE_PA),
        sp_abt: rd_pa(mem, DABT_SAVE_PA + 4),
        spsr_abt: rd_pa(mem, DABT_SAVE_PA + 8),
    }
}

/// The instruction that a data abort came from: eight bytes before the abort LR, four for
/// Thumb.
pub open spec fn dabt_pc(s: DabtSave) -> u32 {
    if s.spsr_abt & 0x20 != 0 {
        s.lr_abt.wrapping_sub(4)
    } else {
        s.lr_abt.wrapping_sub(8)
    }
}

/// Whether the stack slot `i` words above `sp` may hold a saved frame pointer: a word-aligned
/// address at most 2 KiB further up, at which a code address is saved.
pub open spec fn frame_seed(m: MemView, sp: u32, i: int) -> bool {
    match guest_endian::value_va(m, sp.wrapping_add((4 * i) as u32)) {
        Some(cand) => {
            &&& cand & 3 == 0
            &&& cand > sp && cand <= sp.wrapping_add(0x800)
            &&& guest_endian::value_va(m, cand) matches Some(pc) && pc < 0x0080_0000
        },
        None => false,
    }
}

/// Finds the first plausible saved frame pointer in the 32 words above `sp`: the pointer and
/// the slot it stands in.
pub fn find_frame_seed(mem: &GuestMem, sp: u32) -> (seed: Option<(u32, u32)>)
    requires
        mem.wf(),
    ensures
        match seed {
            Some((fp, slot)) => exists|i: int|
                0 <= i < 32 && #[trigger] frame_seed(mem@, sp, i) && (forall|j: int|
                    0 <= j < i ==> !#[trigger] frame_seed(mem@, sp, j)) && slot
                    == sp.wrapping_add((4 * i) as u32) && guest_endian::value_va(mem@, slot)
                    == Some(fp),
            None => forall|i: int| 0 <= i < 32 ==> !#[trigger] frame_seed(mem@, sp, i),
        },
{
    let mut i: u32 = 0;
    while i < 32
        invariant
            mem.wf(),
            i <= 32,
            forall|j: int| 0 <= j < i ==> !#[trigger] frame_seed(mem@, sp, j),
        decreases 32 - i,
    {
        let slot = sp.wrapping_add(i * 4);
        if let Some(cand) = guest_read_u32_va(mem, slot) {
            if (cand & 3) == 0 && cand > sp && cand <= sp.wrapping_add(0x800) {
                if let Some(pc) = guest_read_u32_va(mem, cand) {
                    if pc < 0x0080_0000 {
                        assert(frame_seed(mem@, sp, i as int));
                        return Some((cand, slot));
                    }
                }
            }
        }
        i = i + 1;
    }
    None
}

/// The banked stack pointer and LR of each mode, in this order.
#[derive(Clone, Copy)]
pub struct BankedPairs {
    pub usr: (u32, u32),
    pub svc: (u32, u32),
    pub abt: (u32, u32),
    pub irq: (u32, u32),
    pub und: (u32, u32),
}

/// The banked pairs in the saved registers.
pub open spec fn banked_pairs(ctx: TrapContext) -> BankedPairs {
    BankedPairs {
        usr: (ctx.x[13] as u32, ctx.x[14] as u32),
        svc: (ctx.x[19] as u32, ctx.x[18] as u32),
        abt: (ctx.x[21] as u32, ctx.x[20] as u32),
        irq: (ctx.x[17] as u32, ctx.x[16] as u32),
        und: (ctx.x[23] as u32, ctx.x[22] as u32),
    }
}

fn read_banked_pairs(ctx: &TrapContext) -> (b: BankedPairs)
    ensures
        b == banked_pairs(*ctx),
{
    BankedPairs {
        usr: (ctx.x[13] as u32, ctx.x[14] as u32),
        svc: (ctx.x[19] as u32, ctx.x[18] as u32),
        abt: (ctx.x[21] as u32, ctx.x[20] as u32),
        irq: (ctx.x[17] as u32, ctx.x[16] as u32),
        und: (ctx.x[23] as u32, ctx.x[22] as u32),
    }
}

/// The guest's R0 to R14 in the saved registers.
pub open spec fn guest_regs(ctx: TrapContext) -> Seq<u32> {
    Seq::new(15, |i: int| ctx.x[i] as u32)
}

fn read_guest_regs(ctx: &TrapContext) -> (r: [u32; 15])
    ensures
        r@ == guest_regs(*ctx),
{
    let mut r: [u32; 15] = [0u32;15];
    let mut i: usize = 0;
    while i < 15
        invariant
            i <= 15,
            forall|k: int| 0 <= k < i ==> r@[k] == ctx.x[k] as u32,
        decreases 15 - i,
    {
        r[i] = ctx.x[i] as u32;
        i = i + 1;
    }
    assert(r@ =~= guest_regs(*ctx));
    r
}

/// Where a loud halt came from: the patched entry just before the return address, or, where that is none
/// of the four, the one just before the caller's link register, if that is.
pub proof fn loud_sites_are_found(s: LoudSites, elr: u32, lr: u32)
    requires
        elr >= 4,
        lr >= 4,
        s.reboot != s.power_off,
        s.reboot != s.stop_image,
        s.reboot != s.bus_error,
        s.power_off != s.stop_image,
        s.power_off != s.bus_error,
        s.stop_image != s.bus_error,
    ensures
        s.site(s.reboot) is Reboot,
        s.site(s.power_off) is PowerOffAndReboot,
        s.site(s.stop_image) is StopImage,
        s.site(s.bus_error) is BusErrorThrow,
        ({
            let a = (elr - 4) as u32;
            let b = (lr - 4) as u32;
            let known_a = a == s.reboot || a == s.power_off || a == s.stop_image || a == s.bus_error;
            let known_b = b == s.reboot || b == s.power_off || b == s.stop_image || b == s.bus_error;
            &&& s.site(a) is Unknown <==> !known_a
            &&& known_a || !known_b ==> s.site_pc(elr, lr) == a
            &&& !known_a && known_b ==> s.site_pc(elr, lr) == b
        }),
{
}

/// The state that the trampolines saved is in the three words from 0x0600_F0A0 on, and the instruction
/// that aborted is eight bytes before the saved link register, or four in Thumb state.
pub proof fn aborts_are_located(m: MemView, s: DabtSave)
    ensures
        dabt_save(m).lr_abt == word_or_zero_pa(m, 0x0600_F0A0),
        dabt_save(m).sp_abt == word_or_zero_pa(m, 0x0600_F0A4),
        dabt_save(m).spsr_abt == word_or_zero_pa(m, 0x0600_F0A8),
        s.spsr_abt & 0x20 == 0 && s.lr_abt >= 8 ==> dabt_pc(s) == s.lr_abt - 8,
        s.spsr_abt & 0x20 != 0 && s.lr_abt >= 4 ==> dabt_pc(s) == s.lr_abt - 4,
{
}

/// A stack word may be a saved frame pointer exactly where it can be read, is word-aligned, lies above
/// the stack pointer and at most 2 KiB above it, and the word that it points at can be read and is an
/// address in the lower 8 MiB.
pub proof fn frame_seeds(m: MemView, sp: u32, i: int)
    requires
        0 <= i < 32,
        sp + 0x800 <= u32::MAX,
    ensures
        ({
            let slot = guest_endian::value_va(m, (sp + 4 * i) as u32);
            let f = slot->0;
            let saved = guest_endian::value_va(m, f);
            frame_seed(m, sp, i) <==> slot is Some && f & 3 == 0 && sp < f && f <= sp + 2048 && saved is Some
                && saved->0 < 0x0080_0000
        }),
{
}

/// The bank of each mode, stack pointer first: user in x13 and x14, and each other mode's stack pointer
/// in the register behind its link register.
pub proof fn banked_registers_are_paired(ctx: TrapContext)
    ensures
        ({
            let b = banked_pairs(ctx);
            &&& b.usr == (ctx.x[13] as u32, ctx.x[14] as u32)
            &&& b.irq == (ctx.x[17] as u32, ctx.x[16] as u32)
            &&& b.svc == (ctx.x[19] as u32, ctx.x[18] as u32)
            &&& b.abt == (ctx.x[21] as u32, ctx.x[20] as u32)
            &&& b.und == (ctx.x[23] as u32, ctx.x[22] as u32)
        }),
        guest_regs(ctx).len() == 15,
        forall|i: int| 0 <= i < 15 ==> #[trigger] guest_regs(ctx)[i] == ctx.x[i] as u32,
{
}

/// What a loud halt reports of a bus error.
pub struct BusErrorReport {
    pub stacks: Result<TStackReport, TStackError>,
    pub save: DabtSave,
    /// The mode that aborted.
    pub pre_mode: u32,
    pub thumb: bool,
    pub faulting_pc: u32,
    pub banked: BankedPairs,
    /// The start of the frame chain: a frame pointer and the slot it was found in.
    pub seed: Option<(u32, u32)>,
}

/// What a loud halt reports.
pub struct LoudHaltReport {
    pub site_pc: u32,
    pub site: LoudSite,
    pub mode: u32,
    /// R0 to R14.
    pub regs: [u32; 15],
    pub caller_lr: u32,
    /// For a bus error.
    pub bus_error: Option<BusErrorReport>,
}

/// Decides where a loud halt came from and collects what it reports. `far` is the address of
/// the last fault; R1 holds the stack pointer of a bus error.
pub fn handle_loud_halt(
    ctx: &TrapContext,
    mem: &GuestMem,
    sites: LoudSites,
    spsr_el2: u32,
    elr_el2: u32,
    far: u32,
) -> (r: LoudHaltReport)
    requires
        mem.wf(),
    ensures
        r.mode == spsr_el2 & 0x1F,
        r.regs@ == guest_regs(*ctx),
        r.caller_lr == ctx.x[banked::lr_slot(spsr_el2)] as u32,
        r.site_pc == sites.site_pc(elr_el2, r.caller_lr),
        r.site == sites.site(r.site_pc),
        r.bus_error is Some <==> r.site_pc == sites.bus_error,
        match r.bus_error {
            Some(b) => {
                &&& b.save == dabt_save(mem@)
                &&& b.pre_mode == b.save.spsr_abt & 0x1F
                &&& b.thumb == (b.save.spsr_abt & 0x20 != 0)
                &&& b.faulting_pc == dabt_pc(b.save)
                &&& b.banked == banked_pairs(*ctx)
                &&& match b.seed {
                    Some((fp, slot)) => exists|i: int|
                        0 <= i < 32 && #[trigger] frame_seed(mem@, ctx.x[1] as u32, i) && (forall|
                            j: int,
                        |
                            0 <= j < i ==> !#[trigger] frame_seed(mem@, ctx.x[1] as u32, j))
                            && slot == (ctx.x[1] as u32).wrapping_add((4 * i) as u32)
                            && guest_endian::value_va(mem@, slot) == Some(fp),
                    None => forall|i: int|
                        0 <= i < 32 ==> !#[trigger] frame_seed(mem@, ctx.x[1] as u32, i),
                }
                &&& stacks_reported(mem@, far, b.stacks)
            },
            None => true,
        },
{
    let mode = spsr_el2 & 0x1F;
    let caller_lr = lr_for_mode(ctx, spsr_el2);
    let from_elr = elr_el2.wrapping_sub(4);
    let from_lr = caller_lr.wrapping_sub(4);
    let elr_site = sites.site_at(from_elr);
    let lr_site = sites.site_at(from_lr);
    let (site_pc, site) = if elr_site == LoudSite::Unknown && lr_site != LoudSite::Unknown {
        (from_lr, lr_site)
    } else {
        (from_elr, elr_site)
    };
    let mut bus_error: Option<BusErrorReport> = None;
    if site_pc == sites.bus_error {
        let stacks = dump_tstacks_and_check_invariants(mem, far);
        let save = read_dabt_save(mem);
        let thumb = (save.spsr_abt & 0x20) != 0;
        let faulting_pc = if thumb {
            save.lr_abt.wrapping_sub(4)
        } else {
            save.lr_abt.wrapping_sub(8)
        };
        let seed = find_frame_seed(mem, ctx.x[1] as u32);
        bus_error = Some(
            BusErrorReport {
                stacks,
                save,
                pre_mode: save.spsr_abt & 0x1F,
                thumb,
                faulting_pc,
                banked: read_banked_pairs(ctx),
                seed,
            },
        );
    }
    LoudHaltReport { site_pc, site, mode, regs: read_guest_regs(ctx), caller_lr, bus_error }
}

/// Whether `r` is the report on the kernel's stacks with marked address `far`.
pub open spec fn stacks_reported(m: MemView, far: u32, r: Result<TStackReport, TStackError>) -> bool {
    let manager = word_or_zero(m, 0x0C10_4C0C);
    let container = manager.wrapping_add(DOMAIN_QUEUE);
    let head = word_or_zero(m, container);
    let offset = word_or_zero(m, container.wrapping_add(8));
    let first = if head == 0 {
        0
    } else {
        head.wrapping_sub(offset)
    };
    match r {
        Err(TStackError::BadManager(t)) => t == manager && !heap_shaped(manager),
        Err(TStackError::BadItemOffset(o)) => heap_shaped(manager) && o == offset && o > 0x100,
        Ok(rep) => {
            let ds = domains_from(m, first, offset, 16);
            let stacks = all_stacks(m, ds, ds.len() as int, far);
            let pairs = overlap_pairs(stacks, compared(stacks) - 1, compared(stacks) - 1);
            &&& heap_shaped(manager) && offset <= 0x100
            &&& rep.manager == manager
            &&& rep.container == container
            &&& rep.head_item == head
            &&& rep.item_offset == offset
            &&& rep.domains@ == ds
            &&& rep.stray == stray_from(m, first, offset, 16)
            &&& rep.stacks@ == stacks
            &&& rep.overlaps@.len() == pairs.len()
            &&& forall|k: int|
                0 <= k < pairs.len() ==> (#[trigger] rep.overlaps@[k]).0 == pairs[k].0
                    && rep.overlaps@[k].1 == pairs[k].1
            &&& rep.errors == errors_alone(stacks, stacks.len() as int) + pairs.len()
        },
    }
}

/// The bytes of the C string at `va`: up to a zero byte, an unreadable byte, or `cap` bytes.
pub open spec fn cstr_at(m: MemView, va: u32, cap: nat) -> Seq<u8>
    decreases cap,
{
    if cap == 0 {
        Seq::empty()
    } else {
        match guest_endian::byte_pa(m, m.effective(va)) {
            Some(b) => if b == 0 {
                Seq::empty()
            } else {
                seq![b] + cstr_at(m, va.wrapping_add(1), (cap - 1) as nat)
            },
            None => Seq::empty(),
        }
    }
}

/// A string is the bytes from its address on, none of them zero, up to the first that is zero or cannot
/// be read, or as many as asked for.
pub proof fn strings_end_at_zero(m: MemView, va: u32, cap: nat, i: int)
    requires
        va + cap <= u32::MAX,
    ensures
        ({
            let s = cstr_at(m, va, cap);
            &&& s.len() <= cap
            &&& 0 <= i < s.len() ==> s[i] != 0 && guest_endian::byte_pa(
                m,
                m.effective((va + i) as u32),
            ) == Some(s[i])
            &&& s.len() < cap ==> {
                let end = guest_endian::byte_pa(m, m.effective((va + s.len()) as u32));
                end is None || end == Some(0u8)
            }
        }),
    decreases cap,
{
    if cap > 0 {
        let b = guest_endian::byte_pa(m, m.effective(va));
        if b is Some && b->0 != 0 {
            strings_end_at_zero(m, (va + 1) as u32, (cap - 1) as nat, i - 1);
            let rest = cstr_at(m, (va + 1) as u32, (cap - 1) as nat);
            assert(cstr_at(m, va, cap) == seq![b->0] + rest);
            if 0 < i < cstr_at(m, va, cap).len() {
                assert(cstr_at(m, va, cap)[i] == rest[i - 1]);
            }
        }
    }
}

/// Reads the C string at `va`, at most `cap` bytes of it.
pub fn read_cstr_at(mem: &GuestMem, va: u32, cap: usize) -> (s: Vec<u8>)
    requires
        mem.wf(),
    ensures
        s@ == cstr_at(mem@, va, cap as nat),
        s@.len() <= cap,
{
    let ghost whole = cstr_at(mem@, va, cap as nat);
    let mut s: Vec<u8> = Vec::new();
    let mut at: u32 = va;
    let mut left: usize = cap;
    assert(s@ + whole =~= whole);
    while left > 0
        invariant
            mem.wf(),
            s@.len() + left == cap,
            whole == cstr_at(mem@, va, cap as nat),
            s@ + cstr_at(mem@, at, left as nat) == whole,
        decreases left,
    {
        match guest_read_u8_va(mem, at) {
            Some(b) => {
                if b == 0 {
                    assert(s@ + Seq::<u8>::empty() =~= s@);
                    return s;
                }
                proof {
                    let rest = cstr_at(mem@, at.wrapping_add(1), (left - 1) as nat);
                    assert(s@ + (seq![b] + rest) =~= s@.push(b) + rest);
                }
                s.push(b);
                at = at.wrapping_add(1);
                left = left - 1;
            },
            None => {
                assert(s@ + Seq::<u8>::empty() =~= s@);
                return s;
            },
        }
    }
    assert(s@ + Seq::<u8>::empty() =~= s@);
    s
}

/// What an unhandled exception of the kernel reports.
pub struct UnhandledReport {
    pub label: &'static str,
    /// R0 to R3.
    pub args: [u32; 4],
    /// The exception's name.
    pub name: Vec<u8>,
    /// The mode that raised it, by the saved program status.
    pub mode: u32,
    pub caller_lr: u32,
    pub sp: u32,
    /// The first words of the exception's data.
    pub data: [Option<u32>; 8],
}

/// Collects what an unhandled exception reports. The kernel passes the name in R0 and the
/// data in R1; the mode it came from is in the program status that the undefined-instruction
/// trampoline saved.
pub fn handle_unhandled_exception(ctx: &TrapContext, mem: &GuestMem, non_user: bool) -> (r:
    UnhandledReport)
    requires
        mem.wf(),
    ensures
        r.label@ == (if non_user {
            "UnhandledNonUserModeException"@
        } else {
            "UnhandledException"@
        }),
        forall|i: int| 0 <= i < 4 ==> #[trigger] r.args[i] == ctx.x[i] as u32,
        r.name@ == cstr_at(mem@, ctx.x[0] as u32, 128),
        ({
            let spsr = word_or_zero_pa(mem@, 0x0600_F004);
            &&& r.mode == spsr & 0x1F
            &&& r.caller_lr == ctx.x[banked::lr_slot(spsr)] as u32
            &&& r.sp == ctx.x[banked::sp_slot(spsr)] as u32
        }),
        forall|i: int|
            0 <= i < 8 ==> #[trigger] r.data[i] == guest_endian::value_va(
                mem@,
                (ctx.x[1] as u32).wrapping_add((4 * i) as u32),
            ),
{
    let args: [u32; 4] = [ctx.x[0] as u32, ctx.x[1] as u32, ctx.x[2] as u32, ctx.x[3] as u32];
    let spsr = rd_pa(mem, HYP_TRAMP_SCRATCH_BASE + 4);
    let name = read_cstr_at(mem, args[0], 128);
    let mut data: [Option<u32>; 8] = [None;8];
    let mut i: usize = 0;
    while i < 8
        invariant
            mem.wf(),
            i <= 8,
            args[1] == ctx.x[1] as u32,
            forall|k: int|
                0 <= k < i ==> #[trigger] data[k] == guest_endian::value_va(
                    mem@,
                    (ctx.x[1] as u32).wrapping_add((4 * k) as u32),
                ),
        decreases 8 - i,
    {
        data[i] = guest_read_u32_va(mem, args[1].wrapping_add((i * 4) as u32));
        i = i + 1;
    }
    UnhandledReport {
        label: if non_user {
            "UnhandledNonUserModeException"
        } else {
            "UnhandledException"
        },
        args,
        name,
        mode: spsr & 0x1F,
        caller_lr: lr_for_mode(ctx, spsr),
        sp: sp_for_mode(ctx, spsr),
        data,
    }
}

/// The system registers that the diagnostic halt reads.
#[derive(Clone, Copy)]
pub struct DiagRegs {
    pub far: u32,
    pub spsr_el2: u32,
    pub spsr_abt: u32,
    pub spsr_und: u32,
    pub esr_el2: u64,
    pub esr_el1: u64,
    pub sctlr_el1: u64,
}

/// A syndrome register, taken apart.
#[derive(Clone, Copy, PartialEq, Eq, Structural)]
pub struct Syndrome {
    /// Exception class.
    pub ec: u64,
    /// The class's own bits.
    pub iss: u64,
    /// For a data abort, its fault status.
    pub dfsc: u64,
}

/// The fields of the syndrome `esr`.
pub open spec fn syndrome(esr: u64) -> Syndrome {
    Syndrome { ec: (esr >> 26) & 0x3F, iss: esr & 0x01FF_FFFF, dfsc: esr & 0x3F }
}

fn read_syndrome(esr: u64) -> (s: Syndrome)
    ensures
        s == syndrome(esr),
{
    Syndrome { ec: (esr >> 26) & 0x3F, iss: esr & 0x01FF_FFFF, dfsc: esr & 0x3F }
}

/// The guest's memory controls.
#[derive(Clone, Copy, PartialEq, Eq, Structural)]
pub struct Controls {
    pub mmu: bool,
    pub data_cache: bool,
    pub insn_cache: bool,
    pub high_vectors: bool,
}

/// The memory controls in SCTLR_EL1.
pub open spec fn controls(sctlr: u64) -> Controls {
    Controls {
        mmu: sctlr & 1 != 0,
        data_cache: (sctlr >> 2) & 1 != 0,
        insn_cache: (sctlr >> 12) & 1 != 0,
        high_vectors: (sctlr >> 13) & 1 != 0,
    }
}

fn read_controls(sctlr: u64) -> (c: Controls)
    ensures
        c == controls(sctlr),
{
    Controls {
        mmu: (sctlr & 1) != 0,
        data_cache: ((sctlr >> 2) & 1) != 0,
        insn_cache: ((sctlr >> 12) & 1) != 0,
        high_vectors: ((sctlr >> 13) & 1) != 0,
    }
}

/// What the diagnostic halt reports.
pub struct DiagReport {
    /// The mode that made the call.
    pub src_mode: u32,
    /// The syndrome of the trap, and that of the guest's own last fault.
    pub trap: Syndrome,
    pub fault: Syndrome,
    pub controls: Controls,
    pub banked: BankedPairs,
    /// R0 to R14.
    pub regs: [u32; 15],
    /// The mode before the fault.
    pub pre_mode: u32,
    pub pre_sp: u32,
    pub pre_lr: u32,
    pub thumb: bool,
    pub faulting_pc: u32,
    pub insn: u32,
    pub save: DabtSave,
    /// The walks of the faulting address and of the addresses that matter at boot.
    pub walks: Vec<Stage1Walk>,
    /// The return address of the function that runs in supervisor mode.
    pub caller: u32,
    /// Likely return addresses on the supervisor stack, each with the call before it.
    pub trace: Vec<(u32, u32)>,
}

/// The saved program status of the mode that faulted, and the LR that holds its PC.
pub open spec fn fault_source(ctx: TrapContext, regs: DiagRegs) -> (u32, u32) {
    let mode = regs.spsr_el2 & 0x1F;
    if mode == banked::MODE_UND {
        (regs.spsr_und, ctx.x[22] as u32)
    } else if mode == banked::MODE_ABT {
        (regs.spsr_abt, ctx.x[20] as u32)
    } else {
        (regs.spsr_el2, ctx.x[14] as u32)
    }
}

/// The instruction that a prefetch abort came from: four bytes before the LR, two for Thumb.
pub open spec fn pabt_pc(lr: u32, thumb: bool) -> u32 {
    if thumb {
        lr.wrapping_sub(2) & !1u32
    } else {
        lr.wrapping_sub(4)
    }
}

/// The addresses whose walks the diagnostic halt shows.
pub open spec fn boot_addresses() -> Seq<u32> {
    seq![
        0x0400_4400u32,
        0x0C00_4C00,
        0x0100_0000,
        0x0400_0000,
        0x0080_0000,
        0x02A0_0000,
        0x02A0_4000,
        0x02A0_4AA4,
        0x00FF_FF00,
        0x0008_EA8C,
        0x0008_EB00,
        0x0008_EB08,
        0x0100_018B,
        0x0100_0180,
        0x0100_0190,
        0x0100_0193,
        0x01A0_0000,
        0x01A0_0004,
        0x0C10_0000,
        0x0C10_0800,
        0x0C10_4000,
    ]
}

/// Whether `w` calls a function: BL, or BLX with an immediate.
pub open spec fn is_call(w: u32) -> bool {
    (w >> 24) & 0xF == 0xB || (w >> 25) & 0x7F == 0x7D
}

/// The likely return address in the stack word at `va`, with the instruction before it: a
/// word-aligned ROM address behind a call.
pub open spec fn return_at(m: MemView, va: u32) -> Option<(u32, u32)> {
    match m.translate(va) {
        None => None,
        Some(pa) => match guest_endian::value_pa(m, pa) {
            None => None,
            Some(w) => {
                let tgt = w & !1u32;
                if tgt == 0 || tgt >= 0x0100_0000 || tgt & 3 != 0 {
                    None
                } else {
                    match guest_endian::value_pa(m, tgt.wrapping_sub(4)) {
                        Some(prev) => if is_call(prev) {
                            Some((tgt, prev))
                        } else {
                            None
                        },
                        None => None,
                    }
                }
            },
        },
    }
}

/// The likely return addresses in the first `n` words above `sp`, six at most.
pub open spec fn trace_of(m: MemView, sp: u32, n: int) -> Seq<(u32, u32)>
    decreases n,
{
    if n <= 0 {
        Seq::empty()
    } else {
        let before = trace_of(m, sp, n - 1);
        match return_at(m, sp.wrapping_add((4 * (n - 1)) as u32)) {
            Some(hit) => if before.len() < 6 {
                before.push(hit)
            } else {
                before
            },
            None => before,
        }
    }
}

proof fn full_trace_stays(m: MemView, sp: u32, k: int, n: int)
    requires
        k <= n,
        trace_of(m, sp, k).len() >= 6,
    ensures
        trace_of(m, sp, n) == trace_of(m, sp, k),
    decreases n - k,
{
    if k < n {
        full_trace_stays(m, sp, k, n - 1);
    }
}

proof fn syndrome_bits(x: u64)
    by (bit_vector)
    ensures
        (x >> 26) & 0x3F == (x / 0x400_0000) % 64,
        x & 0x01FF_FFFF == x % 0x200_0000,
        x & 0x3F == x % 64,
        x & 1 == x % 2,
        (x >> 2) & 1 == (x / 4) % 2,
        (x >> 12) & 1 == (x / 0x1000) % 2,
        (x >> 13) & 1 == (x / 0x2000) % 2,
{
}

proof fn word_bits(w: u32)
    by (bit_vector)
    ensures
        w & !1u32 == w / 2 * 2,
        w & 3 == w % 4,
        w & 0x1F == w % 32,
        (w >> 24) & 0xF == (w / 0x100_0000) % 16,
        (w >> 25) & 0x7F == w / 0x200_0000,
{
}

/// The fields of a syndrome and of the memory controls, by their places: the class in bits 26 to 31, its
/// own bits below 25 and the fault status below 6; translation in bit 0, the data cache in bit 2, the
/// instruction cache in bit 12, high vectors in bit 13.
pub proof fn fields_by_place(x: u64)
    ensures
        syndrome(x).ec == x as int / 0x400_0000 % 64,
        syndrome(x).iss == x as int % 0x200_0000,
        syndrome(x).dfsc == x as int % 64,
        controls(x).mmu <==> x as int % 2 == 1,
        controls(x).data_cache <==> x as int / 4 % 2 == 1,
        controls(x).insn_cache <==> x as int / 0x1000 % 2 == 1,
        controls(x).high_vectors <==> x as int / 0x2000 % 2 == 1,
{
    syndrome_bits(x);
}

/// Where a fault came from: in undefined and in abort mode that mode's saved status and link register, and
/// otherwise the trap's own status and the user's link register; the instruction is four bytes before
/// that link register, or in Thumb state two bytes, without the lowest bit.
pub proof fn faults_are_located(ctx: TrapContext, regs: DiagRegs, lr: u32)
    ensures
        regs.spsr_el2 as int % 32 == 0x1B ==> fault_source(ctx, regs) == (
            regs.spsr_und,
            ctx.x[22] as u32,
        ),
        regs.spsr_el2 as int % 32 == 0x17 ==> fault_source(ctx, regs) == (
            regs.spsr_abt,
            ctx.x[20] as u32,
        ),
        regs.spsr_el2 as int % 32 != 0x1B && regs.spsr_el2 as int % 32 != 0x17 ==> fault_source(ctx, regs)
            == (regs.spsr_el2, ctx.x[14] as u32),
        lr >= 4 ==> pabt_pc(lr, false) == lr - 4,
        lr >= 2 ==> pabt_pc(lr, true) == (lr - 2) / 2 * 2,
{
    word_bits(regs.spsr_el2);
    word_bits(lr.wrapping_sub(2));
}

/// A stack word is a likely return address exactly where it is mapped and can be read, its value without
/// the lowest bit is a word of the ROM other than the first, and the word before that one is a call:
/// `bl`, or `blx` with an offset.
pub proof fn return_addresses(m: MemView, va: u32)
    ensures
        ({
            let pa = m.translate(va);
            let w = guest_endian::value_pa(m, pa->0);
            let t = w->0 as int / 2 * 2;
            let prev = guest_endian::value_pa(m, (t - 4) as u32);
            let call = prev->0 as int / 0x100_0000 % 16 == 0xB || prev->0 as int / 0x200_0000 == 0x7D;
            let likely = pa is Some && w is Some && 0 < t < 0x0100_0000 && t % 4 == 0 && prev is Some
                && call;
            &&& likely ==> return_at(m, va) == Some((t as u32, prev->0))
            &&& !likely ==> return_at(m, va) is None
        }),
{
    if let Some(pa) = m.translate(va) {
        if let Some(w) = guest_endian::value_pa(m, pa) {
            word_bits(w);
            let t = w & !1u32;
            word_bits(t);
            assert(t == w as int / 2 * 2);
            if 0 < t < 0x0100_0000 && t % 4 == 0 {
                assert(t.wrapping_sub(4) == t - 4);
                if let Some(prev) = guest_endian::value_pa(m, (t - 4) as u32) {
                    word_bits(prev);
                }
            }
        }
    }
}

/// The trace has the first six likely return addresses of the stack words, in their order, or all of them
/// where there are fewer: each entry is one of the words', and a word's is missing only behind six.
pub proof fn trace_has_the_first_returns(m: MemView, sp: u32, n: int, k: int)
    requires
        0 <= k < n <= 64,
        return_at(m, sp.wrapping_add((4 * k) as u32)) is Some,
    ensures
        trace_of(m, sp, n).len() <= 6,
        trace_of(m, sp, n).contains(return_at(m, sp.wrapping_add((4 * k) as u32))->0) || trace_of(
            m,
            sp,
            k,
        ).len() == 6,
        trace_of(m, sp, k).len() < 6 ==> trace_of(m, sp, n).len() > trace_of(m, sp, k).len() && trace_of(
            m,
            sp,
            n,
        )[trace_of(m, sp, k).len() as int] == return_at(m, sp.wrapping_add((4 * k) as u32))->0,
    decreases n,
{
    trace_is_short(m, sp, n);
    trace_is_short(m, sp, k);
    let hit = return_at(m, sp.wrapping_add((4 * k) as u32))->0;
    let here = trace_of(m, sp, k).len() as int;
    let now = trace_of(m, sp, n);
    if n == k + 1 {
        if here < 6 {
            assert(now == trace_of(m, sp, k).push(hit));
            assert(now[here] == hit);
        }
    } else {
        trace_has_the_first_returns(m, sp, n - 1, k);
        let before = trace_of(m, sp, n - 1);
        if here < 6 {
            assert(before[here] == hit);
            assert(now[here] == hit);
        }
    }
}

proof fn trace_is_short(m: MemView, sp: u32, n: int)
    ensures
        trace_of(m, sp, n).len() <= 6,
    decreases n,
{
    if n > 0 {
        trace_is_short(m, sp, n - 1);
    }
}

/// The trace holds likely return addresses of the stack words only.
pub proof fn trace_holds_returns_only(m: MemView, sp: u32, n: int, j: int)
    requires
        0 <= n <= 64,
        0 <= j < trace_of(m, sp, n).len(),
    ensures
        exists|k: int|
            0 <= k < n && #[trigger] return_at(m, sp.wrapping_add((4 * k) as u32)) == Some(
                trace_of(m, sp, n)[j],
            ),
    decreases n,
{
    if n > 0 {
        let before = trace_of(m, sp, n - 1);
        let now = trace_of(m, sp, n);
        if j < before.len() {
            trace_holds_returns_only(m, sp, n - 1, j);
            assert(now[j] == before[j]);
            let k = choose|k: int|
                0 <= k < n - 1 && #[trigger] return_at(m, sp.wrapping_add((4 * k) as u32)) == Some(
                    before[j],
                );
            assert(return_at(m, sp.wrapping_add((4 * k) as u32)) == Some(now[j]));
        } else {
            assert(return_at(m, sp.wrapping_add((4 * (n - 1)) as u32)) == Some(now[j]));
        }
    }
}

fn return_in(mem: &GuestMem, va: u32) -> (hit: Option<(u32, u32)>)
    requires
        mem.wf(),
    ensures
        hit == return_at(mem@, va),
{
    let pa = match translate_va(mem, va) {
        Some(pa) => pa,
        None => {
            return None;
        },
    };
    let w = match guest_read_u32_pa(mem, pa) {
        Some(w) => w,
        None => {
            return None;
        },
    };
    let tgt = w & !1u32;
    if tgt == 0 || tgt >= 0x0100_0000 {
        return None;
    }
    if tgt & 3 != 0 {
        return None;
    }
    match guest_read_u32_pa(mem, tgt.wrapping_sub(4)) {
        Some(prev) => {
            if ((prev >> 24) & 0xF) == 0xB || ((prev >> 25) & 0x7F) == 0x7D {
                Some((tgt, prev))
            } else {
                None
            }
        },
        None => None,
    }
}

/// Collects what the diagnostic halt reports: the state before the fault, the instruction, the
/// walks, and a symbolic trace of the supervisor stack.
pub fn handle_diag(ctx: &TrapContext, mem: &GuestMem, regs: DiagRegs) -> (r: DiagReport)
    requires
        mem.wf(),
    ensures
        ({
            let (spsr, lr) = fault_source(*ctx, regs);
            let thumb = spsr & 0x20 != 0;
            &&& r.src_mode == regs.spsr_el2 & 0x1F
            &&& r.pre_mode == spsr & 0x1F
            &&& r.pre_lr == ctx.x[banked::lr_slot(spsr)] as u32
            &&& r.pre_sp == ctx.x[banked::sp_slot(spsr)] as u32
            &&& r.thumb == thumb
            &&& r.faulting_pc == pabt_pc(lr, thumb)
            &&& r.insn == (match guest_endian::value_pa(mem@, pabt_pc(lr, thumb) & !3u32) {
                Some(w) => w,
                None => 0xDEAD_BEEF,
            })
        }),
        r.trap == syndrome(regs.esr_el2),
        r.fault == syndrome(regs.esr_el1),
        r.controls == controls(regs.sctlr_el1),
        r.banked == banked_pairs(*ctx),
        r.regs@ == guest_regs(*ctx),
        r.save == dabt_save(mem@),
        r.walks@.len() == 22,
        r.walks@[0] == stage1::walk(mem@, regs.far),
        forall|k: int|
            0 <= k < 21 ==> #[trigger] r.walks@[k + 1] == stage1::walk(mem@, boot_addresses()[k]),
        r.caller == (ctx.x[18] as u32) & !1u32,
        r.trace@ == trace_of(mem@, ctx.x[19] as u32, 64),
{
    let src_mode = regs.spsr_el2 & 0x1F;
    let (spsr_src, lr_src) = if src_mode == banked::MODE_UND {
        (regs.spsr_und, ctx.x[22] as u32)
    } else if src_mode == banked::MODE_ABT {
        (regs.spsr_abt, ctx.x[20] as u32)
    } else {
        (regs.spsr_el2, ctx.x[14] as u32)
    };
    let pre_lr = lr_for_mode(ctx, spsr_src);
    let pre_sp = sp_for_mode(ctx, spsr_src);
    let thumb = (spsr_src & 0x20) != 0;
    let faulting_pc = if thumb {
        lr_src.wrapping_sub(2) & !1u32
    } else {
        lr_src.wrapping_sub(4)
    };
    let insn = match guest_read_u32_pa(mem, faulting_pc & !3u32) {
        Some(w) => w,
        None => 0xDEAD_BEEF,
    };
    let save = read_dabt_save(mem);
    let addresses: [u32; 21] = [
        0x0400_4400,
        0x0C00_4C00,
        0x0100_0000,
        0x0400_0000,
        0x0080_0000,
        0x02A0_0000,
        0x02A0_4000,
        0x02A0_4AA4,
        0x00FF_FF00,
        0x0008_EA8C,
        0x0008_EB00,
        0x0008_EB08,
        0x0100_018B,
        0x0100_0180,
        0x0100_0190,
        0x0100_0193,
        0x01A0_0000,
        0x01A0_0004,
        0x0C10_0000,
        0x0C10_0800,
        0x0C10_4000,
    ];
    assert(addresses@ =~= boot_addresses());
    let mut walks: Vec<Stage1Walk> = Vec::new();
    walks.push(dump_stage1_walk(mem, regs.far));
    let mut k: usize = 0;
    while k < 21
        invariant
            mem.wf(),
            k <= 21,
            addresses@ == boot_addresses(),
            walks@.len() == k + 1,
            walks@[0] == stage1::walk(mem@, regs.far),
            forall|j: int|
                0 <= j < k ==> #[trigger] walks@[j + 1] == stage1::walk(
                    mem@,
                    boot_addresses()[j],
                ),
        decreases 21 - k,
    {
        walks.push(dump_stage1_walk(mem, addresses[k]));
        k = k + 1;
    }
    let sp_svc = ctx.x[19] as u32;
    let mut trace: Vec<(u32, u32)> = Vec::new();
    let mut i: u32 = 0;
    while i < 64 && trace.len() < 6
        invariant
            mem.wf(),
            i <= 64,
            trace@ == trace_of(mem@, sp_svc, i as int),
            trace@.len() <= 6,
        decreases 64 - i,
    {
        if let Some(hit) = return_in(mem, sp_svc.wrapping_add(i * 4)) {
            trace.push(hit);
        }
        i = i + 1;
    }
    proof {
        if trace@.len() >= 6 {
            full_trace_stays(mem@, sp_svc, i as int, 64);
        }
    }
    DiagReport {
        src_mode,
        trap: read_syndrome(regs.esr_el2),
        fault: read_syndrome(regs.esr_el1),
        controls: read_controls(regs.sctlr_el1),
        banked: read_banked_pairs(ctx),
        regs: read_guest_regs(ctx),
        pre_mode: spsr_src & 0x1F,
        pre_sp,
        pre_lr,
        thumb,
        faulting_pc,
        insn,
        save,
        walks,
        caller: (ctx.x[18] as u32) & !1u32,
        trace,
    }
}

} // verus!
