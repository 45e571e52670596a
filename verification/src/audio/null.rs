//! The audio backend without a host device. The guest's kernel waits for a completion
//! interrupt after each buffer, so this backend owes it one edge per buffer and delivers
//! each when the buffer would have finished playing.

use vstd::prelude::*;

verus! {

/// Samples per second of the guest's output, one channel of 16 bits.
pub const NEWTON_RATE_HZ: u64 = 22_050;

/// The state of the backend.
#[derive(Clone, Copy, PartialEq, Eq, Structural)]
pub struct NullAudio {
    /// The interrupt bits that a completion raises; zero until the kernel installs them.
    pub output_int_mask: u32,
    pub output_running: bool,
    /// Completion edges owed to the kernel.
    pub pending_edges: u32,
    /// When the next owed edge fires; meaningful while one is owed.
    pub next_deadline: u64,
    /// Counter ticks that the buffer scheduled last plays for.
    pub last_duration_ticks: u64,
    /// The volume set last; zero, the largest, before.
    pub output_volume: u32,
}

/// The ticks that `samples` samples play for, at `freq` ticks a second. The product
/// saturates.
pub open spec fn playing_ticks(samples: u64, freq: u64) -> u64 {
    ((if samples * freq > u64::MAX {
        u64::MAX as int
    } else {
        samples * freq
    }) / 22_050) as u64
}

/// The backend once one more edge is owed: at once the next one, if none was owed before,
/// and behind the others otherwise.
pub open spec fn armed(a: NullAudio, samples: u64, now: u64, freq: u64) -> NullAudio {
    NullAudio {
        last_duration_ticks: playing_ticks(samples, freq),
        pending_edges: a.pending_edges.wrapping_add(1),
        next_deadline: if a.pending_edges == 0 {
            now.wrapping_add(playing_ticks(samples, freq))
        } else {
            a.next_deadline
        },
        ..a
    }
}

/// The backend after a stop: not running, nothing owed.
pub open spec fn stopped(a: NullAudio) -> NullAudio {
    NullAudio { output_running: false, pending_edges: 0, ..a }
}

/// The backend after a buffer of `bytes` bytes.
pub open spec fn scheduled(a: NullAudio, bytes: u32, now: u64, freq: u64) -> NullAudio {
    if bytes == 0 {
        stopped(a)
    } else if a.output_running {
        armed(a, (bytes / 2) as u64, now, freq)
    } else {
        a
    }
}

/// Whether a tick at `now` delivers an edge.
pub open spec fn edge_due(a: NullAudio, now: u64) -> bool {
    a.pending_edges > 0 && now >= a.next_deadline
}

/// The backend after a tick at `now`.
pub open spec fn ticked(a: NullAudio, now: u64) -> NullAudio {
    if !edge_due(a, now) {
        a
    } else if a.pending_edges > 1 {
        NullAudio {
            pending_edges: (a.pending_edges - 1) as u32,
            next_deadline: now.wrapping_add(a.last_duration_ticks),
            ..a
        }
    } else {
        NullAudio { pending_edges: 0, ..a }
    }
}

/// What a tick at `now` raises.
pub open spec fn raise_at(a: NullAudio, now: u64) -> Option<u32> {
    if edge_due(a, now) && a.output_int_mask != 0 {
        Some(a.output_int_mask)
    } else {
        None
    }
}

/// What happens to the backend.
pub enum Event {
    Start { now: u64, freq: u64 },
    Buffer { bytes: u32, now: u64, freq: u64 },
    Stop,
    Tick { now: u64 },
}

/// The backend after an event.
pub open spec fn step(a: NullAudio, e: Event) -> NullAudio {
    match e {
        Event::Start { now, freq } => armed(
            NullAudio { output_running: true, ..a },
            0,
            now,
            freq,
        ),
        Event::Buffer { bytes, now, freq } => scheduled(a, bytes, now, freq),
        Event::Stop => stopped(a),
        Event::Tick { now } => ticked(a, now),
    }
}

/// The backend after the events, in order.
pub open spec fn after(a: NullAudio, events: Seq<Event>) -> NullAudio
    decreases events.len(),
{
    if events.len() == 0 {
        a
    } else {
        step(after(a, events.drop_last()), events.last())
    }
}

/// The interrupts that an event raises.
pub open spec fn raised_by(a: NullAudio, e: Event) -> nat {
    match e {
        Event::Tick { now } => if raise_at(a, now) is Some {
            1
        } else {
            0
        },
        _ => 0,
    }
}

/// The interrupts that the events raise.
pub open spec fn raised(a: NullAudio, events: Seq<Event>) -> nat
    decreases events.len(),
{
    if events.len() == 0 {
        0
    } else {
        raised(a, events.drop_last()) + raised_by(after(a, events.drop_last()), events.last())
    }
}

/// Whether an event ends the output.
pub open spec fn ends(e: Event) -> bool {
    match e {
        Event::Buffer { bytes, .. } => bytes == 0,
        Event::Stop => true,
        _ => false,
    }
}

/// The edges that the events come to owe: one for each start and each buffer.
pub open spec fn owed(events: Seq<Event>) -> nat
    decreases events.len(),
{
    if events.len() == 0 {
        0
    } else {
        owed(events.drop_last()) + (if events.last() is Tick {
            0nat
        } else {
            1nat
        })
    }
}

/// No edge is lost and none is made up while the output runs: however ticks, buffers and starts
/// follow one another, what was owed and what they came to owe is what has been raised and what
/// is still owed.
pub proof fn edges_are_conserved(a: NullAudio, events: Seq<Event>)
    requires
        a.output_int_mask != 0,
        a.output_running,
        a.pending_edges + events.len() <= u32::MAX,
        forall|i: int| 0 <= i < events.len() ==> !ends(#[trigger] events[i]),
    ensures
        a.pending_edges + owed(events) == raised(a, events) + after(a, events).pending_edges,
        after(a, events).output_running,
        after(a, events).output_int_mask == a.output_int_mask,
        owed(events) <= events.len(),
    decreases events.len(),
{
    if events.len() > 0 {
        edges_are_conserved(a, events.drop_last());
        assert(!ends(events[events.len() - 1]));
    }
}

/// After a stop nothing is raised, whatever buffers and ticks follow, until the next start.
pub proof fn nothing_is_raised_after_a_stop(a: NullAudio, events: Seq<Event>)
    requires
        forall|i: int| 0 <= i < events.len() ==> !(#[trigger] events[i] is Start),
    ensures
        raised(stopped(a), events) == 0,
        after(stopped(a), events) == stopped(a),
    decreases events.len(),
{
    if events.len() > 0 {
        nothing_is_raised_after_a_stop(a, events.drop_last());
        assert(!(events[events.len() - 1] is Start));
    }
}

/// An empty buffer stops as a stop does.
pub proof fn empty_buffer_stops(a: NullAudio, now: u64, freq: u64)
    ensures
        step(a, Event::Buffer { bytes: 0, now, freq }) == step(a, Event::Stop),
{
}

/// A tick raises the installed bits or nothing, and nothing before the deadline of the edge in
/// front.
pub proof fn nothing_is_raised_early(a: NullAudio, now: u64)
    ensures
        raise_at(a, now) is Some ==> raise_at(a, now) == Some(a.output_int_mask)
            && a.pending_edges > 0 && now >= a.next_deadline,
{
}

/// Ticks at each of `times`.
pub open spec fn ticks(times: Seq<u64>) -> Seq<Event> {
    times.map_values(|now: u64| Event::Tick { now })
}

/// Whether the first tick comes when the edge in front is due, and each later one when the
/// buffer behind it has played.
pub open spec fn keeps_up(a: NullAudio, times: Seq<u64>) -> bool {
    &&& times.len() > 0 ==> times[0] >= a.next_deadline
    &&& forall|i: int|
        0 < i < times.len() ==> #[trigger] times[i] >= times[i - 1] + a.last_duration_ticks
}

proof fn each_tick_takes_one(a: NullAudio, times: Seq<u64>)
    requires
        keeps_up(a, times),
    ensures
        after(a, ticks(times)).pending_edges == (if times.len() >= a.pending_edges {
            0
        } else {
            a.pending_edges - times.len()
        }),
        after(a, ticks(times)).last_duration_ticks == a.last_duration_ticks,
        after(a, ticks(times)).pending_edges > 0 ==> after(a, ticks(times)).next_deadline == (
        if times.len() == 0 {
            a.next_deadline
        } else {
            times.last().wrapping_add(a.last_duration_ticks)
        }),
    decreases times.len(),
{
    if times.len() > 0 {
        let before = times.drop_last();
        assert(ticks(times).drop_last() =~= ticks(before));
        assert(ticks(times).last() == (Event::Tick { now: times.last() }));
        assert forall|i: int| 0 < i < before.len() implies #[trigger] before[i] >= before[i - 1]
            + a.last_duration_ticks by {
            assert(times[i] >= times[i - 1] + a.last_duration_ticks);
        }
        each_tick_takes_one(a, before);
        if times.len() > 1 {
            assert(times[times.len() - 1] >= times[times.len() - 2] + a.last_duration_ticks);
        }
    }
}

proof fn events_in_two_parts(a: NullAudio, first: Seq<Event>, second: Seq<Event>)
    ensures
        after(a, first + second) == after(after(a, first), second),
        raised(a, first + second) == raised(a, first) + raised(after(a, first), second),
    decreases second.len(),
{
    if second.len() == 0 {
        assert(first + second =~= first);
    } else {
        events_in_two_parts(a, first, second.drop_last());
        assert((first + second).drop_last() =~= first + second.drop_last());
        assert((first + second).last() == second.last());
    }
}

proof fn ticks_owe_nothing(times: Seq<u64>)
    ensures
        owed(ticks(times)) == 0,
    decreases times.len(),
{
    if times.len() > 0 {
        ticks_owe_nothing(times.drop_last());
        assert(ticks(times).drop_last() =~= ticks(times.drop_last()));
    }
}

proof fn filling_raises_nothing(a: NullAudio, fill: Seq<Event>)
    requires
        forall|i: int| 0 <= i < fill.len() ==> #[trigger] fill[i] is Buffer && !ends(fill[i]),
    ensures
        raised(a, fill) == 0,
        owed(fill) == fill.len(),
    decreases fill.len(),
{
    if fill.len() > 0 {
        assert(fill[fill.len() - 1] is Buffer);
        filling_raises_nothing(a, fill.drop_last());
    }
}

/// The interrupts of a run: a start, then non-empty buffers, then ticks. At no time more than
/// one for the start and one for each buffer has been raised, what is not raised is still owed,
/// and as many ticks that keep up with the buffers raise them all.
pub proof fn start_and_buffers_raise_once_each(
    a: NullAudio,
    now: u64,
    freq: u64,
    fill: Seq<Event>,
    times: Seq<u64>,
)
    requires
        a.output_int_mask != 0,
        a.pending_edges == 0,
        fill.len() + times.len() < u32::MAX,
        forall|i: int| 0 <= i < fill.len() ==> #[trigger] fill[i] is Buffer && !ends(fill[i]),
    ensures
        ({
            let started = step(a, Event::Start { now, freq });
            let filled = after(started, fill);
            let run = fill + ticks(times);
            &&& filled.pending_edges == 1 + fill.len()
            &&& raised(started, run) + after(started, run).pending_edges == 1 + fill.len()
            &&& keeps_up(filled, times) && times.len() > fill.len() ==> raised(started, run) == 1
                + fill.len()
        }),
{
    let started = step(a, Event::Start { now, freq });
    let filled = after(started, fill);
    assert forall|i: int| 0 <= i < fill.len() implies !ends(#[trigger] fill[i]) by {}
    edges_are_conserved(started, fill);
    filling_raises_nothing(started, fill);
    assert forall|i: int| 0 <= i < ticks(times).len() implies !ends(#[trigger] ticks(times)[i]) by {
    }
    edges_are_conserved(filled, ticks(times));
    ticks_owe_nothing(times);
    events_in_two_parts(started, fill, ticks(times));
    if keeps_up(filled, times) {
        each_tick_takes_one(filled, times);
    }
}

/// A start owes one edge that takes no time: where nothing was owed, a tick at the same moment has it due.
pub proof fn a_start_owes_an_edge_at_once(a: NullAudio, now: u64, freq: u64)
    requires
        a.pending_edges < u32::MAX,
    ensures
        ({
            let b = step(a, Event::Start { now, freq });
            &&& b.output_running
            &&& b.pending_edges == a.pending_edges + 1
            &&& b.last_duration_ticks == 0
            &&& a.pending_edges == 0 ==> b.next_deadline == now && edge_due(b, now) && ticked(b, now).pending_edges
                == 0
            &&& a.pending_edges > 0 ==> b.next_deadline == a.next_deadline
            &&& b.output_int_mask == a.output_int_mask && b.output_volume == a.output_volume
        }),
{
}

/// A buffer that is not empty, handed over while the output runs, owes an edge for the time that its
/// samples play: half its bytes at 22050 a second. The edge is due that much later where nothing was
/// owed, and behind the others where something was. While the output does not run it owes nothing,
/// and an empty buffer ends the run with nothing owed.
pub proof fn buffers_owe_their_playing_time(a: NullAudio, bytes: u32, now: u64, freq: u64)
    requires
        a.pending_edges < u32::MAX,
        bytes / 2 * freq <= u64::MAX,
        now + bytes / 2 * freq <= u64::MAX,
    ensures
        ({
            let b = scheduled(a, bytes, now, freq);
            let t = b.last_duration_ticks;
            &&& bytes == 0 ==> b.pending_edges == 0 && !b.output_running
            &&& bytes > 0 && !a.output_running ==> b == a
            &&& bytes > 0 && a.output_running ==> {
                &&& t * 22_050 <= bytes / 2 * freq < (t + 1) * 22_050
                &&& b.pending_edges == a.pending_edges + 1
                &&& a.pending_edges == 0 ==> b.next_deadline == now + t
                &&& a.pending_edges > 0 ==> b.next_deadline == a.next_deadline
                &&& b.output_running
            }
            &&& b.output_int_mask == a.output_int_mask
            &&& b.output_volume == a.output_volume
        }),
{
}

/// A tick takes the edge in front exactly where one is owed and its time has come; the next is then
/// due one buffer's playing time later.
pub proof fn ticks_take_due_edges(a: NullAudio, now: u64)
    requires
        now + a.last_duration_ticks <= u64::MAX,
    ensures
        ({
            let b = ticked(a, now);
            let due = a.pending_edges > 0 && now >= a.next_deadline;
            &&& !due ==> b == a && raise_at(a, now) is None
            &&& due ==> b.pending_edges == a.pending_edges - 1
            &&& due && b.pending_edges > 0 ==> b.next_deadline == now + a.last_duration_ticks
            &&& due && a.output_int_mask != 0 ==> raise_at(a, now) == Some(a.output_int_mask)
            &&& due && a.output_int_mask == 0 ==> raise_at(a, now) is None
            &&& b == NullAudio {
                pending_edges: b.pending_edges,
                next_deadline: b.next_deadline,
                ..a
            }
        }),
{
}

/// Two buffers scheduled back to back while nothing is owed owe two edges, the first due
/// when the first buffer ends.
pub proof fn back_to_back_buffers_owe_two_edges(
    a: NullAudio,
    first: u32,
    second: u32,
    now: u64,
    later: u64,
    freq: u64,
)
    requires
        a.output_running,
        a.pending_edges == 0,
        first > 0,
        second > 0,
    ensures
        ({
            let b = scheduled(scheduled(a, first, now, freq), second, later, freq);
            &&& b.pending_edges == 2
            &&& b.next_deadline == now.wrapping_add(playing_ticks((first / 2) as u64, freq))
        }),
{
}

/// Owes one more edge.
fn arm_completion(a: &mut NullAudio, duration_samples: u64, now: u64, freq: u64)
    ensures
        *final(a) == armed(*old(a), duration_samples, now, freq),
{
    let product: u64 = match duration_samples.checked_mul(freq) {
        Some(p) => p,
        None => u64::MAX,
    };
    let delay_ticks: u64 = product / NEWTON_RATE_HZ;
    a.last_duration_ticks = delay_ticks;
    let owed: u32 = a.pending_edges;
    a.pending_edges = owed.wrapping_add(1);
    if owed == 0 {
        a.next_deadline = now.wrapping_add(delay_ticks);
    }
}

/// Drops every owed edge.
fn disarm_completions(a: &mut NullAudio)
    ensures
        *final(a) == (NullAudio { pending_edges: 0, ..*old(a) }),
{
    a.pending_edges = 0;
}

/// The backend at power-up: idle, with no interrupt bits installed.
pub fn init() -> (a: NullAudio)
    ensures
        a == (NullAudio {
            output_int_mask: 0,
            output_running: false,
            pending_edges: 0,
            next_deadline: 0,
            last_duration_ticks: 0,
            output_volume: 0,
        }),
{
    NullAudio {
        output_int_mask: 0,
        output_running: false,
        pending_edges: 0,
        next_deadline: 0,
        last_duration_ticks: 0,
        output_volume: 0,
    }
}

/// Installs the interrupt bits that a completion raises.
pub fn set_interrupt_mask(a: &mut NullAudio, _input_mask: u32, output_mask: u32)
    ensures
        *final(a) == (NullAudio { output_int_mask: output_mask, ..*old(a) }),
{
    a.output_int_mask = output_mask;
}

/// The buffers are never read: nothing to keep.
pub fn set_output_buffers(a: &mut NullAudio, _buf1_addr: u32, _buf2_addr: u32)
    ensures
        *final(a) == *old(a),
{
}

/// A buffer of `byte_count` bytes is handed over at `now`. An empty one ends the run; any
/// other, while running, owes an edge once its samples have played.
pub fn schedule_output(a: &mut NullAudio, _which: u32, byte_count: u32, now: u64, freq: u64)
    ensures
        *final(a) == scheduled(*old(a), byte_count, now, freq),
{
    if byte_count == 0 {
        a.output_running = false;
        disarm_completions(a);
        return ;
    }
    if a.output_running {
        arm_completion(a, (byte_count / 2) as u64, now, freq);
    }
}

/// Starts the output, which owes an edge at once.
pub fn start_output(a: &mut NullAudio, now: u64, freq: u64)
    ensures
        *final(a) == step(*old(a), Event::Start { now, freq }),
{
    a.output_running = true;
    arm_completion(a, 0, now, freq);
}

/// Stops the output and drops what is owed.
pub fn stop_output(a: &mut NullAudio)
    ensures
        *final(a) == stopped(*old(a)),
{
    a.output_running = false;
    disarm_completions(a);
}

/// Always false: the kernel only asks whether to keep pumping.
pub fn output_is_running(_a: &NullAudio) -> (running: bool)
    ensures
        !running,
{
    false
}

/// Keeps the volume, which has nothing to act on.
pub fn output_volume_set(a: &mut NullAudio, volume: u32)
    ensures
        *final(a) == (NullAudio { output_volume: volume, ..*old(a) }),
{
    a.output_volume = volume;
}

/// The volume last set.
pub fn output_volume_get(a: &NullAudio) -> (volume: u32)
    ensures
        volume == a.output_volume,
{
    a.output_volume
}

/// A timer tick at `now`: the interrupt bits to raise, if an owed edge is due and bits are
/// installed.
pub fn tick(a: &mut NullAudio, now: u64) -> (raise: Option<u32>)
    ensures
        *final(a) == ticked(*old(a), now),
        raise == raise_at(*old(a), now),
{
    if a.pending_edges == 0 {
        return None;
    }
    if now < a.next_deadline {
        return None;
    }
    a.pending_edges = a.pending_edges - 1;
    if a.pending_edges > 0 {
        a.next_deadline = now.wrapping_add(a.last_duration_ticks);
    }
    if a.output_int_mask != 0 {
        Some(a.output_int_mask)
    } else {
        None
    }
}

} // verus!
