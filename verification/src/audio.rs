//! Sound output: where the guest's samples go.

pub mod iec958;
pub mod null;
pub mod pi_hdmi;
pub mod tone;

use crate::guest_mem::GuestMem;
use vstd::prelude::*;

verus! {

/// The backend that the guest's sound goes to.
pub enum Audio {
    Null(null::NullAudio),
    PiHdmi(pi_hdmi::PiHdmi),
}

impl Audio {
    pub open spec fn wf(self) -> bool {
        match self {
            Audio::Null(_) => true,
            Audio::PiHdmi(h) => h.wf(),
        }
    }

    /// The volume set last; zero before.
    pub open spec fn volume(self) -> u32 {
        match self {
            Audio::Null(n) => n.output_volume,
            Audio::PiHdmi(h) => h@.output_volume,
        }
    }
}

/// The backend without a device, idle.
pub fn init() -> (a: Audio)
    ensures
        a.wf(),
        a == Audio::Null(
            null::NullAudio {
                output_int_mask: 0,
                output_running: false,
                pending_edges: 0,
                next_deadline: 0,
                last_duration_ticks: 0,
                output_volume: 0,
            },
        ),
{
    Audio::Null(null::init())
}

/// Installs the interrupt bits of input and output.
pub fn set_interrupt_mask(a: &mut Audio, input_mask: u32, output_mask: u32)
    requires
        old(a).wf(),
    ensures
        final(a).wf(),
        match (*old(a), *final(a)) {
            (Audio::Null(x), Audio::Null(y)) => y == (null::NullAudio {
                output_int_mask: output_mask,
                ..x
            }),
            (Audio::PiHdmi(x), Audio::PiHdmi(y)) => y@ == (pi_hdmi::HdmiView {
                input_int_mask: input_mask,
                output_int_mask: output_mask,
                ..x@
            }),
            _ => false,
        },
{
    match a {
        Audio::Null(n) => null::set_interrupt_mask(n, input_mask, output_mask),
        Audio::PiHdmi(h) => pi_hdmi::set_interrupt_mask(h, input_mask, output_mask),
    }
}

/// Takes note of the guest's two buffers.
pub fn set_output_buffers(a: &mut Audio, buf1_addr: u32, buf2_addr: u32)
    requires
        old(a).wf(),
    ensures
        final(a).wf(),
        match (*old(a), *final(a)) {
            (Audio::Null(x), Audio::Null(y)) => y == x,
            (Audio::PiHdmi(x), Audio::PiHdmi(y)) => y@ == (pi_hdmi::HdmiView {
                buf1_addr,
                buf2_addr,
                ..x@
            }),
            _ => false,
        },
{
    match a {
        Audio::Null(n) => null::set_output_buffers(n, buf1_addr, buf2_addr),
        Audio::PiHdmi(h) => pi_hdmi::set_output_buffers(h, buf1_addr, buf2_addr),
    }
}

/// Hands a buffer over, at `now` on a counter of `freq` ticks a second.
pub fn schedule_output(
    a: &mut Audio,
    mem: &GuestMem,
    which: u32,
    byte_count: u32,
    now: u64,
    freq: u64,
)
    requires
        old(a).wf(),
        mem.wf(),
    ensures
        final(a).wf(),
        match (*old(a), *final(a)) {
            (Audio::Null(x), Audio::Null(y)) => y == null::scheduled(x, byte_count, now, freq),
            (Audio::PiHdmi(x), Audio::PiHdmi(y)) => y@ == pi_hdmi::scheduled(
                x@,
                mem@,
                which,
                byte_count,
            ),
            _ => false,
        },
{
    match a {
        Audio::Null(n) => null::schedule_output(n, which, byte_count, now, freq),
        Audio::PiHdmi(h) => pi_hdmi::schedule_output(h, mem, which, byte_count),
    }
}

/// Starts the output: the register write that does so, if there is a device.
pub fn start_output(a: &mut Audio, now: u64, freq: u64) -> (write: Option<(usize, u32)>)
    requires
        old(a).wf(),
    ensures
        final(a).wf(),
        match (*old(a), *final(a)) {
            (Audio::Null(x), Audio::Null(y)) => write is None && y == null::armed(
                null::NullAudio { output_running: true, ..x },
                0,
                now,
                freq,
            ),
            (Audio::PiHdmi(x), Audio::PiHdmi(y)) => y@ == (pi_hdmi::HdmiView {
                output_running: x@.init_done || x@.output_running,
                ..x@
            }) && write == (if x@.init_done {
                Some((pi_hdmi::HDMI_MAI_CTL, pi_hdmi::MAI_CTL_PLAYBACK))
            } else {
                None
            }),
            _ => false,
        },
{
    match a {
        Audio::Null(n) => {
            null::start_output(n, now, freq);
            None
        },
        Audio::PiHdmi(h) => pi_hdmi::start_output(h),
    }
}

/// Stops the output: the register write that does so, if there is a device.
pub fn stop_output(a: &mut Audio) -> (write: Option<(usize, u32)>)
    requires
        old(a).wf(),
    ensures
        final(a).wf(),
        match (*old(a), *final(a)) {
            (Audio::Null(x), Audio::Null(y)) => write is None && y == null::stopped(x),
            (Audio::PiHdmi(x), Audio::PiHdmi(y)) => y@ == (pi_hdmi::HdmiView {
                output_running: false,
                queue: seq![],
                ..x@
            }) && write == Some((pi_hdmi::HDMI_MAI_CTL, pi_hdmi::MAI_CTL_SHUTDOWN)),
            _ => false,
        },
{
    match a {
        Audio::Null(n) => {
            null::stop_output(n);
            None
        },
        Audio::PiHdmi(h) => Some(pi_hdmi::stop_output(h)),
    }
}

/// Whether the guest is to think that sound is still playing.
pub fn output_is_running(a: &Audio) -> (running: bool)
    requires
        a.wf(),
    ensures
        running == (match *a {
            Audio::Null(_) => false,
            Audio::PiHdmi(h) => h@.queue.len() > 0,
        }),
{
    match a {
        Audio::Null(n) => null::output_is_running(n),
        Audio::PiHdmi(h) => pi_hdmi::output_is_running(h),
    }
}

/// Sets the volume, to be read back.
pub fn output_volume_set(a: &mut Audio, volume: u32)
    requires
        old(a).wf(),
    ensures
        final(a).wf(),
        final(a).volume() == volume,
        match (*old(a), *final(a)) {
            (Audio::Null(x), Audio::Null(y)) => y == (null::NullAudio {
                output_volume: volume,
                ..x
            }),
            (Audio::PiHdmi(x), Audio::PiHdmi(y)) => y@ == (pi_hdmi::HdmiView {
                output_volume: volume,
                ..x@
            }),
            _ => false,
        },
{
    match a {
        Audio::Null(n) => null::output_volume_set(n, volume),
        Audio::PiHdmi(h) => pi_hdmi::output_volume_set(h, volume),
    }
}

/// The volume.
pub fn output_volume_get(a: &Audio) -> (volume: u32)
    ensures
        volume == a.volume(),
{
    match a {
        Audio::Null(n) => null::output_volume_get(n),
        Audio::PiHdmi(h) => pi_hdmi::output_volume_get(h),
    }
}

/// A timer tick: the interrupt bits to raise. Only the backend without a device needs one.
pub fn tick(a: &mut Audio, now: u64) -> (raise: Option<u32>)
    requires
        old(a).wf(),
    ensures
        final(a).wf(),
        match (*old(a), *final(a)) {
            (Audio::Null(x), Audio::Null(y)) => y == null::ticked(x, now) && raise
                == null::raise_at(x, now),
            (Audio::PiHdmi(x), Audio::PiHdmi(y)) => y == x && raise is None,
            _ => false,
        },
{
    match a {
        Audio::Null(n) => null::tick(n, now),
        Audio::PiHdmi(_) => None,
    }
}

} // verus!
