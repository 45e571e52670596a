//! Sound output: the silent backend, the HDMI backend, subframes and the test tone.

use newton_hypervisor::audio;
use newton_hypervisor::audio::iec958::{
    build_iec958_subframe, channel_status_bit, encode_iec958_pair, even_parity,
};
use newton_hypervisor::audio::null;
use newton_hypervisor::audio::pi_hdmi;
use newton_hypervisor::audio::pi_hdmi::{
    bringup_mai, mai_fifo_full, pixel_clock_hz, rational_best_approximation, read_audio_clock_hz,
    read_pll_per_hz, set_audio_info_frame, wait_for_ram_packet_status, write_mai_data_wait,
    ClockRegs, ClockSource, MaiError, MaiStep, PiHdmi, PllRegs, Poll, PumpStep, HDMI_MAI_CTL,
    HDMI_MAI_DATA, HDMI_MAI_SMP, HDMI_RAM_PACKET_START, STATUS_POLLS,
};
use newton_hypervisor::audio::tone::{flag_names, CtlChange, Tone};
use newton_hypervisor::audio::Audio;
use newton_hypervisor::guest_endian::guest_write_u32_pa;
use newton_hypervisor::guest_mem::GuestMem;

const FREQ: u64 = 19_200_000;

fn clocks() -> ClockRegs {
    let off = PllRegs { ctrl: 0, frac: 0, per: 0 };
    ClockRegs { hsm_ctl: 1, hsm_div: 0x1000, plla: off, pllc: off, plld: off }
}

fn guest() -> GuestMem {
    let mut mem = GuestMem::new(vec![], false);
    assert!(guest_write_u32_pa(&mut mem, 0x0400_1000, 0x1234_FFFF));
    mem
}

fn device() -> PiHdmi {
    let mut h = PiHdmi::new();
    assert!(pi_hdmi::init(&mut h, 1).is_ok());
    pi_hdmi::set_output_buffers(&mut h, 0x0400_1000, 0x0400_2000);
    pi_hdmi::set_interrupt_mask(&mut h, 0x10, 0x20);
    assert_eq!(pi_hdmi::start_output(&mut h), Some((HDMI_MAI_CTL, 0x3028)));
    h
}

#[test]
fn silent_buffers_take_their_time() {
    let mut a = null::init();
    null::set_interrupt_mask(&mut a, 0, 0x400);
    null::start_output(&mut a, 100, FREQ);
    assert_eq!(null::tick(&mut a, 99), None);
    assert_eq!(null::tick(&mut a, 100), Some(0x400));
    // 22050 samples play for one second.
    null::schedule_output(&mut a, 0, 44_100, 1000, FREQ);
    assert_eq!(null::tick(&mut a, 1000 + FREQ - 1), None);
    assert_eq!(null::tick(&mut a, 1000 + FREQ), Some(0x400));
    assert_eq!(null::tick(&mut a, u64::MAX), None);
}

#[test]
fn every_buffer_is_owed_an_edge() {
    let mut a = null::init();
    null::set_interrupt_mask(&mut a, 0, 1);
    null::start_output(&mut a, 0, FREQ);
    assert_eq!(null::tick(&mut a, 0), Some(1));
    null::schedule_output(&mut a, 0, 441, 10, FREQ);
    null::schedule_output(&mut a, 1, 441, 11, FREQ);
    assert_eq!(a.pending_edges, 2);
    let ticks = 220 * FREQ / 22_050;
    assert_eq!(a.next_deadline, 10 + ticks);
    assert_eq!(null::tick(&mut a, 10 + ticks), Some(1));
    assert_eq!(a.next_deadline, 10 + 2 * ticks);
    assert_eq!(null::tick(&mut a, 10 + 2 * ticks), Some(1));
    assert_eq!(a.pending_edges, 0);
}

#[test]
fn a_run_raises_once_per_buffer_and_once_for_the_start() {
    let mut a = null::init();
    null::set_interrupt_mask(&mut a, 0, 8);
    null::start_output(&mut a, 0, FREQ);
    for i in 0..3u64 {
        null::schedule_output(&mut a, (i % 2) as u32, 4410, i, FREQ);
    }
    let raised: Vec<Option<u32>> =
        (0..10u64).map(|i| null::tick(&mut a, 100 + i * FREQ)).collect();
    assert_eq!(raised.iter().filter(|r| **r == Some(8)).count(), 4);
    assert_eq!(raised[4..], [None; 6]);
    // Nothing comes after a stop, until the next start.
    null::schedule_output(&mut a, 0, 4410, 0, FREQ);
    null::stop_output(&mut a);
    null::schedule_output(&mut a, 0, 4410, 0, FREQ);
    assert_eq!(null::tick(&mut a, u64::MAX), None);
    null::start_output(&mut a, 0, FREQ);
    assert_eq!(null::tick(&mut a, 0), Some(8));
}

#[test]
fn silent_backend_stops() {
    let mut a = null::init();
    null::schedule_output(&mut a, 0, 100, 0, FREQ);
    assert_eq!(a.pending_edges, 0);
    null::start_output(&mut a, 0, FREQ);
    null::schedule_output(&mut a, 0, 0, 0, FREQ);
    assert!(!a.output_running);
    assert_eq!(a.pending_edges, 0);
    null::start_output(&mut a, 5, FREQ);
    assert_eq!(null::tick(&mut a, 5), None);
    null::start_output(&mut a, 5, FREQ);
    null::stop_output(&mut a);
    assert_eq!(a.pending_edges, 0);
    null::schedule_output(&mut a, 0, u32::MAX, 0, u64::MAX);
    assert!(!null::output_is_running(&a));
    null::output_volume_set(&mut a, 7);
    null::set_output_buffers(&mut a, 1, 2);
    assert_eq!(null::output_volume_get(&a), 7);
}

#[test]
fn subframes() {
    assert!(!even_parity(0));
    assert!(even_parity(0x10));
    assert!(!even_parity(0x8000_000F));
    assert_eq!(build_iec958_subframe(0x1234, 0), 0x8123_4000);
    assert_eq!(build_iec958_subframe(-1, 0), 0x0FFF_F000);
    assert_eq!(build_iec958_subframe(0, 1), 0xC000_0000);
    assert_eq!(encode_iec958_pair(0x1234, -1, 0), (0x8123_4008, 0x0FFF_F004));
    assert_eq!(encode_iec958_pair(0, 0, 9), (0xC000_0002, 0xC000_0004));
    let set: Vec<u32> = (0..192).filter(|f| channel_status_bit(*f) == 1).collect();
    assert_eq!(set, vec![9, 15, 33]);
}

#[test]
fn subframe_parity_and_fields() {
    for sample in [i16::MIN, -2, 0, 1, 0x55AA, i16::MAX] {
        for status in 0..2u32 {
            let w = build_iec958_subframe(sample, status);
            assert_eq!((w >> 4).count_ones() % 2, 0);
            assert_eq!((w >> 12) as u16 as i16, sample);
            assert_eq!((w >> 30) & 1, status);
        }
    }
}

#[test]
fn clock_rates() {
    assert!(pixel_clock_hz(Some(5), Some(6)) == Some((5, ClockSource::Measured)));
    assert!(pixel_clock_hz(Some(0), Some(6)) == Some((6, ClockSource::Configured)));
    assert!(pixel_clock_hz(None, Some(0)).is_none());
    let pll = PllRegs { ctrl: 0xA000_0068, frac: 0x2_AAAA, per: 4 };
    assert_eq!(read_pll_per_hz(pll), Some(499_999_996));
    assert_eq!(read_pll_per_hz(PllRegs { per: 0x100, ..pll }), None);
    assert_eq!(read_pll_per_hz(PllRegs { ctrl: 0x400, ..pll }), None);
    assert_eq!(read_audio_clock_hz(&clocks()), Some(19_200_000));
    let divided = ClockRegs { hsm_ctl: 6, hsm_div: 0x3800, plld: pll, ..clocks() };
    assert_eq!(read_audio_clock_hz(&divided), Some(142_857_141));
    assert_eq!(read_audio_clock_hz(&ClockRegs { hsm_ctl: 4, ..divided }), None);
    assert_eq!(read_audio_clock_hz(&ClockRegs { hsm_ctl: 0, ..divided }), None);
    assert_eq!(read_audio_clock_hz(&ClockRegs { hsm_div: 0, ..divided }), None);
}

#[test]
fn convergents() {
    assert_eq!(rational_best_approximation(19_200_000, 44_100, 0xFF_FFFF, 256), (64_000, 147));
    assert_eq!(rational_best_approximation(163_682_864, 44_100, 0xFF_FFFF, 256), (100_214, 27));
    assert_eq!(rational_best_approximation(499_999_996, 44_100, 0xFF_FFFF, 256), (430_839, 38));
    assert_eq!(rational_best_approximation(1, 3, 10, 2), (0, 1));
    // Within one part of the squared denominator.
    let (n, d) = rational_best_approximation(163_682_864, 44_100, 0xFF_FFFF, 256);
    let error = (163_682_864i64 * d as i64 - 44_100 * n as i64).abs();
    assert!(error * (d as i64) < 44_100);
}

#[test]
fn bring_up_program() {
    let steps = match bringup_mai(Some(74_250_000), None, &clocks()) {
        Ok(steps) => steps,
        Err(_) => panic!("not brought up"),
    };
    assert_eq!(steps.len(), 14);
    assert!(steps[0] == MaiStep::Write(HDMI_MAI_CTL, 0x8207));
    assert!(steps[3] == MaiStep::Write(HDMI_MAI_SMP, 64_000 * 256 + 146));
    assert!(steps[13] == MaiStep::Barrier);
}

#[test]
fn bring_up_errors() {
    assert!(matches!(bringup_mai(None, Some(0), &clocks()), Err(MaiError::NoPixelClock)));
    let off = ClockRegs { hsm_div: 0, ..clocks() };
    assert!(matches!(bringup_mai(Some(1), None, &off), Err(MaiError::NoAudioClock)));
    let slow = ClockRegs { hsm_div: 0x20_000, ..clocks() };
    assert!(matches!(bringup_mai(Some(1), None, &slow), Err(MaiError::ClockOutOfRange(600_000))));
    let mut h = PiHdmi::new();
    assert!(matches!(pi_hdmi::init(&mut h, 2), Err(MaiError::NotHdmi(2))));
    assert!(!h.init_done);
    assert_eq!(pi_hdmi::start_output(&mut h), None);
}

#[test]
fn info_frame_program() {
    let steps = set_audio_info_frame();
    assert_eq!(steps.len(), 14);
    assert!(steps[2] == MaiStep::Write(HDMI_RAM_PACKET_START + 0x90, 0x000A_0184));
    assert!(steps[3] == MaiStep::Write(HDMI_RAM_PACKET_START + 0x94, 0x0000_0170));
    assert!(steps[11] == MaiStep::Write(pi_hdmi::HDMI_RAM_PACKET_CONFIG, 0x1_001C));
    assert!(steps[12] == MaiStep::Await(0x10, true));
    assert_eq!((0x84u32 + 1 + 10 + 0x70 + 1) % 256, 0);
    assert!(wait_for_ram_packet_status(0x1F, 0x10, true, 0) == Poll::Reached);
    assert!(wait_for_ram_packet_status(0x0F, 0x10, false, 0) == Poll::Reached);
    assert!(wait_for_ram_packet_status(0x0F, 0x10, true, 0) == Poll::Again);
    assert!(wait_for_ram_packet_status(0x0F, 0x10, true, STATUS_POLLS - 1) == Poll::TimedOut);
}

/// Pumps while the FIFO has room: the words played and the bits raised.
fn play(h: &mut pi_hdmi::PiHdmi) -> (Vec<u32>, Option<u32>) {
    let mut words = Vec::new();
    loop {
        match pi_hdmi::pump(h, 0) {
            PumpStep::Frame(l, r) => words.extend([l, r]),
            PumpStep::Done(raise) => return (words, raise),
        }
    }
}

#[test]
fn samples_are_played_twice_on_both_channels() {
    let mem = guest();
    let mut h = device();
    pi_hdmi::schedule_output(&mut h, &mem, 0, 4);
    assert!(pi_hdmi::output_is_running(&h));
    let (words, raise) = play(&mut h);
    let mut want = Vec::new();
    for (i, s) in [0x1234i16, 0x1234, -1, -1].iter().enumerate() {
        let (l, r) = encode_iec958_pair(*s, *s, i as u32);
        want.push(l);
        want.push(r);
    }
    assert_eq!(words, want);
    assert_eq!(raise, Some(0x20));
    assert!(!pi_hdmi::output_is_running(&h));
    // The guest is asked once until it hands over more.
    assert_eq!(play(&mut h).1, None);
    pi_hdmi::schedule_output(&mut h, &mem, 0, 2);
    assert_eq!(play(&mut h).1, Some(0x20));
    assert_eq!(h.iec_frame, 6);
}

#[test]
fn ring_keeps_what_fits() {
    let mem = guest();
    let mut h = device();
    pi_hdmi::schedule_output(&mut h, &mem, 0, 8190);
    pi_hdmi::schedule_output(&mut h, &mem, 0, 8190);
    assert_eq!(h.head.wrapping_sub(h.tail), 8192);
    // A full FIFO stops the pump; the ring is not low.
    assert_eq!(pi_hdmi::pump(&mut h, 0x800), PumpStep::Done(None));
    assert!(matches!(pi_hdmi::pump(&mut h, 0), PumpStep::Frame(_, _)));
    assert_eq!(h.head.wrapping_sub(h.tail), 8191);
    assert_eq!(play(&mut h).0.len(), 2 * 8191);
    assert_eq!(h.iec_frame, 8192 % 192);
    pi_hdmi::schedule_output(&mut h, &mem, 0, 0);
    pi_hdmi::set_output_buffers(&mut h, 0, 0);
    pi_hdmi::schedule_output(&mut h, &mem, 0, 100);
    assert!(!pi_hdmi::output_is_running(&h));
    pi_hdmi::set_output_buffers(&mut h, 0, 0x2000_0000);
    pi_hdmi::schedule_output(&mut h, &mem, 1, 2);
    assert_eq!(pi_hdmi::stop_output(&mut h), (HDMI_MAI_CTL, 0x8007));
    assert!(!pi_hdmi::output_is_running(&h));
    assert_eq!(play(&mut h), (vec![], None));
}

#[test]
fn fifo_and_volume() {
    assert!(mai_fifo_full(0x800));
    assert_eq!(write_mai_data_wait(0x800, 5), None);
    assert_eq!(write_mai_data_wait(0, 5), Some((HDMI_MAI_DATA, 5)));
    let mut h = device();
    pi_hdmi::output_volume_set(&mut h, 77);
    assert_eq!(pi_hdmi::output_volume_get(&h), 77);
}

#[test]
fn backends_behind_one_front() {
    let mem = guest();
    let mut a = audio::init();
    audio::set_interrupt_mask(&mut a, 1, 2);
    audio::set_output_buffers(&mut a, 0x0400_1000, 0x0400_2000);
    assert_eq!(audio::start_output(&mut a, 0, FREQ), None);
    assert_eq!(audio::tick(&mut a, 0), Some(2));
    audio::schedule_output(&mut a, &mem, 0, 44_100, 0, FREQ);
    assert_eq!(audio::tick(&mut a, FREQ), Some(2));
    assert!(!audio::output_is_running(&a));
    assert_eq!(audio::output_volume_get(&a), 0);
    audio::output_volume_set(&mut a, 9);
    assert_eq!(audio::output_volume_get(&a), 9);
    assert_eq!(audio::stop_output(&mut a), None);
    let mut d = Audio::PiHdmi(device());
    audio::schedule_output(&mut d, &mem, 0, 4, 0, FREQ);
    assert!(audio::output_is_running(&d));
    audio::output_volume_set(&mut d, 9);
    assert_eq!(audio::output_volume_get(&d), 9);
    assert_eq!(audio::stop_output(&mut d), Some((HDMI_MAI_CTL, 0x8007)));
    assert!(!audio::output_is_running(&d));
}

#[test]
fn tone_is_a_triangle() {
    let mut t = Tone::new();
    let mut wave = Vec::new();
    for _ in 0..444 {
        wave.push(t.value);
        t.play_test_tone(0);
    }
    assert_eq!(wave[0], -0x4000);
    assert_eq!(wave[1], -0x4000 + 297);
    assert_eq!(wave[110], -0x4000 + 297 * 110);
    assert_eq!(wave[111], 0x4000);
    assert_eq!(wave[112], 0x4000 - 297);
    assert_eq!(&wave[..222], &wave[222..]);
    assert_eq!(t.frame_idx_in_block, 444 % 192);
    assert_eq!(Tone::new().frame(), encode_iec958_pair(-0x4000, -0x4000, 0));
}

#[test]
fn control_changes_are_reported() {
    let mut t = Tone::new();
    assert!(t.play_test_tone(0x3028).is_some());
    assert!(t.play_test_tone(0x3828).is_none());
    for _ in 2..44_100 {
        assert!(t.play_test_tone(0x3028).is_none());
    }
    assert!(
        t.play_test_tone(0x302A)
            == Some(CtlChange { ms: 1000, from: 0x3028, to: 0x302A, flips: 0x2 })
    );
    assert_eq!(flag_names(0x2), " ERRORF");
    assert_eq!(
        flag_names(0xFFFF_FFFF),
        " RESET ERRORF ERRORE ENABLE PAREN FLUSH EMPTY BUSY"
    );
    assert_eq!(flag_names(0x800), "");
}
