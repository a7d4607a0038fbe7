//! The sound card and the two threads of the receiver.

use crossbeam_channel::bounded;
use crossbeam_queue::ArrayQueue;
use quasar_sdr::audio::{describe_output, Resampler};
use quasar_sdr::channel::{Feed, Inbox, Outbox, Signal, Tally, Tap};
use quasar_sdr::dsp::processor::Carry;
use quasar_sdr::engine::{
    audio_status, display_due, hand_on, push_audio, still_wanted, Acquisition, Counters,
    FrameGate, FrameTag, FrameUse, HandedOn, Task,
};
use quasar_sdr::driver::usb::UsbSource;
use quasar_sdr::model::{Settings, Snapshot, Spectrum, FFT_SIZE};
use quasar_sdr::reception::{Preparation, Reception};
use std::sync::atomic::{AtomicBool, AtomicU64, Ordering};
use std::sync::Arc;

fn audio_queue(room: usize) -> (Feed<i32>, Tap<i32>) {
    let queue = Arc::new(ArrayQueue::new(room));
    (Feed::new(queue.clone()), Tap::new(queue))
}

#[test]
fn outputs_are_described() {
    assert_eq!(
        describe_output(Some("Haut-parleurs"), 44_100),
        "Haut-parleurs · 44100 Hz"
    );
    assert_eq!(describe_output(None, 48_000), "Sortie système · 48000 Hz");
    assert_eq!(audio_status(Ok("x".into())), "x");
    assert_eq!(
        audio_status(Err("occupé".into())),
        "Audio indisponible : occupé"
    );
}

#[test]
fn the_same_rate_hears_every_sample() {
    let (mut feed, mut tap) = audio_queue(8);
    assert_eq!(push_audio(&mut feed, &[1, -2, 3]), 0);
    let mut r = Resampler::new(48_000);
    let heard: Vec<(i32, u32)> = (0..6).map(|_| r.frame(&mut tap)).collect();
    assert_eq!(
        heard,
        vec![(0, 0), (0, 0), (1, 0), (-2, 1), (3, 1), (0, 1)]
    );
}

#[test]
fn other_rates_are_interpolated() {
    let (mut feed, mut tap) = audio_queue(64);
    push_audio(&mut feed, &[0, 1000, 2000, 3000, 4000]);
    let mut r = Resampler::new(96_000);
    let heard: Vec<i32> = (0..9).map(|_| r.frame(&mut tap).0).collect();
    assert_eq!(heard, vec![0, 0, 0, 0, 0, 500, 1000, 1500, 2000]);
    let mut r = Resampler::new(16_000);
    assert_eq!(r.advance(), 3);
    let mut r = Resampler::new(44_100);
    let taken: u32 = (0..44_100).map(|_| r.advance()).sum();
    assert_eq!(taken, 48_000);
    assert_eq!(r.phase, 0);
}

#[test]
fn the_oldest_samples_leave_a_full_queue() {
    let queue = Arc::new(ArrayQueue::new(3));
    let mut feed = Feed::new(queue.clone());
    assert_eq!(push_audio(&mut feed, &[1, 2, 3, 4, 5]), 2);
    assert_eq!(queue.pop(), Some(3));
    assert_eq!(queue.pop(), Some(4));
    assert_eq!(queue.pop(), Some(5));
    assert_eq!(queue.pop(), None);
}

#[test]
fn counters_start_from_zero() {
    let c = Counters::default();
    for counter in [
        &*c.iq_dropped,
        &*c.usb_dropped,
        &c.audio_dropped,
        &*c.underruns,
        &*c.audio_errors,
    ] {
        assert_eq!(counter.load(Ordering::Relaxed), 0);
    }
}

#[test]
fn settings_and_gains_are_looked_for() {
    let stop = Arc::new(AtomicBool::new(false));
    let mut signal = Signal::new(stop.clone());
    let (commands, command_rx) = bounded(1);
    let mut command_rx = Inbox::new(command_rx);
    let (gains, gain_rx) = bounded(1);
    let mut gain_rx = Inbox::new(gain_rx);
    let (blocks, block_rx) = bounded(1);
    let mut blocks = Outbox::new(blocks);
    let dropped = Arc::new(AtomicU64::new(0));
    let mut tally = Tally::new(dropped.clone());
    let (mut a, _) = Acquisition::begin(Settings::default());
    a.opened(Ok(()));
    a.reported();
    for n in 0..2 {
        assert_eq!(a.poll(&mut signal, &mut command_rx), Task::PollGain);
        assert_eq!(a.poll_gain(&mut gain_rx), Task::Read);
        assert_eq!(a.read_done(Ok(())), Task::Send(tag(n, 0)));
        assert_eq!(a.send(&mut blocks, n, &mut tally), Task::Poll);
    }
    assert_eq!(block_rx.try_recv(), Ok(0));
    assert!(block_rx.try_recv().is_err());
    assert_eq!(dropped.load(Ordering::Relaxed), 1);
    let mut settings = Settings::default();
    settings.center_hz = 100_000_000;
    commands.send(settings).unwrap();
    assert_eq!(a.poll(&mut signal, &mut command_rx), Task::Close);
    assert_eq!(a.settings.center_hz, 100_000_000);
    a.closed();
    a.opened(Ok(()));
    a.reported();
    gains.send(77).unwrap();
    assert_eq!(a.poll_gain(&mut gain_rx), Task::SetGain(77));
    a.gain_set(Ok(77));
    a.reported();
    a.read_done(Ok(()));
    a.sent();
    stop.store(true, Ordering::Relaxed);
    commands.send(Settings::default()).unwrap();
    assert_eq!(a.poll(&mut signal, &mut command_rx), Task::End);
    assert_eq!(a.settings.center_hz, 100_000_000);
}

fn tag(sequence: u64, epoch: u64) -> FrameTag {
    FrameTag { sequence, epoch }
}

#[test]
fn the_reception_runs_until_it_is_stopped() {
    let (mut a, task) = Acquisition::begin(Settings::default());
    assert_eq!(task, Task::Open);
    assert_eq!(a.opened(Ok(())), Task::Report);
    assert_eq!(a.reported(), Task::Poll);
    for n in 0..3 {
        assert_eq!(a.polled(false, None), Task::PollGain);
        assert_eq!(a.gain_polled(None), Task::Read);
        assert_eq!(a.read_done(Ok(())), Task::Send(tag(n, 0)));
        assert_eq!(a.sent(), Task::Poll);
    }
    assert_eq!(a.polled(true, Some(Settings::default())), Task::End);
    assert_eq!(a.epoch, 0);
    assert!(a.error.is_none());
}

#[test]
fn a_new_centre_reopens_the_device() {
    let (mut a, _) = Acquisition::begin(Settings::default());
    a.opened(Ok(()));
    a.reported();
    let mut settings = Settings::default();
    settings.master_gain = 1;
    assert_eq!(a.polled(false, Some(settings.clone())), Task::PollGain);
    assert_eq!(a.epoch, 1);
    assert_eq!(a.settings.master_gain, 1);
    a.gain_polled(None);
    assert_eq!(a.read_done(Ok(())), Task::Send(tag(0, 1)));
    a.sent();
    settings.center_hz += 1;
    assert_eq!(a.polled(false, Some(settings)), Task::Close);
    assert_eq!(a.epoch, 2);
    assert_eq!(a.closed(), Task::Open);
    assert_eq!(a.opened(Ok(())), Task::Report);
    assert_eq!(a.reported(), Task::PollGain);
    assert_eq!(a.gain_polled(Some(207)), Task::SetGain(207));
    assert_eq!(a.gain_set(Ok(206)), Task::Report);
    assert_eq!((a.epoch, a.settings.rf_gain_db), (3, 206));
    assert_eq!(a.reported(), Task::Read);
    assert_eq!(a.read_done(Ok(())), Task::Send(tag(1, 3)));
}

#[test]
fn every_failure_ends_the_reception() {
    let begin = || Acquisition::begin(Settings::default()).0;
    let mut a = begin();
    assert_eq!(a.opened(Err("a".into())), Task::Fail);
    assert_eq!(a.error.as_deref(), Some("a"));
    let mut a = begin();
    a.opened(Ok(()));
    a.reported();
    a.polled(false, None);
    a.gain_polled(Some(1));
    assert_eq!(a.gain_set(Err("b".into())), Task::Fail);
    assert_eq!(a.error.as_deref(), Some("b"));
    assert_eq!(a.epoch, 0);
    let mut a = begin();
    a.opened(Ok(()));
    a.reported();
    a.polled(false, None);
    a.gain_polled(None);
    assert_eq!(a.read_done(Err("c".into())), Task::Fail);
    assert_eq!(a.error.as_deref(), Some("c"));
}

#[test]
fn stale_blocks_are_skipped_and_lost_ones_restart_the_filters() {
    let mut gate = FrameGate::new();
    assert_eq!(gate.take(tag(0, 0), 1), FrameUse::Skip);
    assert_eq!(gate, FrameGate::new());
    assert_eq!(gate.take(tag(0, 1), 1), FrameUse::Rebuild);
    assert_eq!(gate.take(tag(1, 1), 1), FrameUse::Keep);
    assert_eq!(gate.take(tag(2, 2), 2), FrameUse::Configure);
    assert_eq!(gate.take(tag(3, 2), 2), FrameUse::Keep);
    assert_eq!(gate.take(tag(5, 2), 2), FrameUse::Resume);
    assert_eq!(gate.take(tag(6, 2), 3), FrameUse::Skip);
    assert_eq!(gate.take(tag(7, 3), 3), FrameUse::Resume);
    assert!(still_wanted(tag(7, 3), 3));
    assert!(!still_wanted(tag(7, 3), 4));
    assert!(display_due(30) && !display_due(29));
}

/// Takes a block and measures it; how far the measure of the noise has come then.
fn measured(r: &mut Reception, block: FrameTag, live: u64, settings: &Settings) -> Option<u32> {
    if let Preparation::Skipped = r.take(block, live, settings.clone()) {
        return None;
    }
    let processor = r.processor.as_mut().unwrap();
    processor.measure(vec![-90_000_000; FFT_SIZE], &[]);
    Some(processor.spectrum.zero_progress())
}

#[test]
fn a_lost_block_does_not_start_the_calibration_anew() {
    let mut r = Reception::new();
    let mut settings = Settings::default();
    settings.vfos.clear();
    assert_eq!(measured(&mut r, tag(0, 0), 0, &settings), Some(5_333));
    // The second block is stale when it is looked at, the fourth is lost.
    assert_eq!(measured(&mut r, tag(1, 0), 1, &settings), None);
    assert_eq!(measured(&mut r, tag(2, 1), 1, &settings), Some(10_666));
    assert_eq!(measured(&mut r, tag(4, 1), 1, &settings), Some(16_000));
    // Another gain of the tuner does, and so does another centre.
    settings.rf_gain_db += 1;
    assert_eq!(measured(&mut r, tag(6, 2), 2, &settings), Some(5_333));
    assert_eq!(measured(&mut r, tag(7, 2), 2, &settings), Some(10_666));
    settings.center_hz += 1;
    assert_eq!(measured(&mut r, tag(8, 3), 3, &settings), Some(5_333));
}

#[test]
fn the_receiver_is_made_ready_for_every_block() {
    let mut r = Reception::new();
    let mut settings = Settings::default();
    assert!(matches!(r.take(tag(0, 0), 1, settings.clone()), Preparation::Skipped));
    assert!(r.processor.is_none());
    assert!(matches!(r.take(tag(1, 1), 1, settings.clone()), Preparation::Rebuilt));
    r.processor.as_mut().unwrap().vfos[0].advance();
    assert!(matches!(r.take(tag(2, 1), 1, settings.clone()), Preparation::Kept));
    settings.master_gain = 7;
    match r.take(tag(3, 2), 2, settings.clone()) {
        Preparation::Configured(carries) => assert_eq!(carries[0], Carry::Kept(0)),
        _ => panic!("the settings were not taken over"),
    }
    assert_eq!(r.processor.as_ref().unwrap().settings.master_gain, 7);
    assert_eq!(r.processor.as_ref().unwrap().vfos[0].tick, 1);
    assert!(matches!(r.take(tag(9, 2), 2, settings), Preparation::Resumed));
    assert_eq!(r.processor.as_ref().unwrap().vfos[0].tick, 0);
}

#[test]
fn every_frame_lies_on_the_line_between_its_samples() {
    for rate in [44_100, 48_000, 96_000, 16_000, 11_025] {
        let samples: Vec<i32> = (0..700).map(|i| i * i * 37 % 100_003 - 50_000).collect();
        let (mut feed, mut tap) = audio_queue(1_000);
        push_audio(&mut feed, &samples);
        let mut stream = vec![0, 0];
        stream.extend(&samples);
        let mut r = Resampler::new(rate);
        for k in 0..140_i64 {
            let (place, rate) = (k * 48_000, rate as i64);
            let i = (place / rate) as usize;
            let (left, right) = (stream[i] as i64, stream[i + 1] as i64);
            let gap = 2 * (right - left) * (place % rate) + rate;
            let expected = left + gap.div_euclid(2 * rate);
            assert_eq!(r.frame(&mut tap).0 as i64, expected);
        }
    }
}

fn shown(center_hz: i64) -> Snapshot {
    Snapshot {
        zero_progress: 0,
        spectrum: Spectrum {
            power_db: Vec::new(),
            floor_db: Vec::new(),
        },
        vfos: Vec::new(),
        selected: None,
        dsp_us: 0,
        center_hz,
    }
}

#[test]
fn results_are_handed_on_unless_they_were_overtaken() {
    let audio = Arc::new(ArrayQueue::new(3));
    let display = Arc::new(ArrayQueue::new(2));
    let mut feed = Feed::new(audio.clone());
    let mut screen = Feed::new(display.clone());
    let samples = [1, 2, 3, 4];
    let mut hand = |live: u64, center: i64, enabled: bool, elapsed: u64| {
        hand_on(
            tag(0, 5),
            live,
            &samples,
            shown(center),
            enabled,
            &mut feed,
            &mut screen,
            elapsed,
        )
    };
    let nothing = HandedOn {
        dropped: 0,
        shown: false,
    };
    assert_eq!(hand(6, 1, true, 100), nothing);
    assert!(audio.is_empty() && display.is_empty());
    assert_eq!(hand(5, 2, false, 29), nothing);
    assert!(audio.is_empty() && display.is_empty());
    assert_eq!(
        hand(5, 3, true, 30),
        HandedOn {
            dropped: 1,
            shown: true,
        }
    );
    assert_eq!(display.pop().unwrap().center_hz, 3);
    assert!(display.pop().is_none());
    assert_eq!((audio.pop(), audio.pop(), audio.pop()), (Some(2), Some(3), Some(4)));
}

#[test]
fn gains_and_failures_are_reported() {
    let (_, rx) = bounded(1);
    let source = UsbSource {
        rx: Inbox::new(rx),
        expected: 0,
        gain_steps: vec![0, 279],
        applied_gain_db: 279,
        center_hz: 156_800_000,
    };
    let (updates, update_rx) = bounded(1);
    let (errors, error_rx) = bounded(1);
    let mut updates = Outbox::new(updates);
    let mut errors = Outbox::new(errors);
    let (mut a, _) = Acquisition::begin(Settings::default());
    a.opened(Ok(()));
    assert_eq!(a.report(&source, &mut updates), Task::Poll);
    assert_eq!(update_rx.try_recv(), Ok((279, vec![0, 279])));
    a.polled(false, None);
    a.gain_polled(None);
    assert_eq!(a.read_done(Err("perdu".into())), Task::Fail);
    a.report_failure(&mut errors);
    assert_eq!(error_rx.try_recv(), Ok("perdu".to_owned()));
    assert!(a.error.is_none());
}
