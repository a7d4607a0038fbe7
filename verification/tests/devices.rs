//! Devices, their opening and their stream.

use crossbeam_channel::bounded;
use quasar_sdr::channel::{Inbox, Outbox, Signal, Tally};
use quasar_sdr::driver::monitor::{DeviceMonitor, MonitorAction};
use quasar_sdr::driver::opening::{Command, OpenError, Opening, Reply, Setting};
use quasar_sdr::driver::usb::{
    choose_driver, closest_gain, BlockFate, CallbackState, DeviceStrings, UsbDevice, UsbSource,
    USB_BYTES,
};
use quasar_sdr::model::{BLOCK_SIZE, IQ_RATE};
use std::sync::atomic::{AtomicBool, AtomicU64, Ordering};
use std::sync::Arc;

#[test]
fn manual_gain_selects_a_supported_hardware_step() {
    let steps = [0, 207, 254, 280, 496];
    assert_eq!(closest_gain(&steps, 280), 280);
    assert_eq!(closest_gain(&steps, 270), 280);
    assert_eq!(closest_gain(&steps, -50), 0);
    assert_eq!(closest_gain(&steps, 600), 496);
}

#[test]
fn refresh_keeps_busy_device_label_but_never_invents_a_device() {
    let active = UsbDevice {
        index: 0,
        name: "Blog V4".into(),
        serial: "00000001".into(),
    };
    let mut busy = vec![UsbDevice {
        index: 0,
        name: "RTL2832U".into(),
        serial: String::new(),
    }];
    UsbDevice::preserve_active_label(&mut busy, &active);
    assert_eq!(busy, vec![active.clone()]);
    let mut unplugged: Vec<UsbDevice> = vec![];
    UsbDevice::preserve_active_label(&mut unplugged, &active);
    assert!(unplugged.is_empty());
    let mut replacement = vec![UsbDevice {
        index: 0,
        name: "Autre RTL-SDR".into(),
        serial: "different".into(),
    }];
    UsbDevice::preserve_active_label(&mut replacement, &active);
    assert_ne!(replacement[0], active);
}

#[test]
fn usb_callback_counts_dropped_blocks_without_blocking() {
    let (tx, rx) = bounded(1);
    let dropped = Arc::new(AtomicU64::new(0));
    let stopping = Arc::new(AtomicBool::new(false));
    let mut context = CallbackState {
        tx: Outbox::new(tx),
        sequence: 0,
        dropped: Tally::new(dropped.clone()),
        stopping: Signal::new(stopping.clone()),
    };
    let data = vec![128_u8; USB_BYTES];
    for _ in 0..2 {
        context.receive(&data);
    }
    assert_eq!(dropped.load(Ordering::Relaxed), 1);
    assert_eq!(rx.recv().unwrap().0, 0);
    assert_eq!(context.sequence, 2);
    stopping.store(true, Ordering::Relaxed);
    context.receive(&data);
    assert_eq!(context.sequence, 2);
    assert_eq!(dropped.load(Ordering::Relaxed), 1);
}

#[test]
fn blocks_arrive_as_they_were_sent() {
    let (tx, rx) = bounded(2);
    let mut context = CallbackState {
        tx: Outbox::new(tx),
        sequence: 7,
        dropped: Tally::new(Arc::new(AtomicU64::new(0))),
        stopping: Signal::new(Arc::new(AtomicBool::new(false))),
    };
    let data: Vec<u8> = (0..USB_BYTES).map(|i| (i % 251) as u8).collect();
    assert_eq!(context.receive(&data), BlockFate::Queued);
    assert_eq!(context.receive(&data[1..]), BlockFate::Ignored);
    assert_eq!(rx.try_recv().unwrap(), (7, data));
    assert!(rx.try_recv().is_err());
    assert_eq!(context.sequence, 8);
}

fn source() -> UsbSource {
    let (_, rx) = bounded(1);
    UsbSource {
        rx: Inbox::new(rx),
        expected: 3,
        gain_steps: vec![0, 280],
        applied_gain_db: 0,
        center_hz: 100_000_000,
    }
}

#[test]
fn samples_are_centred_and_gaps_end_the_reception() {
    let mut s = source();
    assert_eq!(s.sample_rate(), IQ_RATE);
    let samples = s.accept(Some((3, vec![0, 255, 127, 128]))).unwrap();
    assert_eq!(samples, vec![(-255, 255), (-1, 1)]);
    assert_eq!(s.expected, 4);
    assert_eq!(
        s.accept(Some((6, vec![0, 0]))).unwrap_err(),
        "Surcharge USB : réception arrêtée. Reconnectez le SDR."
    );
    assert_eq!(s.expected, 4);
    assert_eq!(
        s.accept(None).unwrap_err(),
        "SDR déconnecté ou flux USB interrompu"
    );
    assert!(UsbSource::check_room(BLOCK_SIZE).is_ok());
    assert_eq!(
        UsbSource::check_room(BLOCK_SIZE - 1).unwrap_err(),
        "Taille du bloc USB invalide"
    );
}

#[test]
fn gain_is_asked_for_and_read_back() {
    let mut s = source();
    assert_eq!(s.gain_command(200, true), Ok(280));
    assert_eq!(s.gain_command(140, true), Ok(0));
    assert_eq!(
        s.gain_command(200, false).unwrap_err(),
        "SDR USB déconnecté"
    );
    assert_eq!(s.set_gain(0, 277), Ok(277));
    assert_eq!(s.applied_gain_db, 277);
    assert_eq!(s.set_gain(-9, 0).unwrap_err(), "Gain RF refusé (-9)");
    assert_eq!(s.applied_gain_db, 277);
}

fn text(s: &str) -> Vec<u8> {
    let mut bytes = s.as_bytes().to_vec();
    bytes.resize(256, 0);
    bytes
}

#[test]
fn devices_are_described_by_their_descriptors() {
    let strings = DeviceStrings {
        code: 0,
        vendor: text(" RTLSDRBlog "),
        product: text("Blog V4"),
        serial: text("00000001 "),
        generic: Some(b"Generic RTL2832U".to_vec()),
    };
    let device = strings.decode().describe(2);
    assert_eq!(
        device,
        UsbDevice {
            index: 2,
            name: "RTLSDRBlog Blog V4".into(),
            serial: "00000001".into(),
        }
    );
    assert_eq!(device.label(), "RTLSDRBlog Blog V4 · USB 3 · S/N 00000001");
}

#[test]
fn devices_without_descriptors_have_their_general_name() {
    let mut strings = DeviceStrings {
        code: -1,
        vendor: text("x"),
        product: text("y"),
        serial: text("z"),
        generic: Some(b"Generic \xff".to_vec()),
    };
    let device = strings.decode().describe(0);
    assert_eq!(device.name, "Generic \u{fffd}");
    assert_eq!(device.serial, "");
    assert_eq!(
        device.label(),
        "Generic \u{fffd} · USB 1 · S/N indisponible"
    );
    strings.generic = None;
    assert_eq!(strings.decode().describe(0).name, "RTL-SDR");
    strings.code = 0;
    strings.product = text("");
    assert_eq!(strings.decode().describe(0).name, "RTL-SDR");
    assert_eq!(strings.decode().describe(0).serial, "z");
}

#[test]
fn bytes_behind_the_zero_are_not_read() {
    let mut vendor = text("AB");
    vendor[3] = b'C';
    let strings = DeviceStrings {
        code: 0,
        vendor,
        product: vec![b'p'; 300],
        serial: text("é"),
        generic: None,
    };
    let decoded = strings.decode();
    assert_eq!(decoded.vendor, "AB");
    assert_eq!(decoded.product, "p".repeat(255));
    assert_eq!(decoded.serial, "é");
}

#[test]
fn the_first_driver_that_is_there_is_taken() {
    assert_eq!(choose_driver(&[false, true, true]), Ok(1));
    assert!(choose_driver(&[false, false])
        .unwrap_err()
        .starts_with("Driver RTL-SDR absent"));
}

fn blog() -> UsbDevice {
    UsbDevice {
        index: 1,
        name: "Blog V4".into(),
        serial: "1".into(),
    }
}

fn opening() -> Opening {
    Opening::begin(blog(), 270, 156_800_000).ok().unwrap()
}

fn good_reply(command: Command) -> Reply {
    match command {
        Command::ListDevices => Reply::Devices(vec![blog()]),
        Command::Open(_) => Reply::Opened(0, true),
        Command::ReadFrequency => Reply::Value(156_800_000),
        Command::ReadRate => Reply::Value(IQ_RATE),
        Command::CountGains => Reply::Code(3),
        Command::ReadGains(_) => Reply::Gains(vec![0, 207, 280]),
        Command::ReadGain => Reply::Code(279),
        _ => Reply::Code(0),
    }
}

fn bad_reply(command: Command) -> Option<Reply> {
    match command {
        Command::ListDevices => Some(Reply::Devices(vec![])),
        Command::Open(_) => Some(Reply::Opened(-6, true)),
        Command::ReadFrequency | Command::ReadRate => Some(Reply::Value(1)),
        Command::ReadGains(_) | Command::ReadGain => None,
        _ => Some(Reply::Code(-1)),
    }
}

/// Answers everything well up to the given command.
fn up_to(stop: Command) -> Opening {
    let mut o = opening();
    let mut command = Command::ListDevices;
    while command != stop {
        command = o.reply(good_reply(command));
    }
    o
}

#[test]
fn a_device_that_confirms_everything_is_received() {
    let (tx, rx) = bounded(1);
    let mut s = up_to(Command::Receive).source(Inbox::new(rx));
    tx.send((0, vec![255, 0])).unwrap();
    assert_eq!(s.read(), Ok(vec![(255, -255)]));
    assert_eq!(s.expected, 1);
    drop(tx);
    assert_eq!(
        s.read().unwrap_err(),
        "SDR déconnecté ou flux USB interrompu"
    );
    assert_eq!(s.gain_steps, vec![0, 207, 280]);
    assert_eq!(s.applied_gain_db, 279);
    assert_eq!(s.center_hz, 156_800_000);
}

#[test]
fn every_refusal_ends_the_opening() {
    assert!(Opening::begin(blog(), 0, 499_999).err() == Some(OpenError::CenterOutOfRange));
    assert!(Opening::begin(blog(), 0, 1_766_000_001).err() == Some(OpenError::CenterOutOfRange));
    let cases = [
        (
            Command::ListDevices,
            Reply::Devices(vec![]),
            OpenError::NotConnected,
            Command::Fail,
        ),
        (
            Command::Open(1),
            Reply::Opened(-6, false),
            OpenError::Refused(-6),
            Command::Fail,
        ),
        (
            Command::Open(1),
            Reply::Opened(0, false),
            OpenError::Refused(0),
            Command::Fail,
        ),
        (
            Command::ResetBuffers,
            Reply::Code(-2),
            OpenError::NotSet(Setting::Buffers, -2),
            Command::CloseAndFail,
        ),
        (
            Command::ReadRate,
            Reply::Value(1),
            OpenError::NotConfirmed(156_800_000, 1),
            Command::CloseAndFail,
        ),
        (
            Command::CountGains,
            Reply::Code(257),
            OpenError::NoManualGains,
            Command::CloseAndFail,
        ),
        (
            Command::CountGains,
            Reply::Code(0),
            OpenError::NoManualGains,
            Command::CloseAndFail,
        ),
        (
            Command::SetGain(280),
            Reply::Code(-1),
            OpenError::GainRefused(-1),
            Command::CloseAndFail,
        ),
    ];
    for (command, reply, error, end) in cases {
        let mut o = up_to(command);
        assert_eq!(o.reply(reply), end);
        assert_eq!(o.error, Some(error));
    }
}

#[test]
fn the_first_refused_setting_is_reported_after_all_were_tried() {
    let mut o = up_to(Command::SetRate(IQ_RATE));
    assert_eq!(o.reply(Reply::Code(0)), Command::SetFrequency(156_800_000));
    assert_eq!(o.reply(Reply::Code(-3)), Command::SetManualGain);
    assert_eq!(o.reply(Reply::Code(-4)), Command::ResetBuffers);
    assert_eq!(o.reply(Reply::Code(0)), Command::CloseAndFail);
    assert_eq!(
        o.error.unwrap().message(),
        "Configuration fréquence RX impossible (-3)"
    );
}

#[test]
fn failures_are_told_in_words() {
    let messages = [
        (OpenError::CenterOutOfRange, "Centre RF hors plage"),
        (
            OpenError::NotConnected,
            "Le SDR sélectionné n'est plus connecté. Sélectionnez-le à nouveau.",
        ),
        (
            OpenError::Refused(-6),
            "Impossible d'ouvrir le SDR USB (-6). Fermez les autres logiciels SDR et vérifiez WinUSB.",
        ),
        (
            OpenError::NotSet(Setting::ManualGain, 4),
            "Configuration gain manuel impossible (4)",
        ),
        (
            OpenError::NotConfirmed(5, 6),
            "Réglage RF non confirmé : centre 5 Hz, débit 6 S/s",
        ),
        (
            OpenError::NoManualGains,
            "Le tuner ne fournit pas de gains RF manuels compatibles",
        ),
        (
            OpenError::GainRefused(-1),
            "Réglage du gain RF impossible (-1)",
        ),
    ];
    for (error, message) in messages {
        assert_eq!(error.message(), message);
    }
}

#[test]
fn the_bus_is_looked_at_every_two_seconds() {
    let mut monitor = DeviceMonitor::default();
    assert_eq!(monitor.next(false), MonitorAction::Load);
    assert_eq!(monitor.driver_loaded(false), MonitorAction::Report);
    for _ in 0..20 {
        assert_eq!(monitor.next(false), MonitorAction::Rest);
    }
    assert_eq!(monitor.next(false), MonitorAction::Load);
    assert_eq!(monitor.driver_loaded(true), MonitorAction::List);
    for _ in 0..20 {
        assert_eq!(monitor.next(false), MonitorAction::Rest);
    }
    assert_eq!(monitor.next(false), MonitorAction::List);
    assert_eq!(monitor.next(true), MonitorAction::Stop);
}

#[test]
fn no_block_is_given_after_a_lost_one() {
    let mut s = source();
    let first = s.expected;
    assert!(s.accept(Some((first, vec![0, 0]))).is_ok());
    for number in [first + 2, first + 3, first + 9] {
        assert!(s.accept(Some((number, vec![0, 0]))).is_err());
    }
    assert!(s.accept(None).is_err());
    assert_eq!(s.expected, first + 1);
}

#[test]
fn one_bad_answer_fails_the_opening_and_closes_once() {
    for spoiled in 0..13 {
        let mut o = opening();
        let mut command = Command::ListDevices;
        let (mut answers, mut closings, mut bad, mut opened) = (0, 0, false, false);
        while command != Command::Receive
            && command != Command::Fail
            && command != Command::CloseAndFail
        {
            let reply = match bad_reply(command) {
                Some(reply) if answers == spoiled => {
                    bad = true;
                    reply
                }
                _ => {
                    opened |= matches!(command, Command::Open(_));
                    good_reply(command)
                }
            };
            command = o.reply(reply);
            answers += 1;
            closings += (command == Command::CloseAndFail) as u32;
        }
        assert_eq!(command == Command::Receive, !bad);
        assert_eq!(o.error.is_none(), !bad);
        assert_eq!(closings, (bad && opened) as u32);
        assert!(answers <= 12 && (bad || answers == 12));
    }
}
