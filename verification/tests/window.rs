//! What the window shows and what its controls do.

use crossbeam_channel::bounded;
use crossbeam_queue::ArrayQueue;
use quasar_sdr::channel::{Inbox, Outbox, Tap};
use quasar_sdr::decimal::push_fixed;
use quasar_sdr::driver::usb::UsbDevice;
use quasar_sdr::model::{Mode, Snapshot, Spectrum, VfoConfig, VfoStatus, FFT_SIZE};
use quasar_sdr::ui::app::{lost_blocks, Controls, Delivery, Link, Notice, HISTORY};
use quasar_sdr::ui::display::{
    axis, blank_dc_bins, display_power, frequency_at, grid_level, intensity, place_of, share_of,
};
use quasar_sdr::ui::labels;
use quasar_sdr::ui::labels::ChannelState;
use quasar_sdr::ui::meter::{frame_time, segment_light, Light, Meter};
use quasar_sdr::ui::theme::{toggle, waterfall_color, AMBER, BG};
use quasar_sdr::ui::QuasarApp;
use std::sync::Arc;

#[test]
fn normalized_display_blanks_dc_without_altering_measurements() {
    let floor: Vec<i32> = (0..FFT_SIZE as i32)
        .map(|i| -120_000_000 + i * 20_000)
        .collect();
    let mut s = Spectrum {
        power_db: floor.clone(),
        floor_db: floor,
    };
    s.power_db[FFT_SIZE / 2] += 50_000_000;
    s.power_db[100] += 12_000_000;
    let values = display_power(&s, true, true, Some(3_000_000));
    assert_eq!(values[FFT_SIZE / 2], 0);
    assert_eq!(values[100], 12_000_000);
    assert_eq!(
        s.power_db[FFT_SIZE / 2] - s.floor_db[FFT_SIZE / 2],
        50_000_000
    );
    let absolute: Vec<i64> = s.power_db.iter().map(|p| *p as i64).collect();
    assert_eq!(display_power(&s, false, false, Some(3_000_000)), absolute);
}

#[test]
fn dc_blanking_only_interpolates_the_five_central_bins() {
    let mut spectrum = vec![-80_000_000_i64; FFT_SIZE];
    spectrum[FFT_SIZE / 2] = -5_000_000;
    spectrum[100] = -20_000_000;
    blank_dc_bins(&mut spectrum);
    assert_eq!(spectrum[FFT_SIZE / 2], -80_000_000);
    assert_eq!(spectrum[100], -20_000_000);
    assert_eq!(spectrum[FFT_SIZE / 2 + 3], -80_000_000);
}

#[test]
fn the_central_bins_lie_on_a_line() {
    let mut row = vec![0, 9, 9, 9, 9, 9, 60];
    blank_dc_bins(&mut row);
    assert_eq!(row, vec![0, 10, 20, 30, 40, 50, 60]);
    let mut row = vec![i64::MAX, 0, 0, 0, 0, 0, i64::MIN];
    blank_dc_bins(&mut row);
    assert_eq!(row[3], 0);
    let mut short = vec![1, 2, 3, 4, 5, 6];
    blank_dc_bins(&mut short);
    assert_eq!(short, vec![1, 2, 3, 4, 5, 6]);
}

#[test]
fn levels_are_placed_on_the_plot() {
    assert_eq!(axis(true), (-10_000_000, 40_000_000));
    assert_eq!(axis(false), (-110_000_000, 0));
    assert_eq!(grid_level(true, 1), 30_000_000);
    assert_eq!(grid_level(false, 2), -44_000_000);
    assert_eq!(share_of(15, 10, 20), 500_000);
    assert_eq!(share_of(-15, 10, 20), 0);
    assert_eq!(share_of(i64::MAX, 10, 20), 1_000_000);
    assert_eq!(intensity(15_000_000, true), 500_000);
    assert_eq!(intensity(-15_000_000, false), 1_000_000);
    assert_eq!(intensity(-100_000_000, false), 0);
    assert_eq!(place_of(0), 500_000);
    assert_eq!(place_of(-600_000), 250_000);
    assert_eq!(frequency_at(100_000_000, 500, 1_000), 100_000_000);
    assert_eq!(frequency_at(100_000_000, 1_000, 1_000), 101_200_000);
    assert_eq!(frequency_at(100_000_000, 0, 3), 98_800_000);
}

#[test]
fn the_waterfall_runs_from_dark_to_amber() {
    assert_eq!(waterfall_color(-5), BG);
    assert_eq!(waterfall_color(0), BG);
    assert_eq!(waterfall_color(110_000), (12, 21, 42));
    assert_eq!(waterfall_color(220_000), (17, 29, 63));
    assert_eq!(waterfall_color(480_000), (30, 85, 149));
    assert_eq!(waterfall_color(740_000), (46, 204, 220));
    assert_eq!(waterfall_color(870_000), (150, 205, 171));
    assert_eq!(waterfall_color(1_000_000), AMBER);
    assert_eq!(waterfall_color(i32::MAX), AMBER);
}

#[test]
fn toggles_turn_over() {
    let mut value = false;
    assert!(!toggle(&mut value, false));
    assert!(!value);
    assert!(toggle(&mut value, true));
    assert!(value);
}

fn written(n: i64, scale: u32, decimals: u32, plus: bool) -> String {
    let mut out = String::new();
    push_fixed(&mut out, n, scale, decimals, plus);
    out
}

#[test]
fn numbers_are_rounded_as_they_are_written() {
    assert_eq!(written(-123_456_789, 6, 1, false), "-123.5");
    assert_eq!(written(250_000, 6, 1, false), format!("{:.1}", 0.25));
    assert_eq!(written(750_000, 6, 1, false), format!("{:.1}", 0.75));
    assert_eq!(written(2_500_000, 6, 0, true), format!("{:+.0}", 2.5));
    assert_eq!(written(-10_000, 6, 1, true), format!("{:+.1}", -0.01));
    assert_eq!(written(9_999_999, 6, 2, false), "10.00");
    assert_eq!(written(0, 1, 1, true), "+0.0");
    assert_eq!(written(i64::MIN, 0, 0, false), "-9223372036854775808");
}

#[test]
fn texts_are_written_out() {
    assert_eq!(labels::vfo_name(3), "VFO 03");
    assert_eq!(labels::vfo_name(123), "VFO 123");
    assert_eq!(labels::plot_name(3), "V3");
    assert_eq!(labels::frequency_title(12), "FRÉQUENCE · VFO 12");
    assert_eq!(labels::channel_count(8), "08 / 08");
    assert_eq!(labels::frequency_caption(156_800_000), "MHz · VHF MARINE 16");
    assert_eq!(labels::frequency_caption(1), "MHz · SAISIE DIRECTE");
    let mut vfo = VfoConfig::new(1, 0, Mode::Nfm);
    assert_eq!(
        labels::card_caption(&vfo, 156_800_000),
        "VHF MARINE · CANAL 16"
    );
    vfo.frequency_hz = 156_755_040;
    assert_eq!(
        labels::card_caption(&vfo, 156_800_000),
        "MHz · OFFSET -45.0 kHz"
    );
    assert_eq!(labels::gain_text(280), "+28.0 dB");
    assert_eq!(labels::level_text(-61_250_000), "-61.2");
    assert_eq!(labels::contrast_text(12_340_000), "Δ +12.3 dB / bruit");
    let status = VfoStatus {
        snr_db: 1_000_000,
        level_dbfs: -2_000_000,
        ..Default::default()
    };
    assert_eq!(
        labels::measures_text(&status),
        "Δ bruit +1.0 dB  ·  -2.0 dBFS"
    );
    assert_eq!(labels::percent_text(805_000), "80 %");
    assert_eq!(labels::progress_text(333_333), "Mesure du bruit  33 %");
    assert_eq!(
        labels::progress_text(1_000_000),
        "Bruit normalisé · suivi actif"
    );
    assert_eq!(labels::grid_text(-44_000_000), "-44 dB");
    assert_eq!(labels::squelch_text(10_000_000), "SQL +10 dB / bruit");
    assert_eq!(labels::axis_text(156_800_000, 0), "155.600");
    assert_eq!(labels::axis_text(156_800_000, 8), "158.000");
    assert_eq!(labels::axis_text(500_000, 0), "-0.700");
    assert_eq!(labels::load_text(1_234, 5), "DSP 1.23 ms  ·  I/Q perdus 5");
    assert_eq!(
        labels::audio_text("HP", 1, 2, 3),
        "HP\nAudio écrasé 1 · Sous-alimentation 2 · Erreurs 3"
    );
    assert_eq!(lost_blocks(3, 4), 7);
}

#[test]
fn channels_are_described() {
    let mut s = VfoStatus::default();
    let of = ChannelState::of;
    assert_eq!(of(false, true, Some(s)).label(), "HORS LIGNE");
    assert_eq!(of(true, false, Some(s)).label(), "HORS BANDE");
    assert_eq!(of(true, true, Some(s)).label(), "VEILLE");
    assert_eq!(of(true, true, None).label(), "VEILLE");
    s.squelch_open = true;
    assert_eq!(of(true, true, Some(s)).label(), "ACTIF");
    s.audible = true;
    assert_eq!(of(true, true, Some(s)).label(), "ÉCOUTE");
}

#[test]
fn the_meter_rises_falls_and_holds_its_peak() {
    assert_eq!(frame_time(5), 1_000);
    assert_eq!(frame_time(16_000), 16_000);
    assert_eq!(frame_time(9_000_000), 100_000);
    let mut m = Meter::new();
    m.show(-60_000_000, 1, 1_000, 16_000, 400_000, 50_000);
    assert_eq!((m.level, m.peak), (-60_000_000, -60_000_000));
    m.show(-40_000_000, 1, 17_000, 16_000, 400_000, 50_000);
    assert_eq!((m.level, m.peak), (-52_000_000, -40_000_000));
    m.show(-90_000_000, 1, 33_000, 16_000, 400_000, 50_000);
    assert_eq!((m.level, m.peak), (-53_900_000, -40_000_000));
    m.show(-90_000_000, 1, 1_017_001, 16_000, 400_000, 50_000);
    assert_eq!(m.peak, -40_192_000);
    m.show(10, 2, 1_033_000, 16_000, 400_000, 50_000);
    assert_eq!((m.level, m.peak, m.vfo), (0, 0, 2));
    m.rest();
    assert_eq!((m.level, m.peak, m.vfo), (-120_000_000, -120_000_000, 0));
}

#[test]
fn the_bar_is_lit_up_to_the_level() {
    let lit = |level: i32| {
        (0..36)
            .filter(|i| segment_light(*i, Some(level)) != Light::Off)
            .count()
    };
    assert_eq!(lit(-120_000_000), 0);
    assert_eq!(lit(-60_000_000), 18);
    assert_eq!(lit(-59_999_999), 19);
    assert_eq!(lit(0), 36);
    assert_eq!(segment_light(0, None), Light::Off);
    assert_eq!(segment_light(24, Some(0)), Light::Low);
    assert_eq!(segment_light(25, Some(0)), Light::Middle);
    assert_eq!(segment_light(31, Some(0)), Light::Middle);
    assert_eq!(segment_light(32, Some(0)), Light::High);
}

fn device(index: u32, serial: &str) -> UsbDevice {
    UsbDevice {
        index,
        name: "Blog V4".into(),
        serial: serial.into(),
    }
}

fn running() -> QuasarApp {
    let mut app = QuasarApp::new();
    app.devices_changed(Ok(vec![device(0, "1"), device(1, "2")]));
    app.choose_device(1);
    app.started();
    app
}

fn snapshot(center_hz: i64) -> Snapshot {
    Snapshot {
        zero_progress: 0,
        spectrum: Spectrum {
            power_db: vec![-70_000_000; 9],
            floor_db: vec![-90_000_000; 9],
        },
        vfos: vec![VfoStatus {
            id: 1,
            level_dbfs: -30_000_000,
            in_band: true,
            ..Default::default()
        }],
        selected: None,
        dsp_us: 0,
        center_hz,
    }
}

#[test]
fn nothing_runs_before_a_device_is_chosen() {
    let mut app = QuasarApp::new();
    assert_eq!(app.notice(), Notice::NoDevice);
    assert_eq!(app.center_input, "156.800000");
    app.toggle_reception();
    assert_eq!(app.link, Link::Down);
    app.devices_changed(Ok(vec![device(0, "1")]));
    assert_eq!(app.notice(), Notice::ChooseDevice);
    app.choose_device(0);
    assert_eq!((app.notice(), app.link), (Notice::Nothing, Link::Starting));
    assert!(app.is_running() && !app.enabled());
    app.started();
    app.gain_changed(279, vec![0, 279]);
    // The controls wait for the first data of the band.
    assert!(!app.enabled());
    app.snapshot_received(snapshot(100_000_000));
    assert!(!app.enabled());
    app.snapshot_received(snapshot(156_800_000));
    assert!(app.enabled());
    app.clear_plot();
    assert!(app.enabled());
    app.choose_device(0);
    assert_eq!(app.link, Link::Up);
    app.toggle_reception();
    assert!(!app.is_running() && !app.enabled());
    app.toggle_reception();
    assert_eq!(app.link, Link::Starting);
    app.started();
    app.gain_changed(279, vec![0, 279]);
    assert!(!app.enabled());
}

#[test]
fn a_device_that_is_gone_is_stopped_and_forgotten() {
    let mut app = running();
    app.snapshot_received(snapshot(156_800_000));
    // The descriptors of a device in use may be out of reach.
    app.devices_changed(Ok(vec![device(0, "1"), device(1, "")]));
    assert_eq!(app.devices[1], device(1, "2"));
    assert_eq!(app.link, Link::Up);
    assert!(app.snapshot.is_some());
    app.devices_changed(Err("plus de driver".into()));
    assert_eq!(app.driver_error.as_deref(), Some("plus de driver"));
    assert!(app.devices.is_empty() && app.selected_device.is_none());
    assert_eq!(app.link, Link::Down);
    assert!(app.snapshot.is_none() && app.waterfall.is_empty());
    app.devices_changed(Ok(vec![]));
    assert!(app.driver_error.is_none());
}

#[test]
fn snapshots_of_another_band_are_left_out() {
    let mut app = running();
    assert!(!app.snapshot_received(snapshot(100_000_000)));
    assert!(app.snapshot.is_none());
    for _ in 0..HISTORY + 5 {
        assert!(app.snapshot_received(snapshot(156_800_000)));
    }
    assert_eq!(app.waterfall.len(), HISTORY);
    assert_eq!(app.waterfall[0], vec![20_000_000; 9]);
    assert_eq!(app.status(1, true).unwrap().level_dbfs, -30_000_000);
    assert!(app.status(2, false).is_none());
    app.engine_failed("perdu".into());
    assert_eq!(app.error.as_deref(), Some("perdu"));
    assert!(app.waterfall.is_empty() && !app.is_running());
}

#[test]
fn settings_wait_until_they_are_taken() {
    let mut app = running();
    assert!(!app.settings_to_send());
    app.set_mix(true);
    assert!(app.settings.mix && app.settings_to_send());
    app.settings_sent(false);
    assert!(app.settings_to_send());
    app.settings_sent(true);
    assert!(!app.settings_to_send());
    assert_eq!(app.gain_to_send(), None);
    app.choose_gain(280);
    assert_eq!(app.gain_to_send(), None);
    app.choose_gain(207);
    assert_eq!(app.gain_to_send(), Some(207));
    app.gain_sent(false);
    assert_eq!(app.gain_to_send(), Some(207));
    app.gain_sent(true);
    assert_eq!(app.gain_to_send(), None);
}

#[test]
fn messages_are_looked_for_and_sent() {
    let mut app = running();
    let (device_tx, device_rx) = bounded(1);
    let mut device_rx = Inbox::new(device_rx);
    let (gain_tx, gain_rx) = bounded(1);
    let mut gain_rx = Inbox::new(gain_rx);
    let (error_tx, error_rx) = bounded(1);
    let mut error_rx = Inbox::new(error_rx);
    let (commands, command_rx) = bounded(1);
    let mut commands = Outbox::new(commands);
    let (gains, asked_rx) = bounded(1);
    let mut gains = Outbox::new(gains);
    let snapshots = Arc::new(ArrayQueue::new(2));
    let mut tap = Tap::new(snapshots.clone());
    assert!(!app.poll_devices(&mut device_rx));
    assert!(!app.poll_gain(&mut gain_rx));
    assert!(!app.poll_error(&mut error_rx));
    assert_eq!(app.poll_snapshot(&mut tap), None);
    gain_tx.send((279, vec![0, 279])).unwrap();
    assert!(app.poll_gain(&mut gain_rx));
    assert_eq!((app.rf_applied, app.rf_steps.len()), (Some(279), 2));
    assert!(snapshots.push(snapshot(1)).is_ok());
    assert!(snapshots.push(snapshot(156_800_000)).is_ok());
    assert_eq!(app.poll_snapshot(&mut tap), Some(false));
    assert_eq!(app.poll_snapshot(&mut tap), Some(true));
    assert!(app.snapshot.is_some());
    assert_eq!(app.flush_settings(&mut commands), Delivery::NotDue);
    assert_eq!(app.flush_gain(&mut gains), Delivery::NotDue);
    assert!(command_rx.try_recv().is_err() && asked_rx.try_recv().is_err());
    app.set_mix(true);
    app.choose_gain(0);
    assert_eq!(app.flush_settings(&mut commands), Delivery::Taken);
    assert_eq!(app.flush_gain(&mut gains), Delivery::Taken);
    assert!(!app.dirty && !app.rf_dirty);
    app.set_mix(false);
    app.choose_gain(279);
    assert_eq!(app.flush_settings(&mut commands), Delivery::Refused);
    assert_eq!(app.flush_gain(&mut gains), Delivery::Refused);
    assert!(app.dirty && app.rf_dirty, "no room yet");
    assert!(command_rx.try_recv().unwrap().mix);
    assert_eq!(asked_rx.try_recv(), Ok(0));
    error_tx.send("perdu".to_owned()).unwrap();
    assert!(app.poll_error(&mut error_rx));
    assert_eq!(app.error.as_deref(), Some("perdu"));
    device_tx.send(Ok(vec![])).unwrap();
    assert!(app.poll_devices(&mut device_rx));
    assert!(app.devices.is_empty() && app.selected_device.is_none());
}

#[test]
fn dragging_shows_the_band_and_tells_it_at_the_end() {
    let mut app = running();
    app.snapshot_received(snapshot(156_800_000));
    app.dragged(100_000, 1_000_000);
    assert_eq!(app.settings.center_hz, 156_800_000);
    app.drag_started();
    app.dragged(0, 1_000_000);
    assert!(app.snapshot.is_some());
    app.dragged(100_000, 1_000_000);
    assert_eq!(app.settings.center_hz, 156_560_000);
    assert_eq!(app.center_input, "156.560000");
    assert!(app.snapshot.is_none() && !app.settings_to_send());
    app.dragged(200_000, 1_000_000);
    assert_eq!(app.settings.center_hz, 156_320_000);
    let (commands, command_rx) = bounded(1);
    let mut commands = Outbox::new(commands);
    app.dirty = true;
    assert_eq!(app.flush_settings(&mut commands), Delivery::NotDue);
    app.drag_stopped();
    assert!(app.settings_to_send());
    assert_eq!(app.flush_settings(&mut commands), Delivery::Taken);
    assert_eq!(command_rx.try_recv().unwrap().center_hz, 156_320_000);
}

#[test]
fn clicks_and_texts_tune_the_channel() {
    let mut app = running();
    app.snapshot_received(snapshot(156_800_000));
    app.clicked(750_000, 1_000_000);
    assert_eq!(app.settings.vfos[0].frequency_hz, 157_400_000);
    assert_eq!(app.frequency_inputs[&1], "157.400000");
    assert_eq!(app.settings.center_hz, 156_800_000);
    assert!(app.snapshot.is_some() && app.dirty);
    app.submit_frequency(1, "abc");
    assert!(app
        .frequency_error
        .as_deref()
        .unwrap()
        .starts_with("Fréquence invalide"));
    app.submit_frequency(1, "88,5");
    assert!(app.frequency_error.is_none());
    assert_eq!(app.settings.center_hz, 88_500_000);
    assert_eq!(app.center_input, "88.500000");
    assert!(app.snapshot.is_none());
    app.submit_center("5000");
    assert!(app.frequency_error.is_some());
    app.submit_center("100");
    assert!(app.frequency_error.is_none());
    assert_eq!(app.settings.center_hz, 100_000_000);
    app.recenter(0);
    assert_eq!(app.settings.center_hz, 88_500_000);
    app.prepare_input(1, 1);
    assert_eq!(app.frequency_inputs[&1], "88.500000");
    app.prepare_input(2, 1_000_000);
    assert_eq!(app.frequency_inputs[&2], "1.000000");
}

#[test]
fn channels_come_and_go() {
    let mut app = running();
    app.submit_center("100");
    for _ in 0..9 {
        app.add_vfo();
    }
    assert_eq!(app.settings.vfos.len(), 8);
    assert_eq!((app.selected, app.next_id), (8, 9));
    assert_eq!(app.settings.vfos[7].frequency_hz, 100_000_000);
    assert_eq!(app.settings.vfos[7].mode, Mode::Nfm);
    app.prepare_input(8, 1);
    app.remove_vfo(8);
    assert_eq!(app.selected, 1);
    assert!(!app.frequency_inputs.contains_key(&8));
    app.select(3);
    app.remove_vfo(1);
    assert_eq!(app.selected, 3);
    app.toggle_tone(0);
    assert_eq!(app.settings.vfos[0].ctcss_hz, Some(100_000));
    app.toggle_tone(0);
    assert_eq!(app.settings.vfos[0].ctcss_hz, None);
    for id in 2..8 {
        app.remove_vfo(id);
    }
    assert_eq!((app.selected, app.settings.vfos.len()), (0, 0));
    app.add_vfo();
    assert_eq!(app.settings.vfos[0].id, 9);
}

#[test]
fn the_display_is_forgotten_when_it_changes() {
    let mut app = running();
    app.snapshot_received(snapshot(156_800_000));
    app.toggle_display(false, false, false);
    assert!(app.snapshot.is_some());
    app.toggle_display(true, true, false);
    assert!(!app.normalized && !app.blank_dc && !app.noise_blank);
    assert!(app.snapshot.is_none());
    app.settings.noise_zero_request = u64::MAX;
    app.auto_zero();
    assert_eq!(app.settings.noise_zero_request, 0);
    assert!(app.normalized && app.noise_blank && app.dirty);
    app.set_margin(20_000_000);
    app.snapshot_received(snapshot(156_800_000));
    assert_eq!(app.waterfall[0], vec![0; 9]);
}

#[test]
fn the_meter_follows_the_selected_channel() {
    let mut app = running();
    assert!(app.update_meter(0, 16_000, 1_000_000, 1_000_000).is_none());
    app.snapshot_received(snapshot(156_800_000));
    let status = app.update_meter(0, 16_000, 1_000_000, 1_000_000);
    assert_eq!(status.unwrap().level_dbfs, -30_000_000);
    assert_eq!(app.meter.level, -30_000_000);
    app.select(2);
    assert!(app.update_meter(0, 16_000, 1_000_000, 1_000_000).is_none());
    assert_eq!(app.meter.level, -120_000_000);
}

#[test]
fn the_receiver_is_told_of_a_control_that_moved() {
    let mut app = running();
    let controls = app.controls();
    app.set_controls(controls);
    assert!(!app.dirty);
    let moved = Controls {
        use_vad: true,
        master_gain: 250_000,
        sql_dbfs: -60_000_000,
        sql_relative_db: 12_000_000,
        adaptive_squelch: false,
        voice_denoise: true,
        voice_strength: 400_000,
    };
    app.set_controls(moved);
    assert!(app.dirty);
    assert_eq!(app.controls(), moved);
    assert_eq!(app.settings.sql_dbfs, -60_000_000);
    assert_eq!(app.settings.center_hz, 156_800_000);
    app.settings_sent(true);
    app.set_controls(moved);
    assert!(!app.dirty);
}

#[test]
fn a_channel_keeps_its_name_and_frequency_when_it_is_edited() {
    let mut app = running();
    let before = app.settings.vfos[0];
    app.edit_vfo(0, before);
    assert!(!app.dirty);
    let mut edited = before;
    edited.id = 99;
    edited.frequency_hz = 1;
    app.edit_vfo(0, edited);
    assert!(!app.dirty);
    edited.muted = true;
    edited.priority = 7;
    edited.ctcss_hz = Some(67_000);
    app.edit_vfo(0, edited);
    assert!(app.dirty);
    let after = app.settings.vfos[0];
    assert_eq!((after.id, after.frequency_hz), (before.id, before.frequency_hz));
    assert_eq!((after.muted, after.priority), (true, 7));
    assert_eq!(after.ctcss_hz, Some(67_000));
}

#[test]
fn a_run_of_snapshots_leaves_a_row_for_each_of_the_band() {
    let mut app = running();
    let level = |power: i32, center: i64| {
        let mut s = snapshot(center);
        s.spectrum.power_db = vec![power; 9];
        s
    };
    for (power, center) in [
        (-80_000_000, 156_800_000),
        (-10_000_000, 100_000_000),
        (-70_000_000, 156_800_000),
        (-60_000_000, 156_800_000),
        (-20_000_000, 156_800_001),
    ] {
        app.snapshot_received(level(power, center));
    }
    let rows: Vec<i64> = app.waterfall.iter().map(|row| row[0]).collect();
    assert_eq!(rows, vec![30_000_000, 20_000_000, 10_000_000]);
    assert_eq!(app.snapshot.unwrap().spectrum.power_db[0], -60_000_000);
}
