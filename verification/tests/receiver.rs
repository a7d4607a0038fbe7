//! The receiver with a floating-point front end: transform, mixing, filters and
//! demodulation.

use num_complex::Complex32;
use quasar_sdr::dsp::detector::ToneDetector;
use quasar_sdr::dsp::filter::Fir;
use quasar_sdr::dsp::processor::{Carry, ChannelAudio, Measurement, Processor};
use quasar_sdr::dsp::spectrum::{centred, channel_bins, channel_snr, SpectrumAnalyzer};
use quasar_sdr::dsp::vfo::{filter_plan, Vfo, VoiceChange};
use quasar_sdr::model::{
    Mode, Settings, Snapshot, Spectrum, VfoConfig, VfoStatus, AUDIO_DECIMATION, AUDIO_RATE,
    BLOCK_SIZE, CENTER_HZ, CHANNEL_RATE, FFT_SIZE, IQ_RATE,
};
use std::f32::consts::{PI, TAU};

const DB: f32 = 1e6;
const FULL: f32 = 1e8;

/// The windowed transform with its average.
struct Transform {
    fft: std::sync::Arc<dyn rustfft::Fft<f32>>,
    window: Vec<f32>,
    averaged: Vec<f32>,
    started: bool,
}

impl Transform {
    fn new() -> Self {
        Transform {
            fft: rustfft::FftPlanner::new().plan_fft_forward(FFT_SIZE),
            window: (0..FFT_SIZE)
                .map(|i| 0.5 - 0.5 * (TAU * i as f32 / FFT_SIZE as f32).cos())
                .collect(),
            averaged: vec![0.0; FFT_SIZE],
            started: false,
        }
    }

    fn power(&mut self, iq: &[Complex32]) -> Vec<i32> {
        assert_eq!(iq.len(), FFT_SIZE);
        let mut buffer: Vec<Complex32> =
            iq.iter().zip(&self.window).map(|(x, w)| x * w).collect();
        self.fft.process(&mut buffer);
        let scale = (FFT_SIZE as f32 * 0.5).powi(2);
        let raw: Vec<f32> = buffer.iter().map(|x| x.norm_sqr() / scale).collect();
        let row = centred(&raw);
        for (mean, power) in self.averaged.iter_mut().zip(row) {
            *mean = if self.started {
                *mean + 0.2 * (power - *mean)
            } else {
                power
            };
        }
        self.started = true;
        self.averaged
            .iter()
            .map(|p| (10.0 * p.max(1e-14).log10() * DB).round() as i32)
            .collect()
    }
}

fn level_dbfs(power_db: &[i32], offset: i64, bandwidth: u32) -> i32 {
    let (lo, hi) = channel_bins(offset, bandwidth);
    let power: f32 = power_db[lo..=hi]
        .iter()
        .map(|db| 10.0_f32.powf(*db as f32 / DB / 10.0))
        .sum();
    (10.0 * (power / 1.5).max(1e-14).log10() * DB).round() as i32
}

fn band_pass(fs: f32, low: f32, high: f32, length: usize) -> Fir<Complex32> {
    let cutoff = (high - low) * 0.5 / fs;
    let center = (high + low) * 0.5 / fs;
    let middle = (length - 1) as f32 * 0.5;
    let real: Vec<f32> = (0..length)
        .map(|i| {
            let n = i as f32 - middle;
            let sinc = if n == 0.0 {
                2.0 * cutoff
            } else {
                (TAU * cutoff * n).sin() / (PI * n)
            };
            let w = TAU * i as f32 / (length - 1) as f32;
            sinc * (0.42 - 0.5 * w.cos() + 0.08 * (2.0 * w).cos())
        })
        .collect();
    let sum: f32 = real.iter().sum();
    let taps = real
        .iter()
        .enumerate()
        .map(|(i, x)| Complex32::from_polar(x / sum, TAU * center * (i as f32 - middle)))
        .collect();
    Fir::new(taps, Complex32::default())
}

fn convolve(filter: &Fir<Complex32>) -> Complex32 {
    filter.output(Complex32::default(), |sum, tap, sample| sum + tap * sample)
}

/// The resonator of a tone detector.
struct Resonator {
    coeff: f32,
    s1: f32,
    s2: f32,
    energy: f32,
}

impl Resonator {
    fn new(hz: f32, rate: u32) -> Self {
        Resonator {
            coeff: 2.0 * (TAU * hz / rate as f32).cos(),
            s1: 0.0,
            s2: 0.0,
            energy: 0.0,
        }
    }

    fn push(&mut self, x: f32) {
        let s = x + self.coeff * self.s1 - self.s2;
        self.s2 = self.s1;
        self.s1 = s;
        self.energy += x * x;
    }

    /// The mean energy and the share of the tone, and starts anew.
    fn close(&mut self, length: f32) -> (u64, u64) {
        let power = self.s1 * self.s1 + self.s2 * self.s2 - self.coeff * self.s1 * self.s2;
        let ratio = 2.0 * power / (length * self.energy + 1e-12);
        let mean = self.energy / length;
        self.s1 = 0.0;
        self.s2 = 0.0;
        self.energy = 0.0;
        ((mean * 1e12) as u64, (ratio * 1e6) as u64)
    }
}

/// The floating-point side of a channel.
struct Front {
    oscillator: Complex32,
    step: Complex32,
    prefilter: Fir<Complex32>,
    channel_filter: Fir<Complex32>,
    audio_filter: Fir<Complex32>,
    previous: Complex32,
    dc: f32,
    deemphasis: f32,
    resonator: Option<Resonator>,
    net: Option<Box<nnnoiseless::DenoiseState<'static>>>,
}

impl Front {
    fn new(config: &VfoConfig, center_hz: i64) -> Self {
        let plan = filter_plan(config.mode);
        let offset = config.offset_hz(center_hz) as f32;
        Front {
            oscillator: Complex32::new(1.0, 0.0),
            step: Complex32::from_polar(1.0, -TAU * offset / IQ_RATE as f32),
            prefilter: band_pass(IQ_RATE as f32, -100_000.0, 100_000.0, 129),
            channel_filter: band_pass(
                CHANNEL_RATE as f32,
                plan.low_hz as f32,
                plan.high_hz as f32,
                plan.taps,
            ),
            audio_filter: band_pass(plan.rate as f32, -15_000.0, 15_000.0, 65),
            previous: Complex32::new(1.0, 0.0),
            dc: 0.0,
            deemphasis: 0.0,
            resonator: config
                .ctcss_hz
                .map(|hz| Resonator::new(hz as f32 / 1000.0, AUDIO_RATE)),
            net: None,
        }
    }

    fn process(&mut self, vfo: &mut Vfo, iq: &[Complex32]) -> Vec<i32> {
        let mode = vfo.config.mode;
        let plan = filter_plan(mode);
        let wide = mode == Mode::Wfm;
        let alpha = 1.0 - (-1.0 / (CHANNEL_RATE as f32 * 50e-6)).exp();
        let mut audio = Vec::with_capacity(iq.len() / AUDIO_DECIMATION);
        for x in iq {
            self.prefilter.push(x * self.oscillator);
            self.oscillator *= self.step;
            let due = vfo.advance();
            if due.renormalize {
                self.oscillator /= self.oscillator.norm().max(1e-12);
            }
            if !due.channel {
                continue;
            }
            self.channel_filter.push(convolve(&self.prefilter));
            if !due.demodulate {
                continue;
            }
            let baseband = convolve(&self.channel_filter);
            let mut sample = match mode {
                Mode::Nfm | Mode::Wfm => {
                    let product = baseband * self.previous.conj();
                    self.previous = baseband;
                    product.arg() * plan.rate as f32 / (TAU * plan.deviation as f32)
                }
                Mode::Am => baseband.norm(),
                Mode::Lsb | Mode::Usb => baseband.re * 2.0,
            };
            if wide {
                self.deemphasis += alpha * (sample - self.deemphasis);
                self.audio_filter.push(Complex32::new(self.deemphasis, 0.0));
                if !due.emit {
                    continue;
                }
                sample = convolve(&self.audio_filter).re;
            }
            self.dc += 0.002 * (sample - self.dc);
            sample -= self.dc;
            if let Some(resonator) = &mut self.resonator {
                resonator.push(sample);
                if vfo.tone_sample() {
                    let length = vfo.tone.unwrap().length as f32;
                    let (mean, share) = resonator.close(length);
                    vfo.tone_window(mean, share);
                }
            }
            audio.push((sample * FULL).round() as i32);
        }
        audio
    }

    fn clean(&mut self, vfo: &mut Vfo, change: VoiceChange, audio: &mut [i32], strength: i32) {
        match change {
            VoiceChange::Idle => return,
            VoiceChange::Off => {
                self.net = None;
                return;
            }
            VoiceChange::Fresh => self.net = Some(nnnoiseless::DenoiseState::new()),
            VoiceChange::Kept => {}
        }
        let voice = vfo.voice.as_mut().unwrap();
        let net = self.net.as_mut().unwrap();
        for sample in audio {
            *sample = voice.push(*sample);
            if voice.ready() {
                let frame: Vec<f32> = voice
                    .input
                    .iter()
                    .map(|x| *x as f32 / FULL * 32768.0)
                    .collect();
                let mut clean = vec![0.0; frame.len()];
                net.process_frame(&mut clean, &frame);
                let clean: Vec<i32> = clean
                    .iter()
                    .map(|x| (x / 32768.0 * FULL).round() as i32)
                    .collect();
                voice.finish(&clean, strength);
            }
        }
    }
}

/// The whole receiver.
struct Chain {
    processor: Processor,
    transform: Transform,
    fronts: Vec<Front>,
}

impl Chain {
    fn new(settings: Settings) -> Self {
        let processor = Processor::new(settings);
        let fronts = processor
            .vfos
            .iter()
            .map(|v| Front::new(&v.config, v.center_hz))
            .collect();
        Chain {
            processor,
            transform: Transform::new(),
            fronts,
        }
    }

    fn process(&mut self, iq: &[Complex32]) -> (Vec<i32>, Snapshot) {
        assert_eq!(iq.len(), BLOCK_SIZE);
        let power_db = self.transform.power(&iq[..FFT_SIZE]);
        let center = self.processor.settings.center_hz;
        let mut channels = Vec::new();
        for (vfo, front) in self.processor.vfos.iter_mut().zip(&mut self.fronts) {
            let config = vfo.config;
            if config.in_band(center) {
                let offset = config.offset_hz(center);
                let level = level_dbfs(&power_db, offset, config.mode.bandwidth());
                channels.push(ChannelAudio {
                    audio: front.process(vfo, iq),
                    level_dbfs: level,
                });
            } else {
                channels.push(ChannelAudio {
                    audio: Vec::new(),
                    level_dbfs: 0,
                });
            }
        }
        let Measurement {
            spectrum,
            statuses,
            voices,
        } = self.processor.measure(power_db, &channels);
        let strength = self.processor.settings.voice_strength;
        let mut audio: Vec<Vec<i32>> = channels.into_iter().map(|c| c.audio).collect();
        for (i, row) in audio.iter_mut().enumerate() {
            self.fronts[i].clean(&mut self.processor.vfos[i], voices[i], row, strength);
        }
        self.processor.process(spectrum, statuses, &audio)
    }
}

/// Three stations in noise.
struct Stations {
    sample: u64,
    phases: [f32; 3],
    random: u32,
}

impl Stations {
    fn new() -> Self {
        Stations {
            sample: 0,
            phases: [0.0; 3],
            random: 0x1234abcd,
        }
    }

    fn noise(&mut self) -> f32 {
        self.random ^= self.random << 13;
        self.random ^= self.random >> 17;
        self.random ^= self.random << 5;
        (self.random as f32 / u32::MAX as f32 - 0.5) * 0.035
    }

    fn read(&mut self) -> Vec<Complex32> {
        let fs = IQ_RATE as f32;
        let mut output = Vec::with_capacity(BLOCK_SIZE);
        for _ in 0..BLOCK_SIZE {
            let t = (self.sample % (IQ_RATE as u64 * 60)) as f32 / fs;
            let mut sum = Complex32::new(self.noise(), self.noise());
            for (ch, offset) in [-45_000.0, 15_000.0, 55_000.0].iter().enumerate() {
                let active = match ch {
                    0 => t % 8.0 < 3.5,
                    1 => (t + 2.0) % 7.0 < 4.0,
                    _ => (t + 1.0) % 10.0 < 3.0,
                };
                let audio = (TAU * (600.0 + 260.0 * ch as f32) * t).sin();
                let ctcss = 0.15 * (TAU * 100.0 * t).sin();
                let deviation = if ch < 2 { 2000.0 * (audio + ctcss) } else { 0.0 };
                self.phases[ch] = (self.phases[ch] + TAU * (offset + deviation) / fs) % TAU;
                if active {
                    let amp = if ch == 2 {
                        0.15 * (1.0 + 0.65 * audio)
                    } else {
                        0.23
                    };
                    sum += Complex32::from_polar(amp, self.phases[ch]);
                }
            }
            output.push(sum);
            self.sample += 1;
        }
        output
    }
}

fn multichannel_settings() -> Settings {
    Settings {
        vfos: vec![
            VfoConfig::new(1, -45_000, Mode::Nfm),
            VfoConfig::new(2, 15_000, Mode::Am),
            VfoConfig::new(3, 55_000, Mode::Usb),
        ],
        ..Default::default()
    }
}

#[test]
fn fft_places_positive_frequency_right_of_center() {
    let iq: Vec<Complex32> = (0..FFT_SIZE)
        .map(|i| Complex32::from_polar(1.0, TAU * 32.0 * i as f32 / FFT_SIZE as f32))
        .collect();
    let s = SpectrumAnalyzer::default().process(Transform::new().power(&iq));
    let peak = s
        .power_db
        .iter()
        .enumerate()
        .max_by_key(|(_, p)| **p)
        .unwrap()
        .0;
    assert_eq!(peak, FFT_SIZE / 2 + 32);
    assert!(s.power_db[peak].abs() < 10_000);
}

#[test]
fn ctcss_accepts_target_and_rejects_other_tone() {
    for (hz, expected) in [(100.0, true), (150.0, false)] {
        let mut detector = ToneDetector::new(AUDIO_RATE);
        let mut resonator = Resonator::new(100.0, AUDIO_RATE);
        for i in 0..9600 {
            resonator.push((TAU * hz * i as f32 / AUDIO_RATE as f32).sin());
            if detector.push() {
                let (mean, share) = resonator.close(detector.length as f32);
                detector.conclude(mean, share);
            }
        }
        assert_eq!(detector.detected, expected);
    }
}

#[test]
fn simulated_iq_produces_finite_audio_and_active_vfos() {
    let mut source = Stations::new();
    let mut receiver = Chain::new(multichannel_settings());
    let mut energy = 0.0;
    for _ in 0..30 {
        let (audio, snapshot) = receiver.process(&source.read());
        assert_eq!(audio.len(), BLOCK_SIZE / AUDIO_DECIMATION);
        assert!(audio.iter().all(|x| x.abs() <= 95_000_000));
        energy += audio
            .iter()
            .map(|x| (*x as f32 / FULL).powi(2))
            .sum::<f32>();
        assert_eq!(snapshot.selected, Some(1));
    }
    assert!(energy > 0.1);
}

#[test]
fn ssb_filter_rejects_opposite_sideband() {
    let energy = |mode: Mode, frequency: f32| {
        let config = VfoConfig::new(1, 0, mode);
        let mut vfo = Vfo::new(config, CENTER_HZ);
        let mut front = Front::new(&config, CENTER_HZ);
        let mut total = 0.0;
        for block in 0..12 {
            let iq: Vec<Complex32> = (0..BLOCK_SIZE)
                .map(|i| {
                    Complex32::from_polar(
                        0.3,
                        TAU * frequency * (block * BLOCK_SIZE + i) as f32 / IQ_RATE as f32,
                    )
                })
                .collect();
            let audio = front.process(&mut vfo, &iq);
            vfo.measure(&audio, 40_000_000, -10_000_000, -50_000_000, false);
            if block > 1 {
                total += audio
                    .iter()
                    .map(|x| (*x as f32 / FULL).powi(2))
                    .sum::<f32>();
            }
        }
        total
    };
    for (mode, hz) in [(Mode::Usb, 1500.0), (Mode::Lsb, -1500.0)] {
        assert!(energy(mode, hz) > 100.0 * energy(mode, -hz));
    }
}

#[test]
fn fm_demodulation_recovers_audio_tone_in_both_modes() {
    for (mode, deviation) in [(Mode::Nfm, 2000.0), (Mode::Wfm, 50_000.0)] {
        let config = VfoConfig::new(1, 0, mode);
        let mut vfo = Vfo::new(config, CENTER_HZ);
        let mut front = Front::new(&config, CENTER_HZ);
        let mut phase = 0.0;
        let mut audio: Vec<f32> = Vec::new();
        for block in 0..16 {
            let iq: Vec<Complex32> = (0..BLOCK_SIZE)
                .map(|i| {
                    let t = (block * BLOCK_SIZE + i) as f32 / IQ_RATE as f32;
                    phase += TAU * deviation * (TAU * 1000.0 * t).sin() / IQ_RATE as f32;
                    Complex32::from_polar(0.4, phase)
                })
                .collect();
            let row = front.process(&mut vfo, &iq);
            vfo.measure(&row, 40_000_000, -10_000_000, -50_000_000, false);
            audio.extend(row.iter().map(|x| *x as f32 / FULL));
        }
        let projection = |hz: f32| -> f32 {
            audio
                .iter()
                .enumerate()
                .skip(1024)
                .map(|(i, sample)| {
                    Complex32::from_polar(*sample, TAU * hz * i as f32 / AUDIO_RATE as f32)
                })
                .sum::<Complex32>()
                .norm_sqr()
        };
        assert!(projection(1000.0) > 100.0 * projection(3000.0));
    }
}

#[test]
fn global_sql_rejects_weak_signal_even_with_high_spectral_contrast() {
    for (amplitude, expected) in [(0.001_f32, None), (0.01, Some(1))] {
        let settings = Settings {
            vfos: vec![VfoConfig::new(1, 0, Mode::Am)],
            adaptive_squelch: false,
            ..Default::default()
        };
        assert_eq!(settings.sql_dbfs, -50_000_000);
        let mut receiver = Chain::new(settings);
        let iq = vec![Complex32::new(amplitude, 0.0); BLOCK_SIZE];
        let (_, snapshot) = receiver.process(&iq);
        let level = snapshot.vfos[0].level_dbfs as f32 / DB;
        assert!((level - 20.0 * amplitude.log10()).abs() < 0.1);
        assert!(snapshot.vfos[0].snr_db > 30_000_000);
        assert_eq!(snapshot.selected, expected);
    }
}

#[test]
fn vfos_outside_capture_band_are_silent_and_never_alias_into_audio() {
    let settings = Settings {
        center_hz: 145_500_000,
        ..Default::default()
    };
    let mut receiver = Chain::new(settings);
    let (audio, snapshot) = receiver.process(&vec![Complex32::new(0.4, 0.0); BLOCK_SIZE]);
    assert_eq!(snapshot.center_hz, 145_500_000);
    assert!(snapshot.vfos.iter().all(|v| !v.in_band && !v.audible));
    assert!(audio.iter().all(|x| *x == 0));
    assert_eq!(audio.len(), 512);
}

#[test]
fn relative_sql_is_independent_of_absolute_noise_level() {
    for floor in [-120_000_000, -70_000_000] {
        for (contrast, expected) in [(3_000_000, false), (12_000_000, true)] {
            let mut spectrum = Spectrum {
                power_db: vec![floor; FFT_SIZE],
                floor_db: vec![floor; FFT_SIZE],
            };
            spectrum.power_db[FFT_SIZE / 2] += contrast;
            let metric = channel_snr(&spectrum, 0, Mode::Nfm.bandwidth());
            let config = VfoConfig::new(1, 0, Mode::Nfm);
            let mut vfo = Vfo::new(config, CENTER_HZ);
            let mut front = Front::new(&config, CENTER_HZ);
            let audio = front.process(&mut vfo, &vec![Complex32::default(); BLOCK_SIZE]);
            let status = vfo.measure(&audio, metric, floor + contrast, 10_000_000, true);
            assert_eq!(status.squelch_open, expected);
        }
    }
}

#[test]
fn auto_zero_finishes_and_restarts_only_for_rf_changes_or_request() {
    let mut settings = Settings::default();
    let mut processor = Processor::new(settings.clone());
    let iq = vec![Complex32::new(0.01, 0.0); FFT_SIZE];
    let power = Transform::new().power(&iq);
    for _ in 0..188 {
        processor.spectrum.process(power.clone());
    }
    assert_eq!(processor.spectrum.zero_progress(), 1_000_000);
    settings.master_gain = 100_000;
    assert_eq!(processor.configure(settings.clone()), vec![Carry::Kept(0)]);
    assert_eq!(processor.spectrum.zero_progress(), 1_000_000);
    for change in 0..3 {
        match change {
            0 => settings.noise_zero_request += 1,
            1 => settings.rf_gain_db = 207,
            _ => settings.center_hz += 100_000,
        }
        processor.configure(settings.clone());
        assert_eq!(processor.spectrum.zero_progress(), 0);
        for _ in 0..188 {
            processor.spectrum.process(power.clone());
        }
        assert_eq!(processor.spectrum.zero_progress(), 1_000_000);
    }
    // A steady carrier is not taken for noise.
    let spectrum = processor.spectrum.process(power);
    assert!(channel_snr(&spectrum, 0, 25_000) > 50_000_000);
}

#[test]
fn voice_filter_does_not_change_rf_detection_or_tone_decisions() {
    let settings = multichannel_settings();
    let mut plain = Chain::new(settings.clone());
    let mut filtered = Chain::new(Settings {
        voice_denoise: true,
        ..settings
    });
    let mut source = Stations::new();
    for _ in 0..8 {
        let iq = source.read();
        let (_, a) = plain.process(&iq);
        let (audio, b) = filtered.process(&iq);
        assert_eq!(a.selected, b.selected);
        assert_eq!(audio.len(), BLOCK_SIZE / AUDIO_DECIMATION);
        assert!(audio.iter().all(|x| x.abs() <= 95_000_000));
        for (a, b) in a.vfos.iter().zip(&b.vfos) {
            assert_eq!(a.snr_db, b.snr_db);
            assert_eq!(
                (a.squelch_open, a.vad, a.tone_open),
                (b.squelch_open, b.vad, b.tone_open)
            );
        }
    }
}

#[test]
fn noise_normalization_tracks_gain_without_changing_contrast() {
    let mut low = (Transform::new(), SpectrumAnalyzer::default());
    let mut high = (Transform::new(), SpectrumAnalyzer::default());
    let mut seed = 42_u32;
    for frame in 0..25 {
        let mut noise = || {
            seed ^= seed << 13;
            seed ^= seed >> 17;
            seed ^= seed << 5;
            (seed as f32 / u32::MAX as f32 - 0.5) * 0.006
        };
        let iq: Vec<Complex32> = (0..FFT_SIZE)
            .map(|_| Complex32::new(noise(), noise()))
            .collect();
        let loud: Vec<Complex32> = iq.iter().map(|x| x * 100.0).collect();
        let a = low.1.process(low.0.power(&iq));
        let b = high.1.process(high.0.power(&loud));
        if frame == 24 {
            let mut mean = 0.0;
            for i in 0..FFT_SIZE {
                assert!((b.floor_db[i] - a.floor_db[i] - 40_000_000).abs() < 20_000);
                let contrast_a = a.power_db[i] - a.floor_db[i];
                let contrast_b = b.power_db[i] - b.floor_db[i];
                assert!((contrast_a - contrast_b).abs() < 20_000);
                mean += contrast_a as f32 / DB;
            }
            assert!((mean / FFT_SIZE as f32).abs() < 2.0);
        }
    }
}

#[test]
fn statuses_of_the_stations_are_complete() {
    let mut source = Stations::new();
    let mut receiver = Chain::new(multichannel_settings());
    let (_, snapshot) = receiver.process(&source.read());
    let ids: Vec<u32> = snapshot.vfos.iter().map(|v: &VfoStatus| v.id).collect();
    assert_eq!(ids, vec![1, 2, 3]);
    assert!(snapshot.vfos.iter().all(|v| v.in_band));
    assert_eq!(
        snapshot.vfos.iter().filter(|v| v.audible).count(),
        1,
        "one channel at a time"
    );
}
