//! Squelch, selection, settings and mixing.

use quasar_sdr::dsp::mixer::{mix, MIX_ONE, RAMP};
use quasar_sdr::dsp::processor::{Carry, ChannelAudio, Processor};
use quasar_sdr::dsp::select_vfo;
use quasar_sdr::dsp::spectrum::{centred, channel_bins, channel_snr, SpectrumAnalyzer};
use quasar_sdr::dsp::vfo::{filter_plan, Due, Vfo, VoiceChange};
use quasar_sdr::model::{
    Mode, Settings, Spectrum, VfoConfig, VfoStatus, AUDIO_RATE, BLOCK_SIZE, CENTER_HZ,
    CHANNEL_RATE, FFT_SIZE,
};

fn multichannel_settings() -> Settings {
    Settings {
        vfos: vec![
            VfoConfig::new(1, -45_000, Mode::Nfm),
            VfoConfig::new(2, 15_000, Mode::Am),
            VfoConfig::new(3, 55_000, Mode::Usb),
        ],
        ..Default::default()
    }
}

fn open_statuses(settings: &Settings) -> Vec<VfoStatus> {
    settings
        .vfos
        .iter()
        .map(|c| VfoStatus {
            id: c.id,
            squelch_open: true,
            tone_open: true,
            in_band: true,
            ..Default::default()
        })
        .collect()
}

#[test]
fn swapper_respects_priority_mute_solo_and_tone() {
    let mut settings = multichannel_settings();
    let mut statuses: Vec<VfoStatus> = settings
        .vfos
        .iter()
        .map(|c| VfoStatus {
            id: c.id,
            squelch_open: true,
            tone_open: true,
            ..Default::default()
        })
        .collect();
    assert_eq!(select_vfo(&settings, &statuses, Some(2)), Some(1));
    settings.vfos[0].muted = true;
    assert_eq!(select_vfo(&settings, &statuses, None), Some(2));
    settings.vfos[2].solo = true;
    assert_eq!(select_vfo(&settings, &statuses, None), Some(3));
    statuses[2].tone_open = false;
    assert_eq!(select_vfo(&settings, &statuses, None), None);
}

#[test]
fn the_current_channel_wins_ties() {
    let mut settings = multichannel_settings();
    for vfo in &mut settings.vfos {
        vfo.priority = 4;
    }
    let mut statuses = open_statuses(&settings);
    assert_eq!(select_vfo(&settings, &statuses, None), Some(1));
    assert_eq!(select_vfo(&settings, &statuses, Some(3)), Some(3));
    settings.vfos[1].priority = 3;
    assert_eq!(select_vfo(&settings, &statuses, Some(3)), Some(2));
    // A muted solo restricts nothing.
    settings.vfos[1].muted = true;
    settings.vfos[1].solo = true;
    assert_eq!(select_vfo(&settings, &statuses, Some(3)), Some(3));
    settings.use_vad = true;
    assert_eq!(select_vfo(&settings, &statuses, Some(3)), None);
    statuses[0].vad = true;
    assert_eq!(select_vfo(&settings, &statuses, Some(3)), Some(1));
    statuses[0].squelch_open = false;
    assert_eq!(select_vfo(&settings, &statuses, Some(3)), None);
}

#[test]
fn filters_fit_the_mode() {
    let plan = filter_plan(Mode::Usb);
    assert_eq!((plan.low_hz, plan.high_hz, plan.taps), (200, 3000, 513));
    let plan = filter_plan(Mode::Lsb);
    assert_eq!((plan.low_hz, plan.high_hz, plan.taps), (-3000, -200, 513));
    let plan = filter_plan(Mode::Wfm);
    assert_eq!((plan.low_hz, plan.high_hz, plan.taps), (-80_000, 80_000, 129));
    assert_eq!((plan.rate, plan.deviation), (CHANNEL_RATE, 75_000));
    let plan = filter_plan(Mode::Nfm);
    assert_eq!((plan.low_hz, plan.high_hz), (-12_500, 12_500));
    assert_eq!((plan.rate, plan.deviation), (AUDIO_RATE, 5_000));
}

#[test]
fn every_block_gives_512_audio_samples() {
    for (mode, demodulated) in [(Mode::Nfm, 512), (Mode::Wfm, 2560)] {
        let mut vfo = Vfo::new(VfoConfig::new(1, 0, mode), CENTER_HZ);
        for _ in 0..7 {
            vfo.advance();
        }
        for _ in 0..3 {
            let dues: Vec<Due> = (0..BLOCK_SIZE).map(|_| vfo.advance()).collect();
            assert_eq!(dues.iter().filter(|d| d.emit).count(), 512);
            assert_eq!(dues.iter().filter(|d| d.channel).count(), 2560);
            assert_eq!(dues.iter().filter(|d| d.demodulate).count(), demodulated);
            assert_eq!(dues.iter().filter(|d| d.renormalize).count(), 25);
        }
    }
}

#[test]
fn squelch_has_a_hysteresis_and_a_hold() {
    let audio = vec![0; 512];
    let mut vfo = Vfo::new(VfoConfig::new(1, 0, Mode::Nfm), CENTER_HZ);
    vfo.config.squelch_db = 2_000_000;
    let mut open = |snr: i64| vfo.measure(&audio, snr, 0, 10_000_000, true).squelch_open;
    assert!(!open(11_999_999));
    assert!(open(12_000_000));
    assert!(open(9_000_000));
    for _ in 0..13 {
        assert!(open(8_999_999));
    }
    assert!(!open(8_999_999));
    assert!(!open(11_999_999));
}

#[test]
fn squelch_looks_at_one_measure_only() {
    let audio = vec![0; 512];
    let config = VfoConfig::new(9, 0, Mode::Nfm);
    let status = Vfo::new(config, CENTER_HZ).measure(&audio, 0, -10, -20, false);
    assert!(status.squelch_open && status.in_band && status.tone_open && !status.vad);
    assert_eq!((status.id, status.snr_db, status.level_dbfs), (9, 0, -10));
    let status = Vfo::new(config, CENTER_HZ).measure(&audio, 100, -30, -20, false);
    assert!(!status.squelch_open);
    let status = Vfo::new(config, CENTER_HZ).measure(&audio, -30, 100, -20, true);
    assert!(!status.squelch_open);
}

#[test]
fn a_tone_opens_the_channel() {
    let mut config = VfoConfig::new(1, 0, Mode::Nfm);
    config.ctcss_hz = Some(100_000);
    let mut vfo = Vfo::new(config, CENTER_HZ);
    assert!(!vfo.measure(&[], 0, 0, 0, true).tone_open);
    for i in 0..9_600 {
        assert_eq!(vfo.tone_sample(), i == 9_599);
    }
    vfo.tone_window(1_000_000, 900_000);
    assert!(vfo.measure(&[], 0, 0, 0, true).tone_open);
    vfo.tone_window(1_000_000, 1);
    assert!(!vfo.measure(&[], 0, 0, 0, true).tone_open);
    assert!(!Vfo::new(VfoConfig::new(1, 0, Mode::Nfm), CENTER_HZ).tone_sample());
}

#[test]
fn channels_keep_their_state_unless_they_move() {
    let config = VfoConfig::new(1, 0, Mode::Nfm);
    let changes: [(fn(&mut VfoConfig), i64, bool); 5] = [
        (|c| c.gain = 7, CENTER_HZ, true),
        (|c| c.mode = Mode::Am, CENTER_HZ, false),
        (|c| c.frequency_hz += 1, CENTER_HZ, false),
        (|c| c.ctcss_hz = Some(67_000), CENTER_HZ, false),
        (|_| (), CENTER_HZ + 1, false),
    ];
    for (change, center, kept) in changes {
        let mut vfo = Vfo::new(config, CENTER_HZ);
        vfo.advance();
        let mut next = config;
        change(&mut next);
        assert_eq!(vfo.configure(next, center), kept);
        assert_eq!(vfo.tick, if kept { 1 } else { 0 });
        assert_eq!(vfo.config.gain, next.gain);
        assert_eq!(vfo.center_hz, center);
    }
}

#[test]
fn the_voice_filter_is_forgotten_when_it_is_not_wanted() {
    let mut vfo = Vfo::new(VfoConfig::new(1, 0, Mode::Nfm), CENTER_HZ);
    assert_eq!(vfo.clean_voice(false), VoiceChange::Off);
    assert_eq!(vfo.clean_voice(true), VoiceChange::Fresh);
    vfo.voice.as_mut().unwrap().push(5);
    assert_eq!(vfo.clean_voice(true), VoiceChange::Kept);
    assert_eq!(vfo.voice.as_ref().unwrap().filled, 1);
    assert_eq!(vfo.clean_voice(false), VoiceChange::Off);
    assert!(vfo.voice.is_none());
    assert_eq!(vfo.clean_voice(true), VoiceChange::Fresh);
    assert_eq!(vfo.voice.as_ref().unwrap().filled, 0);
}

#[test]
fn noise_is_a_local_quartile_that_is_followed() {
    let mut analyzer = SpectrumAnalyzer::default();
    let mut row = vec![-90_000_000; FFT_SIZE];
    row[1000] = -10_000_000;
    let first = analyzer.process(row.clone());
    assert!(first.floor_db.iter().all(|f| *f == -89_000_000));
    assert_eq!(analyzer.zero_progress(), 5_333);
    // A fifth of the way while the noise is measured.
    let second = analyzer.process(vec![-80_000_000; FFT_SIZE]);
    assert!(second.floor_db.iter().all(|f| *f == -87_000_000));
    for _ in 2..188 {
        analyzer.process(vec![-88_000_000; FFT_SIZE]);
    }
    assert_eq!(analyzer.zero_progress(), 1_000_000);
    let settled = analyzer.floor[0];
    assert!((settled + 87_000_000).abs() <= 3);
    // Afterwards it rises slowly, falls fast and leaves carriers alone.
    let mut row = vec![-78_000_000; FFT_SIZE];
    row[5] = -70_999_999;
    let risen = analyzer.process(row);
    assert_eq!(risen.floor_db[0], settled + 150_000);
    assert_eq!(risen.floor_db[5], settled);
    let fallen = analyzer.process(vec![-98_000_000; FFT_SIZE]);
    assert!((fallen.floor_db[5] - (settled - 2_000_000)).abs() <= 1);
}

#[test]
fn channels_cover_their_bins() {
    assert_eq!(channel_bins(0, 25_000), (1013, 1034));
    assert_eq!(channel_bins(-1_200_000, 6_000), (0, 2));
    assert_eq!(channel_bins(1_200_000, 6_000), (2045, 2047));
    let mut s = Spectrum {
        power_db: vec![0; FFT_SIZE],
        floor_db: vec![10; FFT_SIZE],
    };
    assert_eq!(channel_snr(&s, 0, 25_000), 0);
    s.power_db[1034] = 17;
    s.power_db[1035] = 99;
    assert_eq!(channel_snr(&s, 0, 25_000), 7);
    let row: Vec<usize> = (0..FFT_SIZE).collect();
    let turned = centred(&row);
    assert_eq!((turned[0], turned[1024], turned[2047]), (1024, 0, 1023));
}

#[test]
fn gains_move_gradually_and_the_sum_is_limited() {
    let vfos = [VfoConfig::new(1, 0, Mode::Nfm)];
    let mut statuses = [VfoStatus {
        id: 1,
        audible: true,
        in_band: true,
        ..Default::default()
    }];
    let audio = vec![vec![80_000_000; 512]];
    let mut gains = vec![0];
    let output = mix(&vfos, &statuses, &audio, &mut gains, 1_000_000);
    // One 240th of full gain after one sample, half gain after 120.
    assert_eq!(output[0], 333_333);
    assert_eq!(output[118], 39_666_667);
    assert_eq!(output[119], 40_000_000);
    assert_eq!(output[511], 40_000_000);
    assert_eq!(gains, vec![MIX_ONE / 2]);
    statuses[0].audible = false;
    let output = mix(&vfos, &statuses, &audio, &mut gains, 4_000_000);
    assert_eq!(output[0], 95_000_000);
    assert_eq!(output[119], 0);
    assert_eq!(gains, vec![0]);
    // Whatever a channel outside the band holds stays unheard.
    gains[0] = RAMP * 200;
    statuses[0].in_band = false;
    let output = mix(&vfos, &statuses, &[Vec::new()], &mut gains, 1_000_000);
    assert!(output.iter().all(|x| *x == 0));
}

#[test]
fn the_mix_is_shared_among_the_audible_channels() {
    let mut settings = multichannel_settings();
    settings.mix = true;
    settings.master_gain = 1_000_000;
    for vfo in &mut settings.vfos {
        vfo.gain = 1_000_000;
    }
    let mut processor = Processor::new(settings.clone());
    let spectrum = || Spectrum {
        power_db: vec![0; FFT_SIZE],
        floor_db: vec![0; FFT_SIZE],
    };
    let audio = vec![
        vec![30_000_000; 512],
        vec![60_000_000; 512],
        vec![-9_000_000; 512],
    ];
    let statuses = open_statuses(&settings);
    let (output, snapshot) = processor.process(spectrum(), statuses.clone(), &audio);
    assert_eq!(output[511], 27_000_000);
    assert!(snapshot.vfos.iter().all(|v| v.audible));
    assert_eq!(snapshot.selected, Some(1));
    settings.mix = false;
    processor.configure(settings);
    let (output, snapshot) = processor.process(spectrum(), statuses, &audio);
    assert_eq!(output[511], 30_000_000);
    let audible: Vec<bool> = snapshot.vfos.iter().map(|v| v.audible).collect();
    assert_eq!(audible, vec![true, false, false]);
}

#[test]
fn channels_are_recognised_by_their_identifiers() {
    let mut settings = multichannel_settings();
    let mut processor = Processor::new(settings.clone());
    processor.vfos[2].advance();
    settings.vfos.swap(0, 2);
    settings.vfos[1].mode = Mode::Lsb;
    settings.vfos.push(VfoConfig::new(4, 0, Mode::Nfm));
    assert_eq!(
        processor.configure(settings.clone()),
        vec![Carry::Kept(2), Carry::Reset(1), Carry::Kept(0), Carry::Fresh]
    );
    assert_eq!(processor.vfos[0].tick, 1);
    assert_eq!(processor.gains, vec![0; 4]);
    // The first of two equal identifiers takes the first over.
    settings.vfos = vec![settings.vfos[0]; 2];
    assert_eq!(
        processor.configure(settings.clone()),
        vec![Carry::Kept(0), Carry::Fresh]
    );
    settings.vfos = (0..12).map(|i| VfoConfig::new(i, 0, Mode::Am)).collect();
    assert_eq!(processor.configure(settings).len(), 8);
    assert_eq!(processor.settings.vfos.len(), 8);
}

#[test]
fn measures_follow_the_settings_of_the_receiver() {
    let mut settings = multichannel_settings();
    settings.vfos[1].frequency_hz = 100_000_000;
    settings.voice_denoise = true;
    let mut processor = Processor::new(settings);
    let channels: Vec<ChannelAudio> = (0..3)
        .map(|i| ChannelAudio {
            audio: vec![0; 512],
            level_dbfs: -20_000_000 * (i + 1),
        })
        .collect();
    let mut power = vec![-90_000_000; FFT_SIZE];
    power[1024 - 38] = -60_000_000;
    let m = processor.measure(power, &channels);
    assert_eq!(m.statuses[0].snr_db, 29_000_000);
    assert!(m.statuses[0].squelch_open && m.statuses[0].in_band);
    assert_eq!(m.statuses[0].level_dbfs, -20_000_000);
    assert_eq!(
        m.statuses[1],
        VfoStatus {
            id: 2,
            level_dbfs: -140_000_000,
            ..Default::default()
        }
    );
    assert!(!m.statuses[2].squelch_open);
    assert_eq!(
        m.voices,
        vec![VoiceChange::Fresh, VoiceChange::Idle, VoiceChange::Off]
    );
    assert_eq!(m.spectrum.floor_db[0], -89_000_000);
}

#[test]
fn every_fiftieth_sample_gives_audio() {
    for mode in [Mode::Am, Mode::Wfm] {
        let mut vfo = Vfo::new(VfoConfig::new(1, 0, mode), CENTER_HZ);
        let mut heard = 0;
        for n in 1..=60_000_u32 {
            heard += vfo.advance().emit as u32;
            assert_eq!(heard, n / 50);
        }
    }
}

#[test]
fn channels_start_anew_after_a_gap_while_the_noise_is_measured_on() {
    let settings = multichannel_settings();
    let mut processor = Processor::new(settings.clone());
    let channels: Vec<ChannelAudio> = (0..3)
        .map(|_| ChannelAudio {
            audio: vec![0; 512],
            level_dbfs: 0,
        })
        .collect();
    for vfo in &mut processor.vfos {
        vfo.advance();
    }
    let m = processor.measure(vec![-90_000_000; FFT_SIZE], &channels);
    processor.process(m.spectrum, open_statuses(&settings), &vec![vec![0; 512]; 3]);
    assert_eq!(processor.selected, Some(1));
    assert!(processor.gains[0] > 0);
    let floor = processor.spectrum.floor.clone();
    processor.resume(settings.clone());
    assert_eq!(processor.selected, None);
    assert_eq!(processor.gains, vec![0; 3]);
    assert!(processor.vfos.iter().all(|v| v.tick == 0));
    assert_eq!(processor.spectrum.floor, floor);
    assert_eq!(processor.spectrum.zero_progress(), 5_333);
    let mut moved = settings;
    moved.center_hz += 1;
    processor.resume(moved);
    assert!(!processor.spectrum.initialized);
    assert_eq!(processor.spectrum.zero_progress(), 0);
}

#[test]
fn the_voice_filter_decides_nothing() {
    let plain = multichannel_settings();
    let mut voiced = plain.clone();
    voiced.voice_denoise = true;
    voiced.voice_strength = 700_000;
    let mut twins = [Processor::new(plain), Processor::new(voiced)];
    for n in 0..4 {
        let mut power = vec![-90_000_000; FFT_SIZE];
        power[1024 - 38 + 50 * (n % 2)] = -60_000_000;
        let seen: Vec<(Option<u32>, Vec<VfoStatus>)> = twins
            .iter_mut()
            .map(|p| {
                let channels: Vec<ChannelAudio> = (0..3)
                    .map(|i| ChannelAudio {
                        audio: vec![1_000_000 * (i + 1); 512],
                        level_dbfs: -20_000_000,
                    })
                    .collect();
                let m = p.measure(power.clone(), &channels);
                let audio: Vec<Vec<i32>> = channels.into_iter().map(|c| c.audio).collect();
                let (_, snapshot) = p.process(m.spectrum, m.statuses, &audio);
                (snapshot.selected, snapshot.vfos)
            })
            .collect();
        assert_eq!(seen[0], seen[1]);
    }
}
