//! The voice filter and the detectors.

use nnnoiseless::DenoiseState;
use quasar_sdr::dsp::detector::{ActivityDetector, ToneDetector};
use quasar_sdr::dsp::filter::Fir;
use quasar_sdr::dsp::voice::{VoiceDenoiser, FRAME};
use quasar_sdr::units::FULL_SCALE;

const FULL: f32 = 1e8;

struct Filter {
    voice: VoiceDenoiser,
    net: Box<DenoiseState<'static>>,
}

impl Filter {
    fn new() -> Self {
        Filter {
            voice: VoiceDenoiser::default(),
            net: DenoiseState::new(),
        }
    }

    fn process(&mut self, audio: &mut [i32], strength: i32) {
        let clean: Vec<Vec<i32>> = self
            .voice
            .frames(audio)
            .iter()
            .map(|frame| {
                let input: Vec<f32> = frame.iter().map(|x| *x as f32 / FULL * 32768.0).collect();
                let mut output = [0.0; FRAME];
                self.net.process_frame(&mut output, &input);
                output
                    .iter()
                    .map(|x| (x / 32768.0 * FULL).round() as i32)
                    .collect()
            })
            .collect();
        let heard = self.voice.process(audio, &clean, strength);
        audio.copy_from_slice(&heard);
    }
}

#[test]
fn arbitrary_chunks_preserve_audio_and_delay_alignment() {
    assert_eq!(FRAME, DenoiseState::FRAME_SIZE);
    let input: Vec<i32> = (0..5000)
        .map(|i| ((i as f32 * 0.03).sin() * 0.2 * FULL) as i32)
        .collect();
    let mut whole = input.clone();
    Filter::new().process(&mut whole, 0);
    assert!(whole[..2 * FRAME].iter().all(|x| *x == 0));
    assert_eq!(&whole[2 * FRAME..], &input[..input.len() - 2 * FRAME]);
    let mut chunks = input.clone();
    let mut filter = Filter::new();
    for chunk in chunks.chunks_mut(137) {
        filter.process(chunk, 0);
    }
    assert_eq!(chunks, whole);
}

#[test]
fn neural_denoising_reduces_stationary_noise_and_stays_finite() {
    let mut seed = 42_u32;
    let mut audio: Vec<i32> = (0..48_000)
        .map(|_| {
            seed ^= seed << 13;
            seed ^= seed >> 17;
            seed ^= seed << 5;
            ((seed as f32 / u32::MAX as f32 - 0.5) * 0.1 * FULL) as i32
        })
        .collect();
    let energy = |row: &[i32]| -> f32 { row.iter().map(|x| (*x as f32 / FULL).powi(2)).sum() };
    let before = energy(&audio[24_000..]);
    let mut filter = Filter::new();
    for chunk in audio.chunks_mut(512) {
        filter.process(chunk, 1_000_000);
    }
    assert!(audio.iter().all(|x| x.abs() <= FULL_SCALE));
    let after = energy(&audio[24_000..]);
    assert!(after < before * 0.5, "bruit avant={before}, après={after}");
}

#[test]
fn filtered_and_original_voice_are_mixed() {
    let mut voice = VoiceDenoiser::default();
    for i in 0..2 * FRAME {
        voice.push(if i == 0 { 2_000_000_000 } else { 1_000_000 });
        if voice.ready() {
            voice.finish(&[3_000_000; FRAME], 250_000);
        }
    }
    // The original is limited to full scale, and a quarter of the result is filtered.
    assert_eq!(voice.push(0), 75_750_000);
    assert_eq!(voice.push(0), 1_500_000);
}

#[test]
fn strength_outside_its_range_is_limited() {
    for (strength, expected) in [(-1, 400), (1_000_001, 800)] {
        let mut voice = VoiceDenoiser::default();
        for _ in 0..2 * FRAME {
            voice.push(400);
            if voice.ready() {
                voice.finish(&[800; FRAME], strength);
            }
        }
        assert_eq!(voice.push(0), expected);
    }
}

#[test]
fn activity_needs_energy_and_is_held() {
    let loud = vec![1_000_001; 512];
    let quiet = vec![1_000_000; 512];
    let mut detector = ActivityDetector::default();
    assert!(!detector.update(&quiet, true));
    assert!(!detector.update(&loud, false));
    assert!(detector.update(&loud, true));
    for _ in 0..23 {
        assert!(detector.update(&quiet, true));
    }
    assert!(!detector.update(&quiet, true));
    assert!(!detector.update(&[], true));
}

#[test]
fn tones_need_energy_and_a_share_of_it() {
    let mut detector = ToneDetector::new(48_000);
    assert_eq!(detector.length, 9_600);
    for i in 0..9_600 {
        assert_eq!(detector.push(), i == 9_599);
    }
    assert!(!detector.detected);
    detector.conclude(100_001, 8_001);
    assert!(detector.detected);
    detector.conclude(100_000, 8_001);
    assert!(!detector.detected);
    detector.conclude(100_001, 8_000);
    assert!(!detector.detected);
}

#[test]
fn the_latest_sample_meets_the_first_coefficient() {
    let mut filter: Fir<i64> = Fir::new(vec![1, 10, 100], 0);
    for x in [1, 2, 3, 4, 5] {
        filter.push(x);
    }
    assert_eq!(filter.output(0, |sum, tap, x| sum + tap * x), 5 + 40 + 300);
    filter.push(6);
    assert_eq!(filter.output(0, |sum, tap, x| sum + tap * x), 6 + 50 + 400);
}

#[test]
fn blocks_of_any_length_hear_the_same_at_any_strength() {
    let input: Vec<i32> = (0..4000)
        .map(|i| ((i as f32 * 0.05).sin() * 1.5 * FULL) as i32)
        .collect();
    for strength in [300_000, 1_000_000, 2_000_000] {
        let mut whole = input.clone();
        Filter::new().process(&mut whole, strength);
        assert!(whole.iter().all(|x| x.abs() <= FULL_SCALE));
        let mut chunks = input.clone();
        let mut filter = Filter::new();
        for chunk in chunks.chunks_mut(211) {
            filter.process(chunk, strength);
        }
        assert_eq!(chunks, whole);
        // Samples beyond full scale count as full scale.
        let mut limited: Vec<i32> = input
            .iter()
            .map(|x| (*x).clamp(-FULL_SCALE, FULL_SCALE))
            .collect();
        Filter::new().process(&mut limited, strength.min(1_000_000));
        assert_eq!(limited, whole);
    }
}

#[test]
fn the_frames_of_a_block_are_those_it_fills() {
    let mut voice = VoiceDenoiser::default();
    assert!(voice.frames(&[7; FRAME - 1]).is_empty());
    assert_eq!(voice.process(&[7; FRAME - 1], &[], 0), vec![0; FRAME - 1]);
    let frames = voice.frames(&[2_000_000_000; FRAME + 1]);
    assert_eq!(frames.len(), 2);
    assert_eq!((frames[0][FRAME - 2], frames[0][FRAME - 1]), (7, FULL_SCALE));
    assert_eq!(frames[1], vec![FULL_SCALE; FRAME]);
    let clean = vec![vec![1; FRAME], vec![3; FRAME]];
    let heard = voice.process(&[0; FRAME + 1], &clean, 1_000_000);
    assert_eq!((heard[0], heard[1], heard[FRAME]), (0, 1, 1));
    assert_eq!(voice.push(0), 3);
}
