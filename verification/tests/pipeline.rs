use nofuzz_tuner::engine::YinPitchDetector;
use nofuzz_tuner::interface::{PitchEstimator, PitchFindTrait, SpectrumAnalyzer};
use nofuzz_tuner::preset::preset;
use rustfft::num_complex::Complex;
use rustfft::FftPlanner;

const UNIT: f64 = 16_777_216.0;

/// The Yin estimator behind the library's estimator interface.
struct YinEstimator {
    yin: yin::Yin,
    longest_period: usize,
}

impl YinEstimator {
    fn new(threshold: f64, freq_min: f64, freq_max: f64, sample_rate: usize) -> YinEstimator {
        YinEstimator {
            yin: yin::Yin::init(threshold, freq_min, freq_max, sample_rate),
            longest_period: sample_rate / freq_min as usize,
        }
    }
}

impl PitchEstimator for YinEstimator {
    fn estimate(&mut self, samples: &[i32], _sample_rate: u32) -> Option<u32> {
        if samples.len() <= self.longest_period {
            return None;
        }
        let data: Vec<f64> = samples.iter().map(|&x| x as f64 / UNIT).collect();
        let freq = self.yin.estimate_freq(&data);
        if freq.is_finite() && freq > 0.0 {
            Some((freq * 1000.0).round() as u32)
        } else {
            None
        }
    }
}

/// A forward transform behind the library's analyzer interface.
struct Transform;

impl SpectrumAnalyzer for Transform {
    fn magnitudes(&mut self, samples: &[i32]) -> Vec<u32> {
        let n = samples.len();
        if n == 0 {
            return Vec::new();
        }
        let mut buffer: Vec<Complex<f32>> = samples
            .iter()
            .map(|&x| Complex { re: x as f32, im: 0.0 })
            .collect();
        let mut planner = FftPlanner::<f32>::new();
        planner.plan_fft_forward(n).process(&mut buffer);
        buffer.iter().map(|c| (c.norm() / n as f32) as u32).collect()
    }
}

fn quantise(samples: &[f32]) -> Vec<i32> {
    samples.iter().map(|&s| (s as f64 * UNIT).round() as i32).collect()
}

fn sine(freq: f64, sample_rate: f64, amplitude: f64, len: usize) -> Vec<f32> {
    (0..len)
        .map(|i| {
            let t = i as f64 / sample_rate;
            (amplitude * (2.0 * std::f64::consts::PI * freq * t).sin()) as f32
        })
        .collect()
}

/// A plucked string: the fundamental and five overtones that die away, with
/// a little noise, as a microphone would hear it.
fn plucked(freq: f64, sample_rate: f64, seconds: f64) -> Vec<f32> {
    let len = (sample_rate * seconds) as usize;
    let mut state: u32 = 12_345;
    (0..len)
        .map(|i| {
            let t = i as f64 / sample_rate;
            let mut x = 0.0;
            for k in 1..=6 {
                let partial = k as f64;
                x += (0.6 / partial)
                    * (-t * (0.8 + 0.6 * partial)).exp()
                    * (2.0 * std::f64::consts::PI * freq * partial * t).sin();
            }
            state = state.wrapping_mul(1_664_525).wrapping_add(1_013_904_223);
            let noise = (state >> 8) as f64 / 16_777_216.0 - 0.5;
            (0.5 * x + 0.002 * noise) as f32
        })
        .collect()
}

fn names(list: &[&str]) -> Vec<String> {
    list.iter().map(|s| s.to_string()).collect()
}

/// Runs pitch tracking over overlapping frames of `samples` and asserts
/// that a pitch is found and that the expected note is found more than
/// twice as often as any other.
fn yin_find_note_from_samples(
    samples: &[f32],
    sample_rate: usize,
    tuning: &str,
    note: &str,
    fraction_to_check: usize,
) {
    let mut yin = YinPitchDetector::new(
        YinEstimator::new(0.15, 60.0, 500.0, sample_rate),
        Transform,
        sample_rate as u32,
        4096,
        0b111110,
        0b110,
        3,
        400_000,
    );

    let frame_size = 2048;
    let hop_size = 512;
    let mut picked_up_something = false;
    let mut picked_up_correct_note = 0;
    let mut picked_up_wrong_note = 0;
    let process_until = samples.len() / fraction_to_check - frame_size;
    let mut counter = 0;
    for i in (0..process_until).step_by(hop_size) {
        let frame = quantise(&samples[i..i + frame_size]);

        let pitch = yin.maybe_find_pitch(&frame, tuning);
        if let Some(res) = pitch {
            picked_up_something = true;
            counter += 1;
            println!(
                "Time {:.2}s - Pitch: {:.2} Hz",
                i as f32 / sample_rate as f32,
                res.freq() as f64 / 1000.0
            );
            println!(
                "Note: {} - Distance: {:.2} - Cents: {:.2}",
                res.tuning_to().note(),
                res.tuning_to().distance() as f64 / 1000.0,
                res.tuning_to().cents() as f64 / 1000.0
            );
            if res.tuning_to().note() == note {
                picked_up_correct_note += 1;
                println!("Picked up the correct note: {}", note);
            } else {
                picked_up_wrong_note += 1;
                println!("Picked up the wrong note: {}", res.tuning_to().note());
            }
        }
    }
    println!("Picked up {} pitches", counter);
    assert!(picked_up_something, "Yin didn't pick up anything.");
    assert!(
        picked_up_correct_note > picked_up_wrong_note * 2,
        "Yin picked up wrong notes too often. Correct notes {}, wrong notes {}",
        picked_up_correct_note,
        picked_up_wrong_note
    );
}

#[test]
fn test_basic_yin_standard_e2() {
    let sr: u32 = 44_100;
    let samples = plucked(82.41, sr as f64, 1.0);
    let mut yin = YinPitchDetector::new(
        YinEstimator::new(0.1, 60.0, 500.0, sr as usize),
        Transform,
        sr,
        4096,
        0b111110,
        0b110,
        3,
        400_000,
    );
    let frame_size = 4096;
    let offset = 0;

    let frame = &samples[offset..offset + frame_size];

    let rms = (frame.iter().map(|s| s * s).sum::<f32>() / frame.len() as f32).sqrt();
    println!("--- RMS: {}", rms);

    match yin.maybe_find_pitch(&quantise(frame), "standard-e") {
        Some(res) => {
            assert!(res.tuning_to().note() == "E2");
        }
        None => panic!("====== Yin couldn't detect pitch in this frame."),
    }
}

#[test]
fn test_recorded_yin_standard_e2() {
    let sr: u32 = 48_000;
    assert_eq!(sr, 48_000);
    let samples = plucked(82.41, sr as f64, 4.0);
    yin_find_note_from_samples(&samples, sr as usize, "standard-e", "E2", 4);
}

#[test]
fn test_recorded_yin_standard_a2() {
    let sr: u32 = 48_000;
    assert_eq!(sr, 48_000);
    let samples = plucked(110.0, sr as f64, 4.0);
    yin_find_note_from_samples(&samples, sr as usize, "standard-e", "A2", 4);
}

#[test]
fn test_recorded_yin_standard_g3() {
    let sr: u32 = 48_000;
    assert_eq!(sr, 48_000);
    let samples = plucked(196.0, sr as f64, 1.0);
    yin_find_note_from_samples(&samples, sr as usize, "standard-e", "G3", 1);
}

#[test]
fn test_recorded_yin_standard_b3() {
    let sr: u32 = 48_000;
    assert_eq!(sr, 48_000);
    let samples = plucked(246.94, sr as f64, 1.0);
    yin_find_note_from_samples(&samples, sr as usize, "standard-e", "B3", 1);
}

#[test]
fn test_recorded_yin_standard_e4_b() {
    let sr: u32 = 48_000;
    assert_eq!(sr, 48_000);
    let samples = plucked(329.63, sr as f64, 1.0);
    yin_find_note_from_samples(&samples, sr as usize, "standard-e", "E4", 1);
}

#[test]
fn low_e_through_the_acoustic_preset() {
    let p = preset("acoustic");
    let mut detector = YinPitchDetector::from_preset(
        YinEstimator::new(
            p.threshold as f64 / 1e6,
            p.freq_min as f64 / 1e3,
            p.freq_max as f64 / 1e3,
            48_000,
        ),
        Transform,
        "acoustic",
        48_000,
        4_096,
    );
    let registered = detector.register_tuning(
        "standard-e",
        "Standard E",
        &names(&["E2", "A2", "D3", "G3", "B3", "E4"]),
        &[82_410, 110_000, 146_830, 196_000, 246_940, 329_630],
    );
    assert_eq!(registered, Ok(()));
    let frame = quantise(&sine(82.41, 48_000.0, 0.5, 4_096));
    let result = detector
        .maybe_find_pitch(&frame, "standard-e")
        .expect("a pitch in a pure tone");
    assert_eq!(result.tuning_to().note(), "E2");
    assert_eq!(result.tuning_to().freq(), 82_410);
    assert!(
        result.tuning_to().cents().abs() < 5_000,
        "{} thousandths of a cent off",
        result.tuning_to().cents()
    );
    assert!((result.freq() as i64 - 82_410).abs() < 240);
    assert!(result.confidence() > 800_000);
    let level = result.rms() as f64 / UNIT;
    assert!((level - 0.5 / 2f64.sqrt()).abs() < 2e-3);
}

#[test]
fn every_string_through_every_preset() {
    let strings = [
        ("E2", 82.41),
        ("A2", 110.0),
        ("D3", 146.83),
        ("G3", 196.0),
        ("B3", 246.94),
        ("E4", 329.63),
    ];
    let presets = [
        "acoustic",
        "electric-clean",
        "electric-distorted",
        "classical",
        "extended-range",
    ];
    for name in presets {
        let p = preset(name);
        for (note, freq) in strings {
            let mut detector = YinPitchDetector::from_preset(
                YinEstimator::new(
                    p.threshold as f64 / 1e6,
                    p.freq_min as f64 / 1e3,
                    p.freq_max as f64 / 1e3,
                    48_000,
                ),
                Transform,
                name,
                48_000,
                4_096,
            );
            let frame = quantise(&sine(freq, 48_000.0, 0.3, 4_096));
            let result = detector
                .maybe_find_pitch(&frame, "standard-e")
                .expect("a pitch in a pure tone");
            assert_eq!(result.tuning_to().note(), note, "{} with {}", note, name);
            assert!(
                result.tuning_to().cents().abs() < 10_000,
                "{} with {}: {} thousandths of a cent off",
                note,
                name,
                result.tuning_to().cents()
            );
        }
    }
}

#[test]
fn double_the_expected_frequency_is_reported_halved() {
    let expected: u32 = 82_410;
    let mut detector = YinPitchDetector::from_preset(
        YinEstimator::new(0.15, 60.0, 500.0, 48_000),
        Transform,
        "acoustic",
        48_000,
        4_096,
    );
    detector.set_expected_frequency(expected);
    detector.enable_octave_correction(true);
    let frame = quantise(&sine(164.82, 48_000.0, 0.5, 4_096));
    let result = detector
        .maybe_find_pitch(&frame, "standard-e")
        .expect("a pitch in a pure tone");
    // Within fifty cents of the expected frequency.
    let ratio = result.freq() as f64 / expected as f64;
    assert!((1200.0 * ratio.log2()).abs() < 50.0, "{} mHz", result.freq());
    assert_eq!(result.tuning_to().note(), "E2");

    // Without the correction the octave is reported as it is heard.
    let mut plain = YinPitchDetector::from_preset(
        YinEstimator::new(0.15, 60.0, 500.0, 48_000),
        Transform,
        "acoustic",
        48_000,
        4_096,
    );
    plain.set_expected_frequency(expected);
    let result = plain
        .maybe_find_pitch(&frame, "standard-e")
        .expect("a pitch in a pure tone");
    assert!((result.freq() as i64 - 164_820).abs() < 1_000, "{} mHz", result.freq());
}

#[test]
fn gain_control_lifts_a_quiet_tone() {
    let frame = quantise(&sine(110.0, 48_000.0, 0.01, 4_096));
    let mut detector = YinPitchDetector::new(
        YinEstimator::new(0.15, 60.0, 500.0, 48_000),
        Transform,
        48_000,
        4_096,
        0b111110,
        0,
        3,
        400_000,
    );
    detector.enable_agc(true, (0.2 * UNIT) as u32);
    let (level, conditioned) = detector.condition(&frame);
    assert!((level as f64 / UNIT - 0.01 / 2f64.sqrt()).abs() < 1e-4);
    let lifted = nofuzz_tuner::level::rms(&conditioned[2_048..]) as f64 / UNIT;
    // The gain of ten brings the tone to a level of 0.07.
    assert!((lifted - 0.0707).abs() < 0.01, "{}", lifted);
    let result = detector
        .maybe_find_pitch(&frame, "standard-e")
        .expect("a pitch in a quiet tone");
    assert_eq!(result.tuning_to().note(), "A2");
    assert_eq!(result.rms(), level);
}

#[test]
fn refinement_sharpens_the_estimate() {
    // At 48 kHz the estimator hears 440 Hz as a period of 109 samples:
    // 440.367 Hz. The spectrum of 4096 samples knows better.
    let frame = quantise(&sine(440.0, 48_000.0, 0.5, 4_096));
    let mut coarse = YinPitchDetector::new(
        YinEstimator::new(0.15, 60.0, 1_000.0, 48_000),
        Transform,
        48_000,
        4_096,
        0,
        0,
        3,
        400_000,
    );
    let heard = coarse.maybe_find_pitch(&frame, "standard-e").unwrap().freq();
    assert_eq!(heard, 440_367);
    let mut fine = YinPitchDetector::new(
        YinEstimator::new(0.15, 60.0, 1_000.0, 48_000),
        Transform,
        48_000,
        4_096,
        0,
        1,
        3,
        400_000,
    );
    let refined = fine.maybe_find_pitch(&frame, "standard-e").unwrap().freq();
    assert!((refined as i64 - 440_000).abs() < 5_860, "{} mHz", refined);
    assert_eq!(fine.fft_refine_pitch(&frame, heard), Some(refined));
}

#[test]
fn refiner_fails_near_the_ends_of_the_half_spectrum() {
    let mut detector = YinPitchDetector::new(
        YinEstimator::new(0.15, 60.0, 500.0, 48_000),
        Transform,
        48_000,
        4_096,
        0,
        0,
        3,
        400_000,
    );
    let zeros = vec![0; 4_096];
    let tone = quantise(&sine(440.0, 48_000.0, 0.5, 4_096));
    for frame in [&zeros, &tone] {
        // 10 Hz lies in bin 1.
        assert_eq!(detector.fft_refine_pitch(frame, 10_000), None);
        // 23988.281 Hz lies in bin 2047, one below half the number of bins.
        assert_eq!(detector.fft_refine_pitch(frame, 23_988_281), None);
        // Bin 2046 is the first that is out of range.
        assert_eq!(detector.fft_refine_pitch(frame, 23_976_563), None);
        assert!(detector.fft_refine_pitch(frame, 23_964_844).is_some());
    }
    for short in [0usize, 1, 2, 3] {
        assert_eq!(detector.fft_refine_pitch(&vec![1 << 20; short], 10_000), None);
        assert_eq!(detector.fft_refine_pitch(&vec![1 << 20; short], 82_410), None);
    }
}

#[test]
fn refiner_gives_a_bin_centre_for_silence() {
    let mut detector = YinPitchDetector::new(
        YinEstimator::new(0.15, 60.0, 500.0, 48_000),
        Transform,
        48_000,
        4_096,
        0,
        0,
        3,
        400_000,
    );
    // 82.41 Hz lies in bin 7; of three equal magnitudes the highest bin
    // counts as the peak: bin 8 at 93.75 Hz.
    assert_eq!(detector.fft_refine_pitch(&vec![0; 4_096], 82_410), Some(93_750));
}
