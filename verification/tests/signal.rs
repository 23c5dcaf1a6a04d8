use nofuzz_tuner::biquad::Biquad;
use nofuzz_tuner::chain::FilterChain;
use nofuzz_tuner::level::{apply_agc, rms};
use nofuzz_tuner::quality::{score, QualityScorer};
use nofuzz_tuner::smoothing::{ExpMovingAverage, FrequencySmoother};
use nofuzz_tuner::window::{apply_hann, hann_weight};

const ONE: f64 = 1_073_741_824.0;
const UNIT: i32 = 16_777_216;

fn coefficients(f: &Biquad) -> [i64; 5] {
    [f.b0, f.b1, f.b2, f.a1, f.a2]
}

/// The design in floating point, for comparison: feed-forward coefficients
/// by kind, feedback coefficients shared, all over `1 + alpha`.
fn reference(kind: &str, fs: f64, fc: f64, q: f64) -> [f64; 5] {
    let w0 = 2.0 * std::f64::consts::PI * fc / fs;
    let alpha = w0.sin() / (2.0 * q);
    let cosw0 = w0.cos();
    let (b0, b1, b2) = match kind {
        "highpass" => ((1.0 + cosw0) / 2.0, -(1.0 + cosw0), (1.0 + cosw0) / 2.0),
        "lowpass" => ((1.0 - cosw0) / 2.0, 1.0 - cosw0, (1.0 - cosw0) / 2.0),
        "notch" => (1.0, -2.0 * cosw0, 1.0),
        _ => (alpha, 0.0, -alpha),
    };
    let a0 = 1.0 + alpha;
    [b0 / a0, b1 / a0, b2 / a0, -2.0 * cosw0 / a0, (1.0 - alpha) / a0]
}

fn assert_close(got: &Biquad, want: [f64; 5]) {
    let got = coefficients(got);
    for k in 0..5 {
        assert!(
            (got[k] as f64 / ONE - want[k]).abs() < 1e-7,
            "coefficient {}: got {}, want {}",
            k,
            got[k] as f64 / ONE,
            want[k]
        );
    }
}

fn sine(freq: f64, sample_rate: f64, amplitude: f64, len: usize) -> Vec<i32> {
    (0..len)
        .map(|i| {
            let t = i as f64 / sample_rate;
            (amplitude * (2.0 * std::f64::consts::PI * freq * t).sin() * UNIT as f64).round() as i32
        })
        .collect()
}

#[test]
fn highpass_coefficients() {
    let f = Biquad::new_highpass(48_000, 70_000, 707_000);
    assert_eq!(
        coefficients(&f),
        [1_066_806_284, -2_133_612_571, 1_066_806_284, -2_133_567_787, 1_059_915_531]
    );
    assert_eq!((f.x1, f.x2, f.y1, f.y2), (0, 0, 0, 0));
    assert_close(&f, reference("highpass", 48_000.0, 70.0, 0.707));
}

#[test]
fn lowpass_coefficients() {
    let f = Biquad::new_lowpass(48_000, 5_000_000, 707_000);
    assert_eq!(
        coefficients(&f),
        [77_553_786, 155_107_573, 77_553_786, -1_190_971_221, 427_444_543]
    );
    assert_close(&f, reference("lowpass", 48_000.0, 5_000.0, 0.707));
    assert_close(
        &Biquad::new_lowpass(44_100, 5_000_000, 707_000),
        reference("lowpass", 44_100.0, 5_000.0, 0.707),
    );
}

#[test]
fn notch_coefficients() {
    let f = Biquad::new_notch(48_000, 50_000, 30_000_000);
    assert_eq!(
        coefficients(&f),
        [1_073_624_710, -2_147_203_433, 1_073_624_710, -2_147_203_433, 1_073_507_597]
    );
    assert_close(&f, reference("notch", 48_000.0, 50.0, 30.0));
    for fc in [60.0, 100.0, 120.0] {
        assert_close(
            &Biquad::new_notch(48_000, (fc * 1000.0) as u32, 30_000_000),
            reference("notch", 48_000.0, fc, 30.0),
        );
    }
}

#[test]
fn notch_at_a_quarter_of_the_sample_rate() {
    // The cosine is zero and the sine one: alpha is one half, so every
    // coefficient is a multiple of a third.
    let f = Biquad::new_notch(4_000, 1_000_000, 1_000_000);
    assert_eq!(coefficients(&f), [715_827_882, 0, 715_827_882, 0, 357_913_941]);
}

#[test]
fn bandpass_coefficients() {
    let f = Biquad::new_bandpass(48_000, 82_410, 1_000_000);
    assert_eq!(
        coefficients(&f),
        [5_760_282, 0, -5_760_283, -2_135_838_806, 1_062_221_259]
    );
    assert_close(&f, reference("bandpass", 48_000.0, 82.41, 1.0));
}

fn poles_inside(f: &Biquad) -> bool {
    let one: i64 = 1 << 30;
    -one < f.a2 && f.a2 < one && -(one + f.a2) < f.a1 && f.a1 < one + f.a2
}

#[test]
fn poles_lie_inside_the_unit_circle() {
    for fs in [8_000u32, 44_100, 48_000, 192_000] {
        for fc in [1u32, 50_000, 82_410, 5_000_000, 1_000 * (fs / 2) - 1] {
            for q in [500_001u32, 707_000, 1_000_000, 30_000_000] {
                assert!(poles_inside(&Biquad::new_highpass(fs, fc, q)));
                assert!(poles_inside(&Biquad::new_lowpass(fs, fc, q)));
                assert!(poles_inside(&Biquad::new_notch(fs, fc, q)));
                assert!(poles_inside(&Biquad::new_bandpass(fs, fc, q)));
            }
        }
    }
    // A quality of at most one half is designable up to half the sample rate.
    assert!(poles_inside(&Biquad::new_lowpass(48_000, 24_000_000, 1)));
    assert!(poles_inside(&Biquad::new_notch(48_000, 1, 500_000)));
}

#[test]
fn vanishing_angle_rounds_into_the_stable_region() {
    // One millihertz at 4.3 MHz: the angle and alpha round to zero, which
    // would put both poles on the unit circle at one.
    let one: i64 = 1 << 30;
    let f = Biquad::new_bandpass(4_294_968, 1, 1_000_000);
    assert_eq!(coefficients(&f), [0, 0, 0, -(2 * one - 2), one - 1]);
    assert!(poles_inside(&f));
    let f = Biquad::new_notch(4_294_968, 1, 1_000_000);
    assert_eq!(coefficients(&f), [one, -2 * one, one, -(2 * one - 2), one - 1]);
    // The same at half the sample rate, where the poles would lie at minus one.
    let f = Biquad::new_lowpass(48_000, 24_000_000, 707_000);
    assert_eq!(f.a2, one - 1);
    assert_eq!(f.a1, 2 * one - 2);
    // A bounded input keeps a bounded output.
    let mut f = Biquad::new_bandpass(4_294_968, 1, 1_000_000);
    for i in 0..10_000 {
        let x = if i % 2 == 0 { i32::MAX } else { i32::MIN };
        assert_eq!(f.process(x), 0);
    }
}

#[test]
fn process_follows_the_recurrence() {
    let mut f = Biquad::new_lowpass(48_000, 5_000_000, 707_000);
    let out: Vec<i32> = [UNIT, 0, 0, 0, 0].iter().map(|&x| f.process(x)).collect();
    assert_eq!(out, vec![1_211_778, 3_767_634, 4_908_361, 3_944_395, 2_421_074]);
    assert_eq!((f.x1, f.x2, f.y1, f.y2), (0, 0, 2_421_074, 3_944_395));

    let mut f = Biquad::new_notch(4_000, 1_000_000, 1_000_000);
    let out: Vec<i32> = [1_000, 0, 0, 0, 0, 0].iter().map(|&x| f.process(x)).collect();
    assert_eq!(out, vec![667, 0, 444, 0, -148, 0]);
}

#[test]
fn highpass_lets_a_step_die_away() {
    let mut f = Biquad::new_highpass(48_000, 70_000, 707_000);
    let first: Vec<i32> = (0..4).map(|_| f.process(UNIT)).collect();
    assert_eq!(first, vec![16_668_848, 16_452_817, 16_238_195, 16_024_982]);
    let mut last = 0;
    for _ in 0..48_000 {
        last = f.process(UNIT);
    }
    assert!(last.abs() < UNIT / 1_000, "after a second the step has gone: {}", last);
}

#[test]
fn process_limits_the_output() {
    let mut f = Biquad {
        b0: 4 << 30,
        b1: 0,
        b2: 0,
        a1: 0,
        a2: 0,
        x1: 0,
        x2: 0,
        y1: 0,
        y2: 0,
    };
    assert_eq!(f.process(1_000), 4_000);
    assert_eq!(f.process(i32::MAX), i32::MAX);
    assert_eq!(f.process(i32::MIN), i32::MIN);
    assert_eq!(f.process(-5), -20);
    let mut extreme = Biquad {
        b0: i64::MAX,
        b1: i64::MIN,
        b2: i64::MAX,
        a1: i64::MIN,
        a2: i64::MIN,
        x1: i32::MIN,
        x2: i32::MAX,
        y1: i32::MAX,
        y2: i32::MAX,
    };
    assert_eq!(extreme.process(i32::MAX), i32::MAX);
}

#[test]
fn chain_is_built_from_the_mask() {
    assert_eq!(FilterChain::new(48_000, 0).len(), 0);
    assert_eq!(FilterChain::new(48_000, 0b111110).len(), 5);
    assert_eq!(FilterChain::new(48_000, 0b111111).len(), 6);
    assert_eq!(FilterChain::new(48_000, 0b1000001).len(), 1);
    let mut chain = FilterChain::new(48_000, 0b100000);
    chain.push_bandpass(48_000, 82_410);
    assert_eq!(chain.len(), 2);
}

#[test]
fn chain_runs_its_sections_in_order() {
    let mut chain = FilterChain::new(48_000, 0b100001);
    chain.push_bandpass(48_000, 110_000);
    let mut highpass = Biquad::new_highpass(48_000, 70_000, 707_000);
    let mut lowpass = Biquad::new_lowpass(48_000, 5_000_000, 707_000);
    let mut bandpass = Biquad::new_bandpass(48_000, 110_000, 1_000_000);
    let input = sine(110.0, 48_000.0, 0.5, 512);
    let mut buffer = input.clone();
    chain.process_buffer(&mut buffer);
    let by_hand: Vec<i32> = input
        .iter()
        .map(|&x| bandpass.process(lowpass.process(highpass.process(x))))
        .collect();
    assert_eq!(buffer, by_hand);
    // The sections keep their history from one buffer to the next.
    let again = chain.process(input[0]);
    assert_eq!(
        again,
        bandpass.process(lowpass.process(highpass.process(input[0])))
    );
}

#[test]
fn empty_chain_changes_nothing() {
    let mut chain = FilterChain::new(44_100, 0);
    let input = sine(196.0, 44_100.0, 0.9, 256);
    let mut buffer = input.clone();
    chain.process_buffer(&mut buffer);
    assert_eq!(buffer, input);
    assert_eq!(chain.process(-7), -7);
}

#[test]
fn notch_removes_its_frequency_and_keeps_others() {
    let mut hum = FilterChain::new(48_000, 0b000010);
    let mut buffer = sine(50.0, 48_000.0, 0.5, 96_000);
    hum.process_buffer(&mut buffer);
    let settled = rms(&buffer[72_000..]);
    assert!(settled < UNIT as u32 / 200, "50 Hz is gone: {}", settled);

    let mut tone = FilterChain::new(48_000, 0b000010);
    let mut buffer = sine(82.41, 48_000.0, 0.5, 96_000);
    tone.process_buffer(&mut buffer);
    let kept = rms(&buffer[72_000..]) as f64 / UNIT as f64;
    assert!((kept - 0.5 / 2f64.sqrt()).abs() < 0.01, "82.41 Hz stays: {}", kept);
}

#[test]
fn level_of_a_buffer() {
    assert_eq!(rms(&[]), 0);
    assert_eq!(rms(&[0, 0, 0, 0]), 0);
    assert_eq!(rms(&[3, -4]), 3);
    assert_eq!(rms(&[5, 5, 5]), 5);
    assert_eq!(rms(&[-7]), 7);
    assert_eq!(rms(&[i32::MIN, i32::MIN]), 1 << 31);
    assert_eq!(rms(&[i32::MAX, i32::MIN, i32::MAX]), i32::MAX as u32);
    let level = rms(&sine(440.0, 48_000.0, 1.0, 48_000)) as f64 / UNIT as f64;
    assert!((level - 1.0 / 2f64.sqrt()).abs() < 1e-4, "{}", level);
}

#[test]
fn gain_control_scales_to_the_target() {
    let mut buffer = vec![100, -100, 50, -3, 0];
    apply_agc(&mut buffer, 100, 250);
    assert_eq!(buffer, vec![250, -250, 125, -7, 0]);
    let mut buffer = vec![3, -3, 1, -1];
    apply_agc(&mut buffer, 2, 1);
    assert_eq!(buffer, vec![2, -1, 1, 0]);
    let mut tone = sine(196.0, 48_000.0, 0.02, 4_800);
    let level = rms(&tone);
    apply_agc(&mut tone, level, UNIT as u32 / 10);
    let after = rms(&tone) as f64 / UNIT as f64;
    assert!((after - 0.1).abs() < 1e-4, "{}", after);
}

#[test]
fn gain_control_stops_at_ten() {
    let mut buffer = vec![100, -100, 7];
    apply_agc(&mut buffer, 10, 100);
    assert_eq!(buffer, vec![1_000, -1_000, 70]);
    let mut buffer = vec![100, -100, 7];
    apply_agc(&mut buffer, 10, 1_000_000);
    assert_eq!(buffer, vec![1_000, -1_000, 70]);
    let mut buffer = vec![0, 5];
    apply_agc(&mut buffer, 0, 1_000);
    assert_eq!(buffer, vec![0, 50]);
    let mut buffer = vec![i32::MAX, i32::MIN, 1 << 30];
    apply_agc(&mut buffer, 1, 5);
    assert_eq!(buffer, vec![i32::MAX, i32::MIN, i32::MAX]);
}

#[test]
fn hann_window_weights() {
    let weights: Vec<i64> = (0..8).map(|i| hann_weight(i, 8)).collect();
    assert_eq!(
        weights,
        vec![
            0,
            157_245_849,
            536_870_912,
            916_495_974,
            1_073_741_824,
            916_495_975,
            536_870_912,
            157_245_850
        ]
    );
    for n in [5usize, 64, 4_096] {
        for i in 0..n {
            let want = 0.5 - 0.5 * (2.0 * std::f64::consts::PI * i as f64 / n as f64).cos();
            let got = hann_weight(i, n) as f64 / ONE;
            assert!((got - want).abs() < 1e-8, "weight {} of {}", i, n);
        }
    }
}

#[test]
fn hann_window_over_a_buffer() {
    assert_eq!(apply_hann(&[]), Vec::<i32>::new());
    assert_eq!(apply_hann(&[123]), vec![0]);
    assert_eq!(
        apply_hann(&[UNIT; 8]),
        vec![0, 2_456_966, 8_388_608, 14_320_249, 16_777_216, 14_320_249, 8_388_608, 2_456_966]
    );
    assert_eq!(
        apply_hann(&[-UNIT; 8]),
        vec![
            0,
            -2_456_967,
            -8_388_608,
            -14_320_250,
            -16_777_216,
            -14_320_250,
            -8_388_608,
            -2_456_967
        ]
    );
    assert_eq!(apply_hann(&[i32::MIN, i32::MIN, i32::MAX, i32::MAX])[2], i32::MAX);
}

#[test]
fn window_keeps_the_last_values() {
    let mut window = FrequencySmoother::new(3);
    assert_eq!(window.average(), None);
    assert_eq!(window.spread(), None);
    window.push(100);
    assert_eq!(window.average(), Some(100));
    window.push(200);
    assert_eq!(window.average(), Some(150));
    window.push(400);
    assert_eq!(window.average(), Some(233));
    // The oldest value leaves: 200, 400, 900.
    window.push(900);
    assert_eq!(window.average(), Some(500));
    window.push(u32::MAX);
    window.push(u32::MAX);
    window.push(u32::MAX);
    assert_eq!(window.average(), Some(u32::MAX));
}

#[test]
fn window_of_size_zero_holds_one_value() {
    let mut window = FrequencySmoother::new(0);
    assert_eq!(window.average(), None);
    window.push(10);
    assert_eq!(window.average(), Some(10));
    window.push(20);
    window.push(30);
    window.push(40);
    assert_eq!(window.average(), Some(40));
    assert_eq!(window.spread(), Some(0));
}

#[test]
fn spread_of_a_window() {
    let mut window = FrequencySmoother::new(8);
    window.push(110_000);
    assert_eq!(window.spread(), Some(0));
    window.push(110_000);
    window.push(110_000);
    assert_eq!(window.spread(), Some(0));
    let mut window = FrequencySmoother::new(8);
    for value in [2u32, 4, 4, 4, 5, 5, 7, 9] {
        window.push(value);
    }
    // Mean 5, variance 4.
    assert_eq!(window.average(), Some(5));
    assert_eq!(window.spread(), Some(2));
    let mut window = FrequencySmoother::new(2);
    window.push(0);
    window.push(u32::MAX);
    assert_eq!(window.spread(), Some(u32::MAX / 2));
}

#[test]
fn moving_average_is_seeded_by_the_first_value() {
    let mut average = ExpMovingAverage::new(400_000);
    assert_eq!(average.update(100_000), 100_000);
    // 0.4 * 110000 + 0.6 * 100000.
    assert_eq!(average.update(110_000), 104_000);
    // 0.4 * 110000 + 0.6 * 104000.
    assert_eq!(average.update(110_000), 106_400);
    assert_eq!(average.update(0), 63_840);
}

#[test]
fn moving_average_rounds_to_the_nearest() {
    let mut average = ExpMovingAverage::new(500_000);
    assert_eq!(average.update(1), 1);
    assert_eq!(average.update(2), 2);
    let mut average = ExpMovingAverage::new(333_333);
    assert_eq!(average.update(0), 0);
    assert_eq!(average.update(1), 0);
    assert_eq!(average.update(3), 1);
    let mut average = ExpMovingAverage::new(1_000_000);
    average.update(5);
    assert_eq!(average.update(u32::MAX), u32::MAX);
    let mut frozen = ExpMovingAverage::new(0);
    frozen.update(5);
    assert_eq!(frozen.update(u32::MAX), 5);
}

#[test]
fn moving_average_weight_is_at_most_one() {
    let mut average = ExpMovingAverage::new(u32::MAX);
    assert_eq!(average.update(100), 100);
    assert_eq!(average.update(300), 300);
    assert_eq!(average.update(0), 0);
}

#[test]
fn confidence_from_level_and_spread() {
    // A silent, steady estimate: 0.4 for steadiness and 0.1 for harmonics.
    assert_eq!(score(0, 0), 500_000);
    // Loud and steady.
    assert_eq!(score(UNIT as u32, 0), 900_000);
    assert_eq!(score(u32::MAX, 0), 900_000);
    // A level of a fortieth of one scores a half for loudness; a spread of
    // one hertz scores four fifths for steadiness.
    assert_eq!(score(UNIT as u32 / 40, 1_000), 619_999);
    // Five hertz of spread and more score nothing for steadiness.
    assert_eq!(score(UNIT as u32 / 20, 5_000), 499_999);
    assert_eq!(score(UNIT as u32 / 20, u32::MAX), 499_999);
    assert_eq!(score(UNIT as u32 / 100, 2_500), 379_999);
}

#[test]
fn scorer_judges_by_the_last_eight() {
    let mut scorer = QualityScorer::new();
    assert_eq!(scorer.update(110_000, UNIT as u32), 900_000);
    assert_eq!(scorer.update(110_000, UNIT as u32), 900_000);
    // 110 Hz and 120 Hz twice each: a spread of 5 Hz, no steadiness left.
    let mut scorer = QualityScorer::new();
    scorer.update(110_000, 0);
    scorer.update(120_000, 0);
    scorer.update(110_000, 0);
    assert_eq!(scorer.update(120_000, 0), 100_000);
    // Eight steady estimates push the unsteady ones out.
    let mut last = 0;
    for _ in 0..8 {
        last = scorer.update(115_000, 0);
    }
    assert_eq!(last, 500_000);
}
