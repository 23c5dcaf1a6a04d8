use nofuzz_tuner::bits::{is_bit_set, set_bits};
use nofuzz_tuner::cents::cents_between;
use nofuzz_tuner::config::{correction_hint, detector_kind, Config, DetectorKind, Direction};
use nofuzz_tuner::correction::{harmonic_correct, octave_correct};
use nofuzz_tuner::fixed::{distance, div_floor, isqrt};
use nofuzz_tuner::preset::preset;
use nofuzz_tuner::trig::cos_sin_of;

#[test]
fn set_bits_sets_exactly_the_listed_bits() {
    assert_eq!(set_bits(&[]), 0);
    assert_eq!(set_bits(&[0]), 1);
    assert_eq!(set_bits(&[1, 2, 3, 4, 5]), 0b111110);
    assert_eq!(set_bits(&[5, 0, 5]), 0b100001);
    assert_eq!(set_bits(&[31]), 1usize << 31);
}

#[test]
fn is_bit_set_reads_single_bits() {
    assert!(is_bit_set(0b111110, 1));
    assert!(is_bit_set(0b111110, 5));
    assert!(!is_bit_set(0b111110, 0));
    assert!(!is_bit_set(0b111110, 6));
    assert!(!is_bit_set(0, 31));
}

#[test]
fn floor_square_roots() {
    assert_eq!(isqrt(0), 0);
    assert_eq!(isqrt(1), 1);
    assert_eq!(isqrt(3), 1);
    assert_eq!(isqrt(4), 2);
    assert_eq!(isqrt(99), 9);
    assert_eq!(isqrt(100), 10);
    assert_eq!(isqrt(u64::MAX), u32::MAX);
    assert_eq!(isqrt((1u64 << 62) - 1), (1u32 << 31) - 1);
}

#[test]
fn floor_division_rounds_down() {
    assert_eq!(div_floor(7, 2), 3);
    assert_eq!(div_floor(-7, 2), -4);
    assert_eq!(div_floor(-8, 2), -4);
    assert_eq!(div_floor(0, 5), 0);
    assert_eq!(div_floor(-1, 1_000), -1);
    assert_eq!(distance(3, 10), 7);
    assert_eq!(distance(10, 3), 7);
    assert_eq!(distance(0, u32::MAX), u32::MAX);
}

#[test]
fn cents_of_exact_octaves() {
    assert_eq!(cents_between(440_000, 440_000), 0);
    assert_eq!(cents_between(880_000, 440_000), 1_200_000);
    assert_eq!(cents_between(440_000, 880_000), -1_200_000);
    assert_eq!(cents_between(110_000, 440_000), -2_400_000);
    assert_eq!(cents_between(1, 1), 0);
    assert_eq!(cents_between(u64::MAX, u64::MAX), 0);
    assert_eq!(cents_between(1 << 63, 1), 63 * 1_200_000);
}

#[test]
fn cents_of_a_semitone() {
    // 466.164 Hz is a semitone above 440 Hz: 100.0009 cents.
    assert_eq!(cents_between(466_164, 440_000), 100_000);
    assert_eq!(cents_between(440_000, 466_164), -100_001);
    assert_eq!(cents_between(82_474, 82_410), 1_343);
}

#[test]
fn cents_follow_the_logarithm() {
    let pairs: [(u64, u64); 6] = [
        (82_410, 110_000),
        (329_630, 82_410),
        (1, 3),
        (3, 1),
        (123_456_789, 1_000),
        (4_294_967_295, 7),
    ];
    for (f, g) in pairs {
        let want = 1_200_000.0 * (f as f64 / g as f64).log2();
        let got = cents_between(f, g) as f64;
        assert!((got - want).abs() < 1.5, "{} / {}: got {}, want {}", f, g, got, want);
    }
}

#[test]
fn cosine_and_sine_on_the_axes() {
    let one: i64 = 1 << 30;
    assert_eq!(cos_sin_of(0), (one, 0));
    assert_eq!(cos_sin_of(1 << 30), (0, one));
    assert_eq!(cos_sin_of(1 << 31), (-one, 0));
    assert_eq!(cos_sin_of(3 << 30), (0, -one));
}

#[test]
fn cosine_and_sine_of_a_twelfth_turn() {
    assert_eq!(cos_sin_of(((1u64 << 32) / 12) as u32), (929_887_698, 536_870_911));
}

#[test]
fn cosine_and_sine_follow_the_functions() {
    let one = (1u64 << 30) as f64;
    let mut phase: u64 = 0;
    while phase < (1 << 32) {
        let (c, s) = cos_sin_of(phase as u32);
        let angle = 2.0 * std::f64::consts::PI * phase as f64 / 4_294_967_296.0;
        assert!((c as f64 / one - angle.cos()).abs() < 1e-8, "cos at {}", phase);
        assert!((s as f64 / one - angle.sin()).abs() < 1e-8, "sin at {}", phase);
        phase += 7_654_321;
    }
}

#[test]
fn harmonic_lock_is_divided_down() {
    // Twice, three times and four times the estimate.
    assert_eq!(harmonic_correct(200_000, 100_000, 50_000), 100_000);
    assert_eq!(harmonic_correct(300_000, 100_000, 50_000), 100_000);
    assert_eq!(harmonic_correct(400_000, 100_000, 50_000), 100_000);
    // Within the tolerance of five hundredths: 2.04 times.
    assert_eq!(harmonic_correct(204_000, 100_000, 50_000), 102_000);
    // Not within it: 2.06 times, and exactly at it: 2.05 times.
    assert_eq!(harmonic_correct(206_000, 100_000, 50_000), 206_000);
    assert_eq!(harmonic_correct(205_000, 100_000, 50_000), 205_000);
    // The quotient is rounded to the nearest millihertz.
    assert_eq!(harmonic_correct(200_001, 100_000, 50_000), 100_001);
    assert_eq!(harmonic_correct(300_001, 100_000, 50_000), 100_000);
    // Five times the estimate is no harmonic that is undone.
    assert_eq!(harmonic_correct(500_000, 100_000, 50_000), 500_000);
}

#[test]
fn half_the_estimate_is_doubled() {
    assert_eq!(harmonic_correct(50_000, 100_000, 50_000), 100_000);
    assert_eq!(harmonic_correct(41_000, 100_000, 50_000), 82_000);
    assert_eq!(harmonic_correct(59_999, 100_000, 50_000), 119_998);
    // The ends of the interval are left alone.
    assert_eq!(harmonic_correct(40_000, 100_000, 50_000), 40_000);
    assert_eq!(harmonic_correct(60_000, 100_000, 50_000), 60_000);
    // Doubling stops at the largest frequency.
    assert_eq!(harmonic_correct(2_400_000_000, 4_200_000_000, 50_000), u32::MAX);
}

#[test]
fn fundamental_is_left_alone() {
    assert_eq!(harmonic_correct(100_000, 100_000, 50_000), 100_000);
    assert_eq!(harmonic_correct(82_474, 82_410, 50_000), 82_474);
    assert_eq!(harmonic_correct(149_999, 100_000, 50_000), 149_999);
    assert_eq!(harmonic_correct(60_000, 100_000, 1_000_000), 60_000);
    // Without an estimate there is no ratio.
    assert_eq!(harmonic_correct(100_000, 0, 50_000), 100_000);
    assert_eq!(harmonic_correct(0, 100_000, 50_000), 0);
}

#[test]
fn harmonic_correction_settles() {
    for refined in [50_000u32, 99_000, 100_000, 150_000, 204_000, 298_000, 401_000, 777_777] {
        let once = harmonic_correct(refined, 100_000, 50_000);
        assert_eq!(harmonic_correct(once, 100_000, 50_000), once);
    }
}

#[test]
fn octave_errors_are_undone() {
    let expected: u32 = 110_000;
    let tolerance: u32 = 50_000;
    assert_eq!(octave_correct(2 * expected, expected, tolerance), expected);
    assert_eq!(octave_correct(expected / 2, expected, tolerance), expected);
    assert_eq!(octave_correct(expected, expected, tolerance), expected);
    // Within fifty cents of the octave: 20 cents above it.
    assert_eq!(octave_correct(222_556, expected, tolerance), 111_278);
    // Not within it: 60 cents above the octave.
    assert_eq!(octave_correct(227_758, expected, tolerance), 227_758);
    // Near the expected frequency nothing moves.
    assert_eq!(octave_correct(112_000, expected, tolerance), 112_000);
}

#[test]
fn octave_correction_round_trips_at_any_tolerance() {
    for expected in [2u32, 82_410, 110_000, 329_630, 2_000_000_000] {
        for tolerance in [0u32, 1, 50_000, u32::MAX] {
            assert_eq!(octave_correct(2 * expected, expected, tolerance), expected);
            assert_eq!(octave_correct(expected / 2, expected, tolerance), expected);
            assert_eq!(octave_correct(expected, expected, tolerance), expected);
        }
    }
}

#[test]
fn octave_correction_needs_both_frequencies() {
    assert_eq!(octave_correct(220_000, 0, 50_000), 220_000);
    assert_eq!(octave_correct(0, 110_000, 50_000), 0);
    // Half of an odd frequency is one millihertz short of it when doubled.
    assert_eq!(octave_correct(41_205, 82_411, 50_000), 82_410);
    assert_eq!(octave_correct(1, 3, 0), 1);
    // Doubling stops at the largest frequency.
    assert_eq!(octave_correct(2_147_483_648, u32::MAX, 50_000), u32::MAX);
}

#[test]
fn presets_by_name() {
    let acoustic = preset("acoustic");
    assert_eq!(acoustic.threshold, 150_000);
    assert_eq!(acoustic.freq_min, 60_000);
    assert_eq!(acoustic.freq_max, 500_000);
    assert_eq!(acoustic.filter_mask, 0b111110);
    assert_eq!(acoustic.feature_mask, 0b110);
    assert_eq!(acoustic.averaging_window_size, 3);
    assert_eq!(acoustic.smoothing_alpha, 400_000);
    assert_eq!(preset("electric-clean").filter_mask, 0b111111);
    assert_eq!(preset("electric-distorted").feature_mask, 0b111);
    assert_eq!(preset("classical").freq_max, 1_100_000);
    assert_eq!(preset("bass").freq_min, 25_000);
    assert_eq!(preset("extended-range").filter_mask, 0b111000);
}

#[test]
fn unknown_preset_is_the_acoustic_one() {
    assert_eq!(preset("ukulele"), preset("acoustic"));
    assert_eq!(preset(""), preset("acoustic"));
    assert_eq!(preset("Bass"), preset("acoustic"));
    assert_ne!(preset("bass"), preset("acoustic"));
}

#[test]
fn detector_names() {
    assert_eq!(detector_kind("yin"), Some(DetectorKind::Yin));
    assert_eq!(detector_kind("mcleod"), Some(DetectorKind::Mcleod));
    assert_eq!(detector_kind("fft"), Some(DetectorKind::Fft));
    assert_eq!(detector_kind("YIN"), None);
    assert_eq!(detector_kind(""), None);
    let config = Config {
        device_id: 0,
        pitch_detection: "mcleod".to_string(),
        threshold: 100_000,
        freq_min: 60_000,
        freq_max: 500_000,
        power_threshold: 5_000_000,
        clarity_threshold: 700_000,
    };
    assert_eq!(config.kind(), Some(DetectorKind::Mcleod));
}

#[test]
fn correction_hints() {
    assert_eq!(correction_hint(0), None);
    assert_eq!(correction_hint(900), None);
    assert_eq!(correction_hint(-900), None);
    assert_eq!(correction_hint(901), Some(Direction::Lower));
    assert_eq!(correction_hint(-901), Some(Direction::Raise));
    assert_eq!(correction_hint(i64::MIN), Some(Direction::Raise));
    assert_eq!(correction_hint(i64::MAX), Some(Direction::Lower));
}

#[test]
fn cents_grow_with_the_frequency() {
    let mut last = cents_between(1, 82_410);
    let mut f: u64 = 1;
    while f < 400_000 {
        let now = cents_between(f, 82_410);
        assert!(now >= last, "{} mHz", f);
        last = now;
        f += 1 + f / 97;
    }
    assert_eq!(cents_between(82_410, 82_410), 0);
    assert!(cents_between(82_409, 82_410) < 0);
    assert!(cents_between(82_411, 82_410) >= 0);
}

#[test]
fn five_cents_around_the_low_e() {
    assert_eq!(cents_between(82_648, 82_410), 4_992);
    assert_eq!(cents_between(82_649, 82_410), 5_013);
    assert_eq!(cents_between(82_173, 82_410), -4_986);
    assert_eq!(cents_between(82_172, 82_410), -5_008);
}

#[test]
fn cents_depend_on_the_ratio_alone() {
    for (f, g) in [(82_474u64, 82_410u64), (3, 7), (7, 3), (440_001, 440_000), (1, 1_000_003)] {
        let interval = cents_between(f, g);
        for k in [2u64, 3, 10, 1_000_000] {
            assert_eq!(cents_between(k * f, k * g), interval);
        }
        // Half the lower frequency is one octave more.
        assert_eq!(cents_between(f, g), cents_between(f, 2 * g) + 1_200_000);
        assert_eq!(cents_between(2 * f, g), cents_between(f, g) + 1_200_000);
    }
}

#[test]
fn estimate_near_the_octave_above_is_halved() {
    let expected: u32 = 82_410;
    // Within fifty cents of twice the expected frequency, on both sides.
    for detected in [160_130u32, 162_000, 164_820, 164_821, 167_000, 169_649] {
        let above = cents_between(detected as u64, 2 * expected as u64);
        assert!(above.abs() <= 50_000, "{} mHz", detected);
        let corrected = octave_correct(detected, expected, 50_000);
        assert_eq!(corrected, detected / 2);
        if detected % 2 == 0 {
            assert_eq!(cents_between(corrected as u64, expected as u64), above);
        }
    }
    // Beyond fifty cents nothing moves.
    assert_eq!(octave_correct(160_100, expected, 50_000), 160_100);
    assert_eq!(octave_correct(169_700, expected, 50_000), 169_700);
}
