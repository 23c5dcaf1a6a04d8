use nofuzz_tuner::standard::{find_closest_note, find_string_and_distance, tunings};
use nofuzz_tuner::tuning::{check_notes, nearest_position, Note, TuningError, TuningRegistry};

/// Hertz to the millihertz that the library counts in.
fn mhz(hz: f64) -> u32 {
    (hz * 1000.0).round() as u32
}

/// Millihertz back to hertz.
fn hz(mhz: u32) -> f64 {
    mhz as f64 / 1000.0
}

/// Unwraps the match and compares the name exactly and the two frequencies
/// within a millionth of a hertz.
fn assert_note_result(
    result: Option<(String, u32, u32)>,
    want_note: &str,
    want_target: f64,
    want_dist: f64,
) {
    let (note, target, dist) = result.expect("expected Some(...)");
    assert_eq!(note, want_note);
    assert!(
        (hz(target) - want_target).abs() < 1e-6_f64,
        "target: got {}, want {}",
        hz(target),
        want_target
    );
    assert!(
        (hz(dist) - want_dist).abs() < 1e-6_f64,
        "dist:   got {}, want {}",
        hz(dist),
        want_dist
    );
}

fn names(list: &[&str]) -> Vec<String> {
    list.iter().map(|s| s.to_string()).collect()
}

#[test]
fn standard_e_exact_match() {
    assert_note_result(find_closest_note(mhz(82.41_f64), "standard-e"), "E2", 82.41_f64, 0.0_f64);
    assert_note_result(find_closest_note(mhz(110.0_f64), "standard-e"), "A2", 110.0_f64, 0.0_f64);
    assert_note_result(find_closest_note(mhz(146.83_f64), "standard-e"), "D3", 146.83_f64, 0.0_f64);
    assert_note_result(find_closest_note(mhz(196.0_f64), "standard-e"), "G3", 196.0_f64, 0.0_f64);
    assert_note_result(find_closest_note(mhz(246.94_f64), "standard-e"), "B3", 246.94_f64, 0.0_f64);
    assert_note_result(find_closest_note(mhz(329.63_f64), "standard-e"), "E4", 329.63_f64, 0.0_f64);
}

#[test]
fn standard_e_off_by_a_bit() {
    assert_note_result(
        find_closest_note(mhz(83.0_f64), "standard-e"),
        "E2",
        82.41_f64,
        (83.0_f64 - 82.41_f64).abs(),
    );
    assert_note_result(
        find_closest_note(mhz(108.0_f64), "standard-e"),
        "A2",
        110.0_f64,
        (110.0_f64 - 108.0_f64).abs(),
    );
    assert_note_result(
        find_closest_note(mhz(150.0_f64), "standard-e"),
        "D3",
        146.83_f64,
        (150.0_f64 - 146.83_f64).abs(),
    );
    assert_note_result(
        find_closest_note(mhz(200.0_f64), "standard-e"),
        "G3",
        196.0_f64,
        (200.0_f64 - 196.0_f64).abs(),
    );
    assert_note_result(
        find_closest_note(mhz(250.0_f64), "standard-e"),
        "B3",
        246.94_f64,
        (250.0_f64 - 246.94_f64).abs(),
    );
    assert_note_result(
        find_closest_note(mhz(330.5_f64), "standard-e"),
        "E4",
        329.63_f64,
        (330.5_f64 - 329.63_f64).abs(),
    );
}

#[test]
fn drop_d_low_string() {
    assert_note_result(find_closest_note(mhz(73.42_f64), "drop-d"), "D2", 73.42_f64, 0.0_f64);
    assert_note_result(
        find_closest_note(mhz(80.0_f64), "drop-d"),
        "D2",
        73.42_f64,
        (80.0_f64 - 73.42_f64).abs(),
    );
}

#[test]
fn flat_e_tuning() {
    assert_note_result(
        find_closest_note(mhz(78.0_f64), "flat-e"),
        "Eb2",
        77.78_f64,
        (78.0_f64 - 77.78_f64).abs(),
    );
}

#[test]
fn unknown_tuning_returns_none() {
    assert!(find_closest_note(mhz(100.0_f64), "no-such-tuning").is_none());
}

#[test]
fn tuning_map_has_expected_keys() {
    let registry = tunings();
    for key in &["standard-e", "flat-e", "drop-d"] {
        assert!(
            registry.contains_key(key),
            "TUNINGS missing expected key `{}`",
            key
        );
    }
}

#[test]
fn builtin_tunings_are_listed_once_each() {
    let registry = tunings();
    let table = registry.list_tunings();
    let ids: Vec<&str> = table.iter().map(|s| s.id.as_str()).collect();
    assert_eq!(ids.len(), 3);
    assert!(ids.contains(&"standard-e"));
    assert!(ids.contains(&"flat-e"));
    assert!(ids.contains(&"drop-d"));
    let standard = table.iter().find(|s| s.id == "standard-e").unwrap();
    assert_eq!(standard.label, "Standard E");
    assert_eq!(standard.notes.len(), 6);
    assert_eq!(standard.notes[0].name, "E2");
    assert_eq!(standard.notes[0].freq, 82_410);
    assert_eq!(standard.notes[5].name, "E4");
    assert_eq!(standard.notes[5].freq, 329_630);
    assert!(!registry.contains_key("standard"));
}

#[test]
fn every_builtin_note_matches_itself() {
    let registry = tunings();
    for scheme in registry.list_tunings() {
        for note in &scheme.notes {
            let found = registry.nearest_note(&scheme.id, note.freq);
            assert_eq!(found, Some((note.name.clone(), note.freq, 0)));
        }
    }
}

#[test]
fn between_adjacent_notes_the_nearer_wins() {
    let registry = tunings();
    // E2 is at 82.410 Hz and A2 at 110.000 Hz: the midpoint is 96.205 Hz.
    assert_eq!(
        registry.nearest_note("standard-e", 96_204),
        Some(("E2".to_string(), 82_410, 13_794))
    );
    assert_eq!(
        registry.nearest_note("standard-e", 96_206),
        Some(("A2".to_string(), 110_000, 13_794))
    );
    assert_eq!(
        registry.nearest_note("standard-e", 109_999),
        Some(("A2".to_string(), 110_000, 1))
    );
    assert_eq!(
        registry.nearest_note("standard-e", 82_411),
        Some(("E2".to_string(), 82_410, 1))
    );
}

#[test]
fn a_tie_goes_to_the_lower_note() {
    let registry = tunings();
    assert_eq!(
        registry.nearest_note("standard-e", 96_205),
        Some(("E2".to_string(), 82_410, 13_795))
    );
    let mut own = TuningRegistry::new();
    own.register_tuning("pair", "Pair", &names(&["high", "low"]), &[300, 100])
        .unwrap();
    assert_eq!(own.nearest_note("pair", 200), Some(("low".to_string(), 100, 100)));
}

#[test]
fn equal_frequencies_go_to_the_first_registered() {
    let mut own = TuningRegistry::new();
    own.register_tuning("twins", "Twins", &names(&["second", "first"]), &[500, 500])
        .unwrap();
    assert_eq!(own.nearest_note("twins", 400), Some(("second".to_string(), 500, 100)));
    assert_eq!(own.nearest_note("twins", 500), Some(("second".to_string(), 500, 0)));
}

#[test]
fn frequencies_beyond_the_ends_match_the_end_notes() {
    let registry = tunings();
    assert_eq!(
        registry.nearest_note("standard-e", 0),
        Some(("E2".to_string(), 82_410, 82_410))
    );
    assert_eq!(
        registry.nearest_note("standard-e", u32::MAX),
        Some(("E4".to_string(), 329_630, u32::MAX - 329_630))
    );
}

#[test]
fn unregistered_scheme_is_not_found() {
    let registry = TuningRegistry::new();
    assert_eq!(registry.nearest_note("standard-e", 82_410), None);
    assert!(!registry.contains_key("standard-e"));
    assert!(registry.list_tunings().is_empty());
    let builtin = tunings();
    assert_eq!(builtin.nearest_note("", 82_410), None);
    assert_eq!(builtin.nearest_note("Standard-E", 82_410), None);
}

#[test]
fn registering_adds_a_scheme() {
    let mut registry = tunings();
    let r = registry.register_tuning(
        "dadgad",
        "DADGAD",
        &names(&["D2", "A2", "D3", "G3", "A3", "D4"]),
        &[73_420, 110_000, 146_830, 196_000, 220_000, 293_660],
    );
    assert_eq!(r, Ok(()));
    assert!(registry.contains_key("dadgad"));
    assert_eq!(registry.list_tunings().len(), 4);
    assert_eq!(
        registry.nearest_note("dadgad", 221_000),
        Some(("A3".to_string(), 220_000, 1_000))
    );
    // The other schemes are as they were.
    assert_eq!(
        registry.nearest_note("standard-e", 221_000),
        Some(("G3".to_string(), 196_000, 25_000))
    );
}

#[test]
fn registering_again_replaces_the_scheme() {
    let mut registry = tunings();
    registry
        .register_tuning("standard-e", "One note", &names(&["A4"]), &[440_000])
        .unwrap();
    assert_eq!(registry.list_tunings().len(), 3);
    assert_eq!(
        registry.nearest_note("standard-e", 82_410),
        Some(("A4".to_string(), 440_000, 357_590))
    );
    let scheme = registry
        .list_tunings()
        .iter()
        .find(|s| s.id == "standard-e")
        .unwrap();
    assert_eq!(scheme.label, "One note");
    assert_eq!(scheme.notes.len(), 1);
}

#[test]
fn mismatched_lengths_are_rejected() {
    let mut registry = tunings();
    let r = registry.register_tuning("bad", "Bad", &names(&["A", "B"]), &[100_000]);
    assert_eq!(r, Err(TuningError::LengthMismatch));
    assert!(!registry.contains_key("bad"));
    assert_eq!(registry.list_tunings().len(), 3);
    assert_eq!(
        check_notes(&names(&[]), &[1]),
        Err(TuningError::LengthMismatch)
    );
}

#[test]
fn zero_frequency_is_rejected() {
    let mut registry = TuningRegistry::new();
    let r = registry.register_tuning("bad", "Bad", &names(&["A", "B"]), &[100_000, 0]);
    assert_eq!(r, Err(TuningError::ZeroFrequency));
    assert!(!registry.contains_key("bad"));
    // A zero frequency is reported before a repeated name.
    assert_eq!(
        check_notes(&names(&["A", "A"]), &[0, 1]),
        Err(TuningError::ZeroFrequency)
    );
}

#[test]
fn repeated_name_is_rejected() {
    let mut registry = TuningRegistry::new();
    let r = registry.register_tuning("bad", "Bad", &names(&["A", "B", "A"]), &[1, 2, 3]);
    assert_eq!(r, Err(TuningError::DuplicateNote));
    assert!(!registry.contains_key("bad"));
    assert_eq!(check_notes(&names(&["A", "B", "C"]), &[1, 2, 3]), Ok(()));
}

#[test]
fn scheme_without_notes_matches_nothing() {
    let mut registry = TuningRegistry::new();
    assert_eq!(registry.register_tuning("empty", "Empty", &[], &[]), Ok(()));
    assert!(registry.contains_key("empty"));
    assert_eq!(registry.nearest_note("empty", 440_000), None);
}

#[test]
fn nearest_position_is_an_index() {
    let notes = vec![
        Note { name: "a".to_string(), freq: 300 },
        Note { name: "b".to_string(), freq: 100 },
        Note { name: "c".to_string(), freq: 200 },
    ];
    assert_eq!(nearest_position(&notes, 0), 1);
    assert_eq!(nearest_position(&notes, 160), 2);
    assert_eq!(nearest_position(&notes, 150), 1);
    assert_eq!(nearest_position(&notes, 1_000), 0);
}

#[test]
fn nearest_string_with_signed_offset() {
    assert_eq!(find_string_and_distance(82_410), (82_410, 0, "E2".to_string()));
    assert_eq!(find_string_and_distance(80_000), (82_410, -2_410, "E2".to_string()));
    assert_eq!(find_string_and_distance(112_500), (110_000, 2_500, "A2".to_string()));
    assert_eq!(find_string_and_distance(0), (82_410, -82_410, "E2".to_string()));
    assert_eq!(
        find_string_and_distance(u32::MAX),
        (329_630, u32::MAX as i64 - 329_630, "E4".to_string())
    );
}
