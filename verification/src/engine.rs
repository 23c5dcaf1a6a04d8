//! The detector: it conditions a buffer, asks an estimator for the
//! fundamental, refines and corrects the estimate, tracks it over time and
//! matches it to a note.
//!
//! The estimator and the spectrum analyzer are capabilities that the
//! detector is given; nothing is assumed of what they return.
use crate::interface::{PitchEstimator, PitchFindTrait, SpectrumAnalyzer};
use crate::biquad::{bandpass, Biquad};
use crate::bits::{bit_is_set, is_bit_set};
use crate::chain::{chain_after, filtered, masked_stages, FilterChain, STRING_Q};
use crate::cents::cents;
use crate::correction::{
    harmonic_correct, harmonic_corrected, magnitude, octave_correct, octave_corrected,
};
use crate::fixed::{abs_diff, distance};
use crate::level::{agc_applied, apply_agc, rms, rms_level, NOISE_FLOOR};
use crate::preset::{preset, preset_of, FEATURE_OUTLIER_GATE, FEATURE_REFINE, FEATURE_SMOOTHING};
use crate::quality::{scored, QualityScorer, STABILITY_WINDOW};
use crate::refine::{bin_in_range, nearest_bin, refine_peak, refined_frequency, Refinement};
use crate::result::{describe, described, result_view, PitchResult, PitchResultView};
use crate::smoothing::{ema_next, mean, pushed, ExpMovingAverage, FrequencySmoother};
use crate::standard::{standard_labels, standard_tunings, tunings};
use crate::tuning::{
    note_views, validate, zip_notes, NoteView, TuningError, TuningRegistry, TuningScheme,
};
use crate::window::apply_hann;
use vstd::prelude::*;
use vstd::string::*;

verus! {

/// How far an estimate may lie from the mean of the outlier window, in
/// millihertz, before it is rejected.
pub const OUTLIER_LIMIT: u32 = 5_500;

/// How near to a whole number the ratio of the refined to the estimated
/// frequency must be for a harmonic to be undone, in millionths.
pub const HARMONIC_TOLERANCE: u32 = 50_000;

/// How near to the expected frequency an estimate must come by an octave
/// shift for the shift to be made, in thousandths of a cent.
pub const OCTAVE_TOLERANCE: u32 = 50_000;

/// The level that gain control aims at unless told otherwise: a tenth of an
/// amplitude of one.
pub const DEFAULT_AGC_TARGET: u32 = 1_677_721;

/// What a detector was told to do.
#[derive(Clone, Copy, Debug, PartialEq, Eq)]
pub struct Settings {
    /// The sample rate in hertz.
    pub sample_rate: u32,
    /// The expected length of a buffer.
    pub block_size: usize,
    /// Whether estimates are refined with the spectrum.
    pub fft_refine: bool,
    /// Whether estimates far from the recent mean are rejected.
    pub outlier_gate: bool,
    /// Whether the reported frequency is a moving average.
    pub smoothing: bool,
    /// Whether buffers are brought to a target level first.
    pub agc: bool,
    /// The level that gain control aims at.
    pub agc_target: u32,
    /// Whether a refined frequency at a harmonic of the estimate is
    /// divided down.
    pub harmonic_correction: bool,
    /// Whether an estimate is moved by an octave toward the expected
    /// frequency.
    pub octave_correction: bool,
    /// The expected frequency in millihertz; zero for none.
    pub expected_freq: u32,
}

/// The settings of a new detector.
pub open spec fn initial_settings(sample_rate: u32, block_size: usize, feature_mask: usize)
    -> Settings {
    Settings {
        sample_rate,
        block_size,
        fft_refine: bit_is_set(feature_mask, FEATURE_REFINE),
        outlier_gate: bit_is_set(feature_mask, FEATURE_OUTLIER_GATE),
        smoothing: bit_is_set(feature_mask, FEATURE_SMOOTHING),
        agc: false,
        agc_target: DEFAULT_AGC_TARGET,
        harmonic_correction: false,
        octave_correction: false,
        expected_freq: 0,
    }
}

/// What a detector remembers of earlier estimates.
pub struct Tracker {
    /// The window of the outlier gate, oldest first.
    pub window: Seq<u32>,
    /// The size at which the outlier window evicts.
    pub capacity: nat,
    /// The moving average; nothing before the first estimate.
    pub average: Option<u32>,
    /// The weight of a new value in the moving average, in millionths.
    pub alpha: int,
    /// The estimates that steadiness is judged by, oldest first.
    pub history: Seq<u32>,
}

/// The tracker of a new detector.
pub open spec fn initial_tracker(averaging_window_size: usize, smoothing_alpha: u32) -> Tracker {
    Tracker {
        window: Seq::<u32>::empty(),
        capacity: if averaging_window_size == 0 {
            1
        } else {
            averaging_window_size as nat
        },
        average: None,
        alpha: if smoothing_alpha <= 1_000_000 {
            smoothing_alpha as int
        } else {
            1_000_000
        },
        history: Seq::<u32>::empty(),
    }
}

/// The buffer that is filtered: the input, after gain control where that is
/// on.
pub open spec fn conditioned_input(s: Settings, data: Seq<i32>) -> Seq<i32> {
    if s.agc {
        agc_applied(data, rms_level(data), s.agc_target as int)
    } else {
        data
    }
}

/// The frequency that goes on from an estimate and its refinement: the
/// estimate itself where refinement is off or had nothing to refine; nothing
/// where the refinement is invalid; else the refined frequency, with a lock
/// onto a harmonic of the estimate undone where that correction is on.
pub open spec fn chosen_frequency(s: Settings, approx: u32, refinement: Refinement) -> Option<u32> {
    if !s.fft_refine {
        Some(approx)
    } else {
        match refinement {
            Refinement::OutOfRange => Some(approx),
            Refinement::Invalid => None,
            Refinement::Refined(f) => Some(
                if s.harmonic_correction {
                    harmonic_corrected(f as int, approx as int, HARMONIC_TOLERANCE as int) as u32
                } else {
                    f
                },
            ),
        }
    }
}

/// A frequency after octave correction, where that is on and an expected
/// frequency is set.
pub open spec fn octave_stage(s: Settings, freq: u32) -> u32 {
    if s.octave_correction && s.expected_freq > 0 {
        octave_corrected(freq as int, s.expected_freq as int, OCTAVE_TOLERANCE as int) as u32
    } else {
        freq
    }
}

/// Whether `freq` lies further than `OUTLIER_LIMIT` from the mean of
/// `window`.
pub open spec fn is_outlier(window: Seq<u32>, freq: u32) -> bool {
    match mean(window) {
        Some(m) => abs_diff(m, freq as int) > OUTLIER_LIMIT,
        None => false,
    }
}

/// The tracker after the frequency `freq` for a buffer of level `level`,
/// and the frequency and confidence to report, if any.
///
/// A frequency of zero changes nothing. Otherwise the frequency is
/// octave-corrected; with the outlier gate on it enters that window and is
/// dropped if it is an outlier there; with smoothing on the moving average
/// takes it and stands for it; a result of zero is dropped; what is left
/// enters the history and is scored.
pub open spec fn followed(t: Tracker, s: Settings, freq: u32, level: int) -> (
    Tracker,
    Option<(u32, int)>,
) {
    if freq == 0 {
        (t, None)
    } else {
        let corrected = octave_stage(s, freq);
        let window = if s.outlier_gate {
            pushed(t.window, t.capacity, corrected)
        } else {
            t.window
        };
        if s.outlier_gate && is_outlier(window, corrected) {
            (Tracker { window, ..t }, None)
        } else {
            let smooth = if s.smoothing {
                ema_next(t.average, t.alpha, corrected as int) as u32
            } else {
                corrected
            };
            let average = if s.smoothing {
                Some(smooth)
            } else {
                t.average
            };
            if smooth == 0 {
                (Tracker { window, average, ..t }, None)
            } else {
                let history = pushed(t.history, STABILITY_WINDOW as nat, smooth);
                (
                    Tracker { window, average, history, ..t },
                    Some((smooth, scored(t.history, smooth, level))),
                )
            }
        }
    }
}

/// The tracker after the frequency `freq`, and what is reported for it in
/// the scheme `tuning`.
pub open spec fn outcome(
    t: Tracker,
    s: Settings,
    freq: u32,
    level: int,
    tunings: Map<Seq<char>, Seq<NoteView>>,
    tuning: Seq<char>,
) -> (Tracker, Option<PitchResultView>) {
    let (next, found) = followed(t, s, freq, level);
    (
        next,
        match found {
            None => None,
            Some((f, c)) => described(tunings, tuning, f as int, c, level),
        },
    )
}

/// The tracker after a buffer of level `level`, and the frequency and
/// confidence to report, given what the estimator made of the conditioned
/// buffer and the analyzer of the buffer under the window.
///
/// A buffer below `NOISE_FLOOR` and a buffer without an estimate change
/// nothing and yield nothing, and so does an invalid refinement. Otherwise
/// the chosen frequency is followed as `followed` says.
pub open spec fn frame_followed(
    t: Tracker,
    s: Settings,
    level: int,
    estimate: Option<u32>,
    magnitudes: Seq<u32>,
) -> (Tracker, Option<(u32, int)>) {
    if level < NOISE_FLOOR {
        (t, None)
    } else {
        match estimate {
            None => (t, None),
            Some(approx) => match chosen_frequency(
                s,
                approx,
                refined_frequency(magnitudes, s.sample_rate as int, approx as int),
            ) {
                None => (t, None),
                Some(freq) => followed(t, s, freq, level),
            },
        }
    }
}

/// The tracker after a buffer of level `level`, and what is reported for
/// it in the scheme `tuning` of `tunings`: the frequency of `frame_followed`
/// matched to its nearest note.
pub open spec fn frame_outcome(
    t: Tracker,
    s: Settings,
    level: int,
    estimate: Option<u32>,
    magnitudes: Seq<u32>,
    tunings: Map<Seq<char>, Seq<NoteView>>,
    tuning: Seq<char>,
) -> (Tracker, Option<PitchResultView>) {
    let (next, found) = frame_followed(t, s, level, estimate, magnitudes);
    (
        next,
        match found {
            None => None,
            Some((f, c)) => described(tunings, tuning, f as int, c, level),
        },
    )
}

/// With octave correction on, an estimate at twice the expected frequency
/// goes on as the expected frequency.
pub proof fn lemma_double_is_halved(s: Settings)
    requires
        s.octave_correction,
        s.expected_freq > 0,
        2 * s.expected_freq <= u32::MAX,
    ensures
        octave_stage(s, (2 * s.expected_freq) as u32) == s.expected_freq,
{
    crate::correction::lemma_octave_above_corrected(
        s.expected_freq as int,
        OCTAVE_TOLERANCE as int,
    );
}

/// With octave correction on, an estimate within the tolerance of twice the
/// expected frequency goes on halved.
pub proof fn lemma_near_double_is_halved(s: Settings, freq: u32)
    requires
        s.octave_correction,
        s.expected_freq > 0,
        freq > 0,
        magnitude(cents(freq as int, 2 * s.expected_freq)) <= OCTAVE_TOLERANCE,
    ensures
        octave_stage(s, freq) == freq / 2,
{
    crate::correction::lemma_near_octave_above_halved(
        freq as int,
        s.expected_freq as int,
        OCTAVE_TOLERANCE as int,
    );
}

/// With octave correction on, an estimate at twice the expected frequency
/// is reported as the expected frequency: by a detector that neither drops
/// outliers nor smooths, and by any detector for its first estimate.
pub proof fn lemma_double_reported_as_expected(t: Tracker, s: Settings, level: int)
    requires
        s.octave_correction,
        s.expected_freq > 0,
        2 * s.expected_freq <= u32::MAX,
        !s.outlier_gate || t.window.len() == 0,
        !s.smoothing || t.average is None,
    ensures
        followed(t, s, (2 * s.expected_freq) as u32, level).1 matches Some(found) && found.0
            == s.expected_freq,
{
    lemma_double_is_halved(s);
    if s.outlier_gate {
        let window = pushed(t.window, t.capacity, s.expected_freq);
        assert(window =~= seq![s.expected_freq]);
        assert(window.drop_last() =~= Seq::<u32>::empty());
        assert(crate::smoothing::seq_sum(window) == s.expected_freq) by {
            reveal_with_fuel(crate::smoothing::seq_sum, 2);
        }
    }
}

/// A fresh detector without refinement and without octave correction
/// reports an estimate from 82.173 Hz to 82.648 Hz, for a buffer that is not
/// below the noise floor, as the low E of standard tuning, less than five
/// cents off.
pub proof fn lemma_low_e_reported(
    t: Tracker,
    s: Settings,
    level: int,
    freq: u32,
    magnitudes: Seq<u32>,
)
    requires
        !s.fft_refine,
        !s.octave_correction || s.expected_freq == 0,
        !s.outlier_gate || t.window.len() == 0,
        !s.smoothing || t.average is None,
        level >= NOISE_FLOOR,
        82_173 <= freq <= 82_648,
    ensures
        frame_outcome(
            t,
            s,
            level,
            Some(freq),
            magnitudes,
            standard_tunings(),
            "standard-e"@,
        ).1 matches Some(r) && r.freq == freq && r.tuning_to.note == "E2"@ && r.tuning_to.freq
            == 82_410 && -5_000 < r.tuning_to.cents < 5_000,
{
    if s.outlier_gate {
        let window = pushed(t.window, t.capacity, freq);
        assert(window =~= seq![freq]);
        assert(window.drop_last() =~= Seq::<u32>::empty());
        assert(crate::smoothing::seq_sum(window) == freq) by {
            reveal_with_fuel(crate::smoothing::seq_sum, 2);
        }
    }
    assert(followed(t, s, freq, level).1 matches Some(found) && found.0 == freq);
    let notes = crate::standard::standard_e_notes();
    assert(standard_tunings()["standard-e"@] == notes) by {
        reveal_strlit("standard-e");
        reveal_strlit("flat-e");
        reveal_strlit("drop-d");
        assert("standard-e"@.len() == 10);
        assert("flat-e"@.len() == 6);
        assert("drop-d"@.len() == 6);
    }
    assert forall|j: int| 0 <= j < notes.len() implies crate::tuning::no_worse(
        notes,
        freq as int,
        0,
        j,
    ) by {}
    crate::tuning::lemma_nearest_index_is(notes, freq as int, 0);
    crate::standard::lemma_low_e_within_five_cents(freq as int);
}

/// A detector for one audio source.
pub struct YinPitchDetector<E: PitchEstimator, S: SpectrumAnalyzer> {
    estimator: E,
    analyzer: S,
    settings: Settings,
    filters: FilterChain,
    freq_smoother: FrequencySmoother,
    clarity_smoother: ExpMovingAverage,
    scorer: QualityScorer,
    registry: TuningRegistry,
}

impl<E: PitchEstimator, S: SpectrumAnalyzer> YinPitchDetector<E, S> {
    /// Whether the detector is well formed: its sample rate is positive and
    /// its parts are well formed.
    pub closed spec fn wf(&self) -> bool {
        &&& self.settings.sample_rate > 0
        &&& self.freq_smoother.wf()
        &&& self.clarity_smoother.wf()
        &&& self.scorer.wf()
        &&& self.registry.wf()
    }

    /// What the detector was told to do.
    pub closed spec fn settings(&self) -> Settings {
        self.settings
    }

    /// The filter sections, in order.
    pub closed spec fn filters(&self) -> Seq<Biquad> {
        self.filters@
    }

    /// What the detector remembers of earlier estimates.
    pub closed spec fn tracker(&self) -> Tracker {
        Tracker {
            window: self.freq_smoother@,
            capacity: self.freq_smoother.capacity(),
            average: self.clarity_smoother.state(),
            alpha: self.clarity_smoother.alpha(),
            history: self.scorer@,
        }
    }

    /// The tuning schemes that the detector knows, by id.
    pub closed spec fn tunings(&self) -> Map<Seq<char>, Seq<NoteView>> {
        self.registry@
    }

    /// The display labels of the tuning schemes that the detector knows, by
    /// id.
    pub closed spec fn labels(&self) -> Map<Seq<char>, Seq<char>> {
        self.registry.labels()
    }

    /// A detector for the sample rate `sample_rate` hertz, with the filters
    /// that `filter_mask` selects, the features that `feature_mask` turns
    /// on, and the built-in tuning schemes.
    pub fn new(
        estimator: E,
        analyzer: S,
        sample_rate: u32,
        block_size: usize,
        filter_mask: usize,
        feature_mask: usize,
        averaging_window_size: usize,
        smoothing_alpha: u32,
    ) -> (d: Self)
        requires
            sample_rate > 0,
        ensures
            d.wf(),
            d.settings() == initial_settings(sample_rate, block_size, feature_mask),
            d.filters() == masked_stages(sample_rate as int, filter_mask),
            d.tracker() == initial_tracker(averaging_window_size, smoothing_alpha),
            d.tunings() == standard_tunings(),
            d.labels() == standard_labels(),
    {
        let settings = Settings {
            sample_rate,
            block_size,
            fft_refine: is_bit_set(feature_mask, FEATURE_REFINE),
            outlier_gate: is_bit_set(feature_mask, FEATURE_OUTLIER_GATE),
            smoothing: is_bit_set(feature_mask, FEATURE_SMOOTHING),
            agc: false,
            agc_target: DEFAULT_AGC_TARGET,
            harmonic_correction: false,
            octave_correction: false,
            expected_freq: 0,
        };
        YinPitchDetector {
            estimator,
            analyzer,
            settings,
            filters: FilterChain::new(sample_rate, filter_mask),
            freq_smoother: FrequencySmoother::new(averaging_window_size),
            clarity_smoother: ExpMovingAverage::new(smoothing_alpha),
            scorer: QualityScorer::new(),
            registry: tunings(),
        }
    }

    /// A detector with the filters, features and smoothing of the preset
    /// `name`; of the acoustic preset for an unknown name.
    pub fn from_preset(estimator: E, analyzer: S, name: &str, sample_rate: u32, block_size: usize)
        -> (d: Self)
        requires
            sample_rate > 0,
        ensures
            d.wf(),
            d.settings() == initial_settings(
                sample_rate,
                block_size,
                preset_of(name@).feature_mask,
            ),
            d.filters() == masked_stages(sample_rate as int, preset_of(name@).filter_mask),
            d.tracker() == initial_tracker(
                preset_of(name@).averaging_window_size,
                preset_of(name@).smoothing_alpha,
            ),
            d.tunings() == standard_tunings(),
            d.labels() == standard_labels(),
    {
        let p = preset(name);
        Self::new(
            estimator,
            analyzer,
            sample_rate,
            block_size,
            p.filter_mask,
            p.feature_mask,
            p.averaging_window_size,
            p.smoothing_alpha,
        )
    }

    /// Sets the frequency that octave correction moves estimates toward, in
    /// millihertz; zero for none.
    pub fn set_expected_frequency(&mut self, freq: u32)
        requires
            old(self).wf(),
        ensures
            final(self).wf(),
            final(self).settings() == (Settings { expected_freq: freq, ..old(self).settings() }),
            final(self).filters() == old(self).filters(),
            final(self).tracker() == old(self).tracker(),
            final(self).tunings() == old(self).tunings(),
            final(self).labels() == old(self).labels(),
    {
        self.settings.expected_freq = freq;
    }

    /// Turns gain control on or off and sets the level it aims at.
    pub fn enable_agc(&mut self, on: bool, target_rms: u32)
        requires
            old(self).wf(),
        ensures
            final(self).wf(),
            final(self).settings() == (Settings {
                agc: on,
                agc_target: target_rms,
                ..old(self).settings()
            }),
            final(self).filters() == old(self).filters(),
            final(self).tracker() == old(self).tracker(),
            final(self).tunings() == old(self).tunings(),
            final(self).labels() == old(self).labels(),
    {
        self.settings.agc = on;
        self.settings.agc_target = target_rms;
    }

    /// Turns harmonic correction on or off.
    pub fn enable_harmonic_correction(&mut self, on: bool)
        requires
            old(self).wf(),
        ensures
            final(self).wf(),
            final(self).settings() == (Settings {
                harmonic_correction: on,
                ..old(self).settings()
            }),
            final(self).filters() == old(self).filters(),
            final(self).tracker() == old(self).tracker(),
            final(self).tunings() == old(self).tunings(),
            final(self).labels() == old(self).labels(),
    {
        self.settings.harmonic_correction = on;
    }

    /// Turns octave correction on or off.
    pub fn enable_octave_correction(&mut self, on: bool)
        requires
            old(self).wf(),
        ensures
            final(self).wf(),
            final(self).settings() == (Settings { octave_correction: on, ..old(self).settings() }),
            final(self).filters() == old(self).filters(),
            final(self).tracker() == old(self).tracker(),
            final(self).tunings() == old(self).tunings(),
            final(self).labels() == old(self).labels(),
    {
        self.settings.octave_correction = on;
    }

    /// Appends a bandpass around the string frequency `freq` millihertz to
    /// the filters.
    pub fn add_string_filter(&mut self, freq: u32)
        requires
            old(self).wf(),
        ensures
            final(self).wf(),
            final(self).filters() == old(self).filters().push(
                bandpass(old(self).settings().sample_rate as int, freq as int, STRING_Q as int),
            ),
            final(self).settings() == old(self).settings(),
            final(self).tracker() == old(self).tracker(),
            final(self).tunings() == old(self).tunings(),
            final(self).labels() == old(self).labels(),
    {
        self.filters.push_bandpass(self.settings.sample_rate, freq);
    }

    /// Registers a tuning scheme under `id`, in place of any scheme already
    /// there. Fails, changing nothing, as `validate` says.
    pub fn register_tuning(&mut self, id: &str, label: &str, names: &[String], freqs: &[u32]) -> (r:
        Result<(), TuningError>)
        requires
            old(self).wf(),
        ensures
            final(self).wf(),
            r == validate(names@, freqs@),
            r is Ok ==> final(self).tunings() == old(self).tunings().insert(
                id@,
                zip_notes(names@, freqs@),
            ) && final(self).labels() == old(self).labels().insert(id@, label@),
            r is Err ==> final(self).tunings() == old(self).tunings() && final(self).labels()
                == old(self).labels(),
            final(self).settings() == old(self).settings(),
            final(self).filters() == old(self).filters(),
            final(self).tracker() == old(self).tracker(),
    {
        self.registry.register_tuning(id, label, names, freqs)
    }

    /// The tuning schemes that the detector knows, each id once.
    pub fn list_tunings(&self) -> (table: &Vec<TuningScheme>)
        requires
            self.wf(),
        ensures
            forall|id: Seq<char>|
                self.tunings().dom().contains(id) <==> exists|i: int|
                    0 <= i < table@.len() && (#[trigger] table@[i]).id@ == id,
            forall|i: int, j: int|
                0 <= i < j < table@.len() ==> (#[trigger] table@[i]).id@ != (
                #[trigger] table@[j]).id@,
            forall|i: int|
                0 <= i < table@.len() ==> self.tunings()[(#[trigger] table@[i]).id@] == note_views(
                    table@[i].notes@,
                ) && self.labels()[table@[i].id@] == table@[i].label@,
            self.labels().dom() == self.tunings().dom(),
    {
        self.registry.list_tunings()
    }

    /// Measures and conditions a buffer: returns its level and a copy that
    /// has passed gain control, where that is on, and the filters.
    pub fn condition(&mut self, data: &[i32]) -> (r: (u32, Vec<i32>))
        requires
            old(self).wf(),
        ensures
            final(self).wf(),
            r.0 == rms_level(data@),
            r.1@ == filtered(old(self).filters(), conditioned_input(old(self).settings(), data@)),
            final(self).filters() == chain_after(
                old(self).filters(),
                conditioned_input(old(self).settings(), data@),
            ),
            final(self).settings() == old(self).settings(),
            final(self).tracker() == old(self).tracker(),
            final(self).tunings() == old(self).tunings(),
            final(self).labels() == old(self).labels(),
    {
        let level: u32 = rms(data);
        let mut buf: Vec<i32> = copy_of(data);
        if self.settings.agc {
            apply_agc(&mut buf, level, self.settings.agc_target);
        }
        self.filters.process_buffer(&mut buf);
        (level, buf)
    }

    /// Takes the frequency `freq` for a buffer of level `level` through
    /// octave correction, the outlier gate, smoothing and scoring. Returns
    /// the frequency and the confidence to report, if any.
    pub fn follow(&mut self, freq: u32, level: u32) -> (r: Option<(u32, u32)>)
        requires
            old(self).wf(),
        ensures
            final(self).wf(),
            final(self).tracker() == followed(
                old(self).tracker(),
                old(self).settings(),
                freq,
                level as int,
            ).0,
            match r {
                None => followed(old(self).tracker(), old(self).settings(), freq, level as int).1
                    is None,
                Some((f, c)) => followed(
                    old(self).tracker(),
                    old(self).settings(),
                    freq,
                    level as int,
                ).1 == Some((f, c as int)),
            },
            final(self).settings() == old(self).settings(),
            final(self).filters() == old(self).filters(),
            final(self).tunings() == old(self).tunings(),
            final(self).labels() == old(self).labels(),
    {
        if freq == 0 {
            return None;
        }
        let corrected: u32 = if self.settings.octave_correction && self.settings.expected_freq > 0 {
            octave_correct(freq, self.settings.expected_freq, OCTAVE_TOLERANCE)
        } else {
            freq
        };
        if self.settings.outlier_gate {
            self.freq_smoother.push(corrected);
            match self.freq_smoother.average() {
                Some(m) => {
                    if distance(m, corrected) > OUTLIER_LIMIT {
                        return None;
                    }
                },
                None => {},
            }
        }
        let smooth: u32 = if self.settings.smoothing {
            self.clarity_smoother.update(corrected)
        } else {
            corrected
        };
        if smooth == 0 {
            return None;
        }
        let confidence: u32 = self.scorer.update(smooth, level);
        Some((smooth, confidence))
    }

    /// Takes the frequency `freq` for a buffer of level `level` through the
    /// tracker and matches what is left to a note of the detector's scheme
    /// `tuning`.
    pub fn finish(&mut self, freq: u32, level: u32, tuning: &str) -> (r: Option<PitchResult>)
        requires
            old(self).wf(),
        ensures
            final(self).wf(),
            (final(self).tracker(), result_view(r)) == outcome(
                old(self).tracker(),
                old(self).settings(),
                freq,
                level as int,
                old(self).tunings(),
                tuning@,
            ),
            final(self).settings() == old(self).settings(),
            final(self).filters() == old(self).filters(),
            final(self).tunings() == old(self).tunings(),
            final(self).labels() == old(self).labels(),
    {
        match self.follow(freq, level) {
            None => None,
            Some((f, c)) => describe(&self.registry, tuning, f, c, level),
        }
    }

    /// Decides what a buffer of level `level` does to the tracker, given
    /// the estimate for the conditioned buffer and the magnitudes of its
    /// spectrum under the window. Returns the frequency and the confidence
    /// to report, if any.
    pub fn follow_frame(&mut self, level: u32, estimate: Option<u32>, magnitudes: &[u32]) -> (r:
        Option<(u32, u32)>)
        requires
            old(self).wf(),
        ensures
            final(self).wf(),
            final(self).tracker() == frame_followed(
                old(self).tracker(),
                old(self).settings(),
                level as int,
                estimate,
                magnitudes@,
            ).0,
            match r {
                None => frame_followed(
                    old(self).tracker(),
                    old(self).settings(),
                    level as int,
                    estimate,
                    magnitudes@,
                ).1 is None,
                Some((f, c)) => frame_followed(
                    old(self).tracker(),
                    old(self).settings(),
                    level as int,
                    estimate,
                    magnitudes@,
                ).1 == Some((f, c as int)),
            },
            final(self).settings() == old(self).settings(),
            final(self).filters() == old(self).filters(),
            final(self).tunings() == old(self).tunings(),
            final(self).labels() == old(self).labels(),
    {
        if level < NOISE_FLOOR {
            return None;
        }
        let approx: u32 = match estimate {
            None => {
                return None;
            },
            Some(f) => f,
        };
        let refinement = refine_peak(magnitudes, self.settings.sample_rate, approx);
        match choose_frequency(self.settings, approx, refinement) {
            None => None,
            Some(freq) => self.follow(freq, level),
        }
    }

    /// Decides what a buffer of level `level` yields in the detector's own
    /// scheme `tuning`, given the estimate for the conditioned buffer and
    /// the magnitudes of its spectrum under the window.
    pub fn resolve(
        &mut self,
        level: u32,
        estimate: Option<u32>,
        magnitudes: &[u32],
        tuning: &str,
    ) -> (r: Option<PitchResult>)
        requires
            old(self).wf(),
        ensures
            final(self).wf(),
            (final(self).tracker(), result_view(r)) == frame_outcome(
                old(self).tracker(),
                old(self).settings(),
                level as int,
                estimate,
                magnitudes@,
                old(self).tunings(),
                tuning@,
            ),
            final(self).settings() == old(self).settings(),
            final(self).filters() == old(self).filters(),
            final(self).tunings() == old(self).tunings(),
            final(self).labels() == old(self).labels(),
    {
        match self.follow_frame(level, estimate, magnitudes) {
            None => None,
            Some((f, c)) => describe(&self.registry, tuning, f, c, level),
        }
    }

    /// As `resolve`, in the scheme `tuning` of a registry that the caller
    /// hands in: of a registry that several detectors share.
    pub fn resolve_in(
        &mut self,
        registry: &TuningRegistry,
        level: u32,
        estimate: Option<u32>,
        magnitudes: &[u32],
        tuning: &str,
    ) -> (r: Option<PitchResult>)
        requires
            old(self).wf(),
            registry.wf(),
        ensures
            final(self).wf(),
            (final(self).tracker(), result_view(r)) == frame_outcome(
                old(self).tracker(),
                old(self).settings(),
                level as int,
                estimate,
                magnitudes@,
                registry@,
                tuning@,
            ),
            final(self).settings() == old(self).settings(),
            final(self).filters() == old(self).filters(),
            final(self).tunings() == old(self).tunings(),
            final(self).labels() == old(self).labels(),
    {
        match self.follow_frame(level, estimate, magnitudes) {
            None => None,
            Some((f, c)) => describe(registry, tuning, f, c, level),
        }
    }

    /// Conditions a buffer and asks the estimator, and the analyzer where
    /// refinement is on, about it. A buffer below `NOISE_FLOOR` is not
    /// shown to them; a spectrum that has not one magnitude for each sample
    /// counts as no spectrum.
    fn analyse(&mut self, data: &[i32]) -> (r: (u32, Option<u32>, Vec<u32>))
        requires
            old(self).wf(),
        ensures
            final(self).wf(),
            r.0 == rms_level(data@),
            r.0 < NOISE_FLOOR ==> r.1 is None,
            r.2@.len() == data@.len() || r.2@.len() == 0,
            final(self).filters() == chain_after(
                old(self).filters(),
                conditioned_input(old(self).settings(), data@),
            ),
            final(self).settings() == old(self).settings(),
            final(self).tracker() == old(self).tracker(),
            final(self).tunings() == old(self).tunings(),
            final(self).labels() == old(self).labels(),
    {
        let (level, buf) = self.condition(data);
        let estimate: Option<u32> = if level < NOISE_FLOOR {
            None
        } else {
            self.estimator.estimate(buf.as_slice(), self.settings.sample_rate)
        };
        let magnitudes: Vec<u32> = if estimate.is_some() && self.settings.fft_refine {
            let under_window: Vec<i32> = apply_hann(buf.as_slice());
            let spectrum: Vec<u32> = self.analyzer.magnitudes(under_window.as_slice());
            if spectrum.len() == buf.len() {
                spectrum
            } else {
                Vec::new()
            }
        } else {
            Vec::new()
        };
        (level, estimate, magnitudes)
    }

    /// Looks for a pitch in `data` and matches it to a note of the scheme
    /// `tuning` of a registry that the caller hands in: of a registry that
    /// several detectors share. Otherwise as `maybe_find_pitch`.
    pub fn detect(&mut self, registry: &TuningRegistry, data: &[i32], tuning: &str) -> (r: Option<
        PitchResult,
    >)
        requires
            old(self).wf(),
            registry.wf(),
        ensures
            final(self).wf(),
            final(self).filters() == chain_after(
                old(self).filters(),
                conditioned_input(old(self).settings(), data@),
            ),
            exists|estimate: Option<u32>, magnitudes: Seq<u32>|
                (magnitudes.len() == data@.len() || magnitudes.len() == 0) && (
                    final(self).tracker(),
                    result_view(r),
                ) == #[trigger] frame_outcome(
                    old(self).tracker(),
                    old(self).settings(),
                    rms_level(data@),
                    estimate,
                    magnitudes,
                    registry@,
                    tuning@,
                ),
            rms_level(data@) < NOISE_FLOOR ==> r is None && final(self).tracker() == old(
                self,
            ).tracker(),
            (forall|i: int| 0 <= i < data@.len() ==> data@[i] == 0) ==> r is None,
            final(self).settings() == old(self).settings(),
            final(self).tunings() == old(self).tunings(),
            final(self).labels() == old(self).labels(),
    {
        proof {
            if forall|i: int| 0 <= i < data@.len() ==> data@[i] == 0 {
                crate::level::lemma_silence_level(data@);
            }
        }
        let (level, estimate, magnitudes) = self.analyse(data);
        self.resolve_in(registry, level, estimate, magnitudes.as_slice(), tuning)
    }
}

impl<E: PitchEstimator, S: SpectrumAnalyzer> PitchFindTrait for YinPitchDetector<E, S> {
    open spec fn ready(&self) -> bool {
        self.wf()
    }

    /// Refines the estimate `approx_freq` with the spectrum of `samples`
    /// under a Hann window.
    ///
    /// Nothing comes back where the refiner fails: where the estimate's bin
    /// is within two bins of an end of the half spectrum of `samples`, where
    /// the vertex is no positive frequency, and where the analyzer does not
    /// return one magnitude for each sample. Falling back on the estimate
    /// is left to the caller.
    fn fft_refine_pitch(&mut self, samples: &[i32], approx_freq: u32) -> (r: Option<u32>)
        ensures
            !bin_in_range(
                nearest_bin(
                    approx_freq as int,
                    samples@.len() as int,
                    old(self).settings().sample_rate as int,
                ),
                samples@.len() as int,
            ) ==> r is None,
            r matches Some(f) ==> (exists|magnitudes: Seq<u32>|
                magnitudes.len() == samples@.len() && #[trigger] refined_frequency(
                    magnitudes,
                    old(self).settings().sample_rate as int,
                    approx_freq as int,
                ) == Refinement::Refined(f)),
            final(self).settings() == old(self).settings(),
            final(self).filters() == old(self).filters(),
            final(self).tracker() == old(self).tracker(),
            final(self).tunings() == old(self).tunings(),
            final(self).labels() == old(self).labels(),
    {
        let under_window: Vec<i32> = apply_hann(samples);
        let magnitudes: Vec<u32> = self.analyzer.magnitudes(under_window.as_slice());
        if magnitudes.len() != samples.len() {
            return None;
        }
        match refine_peak(magnitudes.as_slice(), self.settings.sample_rate, approx_freq) {
            Refinement::Refined(f) => {
                assert(magnitudes@.len() == samples@.len() && refined_frequency(
                    magnitudes@,
                    self.settings.sample_rate as int,
                    approx_freq as int,
                ) == Refinement::Refined(f));
                Some(f)
            },
            Refinement::OutOfRange => None,
            Refinement::Invalid => None,
        }
    }

    /// Looks for a pitch in `data` and matches it to a note of the scheme
    /// `tuning`.
    ///
    /// The buffer always passes the filters. The tracker and the result
    /// are those of `frame_outcome` for what the estimator and the analyzer
    /// returned; a spectrum that has not one magnitude for each sample
    /// counts as no spectrum. In particular a buffer whose level is below
    /// `NOISE_FLOOR`, such as silence, yields nothing and leaves the tracker
    /// as it was.
    fn maybe_find_pitch(&mut self, data: &[i32], tuning: &str) -> (r: Option<PitchResult>)
        ensures
            final(self).filters() == chain_after(
                old(self).filters(),
                conditioned_input(old(self).settings(), data@),
            ),
            exists|estimate: Option<u32>, magnitudes: Seq<u32>|
                (magnitudes.len() == data@.len() || magnitudes.len() == 0) && (
                    final(self).tracker(),
                    result_view(r),
                ) == #[trigger] frame_outcome(
                    old(self).tracker(),
                    old(self).settings(),
                    rms_level(data@),
                    estimate,
                    magnitudes,
                    old(self).tunings(),
                    tuning@,
                ),
            rms_level(data@) < NOISE_FLOOR ==> r is None && final(self).tracker() == old(
                self,
            ).tracker(),
            (forall|i: int| 0 <= i < data@.len() ==> data@[i] == 0) ==> r is None,
            final(self).settings() == old(self).settings(),
            final(self).tunings() == old(self).tunings(),
            final(self).labels() == old(self).labels(),
    {
        proof {
            if forall|i: int| 0 <= i < data@.len() ==> data@[i] == 0 {
                crate::level::lemma_silence_level(data@);
            }
        }
        let (level, estimate, magnitudes) = self.analyse(data);
        self.resolve(level, estimate, magnitudes.as_slice(), tuning)
    }
}

/// The frequency that goes on from an estimate and its refinement.
pub fn choose_frequency(settings: Settings, approx: u32, refinement: Refinement) -> (r: Option<u32>)
    ensures
        r == chosen_frequency(settings, approx, refinement),
{
    if !settings.fft_refine {
        return Some(approx);
    }
    match refinement {
        Refinement::OutOfRange => Some(approx),
        Refinement::Invalid => None,
        Refinement::Refined(f) => {
            if settings.harmonic_correction {
                Some(harmonic_correct(f, approx, HARMONIC_TOLERANCE))
            } else {
                Some(f)
            }
        },
    }
}

fn copy_of(data: &[i32]) -> (v: Vec<i32>)
    ensures
        v@ == data@,
{
    let mut v: Vec<i32> = Vec::new();
    let mut i: usize = 0;
    while i < data.len()
        invariant
            i <= data@.len(),
            v@ == data@.take(i as int),
        decreases data@.len() - i,
    {
        v.push(data[i]);
        proof {
            assert(data@.take(i as int).push(data@[i as int]) =~= data@.take(i as int + 1));
        }
        i = i + 1;
    }
    proof {
        assert(data@.take(data@.len() as int) =~= data@);
    }
    v
}

} // verus!
