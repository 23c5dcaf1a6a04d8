//! The confidence of an estimate, from the loudness of the buffer and the
//! steadiness of the last estimates.
use crate::fixed::{MILLION, UNIT_AMPLITUDE};
use crate::smoothing::{deviation, pushed, FrequencySmoother};
use vstd::prelude::*;

verus! {

/// The number of estimates over which steadiness is judged.
pub const STABILITY_WINDOW: usize = 8;

/// The share of the signal's energy that lies outside the fundamental, in
/// millionths. It is a fixed value, not a measurement.
pub const HARMONIC_RATIO: u32 = 500_000;

/// The weight of the loudness score, in millionths.
pub const RMS_WEIGHT: u32 = 400_000;

/// The weight of the steadiness score, in millionths.
pub const STABILITY_WEIGHT: u32 = 400_000;

/// The weight of the harmonic score, in millionths.
pub const HARMONIC_WEIGHT: u32 = 200_000;

/// The loudness score in millionths: twenty times the level as an
/// amplitude, at most one.
pub open spec fn rms_score(level: int) -> int {
    let score = (level * 20 * MILLION) / (UNIT_AMPLITUDE as int);
    if score > MILLION {
        MILLION as int
    } else {
        score
    }
}

/// The steadiness score in millionths: one minus a fifth of the standard
/// deviation in hertz, at least zero.
pub open spec fn stability_score(spread: int) -> int {
    if spread * 200 >= MILLION {
        0
    } else {
        MILLION - spread * 200
    }
}

/// The confidence in millionths: the weighted sum of the three scores.
pub open spec fn confidence(level: int, spread: int) -> int {
    (RMS_WEIGHT * rms_score(level) + STABILITY_WEIGHT * stability_score(spread) + HARMONIC_WEIGHT
        * (MILLION - HARMONIC_RATIO)) / (MILLION as int)
}

/// The confidence lies between zero and one.
pub proof fn lemma_confidence_range(level: int, spread: int)
    requires
        0 <= level,
        0 <= spread,
    ensures
        0 <= confidence(level, spread) <= MILLION,
{
    let r = rms_score(level);
    let s = stability_score(spread);
    assert(0 <= level * 20 * MILLION) by (nonlinear_arith)
        requires
            0 <= level,
            MILLION == 1_000_000,
    ;
    assert(0 <= r <= 1_000_000);
    assert(0 <= s <= 1_000_000);
    assert(0 <= RMS_WEIGHT * r <= 400_000 * 1_000_000) by (nonlinear_arith)
        requires
            0 <= r <= 1_000_000,
            RMS_WEIGHT == 400_000,
    ;
    assert(0 <= STABILITY_WEIGHT * s <= 400_000 * 1_000_000) by (nonlinear_arith)
        requires
            0 <= s <= 1_000_000,
            STABILITY_WEIGHT == 400_000,
    ;
    assert(HARMONIC_WEIGHT * (MILLION - HARMONIC_RATIO) == 100_000_000_000) by (nonlinear_arith)
        requires
            HARMONIC_WEIGHT == 200_000,
            MILLION == 1_000_000,
            HARMONIC_RATIO == 500_000,
    ;
}

/// The confidence for a buffer of level `level` and a standard deviation of
/// `spread` millihertz among the last estimates.
pub fn score(level: u32, spread: u32) -> (c: u32)
    ensures
        c == confidence(level as int, spread as int),
        c <= MILLION,
{
    proof {
        lemma_confidence_range(level as int, spread as int);
    }
    let loud: u64 = (level as u64) * 20 * (MILLION as u64) / (UNIT_AMPLITUDE as u64);
    let loud: u64 = if loud > MILLION as u64 {
        MILLION as u64
    } else {
        loud
    };
    let steady: u64 = if (spread as u64) * 200 >= MILLION as u64 {
        0
    } else {
        MILLION as u64 - (spread as u64) * 200
    };
    assert((RMS_WEIGHT as u64) * loud <= 400_000 * 1_000_000) by (nonlinear_arith)
        requires
            loud <= 1_000_000,
            RMS_WEIGHT == 400_000,
    ;
    assert((STABILITY_WEIGHT as u64) * steady <= 400_000 * 1_000_000) by (nonlinear_arith)
        requires
            steady <= 1_000_000,
            STABILITY_WEIGHT == 400_000,
    ;
    let total: u64 = (RMS_WEIGHT as u64) * loud + (STABILITY_WEIGHT as u64) * steady + (
    HARMONIC_WEIGHT as u64) * ((MILLION - HARMONIC_RATIO) as u64);
    (total / (MILLION as u64)) as u32
}

/// Scores estimates against the last `STABILITY_WINDOW` estimates.
pub struct QualityScorer {
    history: FrequencySmoother,
}

impl View for QualityScorer {
    type V = Seq<u32>;

    closed spec fn view(&self) -> Seq<u32> {
        self.history@
    }
}

/// The confidence of the estimate `freq` after the estimates in `history`,
/// for a buffer of level `level`.
pub open spec fn scored(history: Seq<u32>, freq: u32, level: int) -> int {
    let window = pushed(history, STABILITY_WINDOW as nat, freq);
    confidence(level, deviation(window).unwrap())
}

impl QualityScorer {
    /// Whether the scorer keeps its window's size.
    pub closed spec fn wf(&self) -> bool {
        self.history.capacity() == STABILITY_WINDOW && self.history.wf()
    }

    /// A scorer that has seen no estimate.
    pub fn new() -> (s: Self)
        ensures
            s.wf(),
            s@ == Seq::<u32>::empty(),
    {
        QualityScorer { history: FrequencySmoother::new(STABILITY_WINDOW) }
    }

    /// Takes `freq` into the history and returns its confidence, in
    /// millionths.
    pub fn update(&mut self, freq: u32, level: u32) -> (c: u32)
        requires
            old(self).wf(),
        ensures
            final(self).wf(),
            final(self)@ == pushed(old(self)@, STABILITY_WINDOW as nat, freq),
            c == scored(old(self)@, freq, level as int),
            c <= MILLION,
    {
        self.history.push(freq);
        match self.history.spread() {
            Some(spread) => score(level, spread),
            None => {
                proof {
                    assert(false);
                }
                0
            },
        }
    }
}

} // verus!
