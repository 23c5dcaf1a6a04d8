//! The settings that a tuner is started with, and the hint that it shows
//! beside a detected pitch.
use crate::text::is_text;
use vstd::prelude::*;
use vstd::string::*;

verus! {

/// The settings of a tuner. Thresholds are in millionths, frequencies in
/// millihertz.
#[derive(Debug)]
pub struct Config {
    /// The number of the input device.
    pub device_id: usize,
    /// The name of the detector: `yin`, `mcleod` or `fft`.
    pub pitch_detection: String,
    /// The threshold of the Yin estimator.
    pub threshold: u32,
    /// The lowest frequency to look for.
    pub freq_min: u32,
    /// The highest frequency to look for.
    pub freq_max: u32,
    /// The least power of a pitch for the McLeod estimator.
    pub power_threshold: u32,
    /// The least clarity of a pitch for the McLeod estimator.
    pub clarity_threshold: u32,
}

/// The detectors that a tuner can run.
#[derive(Clone, Copy, Debug, PartialEq, Eq)]
pub enum DetectorKind {
    /// The filtering, tracking detector around a Yin estimator.
    Yin,
    /// The detector around a McLeod estimator.
    Mcleod,
    /// The detector that follows the loudest spectrum peak.
    Fft,
}

/// The detector of the given name, if there is one.
pub open spec fn kind_of(name: Seq<char>) -> Option<DetectorKind> {
    if name == "yin"@ {
        Some(DetectorKind::Yin)
    } else if name == "mcleod"@ {
        Some(DetectorKind::Mcleod)
    } else if name == "fft"@ {
        Some(DetectorKind::Fft)
    } else {
        None
    }
}

/// The detector of the given name, if there is one.
pub fn detector_kind(name: &str) -> (k: Option<DetectorKind>)
    ensures
        k == kind_of(name@),
{
    let key = name.to_owned();
    if is_text(&key, "yin") {
        Some(DetectorKind::Yin)
    } else if is_text(&key, "mcleod") {
        Some(DetectorKind::Mcleod)
    } else if is_text(&key, "fft") {
        Some(DetectorKind::Fft)
    } else {
        None
    }
}

impl Config {
    /// The detector that these settings name, if there is one.
    pub fn kind(&self) -> (k: Option<DetectorKind>)
        ensures
            k == kind_of(self.pitch_detection@),
    {
        detector_kind(self.pitch_detection.as_str())
    }
}

/// How far a string may be off, in millihertz, before a correction is
/// shown.
pub const HINT_LIMIT: i64 = 900;

/// The way to turn the tuning peg.
#[derive(Clone, Copy, Debug, PartialEq, Eq)]
pub enum Direction {
    /// The string is flat: tune up.
    Raise,
    /// The string is sharp: tune down.
    Lower,
}

/// The correction to show for a string that is `offset` millihertz above
/// its note: none within `HINT_LIMIT` of the note.
pub open spec fn hint_for(offset: int) -> Option<Direction> {
    if -HINT_LIMIT <= offset <= HINT_LIMIT {
        None
    } else if offset < 0 {
        Some(Direction::Raise)
    } else {
        Some(Direction::Lower)
    }
}

/// The correction to show for a string that is `offset` millihertz above
/// its note.
pub fn correction_hint(offset: i64) -> (h: Option<Direction>)
    ensures
        h == hint_for(offset as int),
{
    if offset < -HINT_LIMIT {
        Some(Direction::Raise)
    } else if offset > HINT_LIMIT {
        Some(Direction::Lower)
    } else {
        None
    }
}

} // verus!
