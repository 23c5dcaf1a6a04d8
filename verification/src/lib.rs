//! Fixed-point pitch detection core for an instrument tuner.
//!
//! A detector takes buffers of audio samples, conditions them with a
//! cascade of filters, asks an estimator for the fundamental frequency,
//! refines and corrects the estimate, tracks it over time and matches it to
//! the nearest note of a tuning scheme.
//!
//! Frequencies are whole millihertz, intervals are thousandths of a cent,
//! ratios are whole millionths, and audio samples are signed 32-bit values
//! in which `UNIT_AMPLITUDE` stands for an amplitude of one.
pub mod biquad;
pub mod bits;
pub mod cents;
pub mod chain;
pub mod config;
pub mod correction;
pub mod detectors;
pub mod engine;
pub mod fixed;
pub mod interface;
pub mod level;
pub mod preset;
pub mod quality;
pub mod refine;
pub mod result;
pub mod smoothing;
pub mod standard;
pub mod text;
pub mod trig;
pub mod tuning;
pub mod window;

pub use crate::biquad::Biquad;
pub use crate::bits::set_bits;
pub use crate::config::Config;
pub use crate::detectors::{FftPitchDetector, McleodPitchDetector};
pub use crate::engine::YinPitchDetector;
pub use crate::interface::PitchFindTrait;
pub use crate::result::{PitchResult, TuningTo};
pub use crate::smoothing::{ExpMovingAverage, FrequencySmoother};
pub use crate::standard::{find_closest_note, find_string_and_distance, tunings};
