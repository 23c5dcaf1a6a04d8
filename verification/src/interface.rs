//! The interface that every detector offers, and the capabilities that
//! detectors are given: an estimator of the fundamental, a spectrum
//! analyzer, and a source of spectrum peaks. Nothing is assumed of what a
//! capability returns.
use crate::result::PitchResult;
use vstd::prelude::*;

verus! {

/// An estimator of the fundamental frequency of a buffer.
pub trait PitchEstimator {
    /// The fundamental of `samples`, taken at `sample_rate` hertz, in
    /// millihertz; nothing where no pitch is found.
    fn estimate(&mut self, samples: &[i32], sample_rate: u32) -> Option<u32>;
}

/// A source of magnitude spectra.
pub trait SpectrumAnalyzer {
    /// The magnitudes of the forward transform of `samples`, one for each
    /// bin of the whole spectrum, on any common scale.
    fn magnitudes(&mut self, samples: &[i32]) -> Vec<u32>;
}

/// A source of the peaks of a buffer's spectrum.
pub trait SpectrumPeaks {
    /// The peaks of the spectrum after `data`, each with its volume on any
    /// common scale and its frequency in millihertz.
    fn peaks(&mut self, data: &[i32]) -> Vec<(u32, u32)>;
}

/// A detector of the pitch in a buffer.
pub trait PitchFindTrait {
    /// Whether the detector is well formed.
    spec fn ready(&self) -> bool;

    /// Looks for a pitch in `data` and matches it to a note of the scheme
    /// `tuning`.
    fn maybe_find_pitch(&mut self, data: &[i32], tuning: &str) -> (r: Option<PitchResult>)
        requires
            old(self).ready(),
        ensures
            final(self).ready(),
    ;

    /// Refines the estimate `approx_freq` for `samples`; nothing where the
    /// refiner fails.
    fn fft_refine_pitch(&mut self, samples: &[i32], approx_freq: u32) -> (r: Option<u32>)
        requires
            old(self).ready(),
        ensures
            final(self).ready(),
    ;
}

} // verus!
