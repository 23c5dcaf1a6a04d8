//! The two detectors that report an outside analysis as it comes: one for
//! estimators in the style of McLeod, one for the peaks of a spectrum
//! display.
use crate::interface::{PitchEstimator, PitchFindTrait, SpectrumPeaks};
use crate::level::{rms, rms_level};
use crate::quality::{confidence, score};
use crate::result::{describe, described, result_view, PitchResult};
use crate::standard::{standard_tunings, tunings};
use crate::tuning::TuningRegistry;
use vstd::prelude::*;

verus! {

/// A detector that reports what its estimator finds, unfiltered.
pub struct McleodPitchDetector<E: PitchEstimator> {
    estimator: E,
    sample_rate: u32,
    power_threshold: u32,
    clarity_threshold: u32,
    size: usize,
    padding: usize,
    registry: TuningRegistry,
}

/// The values that a McLeod detector was made with.
#[derive(Clone, Copy, Debug, PartialEq, Eq)]
pub struct McleodSettings {
    /// The length of the buffers to analyse.
    pub size: usize,
    /// The padding of the analysis.
    pub padding: usize,
    /// The sample rate in hertz.
    pub sample_rate: u32,
    /// The least power of a pitch, in millionths.
    pub power_threshold: u32,
    /// The least clarity of a pitch, in millionths.
    pub clarity_threshold: u32,
}

impl<E: PitchEstimator> McleodPitchDetector<E> {
    /// Whether the detector's tuning schemes are well formed.
    pub closed spec fn wf(&self) -> bool {
        self.registry.wf() && self.registry@ == standard_tunings()
    }

    /// The values that the detector was made with.
    pub closed spec fn settings(&self) -> McleodSettings {
        McleodSettings {
            size: self.size,
            padding: self.padding,
            sample_rate: self.sample_rate,
            power_threshold: self.power_threshold,
            clarity_threshold: self.clarity_threshold,
        }
    }

    /// A detector around `estimator`, with the built-in tuning schemes.
    pub fn new(
        estimator: E,
        size: usize,
        padding: usize,
        sample_rate: u32,
        power_threshold: u32,
        clarity_threshold: u32,
    ) -> (d: Self)
        ensures
            d.wf(),
            d.settings() == (McleodSettings {
                size,
                padding,
                sample_rate,
                power_threshold,
                clarity_threshold,
            }),
    {
        McleodPitchDetector {
            estimator,
            sample_rate,
            power_threshold,
            clarity_threshold,
            size,
            padding,
            registry: tunings(),
        }
    }

    /// The values that the detector was made with.
    pub fn parameters(&self) -> (s: McleodSettings)
        ensures
            s == self.settings(),
    {
        McleodSettings {
            size: self.size,
            padding: self.padding,
            sample_rate: self.sample_rate,
            power_threshold: self.power_threshold,
            clarity_threshold: self.clarity_threshold,
        }
    }
}

impl<E: PitchEstimator> PitchFindTrait for McleodPitchDetector<E> {
    open spec fn ready(&self) -> bool {
        self.wf()
    }

    /// Reports the estimator's frequency, matched to a note of the built-in
    /// scheme `tuning`, with the confidence of a steady estimate at the
    /// buffer's level; nothing where the estimator finds no pitch.
    fn maybe_find_pitch(&mut self, data: &[i32], tuning: &str) -> (r: Option<PitchResult>)
        ensures
            final(self).settings() == old(self).settings(),
            exists|freq: u32|
                result_view(r) == #[trigger] described(
                    standard_tunings(),
                    tuning@,
                    freq as int,
                    confidence(rms_level(data@), 0),
                    rms_level(data@),
                ),
    {
        let level: u32 = rms(data);
        let ghost nothing = described(
            standard_tunings(),
            tuning@,
            0,
            confidence(rms_level(data@), 0),
            rms_level(data@),
        );
        match self.estimator.estimate(data, self.sample_rate) {
            None => {
                assert(result_view(None) == nothing);
                None
            },
            Some(freq) => describe(&self.registry, tuning, freq, score(level, 0), level),
        }
    }

    /// Returns the estimate as it is.
    fn fft_refine_pitch(&mut self, samples: &[i32], approx_freq: u32) -> (r: Option<u32>)
        ensures
            r == Some(approx_freq),
            final(self).settings() == old(self).settings(),
    {
        Some(approx_freq)
    }
}

/// Whether peak `i` is the loudest: it has some volume, every earlier peak
/// is quieter and no later peak is louder.
pub open spec fn is_loudest(peaks: Seq<(u32, u32)>, i: int) -> bool {
    &&& 0 <= i < peaks.len()
    &&& peaks[i].0 > 0
    &&& forall|j: int| 0 <= j < i ==> peaks[j].0 < peaks[i].0
    &&& forall|j: int| i <= j < peaks.len() ==> peaks[j].0 <= peaks[i].0
}

/// The frequency of the loudest peak; zero where no peak has any volume.
pub open spec fn loudest_frequency(peaks: Seq<(u32, u32)>) -> int {
    if exists|i: int| is_loudest(peaks, i) {
        peaks[choose|i: int| is_loudest(peaks, i)].1 as int
    } else {
        0
    }
}

/// There is at most one loudest peak.
pub proof fn lemma_loudest_unique(peaks: Seq<(u32, u32)>, a: int, b: int)
    requires
        is_loudest(peaks, a),
        is_loudest(peaks, b),
    ensures
        a == b,
{
}

/// The frequency of the loudest peak; zero where no peak has any volume.
pub fn loudest(peaks: &[(u32, u32)]) -> (freq: u32)
    ensures
        freq == loudest_frequency(peaks@),
{
    let mut volume: u32 = 0;
    let mut highest: u32 = 0;
    let ghost mut at: int = -1;
    let mut i: usize = 0;
    while i < peaks.len()
        invariant
            i <= peaks@.len(),
            -1 <= at < i,
            at == -1 ==> volume == 0 && highest == 0,
            at >= 0 ==> volume == peaks@[at].0 && highest == peaks@[at].1 && volume > 0,
            forall|j: int| 0 <= j < i ==> peaks@[j].0 <= volume,
            forall|j: int| 0 <= j < at ==> peaks@[j].0 < volume,
        decreases peaks@.len() - i,
    {
        let item: (u32, u32) = peaks[i];
        if item.0 > volume {
            volume = item.0;
            highest = item.1;
            proof {
                at = i as int;
            }
        }
        i = i + 1;
    }
    proof {
        if at >= 0 {
            assert(is_loudest(peaks@, at));
            let c = choose|k: int| is_loudest(peaks@, k);
            lemma_loudest_unique(peaks@, c, at);
        } else {
            assert forall|k: int| !is_loudest(peaks@, k) by {
                if 0 <= k < peaks@.len() {
                    assert(peaks@[k].0 <= volume);
                }
            }
        }
    }
    highest
}

/// A detector that reports the loudest peak of a spectrum display.
pub struct FftPitchDetector<P: SpectrumPeaks> {
    stream: P,
    registry: TuningRegistry,
}

impl<P: SpectrumPeaks> FftPitchDetector<P> {
    /// Whether the detector's tuning schemes are well formed.
    pub closed spec fn wf(&self) -> bool {
        self.registry.wf() && self.registry@ == standard_tunings()
    }

    /// A detector around `stream`, with the built-in tuning schemes.
    pub fn new(stream: P) -> (d: Self)
        ensures
            d.wf(),
    {
        FftPitchDetector { stream, registry: tunings() }
    }
}

impl<P: SpectrumPeaks> PitchFindTrait for FftPitchDetector<P> {
    open spec fn ready(&self) -> bool {
        self.wf()
    }

    /// Reports the frequency of the loudest peak, matched to a note of the
    /// built-in scheme `tuning`, with the confidence of a steady estimate
    /// at the buffer's level; nothing where no peak has any volume.
    fn maybe_find_pitch(&mut self, data: &[i32], tuning: &str) -> (r: Option<PitchResult>)
        ensures
            exists|peaks: Seq<(u32, u32)>|
                result_view(r) == described(
                    standard_tunings(),
                    tuning@,
                    #[trigger] loudest_frequency(peaks),
                    confidence(rms_level(data@), 0),
                    rms_level(data@),
                ),
    {
        let level: u32 = rms(data);
        let found: Vec<(u32, u32)> = self.stream.peaks(data);
        let freq: u32 = loudest(found.as_slice());
        let r = describe(&self.registry, tuning, freq, score(level, 0), level);
        assert(result_view(r) == described(
            standard_tunings(),
            tuning@,
            loudest_frequency(found@),
            confidence(rms_level(data@), 0),
            rms_level(data@),
        ));
        r
    }

    /// Returns the estimate as it is.
    fn fft_refine_pitch(&mut self, samples: &[i32], approx_freq: u32) -> (r: Option<u32>)
        ensures
            r == Some(approx_freq),
    {
        Some(approx_freq)
    }
}

} // verus!
