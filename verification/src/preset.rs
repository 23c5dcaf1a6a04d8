//! Settings for the instruments that a detector is used with.
use crate::text::is_text;
use vstd::prelude::*;
use vstd::string::*;

verus! {

/// The feature bit that turns spectral refinement on.
pub const FEATURE_REFINE: u32 = 0;

/// The feature bit that turns the outlier gate on.
pub const FEATURE_OUTLIER_GATE: u32 = 1;

/// The feature bit that turns exponential smoothing on.
pub const FEATURE_SMOOTHING: u32 = 2;

/// The values that a detector and its estimator are built with.
#[derive(Clone, Copy, Debug, PartialEq, Eq)]
pub struct Preset {
    /// The estimator's threshold, in millionths.
    pub threshold: u32,
    /// The lowest frequency to look for, in millihertz.
    pub freq_min: u32,
    /// The highest frequency to look for, in millihertz.
    pub freq_max: u32,
    /// The filters to build.
    pub filter_mask: usize,
    /// The features to turn on.
    pub feature_mask: usize,
    /// The size of the window of the outlier gate.
    pub averaging_window_size: usize,
    /// The weight of a new value in the moving average, in millionths.
    pub smoothing_alpha: u32,
}

/// Steel-string acoustic guitar; also the preset for an unknown name.
pub open spec fn acoustic() -> Preset {
    Preset {
        threshold: 150_000,
        freq_min: 60_000,
        freq_max: 500_000,
        filter_mask: 0x3e,
        feature_mask: 0x6,
        averaging_window_size: 3,
        smoothing_alpha: 400_000,
    }
}

/// Electric guitar with a clean signal.
pub open spec fn electric_clean() -> Preset {
    Preset {
        threshold: 100_000,
        freq_min: 70_000,
        freq_max: 1_400_000,
        filter_mask: 0x3f,
        feature_mask: 0x6,
        averaging_window_size: 3,
        smoothing_alpha: 400_000,
    }
}

/// Electric guitar with distortion: refined, with more smoothing.
pub open spec fn electric_distorted() -> Preset {
    Preset {
        threshold: 200_000,
        freq_min: 70_000,
        freq_max: 1_400_000,
        filter_mask: 0x3f,
        feature_mask: 0x7,
        averaging_window_size: 5,
        smoothing_alpha: 300_000,
    }
}

/// Nylon-string classical guitar.
pub open spec fn classical() -> Preset {
    Preset {
        threshold: 120_000,
        freq_min: 60_000,
        freq_max: 1_100_000,
        filter_mask: 0x3e,
        feature_mask: 0x6,
        averaging_window_size: 3,
        smoothing_alpha: 400_000,
    }
}

/// Bass guitar: no filter below the lowpass, so that low strings pass.
pub open spec fn bass() -> Preset {
    Preset {
        threshold: 150_000,
        freq_min: 25_000,
        freq_max: 400_000,
        filter_mask: 0x20,
        feature_mask: 0x6,
        averaging_window_size: 5,
        smoothing_alpha: 300_000,
    }
}

/// Guitars with seven or more strings.
pub open spec fn extended_range() -> Preset {
    Preset {
        threshold: 150_000,
        freq_min: 40_000,
        freq_max: 1_400_000,
        filter_mask: 0x38,
        feature_mask: 0x6,
        averaging_window_size: 5,
        smoothing_alpha: 400_000,
    }
}

/// The preset of the given name; the acoustic preset for any other name.
pub open spec fn preset_of(name: Seq<char>) -> Preset {
    if name == "electric-clean"@ {
        electric_clean()
    } else if name == "electric-distorted"@ {
        electric_distorted()
    } else if name == "classical"@ {
        classical()
    } else if name == "bass"@ {
        bass()
    } else if name == "extended-range"@ {
        extended_range()
    } else {
        acoustic()
    }
}

/// The preset of the given name; the acoustic preset for any other name.
pub fn preset(name: &str) -> (p: Preset)
    ensures
        p == preset_of(name@),
{
    let key = name.to_owned();
    if is_text(&key, "electric-clean") {
        Preset {
            threshold: 100_000,
            freq_min: 70_000,
            freq_max: 1_400_000,
            filter_mask: 0x3f,
            feature_mask: 0x6,
            averaging_window_size: 3,
            smoothing_alpha: 400_000,
        }
    } else if is_text(&key, "electric-distorted") {
        Preset {
            threshold: 200_000,
            freq_min: 70_000,
            freq_max: 1_400_000,
            filter_mask: 0x3f,
            feature_mask: 0x7,
            averaging_window_size: 5,
            smoothing_alpha: 300_000,
        }
    } else if is_text(&key, "classical") {
        Preset {
            threshold: 120_000,
            freq_min: 60_000,
            freq_max: 1_100_000,
            filter_mask: 0x3e,
            feature_mask: 0x6,
            averaging_window_size: 3,
            smoothing_alpha: 400_000,
        }
    } else if is_text(&key, "bass") {
        Preset {
            threshold: 150_000,
            freq_min: 25_000,
            freq_max: 400_000,
            filter_mask: 0x20,
            feature_mask: 0x6,
            averaging_window_size: 5,
            smoothing_alpha: 300_000,
        }
    } else if is_text(&key, "extended-range") {
        Preset {
            threshold: 150_000,
            freq_min: 40_000,
            freq_max: 1_400_000,
            filter_mask: 0x38,
            feature_mask: 0x6,
            averaging_window_size: 5,
            smoothing_alpha: 400_000,
        }
    } else {
        Preset {
            threshold: 150_000,
            freq_min: 60_000,
            freq_max: 500_000,
            filter_mask: 0x3e,
            feature_mask: 0x6,
            averaging_window_size: 3,
            smoothing_alpha: 400_000,
        }
    }
}

} // verus!
