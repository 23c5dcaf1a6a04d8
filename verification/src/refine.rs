//! Refinement of a frequency estimate to a fraction of a spectrum bin, by
//! fitting a parabola through the magnitudes around the nearest peak.
use crate::fixed::{div_floor, round_div};
use vstd::prelude::*;

verus! {

/// The bin nearest to `approx_freq` millihertz in a spectrum of `n` bins
/// taken at `sample_rate` hertz.
pub open spec fn nearest_bin(approx_freq: int, n: int, sample_rate: int) -> int {
    round_div(approx_freq * n, 1000 * sample_rate)
}

/// Whether `bin` is at least two bins away from both ends of the lower half
/// of a spectrum of `n` bins.
pub open spec fn bin_in_range(bin: int, n: int) -> bool {
    2 <= bin && bin + 2 < n / 2
}

/// The bin with the largest magnitude among `bin` and its two neighbours;
/// of equal magnitudes the higher bin.
pub open spec fn peak_bin(magnitudes: Seq<u32>, bin: int) -> int {
    let below = magnitudes[bin - 1];
    let here = magnitudes[bin];
    let above = magnitudes[bin + 1];
    if above >= below && above >= here {
        bin + 1
    } else if here >= below {
        bin
    } else {
        bin - 1
    }
}

/// The centre frequency of `bin` in millihertz, rounded down.
pub open spec fn bin_centre(bin: int, n: int, sample_rate: int) -> int {
    (bin * 1000 * sample_rate) / n
}

/// How much the peak bin's magnitude exceeds the mean of its neighbours,
/// doubled: the negated curvature of the parabola through the three.
pub open spec fn peak_curvature(magnitudes: Seq<u32>, peak: int) -> int {
    2 * magnitudes[peak] - magnitudes[peak - 1] - magnitudes[peak + 1]
}

/// The offset in millihertz of the parabola's vertex from the centre of the
/// peak bin, rounded down: half the difference of the neighbours' magnitudes
/// over the curvature, in bins. Zero where the three magnitudes lie on a
/// line.
pub open spec fn vertex_offset(magnitudes: Seq<u32>, peak: int, n: int, sample_rate: int) -> int {
    let curvature = peak_curvature(magnitudes, peak);
    let slope = magnitudes[peak + 1] - magnitudes[peak - 1];
    if curvature == 0 {
        0
    } else if curvature > 0 {
        (slope * 1000 * sample_rate) / (2 * curvature * n)
    } else {
        (-slope * 1000 * sample_rate) / (-2 * curvature * n)
    }
}

/// How a refinement ended.
#[derive(Clone, Copy, Debug, PartialEq, Eq)]
pub enum Refinement {
    /// The estimate's bin is too near an end of the spectrum, the spectrum
    /// is empty or the sample rate is zero: there is nothing to refine.
    OutOfRange,
    /// The vertex of the parabola is no positive `u32` frequency.
    Invalid,
    /// The refined frequency in millihertz.
    Refined(u32),
}

/// The refinement of `approx_freq` millihertz in a spectrum taken at
/// `sample_rate` hertz: the centre of the peak bin plus the offset of the
/// parabola's vertex.
pub open spec fn refined_frequency(magnitudes: Seq<u32>, sample_rate: int, approx_freq: int)
    -> Refinement {
    let n = magnitudes.len() as int;
    let bin = nearest_bin(approx_freq, n, sample_rate);
    if n == 0 || sample_rate <= 0 || !bin_in_range(bin, n) {
        Refinement::OutOfRange
    } else {
        let peak = peak_bin(magnitudes, bin);
        let f = bin_centre(peak, n, sample_rate) + vertex_offset(magnitudes, peak, n, sample_rate);
        if 0 < f <= u32::MAX {
            Refinement::Refined(f as u32)
        } else {
            Refinement::Invalid
        }
    }
}

/// In a spectrum of equal magnitudes, such as that of silence, the refined
/// frequency is the centre of the bin above the estimate's bin.
pub proof fn lemma_flat_spectrum(magnitudes: Seq<u32>, sample_rate: int, approx_freq: int)
    requires
        forall|i: int, j: int|
            0 <= i < magnitudes.len() && 0 <= j < magnitudes.len() ==> magnitudes[i]
                == magnitudes[j],
        sample_rate > 0,
        bin_in_range(
            nearest_bin(approx_freq, magnitudes.len() as int, sample_rate),
            magnitudes.len() as int,
        ),
    ensures
        refined_frequency(magnitudes, sample_rate, approx_freq) == ({
            let n = magnitudes.len() as int;
            let centre = bin_centre(nearest_bin(approx_freq, n, sample_rate) + 1, n, sample_rate);
            if 0 < centre <= u32::MAX {
                Refinement::Refined(centre as u32)
            } else {
                Refinement::Invalid
            }
        }),
{
    let n = magnitudes.len() as int;
    let bin = nearest_bin(approx_freq, n, sample_rate);
    assert(magnitudes[bin - 1] == magnitudes[bin]);
    assert(magnitudes[bin + 1] == magnitudes[bin]);
    assert(magnitudes[bin + 2] == magnitudes[bin]);
    assert(peak_bin(magnitudes, bin) == bin + 1);
}

/// Half the width of a bin in millihertz, rounded down.
pub open spec fn half_bin(n: int, sample_rate: int) -> int {
    (1000 * sample_rate) / (2 * n)
}

/// Where the peak bin is a true peak, at least as high as both neighbours
/// and higher than one of them, the vertex lies within half a bin of the
/// centre of the bin.
pub proof fn lemma_vertex_within_half_bin(
    magnitudes: Seq<u32>,
    peak: int,
    n: int,
    sample_rate: int,
)
    requires
        1 <= peak,
        peak + 1 < magnitudes.len(),
        n > 0,
        sample_rate > 0,
        magnitudes[peak] >= magnitudes[peak - 1],
        magnitudes[peak] >= magnitudes[peak + 1],
        peak_curvature(magnitudes, peak) > 0,
    ensures
        -half_bin(n, sample_rate) - 1 <= vertex_offset(magnitudes, peak, n, sample_rate)
            <= half_bin(n, sample_rate),
{
    let curvature = peak_curvature(magnitudes, peak);
    let slope = magnitudes[peak + 1] - magnitudes[peak - 1];
    let k = 1000 * sample_rate;
    let d = 2 * curvature * n;
    assert(-curvature <= slope <= curvature);
    assert(d > 0) by (nonlinear_arith)
        requires
            d == 2 * curvature * n,
            curvature > 0,
            n > 0,
    ;
    assert(-(curvature * k) <= slope * 1000 * sample_rate <= curvature * k) by (nonlinear_arith)
        requires
            -curvature <= slope <= curvature,
            k == 1000 * sample_rate,
            sample_rate > 0,
    ;
    assert(d == curvature * (2 * n)) by (nonlinear_arith)
        requires
            d == 2 * curvature * n,
    ;
    vstd::arithmetic::div_mod::lemma_div_multiples_vanish_quotient(curvature, k, 2 * n);
    assert((curvature * k) / d == k / (2 * n));
    vstd::arithmetic::div_mod::lemma_div_is_ordered(slope * 1000 * sample_rate, curvature * k, d);
    vstd::arithmetic::div_mod::lemma_div_is_ordered(
        -(curvature * k),
        slope * 1000 * sample_rate,
        d,
    );
    // The floor of a negated quotient is at least the negated floor less one.
    let q = (curvature * k) / d;
    let r = (curvature * k) % d;
    vstd::arithmetic::div_mod::lemma_fundamental_div_mod(curvature * k, d);
    assert(-(curvature * k) == (-q - 1) * d + (d - r)) by (nonlinear_arith)
        requires
            curvature * k == d * q + r,
    ;
    if r == 0 {
        assert(-(curvature * k) == (-q) * d + 0) by (nonlinear_arith)
            requires
                curvature * k == d * q + r,
                r == 0,
        ;
        vstd::arithmetic::div_mod::lemma_fundamental_div_mod_converse_div(
            -(curvature * k),
            d,
            -q,
            0,
        );
    } else {
        vstd::arithmetic::div_mod::lemma_fundamental_div_mod_converse_div(
            -(curvature * k),
            d,
            -q - 1,
            d - r,
        );
    }
}

/// Refines `approx_freq` with the magnitude spectrum of the same buffer.
///
/// `magnitudes` holds one magnitude for each bin of the whole spectrum, on
/// any common scale; `sample_rate` is in hertz and the frequencies are in
/// millihertz.
pub fn refine_peak(magnitudes: &[u32], sample_rate: u32, approx_freq: u32) -> (r: Refinement)
    ensures
        r == refined_frequency(magnitudes@, sample_rate as int, approx_freq as int),
{
    let n: usize = magnitudes.len();
    if n == 0 || sample_rate == 0 {
        return Refinement::OutOfRange;
    }
    assert((approx_freq as u128) * (n as u128) <= 0xffff_ffff * 0xffff_ffff_ffff_ffff)
        by (nonlinear_arith)
        requires
            approx_freq <= 0xffff_ffff,
            n <= 0xffff_ffff_ffff_ffff,
    ;
    let scaled: u128 = (approx_freq as u128) * (n as u128);
    let step: u128 = 1000 * (sample_rate as u128);
    let bin_wide: u128 = (2 * scaled + step) / (2 * step);
    if bin_wide < 2 || bin_wide + 2 >= (n / 2) as u128 {
        return Refinement::OutOfRange;
    }
    let bin: usize = bin_wide as usize;
    let below: u32 = magnitudes[bin - 1];
    let here: u32 = magnitudes[bin];
    let above: u32 = magnitudes[bin + 1];
    let peak: usize = if above >= below && above >= here {
        bin + 1
    } else if here >= below {
        bin
    } else {
        bin - 1
    };
    let low: i128 = magnitudes[peak - 1] as i128;
    let mid: i128 = magnitudes[peak] as i128;
    let high: i128 = magnitudes[peak + 1] as i128;
    let curvature: i128 = 2 * mid - low - high;
    assert((peak as u128) * 1000 * (sample_rate as u128) <= 0xffff_ffff_ffff_ffff * 1000
        * 0xffff_ffff) by (nonlinear_arith)
        requires
            peak <= 0xffff_ffff_ffff_ffff,
            sample_rate <= 0xffff_ffff,
    ;
    let centre: u128 = ((peak as u128) * 1000 * (sample_rate as u128)) / (n as u128);
    let slope: i128 = high - low;
    assert(-0xffff_ffff * 1000 * 0xffff_ffff <= slope * 1000 * (sample_rate as i128) <= 0xffff_ffff
        * 1000 * 0xffff_ffff) by (nonlinear_arith)
        requires
            -0xffff_ffff <= slope <= 0xffff_ffff,
            0 <= sample_rate <= 0xffff_ffff,
    ;
    let lean: i128 = slope * 1000 * (sample_rate as i128);
    let offset: i128 = if curvature == 0 {
        0
    } else if curvature > 0 {
        assert(0 < 2 * curvature * (n as i128) <= 2 * 0x2_0000_0000 * 0xffff_ffff_ffff_ffff)
            by (nonlinear_arith)
            requires
                0 < curvature <= 0x2_0000_0000,
                0 < n <= 0xffff_ffff_ffff_ffff,
        ;
        div_floor(lean, 2 * curvature * (n as i128))
    } else {
        assert(0 < -2 * curvature * (n as i128) <= 2 * 0x2_0000_0000 * 0xffff_ffff_ffff_ffff)
            by (nonlinear_arith)
            requires
                -0x2_0000_0000 <= curvature < 0,
                0 < n <= 0xffff_ffff_ffff_ffff,
        ;
        assert(-slope * 1000 * (sample_rate as i128) == -lean) by (nonlinear_arith)
            requires
                lean == slope * 1000 * (sample_rate as i128),
        ;
        div_floor(-lean, -2 * curvature * (n as i128))
    };
    assert(centre <= 0xffff_ffff_ffff_ffff * 1000 * 0xffff_ffff);
    let f: i128 = centre as i128 + offset;
    if 0 < f && f <= u32::MAX as i128 {
        Refinement::Refined(f as u32)
    } else {
        Refinement::Invalid
    }
}

} // verus!
