//! The Hann window that is laid over a buffer before its spectrum is taken.
use crate::fixed::div_floor;
use crate::trig::{cos_sin_of, cosine, lemma_unit_range, TRIG_ONE};
use vstd::prelude::*;

verus! {

/// The binary angle of sample `i` of `n`: the fraction `i / n` of a turn.
pub open spec fn window_phase(i: int, n: int) -> int {
    (i * 0x1_0000_0000) / n
}

/// The weight of sample `i` of `n`, as a multiple of `1 / TRIG_ONE`: half
/// of one minus the cosine of the sample's angle.
pub open spec fn hann(i: int, n: int) -> int {
    (TRIG_ONE - cosine(window_phase(i, n))) / 2
}

/// The sample `x` at position `i` of `n` under the window, rounded down.
pub open spec fn windowed_sample(x: int, i: int, n: int) -> int {
    (x * hann(i, n)) / (TRIG_ONE as int)
}

/// A buffer under the window.
pub open spec fn windowed(s: Seq<i32>) -> Seq<i32> {
    Seq::new(s.len(), |i: int| windowed_sample(s[i] as int, i, s.len() as int) as i32)
}

/// The weight of sample `i` of `n`.
pub fn hann_weight(i: usize, n: usize) -> (w: i64)
    requires
        i < n,
    ensures
        w == hann(i as int, n as int),
        0 <= w <= TRIG_ONE,
{
    let wide: u128 = ((i as u128) * 0x1_0000_0000) / (n as u128);
    assert(wide < 0x1_0000_0000) by (nonlinear_arith)
        requires
            wide == (i * 0x1_0000_0000) / (n as int),
            0 <= i < n,
    ;
    let phase: u32 = wide as u32;
    proof {
        lemma_unit_range(phase);
    }
    let (cos, _sin): (i64, i64) = cos_sin_of(phase);
    (TRIG_ONE - cos) / 2
}

/// A copy of `samples` under the Hann window.
pub fn apply_hann(samples: &[i32]) -> (out: Vec<i32>)
    ensures
        out@ == windowed(samples@),
{
    let n: usize = samples.len();
    let mut out: Vec<i32> = Vec::new();
    let mut i: usize = 0;
    while i < n
        invariant
            i <= n,
            n == samples@.len(),
            out@.len() == i,
            forall|j: int|
                0 <= j < i ==> out@[j] == windowed_sample(samples@[j] as int, j, n as int),
        decreases n - i,
    {
        let w: i64 = hann_weight(i, n);
        let x: i32 = samples[i];
        assert(-0x8000_0000 * 0x4000_0000 <= (x as i128) * (w as i128) <= 0x8000_0000
            * 0x4000_0000) by (nonlinear_arith)
            requires
                -0x8000_0000 <= x <= 0x7fff_ffff,
                0 <= w <= 0x4000_0000,
        ;
        let p: i128 = (x as i128) * (w as i128);
        let y: i128 = div_floor(p, TRIG_ONE as i128);
        assert(-0x8000_0000 <= y <= 0x7fff_ffff) by (nonlinear_arith)
            requires
                y == p / 0x4000_0000,
                p == x * w,
                -0x8000_0000 <= x <= 0x7fff_ffff,
                0 <= w <= 0x4000_0000,
        ;
        out.push(y as i32);
        i = i + 1;
    }
    assert(out@ =~= windowed(samples@));
    out
}

} // verus!
