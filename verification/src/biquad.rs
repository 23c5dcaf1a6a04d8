//! Second-order filter sections in Direct Form I, designed with the
//! bilinear transform.
//!
//! Coefficients are multiples of `1 / TRIG_ONE`. The sample rate is in
//! hertz, the corner or centre frequency in millihertz, and the quality in
//! millionths. An output beyond the range of a sample is limited to it.
//!
//! In exact arithmetic the poles of every design lie inside the unit
//! circle. Rounding could put a feedback coefficient on the edge of that
//! region or beyond it, so a feedback coefficient that rounds to the edge
//! is moved to the nearest value inside.
use crate::fixed::{clamp, div_floor, round_div, MILLION};
use crate::trig::{cos_sin_of, cosine, lemma_unit_range, sine, TRIG_ONE};
use vstd::prelude::*;

verus! {

/// One filter section: three feed-forward and two feedback coefficients,
/// and the last two inputs and outputs.
#[derive(Clone, Copy, Debug, PartialEq, Eq)]
pub struct Biquad {
    pub b0: i64,
    pub b1: i64,
    pub b2: i64,
    pub a1: i64,
    pub a2: i64,
    pub x1: i32,
    pub x2: i32,
    pub y1: i32,
    pub y2: i32,
}

/// Whether a section can be designed: the sample rate and the quality are
/// positive, and either the quality is above one half or the frequency is at
/// most half the sample rate. Elsewhere the design may divide by zero.
pub open spec fn designable(fs: int, fc: int, q: int) -> bool {
    fs > 0 && q > 0 && (2 * q > MILLION || 2 * fc <= 1000 * fs)
}

/// The binary angle of `fc` at the sample rate `fs`: the fraction `fc / fs`
/// of a turn.
pub open spec fn design_phase(fs: int, fc: int) -> int {
    ((fc * 0x1_0000_0000) / (1000 * fs)) % 0x1_0000_0000
}

/// The sine of the design angle over twice the quality, rounded down.
pub open spec fn design_alpha(fs: int, fc: int, q: int) -> int {
    (sine(design_phase(fs, fc)) * MILLION) / (2 * q)
}

/// The cosine of the design angle.
pub open spec fn design_cos(fs: int, fc: int) -> int {
    cosine(design_phase(fs, fc))
}

/// A coefficient divided by the leading feedback coefficient, rounded down.
pub open spec fn normalised(c: int, a0: int) -> int {
    (c * TRIG_ONE) / a0
}

/// The second feedback coefficient, `(1 - alpha) / (1 + alpha)`, rounded
/// down and kept strictly between minus one and one.
pub open spec fn feedback_a2(alpha: int) -> int {
    clamp(normalised(TRIG_ONE - alpha, TRIG_ONE + alpha), 1 - TRIG_ONE, TRIG_ONE - 1)
}

/// The first feedback coefficient, `-2 cos / (1 + alpha)`, rounded down and
/// kept strictly between `-(1 + a2)` and `1 + a2`.
pub open spec fn feedback_a1(alpha: int, cos: int) -> int {
    let edge = TRIG_ONE + feedback_a2(alpha) - 1;
    clamp(normalised(-2 * cos, TRIG_ONE + alpha), -edge, edge)
}

/// Whether both poles of a section lie strictly inside the unit circle:
/// whether `|a2| < 1` and `|a1| < 1 + a2`.
pub open spec fn poles_inside(f: Biquad) -> bool {
    -TRIG_ONE < f.a2 < TRIG_ONE && -(TRIG_ONE + f.a2) < f.a1 < TRIG_ONE + f.a2
}

/// The section at rest with the given feed-forward coefficients, each
/// divided by the leading feedback coefficient `1 + alpha`, and the
/// feedback coefficients that all four kinds share.
pub open spec fn section(b0: int, b1: int, b2: int, alpha: int, cos: int) -> Biquad {
    let a0 = TRIG_ONE + alpha;
    Biquad {
        b0: normalised(b0, a0) as i64,
        b1: normalised(b1, a0) as i64,
        b2: normalised(b2, a0) as i64,
        a1: feedback_a1(alpha, cos) as i64,
        a2: feedback_a2(alpha) as i64,
        x1: 0,
        x2: 0,
        y1: 0,
        y2: 0,
    }
}

/// The highpass section.
pub open spec fn highpass(fs: int, fc: int, q: int) -> Biquad {
    let cos = design_cos(fs, fc);
    section(
        (TRIG_ONE + cos) / 2,
        -(TRIG_ONE + cos),
        (TRIG_ONE + cos) / 2,
        design_alpha(fs, fc, q),
        cos,
    )
}

/// The lowpass section.
pub open spec fn lowpass(fs: int, fc: int, q: int) -> Biquad {
    let cos = design_cos(fs, fc);
    section(
        (TRIG_ONE - cos) / 2,
        TRIG_ONE - cos,
        (TRIG_ONE - cos) / 2,
        design_alpha(fs, fc, q),
        cos,
    )
}

/// The notch section.
pub open spec fn notch(fs: int, fc: int, q: int) -> Biquad {
    let cos = design_cos(fs, fc);
    section(TRIG_ONE as int, -2 * cos, TRIG_ONE as int, design_alpha(fs, fc, q), cos)
}

/// The bandpass section.
pub open spec fn bandpass(fs: int, fc: int, q: int) -> Biquad {
    let alpha = design_alpha(fs, fc, q);
    section(alpha, 0, -alpha, alpha, design_cos(fs, fc))
}

/// The weighted sum of the recurrence, before it is scaled back.
pub open spec fn biquad_sum(f: Biquad, x0: int) -> int {
    f.b0 * x0 + f.b1 * f.x1 + f.b2 * f.x2 - f.a1 * f.y1 - f.a2 * f.y2
}

/// The output for the input `x0`: the weighted sum scaled back and rounded
/// to the nearest sample value, limited to the range of a sample.
pub open spec fn biquad_output(f: Biquad, x0: int) -> int {
    clamp(round_div(biquad_sum(f, x0), TRIG_ONE as int), i32::MIN as int, i32::MAX as int)
}

/// The section after the input `x0`: its history shifted by one sample.
pub open spec fn biquad_next(f: Biquad, x0: i32) -> Biquad {
    Biquad { x1: x0, x2: f.x1, y1: biquad_output(f, x0 as int) as i32, y2: f.y1, ..f }
}

/// Whether a numerator is small enough for its quotient to fit a
/// coefficient.
pub open spec fn fits(c: int, a0: int) -> bool {
    a0 >= 1 && ((-2 * TRIG_ONE <= c <= 2 * TRIG_ONE) || (-2 * a0 <= c <= 2 * a0))
}

/// A quotient that `fits` is a coefficient that an `i64` holds.
pub proof fn lemma_normalised_range(c: int, a0: int)
    requires
        fits(c, a0),
    ensures
        -0x2000_0000_0000_0000 <= normalised(c, a0) <= 0x2000_0000_0000_0000,
{
    let one: int = 0x4000_0000;
    if -2 * one <= c <= 2 * one {
        assert(-0x2000_0000_0000_0000 <= (c * one) / a0 <= 0x2000_0000_0000_0000)
            by (nonlinear_arith)
            requires
                a0 >= 1,
                -2 * one <= c <= 2 * one,
                one == 0x4000_0000,
        ;
    } else {
        assert(-0x2000_0000_0000_0000 <= (c * one) / a0 <= 0x2000_0000_0000_0000)
            by (nonlinear_arith)
            requires
                a0 >= 1,
                -2 * a0 <= c <= 2 * a0,
                one == 0x4000_0000,
        ;
    }
}

fn normalise(c: i64, a0: i64) -> (r: i64)
    requires
        fits(c as int, a0 as int),
        -0x10_0000_0000_0000 <= c <= 0x10_0000_0000_0000,
    ensures
        r == normalised(c as int, a0 as int),
{
    proof {
        lemma_normalised_range(c as int, a0 as int);
    }
    assert(-0x10_0000_0000_0000 * 0x4000_0000 <= (c as i128) * (TRIG_ONE as i128)
        <= 0x10_0000_0000_0000 * 0x4000_0000) by (nonlinear_arith)
        requires
            -0x10_0000_0000_0000 <= c <= 0x10_0000_0000_0000,
            TRIG_ONE == 0x4000_0000,
    ;
    let r: i128 = div_floor((c as i128) * (TRIG_ONE as i128), a0 as i128);
    r as i64
}

/// The cosine of a design lies between minus one and one, and its alpha
/// above minus one; alpha is negative only for a quality above one half
/// and above one only for a quality of at most one half.
pub proof fn lemma_design_range(fs: int, fc: int, q: int)
    requires
        designable(fs, fc, q),
        0 <= fc,
    ensures
        -TRIG_ONE <= design_cos(fs, fc) <= TRIG_ONE,
        -TRIG_ONE < design_alpha(fs, fc, q) <= 0x4_0000_0000_0000,
        design_alpha(fs, fc, q) < 0 ==> 2 * q > MILLION,
        design_alpha(fs, fc, q) > TRIG_ONE ==> 2 * q <= MILLION,
{
    let wide = (fc * 0x1_0000_0000) / (1000 * fs);
    assert(wide >= 0) by (nonlinear_arith)
        requires
            wide == (fc * 0x1_0000_0000) / (1000 * fs),
            fc >= 0,
            fs > 0,
    ;
    let phase = design_phase(fs, fc);
    assert(0 <= phase < 0x1_0000_0000);
    lemma_unit_range(phase as u32);
    if 2 * fc <= 1000 * fs {
        assert(wide <= 0x8000_0000) by (nonlinear_arith)
            requires
                wide == (fc * 0x1_0000_0000) / (1000 * fs),
                2 * fc <= 1000 * fs,
                fs > 0,
                fc >= 0,
        ;
    }
    let n: int = sine(phase) * 1_000_000;
    let d: int = 2 * q;
    if 2 * q > MILLION {
        assert(-0x4000_0000 < n / d <= 0x4000_0000) by (nonlinear_arith)
            requires
                -0x4000_0000 * 1_000_000 <= n <= 0x4000_0000 * 1_000_000,
                d > 1_000_000,
        ;
    } else {
        assert(0 <= n / d <= n) by (nonlinear_arith)
            requires
                n >= 0,
                d >= 2,
        ;
    }
}

/// The feedback coefficients put both poles inside the unit circle.
pub proof fn lemma_feedback_inside(alpha: int, cos: int)
    ensures
        -TRIG_ONE < feedback_a2(alpha) < TRIG_ONE,
        -(TRIG_ONE + feedback_a2(alpha)) < feedback_a1(alpha, cos) < TRIG_ONE + feedback_a2(alpha),
{
}

/// A section of fitting numerators holds exactly the quotients, and its
/// poles lie inside the unit circle.
pub proof fn lemma_section_exact(b0: int, b1: int, b2: int, alpha: int, cos: int)
    requires
        fits(b0, TRIG_ONE + alpha),
        fits(b1, TRIG_ONE + alpha),
        fits(b2, TRIG_ONE + alpha),
    ensures
        section(b0, b1, b2, alpha, cos).b0 == normalised(b0, TRIG_ONE + alpha),
        section(b0, b1, b2, alpha, cos).b1 == normalised(b1, TRIG_ONE + alpha),
        section(b0, b1, b2, alpha, cos).b2 == normalised(b2, TRIG_ONE + alpha),
        section(b0, b1, b2, alpha, cos).a1 == feedback_a1(alpha, cos),
        section(b0, b1, b2, alpha, cos).a2 == feedback_a2(alpha),
        poles_inside(section(b0, b1, b2, alpha, cos)),
{
    lemma_normalised_range(b0, TRIG_ONE + alpha);
    lemma_normalised_range(b1, TRIG_ONE + alpha);
    lemma_normalised_range(b2, TRIG_ONE + alpha);
    lemma_feedback_inside(alpha, cos);
}

/// Every design holds exactly the quotients of its feed-forward
/// numerators, and its poles lie inside the unit circle.
pub proof fn lemma_designs(fs: int, fc: int, q: int)
    requires
        designable(fs, fc, q),
        0 <= fc,
    ensures
        poles_inside(highpass(fs, fc, q)),
        poles_inside(lowpass(fs, fc, q)),
        poles_inside(notch(fs, fc, q)),
        poles_inside(bandpass(fs, fc, q)),
        highpass(fs, fc, q).b0 == normalised(
            (TRIG_ONE + design_cos(fs, fc)) / 2,
            TRIG_ONE + design_alpha(fs, fc, q),
        ),
        highpass(fs, fc, q).b1 == normalised(
            -(TRIG_ONE + design_cos(fs, fc)),
            TRIG_ONE + design_alpha(fs, fc, q),
        ),
        highpass(fs, fc, q).b2 == highpass(fs, fc, q).b0,
        lowpass(fs, fc, q).b0 == normalised(
            (TRIG_ONE - design_cos(fs, fc)) / 2,
            TRIG_ONE + design_alpha(fs, fc, q),
        ),
        lowpass(fs, fc, q).b1 == normalised(
            TRIG_ONE - design_cos(fs, fc),
            TRIG_ONE + design_alpha(fs, fc, q),
        ),
        lowpass(fs, fc, q).b2 == lowpass(fs, fc, q).b0,
        notch(fs, fc, q).b0 == normalised(TRIG_ONE as int, TRIG_ONE + design_alpha(fs, fc, q)),
        notch(fs, fc, q).b1 == normalised(
            -2 * design_cos(fs, fc),
            TRIG_ONE + design_alpha(fs, fc, q),
        ),
        notch(fs, fc, q).b2 == notch(fs, fc, q).b0,
        bandpass(fs, fc, q).b0 == normalised(
            design_alpha(fs, fc, q),
            TRIG_ONE + design_alpha(fs, fc, q),
        ),
        bandpass(fs, fc, q).b1 == 0,
        bandpass(fs, fc, q).b2 == normalised(
            -design_alpha(fs, fc, q),
            TRIG_ONE + design_alpha(fs, fc, q),
        ),
{
    lemma_design_range(fs, fc, q);
    let cos = design_cos(fs, fc);
    let alpha = design_alpha(fs, fc, q);
    lemma_section_exact((TRIG_ONE + cos) / 2, -(TRIG_ONE + cos), (TRIG_ONE + cos) / 2, alpha, cos);
    lemma_section_exact((TRIG_ONE - cos) / 2, TRIG_ONE - cos, (TRIG_ONE - cos) / 2, alpha, cos);
    lemma_section_exact(TRIG_ONE as int, -2 * cos, TRIG_ONE as int, alpha, cos);
    lemma_section_exact(alpha, 0, -alpha, alpha, cos);
    assert(normalised(0, TRIG_ONE + alpha) == 0) by (nonlinear_arith)
        requires
            TRIG_ONE + alpha >= 1,
    ;
}

/// The cosine of the design angle and the design's alpha.
fn design(fs: u32, fc: u32, q: u32) -> (v: (i64, i64))
    requires
        designable(fs as int, fc as int, q as int),
    ensures
        v.0 == design_cos(fs as int, fc as int),
        v.1 == design_alpha(fs as int, fc as int, q as int),
        -TRIG_ONE <= v.0 <= TRIG_ONE,
        -TRIG_ONE < v.1 <= 0x4_0000_0000_0000,
        v.1 < 0 ==> 2 * q > MILLION,
        v.1 > TRIG_ONE ==> 2 * q <= MILLION,
{
    proof {
        lemma_design_range(fs as int, fc as int, q as int);
    }
    let wide: u128 = ((fc as u128) * 0x1_0000_0000) / (1000 * (fs as u128));
    let phase: u32 = (wide % 0x1_0000_0000) as u32;
    let (cos, sin): (i64, i64) = cos_sin_of(phase);
    assert(-0x4000_0000 * 1_000_000 <= (sin as i128) * 1_000_000 <= 0x4000_0000 * 1_000_000);
    let alpha: i128 = div_floor((sin as i128) * (MILLION as i128), 2 * (q as i128));
    (cos, alpha as i64)
}

fn assemble(b0: i64, b1: i64, b2: i64, alpha: i64, cos: i64) -> (f: Biquad)
    requires
        -TRIG_ONE <= cos <= TRIG_ONE,
        -TRIG_ONE < alpha <= 0x4_0000_0000_0000,
        fits(b0 as int, TRIG_ONE + alpha),
        fits(b1 as int, TRIG_ONE + alpha),
        fits(b2 as int, TRIG_ONE + alpha),
        -0x10_0000_0000_0000 <= b0 <= 0x10_0000_0000_0000,
        -0x10_0000_0000_0000 <= b1 <= 0x10_0000_0000_0000,
        -0x10_0000_0000_0000 <= b2 <= 0x10_0000_0000_0000,
    ensures
        f == section(b0 as int, b1 as int, b2 as int, alpha as int, cos as int),
        poles_inside(f),
{
    let a0: i64 = TRIG_ONE + alpha;
    let a2: i64 = limit(normalise(TRIG_ONE - alpha, a0), 1 - TRIG_ONE, TRIG_ONE - 1);
    let edge: i64 = TRIG_ONE + a2 - 1;
    let a1: i64 = limit(normalise(0 - 2 * cos, a0), -edge, edge);
    Biquad {
        b0: normalise(b0, a0),
        b1: normalise(b1, a0),
        b2: normalise(b2, a0),
        a1,
        a2,
        x1: 0,
        x2: 0,
        y1: 0,
        y2: 0,
    }
}

fn limit(x: i64, lo: i64, hi: i64) -> (r: i64)
    ensures
        r == clamp(x as int, lo as int, hi as int),
{
    if x < lo {
        lo
    } else if x > hi {
        hi
    } else {
        x
    }
}

impl Biquad {
    /// A highpass at `fc` millihertz with quality `q` millionths, for the
    /// sample rate `fs` hertz.
    pub fn new_highpass(fs: u32, fc: u32, q: u32) -> (f: Self)
        requires
            designable(fs as int, fc as int, q as int),
        ensures
            f == highpass(fs as int, fc as int, q as int),
            poles_inside(f),
    {
        let (cos, alpha): (i64, i64) = design(fs, fc, q);
        assemble((TRIG_ONE + cos) / 2, -(TRIG_ONE + cos), (TRIG_ONE + cos) / 2, alpha, cos)
    }

    /// A lowpass at `fc` millihertz with quality `q` millionths, for the
    /// sample rate `fs` hertz.
    pub fn new_lowpass(fs: u32, fc: u32, q: u32) -> (f: Self)
        requires
            designable(fs as int, fc as int, q as int),
        ensures
            f == lowpass(fs as int, fc as int, q as int),
            poles_inside(f),
    {
        let (cos, alpha): (i64, i64) = design(fs, fc, q);
        assemble((TRIG_ONE - cos) / 2, TRIG_ONE - cos, (TRIG_ONE - cos) / 2, alpha, cos)
    }

    /// A notch at `fc` millihertz with quality `q` millionths, for the
    /// sample rate `fs` hertz.
    pub fn new_notch(fs: u32, fc: u32, q: u32) -> (f: Self)
        requires
            designable(fs as int, fc as int, q as int),
        ensures
            f == notch(fs as int, fc as int, q as int),
            poles_inside(f),
    {
        let (cos, alpha): (i64, i64) = design(fs, fc, q);
        assemble(TRIG_ONE, 0 - 2 * cos, TRIG_ONE, alpha, cos)
    }

    /// A bandpass around `fc` millihertz with quality `q` millionths, for
    /// the sample rate `fs` hertz.
    pub fn new_bandpass(fs: u32, fc: u32, q: u32) -> (f: Self)
        requires
            designable(fs as int, fc as int, q as int),
        ensures
            f == bandpass(fs as int, fc as int, q as int),
            poles_inside(f),
    {
        let (cos, alpha): (i64, i64) = design(fs, fc, q);
        assemble(alpha, 0, -alpha, alpha, cos)
    }

    /// Takes one sample through the section and returns the filtered
    /// sample.
    pub fn process(&mut self, x0: i32) -> (y0: i32)
        ensures
            y0 == biquad_output(*old(self), x0 as int),
            *final(self) == biquad_next(*old(self), x0),
    {
        let t0: i128 = product(self.b0, x0);
        let t1: i128 = product(self.b1, self.x1);
        let t2: i128 = product(self.b2, self.x2);
        let t3: i128 = product(self.a1, self.y1);
        let t4: i128 = product(self.a2, self.y2);
        let sum: i128 = t0 + t1 + t2 - t3 - t4;
        let scaled: i128 = div_floor(2 * sum + TRIG_ONE as i128, 2 * (TRIG_ONE as i128));
        let y0: i32 = if scaled < i32::MIN as i128 {
            i32::MIN
        } else if scaled > i32::MAX as i128 {
            i32::MAX
        } else {
            scaled as i32
        };
        self.x2 = self.x1;
        self.x1 = x0;
        self.y2 = self.y1;
        self.y1 = y0;
        y0
    }
}

fn product(c: i64, x: i32) -> (p: i128)
    ensures
        p == c * x,
        -0x4000_0000_0000_0000_0000_0000 <= p <= 0x4000_0000_0000_0000_0000_0000,
{
    assert(-0x4000_0000_0000_0000_0000_0000 <= (c as i128) * (x as i128)
        <= 0x4000_0000_0000_0000_0000_0000) by (nonlinear_arith)
        requires
            -0x8000_0000_0000_0000 <= c <= 0x7fff_ffff_ffff_ffff,
            -0x8000_0000 <= x <= 0x7fff_ffff,
    ;
    (c as i128) * (x as i128)
}

} // verus!
