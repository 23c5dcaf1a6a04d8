//! Corrections of an estimate that locked onto a harmonic or onto the wrong
//! octave.
use crate::cents::{
    cents,
    cents_between,
    lemma_cents_octave_above,
    lemma_cents_octave_below,
    lemma_cents_two_octaves_below,
    lemma_cents_unison,
};
use crate::fixed::{round_div, MILLION};
use vstd::prelude::*;

verus! {

/// The whole number nearest to `refined / approx`, halves rounded up.
pub open spec fn harmonic_number(refined: int, approx: int) -> int {
    round_div(refined, approx)
}

/// Whether `refined / approx` is within `tolerance` millionths of the whole
/// number `k`.
pub open spec fn near_harmonic(refined: int, approx: int, k: int, tolerance: int) -> bool {
    let error = if refined >= k * approx {
        refined - k * approx
    } else {
        k * approx - refined
    };
    error * MILLION < tolerance * approx
}

/// Whether `refined / approx` lies strictly between 0.4 and 0.6.
pub open spec fn near_half(refined: int, approx: int) -> bool {
    2 * approx < 5 * refined && 5 * refined < 3 * approx
}

/// `refined` with a lock onto a harmonic of `approx` undone.
///
/// When the whole number nearest to `refined / approx` is 2, 3 or 4 and the
/// ratio is within `tolerance` millionths of it, the result is `refined`
/// divided by that number, to the nearest millihertz. Otherwise, when the
/// ratio lies strictly between 0.4 and 0.6, it is twice `refined`, at most
/// the largest `u32`. Otherwise, and when `approx` is zero, it is `refined`.
pub open spec fn harmonic_corrected(refined: int, approx: int, tolerance: int) -> int {
    let k = harmonic_number(refined, approx);
    if approx <= 0 {
        refined
    } else if 2 <= k <= 4 && near_harmonic(refined, approx, k, tolerance) {
        round_div(refined, k)
    } else if near_half(refined, approx) {
        if 2 * refined > u32::MAX {
            u32::MAX as int
        } else {
            2 * refined
        }
    } else {
        refined
    }
}

/// Undoes a lock onto the second, third or fourth harmonic, or onto the half
/// of the frequency. Frequencies are in millihertz, `tolerance` in
/// millionths.
pub fn harmonic_correct(refined: u32, approx: u32, tolerance: u32) -> (r: u32)
    ensures
        r == harmonic_corrected(refined as int, approx as int, tolerance as int),
{
    if approx == 0 {
        return refined;
    }
    let r: u64 = refined as u64;
    let a: u64 = approx as u64;
    let k: u64 = (2 * r + a) / (2 * a);
    if 2 <= k && k <= 4 {
        let (target, quotient): (u64, u64) = if k == 2 {
            (2 * a, (2 * r + 2) / 4)
        } else if k == 3 {
            (3 * a, (2 * r + 3) / 6)
        } else {
            (4 * a, (2 * r + 4) / 8)
        };
        let error: u64 = if r >= target {
            r - target
        } else {
            target - r
        };
        assert(error * 1_000_000 <= 0xffff_ffff_ffff * 1_000_000) by (nonlinear_arith)
            requires
                error <= 0xffff_ffff_ffff,
        ;
        assert((tolerance as u64) * a <= 0xffff_ffff * 0xffff_ffff) by (nonlinear_arith)
            requires
                tolerance <= 0xffff_ffff,
                a <= 0xffff_ffff,
        ;
        if error * (MILLION as u64) < (tolerance as u64) * a {
            return quotient as u32;
        }
    }
    if 2 * a < 5 * r && 5 * r < 3 * a {
        if 2 * r > u32::MAX as u64 {
            return u32::MAX;
        }
        return (2 * r) as u32;
    }
    refined
}

/// An estimate at the fundamental is left alone: when `refined / approx`
/// is at least 0.6 and below 1.5, the correction returns `refined`.
pub proof fn lemma_harmonic_fundamental_unchanged(refined: int, approx: int, tolerance: int)
    requires
        0 <= refined,
        0 < approx,
        3 * approx <= 5 * refined,
        2 * refined < 3 * approx,
    ensures
        harmonic_corrected(refined, approx, tolerance) == refined,
{
    assert(harmonic_number(refined, approx) <= 1) by (nonlinear_arith)
        requires
            0 <= refined,
            0 < approx,
            2 * refined < 3 * approx,
            harmonic_number(refined, approx) == (2 * refined + approx) / (2 * approx),
    ;
}

/// The correction settles: applied to its own result, with the same
/// estimate, it changes nothing.
pub proof fn lemma_harmonic_settles(refined: int, approx: int, tolerance: int)
    requires
        0 <= refined <= u32::MAX,
        0 <= approx <= u32::MAX,
    ensures
        harmonic_corrected(harmonic_corrected(refined, approx, tolerance), approx, tolerance)
            == harmonic_corrected(refined, approx, tolerance),
{
    if approx > 0 {
        let k = harmonic_number(refined, approx);
        let once = harmonic_corrected(refined, approx, tolerance);
        if 2 <= k <= 4 && near_harmonic(refined, approx, k, tolerance) {
            let rest = (2 * refined + approx) % (2 * approx);
            vstd::arithmetic::div_mod::lemma_fundamental_div_mod(2 * refined + approx, 2 * approx);
            assert(2 * refined + approx == k * (2 * approx) + rest && 0 <= rest < 2 * approx)
                by (nonlinear_arith)
                requires
                    2 * refined + approx == (2 * approx) * k + rest,
                    0 <= rest < 2 * approx,
            ;
            assert(once == round_div(refined, k));
            if k == 2 {
                assert(2 * refined + approx == 4 * approx + rest) by (nonlinear_arith)
                    requires
                        2 * refined + approx == k * (2 * approx) + rest,
                        k == 2,
                ;
                assert(once == (2 * refined + 2) / 4);
            } else if k == 3 {
                assert(2 * refined + approx == 6 * approx + rest) by (nonlinear_arith)
                    requires
                        2 * refined + approx == k * (2 * approx) + rest,
                        k == 3,
                ;
                assert(once == (2 * refined + 3) / 6);
            } else {
                assert(k == 4);
                assert(2 * refined + approx == 8 * approx + rest) by (nonlinear_arith)
                    requires
                        2 * refined + approx == k * (2 * approx) + rest,
                        k == 4,
                ;
                assert(once == (2 * refined + 4) / 8);
            }
            assert(3 * approx <= 5 * once && 2 * once < 3 * approx);
            lemma_harmonic_fundamental_unchanged(once, approx, tolerance);
        } else if near_half(refined, approx) {
            lemma_harmonic_fundamental_unchanged(once, approx, tolerance);
        }
    }
}

/// The absolute value of an interval.
pub open spec fn magnitude(x: int) -> int {
    if x < 0 {
        -x
    } else {
        x
    }
}

/// `detected` moved by an octave toward `expected`.
///
/// With `direct`, `above` and `below` the distances in thousandths of a cent
/// of `detected` from `expected`, from twice `expected` and from half of
/// `expected`: when `above` is at most `tolerance` and smaller than `direct`,
/// the result is half of `detected`, rounded down; otherwise, when `below`
/// is at most `tolerance` and smaller than `direct`, it is twice `detected`,
/// at most the largest `u32`; otherwise it is `detected`. It is `detected`
/// too when either frequency is zero.
pub open spec fn octave_corrected(detected: int, expected: int, tolerance: int) -> int {
    if expected <= 0 || detected <= 0 {
        detected
    } else {
        let direct = magnitude(cents(detected, expected));
        let above = magnitude(cents(detected, 2 * expected));
        let below = magnitude(cents(2 * detected, expected));
        if above <= tolerance && above < direct {
            detected / 2
        } else if below <= tolerance && below < direct {
            if 2 * detected > u32::MAX {
                u32::MAX as int
            } else {
                2 * detected
            }
        } else {
            detected
        }
    }
}

fn interval_size(f: u64, g: u64) -> (m: u32)
    requires
        f > 0,
        g > 0,
    ensures
        m == magnitude(cents(f as int, g as int)),
{
    let c: i32 = cents_between(f, g);
    if c < 0 {
        (-(c as i64)) as u32
    } else {
        c as u32
    }
}

/// Moves `detected` by an octave when that brings it within `tolerance`
/// thousandths of a cent of `expected` and nearer than it was.
pub fn octave_correct(detected: u32, expected: u32, tolerance: u32) -> (r: u32)
    ensures
        r == octave_corrected(detected as int, expected as int, tolerance as int),
{
    if expected == 0 || detected == 0 {
        return detected;
    }
    let d: u64 = detected as u64;
    let e: u64 = expected as u64;
    let direct: u32 = interval_size(d, e);
    let above: u32 = interval_size(d, 2 * e);
    let below: u32 = interval_size(2 * d, e);
    if above <= tolerance && above < direct {
        detected / 2
    } else if below <= tolerance && below < direct {
        if 2 * d > u32::MAX as u64 {
            u32::MAX
        } else {
            (2 * d) as u32
        }
    } else {
        detected
    }
}

/// An estimate one octave above the expected frequency is brought down to
/// it, whatever the tolerance.
pub proof fn lemma_octave_above_corrected(expected: int, tolerance: int)
    requires
        expected > 0,
        tolerance >= 0,
    ensures
        octave_corrected(2 * expected, expected, tolerance) == expected,
{
    lemma_cents_unison(2 * expected);
    lemma_cents_octave_above(expected);
}

/// An estimate one octave below an even expected frequency is brought up
/// to it, whatever the tolerance.
pub proof fn lemma_octave_below_corrected(expected: int, tolerance: int)
    requires
        expected > 0,
        expected % 2 == 0,
        expected <= u32::MAX,
        tolerance >= 0,
    ensures
        octave_corrected(expected / 2, expected, tolerance) == expected,
{
    let half = expected / 2;
    lemma_cents_octave_below(half);
    lemma_cents_two_octaves_below(half);
    lemma_cents_unison(expected);
}

/// An estimate within the tolerance of twice the expected frequency is
/// halved, for every tolerance below half an octave.
pub proof fn lemma_near_octave_above_halved(detected: int, expected: int, tolerance: int)
    requires
        detected > 0,
        expected > 0,
        magnitude(cents(detected, 2 * expected)) <= tolerance < 600_000,
    ensures
        octave_corrected(detected, expected, tolerance) == detected / 2,
{
    crate::cents::lemma_cents_octave_shift(detected, expected);
}

/// An even estimate within the tolerance of twice the expected frequency
/// comes out as far from the expected frequency as it was from the double:
/// within the tolerance.
pub proof fn lemma_halved_within_tolerance(detected: int, expected: int, tolerance: int)
    requires
        detected > 0,
        detected % 2 == 0,
        expected > 0,
        magnitude(cents(detected, 2 * expected)) <= tolerance < 600_000,
    ensures
        cents(octave_corrected(detected, expected, tolerance), expected) == cents(
            detected,
            2 * expected,
        ),
        magnitude(cents(octave_corrected(detected, expected, tolerance), expected)) <= tolerance,
{
    lemma_near_octave_above_halved(detected, expected, tolerance);
    crate::cents::lemma_cents_scaled(detected / 2, expected, 2);
}

/// An estimate at the expected frequency is left alone.
pub proof fn lemma_octave_exact_unchanged(expected: int, tolerance: int)
    requires
        expected > 0,
    ensures
        octave_corrected(expected, expected, tolerance) == expected,
{
    lemma_cents_unison(expected);
    lemma_cents_octave_above(expected);
    lemma_cents_octave_below(expected);
}

} // verus!
