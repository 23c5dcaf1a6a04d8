//! Pitch intervals in thousandths of a cent, from a fixed-point binary
//! logarithm of the ratio of two frequencies.
//!
//! The logarithm is the sum of the octave, the whole number of doublings
//! between the two frequencies, and of 24 binary digits of the fraction,
//! each found by squaring the ratio's mantissa.
use crate::fixed::div_floor;
use vstd::arithmetic::power2::{
    lemma2_to64,
    lemma_pow2_pos,
    lemma_pow2_strictly_increases,
    lemma_pow2_unfold,
    pow2,
};
use vstd::prelude::*;

verus! {

/// One octave, in thousandths of a cent.
pub const OCTAVE_MILLICENTS: i32 = 1_200_000;

/// The mantissa value that stands for one: two to the power of 60.
pub const MANTISSA_ONE: u128 = 0x1000_0000_0000_0000;

/// The number of binary digits kept of the logarithm's fraction.
pub const FRACTION_BITS: u32 = 24;

/// Two to the power of `FRACTION_BITS`.
pub const FRACTION_ONE: i64 = 0x100_0000;

/// Whether `f / g` lies between two to the power of `e` and twice that:
/// whether `e` is the floor of the binary logarithm of `f / g`.
pub open spec fn is_octave(f: int, g: int, e: int) -> bool {
    if e >= 0 {
        g * pow2(e as nat) <= f < 2 * (g * pow2(e as nat))
    } else {
        g <= f * pow2((-e) as nat) < 2 * g
    }
}

/// The floor of the binary logarithm of `f / g`, for positive `f` and `g`.
pub open spec fn octave(f: int, g: int) -> int {
    choose|e: int| is_octave(f, g, e)
}

/// `f / g` divided by two to the power of its octave, as a multiple of
/// `1 / MANTISSA_ONE`, rounded down: a value from one up to two.
pub open spec fn mantissa(f: int, g: int) -> int {
    let e = octave(f, g);
    if e >= 0 {
        (f * MANTISSA_ONE) / (g * pow2(e as nat))
    } else {
        (f * pow2((-e) as nat) * MANTISSA_ONE) / g
    }
}

/// The digits in `digits` followed by the first `bits` binary digits of the
/// binary logarithm of the mantissa `m`. Squaring a mantissa doubles its
/// logarithm, so the next digit is one exactly when the square reaches two.
pub open spec fn fraction_digits(m: int, bits: nat, digits: int) -> int
    decreases bits,
{
    if bits == 0 {
        digits
    } else {
        let square = (m * m) / (MANTISSA_ONE as int);
        if square >= 2 * MANTISSA_ONE {
            fraction_digits(square / 2, (bits - 1) as nat, 2 * digits + 1)
        } else {
            fraction_digits(square, (bits - 1) as nat, 2 * digits)
        }
    }
}

/// The binary logarithm of `f / g` as a multiple of `1 / FRACTION_ONE`.
pub open spec fn log2_fixed(f: int, g: int) -> int {
    octave(f, g) * FRACTION_ONE + fraction_digits(mantissa(f, g), FRACTION_BITS as nat, 0)
}

/// The interval from `g` up to `f` in thousandths of a cent, rounded down.
pub open spec fn cents(f: int, g: int) -> int {
    (OCTAVE_MILLICENTS * log2_fixed(f, g)) / (FRACTION_ONE as int)
}

/// A ratio has one octave only.
pub proof fn lemma_octave_unique(f: int, g: int, a: int, b: int)
    requires
        f > 0,
        g > 0,
        is_octave(f, g, a),
        is_octave(f, g, b),
    ensures
        a == b,
{
    if a < b {
        lemma_octave_ordered(f, g, a, b);
    } else if b < a {
        lemma_octave_ordered(f, g, b, a);
    }
}

proof fn lemma_octave_ordered(f: int, g: int, a: int, b: int)
    requires
        f > 0,
        g > 0,
        a < b,
        is_octave(f, g, a),
    ensures
        !is_octave(f, g, b),
{
    if !is_octave(f, g, b) {
    } else if a >= 0 {
        let pa = pow2(a as nat) as int;
        let pb = pow2(b as nat) as int;
        lemma_pow2_strictly_increases(a as nat, (b - 1) as nat + 1);
        if a + 1 < b {
            lemma_pow2_strictly_increases((a + 1) as nat, b as nat);
        }
        lemma_pow2_unfold((a + 1) as nat);
        assert(pb >= 2 * pa);
        assert(g * pb >= 2 * (g * pa)) by (nonlinear_arith)
            requires
                g > 0,
                pb >= 2 * pa,
        ;
    } else if b >= 0 {
        let pa = pow2((-a) as nat) as int;
        let pb = pow2(b as nat) as int;
        lemma_pow2_pos(b as nat);
        lemma_pow2_pos((-a - 1) as nat);
        lemma_pow2_unfold((-a) as nat);
        assert(pa >= 2);
        assert(g * pb >= g) by (nonlinear_arith)
            requires
                g > 0,
                pb >= 1,
        ;
        assert(f * pa >= 2 * f) by (nonlinear_arith)
            requires
                f > 0,
                pa >= 2,
        ;
    } else {
        let pa = pow2((-a) as nat) as int;
        let pb = pow2((-b) as nat) as int;
        if -b + 1 < -a {
            lemma_pow2_strictly_increases((-b + 1) as nat, (-a) as nat);
        }
        lemma_pow2_unfold((-b + 1) as nat);
        assert(pa >= 2 * pb);
        assert(f * pa >= 2 * (f * pb)) by (nonlinear_arith)
            requires
                f > 0,
                pa >= 2 * pb,
        ;
    }
}

/// Every ratio of positive numbers has an octave: one that is not negative
/// for a ratio of at least one, and a negative one for a smaller ratio.
pub proof fn lemma_octave_exists(f: int, g: int) -> (e: int)
    requires
        f > 0,
        g > 0,
    ensures
        is_octave(f, g, e),
        octave(f, g) == e,
        f >= g <==> e >= 0,
    decreases
            (if f >= g {
                f - g
            } else {
                g - f
            }),
{
    lemma2_to64();
    let e = if f >= g {
        if f < 2 * g {
            assert(g * pow2(0) == g) by (nonlinear_arith)
                requires
                    pow2(0) == 1,
            ;
            0int
        } else {
            let below = lemma_octave_exists(f, 2 * g);
            lemma_pow2_unfold((below + 1) as nat);
            assert(g * pow2((below + 1) as nat) == (2 * g) * pow2(below as nat))
                by (nonlinear_arith)
                requires
                    pow2((below + 1) as nat) == 2 * pow2(below as nat),
            ;
            below + 1
        }
    } else {
        if 2 * f >= g {
            assert(f * pow2(1) == 2 * f) by (nonlinear_arith)
                requires
                    pow2(1) == 2,
            ;
            -1int
        } else {
            let above = lemma_octave_exists(2 * f, g);
            lemma_pow2_unfold((-above + 1) as nat);
            assert(f * pow2((-above + 1) as nat) == (2 * f) * pow2((-above) as nat))
                by (nonlinear_arith)
                requires
                    pow2((-above + 1) as nat) == 2 * pow2((-above) as nat),
            ;
            above - 1
        }
    };
    lemma_octave_is(f, g, e);
    e
}

/// The octave grows with the first frequency.
pub proof fn lemma_octave_monotone(f1: int, f2: int, g: int)
    requires
        0 < f1 <= f2,
        0 < g,
    ensures
        octave(f1, g) <= octave(f2, g),
{
    let e1 = lemma_octave_exists(f1, g);
    let e2 = lemma_octave_exists(f2, g);
    if e1 > e2 {
        if e2 >= 0 {
            let p1 = pow2(e1 as nat) as int;
            let p2 = pow2(e2 as nat) as int;
            if e2 + 1 < e1 {
                lemma_pow2_strictly_increases((e2 + 1) as nat, e1 as nat);
            }
            lemma_pow2_unfold((e2 + 1) as nat);
            assert(p1 >= 2 * p2);
            assert(g * p1 >= 2 * (g * p2)) by (nonlinear_arith)
                requires
                    g > 0,
                    p1 >= 2 * p2,
            ;
        } else if e1 >= 0 {
            // A ratio of at least one has no negative octave.
        } else {
            let p1 = pow2((-e1) as nat) as int;
            let p2 = pow2((-e2) as nat) as int;
            if -e1 + 1 < -e2 {
                lemma_pow2_strictly_increases((-e1 + 1) as nat, (-e2) as nat);
            }
            lemma_pow2_unfold((-e1 + 1) as nat);
            assert(p2 >= 2 * p1);
            assert(f2 * p2 >= 2 * (f1 * p1)) by (nonlinear_arith)
                requires
                    0 < f1 <= f2,
                    p2 >= 2 * p1,
                    p1 >= 0,
            ;
        }
    }
}

/// Within one octave the mantissa grows with the first frequency.
pub proof fn lemma_mantissa_monotone(f1: int, f2: int, g: int)
    requires
        0 < f1 <= f2,
        0 < g,
        octave(f1, g) == octave(f2, g),
    ensures
        0 <= mantissa(f1, g) <= mantissa(f2, g),
{
    let e = octave(f1, g);
    let one = MANTISSA_ONE as int;
    if e >= 0 {
        let d = g * pow2(e as nat);
        lemma_pow2_pos(e as nat);
        assert(d > 0) by (nonlinear_arith)
            requires
                d == g * pow2(e as nat),
                g > 0,
                pow2(e as nat) > 0,
        ;
        assert(0 <= f1 * one <= f2 * one) by (nonlinear_arith)
            requires
                0 < f1 <= f2,
                one > 0,
        ;
        vstd::arithmetic::div_mod::lemma_div_is_ordered(f1 * one, f2 * one, d);
        vstd::arithmetic::div_mod::lemma_div_is_ordered(0, f1 * one, d);
    } else {
        let p = pow2((-e) as nat) as int;
        lemma_pow2_pos((-e) as nat);
        assert(0 <= f1 * p * one <= f2 * p * one) by (nonlinear_arith)
            requires
                0 < f1 <= f2,
                p > 0,
                one > 0,
        ;
        vstd::arithmetic::div_mod::lemma_div_is_ordered(f1 * p * one, f2 * p * one, g);
        vstd::arithmetic::div_mod::lemma_div_is_ordered(0, f1 * p * one, g);
    }
}

/// The fraction digits grow with the mantissa.
pub proof fn lemma_fraction_monotone(m1: int, m2: int, bits: nat, digits: int)
    requires
        0 <= m1 <= m2,
        digits >= 0,
    ensures
        fraction_digits(m1, bits, digits) <= fraction_digits(m2, bits, digits),
    decreases bits,
{
    if bits > 0 {
        let one = MANTISSA_ONE as int;
        assert(0 <= m1 * m1 <= m2 * m2) by (nonlinear_arith)
            requires
                0 <= m1 <= m2,
        ;
        vstd::arithmetic::div_mod::lemma_div_is_ordered(m1 * m1, m2 * m2, one);
        vstd::arithmetic::div_mod::lemma_div_is_ordered(0, m1 * m1, one);
        let s1 = (m1 * m1) / one;
        let s2 = (m2 * m2) / one;
        let rest = (bits - 1) as nat;
        if s1 >= 2 * one {
            lemma_fraction_monotone(s1 / 2, s2 / 2, rest, 2 * digits + 1);
        } else if s2 >= 2 * one {
            lemma_fraction_range(s1, rest, 2 * digits);
            lemma_fraction_range(s2 / 2, rest, 2 * digits + 1);
        } else {
            lemma_fraction_monotone(s1, s2, rest, 2 * digits);
        }
    }
}

/// An interval grows with its upper frequency: of two frequencies the
/// higher one is no fewer cents above a third.
pub proof fn lemma_cents_monotone(f1: int, f2: int, g: int)
    requires
        0 < f1 <= f2,
        0 < g,
    ensures
        cents(f1, g) <= cents(f2, g),
{
    lemma_octave_monotone(f1, f2, g);
    let e1 = octave(f1, g);
    let e2 = octave(f2, g);
    if e1 < e2 {
        lemma_cents_within_octave(f1, g);
        lemma_cents_within_octave(f2, g);
        assert(OCTAVE_MILLICENTS * (e1 + 1) <= OCTAVE_MILLICENTS * e2) by (nonlinear_arith)
            requires
                e1 + 1 <= e2,
                OCTAVE_MILLICENTS == 1_200_000,
        ;
    } else {
        lemma_mantissa_monotone(f1, f2, g);
        lemma_fraction_monotone(mantissa(f1, g), mantissa(f2, g), FRACTION_BITS as nat, 0);
        let l1 = log2_fixed(f1, g);
        let l2 = log2_fixed(f2, g);
        assert(l1 <= l2);
        assert(1_200_000 * l1 <= 1_200_000 * l2);
    }
}

/// An interval depends on the ratio alone: scaling both frequencies by the
/// same factor leaves it as it is.
pub proof fn lemma_cents_scaled(f: int, g: int, k: int)
    requires
        f > 0,
        g > 0,
        k > 0,
    ensures
        cents(k * f, k * g) == cents(f, g),
{
    let one = MANTISSA_ONE as int;
    let e = lemma_octave_exists(f, g);
    assert(k * f > 0 && k * g > 0) by (nonlinear_arith)
        requires
            f > 0,
            g > 0,
            k > 0,
    ;
    if e >= 0 {
        let p = pow2(e as nat) as int;
        lemma_pow2_pos(e as nat);
        assert((k * g) * p == k * (g * p) && (k * f) * one == k * (f * one) && g * p > 0)
            by (nonlinear_arith)
            requires
                g > 0,
                p > 0,
        ;
        assert(k * (g * p) <= k * f < 2 * (k * (g * p))) by (nonlinear_arith)
            requires
                g * p <= f < 2 * (g * p),
                k > 0,
        ;
        lemma_octave_is(k * f, k * g, e);
        vstd::arithmetic::div_mod::lemma_div_multiples_vanish_quotient(k, f * one, g * p);
    } else {
        let p = pow2((-e) as nat) as int;
        assert((k * f) * p == k * (f * p) && (k * f) * p * one == k * (f * p * one))
            by (nonlinear_arith);
        assert(k * g <= k * (f * p) < 2 * (k * g)) by (nonlinear_arith)
            requires
                g <= f * p < 2 * g,
                k > 0,
        ;
        lemma_octave_is(k * f, k * g, e);
        vstd::arithmetic::div_mod::lemma_div_multiples_vanish_quotient(k, f * p * one, g);
    }
    assert(mantissa(k * f, k * g) == mantissa(f, g));
}

/// Halving the lower frequency adds one octave to the interval, exactly.
pub proof fn lemma_cents_octave_shift(f: int, g: int)
    requires
        f > 0,
        g > 0,
    ensures
        cents(f, g) == cents(f, 2 * g) + OCTAVE_MILLICENTS,
{
    lemma2_to64();
    let one = MANTISSA_ONE as int;
    let o = lemma_octave_exists(f, 2 * g);
    if o >= 0 {
        lemma_pow2_unfold((o + 1) as nat);
        assert(g * pow2((o + 1) as nat) == (2 * g) * pow2(o as nat)) by (nonlinear_arith)
            requires
                pow2((o + 1) as nat) == 2 * pow2(o as nat),
        ;
        lemma_octave_is(f, g, o + 1);
    } else if o == -1 {
        assert(f * pow2(1) == 2 * f && g * pow2(0) == g) by (nonlinear_arith)
            requires
                pow2(1) == 2,
                pow2(0) == 1,
        ;
        lemma_octave_is(f, g, 0);
        assert(f * pow2(1) * one == 2 * (f * one)) by (nonlinear_arith)
            requires
                pow2(1) == 2,
        ;
        vstd::arithmetic::div_mod::lemma_div_multiples_vanish_quotient(2, f * one, g);
    } else {
        let p = pow2((-o - 1) as nat) as int;
        lemma_pow2_unfold((-o) as nat);
        assert(f * pow2((-o) as nat) == 2 * (f * p)) by (nonlinear_arith)
            requires
                pow2((-o) as nat) == 2 * p,
        ;
        lemma_octave_is(f, g, o + 1);
        assert(f * pow2((-o) as nat) * one == 2 * (f * p * one)) by (nonlinear_arith)
            requires
                pow2((-o) as nat) == 2 * p,
        ;
        vstd::arithmetic::div_mod::lemma_div_multiples_vanish_quotient(2, f * p * one, g);
    }
    assert(octave(f, g) == o + 1);
    assert(mantissa(f, g) == mantissa(f, 2 * g));
    let lower = log2_fixed(f, 2 * g);
    assert(log2_fixed(f, g) == lower + 0x100_0000);
    assert((1_200_000 * (lower + 0x100_0000)) / 0x100_0000 == (1_200_000 * lower) / 0x100_0000
        + 1_200_000);
}

/// An exponent that passes `is_octave` is the value of `octave`.
pub proof fn lemma_octave_is(f: int, g: int, e: int)
    requires
        f > 0,
        g > 0,
        is_octave(f, g, e),
    ensures
        octave(f, g) == e,
{
    lemma_octave_unique(f, g, octave(f, g), e);
}

/// Fraction digits extend the digits before them: the result lies in the
/// range of the numbers that begin with `digits`.
pub proof fn lemma_fraction_range(m: int, bits: nat, digits: int)
    requires
        digits >= 0,
    ensures
        digits * pow2(bits) <= fraction_digits(m, bits, digits) < (digits + 1) * pow2(bits),
    decreases bits,
{
    if bits == 0 {
        lemma2_to64();
    } else {
        let square = (m * m) / (MANTISSA_ONE as int);
        let half = pow2((bits - 1) as nat) as int;
        lemma_pow2_unfold(bits);
        if square >= 2 * MANTISSA_ONE {
            lemma_fraction_range(square / 2, (bits - 1) as nat, 2 * digits + 1);
            assert(digits * (2 * half) <= (2 * digits + 1) * half && (2 * digits + 2) * half == (
            digits + 1) * (2 * half)) by (nonlinear_arith)
                requires
                    half >= 0,
                    digits >= 0,
            ;
        } else {
            lemma_fraction_range(square, (bits - 1) as nat, 2 * digits);
            assert(digits * (2 * half) == (2 * digits) * half && (2 * digits + 1) * half <= (digits
                + 1) * (2 * half)) by (nonlinear_arith)
                requires
                    half >= 0,
                    digits >= 0,
            ;
        }
    }
}

/// An interval lies within the octave of its ratio: between the octave's
/// number of whole octaves and one octave more.
pub proof fn lemma_cents_within_octave(f: int, g: int)
    ensures
        OCTAVE_MILLICENTS * octave(f, g) <= cents(f, g) < OCTAVE_MILLICENTS * (octave(f, g) + 1),
{
    lemma2_to64();
    lemma_fraction_range(mantissa(f, g), FRACTION_BITS as nat, 0);
    let e = octave(f, g);
    let fraction = fraction_digits(mantissa(f, g), FRACTION_BITS as nat, 0);
    assert(0 <= fraction < 0x100_0000) by (nonlinear_arith)
        requires
            0 * pow2(24) <= fraction < (0 + 1) * pow2(24),
            pow2(24) == 0x100_0000,
    ;
    let log2 = e * 0x100_0000 + fraction;
    assert(log2_fixed(f, g) == log2);
    assert(1_200_000 * (e * 0x100_0000) <= 1_200_000 * log2 < 1_200_000 * ((e + 1) * 0x100_0000));
    assert((1_200_000 * e) * 0x100_0000 == 1_200_000 * (e * 0x100_0000));
    assert((1_200_000 * (e + 1)) * 0x100_0000 == 1_200_000 * ((e + 1) * 0x100_0000));
}

/// The logarithm of exactly one has no fraction digits.
pub proof fn lemma_fraction_of_one(bits: nat, digits: int)
    ensures
        fraction_digits(MANTISSA_ONE as int, bits, digits) == digits * pow2(bits),
    decreases bits,
{
    if bits == 0 {
        lemma2_to64();
    } else {
        assert((MANTISSA_ONE as int * MANTISSA_ONE as int) / (MANTISSA_ONE as int)
            == MANTISSA_ONE as int) by (nonlinear_arith);
        lemma_fraction_of_one((bits - 1) as nat, 2 * digits);
        lemma_pow2_unfold(bits);
        assert((2 * digits) * pow2((bits - 1) as nat) == digits * (2 * pow2((bits - 1) as nat)))
            by (nonlinear_arith);
    }
}

/// A frequency is zero cents from itself.
pub proof fn lemma_cents_unison(f: int)
    requires
        f > 0,
    ensures
        cents(f, f) == 0,
{
    lemma2_to64();
    assert(f * pow2(0) == f) by (nonlinear_arith)
        requires
            pow2(0) == 1,
    ;
    lemma_octave_is(f, f, 0);
    assert((f * MANTISSA_ONE) / (f * pow2(0)) == MANTISSA_ONE) by (nonlinear_arith)
        requires
            f > 0,
            pow2(0) == 1,
    ;
    lemma_fraction_of_one(FRACTION_BITS as nat, 0);
    assert(0 * pow2(FRACTION_BITS as nat) == 0) by (nonlinear_arith);
}

/// Twice a frequency is one octave above it.
pub proof fn lemma_cents_octave_above(f: int)
    requires
        f > 0,
    ensures
        cents(2 * f, f) == OCTAVE_MILLICENTS,
{
    lemma2_to64();
    assert(f * pow2(1) == 2 * f) by (nonlinear_arith)
        requires
            pow2(1) == 2,
    ;
    lemma_octave_is(2 * f, f, 1);
    assert(((2 * f) * MANTISSA_ONE) / (f * pow2(1)) == MANTISSA_ONE) by (nonlinear_arith)
        requires
            f > 0,
            pow2(1) == 2,
    ;
    lemma_fraction_of_one(FRACTION_BITS as nat, 0);
    assert(0 * pow2(FRACTION_BITS as nat) == 0) by (nonlinear_arith);
}

/// Half a frequency is one octave below it.
pub proof fn lemma_cents_octave_below(f: int)
    requires
        f > 0,
    ensures
        cents(f, 2 * f) == -OCTAVE_MILLICENTS,
{
    lemma2_to64();
    assert(f * pow2(1) == 2 * f) by (nonlinear_arith)
        requires
            pow2(1) == 2,
    ;
    lemma_octave_is(f, 2 * f, -1);
    assert((f * pow2(1) * MANTISSA_ONE) / (2 * f) == MANTISSA_ONE) by (nonlinear_arith)
        requires
            f > 0,
            pow2(1) == 2,
    ;
    lemma_fraction_of_one(FRACTION_BITS as nat, 0);
    assert(0 * pow2(FRACTION_BITS as nat) == 0) by (nonlinear_arith);
}

/// A quarter of a frequency is two octaves below it.
pub proof fn lemma_cents_two_octaves_below(f: int)
    requires
        f > 0,
    ensures
        cents(f, 4 * f) == -2 * OCTAVE_MILLICENTS,
{
    lemma2_to64();
    assert(f * pow2(2) == 4 * f) by (nonlinear_arith)
        requires
            pow2(2) == 4,
    ;
    lemma_octave_is(f, 4 * f, -2);
    assert((f * pow2(2) * MANTISSA_ONE) / (4 * f) == MANTISSA_ONE) by (nonlinear_arith)
        requires
            f > 0,
            pow2(2) == 4,
    ;
    lemma_fraction_of_one(FRACTION_BITS as nat, 0);
    assert(0 * pow2(FRACTION_BITS as nat) == 0) by (nonlinear_arith);
}

/// The octave of `f / g` and its mantissa.
fn split_ratio(f: u64, g: u64) -> (r: (i64, u128))
    requires
        f > 0,
        g > 0,
    ensures
        r.0 == octave(f as int, g as int),
        -64 <= r.0 <= 64,
        r.1 == mantissa(f as int, g as int),
        MANTISSA_ONE <= r.1 < 2 * MANTISSA_ONE,
{
    let mut a: u128 = f as u128;
    let mut b: u128 = g as u128;
    let mut e: i64 = 0;
    proof {
        lemma2_to64();
    }
    if f >= g {
        let mut up: u32 = 0;
        while a >= 2 * b
            invariant
                a == f,
                b == g * pow2(up as nat),
                1 <= b <= a,
                up <= 64,
                g > 0,
            decreases a - b,
        {
            proof {
                lemma2_to64();
                lemma_pow2_unfold((up + 1) as nat);
                lemma_pow2_pos(up as nat);
                assert(g * pow2((up + 1) as nat) == 2 * (g * pow2(up as nat)))
                    by (nonlinear_arith)
                    requires
                        pow2((up + 1) as nat) == 2 * pow2(up as nat),
                ;
                assert(g * pow2(up as nat) >= pow2(up as nat)) by (nonlinear_arith)
                    requires
                        g >= 1,
                ;
                if up > 64 {
                    lemma_pow2_strictly_increases(64, up as nat);
                }
                assert(up < 64);
            }
            b = 2 * b;
            up = up + 1;
        }
        e = up as i64;
        proof {
            lemma_octave_is(f as int, g as int, up as int);
        }
    } else {
        let mut down: u32 = 0;
        while a < b
            invariant
                b == g,
                a == f * pow2(down as nat),
                1 <= a < 2 * b,
                down == 0 ==> a < b,
                down <= 64,
                f > 0,
            decreases 64 - down,
        {
            proof {
                lemma2_to64();
                lemma_pow2_unfold((down + 1) as nat);
                lemma_pow2_pos(down as nat);
                assert(f * pow2((down + 1) as nat) == 2 * (f * pow2(down as nat)))
                    by (nonlinear_arith)
                    requires
                        pow2((down + 1) as nat) == 2 * pow2(down as nat),
                ;
                assert(f * pow2(down as nat) >= pow2(down as nat)) by (nonlinear_arith)
                    requires
                        f >= 1,
                ;
                if down > 64 {
                    lemma_pow2_strictly_increases(64, down as nat);
                }
                assert(down < 64);
            }
            a = 2 * a;
            down = down + 1;
        }
        e = -(down as i64);
        proof {
            lemma_octave_is(f as int, g as int, -(down as int));
        }
    }
    assert(a * MANTISSA_ONE < 0x1_0000_0000_0000_0000_0000_0000_0000_0000) by (nonlinear_arith)
        requires
            a < 0x2_0000_0000_0000_0000,
            MANTISSA_ONE == 0x1000_0000_0000_0000,
    ;
    let m: u128 = (a * MANTISSA_ONE) / b;
    assert(MANTISSA_ONE <= (a * MANTISSA_ONE) / (b as int) < 2 * MANTISSA_ONE) by (nonlinear_arith)
        requires
            0 < b <= a < 2 * b,
            MANTISSA_ONE == 0x1000_0000_0000_0000,
    ;
    (e, m)
}

/// The interval from `g` up to `f` in thousandths of a cent, rounded down.
pub fn cents_between(f: u64, g: u64) -> (c: i32)
    requires
        f > 0,
        g > 0,
    ensures
        c == cents(f as int, g as int),
{
    let (e, first) = split_ratio(f, g);
    let mut m: u128 = first;
    let mut digits: i64 = 0;
    let mut limit: i64 = 1;
    let mut i: u32 = 0;
    proof {
        lemma2_to64();
    }
    while i < FRACTION_BITS
        invariant
            i <= FRACTION_BITS,
            MANTISSA_ONE <= m < 2 * MANTISSA_ONE,
            limit == pow2(i as nat),
            0 <= digits < limit,
            limit <= 0x100_0000,
            fraction_digits(first as int, FRACTION_BITS as nat, 0) == fraction_digits(
                m as int,
                (FRACTION_BITS - i) as nat,
                digits as int,
            ),
        decreases FRACTION_BITS - i,
    {
        assert(MANTISSA_ONE * MANTISSA_ONE <= m * m < 4 * (MANTISSA_ONE * MANTISSA_ONE))
            by (nonlinear_arith)
            requires
                MANTISSA_ONE <= m < 2 * MANTISSA_ONE,
        ;
        assert(MANTISSA_ONE * MANTISSA_ONE == 0x100_0000_0000_0000_0000_0000_0000_0000)
            by (nonlinear_arith)
            requires
                MANTISSA_ONE == 0x1000_0000_0000_0000,
        ;
        let square: u128 = (m * m) / MANTISSA_ONE;
        proof {
            lemma2_to64();
            lemma_pow2_unfold((i + 1) as nat);
            if i + 1 < 24 {
                lemma_pow2_strictly_increases((i + 1) as nat, 24);
            }
        }
        if square >= 2 * MANTISSA_ONE {
            m = square / 2;
            digits = 2 * digits + 1;
        } else {
            m = square;
            digits = 2 * digits;
        }
        limit = 2 * limit;
        i = i + 1;
    }
    let log2: i64 = e * FRACTION_ONE + digits;
    let scaled: i128 = (OCTAVE_MILLICENTS as i128) * (log2 as i128);
    let c: i128 = div_floor(scaled, FRACTION_ONE as i128);
    c as i32
}

} // verus!
