//! Cosine and sine of a binary angle in fixed point.
//!
//! An angle is a `u32` in which the whole range stands for one turn. Values
//! are multiples of `1 / TRIG_ONE`. An angle is folded into the first
//! eighth of a turn, where both functions are evaluated as Taylor
//! polynomials in Horner form, every division rounded down.
use vstd::prelude::*;

verus! {

/// The value that stands for one: two to the power of 30.
pub const TRIG_ONE: i64 = 0x4000_0000;

/// A quarter of a turn as a binary angle.
pub const QUARTER_TURN: u32 = 0x4000_0000;

/// A quarter of a turn in radians, as a multiple of `1 / TRIG_ONE`.
pub const HALF_PI: i64 = 1_686_629_713;

/// One Horner step: `1 - y * t / c`.
pub open spec fn horner(y: int, t: int, c: int) -> int {
    TRIG_ONE - ((y * t) / (TRIG_ONE as int)) / c
}

/// The radians of `r` in `2^30`-ths of a quarter turn.
pub open spec fn radians(r: int) -> int {
    (r * HALF_PI) / (TRIG_ONE as int)
}

/// The square of `x`.
pub open spec fn squared(x: int) -> int {
    (x * x) / (TRIG_ONE as int)
}

/// The cosine polynomial of degree ten in `x`, given `y`, the square of
/// `x`.
pub open spec fn cos_poly(y: int) -> int {
    horner(y, horner(y, horner(y, horner(y, horner(y, TRIG_ONE as int, 90), 56), 30), 12), 2)
}

/// The sine polynomial of degree eleven in `x`, given `y`, the square of
/// `x`.
pub open spec fn sin_poly(x: int, y: int) -> int {
    (x * horner(y, horner(y, horner(y, horner(y, horner(y, TRIG_ONE as int, 110), 72), 42), 20), 6))
        / (TRIG_ONE as int)
}

/// Cosine and sine of `r` in `2^30`-ths of a quarter turn, for `r` up to
/// a quarter turn. Past an eighth of a turn the complementary angle is
/// evaluated and the two values change places.
pub open spec fn quadrant_cos_sin(r: int) -> (int, int) {
    if 2 * r <= QUARTER_TURN {
        let x = radians(r);
        (cos_poly(squared(x)), sin_poly(x, squared(x)))
    } else {
        let x = radians(QUARTER_TURN - r);
        (sin_poly(x, squared(x)), cos_poly(squared(x)))
    }
}

/// Cosine and sine of the binary angle `phase`.
pub open spec fn cos_sin(phase: int) -> (int, int) {
    let quadrant = phase / (QUARTER_TURN as int);
    let (c, s) = quadrant_cos_sin(phase % (QUARTER_TURN as int));
    if quadrant == 0 {
        (c, s)
    } else if quadrant == 1 {
        (-s, c)
    } else if quadrant == 2 {
        (-c, -s)
    } else {
        (s, -c)
    }
}

/// The cosine of the binary angle `phase`.
pub open spec fn cosine(phase: int) -> int {
    cos_sin(phase).0
}

/// The sine of the binary angle `phase`.
pub open spec fn sine(phase: int) -> int {
    cos_sin(phase).1
}

/// A Horner step keeps a value between zero and one there.
pub proof fn lemma_horner_range(y: int, t: int, c: int)
    requires
        0 <= y <= TRIG_ONE,
        0 <= t <= TRIG_ONE,
        c >= 1,
    ensures
        0 <= horner(y, t, c) <= TRIG_ONE,
{
    assert(0 <= y * t <= 0x4000_0000 * 0x4000_0000) by (nonlinear_arith)
        requires
            0 <= y <= 0x4000_0000,
            0 <= t <= 0x4000_0000,
    ;
    let p = (y * t) / 0x4000_0000;
    assert(0 <= p <= 0x4000_0000);
    assert(0 <= p / c <= p) by (nonlinear_arith)
        requires
            0 <= p,
            c >= 1,
    ;
}

/// The rounding of one Horner step costs less than two units: the step lies
/// from `1 - y t / c` up to two units above it.
pub proof fn lemma_horner_bracket(y: int, t: int, c: int)
    requires
        0 <= y <= TRIG_ONE,
        0 <= t <= TRIG_ONE,
        c >= 1,
    ensures
        y * t - 2 * (c * TRIG_ONE) <= (c * TRIG_ONE) * (TRIG_ONE - horner(y, t, c)) <= y * t,
{
    let one = TRIG_ONE as int;
    let p = (y * t) / one;
    let q = p / c;
    vstd::arithmetic::div_mod::lemma_fundamental_div_mod(y * t, one);
    vstd::arithmetic::div_mod::lemma_fundamental_div_mod(p, c);
    let r1 = (y * t) % one;
    let r2 = p % c;
    assert(0 <= y * t) by (nonlinear_arith)
        requires
            0 <= y,
            0 <= t,
    ;
    assert(y * t - 2 * (c * one) <= (c * one) * q <= y * t) by (nonlinear_arith)
        requires
            y * t == one * p + r1,
            0 <= r1 < one,
            p == c * q + r2,
            0 <= r2 < c,
            one > 0,
            c >= 1,
    ;
}

/// The cosine polynomial lies within the classical bounds of the cosine,
/// `1 - x^2 / 2` and `1 - x^2 / 2 + x^4 / 24`, up to two units of rounding.
pub proof fn lemma_cos_bracket(y: int)
    requires
        0 <= y <= TRIG_ONE,
    ensures
        2 * (TRIG_ONE - cos_poly(y)) <= y,
        24 * TRIG_ONE * (TRIG_ONE - cos_poly(y)) >= 12 * TRIG_ONE * y - y * y - 48 * TRIG_ONE,
{
    let one = TRIG_ONE as int;
    lemma_horner_range(y, one, 90);
    let t1 = horner(y, one, 90);
    lemma_horner_range(y, t1, 56);
    let t2 = horner(y, t1, 56);
    lemma_horner_range(y, t2, 30);
    let t3 = horner(y, t2, 30);
    lemma_horner_range(y, t3, 12);
    let t4 = horner(y, t3, 12);
    lemma_horner_bracket(y, t3, 12);
    lemma_horner_bracket(y, t4, 2);
    let c = horner(y, t4, 2);
    assert(cos_poly(y) == c);
    // From above: 2 (1 - c) <= y t4 <= y.
    assert(2 * (one - c) <= y) by (nonlinear_arith)
        requires
            (2 * one) * (one - c) <= y * t4,
            0 <= t4 <= one,
            0 <= y,
            one > 0,
    ;
    // From below: 12 (1 - t4) <= y t3 <= y, so t4 >= 1 - y / 12.
    assert(24 * one * (one - c) >= 12 * one * y - y * y - 48 * one) by (nonlinear_arith)
        requires
            y * t4 - 2 * (2 * one) <= (2 * one) * (one - c),
            (12 * one) * (one - t4) <= y * t3,
            0 <= t3 <= one,
            0 <= y <= one,
            one > 0,
    ;
}

/// The sine polynomial lies within the classical bounds of the sine,
/// `x - x^3 / 6` and `x`, up to three units of rounding.
pub proof fn lemma_sin_bracket(x: int, y: int)
    requires
        0 <= x <= TRIG_ONE,
        0 <= y <= TRIG_ONE,
    ensures
        sin_poly(x, y) <= x,
        6 * TRIG_ONE * (x - sin_poly(x, y)) <= x * y + 18 * TRIG_ONE,
{
    let one = TRIG_ONE as int;
    lemma_horner_range(y, one, 110);
    let t1 = horner(y, one, 110);
    lemma_horner_range(y, t1, 72);
    let t2 = horner(y, t1, 72);
    lemma_horner_range(y, t2, 42);
    let t3 = horner(y, t2, 42);
    lemma_horner_range(y, t3, 20);
    let t4 = horner(y, t3, 20);
    lemma_horner_range(y, t4, 6);
    lemma_horner_bracket(y, t4, 6);
    let t5 = horner(y, t4, 6);
    let s = (x * t5) / one;
    assert(sin_poly(x, y) == s);
    vstd::arithmetic::div_mod::lemma_fundamental_div_mod(x * t5, one);
    let r = (x * t5) % one;
    assert(s <= x && 6 * one * (x - s) <= x * y + 18 * one) by (nonlinear_arith)
        requires
            x * t5 == one * s + r,
            0 <= r < one,
            (6 * one) * (one - t5) <= y * t4,
            0 <= t4 <= one,
            0 <= t5 <= one,
            0 <= x <= one,
            0 <= y <= one,
            one > 0,
    ;
}

/// Cosine and sine lie between zero and one in the first quarter turn.
pub proof fn lemma_quadrant_range(r: int)
    requires
        0 <= r <= QUARTER_TURN,
    ensures
        0 <= quadrant_cos_sin(r).0 <= TRIG_ONE,
        0 <= quadrant_cos_sin(r).1 <= TRIG_ONE,
{
    let folded = if 2 * r <= QUARTER_TURN {
        r
    } else {
        QUARTER_TURN - r
    };
    let x = radians(folded);
    assert(0 <= folded * HALF_PI <= 0x2000_0000 * 1_686_629_713) by (nonlinear_arith)
        requires
            0 <= folded <= 0x2000_0000,
            HALF_PI == 1_686_629_713,
    ;
    assert(0 <= x <= 843_314_857);
    assert(0 <= x * x <= 843_314_857 * 843_314_857) by (nonlinear_arith)
        requires
            0 <= x <= 843_314_857,
    ;
    let y = squared(x);
    assert(0 <= y <= TRIG_ONE);
    lemma_horner_range(y, TRIG_ONE as int, 90);
    let c1 = horner(y, TRIG_ONE as int, 90);
    lemma_horner_range(y, c1, 56);
    let c2 = horner(y, c1, 56);
    lemma_horner_range(y, c2, 30);
    let c3 = horner(y, c2, 30);
    lemma_horner_range(y, c3, 12);
    let c4 = horner(y, c3, 12);
    lemma_horner_range(y, c4, 2);
    lemma_horner_range(y, TRIG_ONE as int, 110);
    let s1 = horner(y, TRIG_ONE as int, 110);
    lemma_horner_range(y, s1, 72);
    let s2 = horner(y, s1, 72);
    lemma_horner_range(y, s2, 42);
    let s3 = horner(y, s2, 42);
    lemma_horner_range(y, s3, 20);
    let s4 = horner(y, s3, 20);
    lemma_horner_range(y, s4, 6);
    let s5 = horner(y, s4, 6);
    assert(0 <= x * s5 <= 843_314_857 * 0x4000_0000) by (nonlinear_arith)
        requires
            0 <= x <= 843_314_857,
            0 <= s5 <= 0x4000_0000,
    ;
}

/// Cosine and sine never leave the range from minus one to one.
pub proof fn lemma_unit_range(phase: u32)
    ensures
        -TRIG_ONE <= cosine(phase as int) <= TRIG_ONE,
        -TRIG_ONE <= sine(phase as int) <= TRIG_ONE,
        phase as int <= 2 * QUARTER_TURN ==> sine(phase as int) >= 0,
{
    lemma_quadrant_range(phase as int % (QUARTER_TURN as int));
    if phase as int == 2 * QUARTER_TURN {
        lemma_axis_values();
    }
}

/// On the axes cosine and sine are exactly zero, one or minus one.
pub proof fn lemma_axis_values()
    ensures
        cos_sin(0) == (TRIG_ONE as int, 0int),
        cos_sin(QUARTER_TURN as int) == (0int, TRIG_ONE as int),
        cos_sin(2 * QUARTER_TURN) == (-TRIG_ONE as int, 0int),
        cos_sin(3 * QUARTER_TURN) == (0int, -TRIG_ONE as int),
{
    assert(radians(0) == 0);
    assert(squared(0) == 0);
    assert(horner(0, TRIG_ONE as int, 90) == TRIG_ONE);
    assert(horner(0, TRIG_ONE as int, 56) == TRIG_ONE);
    assert(horner(0, TRIG_ONE as int, 30) == TRIG_ONE);
    assert(horner(0, TRIG_ONE as int, 12) == TRIG_ONE);
    assert(horner(0, TRIG_ONE as int, 2) == TRIG_ONE);
    assert(horner(0, TRIG_ONE as int, 110) == TRIG_ONE);
    assert(horner(0, TRIG_ONE as int, 72) == TRIG_ONE);
    assert(horner(0, TRIG_ONE as int, 42) == TRIG_ONE);
    assert(horner(0, TRIG_ONE as int, 20) == TRIG_ONE);
    assert(horner(0, TRIG_ONE as int, 6) == TRIG_ONE);
    assert(cos_poly(0) == TRIG_ONE);
    assert(sin_poly(0, 0) == 0);
    assert(quadrant_cos_sin(0) == (TRIG_ONE as int, 0int));
}

fn horner_step(y: i64, t: i64, c: i64) -> (r: i64)
    requires
        0 <= y <= TRIG_ONE,
        0 <= t <= TRIG_ONE,
        c >= 1,
    ensures
        r == horner(y as int, t as int, c as int),
        0 <= r <= TRIG_ONE,
{
    proof {
        lemma_horner_range(y as int, t as int, c as int);
    }
    assert(0 <= y * t <= 0x4000_0000 * 0x4000_0000) by (nonlinear_arith)
        requires
            0 <= y <= 0x4000_0000,
            0 <= t <= 0x4000_0000,
    ;
    TRIG_ONE - ((y * t) / TRIG_ONE) / c
}

fn octant(r: i64) -> (v: (i64, i64))
    requires
        0 <= r <= 0x2000_0000,
    ensures
        v.0 == cos_poly(squared(radians(r as int))),
        v.1 == sin_poly(radians(r as int), squared(radians(r as int))),
        0 <= v.0 <= TRIG_ONE,
        0 <= v.1 <= TRIG_ONE,
{
    assert(0 <= r * HALF_PI <= 0x2000_0000 * 1_686_629_713) by (nonlinear_arith)
        requires
            0 <= r <= 0x2000_0000,
            HALF_PI == 1_686_629_713,
    ;
    let x: i64 = (r * HALF_PI) / TRIG_ONE;
    assert(0 <= x * x <= 843_314_857 * 843_314_857) by (nonlinear_arith)
        requires
            0 <= x <= 843_314_857,
    ;
    let y: i64 = (x * x) / TRIG_ONE;
    let c: i64 = horner_step(
        y,
        horner_step(y, horner_step(y, horner_step(y, horner_step(y, TRIG_ONE, 90), 56), 30), 12),
        2,
    );
    let t: i64 = horner_step(
        y,
        horner_step(y, horner_step(y, horner_step(y, horner_step(y, TRIG_ONE, 110), 72), 42), 20),
        6,
    );
    assert(0 <= x * t <= 843_314_857 * 0x4000_0000) by (nonlinear_arith)
        requires
            0 <= x <= 843_314_857,
            0 <= t <= 0x4000_0000,
    ;
    (c, (x * t) / TRIG_ONE)
}

/// Cosine and sine of the binary angle `phase`, as multiples of
/// `1 / TRIG_ONE`.
pub fn cos_sin_of(phase: u32) -> (v: (i64, i64))
    ensures
        v.0 == cosine(phase as int),
        v.1 == sine(phase as int),
        -TRIG_ONE <= v.0 <= TRIG_ONE,
        -TRIG_ONE <= v.1 <= TRIG_ONE,
{
    let quadrant: u32 = phase / QUARTER_TURN;
    let r: i64 = (phase % QUARTER_TURN) as i64;
    let (c, s): (i64, i64) = if 2 * r <= QUARTER_TURN as i64 {
        octant(r)
    } else {
        let (a, b): (i64, i64) = octant(QUARTER_TURN as i64 - r);
        (b, a)
    };
    if quadrant == 0 {
        (c, s)
    } else if quadrant == 1 {
        (-s, c)
    } else if quadrant == 2 {
        (-c, -s)
    } else {
        (s, -c)
    }
}

} // verus!
