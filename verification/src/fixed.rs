//! Integer helpers shared by the signal path: distances, floor and rounded
//! division, scaling by a ratio, and the floor square root.
use vstd::prelude::*;

verus! {

/// One, in the millionths used for every dimensionless ratio.
pub const MILLION: u32 = 1_000_000;

/// The sample value that stands for an amplitude of one.
pub const UNIT_AMPLITUDE: i32 = 16_777_216;

/// The distance between two integers.
pub open spec fn abs_diff(a: int, b: int) -> int {
    if a >= b {
        a - b
    } else {
        b - a
    }
}

/// `x` limited to the closed interval from `lo` to `hi`.
pub open spec fn clamp(x: int, lo: int, hi: int) -> int {
    if x < lo {
        lo
    } else if x > hi {
        hi
    } else {
        x
    }
}

/// `a / d` rounded to the nearest integer, halves rounded up.
pub open spec fn round_div(a: int, d: int) -> int {
    (2 * a + d) / (2 * d)
}

/// Whether `r` is the floor of the square root of `x`.
pub open spec fn is_floor_sqrt(x: int, r: int) -> bool {
    0 <= r && r * r <= x < (r + 1) * (r + 1)
}

/// The floor of the square root of `x`.
pub open spec fn floor_sqrt(x: nat) -> nat {
    choose|r: nat| is_floor_sqrt(x as int, r as int)
}

/// At most one integer is the floor square root of a number.
pub proof fn lemma_floor_sqrt_unique(x: int, a: int, b: int)
    requires
        is_floor_sqrt(x, a),
        is_floor_sqrt(x, b),
    ensures
        a == b,
{
    if a < b {
        assert((a + 1) * (a + 1) <= b * b) by (nonlinear_arith)
            requires
                0 <= a,
                a + 1 <= b,
        ;
    } else if b < a {
        assert((b + 1) * (b + 1) <= a * a) by (nonlinear_arith)
            requires
                0 <= b,
                b + 1 <= a,
        ;
    }
}

/// A number that passes `is_floor_sqrt` is the value of `floor_sqrt`.
pub proof fn lemma_floor_sqrt_is(x: nat, r: nat)
    requires
        is_floor_sqrt(x as int, r as int),
    ensures
        floor_sqrt(x) == r,
{
    let c = floor_sqrt(x);
    assert(is_floor_sqrt(x as int, c as int));
    lemma_floor_sqrt_unique(x as int, c as int, r as int);
}

/// The floor square root of zero is zero.
pub proof fn lemma_floor_sqrt_zero()
    ensures
        floor_sqrt(0) == 0,
{
    assert(is_floor_sqrt(0, 0)) by (nonlinear_arith);
    lemma_floor_sqrt_is(0, 0);
}

/// The distance between two frequencies or levels.
pub fn distance(a: u32, b: u32) -> (d: u32)
    ensures
        d == abs_diff(a as int, b as int),
{
    if a >= b {
        a - b
    } else {
        b - a
    }
}

/// The floor of the square root of `x`, found by bisection.
pub fn isqrt(x: u64) -> (r: u32)
    ensures
        is_floor_sqrt(x as int, r as int),
        r == floor_sqrt(x as nat),
{
    let mut lo: u64 = 0;
    let mut hi: u64 = 0x1_0000_0000;
    assert(0x1_0000_0000int * 0x1_0000_0000int > x) by (nonlinear_arith)
        requires
            x <= 0xffff_ffff_ffff_ffff,
    ;
    while hi - lo > 1
        invariant
            lo < hi <= 0x1_0000_0000,
            lo * lo <= x < hi * hi,
        decreases hi - lo,
    {
        let mid: u64 = lo + (hi - lo) / 2;
        assert(mid * mid <= 0xffff_ffffint * 0xffff_ffffint) by (nonlinear_arith)
            requires
                0 <= mid <= 0xffff_ffff,
        ;
        if mid * mid <= x {
            lo = mid;
        } else {
            hi = mid;
        }
    }
    proof {
        assert(hi == lo + 1);
        lemma_floor_sqrt_is(x as nat, lo as nat);
    }
    lo as u32
}

/// `a / d` rounded toward minus infinity, for a positive divisor.
pub fn div_floor(a: i128, d: i128) -> (q: i128)
    requires
        d > 0,
        a > i128::MIN,
    ensures
        q == a / d,
        a >= 0 ==> 0 <= q <= a,
        a < 0 ==> a <= q < 0,
{
    if a >= 0 {
        let q: u128 = (a as u128) / (d as u128);
        assert(q <= a) by (nonlinear_arith)
            requires
                q == (a as int) / (d as int),
                a >= 0,
                d > 0,
        ;
        q as i128
    } else {
        let n: u128 = (-a) as u128;
        let du: u128 = d as u128;
        let q: u128 = n / du;
        let r: u128 = n % du;
        proof {
            vstd::arithmetic::div_mod::lemma_fundamental_div_mod(n as int, d as int);
            let qi: int = q as int;
            let di: int = d as int;
            assert(n == di * qi + r);
            if r == 0 {
                assert(a == (-qi) * di + 0) by (nonlinear_arith)
                    requires
                        -a == di * qi,
                ;
                assert(0 < qi <= -a) by (nonlinear_arith)
                    requires
                        -a == di * qi,
                        a < 0,
                        di > 0,
                        qi >= 0,
                ;
                vstd::arithmetic::div_mod::lemma_fundamental_div_mod_converse_div(
                    a as int,
                    di,
                    -qi,
                    0,
                );
            } else {
                assert(a == (-qi - 1) * di + (di - r)) by (nonlinear_arith)
                    requires
                        -a == di * qi + r,
                ;
                assert(qi + 1 <= -a) by (nonlinear_arith)
                    requires
                        -a == di * qi + r,
                        0 < r < di,
                        qi >= 0,
                ;
                vstd::arithmetic::div_mod::lemma_fundamental_div_mod_converse_div(
                    a as int,
                    di,
                    -qi - 1,
                    di - r,
                );
            }
        }
        if r == 0 {
            -(q as i128)
        } else {
            -(q as i128) - 1
        }
    }
}

} // verus!
