//! Loudness of a buffer and automatic gain control.
use crate::fixed::{clamp, div_floor, floor_sqrt, isqrt, round_div};
use vstd::prelude::*;

verus! {

/// The level below which a buffer counts as silence: about a thousandth of
/// an amplitude of one.
pub const NOISE_FLOOR: u32 = 16_777;

/// The largest gain that automatic gain control applies.
pub const MAX_GAIN: u32 = 10;

/// The sum of the squares of the samples.
pub open spec fn sum_squares(s: Seq<i32>) -> int
    decreases s.len(),
{
    if s.len() == 0 {
        0
    } else {
        sum_squares(s.drop_last()) + s.last() * s.last()
    }
}

/// The root of the mean of the squares, both rounded down; zero for an
/// empty buffer.
pub open spec fn rms_level(s: Seq<i32>) -> int {
    if s.len() == 0 {
        0
    } else {
        floor_sqrt((sum_squares(s) / (s.len() as int)) as nat) as int
    }
}

/// A sum of squares is at most the number of samples times the largest
/// square.
pub proof fn lemma_sum_squares_bound(s: Seq<i32>)
    ensures
        0 <= sum_squares(s) <= s.len() * 0x4000_0000_0000_0000,
    decreases s.len(),
{
    if s.len() > 0 {
        lemma_sum_squares_bound(s.drop_last());
        let x = s.last() as int;
        assert(0 <= x * x <= 0x4000_0000_0000_0000) by (nonlinear_arith)
            requires
                -0x8000_0000 <= x <= 0x7fff_ffff,
        ;
    }
}

/// A buffer of zeros has level zero.
pub proof fn lemma_silence_level(s: Seq<i32>)
    requires
        forall|i: int| 0 <= i < s.len() ==> s[i] == 0,
    ensures
        sum_squares(s) == 0,
        rms_level(s) == 0,
    decreases s.len(),
{
    if s.len() > 0 {
        lemma_silence_level(s.drop_last());
        crate::fixed::lemma_floor_sqrt_zero();
    }
}

/// The level of a buffer: the root of the mean of the squares of its
/// samples.
pub fn rms(samples: &[i32]) -> (r: u32)
    ensures
        r == rms_level(samples@),
{
    let n: usize = samples.len();
    if n == 0 {
        return 0;
    }
    let mut sum: u128 = 0;
    let mut i: usize = 0;
    while i < n
        invariant
            i <= n,
            n == samples@.len(),
            sum == sum_squares(samples@.take(i as int)),
            sum <= i * 0x4000_0000_0000_0000,
        decreases n - i,
    {
        proof {
            let next = samples@.take(i as int + 1);
            assert(next.drop_last() =~= samples@.take(i as int));
            assert(next.last() == samples@[i as int]);
            lemma_sum_squares_bound(next);
        }
        let x: i64 = samples[i] as i64;
        assert(0 <= x * x <= 0x4000_0000_0000_0000) by (nonlinear_arith)
            requires
                -0x8000_0000 <= x <= 0x7fff_ffff,
        ;
        sum = sum + (x * x) as u128;
        i = i + 1;
    }
    proof {
        assert(samples@.take(n as int) =~= samples@);
        let total = sum as int;
        let count = n as int;
        assert(0 <= total / count <= 0x4000_0000_0000_0000) by (nonlinear_arith)
            requires
                count > 0,
                0 <= total <= count * 0x4000_0000_0000_0000,
        ;
    }
    let mean: u64 = (sum / (n as u128)) as u64;
    isqrt(mean)
}

/// A sample after gain control: scaled by `target / level`, by at most
/// `MAX_GAIN`, rounded to the nearest value and limited to the range of a
/// sample.
pub open spec fn agc_scaled(x: int, level: int, target: int) -> int {
    if level * MAX_GAIN <= target {
        clamp(x * MAX_GAIN, i32::MIN as int, i32::MAX as int)
    } else {
        clamp(round_div(x * target, level), i32::MIN as int, i32::MAX as int)
    }
}

/// A buffer after gain control.
pub open spec fn agc_applied(s: Seq<i32>, level: int, target: int) -> Seq<i32> {
    Seq::new(s.len(), |i: int| agc_scaled(s[i] as int, level, target) as i32)
}

fn scale_sample(x: i32, level: u32, target: u32) -> (y: i32)
    ensures
        y == agc_scaled(x as int, level as int, target as int),
{
    let scaled: i128 = if (level as u64) * (MAX_GAIN as u64) <= target as u64 {
        (x as i128) * (MAX_GAIN as i128)
    } else {
        assert(-0x8000_0000 * 0xffff_ffff <= (x as i128) * (target as i128) <= 0x8000_0000
            * 0xffff_ffff) by (nonlinear_arith)
            requires
                -0x8000_0000 <= x <= 0x7fff_ffff,
                0 <= target <= 0xffff_ffff,
        ;
        div_floor(2 * ((x as i128) * (target as i128)) + level as i128, 2 * (level as i128))
    };
    if scaled < i32::MIN as i128 {
        i32::MIN
    } else if scaled > i32::MAX as i128 {
        i32::MAX
    } else {
        scaled as i32
    }
}

/// Scales `samples` in place so that a buffer of level `level` comes to the
/// level `target`, with a gain of at most `MAX_GAIN`.
pub fn apply_agc(samples: &mut Vec<i32>, level: u32, target: u32)
    ensures
        final(samples)@ == agc_applied(old(samples)@, level as int, target as int),
{
    let ghost input = samples@;
    let n: usize = samples.len();
    let mut i: usize = 0;
    while i < n
        invariant
            i <= n,
            n == input.len(),
            samples@.len() == n,
            forall|j: int|
                0 <= j < i ==> samples@[j] == agc_scaled(
                    input[j] as int,
                    level as int,
                    target as int,
                ),
            forall|j: int| i <= j < n ==> samples@[j] == input[j],
        decreases n - i,
    {
        let y: i32 = scale_sample(samples[i], level, target);
        samples.set(i, y);
        i = i + 1;
    }
    assert(samples@ =~= agc_applied(input, level as int, target as int));
}

} // verus!
