//! Smoothers for a stream of frequency estimates: a sliding window with its
//! mean, and an exponential moving average.
use crate::fixed::{floor_sqrt, isqrt, round_div, MILLION};
use std::collections::VecDeque;
use vstd::prelude::*;

verus! {

/// The sum of a sequence of frequencies.
pub open spec fn seq_sum(s: Seq<u32>) -> int
    decreases s.len(),
{
    if s.len() == 0 {
        0
    } else {
        seq_sum(s.drop_last()) + s.last()
    }
}

/// The mean of a window, rounded down; nothing for an empty window.
pub open spec fn mean(window: Seq<u32>) -> Option<int> {
    if window.len() == 0 {
        None
    } else {
        Some(seq_sum(window) / (window.len() as int))
    }
}

/// The window after `value` has been pushed: a window that holds `capacity`
/// values loses its oldest value first.
pub open spec fn pushed(window: Seq<u32>, capacity: nat, value: u32) -> Seq<u32> {
    if window.len() == capacity && window.len() > 0 {
        window.subrange(1, window.len() as int).push(value)
    } else {
        window.push(value)
    }
}

/// A window for at least one value that is not over its capacity stays so,
/// and its newest value is the one that was pushed.
pub proof fn lemma_window_bounded(window: Seq<u32>, capacity: nat, value: u32)
    requires
        0 < capacity,
        window.len() <= capacity,
    ensures
        0 < pushed(window, capacity, value).len() <= capacity,
        pushed(window, capacity, value).last() == value,
{
}

/// A sum of `u32` values is at most their number times the largest `u32`.
pub proof fn lemma_seq_sum_bound(s: Seq<u32>)
    ensures
        0 <= seq_sum(s) <= s.len() * 0xffff_ffff,
    decreases s.len(),
{
    if s.len() > 0 {
        lemma_seq_sum_bound(s.drop_last());
    }
}

/// The mean of a window lies within the range of `u32`.
pub proof fn lemma_mean_bound(s: Seq<u32>)
    requires
        s.len() > 0,
    ensures
        0 <= seq_sum(s) / (s.len() as int) <= 0xffff_ffff,
{
    lemma_seq_sum_bound(s);
    let total = seq_sum(s);
    let n = s.len() as int;
    assert(0 <= total / n <= 0xffff_ffff) by (nonlinear_arith)
        requires
            n > 0,
            0 <= total <= n * 0xffff_ffff,
    ;
}

/// The sum of the squared distances of the values from `centre`.
pub open spec fn sum_square_deviations(s: Seq<u32>, centre: int) -> int
    decreases s.len(),
{
    if s.len() == 0 {
        0
    } else {
        sum_square_deviations(s.drop_last(), centre) + (s.last() - centre) * (s.last() - centre)
    }
}

/// The standard deviation of a window about its mean, with the mean, the
/// variance and the root each rounded down; nothing for an empty window.
pub open spec fn deviation(window: Seq<u32>) -> Option<int> {
    if window.len() == 0 {
        None
    } else {
        let centre = seq_sum(window) / (window.len() as int);
        Some(
            floor_sqrt(
                (sum_square_deviations(window, centre) / (window.len() as int)) as nat,
            ) as int,
        )
    }
}

/// A sum of squared distances between `u32` values is at most their number
/// times the largest such square.
pub proof fn lemma_sum_square_deviations_bound(s: Seq<u32>, centre: int)
    requires
        0 <= centre <= 0xffff_ffff,
    ensures
        0 <= sum_square_deviations(s, centre) <= s.len() * 0xffff_fffe_0000_0001,
    decreases s.len(),
{
    if s.len() > 0 {
        lemma_sum_square_deviations_bound(s.drop_last(), centre);
        let d = s.last() - centre;
        assert(0 <= d * d <= 0xffff_fffe_0000_0001) by (nonlinear_arith)
            requires
                -0xffff_ffff <= d <= 0xffff_ffff,
        ;
    }
}

/// The last frequencies that were accepted, oldest first.
pub struct FrequencySmoother {
    window: VecDeque<u32>,
    max_size: usize,
}

impl View for FrequencySmoother {
    type V = Seq<u32>;

    closed spec fn view(&self) -> Seq<u32> {
        self.window@
    }
}

impl FrequencySmoother {
    /// The number of values after which a push evicts the oldest one.
    pub closed spec fn capacity(&self) -> nat {
        self.max_size as nat
    }

    /// Whether the window is for at least one value and holds no more
    /// values than it is for.
    pub closed spec fn wf(&self) -> bool {
        0 < self.max_size && self.window@.len() <= self.max_size
    }

    /// A well-formed window is within its capacity.
    pub proof fn lemma_within_capacity(&self)
        requires
            self.wf(),
        ensures
            0 < self.capacity(),
            self@.len() <= self.capacity(),
    {
    }

    /// An empty window for `max_size` values; for one value where
    /// `max_size` is zero.
    pub fn new(max_size: usize) -> (s: Self)
        ensures
            s.wf(),
            s@ == Seq::<u32>::empty(),
            s.capacity() == (if max_size == 0 {
                1
            } else {
                max_size
            }),
    {
        let max_size: usize = if max_size == 0 {
            1
        } else {
            max_size
        };
        FrequencySmoother { window: VecDeque::with_capacity(max_size), max_size }
    }

    /// Appends `value`, evicting the oldest value of a full window.
    pub fn push(&mut self, value: u32)
        requires
            old(self).wf(),
        ensures
            final(self).wf(),
            final(self)@ == pushed(old(self)@, old(self).capacity(), value),
            final(self).capacity() == old(self).capacity(),
    {
        broadcast use vstd::std_specs::vecdeque::axiom_spec_len;

        if self.window.len() == self.max_size {
            self.window.pop_front();
        }
        self.window.push_back(value);
    }

    /// The mean of the window, rounded down; nothing for an empty window.
    pub fn average(&self) -> (r: Option<u32>)
        ensures
            match r {
                Some(m) => mean(self@) == Some(m as int),
                None => mean(self@) is None,
            },
    {
        broadcast use vstd::std_specs::vecdeque::axiom_spec_len;

        let n: usize = self.window.len();
        if n == 0 {
            return None;
        }
        let mut sum: u128 = 0;
        let mut i: usize = 0;
        while i < n
            invariant
                i <= n,
                n == self.window@.len(),
                sum == seq_sum(self.window@.take(i as int)),
                sum <= i * 0xffff_ffff,
            decreases n - i,
        {
            proof {
                let next = self.window@.take(i as int + 1);
                assert(next.drop_last() =~= self.window@.take(i as int));
                assert(next.last() == self.window@[i as int]);
            }
            sum = sum + self.window[i] as u128;
            i = i + 1;
        }
        proof {
            assert(self.window@.take(n as int) =~= self.window@);
            lemma_mean_bound(self.window@);
        }
        Some((sum / (n as u128)) as u32)
    }

    /// The standard deviation of the window about its mean; nothing for an
    /// empty window.
    pub fn spread(&self) -> (r: Option<u32>)
        ensures
            match r {
                Some(d) => deviation(self@) == Some(d as int),
                None => deviation(self@) is None,
            },
    {
        broadcast use vstd::std_specs::vecdeque::axiom_spec_len;

        let centre: u32 = match self.average() {
            None => {
                return None;
            },
            Some(m) => m,
        };
        let n: usize = self.window.len();
        let mut sum: u128 = 0;
        let mut i: usize = 0;
        while i < n
            invariant
                i <= n,
                n == self.window@.len(),
                sum == sum_square_deviations(self.window@.take(i as int), centre as int),
                sum <= i * 0xffff_fffe_0000_0001,
            decreases n - i,
        {
            proof {
                let next = self.window@.take(i as int + 1);
                assert(next.drop_last() =~= self.window@.take(i as int));
                assert(next.last() == self.window@[i as int]);
                lemma_sum_square_deviations_bound(next, centre as int);
            }
            let d: i128 = self.window[i] as i128 - centre as i128;
            assert(0 <= d * d <= 0xffff_fffe_0000_0001) by (nonlinear_arith)
                requires
                    -0xffff_ffff <= d <= 0xffff_ffff,
            ;
            assert(i * 0xffff_fffe_0000_0001 + 0xffff_fffe_0000_0001
                <= 0xffff_ffff_ffff_ffff * 0xffff_fffe_0000_0001) by (nonlinear_arith)
                requires
                    i < 0xffff_ffff_ffff_ffff,
            ;
            sum = sum + (d * d) as u128;
            i = i + 1;
        }
        proof {
            assert(self.window@.take(n as int) =~= self.window@);
            let total = sum as int;
            let count = n as int;
            assert(0 <= total / count <= 0xffff_fffe_0000_0001) by (nonlinear_arith)
                requires
                    count > 0,
                    0 <= total <= count * 0xffff_fffe_0000_0001,
            ;
        }
        let variance: u64 = (sum / (n as u128)) as u64;
        Some(isqrt(variance))
    }
}

/// The moving average after `value` has been seen: the first value seeds
/// it; later it moves from its state toward `value` by `alpha` millionths of
/// the way, rounded to the nearest millihertz.
pub open spec fn ema_next(current: Option<u32>, alpha: int, value: int) -> int {
    match current {
        None => value,
        Some(prev) => round_div(alpha * value + (MILLION - alpha) * prev, MILLION as int),
    }
}

/// A weighted mean of two `u32` values is a `u32`.
pub proof fn lemma_ema_bound(prev: u32, alpha: int, value: u32)
    requires
        0 <= alpha <= MILLION,
    ensures
        0 <= ema_next(Some(prev), alpha, value as int) <= 0xffff_ffff,
{
    let x = alpha * value + (MILLION - alpha) * prev;
    assert(0 <= x <= 1_000_000 * 0xffff_ffff) by (nonlinear_arith)
        requires
            0 <= alpha <= 1_000_000,
            0 <= value <= 0xffff_ffff,
            0 <= prev <= 0xffff_ffff,
            x == alpha * value + (1_000_000 - alpha) * prev,
    ;
}

/// An exponential moving average of frequencies.
pub struct ExpMovingAverage {
    alpha: u32,
    current: Option<u32>,
}

impl ExpMovingAverage {
    /// The weight of a new value, in millionths; at most one million.
    pub closed spec fn alpha(&self) -> int {
        self.alpha as int
    }

    /// The average so far; nothing before the first value.
    pub closed spec fn state(&self) -> Option<u32> {
        self.current
    }

    /// Whether the weight is at most one.
    pub closed spec fn wf(&self) -> bool {
        self.alpha <= MILLION
    }

    /// An average without a value yet. A weight above one counts as one.
    pub fn new(alpha: u32) -> (s: Self)
        ensures
            s.wf(),
            s.alpha() == (if alpha <= MILLION {
                alpha
            } else {
                MILLION
            }),
            s.state() is None,
    {
        let alpha: u32 = if alpha <= MILLION {
            alpha
        } else {
            MILLION
        };
        ExpMovingAverage { alpha, current: None }
    }

    /// Takes `new_value` into the average and returns the new average.
    pub fn update(&mut self, new_value: u32) -> (r: u32)
        requires
            old(self).wf(),
        ensures
            final(self).wf(),
            r == ema_next(old(self).state(), old(self).alpha(), new_value as int),
            final(self).state() == Some(r),
            final(self).alpha() == old(self).alpha(),
    {
        let next: u32 = match self.current {
            None => new_value,
            Some(prev) => {
                proof {
                    lemma_ema_bound(prev, self.alpha as int, new_value);
                }
                let a: u64 = self.alpha as u64;
                assert(a * (new_value as u64) <= 1_000_000 * 0xffff_ffff) by (nonlinear_arith)
                    requires
                        a <= 1_000_000,
                        new_value <= 0xffff_ffff,
                ;
                assert((1_000_000 - a) * (prev as u64) <= 1_000_000 * 0xffff_ffff)
                    by (nonlinear_arith)
                    requires
                        a <= 1_000_000,
                        prev <= 0xffff_ffff,
                ;
                let weighted: u64 = a * (new_value as u64) + (MILLION as u64 - a) * (prev as u64);
                ((2 * weighted + MILLION as u64) / (2 * MILLION as u64)) as u32
            },
        };
        self.current = Some(next);
        next
    }
}

} // verus!
