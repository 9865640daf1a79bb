//! Statistics of publish intervals, as exact numbers.

use crate::hz::range::extremes;
#[allow(unused_imports)]
use crate::hz::range::spans;
use crate::hz::window::{HzStats, NANOS_PER_SEC};
#[allow(unused_imports)]
use crate::hz::window::{ascending, gaps, replayed};
use vstd::prelude::*;

verus! {

/// The sum of all intervals.
pub open spec fn sum(xs: Seq<u64>) -> nat
    decreases xs.len(),
{
    if xs.len() == 0 {
        0
    } else {
        sum(xs.drop_last()) + xs.last() as nat
    }
}

/// The sum of the squares of `scale * x - shift` over all intervals `x`.
pub open spec fn squares(xs: Seq<u64>, scale: int, shift: int) -> int
    decreases xs.len(),
{
    if xs.len() == 0 {
        0
    } else {
        squares(xs.drop_last(), scale, shift) + (scale * xs.last() - shift) * (scale * xs.last()
            - shift)
    }
}

/// The sum of the squared distances of the intervals to their average, times the
/// square of their number, which makes it whole. Divided by the cube of their
/// number it is the variance.
pub open spec fn spread(xs: Seq<u64>) -> int {
    squares(xs, xs.len() as int, sum(xs) as int)
}

/// Statistics of a non-empty list of intervals, in nanoseconds.
#[derive(Debug, Clone, Copy)]
pub struct Stats {
    /// How many intervals there are.
    pub count: usize,
    /// Their sum.
    pub total: u128,
    /// The shortest.
    pub min: u64,
    /// The longest.
    pub max: u64,
    /// Their average, rounded down.
    pub mean: u64,
    /// What rounding down the average leaves of the sum.
    pub remainder: usize,
    /// The sum of the squared distances to `mean`: its part from two to the
    /// power of 128 on.
    pub deviation_high: u64,
    /// The rest of that sum.
    pub deviation_low: u128,
}

/// A fraction that is not negative.
#[derive(Debug, Clone, Copy)]
pub struct Ratio {
    pub numerator: u128,
    pub denominator: u128,
}

impl Stats {
    /// The sum of the squared distances to `mean`.
    pub open spec fn deviation(self) -> nat {
        (self.deviation_high * 0x1_0000_0000_0000_0000_0000_0000_0000_0000int
            + self.deviation_low) as nat
    }

    /// Whether these are the statistics of `xs`.
    pub open spec fn describes(self, xs: Seq<u64>) -> bool {
        &&& self.count == xs.len()
        &&& self.total == sum(xs)
        &&& spans(xs, self.min, self.max)
        &&& self.total == self.mean * self.count + self.remainder
        &&& self.remainder < self.count
        &&& self.deviation() == squares(xs, 1, self.mean as int)
        &&& self.count * self.count * self.deviation() - self.count * (self.remainder
            * self.remainder) == spread(xs)
    }
}

proof fn lemma_sum_bounds(xs: Seq<u64>, low: int, high: int)
    requires
        forall|i: int| 0 <= i < xs.len() ==> low <= #[trigger] xs[i] <= high,
    ensures
        low * xs.len() <= sum(xs) <= high * xs.len(),
    decreases xs.len(),
{
    if xs.len() > 0 {
        let shorter = xs.drop_last();
        assert forall|i: int| 0 <= i < shorter.len() implies low <= #[trigger] shorter[i]
            <= high by {
            assert(low <= xs[i] <= high);
        }
        lemma_sum_bounds(shorter, low, high);
        assert(low <= xs[xs.len() - 1] <= high);
        let n = shorter.len() as int;
        assert(low * (n + 1) == low * n + low) by (nonlinear_arith);
        assert(high * (n + 1) == high * n + high) by (nonlinear_arith);
    } else {
        assert(low * 0 == 0 && high * 0 == 0) by (nonlinear_arith);
    }
}

/// Moves the squares from distances to `mean`, in whole units, to distances to
/// the average, in units of one part in `n`.
proof fn lemma_squares_shift(xs: Seq<u64>, n: int, mean: int, rest: int)
    ensures
        squares(xs, n, n * mean + rest) == n * n * squares(xs, 1, mean) - 2 * n * rest * (sum(xs)
            - xs.len() * mean) + xs.len() * (rest * rest),
    decreases xs.len(),
{
    if xs.len() > 0 {
        let shorter = xs.drop_last();
        let x = xs.last() as int;
        let k = shorter.len() as int;
        let s = sum(shorter) as int;
        let q = squares(shorter, 1, mean);
        lemma_squares_shift(shorter, n, mean, rest);
        let d = x - mean;
        assert(n * x - (n * mean + rest) == n * d - rest) by (nonlinear_arith)
            requires
                d == x - mean,
        ;
        assert((n * d - rest) * (n * d - rest) == n * n * (d * d) - 2 * n * rest * d + rest * rest)
            by (nonlinear_arith);
        assert(n * n * (q + d * d) == n * n * q + n * n * (d * d)) by (nonlinear_arith);
        assert(2 * n * rest * ((s + x) - (k + 1) * mean) == 2 * n * rest * (s - k * mean) + 2 * n
            * rest * d) by (nonlinear_arith)
            requires
                d == x - mean,
        ;
        assert((k + 1) * (rest * rest) == k * (rest * rest) + rest * rest) by (nonlinear_arith);
        assert(1 * x - mean == d);
    } else {
        assert(n * n * 0 == 0) by (nonlinear_arith);
        assert(2 * n * rest * (0 - 0 * mean) == 0) by (nonlinear_arith);
        assert(0 * (rest * rest) == 0) by (nonlinear_arith);
    }
}

proof fn lemma_spread(xs: Seq<u64>, mean: int, rest: int)
    requires
        sum(xs) == mean * xs.len() + rest,
    ensures
        xs.len() * xs.len() * squares(xs, 1, mean) - xs.len() * (rest * rest) == spread(xs),
{
    let n = xs.len() as int;
    lemma_squares_shift(xs, n, mean, rest);
    assert(n * mean + rest == sum(xs)) by (nonlinear_arith)
        requires
            sum(xs) == mean * n + rest,
    ;
    assert(sum(xs) - n * mean == rest);
    assert(2 * n * rest * rest == 2 * (n * (rest * rest))) by (nonlinear_arith);
}

proof fn lemma_squares_nonnegative(xs: Seq<u64>, scale: int, shift: int)
    ensures
        squares(xs, scale, shift) >= 0,
    decreases xs.len(),
{
    if xs.len() > 0 {
        lemma_squares_nonnegative(xs.drop_last(), scale, shift);
        let d = scale * xs.last() - shift;
        assert(d * d >= 0) by (nonlinear_arith);
    }
}

/// Computes the statistics of a list of intervals, where it is not empty.
pub fn statistics(intervals: &Vec<u64>) -> (stats: Option<Stats>)
    ensures
        match stats {
            Some(stats) => intervals@.len() > 0 && stats.describes(intervals@),
            None => intervals@.len() == 0,
        },
{
    let count: usize = intervals.len();
    if count == 0 {
        return None;
    }
    let ghost xs = intervals@;
    let (min, max) = extremes(intervals);
    let mut total: u128 = 0;
    let mut i: usize = 0;
    while i < count
        invariant
            xs == intervals@,
            count == xs.len(),
            i <= count,
            total == sum(xs.take(i as int)),
            total <= i * u64::MAX,
        decreases count - i,
    {
        let x: u64 = intervals[i];
        proof {
            assert(xs.take(i + 1).drop_last() =~= xs.take(i as int));
            assert(i * u64::MAX + u64::MAX <= u128::MAX) by (nonlinear_arith)
                requires
                    i < usize::MAX,
                    usize::MAX <= u64::MAX,
            ;
            assert((i + 1) * u64::MAX == i * u64::MAX + u64::MAX) by (nonlinear_arith);
        }
        total = total + x as u128;
        i += 1;
    }
    assert(xs.take(i as int) =~= xs);
    proof {
        lemma_sum_bounds(xs, min as int, max as int);
    }
    let average: u128 = total / (count as u128);
    let left: u128 = total % (count as u128);
    proof {
        vstd::arithmetic::div_mod::lemma_fundamental_div_mod(total as int, count as int);
        assert(average <= max) by (nonlinear_arith)
            requires
                average == total / (count as u128),
                total <= max * count,
                count > 0,
        ;
        assert(average * count == count * average) by (nonlinear_arith);
    }
    let mean: u64 = average as u64;
    let remainder: usize = left as usize;
    let mut high: u64 = 0;
    let mut low: u128 = 0;
    let mut i: usize = 0;
    while i < count
        invariant
            xs == intervals@,
            count == xs.len(),
            i <= count,
            high <= i,
            high * 0x1_0000_0000_0000_0000_0000_0000_0000_0000int + low == squares(
                xs.take(i as int),
                1,
                mean as int,
            ),
        decreases count - i,
    {
        let x: u64 = intervals[i];
        let distance: u64 = if x < mean {
            mean - x
        } else {
            x - mean
        };
        proof {
            assert(xs.take(i + 1).drop_last() =~= xs.take(i as int));
            assert(distance * distance <= u128::MAX) by (nonlinear_arith)
                requires
                    distance <= u64::MAX,
            ;
            assert(distance * distance == (1 * x - mean) * (1 * x - mean)) by (nonlinear_arith)
                requires
                    distance == x - mean || distance == mean - x,
            ;
        }
        let square: u128 = (distance as u128) * (distance as u128);
        let room: u128 = u128::MAX - low;
        if square > room {
            low = square - room - 1;
            high = high + 1;
        } else {
            low = low + square;
        }
        i += 1;
    }
    assert(xs.take(i as int) =~= xs);
    let stats = Stats {
        count,
        total,
        min,
        max,
        mean,
        remainder,
        deviation_high: high,
        deviation_low: low,
    };
    proof {
        lemma_spread(xs, mean as int, remainder as int);
    }
    Some(stats)
}

impl HzStats {
    /// The statistics of the intervals in the window, where there is one.
    pub fn calculate(&self) -> (stats: Option<Stats>)
        ensures
            match stats {
                Some(stats) => gaps(self.timestamps@).len() > 0 && stats.describes(
                    gaps(self.timestamps@),
                ),
                None => gaps(self.timestamps@).len() == 0,
            },
    {
        let intervals = self.intervals();
        statistics(&intervals)
    }
}

impl Stats {
    /// The average interval, in nanoseconds.
    pub fn average(&self) -> (average: Ratio)
        ensures
            average.numerator == self.total,
            average.denominator == self.count,
    {
        Ratio { numerator: self.total, denominator: self.count as u128 }
    }

    /// The average frequency, in messages per second: one over the average
    /// interval, or zero where that is zero.
    pub fn frequency(&self) -> (frequency: Ratio)
        ensures
            self.total > 0 ==> frequency.numerator == self.count * NANOS_PER_SEC
                && frequency.denominator == self.total,
            self.total == 0 ==> frequency.numerator == 0 && frequency.denominator == 1,
            self.total > 0 ==> frequency.numerator == self.count * 1_000_000_000,
    {
        if self.total > 0 {
            Ratio {
                numerator: self.count as u128 * NANOS_PER_SEC,
                denominator: self.total,
            }
        } else {
            Ratio { numerator: 0, denominator: 1 }
        }
    }
}

/// Every interval that counts is longer than zero, and there are fewer intervals
/// than moments.
pub proof fn law_intervals_are_positive(times: Seq<u64>)
    ensures
        forall|i: int| 0 <= i < gaps(times).len() ==> #[trigger] gaps(times)[i] > 0,
        times.len() > 0 ==> gaps(times).len() < times.len(),
    decreases times.len(),
{
    if times.len() >= 2 {
        let before = gaps(times.drop_last());
        law_intervals_are_positive(times.drop_last());
        assert forall|i: int| 0 <= i < gaps(times).len() implies #[trigger] gaps(times)[i] > 0 by {
            if i < before.len() {
                assert(before[i] > 0);
            }
        }
    }
}

/// The average interval of a window is longer than zero, so that the average
/// frequency is always one over it.
pub proof fn law_average_is_positive(stats: Stats, times: Seq<u64>)
    requires
        gaps(times).len() > 0,
        stats.describes(gaps(times)),
    ensures
        stats.min > 0,
        stats.total > 0,
{
    let xs = gaps(times);
    law_intervals_are_positive(times);
    let i = choose|i: int| 0 <= i < xs.len() && xs[i] == stats.min;
    assert(xs[i] > 0);
    lemma_sum_bounds(xs, 1, u64::MAX as int);
}

/// While the clock does not go back, the intervals add up to the time from the
/// first moment to the last.
pub proof fn law_intervals_add_up(times: Seq<u64>)
    requires
        ascending(times),
        times.len() > 0,
    ensures
        sum(gaps(times)) == times.last() - times[0],
    decreases times.len(),
{
    if times.len() >= 2 {
        let shorter = times.drop_last();
        law_intervals_add_up(shorter);
        let n = times.len() as int;
        assert(times[n - 2] <= times[n - 1]);
        let before = gaps(shorter);
        if times.last() > times[n - 2] {
            assert(gaps(times).drop_last() =~= before);
        }
    }
}

/// While the clock does not go back, the intervals of a window together are no
/// longer than the window.
pub proof fn law_intervals_fit_the_window(times: Seq<u64>, window: nat)
    requires
        ascending(times),
        times.len() > 0,
    ensures
        sum(gaps(replayed(times, window))) <= window,
{
    crate::hz::window::law_window_holds_the_recent_arrivals(times, window);
    let kept = replayed(times, window);
    crate::hz::window::law_newest_is_kept(
        replayed(times.drop_last(), window),
        times.last(),
        window,
    );
    law_intervals_add_up(kept);
    let inside = |time: u64| time >= times.last() - window;
    times.lemma_filter_pred(inside, 0);
    assert(inside(kept[0]));
}

/// The average lies between the shortest and the longest interval.
pub proof fn law_average_lies_between(stats: Stats, xs: Seq<u64>)
    requires
        stats.describes(xs),
    ensures
        stats.min * stats.count <= stats.total <= stats.max * stats.count,
        stats.min <= stats.mean <= stats.max,
{
    lemma_sum_bounds(xs, stats.min as int, stats.max as int);
    let n = stats.count as int;
    let mean = stats.mean as int;
    assert(stats.min <= mean <= stats.max) by (nonlinear_arith)
        requires
            stats.min * n <= mean * n + stats.remainder <= stats.max * n,
            0 <= stats.remainder < n,
    ;
}

/// The standard deviation is zero exactly where all intervals are equally long.
pub proof fn law_spread_vanishes_for_equal_intervals(stats: Stats, xs: Seq<u64>)
    requires
        stats.describes(xs),
    ensures
        spread(xs) >= 0,
        spread(xs) == 0 <==> stats.min == stats.max,
{
    let n = xs.len() as int;
    let total = sum(xs) as int;
    lemma_squares_nonnegative(xs, n, total);
    if stats.min == stats.max {
        law_average_lies_between(stats, xs);
        assert forall|i: int| 0 <= i < xs.len() implies n * #[trigger] xs[i] == total by {
            assert(xs[i] == stats.min);
            assert(n * xs[i] == total) by (nonlinear_arith)
                requires
                    xs[i] == stats.min,
                    stats.min * n <= total <= stats.max * n,
                    stats.min == stats.max,
            ;
        }
        lemma_squares_vanish(xs, n, total);
    }
    if spread(xs) == 0 {
        lemma_squares_vanish(xs, n, total);
        let i = choose|i: int| 0 <= i < xs.len() && xs[i] == stats.min;
        let j = choose|j: int| 0 <= j < xs.len() && xs[j] == stats.max;
        assert(n * xs[i] == total && n * xs[j] == total);
        assert(xs[i] == xs[j]) by (nonlinear_arith)
            requires
                n * xs[i] == n * xs[j],
                n > 0,
        ;
    }
}

proof fn lemma_squares_vanish(xs: Seq<u64>, scale: int, shift: int)
    ensures
        squares(xs, scale, shift) == 0 <==> (forall|i: int|
            0 <= i < xs.len() ==> scale * #[trigger] xs[i] == shift),
    decreases xs.len(),
{
    if xs.len() > 0 {
        let shorter = xs.drop_last();
        let last = xs.len() - 1;
        lemma_squares_vanish(shorter, scale, shift);
        lemma_squares_nonnegative(shorter, scale, shift);
        let d = scale * xs[last] - shift;
        assert(d * d >= 0 && (d * d == 0 <==> d == 0)) by (nonlinear_arith);
        if squares(xs, scale, shift) == 0 {
            assert forall|i: int| 0 <= i < xs.len() implies scale * #[trigger] xs[i] == shift by {
                if i < last {
                    assert(scale * shorter[i] == shift);
                }
            }
        }
        if forall|i: int| 0 <= i < xs.len() ==> scale * #[trigger] xs[i] == shift {
            assert forall|i: int| 0 <= i < shorter.len() implies scale * #[trigger] shorter[i]
                == shift by {
                assert(scale * xs[i] == shift);
            }
            assert(scale * xs[last] == shift);
        }
    }
}

/// The sum of no intervals is zero, and one more interval adds its length.
pub proof fn law_sum_adds_every_interval(xs: Seq<u64>, x: u64)
    ensures
        sum(Seq::<u64>::empty()) == 0,
        sum(xs.push(x)) == sum(xs) + x,
{
    assert(xs.push(x).drop_last() =~= xs);
}

/// The sum of the squares over no intervals is zero, and one more interval adds the
/// square of its scaled and shifted length.
pub proof fn law_squares_add_every_interval(xs: Seq<u64>, x: u64, scale: int, shift: int)
    ensures
        squares(Seq::<u64>::empty(), scale, shift) == 0,
        squares(xs.push(x), scale, shift) == squares(xs, scale, shift) + (scale * x - shift) * (scale
            * x - shift),
{
    assert(xs.push(x).drop_last() =~= xs);
}

/// The spread sums, over all intervals, the square of how far the number of
/// intervals times the interval is from the sum of all.
pub proof fn law_spread_measures_from_the_average(xs: Seq<u64>)
    ensures
        spread(xs) == squares(xs, xs.len() as int, sum(xs) as int),
{
}

/// The statistics of intervals are their number, their sum, the shortest and the
/// longest of them, the quotient and the remainder of the sum by the number, and the
/// squared distances to that quotient, which determine the spread.
pub proof fn law_statistics_are_those_of_the_intervals(stats: Stats, xs: Seq<u64>)
    requires
        stats.describes(xs),
    ensures
        stats.count == xs.len() > 0,
        stats.total == sum(xs),
        xs.contains(stats.min),
        xs.contains(stats.max),
        forall|i: int| 0 <= i < xs.len() ==> stats.min <= #[trigger] xs[i] <= stats.max,
        stats.total == stats.mean * stats.count + stats.remainder,
        0 <= stats.remainder < stats.count,
        stats.deviation_high * 0x1_0000_0000_0000_0000_0000_0000_0000_0000int
            + stats.deviation_low == squares(xs, 1, stats.mean as int),
        stats.count * stats.count * squares(xs, 1, stats.mean as int) - stats.count * (
        stats.remainder * stats.remainder) == squares(xs, xs.len() as int, sum(xs) as int),
{
}

/// Two statistics of the same intervals are the same.
pub proof fn law_statistics_are_unique(stats: Stats, other: Stats, xs: Seq<u64>)
    requires
        stats.describes(xs),
        other.describes(xs),
    ensures
        stats == other,
{
    let i = choose|i: int| 0 <= i < xs.len() && xs[i] == stats.min;
    let j = choose|j: int| 0 <= j < xs.len() && xs[j] == other.min;
    let k = choose|k: int| 0 <= k < xs.len() && xs[k] == stats.max;
    let l = choose|l: int| 0 <= l < xs.len() && xs[l] == other.max;
    assert(xs[i] == stats.min && xs[j] == other.min && xs[k] == stats.max && xs[l] == other.max);
    let n = xs.len() as int;
    assert(stats.mean == other.mean && stats.remainder == other.remainder) by (nonlinear_arith)
        requires
            stats.mean * n + stats.remainder == other.mean * n + other.remainder,
            0 <= stats.remainder < n,
            0 <= other.remainder < n,
    ;
    assert(stats.deviation() == other.deviation());
    assert(stats.deviation_high == other.deviation_high);
}

/// For messages that each arrive later than the one before, there is one interval
/// less than messages, their sum is the time from the first to the last message, and
/// the time between any two neighbours lies between the shortest and the longest.
pub proof fn law_statistics_of_a_topic(stats: Stats, times: Seq<u64>)
    requires
        stats.describes(gaps(times)),
        forall|i: int, j: int| 0 <= i < j < times.len() ==> times[i] < times[j],
    ensures
        stats.count == times.len() - 1,
        stats.total == times.last() - times[0],
        forall|i: int|
            0 <= i < times.len() - 1 ==> stats.min <= #[trigger] times[i + 1] - times[i]
                <= stats.max,
{
    if times.len() > 0 {
        crate::hz::window::law_each_neighbour_pair_makes_an_interval(times);
        law_intervals_add_up(times);
        assert forall|i: int| 0 <= i < times.len() - 1 implies stats.min <= #[trigger] times[i + 1]
            - times[i] <= stats.max by {
            assert(gaps(times)[i] == times[i + 1] - times[i]);
        }
    }
}

} // verus!
