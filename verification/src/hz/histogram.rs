//! How publish intervals are distributed over their range.

use crate::hz::range::extremes;
#[allow(unused_imports)]
use crate::hz::range::spans;
use vstd::prelude::*;

verus! {

/// The smallest number of bars.
pub const MIN_BINS: usize = 10;

/// The largest number of bars.
pub const MAX_BINS: usize = 40;

/// A histogram with bars of equal width from the shortest interval to the
/// longest.
#[derive(Debug)]
pub struct Histogram {
    /// The shortest interval, in nanoseconds.
    pub min: u64,
    /// The longest interval, in nanoseconds.
    pub max: u64,
    /// How many intervals fall into each bar.
    pub counts: Vec<u64>,
}

/// The number of bars that suits a chart of the given width: a bar takes four
/// columns and the frame eight, within the limits.
pub open spec fn bins_for(width: nat) -> nat {
    let fitting: int = if width < 8 {
        0
    } else {
        (width - 8) / 4
    };
    if fitting < MIN_BINS {
        MIN_BINS as nat
    } else if fitting > MAX_BINS {
        MAX_BINS as nat
    } else {
        fitting as nat
    }
}

/// Computes the number of bars that suits a chart of the given width.
pub fn bin_count(width: u16) -> (bins: usize)
    ensures
        bins == bins_for(width as nat),
        MIN_BINS <= bins <= MAX_BINS,
        10 <= bins <= 40,
        8 + 4 * bins <= width || bins == 10,
        width < 8 + 4 * (bins + 1) || bins == 40,
{
    let fitting: usize = (width as usize).saturating_sub(8) / 4;
    if fitting < MIN_BINS {
        MIN_BINS
    } else if fitting > MAX_BINS {
        MAX_BINS
    } else {
        fitting
    }
}

/// The bar that `x` falls into, of `bins` bars of equal width from `min` to
/// `max`. Where two bars meet it is the upper one, but `max` falls into the last.
/// All falls into the first where the range is empty.
pub open spec fn bin_of(x: int, min: int, max: int, bins: int) -> int {
    if max == min {
        0
    } else if (x - min) * bins / (max - min) >= bins {
        bins - 1
    } else {
        (x - min) * bins / (max - min)
    }
}

/// How many of `xs` fall into the given bar.
pub open spec fn in_bin(xs: Seq<u64>, min: int, max: int, bins: int, bin: int) -> nat
    decreases xs.len(),
{
    if xs.len() == 0 {
        0
    } else {
        in_bin(xs.drop_last(), min, max, bins, bin) + if bin_of(
            xs.last() as int,
            min,
            max,
            bins,
        ) == bin {
            1nat
        } else {
            0nat
        }
    }
}

/// The number of intervals in all bars together.
pub open spec fn bars_total(counts: Seq<u64>) -> nat
    decreases counts.len(),
{
    if counts.len() == 0 {
        0
    } else {
        bars_total(counts.drop_last()) + counts.last() as nat
    }
}

/// Whether `x` lies between the edges of a bar: not below the lower edge, and below
/// the upper one unless it is the last bar. All lies in the first bar where the range
/// is empty.
pub open spec fn lies_in_bar(x: int, min: int, max: int, bins: int, bin: int) -> bool {
    if min == max {
        bin == 0
    } else {
        &&& bin * (max - min) <= (x - min) * bins
        &&& (x - min) * bins < (bin + 1) * (max - min) || bin == bins - 1
    }
}

impl Histogram {
    /// Whether this is the histogram of `xs` with the given number of bars.
    pub open spec fn describes(self, xs: Seq<u64>, bins: int) -> bool {
        &&& spans(xs, self.min, self.max)
        &&& self.counts@.len() == bins
        &&& forall|bin: int|
            0 <= bin < bins ==> #[trigger] self.counts@[bin] == in_bin(
                xs,
                self.min as int,
                self.max as int,
                bins,
                bin,
            )
    }
}

/// Computes the bar that `x` falls into.
fn bin_index(x: u64, min: u64, max: u64, bins: usize) -> (bin: usize)
    requires
        min <= x <= max,
        0 < bins,
    ensures
        bin < bins,
        bin == bin_of(x as int, min as int, max as int, bins as int),
{
    if max == min {
        return 0;
    }
    let span: u128 = (max - min) as u128;
    let offset: u128 = (x - min) as u128;
    proof {
        assert(0 <= offset * bins <= u128::MAX) by (nonlinear_arith)
            requires
                offset <= u64::MAX,
                bins <= u64::MAX,
        ;
    }
    let scaled: u128 = offset * (bins as u128);
    let bin: u128 = scaled / span;
    if bin >= bins as u128 {
        bins - 1
    } else {
        bin as usize
    }
}

/// Counts how many intervals fall into each of `bins` bars, where there are
/// intervals.
pub fn histogram(intervals: &Vec<u64>, bins: usize) -> (histogram: Option<Histogram>)
    requires
        0 < bins,
    ensures
        match histogram {
            Some(histogram) => intervals@.len() > 0 && histogram.describes(
                intervals@,
                bins as int,
            ),
            None => intervals@.len() == 0,
        },
        match histogram {
            Some(h) => {
                &&& h.counts@.len() == bins
                &&& intervals@.contains(h.min)
                &&& intervals@.contains(h.max)
                &&& forall|bin: int|
                    0 <= bin < bins ==> #[trigger] h.counts@[bin] == intervals@.filter(
                        |x: u64| lies_in_bar(x as int, h.min as int, h.max as int, bins as int, bin),
                    ).len()
            },
            None => true,
        },
{
    let ghost xs = intervals@;
    if intervals.len() == 0 {
        return None;
    }
    let (min, max) = extremes(intervals);
    let mut counts: Vec<u64> = Vec::new();
    while counts.len() < bins
        invariant
            counts.len() <= bins,
            forall|bin: int| 0 <= bin < counts.len() ==> #[trigger] counts@[bin] == 0,
        decreases bins - counts.len(),
    {
        counts.push(0);
    }
    let mut i: usize = 0;
    while i < intervals.len()
        invariant
            xs == intervals@,
            i <= xs.len(),
            0 < bins,
            counts.len() == bins,
            forall|j: int| 0 <= j < xs.len() ==> min <= #[trigger] xs[j] <= max,
            forall|bin: int|
                0 <= bin < bins ==> #[trigger] counts@[bin] == in_bin(
                    xs.take(i as int),
                    min as int,
                    max as int,
                    bins as int,
                    bin,
                ),
            forall|bin: int| 0 <= bin < bins ==> #[trigger] counts@[bin] <= i,
        decreases xs.len() - i,
    {
        assert(min <= xs[i as int] <= max);
        let bin: usize = bin_index(intervals[i], min, max, bins);
        assert(xs.take(i + 1).drop_last() =~= xs.take(i as int));
        assert(counts@[bin as int] <= i);
        let count: u64 = counts[bin] + 1;
        counts.set(bin, count);
        i += 1;
    }
    assert(xs.take(i as int) =~= xs);
    let histogram = Histogram { min, max, counts };
    proof {
        assert forall|bin: int| 0 <= bin < bins implies #[trigger] histogram.counts@[bin]
            == xs.filter(
            |x: u64| lies_in_bar(x as int, min as int, max as int, bins as int, bin),
        ).len() by {
            law_bar_counts_what_lies_in_it(histogram, xs, bins as int, bin);
        }
    }
    Some(histogram)
}

proof fn lemma_bin_range(x: int, min: int, max: int, bins: int)
    requires
        min <= x <= max,
        0 < bins,
    ensures
        0 <= bin_of(x, min, max, bins) < bins,
{
    if max != min {
        assert(0 <= (x - min) * bins) by (nonlinear_arith)
            requires
                min <= x,
                0 < bins,
        ;
        vstd::arithmetic::div_mod::lemma_div_pos_is_pos((x - min) * bins, max - min);
    }
}

/// An interval that falls into a bar lies within it: not below its lower edge
/// and, but for the longest interval, below its upper edge. The shortest interval
/// falls into the first bar and, where intervals differ, the longest into the
/// last.
pub proof fn law_bars_cover_their_range(x: int, min: int, max: int, bins: int)
    requires
        min <= x <= max,
        0 < bins,
    ensures
        bin_of(x, min, max, bins) * (max - min) <= (x - min) * bins,
        x < max ==> (x - min) * bins < (bin_of(x, min, max, bins) + 1) * (max - min),
        bin_of(min, min, max, bins) == 0,
        min < max ==> bin_of(max, min, max, bins) == bins - 1,
{
    let span = max - min;
    let scaled = (x - min) * bins;
    if span > 0 {
        let quotient = scaled / span;
        lemma_bin_range(x, min, max, bins);
        vstd::arithmetic::div_mod::lemma_fundamental_div_mod(scaled, span);
        vstd::arithmetic::div_mod::lemma_mod_bound(scaled, span);
        assert(quotient * span <= scaled < (quotient + 1) * span) by (nonlinear_arith)
            requires
                scaled == span * quotient + scaled % span,
                0 <= scaled % span < span,
        ;
        if quotient >= bins {
            assert((bins - 1) * span <= quotient * span) by (nonlinear_arith)
                requires
                    bins <= quotient,
                    span > 0,
            ;
            if x < max {
                assert(scaled < bins * span) by (nonlinear_arith)
                    requires
                        scaled == (x - min) * bins,
                        x < max,
                        span == max - min,
                        bins > 0,
                ;
            }
        }
        assert((min - min) * bins == 0) by (nonlinear_arith);
        assert((min - min) * bins / span == 0);
        assert((max - min) * bins == bins * span) by (nonlinear_arith)
            requires
                span == max - min,
        ;
        vstd::arithmetic::div_mod::lemma_div_multiples_vanish(bins, span);
        assert(bins * span == span * bins) by (nonlinear_arith);
    } else {
        assert(scaled == 0) by (nonlinear_arith)
            requires
                scaled == (x - min) * bins,
                x == min,
        ;
    }
}

/// Every interval is counted in exactly one bar.
pub proof fn law_every_interval_is_counted(histogram: Histogram, xs: Seq<u64>, bins: int)
    requires
        0 < bins,
        histogram.describes(xs, bins),
    ensures
        bars_total(histogram.counts@) == xs.len(),
{
    lemma_bars_total(
        histogram.counts@,
        xs,
        histogram.min as int,
        histogram.max as int,
        bins,
        bins,
    );
    lemma_below_all_bins(xs, histogram.min as int, histogram.max as int, bins);
    assert(histogram.counts@.take(bins) =~= histogram.counts@);
}

/// How many of `xs` fall into one of the first `limit` bars.
spec fn below_bin(xs: Seq<u64>, min: int, max: int, bins: int, limit: int) -> nat
    decreases xs.len(),
{
    if xs.len() == 0 {
        0
    } else {
        below_bin(xs.drop_last(), min, max, bins, limit) + if bin_of(
            xs.last() as int,
            min,
            max,
            bins,
        ) < limit {
            1nat
        } else {
            0nat
        }
    }
}

proof fn lemma_below_step(xs: Seq<u64>, min: int, max: int, bins: int, limit: int)
    ensures
        below_bin(xs, min, max, bins, limit + 1) == below_bin(xs, min, max, bins, limit) + in_bin(
            xs,
            min,
            max,
            bins,
            limit,
        ),
    decreases xs.len(),
{
    if xs.len() > 0 {
        lemma_below_step(xs.drop_last(), min, max, bins, limit);
    }
}

proof fn lemma_below_none(xs: Seq<u64>, min: int, max: int, bins: int)
    requires
        0 < bins,
        forall|i: int| 0 <= i < xs.len() ==> min <= #[trigger] xs[i] <= max,
    ensures
        below_bin(xs, min, max, bins, 0) == 0,
    decreases xs.len(),
{
    if xs.len() > 0 {
        let shorter = xs.drop_last();
        assert forall|i: int| 0 <= i < shorter.len() implies min <= #[trigger] shorter[i]
            <= max by {
            assert(min <= xs[i] <= max);
        }
        lemma_below_none(shorter, min, max, bins);
        assert(min <= xs[xs.len() - 1] <= max);
        lemma_bin_range(xs.last() as int, min, max, bins);
    }
}

proof fn lemma_below_all_bins(xs: Seq<u64>, min: int, max: int, bins: int)
    requires
        0 < bins,
        forall|i: int| 0 <= i < xs.len() ==> min <= #[trigger] xs[i] <= max,
    ensures
        below_bin(xs, min, max, bins, bins) == xs.len(),
    decreases xs.len(),
{
    if xs.len() > 0 {
        let shorter = xs.drop_last();
        assert forall|i: int| 0 <= i < shorter.len() implies min <= #[trigger] shorter[i]
            <= max by {
            assert(min <= xs[i] <= max);
        }
        lemma_below_all_bins(shorter, min, max, bins);
        assert(min <= xs[xs.len() - 1] <= max);
        lemma_bin_range(xs.last() as int, min, max, bins);
    }
}

proof fn lemma_bars_total(
    counts: Seq<u64>,
    xs: Seq<u64>,
    min: int,
    max: int,
    bins: int,
    limit: int,
)
    requires
        0 < bins,
        0 <= limit <= bins == counts.len(),
        forall|i: int| 0 <= i < xs.len() ==> min <= #[trigger] xs[i] <= max,
        forall|bin: int|
            0 <= bin < bins ==> #[trigger] counts[bin] == in_bin(xs, min, max, bins, bin),
    ensures
        bars_total(counts.take(limit)) == below_bin(xs, min, max, bins, limit),
    decreases limit,
{
    if limit == 0 {
        lemma_below_none(xs, min, max, bins);
    } else {
        lemma_bars_total(counts, xs, min, max, bins, limit - 1);
        lemma_below_step(xs, min, max, bins, limit - 1);
        assert(counts.take(limit).drop_last() =~= counts.take(limit - 1));
        assert(counts[limit - 1] == in_bin(xs, min, max, bins, limit - 1));
    }
}

/// The number of bars is as large as the width has room for, with four columns for
/// each and eight besides, but at least ten and at most forty.
pub proof fn law_bars_fill_the_width(width: nat)
    ensures
        10 <= bins_for(width) <= 40,
        8 + 4 * bins_for(width) <= width || bins_for(width) == 10,
        width < 8 + 4 * (bins_for(width) + 1) || bins_for(width) == 40,
{
}

proof fn lemma_bar_by_edges(x: int, min: int, max: int, bins: int, bin: int)
    requires
        min <= x <= max,
        0 < bins,
        0 <= bin < bins,
    ensures
        bin_of(x, min, max, bins) == bin <==> lies_in_bar(x, min, max, bins, bin),
{
    if min < max {
        law_bars_cover_their_range(x, min, max, bins);
        lemma_bin_range(x, min, max, bins);
        let span = max - min;
        let found = bin_of(x, min, max, bins);
        let scaled = (x - min) * bins;
        if x == max {
            assert(scaled == bins * span) by (nonlinear_arith)
                requires
                    scaled == (x - min) * bins,
                    x - min == span,
            ;
            assert((bin + 1) * span <= bins * span) by (nonlinear_arith)
                requires
                    bin + 1 <= bins,
                    span > 0,
            ;
            assert(bin * span <= bins * span) by (nonlinear_arith)
                requires
                    bin <= bins,
                    span > 0,
            ;
        } else {
            if found < bin {
                assert((found + 1) * span <= bin * span) by (nonlinear_arith)
                    requires
                        found + 1 <= bin,
                        span > 0,
                ;
            }
            if bin < found {
                assert((bin + 1) * span <= found * span) by (nonlinear_arith)
                    requires
                        bin + 1 <= found,
                        span > 0,
                ;
            }
        }
    }
}

proof fn lemma_in_bin_by_edges(xs: Seq<u64>, min: int, max: int, bins: int, bin: int)
    requires
        0 < bins,
        0 <= bin < bins,
        forall|i: int| 0 <= i < xs.len() ==> min <= #[trigger] xs[i] <= max,
    ensures
        in_bin(xs, min, max, bins, bin) == xs.filter(
            |x: u64| lies_in_bar(x as int, min, max, bins, bin),
        ).len(),
        in_bin(xs, min, max, bins, bin) == xs.filter(
            |x: u64| bin_of(x as int, min, max, bins) == bin,
        ).len(),
    decreases xs.len(),
{
    reveal(Seq::filter);
    if xs.len() > 0 {
        let shorter = xs.drop_last();
        assert forall|i: int| 0 <= i < shorter.len() implies min <= #[trigger] shorter[i]
            <= max by {
            assert(min <= xs[i] <= max);
        }
        lemma_in_bin_by_edges(shorter, min, max, bins, bin);
        assert(min <= xs[xs.len() - 1] <= max);
        lemma_bar_by_edges(xs.last() as int, min, max, bins, bin);
    }
}

/// A bar counts the intervals that lie in it, and no others. Where intervals differ,
/// these are, for a bar below the last, those from its lower edge to below its upper
/// edge, and for the last bar those from its lower edge on. Where all are equal, they
/// are all in the first bar.
pub proof fn law_bar_counts_what_lies_in_it(
    histogram: Histogram,
    xs: Seq<u64>,
    bins: int,
    bin: int,
)
    requires
        0 < bins,
        0 <= bin < bins,
        histogram.describes(xs, bins),
    ensures
        histogram.counts@.len() == bins,
        xs.contains(histogram.min),
        xs.contains(histogram.max),
        forall|i: int| 0 <= i < xs.len() ==> histogram.min <= #[trigger] xs[i] <= histogram.max,
        histogram.counts@[bin] == xs.filter(
            |x: u64|
                bin_of(x as int, histogram.min as int, histogram.max as int, bins) == bin,
        ).len(),
        histogram.counts@[bin] == xs.filter(
            |x: u64|
                lies_in_bar(x as int, histogram.min as int, histogram.max as int, bins, bin),
        ).len(),
        histogram.min < histogram.max && bin < bins - 1 ==> histogram.counts@[bin] == xs.filter(
            |x: u64|
                bin * (histogram.max - histogram.min) <= (x - histogram.min) * bins < (bin + 1) * (
                histogram.max - histogram.min),
        ).len(),
        histogram.min < histogram.max && bin == bins - 1 ==> histogram.counts@[bin] == xs.filter(
            |x: u64| bin * (histogram.max - histogram.min) <= (x - histogram.min) * bins,
        ).len(),
        histogram.min == histogram.max ==> histogram.counts@[bin] == if bin == 0 {
            xs.len()
        } else {
            0
        },
{
    let min = histogram.min as int;
    let max = histogram.max as int;
    lemma_in_bin_by_edges(xs, min, max, bins, bin);
    let inside = |x: u64| lies_in_bar(x as int, min, max, bins, bin);
    if min < max && bin < bins - 1 {
        assert(inside =~= |x: u64|
            bin * (histogram.max - histogram.min) <= (x - histogram.min) * bins < (bin + 1) * (
            histogram.max - histogram.min));
    }
    if min < max && bin == bins - 1 {
        assert(inside =~= |x: u64|
            bin * (histogram.max - histogram.min) <= (x - histogram.min) * bins);
    }
    if min == max {
        lemma_filter_all_or_none(xs, inside, bin == 0);
    }
}

proof fn lemma_filter_all_or_none(xs: Seq<u64>, inside: spec_fn(u64) -> bool, all: bool)
    requires
        forall|x: u64| #[trigger] inside(x) == all,
    ensures
        xs.filter(inside).len() == if all {
            xs.len()
        } else {
            0
        },
    decreases xs.len(),
{
    reveal(Seq::filter);
    if xs.len() > 0 {
        lemma_filter_all_or_none(xs.drop_last(), inside, all);
        assert(inside(xs.last()) == all);
    }
}

/// No bars hold no intervals, and one more bar adds what it counts.
pub proof fn law_total_adds_every_bar(counts: Seq<u64>, count: u64)
    ensures
        bars_total(Seq::<u64>::empty()) == 0,
        bars_total(counts.push(count)) == bars_total(counts) + count,
{
    assert(counts.push(count).drop_last() =~= counts);
}

} // verus!
