//! The range of a list of intervals.

use vstd::prelude::*;

verus! {

/// Whether `min` is the shortest and `max` the longest of the intervals.
pub open spec fn spans(xs: Seq<u64>, min: u64, max: u64) -> bool {
    &&& xs.contains(min)
    &&& xs.contains(max)
    &&& forall|i: int| 0 <= i < xs.len() ==> min <= #[trigger] xs[i] <= max
}

/// Finds the shortest and the longest interval.
pub(crate) fn extremes(intervals: &Vec<u64>) -> (range: (u64, u64))
    requires
        intervals@.len() > 0,
    ensures
        spans(intervals@, range.0, range.1),
        intervals@.contains(range.0),
        intervals@.contains(range.1),
        forall|i: int|
            0 <= i < intervals@.len() ==> range.0 <= #[trigger] intervals@[i] <= range.1,
{
    let ghost xs = intervals@;
    let mut min: u64 = intervals[0];
    let mut max: u64 = intervals[0];
    assert(xs[0] == min);
    let mut i: usize = 1;
    while i < intervals.len()
        invariant
            xs == intervals@,
            1 <= i <= xs.len(),
            xs.contains(min),
            xs.contains(max),
            forall|j: int| 0 <= j < i ==> min <= #[trigger] xs[j] <= max,
        decreases xs.len() - i,
    {
        let x: u64 = intervals[i];
        assert(xs[i as int] == x);
        if x < min {
            min = x;
        }
        if x > max {
            max = x;
        }
        i += 1;
    }
    (min, max)
}

/// The range ends at two of the intervals, and none lies outside it.
pub proof fn law_range_is_tight(xs: Seq<u64>, min: u64, max: u64)
    ensures
        spans(xs, min, max) <==> {
            &&& exists|i: int| 0 <= i < xs.len() && #[trigger] xs[i] == min
            &&& exists|i: int| 0 <= i < xs.len() && #[trigger] xs[i] == max
            &&& forall|i: int| 0 <= i < xs.len() ==> min <= #[trigger] xs[i] <= max
        },
{
}

} // verus!
