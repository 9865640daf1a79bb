//! When an output was published, over a sliding window of time.

use std::collections::VecDeque;
use vstd::prelude::*;

verus! {

/// Nanoseconds in a second.
pub const NANOS_PER_SEC: u128 = 1_000_000_000;

/// The time over which the current rate is measured, in nanoseconds.
pub const SUB_WINDOW_NANOS: u128 = 200_000_000;

/// How many sub-windows make up a second.
const SUB_WINDOWS_PER_SEC: u64 = 5;

/// The moments at which messages arrived, in the order in which they were
/// recorded, as far as they lie in the window that ends at the latest one.
#[derive(Debug)]
pub struct HzStats {
    pub timestamps: VecDeque<u64>,
    /// The length of the window in nanoseconds.
    pub window_nanos: u128,
}

/// How many moments at the beginning of `times` lie before `cutoff`.
pub open spec fn stale(times: Seq<u64>, cutoff: int) -> nat
    decreases times.len(),
{
    if times.len() > 0 && times[0] < cutoff {
        1 + stale(times.drop_first(), cutoff)
    } else {
        0
    }
}

/// The moments kept after one more arrives: it comes last, and those at the
/// beginning that lie before the window are dropped, up to the first that does
/// not.
pub open spec fn recorded(times: Seq<u64>, now: u64, window: nat) -> Seq<u64> {
    let longer = times.push(now);
    longer.skip(stale(longer, now - window) as int)
}

/// The moments kept after those of `times` have arrived one after the other.
pub open spec fn replayed(times: Seq<u64>, window: nat) -> Seq<u64>
    decreases times.len(),
{
    if times.len() == 0 {
        Seq::empty()
    } else {
        recorded(replayed(times.drop_last(), window), times.last(), window)
    }
}

/// The lengths of the times between neighbours, in order, without those that
/// are zero or would be negative.
pub open spec fn gaps(times: Seq<u64>) -> Seq<u64>
    decreases times.len(),
{
    if times.len() < 2 {
        Seq::empty()
    } else {
        let before = gaps(times.drop_last());
        let previous = times[times.len() - 2];
        if times.last() > previous {
            before.push((times.last() - previous) as u64)
        } else {
            before
        }
    }
}

/// How many moments at the end of `times` do not lie before `cutoff`.
pub open spec fn fresh(times: Seq<u64>, cutoff: int) -> nat
    decreases times.len(),
{
    if times.len() > 0 && times.last() >= cutoff {
        1 + fresh(times.drop_last(), cutoff)
    } else {
        0
    }
}

/// Whether no moment lies before an earlier recorded one.
pub open spec fn ascending(times: Seq<u64>) -> bool {
    forall|i: int, j: int| 0 <= i <= j < times.len() ==> times[i] <= times[j]
}

proof fn lemma_stale(times: Seq<u64>, cutoff: int)
    ensures
        stale(times, cutoff) <= times.len(),
        forall|i: int| 0 <= i < stale(times, cutoff) ==> #[trigger] times[i] < cutoff,
        stale(times, cutoff) < times.len() ==> times[stale(times, cutoff) as int] >= cutoff,
    decreases times.len(),
{
    if times.len() > 0 && times[0] < cutoff {
        let rest = times.drop_first();
        lemma_stale(rest, cutoff);
        assert forall|i: int| 0 <= i < stale(times, cutoff) implies #[trigger] times[i]
            < cutoff by {
            if i > 0 {
                assert(rest[i - 1] < cutoff);
            }
        }
    }
}

proof fn lemma_stale_is(times: Seq<u64>, cutoff: int, k: int)
    requires
        0 <= k <= times.len(),
        forall|i: int| 0 <= i < k ==> #[trigger] times[i] < cutoff,
        k < times.len() ==> times[k] >= cutoff,
    ensures
        stale(times, cutoff) == k,
{
    lemma_stale(times, cutoff);
    let s = stale(times, cutoff) as int;
    if s < k {
        assert(times[s] < cutoff);
    }
    if k < s {
        assert(times[k] < cutoff);
    }
}

/// What counts as recent is the longest end of the moments of which none lies
/// before the cutoff.
pub proof fn law_fresh_is_the_recent_end(times: Seq<u64>, cutoff: int)
    ensures
        fresh(times, cutoff) <= times.len(),
        forall|i: int|
            times.len() - fresh(times, cutoff) <= i < times.len() ==> #[trigger] times[i] >= cutoff,
        fresh(times, cutoff) < times.len() ==> times[times.len() - fresh(times, cutoff) - 1]
            < cutoff,
    decreases times.len(),
{
    if times.len() > 0 && times.last() >= cutoff {
        let rest = times.drop_last();
        law_fresh_is_the_recent_end(rest, cutoff);
        assert forall|i: int|
            times.len() - fresh(times, cutoff) <= i < times.len() implies #[trigger] times[i]
            >= cutoff by {
            if i < times.len() - 1 {
                assert(rest[i] >= cutoff);
            }
        }
    }
}

impl HzStats {
    /// A window of the given length, in seconds, in which nothing has arrived.
    pub fn new(window_secs: usize) -> (stats: HzStats)
        ensures
            stats.timestamps@ == Seq::<u64>::empty(),
            stats.window_nanos == window_secs * NANOS_PER_SEC,
            stats.window_nanos == window_secs * 1_000_000_000,
    {
        HzStats {
            timestamps: VecDeque::new(),
            window_nanos: window_secs as u128 * NANOS_PER_SEC,
        }
    }

    /// Records that a message arrived at `now`. The window may reach back beyond
    /// the first moment that is counted from; whether a clock can tell moments that
    /// early is for whoever reads the clock to test.
    pub fn record(&mut self, now: u64)
        ensures
            final(self).window_nanos == old(self).window_nanos,
            final(self).timestamps@ == recorded(
                old(self).timestamps@,
                now,
                old(self).window_nanos as nat,
            ),
            final(self).timestamps@.len() > 0,
            final(self).timestamps@.last() == now,
            final(self).timestamps@.len() <= old(self).timestamps@.len() + 1,
            final(self).timestamps@ == old(self).timestamps@.push(now).skip(
                old(self).timestamps@.len() + 1 - final(self).timestamps@.len(),
            ),
            final(self).timestamps@[0] >= now - old(self).window_nanos,
            forall|i: int|
                0 <= i < old(self).timestamps@.len() + 1 - final(self).timestamps@.len()
                    ==> #[trigger] old(self).timestamps@.push(now)[i] < now - old(
                    self,
                ).window_nanos,
    {
        self.timestamps.push_back(now);
        let ghost longer = self.timestamps@;
        let ghost cutoff = now - self.window_nanos;
        let ghost mut dropped: int = 0;
        assert(longer.skip(0) =~= longer);
        while self.timestamps.len() > 0 && self.outdated(self.timestamps[0], now)
            invariant
                0 <= dropped <= longer.len(),
                self.timestamps@ == longer.skip(dropped),
                self.window_nanos == old(self).window_nanos,
                cutoff == now - self.window_nanos,
                forall|i: int| 0 <= i < dropped ==> #[trigger] longer[i] < cutoff,
            decreases self.timestamps@.len(),
        {
            let _ = self.timestamps.pop_front();
            proof {
                assert(longer.skip(dropped)[0] == longer[dropped]);
                dropped = dropped + 1;
                assert(self.timestamps@ =~= longer.skip(dropped));
            }
        }
        proof {
            lemma_stale_is(longer, cutoff, dropped);
            if dropped == longer.len() {
                assert(longer[dropped - 1] == now);
            }
        }
    }

    /// Whether `time` lies before the window that ends at `now`.
    fn outdated(&self, time: u64, now: u64) -> (outdated: bool)
        ensures
            outdated == (time < now - self.window_nanos),
    {
        now as u128 > self.window_nanos && (time as u128) < now as u128 - self.window_nanos
    }

    /// The times between neighbouring arrivals, in nanoseconds.
    pub fn intervals(&self) -> (intervals: Vec<u64>)
        ensures
            intervals@ == gaps(self.timestamps@),
            intervals@.map_values(|gap: u64| gap as int) == Seq::new(
                if self.timestamps@.len() > 0 {
                    (self.timestamps@.len() - 1) as nat
                } else {
                    0
                },
                |i: int| self.timestamps@[i + 1] - self.timestamps@[i],
            ).filter(|step: int| step > 0),
    {
        let mut intervals: Vec<u64> = Vec::new();
        let mut i: usize = 1;
        let ghost times = self.timestamps@;
        proof {
            if times.len() > 0 {
                assert(times.take(1).len() < 2);
            }
        }
        while i < self.timestamps.len()
            invariant
                1 <= i,
                times == self.timestamps@,
                times.len() > 0 ==> i <= times.len(),
                times.len() > 0 ==> intervals@ == gaps(times.take(i as int)),
                times.len() == 0 ==> intervals@ == Seq::<u64>::empty(),
            decreases times.len() - i,
        {
            let previous = self.timestamps[i - 1];
            let current = self.timestamps[i];
            if current > previous {
                intervals.push(current - previous);
            }
            proof {
                assert(times.take(i + 1).drop_last() =~= times.take(i as int));
            }
            i += 1;
        }
        proof {
            if times.len() > 0 {
                assert(times.take(i as int) =~= times);
            }
            law_intervals_are_the_positive_steps(times);
        }
        intervals
    }

    /// How many of the latest messages arrived within the sub-window that ends
    /// at `now`.
    pub fn recent_count(&self, now: u64) -> (count: usize)
        ensures
            count == fresh(self.timestamps@, now - SUB_WINDOW_NANOS),
            count <= self.timestamps@.len(),
            forall|i: int|
                self.timestamps@.len() - count <= i < self.timestamps@.len()
                    ==> #[trigger] self.timestamps@[i] >= now - 200_000_000,
            count < self.timestamps@.len() ==> self.timestamps@[self.timestamps@.len() - count - 1]
                < now - 200_000_000,
    {
        let ghost times = self.timestamps@;
        let ghost cutoff = now - SUB_WINDOW_NANOS;
        let mut count: usize = 0;
        let total: usize = self.timestamps.len();
        let mut left: usize = total;
        assert(times.take(left as int) =~= times);
        while left > 0
            invariant
                times == self.timestamps@,
                cutoff == now - SUB_WINDOW_NANOS,
                total == times.len(),
                left <= total,
                count == total - left,
                fresh(times, cutoff) == count + fresh(times.take(left as int), cutoff),
            decreases left,
        {
            let time = self.timestamps[left - 1];
            assert(times.take(left as int).last() == time);
            if (time as u128) + SUB_WINDOW_NANOS < now as u128 {
                proof {
                    law_fresh_is_the_recent_end(times, cutoff);
                }
                return count;
            }
            assert(times.take(left as int).drop_last() =~= times.take(left - 1));
            count += 1;
            left -= 1;
        }
        proof {
            law_fresh_is_the_recent_end(times, cutoff);
        }
        count
    }
}

/// The current rate, in messages per second, of an output with `count` messages
/// in the sub-window; the largest number that can be shown where it is larger.
pub open spec fn rate_of(count: nat) -> nat {
    let rate = count * NANOS_PER_SEC as nat / SUB_WINDOW_NANOS as nat;
    if rate > u64::MAX {
        u64::MAX as nat
    } else {
        rate
    }
}

/// Computes the current rate, in messages per second.
pub fn current_rate(count: usize) -> (rate: u64)
    ensures
        rate == rate_of(count as nat),
        5 * count <= u64::MAX ==> rate * 200_000_000 == count * 1_000_000_000,
        5 * count > u64::MAX ==> rate == u64::MAX,
{
    let count: u64 = count as u64;
    if count > u64::MAX / SUB_WINDOWS_PER_SEC {
        u64::MAX
    } else {
        count * SUB_WINDOWS_PER_SEC
    }
}

/// Once a message has been recorded, its moment is the last one kept, and
/// keeping never changes or reorders moments: what is kept is an end of what was
/// there, followed by the new moment.
pub proof fn law_newest_is_kept(times: Seq<u64>, now: u64, window: nat)
    ensures
        recorded(times, now, window).len() > 0,
        recorded(times, now, window).last() == now,
        recorded(times, now, window).len() <= times.len() + 1,
        recorded(times, now, window) == times.push(now).skip(
            times.len() + 1 - recorded(times, now, window).len(),
        ),
{
    let longer = times.push(now);
    lemma_stale(longer, now - window);
    if stale(longer, now - window) == longer.len() {
        assert(longer[longer.len() - 1] < now - window);
    }
}

/// While the clock does not go back, what is kept are exactly the arrivals of
/// the window that ends at the latest one, in order.
pub proof fn law_window_holds_the_recent_arrivals(times: Seq<u64>, window: nat)
    requires
        ascending(times),
        times.len() > 0,
    ensures
        replayed(times, window) == times.filter(|time: u64| time >= times.last() - window),
        ascending(replayed(times, window)),
{
    let cutoff = times.last() - window;
    lemma_replayed_is_a_suffix(times, window);
    lemma_filter_is_a_suffix(times, cutoff);
    lemma_stale(times, cutoff);
    let s = stale(times, cutoff) as int;
    assert forall|i: int, j: int| 0 <= i <= j < times.skip(s).len() implies times.skip(s)[i]
        <= times.skip(s)[j] by {
        assert(times[i + s] <= times[j + s]);
    }
}

proof fn lemma_replayed_is_a_suffix(times: Seq<u64>, window: nat)
    requires
        ascending(times),
        times.len() > 0,
    ensures
        replayed(times, window) == times.skip(stale(times, times.last() - window) as int),
    decreases times.len(),
{
    let now = times.last();
    let cutoff = now - window;
    let earlier = times.drop_last();
    let kept = replayed(earlier, window);
    lemma_stale(times, cutoff);
    let s = stale(times, cutoff) as int;
    let d = if earlier.len() == 0 {
        0
    } else {
        stale(earlier, earlier.last() - window) as int
    };
    if earlier.len() > 0 {
        lemma_replayed_is_a_suffix(earlier, window);
        lemma_stale(earlier, earlier.last() - window);
    }
    assert(kept =~= earlier.skip(d));
    let longer = kept.push(now);
    assert(longer =~= times.skip(d));
    assert(times[times.len() - 1] == now);
    assert(d <= s) by {
        if s < d {
            assert(earlier[s] < earlier.last() - window);
            assert(times[s] >= cutoff);
        }
    }
    assert forall|i: int| 0 <= i < s - d implies #[trigger] longer[i] < cutoff by {
        assert(times[i + d] < cutoff);
    }
    if s - d < longer.len() {
        assert(longer[s - d] == times[s]);
    }
    lemma_stale_is(longer, cutoff, s - d);
    assert(longer.skip(s - d) =~= times.skip(s));
}

proof fn lemma_filter_is_a_suffix(times: Seq<u64>, cutoff: int)
    requires
        ascending(times),
    ensures
        times.filter(|time: u64| time >= cutoff) == times.skip(stale(times, cutoff) as int),
    decreases times.len(),
{
    reveal(Seq::filter);
    let keep = |time: u64| time >= cutoff;
    lemma_stale(times, cutoff);
    if times.len() > 0 {
        let shorter = times.drop_last();
        lemma_filter_is_a_suffix(shorter, cutoff);
        lemma_stale(shorter, cutoff);
        let s = stale(times, cutoff) as int;
        if times.last() >= cutoff {
            assert(s < times.len()) by {
                if s == times.len() {
                    assert(times[s - 1] < cutoff);
                }
            }
            assert forall|i: int| 0 <= i < s implies #[trigger] shorter[i] < cutoff by {
                assert(times[i] < cutoff);
            }
            lemma_stale_is(shorter, cutoff, s);
            assert(times.filter(keep) =~= times.skip(s));
        } else {
            assert(s == times.len()) by {
                if s < times.len() {
                    assert(times[s] <= times[times.len() - 1]);
                }
            }
            assert forall|i: int| 0 <= i < shorter.len() implies #[trigger] shorter[i]
                < cutoff by {
                assert(times[i] < cutoff);
            }
            lemma_stale_is(shorter, cutoff, shorter.len() as int);
            assert(times.filter(keep) =~= times.skip(s));
        }
    } else {
        assert(times.filter(keep) =~= times.skip(0));
    }
}

/// While the clock does not go back, the current rate counts exactly the
/// arrivals within the sub-window.
pub proof fn law_rate_counts_the_sub_window(times: Seq<u64>, cutoff: int)
    requires
        ascending(times),
    ensures
        fresh(times, cutoff) == times.filter(|time: u64| time >= cutoff).len(),
{
    lemma_filter_is_a_suffix(times, cutoff);
    lemma_stale(times, cutoff);
    law_fresh_is_the_recent_end(times, cutoff);
    let s = stale(times, cutoff) as int;
    let f = times.len() - fresh(times, cutoff);
    if s < f {
        assert(times[s] <= times[f - 1]);
    }
    if f < s {
        assert(times[f] < cutoff);
    }
}

/// Moments ascend exactly where each of two is no later than the one recorded after
/// it.
pub proof fn law_ascending_compares_all_moments(times: Seq<u64>)
    ensures
        ascending(times) <==> forall|i: int, j: int|
            0 <= i <= j < times.len() ==> times[i] <= times[j],
{
}

/// Recording drops exactly the moments at the beginning that lie before the window:
/// all that are dropped do, and the first that is kept does not.
pub proof fn law_only_outdated_moments_are_dropped(times: Seq<u64>, now: u64, window: nat)
    ensures
        0 < recorded(times, now, window).len() <= times.len() + 1,
        recorded(times, now, window)[0] >= now - window,
        forall|i: int|
            0 <= i < times.len() + 1 - recorded(times, now, window).len()
                ==> #[trigger] times.push(now)[i] < now - window,
{
    law_newest_is_kept(times, now, window);
    lemma_stale(times.push(now), now - window);
}

/// Replaying starts from nothing, and each further arrival is recorded on top of
/// those before it.
pub proof fn law_replaying_records_one_by_one(times: Seq<u64>, now: u64, window: nat)
    ensures
        replayed(Seq::empty(), window) == Seq::<u64>::empty(),
        replayed(times.push(now), window) == recorded(replayed(times, window), now, window),
{
    assert(times.push(now).drop_last() =~= times);
}

/// The intervals are the differences between neighbours, in order, of which those
/// above zero count.
pub proof fn law_intervals_are_the_positive_steps(times: Seq<u64>)
    ensures
        gaps(times).map_values(|gap: u64| gap as int) == Seq::new(
            if times.len() > 0 {
                (times.len() - 1) as nat
            } else {
                0
            },
            |i: int| times[i + 1] - times[i],
        ).filter(|step: int| step > 0),
    decreases times.len(),
{
    reveal(Seq::filter);
    let steps = Seq::new(
        if times.len() > 0 {
            (times.len() - 1) as nat
        } else {
            0
        },
        |i: int| times[i + 1] - times[i],
    );
    let above = |step: int| step > 0;
    if times.len() >= 2 {
        let shorter = times.drop_last();
        let fewer = Seq::new((shorter.len() - 1) as nat, |i: int| shorter[i + 1] - shorter[i]);
        law_intervals_are_the_positive_steps(shorter);
        assert(steps.drop_last() =~= fewer);
        assert(steps.last() == times.last() - times[times.len() - 2]);
        assert(gaps(times).map_values(|gap: u64| gap as int) =~= steps.filter(above));
    } else {
        assert(gaps(times).map_values(|gap: u64| gap as int) =~= steps.filter(above));
    }
}

/// Where every moment is later than the one before it, there is one interval for
/// each two neighbours, and it is the time between them.
pub proof fn law_each_neighbour_pair_makes_an_interval(times: Seq<u64>)
    requires
        times.len() > 0,
        forall|i: int, j: int| 0 <= i < j < times.len() ==> times[i] < times[j],
    ensures
        gaps(times).len() == times.len() - 1,
        forall|i: int|
            0 <= i < times.len() - 1 ==> #[trigger] gaps(times)[i] == times[i + 1] - times[i],
    decreases times.len(),
{
    if times.len() >= 2 {
        let shorter = times.drop_last();
        law_each_neighbour_pair_makes_an_interval(shorter);
        assert(times[times.len() - 2] < times[times.len() - 1]);
        assert forall|i: int| 0 <= i < times.len() - 1 implies #[trigger] gaps(times)[i]
            == times[i + 1] - times[i] by {
            if i < times.len() - 2 {
                assert(gaps(shorter)[i] == shorter[i + 1] - shorter[i]);
            }
        }
    }
}

/// The rate is the count over the time of the sub-window, a fifth of a second: below
/// the limit it grows in proportion to the count, and counts that are taken together
/// have the sum of their rates. From the limit on it stays there.
pub proof fn law_rate_is_messages_per_second(a: nat, b: nat)
    ensures
        5 * a <= u64::MAX ==> rate_of(a) * 200_000_000 == a * 1_000_000_000,
        5 * a > u64::MAX ==> rate_of(a) == u64::MAX,
        5 * (a + b) <= u64::MAX ==> rate_of(a + b) == rate_of(a) + rate_of(b),
        a <= b ==> rate_of(a) <= rate_of(b),
{
}

} // verus!
