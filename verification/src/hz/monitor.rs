//! The entries of the display, and what changes them.

use crate::hz::keys::{select, Flow, KeyPress};
use crate::hz::subscriber::{SubscriberAction, SubscriberEvent};
use crate::hz::window::{current_rate, HzStats, NANOS_PER_SEC, SUB_WINDOW_NANOS};
#[allow(unused_imports)]
use crate::hz::window::{fresh, rate_of, recorded, replayed};
use crate::topic::{ordered_topics, TopicIdentifier, TopicName};
#[allow(unused_imports)]
use crate::topic::{all_name, names, shows};
use std::collections::VecDeque;
use vstd::prelude::*;

verus! {

/// How many rates are kept for each entry.
pub const SERIES_CAPACITY: usize = 240;

/// An entry of the display.
#[derive(Debug)]
pub struct HzRow {
    pub topic: TopicIdentifier,
    pub stats: HzStats,
    /// The latest rates, in messages per second, oldest first.
    pub series: VecDeque<u64>,
}

/// The entries of the display and which of them is selected.
#[derive(Debug)]
pub struct HzMonitor {
    pub rows: Vec<HzRow>,
    pub selected: usize,
    /// When measuring began.
    pub start: u64,
    /// The length of the window in nanoseconds.
    pub window_nanos: u128,
}

/// The topics that the entries stand for.
pub open spec fn row_names(rows: Seq<HzRow>) -> Seq<TopicName> {
    rows.map_values(|row: HzRow| row.topic@)
}

/// The moments kept for an entry after a message arrived on `topic`. It counts
/// for the entry of that topic and for the entry of all topics: for the latter
/// twice if it is itself what was named.
pub open spec fn row_recorded(
    name: TopicName,
    times: Seq<u64>,
    topic: TopicName,
    now: u64,
    window: nat,
) -> Seq<u64> {
    if name == all_name() {
        if topic == all_name() {
            recorded(recorded(times, now, window), now, window)
        } else {
            recorded(times, now, window)
        }
    } else if name == topic {
        recorded(times, now, window)
    } else {
        times
    }
}

/// A series of rates after one more: once it is full, the oldest makes room.
pub open spec fn series_pushed(series: Seq<u64>, rate: u64) -> Seq<u64> {
    if series.len() >= SERIES_CAPACITY {
        series.drop_first().push(rate)
    } else {
        series.push(rate)
    }
}

impl HzMonitor {
    /// The first entry is that of all topics, the others follow in order, each
    /// once; an entry is selected; all entries measure over the same window, and
    /// all have the same number of rates, no more than are kept.
    pub open spec fn wf(self) -> bool {
        &&& self.selected < self.rows@.len()
        &&& shows(row_names(self.rows@), row_names(self.rows@).skip(1))
        &&& forall|i: int|
            0 <= i < self.rows@.len() ==> {
                &&& (#[trigger] self.rows@[i]).stats.window_nanos == self.window_nanos
                &&& self.rows@[i].series@.len() == self.rows@[0].series@.len() <= SERIES_CAPACITY
            }
    }

    /// Whether `after` is this display once a message arrived on `topic`: but for
    /// the moments kept, nothing has changed.
    pub open spec fn with_output(self, after: HzMonitor, topic: TopicName, now: u64) -> bool {
        &&& after.selected == self.selected
        &&& after.start == self.start
        &&& after.window_nanos == self.window_nanos
        &&& after.rows@.len() == self.rows@.len()
        &&& forall|i: int|
            0 <= i < self.rows@.len() ==> {
                &&& (#[trigger] after.rows@[i]).topic == self.rows@[i].topic
                &&& after.rows@[i].series == self.rows@[i].series
                &&& after.rows@[i].stats.window_nanos == self.rows@[i].stats.window_nanos
                &&& after.rows@[i].stats.timestamps@ == row_recorded(
                    self.rows@[i].topic@,
                    self.rows@[i].stats.timestamps@,
                    topic,
                    now,
                    self.window_nanos as nat,
                )
            }
    }

    /// The entries for the given topics, measured over a window of the given
    /// length in seconds, with the first entry selected and nothing recorded.
    pub fn new(topics: &Vec<TopicIdentifier>, window: usize, start: u64) -> (monitor: HzMonitor)
        ensures
            monitor.wf(),
            shows(row_names(monitor.rows@), names(topics@)),
            monitor.selected == 0,
            monitor.start == start,
            monitor.window_nanos == window * NANOS_PER_SEC,
            monitor.window_nanos == window * 1_000_000_000,
            forall|i: int|
                0 <= i < monitor.rows@.len() ==> {
                    &&& (#[trigger] monitor.rows@[i]).stats.timestamps@ == Seq::<u64>::empty()
                    &&& monitor.rows@[i].series@ == Seq::<u64>::empty()
                },
    {
        let ordered = ordered_topics(topics);
        let mut rows: Vec<HzRow> = Vec::new();
        let mut i: usize = 0;
        while i < ordered.len()
            invariant
                i <= ordered.len(),
                rows.len() == i,
                forall|j: int|
                    0 <= j < i ==> {
                        &&& (#[trigger] rows@[j]).topic@ == ordered@[j]@
                        &&& rows@[j].stats.window_nanos == window * NANOS_PER_SEC
                        &&& rows@[j].stats.timestamps@ == Seq::<u64>::empty()
                        &&& rows@[j].series@ == Seq::<u64>::empty()
                    },
            decreases ordered.len() - i,
        {
            let row = HzRow {
                topic: ordered[i].copied(),
                stats: HzStats::new(window),
                series: VecDeque::with_capacity(SERIES_CAPACITY),
            };
            rows.push(row);
            i += 1;
        }
        assert(row_names(rows@) =~= names(ordered@));
        HzMonitor { rows, selected: 0, start, window_nanos: window as u128 * NANOS_PER_SEC }
    }

    /// Records that a message arrived on a topic.
    pub fn record_output(&mut self, topic: &TopicIdentifier, now: u64)
        requires
            old(self).wf(),
        ensures
            final(self).wf(),
            old(self).with_output(*final(self), topic@, now),
    {
        let ghost before = self.rows@;
        let ghost window = self.window_nanos as nat;
        let mut i: usize = 0;
        while i < self.rows.len()
            invariant
                i <= self.rows@.len(),
                before == old(self).rows@,
                window == self.window_nanos,
                self.rows@.len() == before.len(),
                self.selected == old(self).selected,
                self.start == old(self).start,
                self.window_nanos == old(self).window_nanos,
                forall|j: int|
                    0 <= j < before.len() ==> {
                        &&& (#[trigger] self.rows@[j]).topic == before[j].topic
                        &&& self.rows@[j].series == before[j].series
                        &&& self.rows@[j].stats.window_nanos == window
                        &&& self.rows@[j].stats.timestamps@ == if j < i && before[j].topic@
                            == topic@ {
                            recorded(before[j].stats.timestamps@, now, window)
                        } else {
                            before[j].stats.timestamps@
                        }
                    },
            decreases self.rows@.len() - i,
        {
            let ghost at = self.rows@;
            assert(at[i as int].topic == before[i as int].topic);
            if self.rows[i].topic.same(topic) {
                self.rows[i].stats.record(now);
                assert(forall|j: int|
                    0 <= j < at.len() && j != i ==> #[trigger] self.rows@[j] == at[j]);
            }
            i += 1;
        }
        let ghost at = self.rows@;
        assert(row_names(before)[0] == all_name());
        self.rows[0].stats.record(now);
        proof {
            assert(forall|j: int| 0 < j < at.len() ==> #[trigger] self.rows@[j] == at[j]);
            assert(row_names(self.rows@) =~= row_names(before));
            assert forall|j: int| 0 < j < before.len() implies (#[trigger] before[j]).topic@
                != all_name() by {
                assert(row_names(before).skip(1)[j - 1] == before[j].topic@);
                assert(row_names(before).skip(1).contains(before[j].topic@));
            }
        }
    }

    /// Does what follows from what a topic's subscriber hears, and says what the
    /// subscriber does next.
    pub fn observe(&mut self, topic: &TopicIdentifier, event: SubscriberEvent, now: u64) -> (action:
        SubscriberAction)
        requires
            old(self).wf(),
        ensures
            action == event.action(),
            final(self).wf(),
            action == SubscriberAction::Record ==> old(self).with_output(
                *final(self),
                topic@,
                now,
            ),
            action != SubscriberAction::Record ==> *final(self) == *old(self),
    {
        let action = event.next_action();
        if action == SubscriberAction::Record {
            self.record_output(topic, now);
        }
        action
    }

    /// Appends the current rate of each entry to its series.
    pub fn tick(&mut self, now: u64)
        requires
            old(self).wf(),
        ensures
            final(self).wf(),
            final(self).selected == old(self).selected,
            final(self).start == old(self).start,
            final(self).window_nanos == old(self).window_nanos,
            final(self).rows@.len() == old(self).rows@.len(),
            forall|i: int|
                0 <= i < old(self).rows@.len() ==> {
                    &&& (#[trigger] final(self).rows@[i]).topic == old(self).rows@[i].topic
                    &&& final(self).rows@[i].stats == old(self).rows@[i].stats
                    &&& final(self).rows@[i].series@ == series_pushed(
                        old(self).rows@[i].series@,
                        rate_of(
                            fresh(
                                old(self).rows@[i].stats.timestamps@,
                                now - SUB_WINDOW_NANOS,
                            ),
                        ) as u64,
                    )
                },
    {
        let ghost before = self.rows@;
        let mut i: usize = 0;
        while i < self.rows.len()
            invariant
                i <= self.rows@.len(),
                before == old(self).rows@,
                self.rows@.len() == before.len(),
                self.selected == old(self).selected,
                self.start == old(self).start,
                self.window_nanos == old(self).window_nanos,
                forall|j: int|
                    0 <= j < before.len() ==> {
                        &&& (#[trigger] self.rows@[j]).topic == before[j].topic
                        &&& self.rows@[j].stats == before[j].stats
                        &&& self.rows@[j].series@ == if j < i {
                            series_pushed(
                                before[j].series@,
                                rate_of(
                                    fresh(before[j].stats.timestamps@, now - SUB_WINDOW_NANOS),
                                ) as u64,
                            )
                        } else {
                            before[j].series@
                        }
                    },
            decreases self.rows@.len() - i,
        {
            let ghost at = self.rows@;
            assert(at[i as int].stats == before[i as int].stats);
            let count: usize = self.rows[i].stats.recent_count(now);
            let rate: u64 = current_rate(count);
            push_rate(&mut self.rows[i].series, rate);
            assert(forall|j: int|
                0 <= j < at.len() && j != i ==> #[trigger] self.rows@[j] == at[j]);
            i += 1;
        }
        proof {
            assert(row_names(self.rows@) =~= row_names(before));
            assert(before[0].series@.len() <= SERIES_CAPACITY);
        }
    }

    /// Does what a key asks for.
    pub fn handle_key(&mut self, key: KeyPress) -> (flow: Flow)
        requires
            old(self).wf(),
        ensures
            final(self).wf(),
            final(self).rows == old(self).rows,
            final(self).start == old(self).start,
            final(self).window_nanos == old(self).window_nanos,
            flow == Flow::Quit <==> key.quits(),
            key.quits() ==> final(self).selected == old(self).selected,
            !key.quits() ==> final(self).selected == crate::hz::keys::selection_after(
                old(self).selected as int,
                old(self).rows@.len() as int,
                key.code,
            ),
    {
        if key.is_quit() {
            return Flow::Quit;
        }
        proof {
            crate::hz::keys::law_selection_stays_on_an_entry(
                self.selected as int,
                self.rows@.len() as int,
                key.code,
            );
        }
        let rows: usize = self.rows.len();
        self.selected = select(self.selected, rows, key.code);
        Flow::Continue
    }
}

/// Appends a rate to a series.
fn push_rate(series: &mut VecDeque<u64>, rate: u64)
    ensures
        final(series)@ == series_pushed(old(series)@, rate),
{
    if series.len() >= SERIES_CAPACITY {
        let _ = series.pop_front();
        assert(series@ =~= old(series)@.drop_first());
    }
    series.push_back(rate);
}

/// The moments kept for the entry `name`, starting from none, after messages
/// arrived: of each its topic and its moment.
pub open spec fn row_replayed(
    name: TopicName,
    arrivals: Seq<(TopicName, u64)>,
    window: nat,
) -> Seq<u64>
    decreases arrivals.len(),
{
    if arrivals.len() == 0 {
        Seq::empty()
    } else {
        row_recorded(
            name,
            row_replayed(name, arrivals.drop_last(), window),
            arrivals.last().0,
            arrivals.last().1,
            window,
        )
    }
}

/// The moments of the arrivals, in order.
pub open spec fn moments(arrivals: Seq<(TopicName, u64)>) -> Seq<u64> {
    arrivals.map_values(|arrival: (TopicName, u64)| arrival.1)
}

/// The arrivals on one topic, in order.
pub open spec fn arrivals_on(
    topic: TopicName,
    arrivals: Seq<(TopicName, u64)>,
) -> Seq<(TopicName, u64)> {
    arrivals.filter(|arrival: (TopicName, u64)| arrival.0 == topic)
}

/// The entry of a topic measures the messages of that topic, and no others.
pub proof fn law_topic_entry_measures_its_topic(
    name: TopicName,
    arrivals: Seq<(TopicName, u64)>,
    window: nat,
)
    requires
        name != all_name(),
    ensures
        row_replayed(name, arrivals, window) == replayed(
            moments(arrivals_on(name, arrivals)),
            window,
        ),
    decreases arrivals.len(),
{
    reveal(Seq::filter);
    let own = arrivals_on(name, arrivals);
    if arrivals.len() > 0 {
        let earlier = arrivals.drop_last();
        law_topic_entry_measures_its_topic(name, earlier, window);
        if arrivals.last().0 == name {
            assert(own =~= arrivals_on(name, earlier).push(arrivals.last()));
            assert(moments(own).drop_last() =~= moments(arrivals_on(name, earlier)));
        }
    } else {
        assert(moments(own) =~= Seq::empty());
    }
}

/// The entry of all topics measures the messages of every topic, as long as no
/// topic is called like it.
pub proof fn law_all_entry_measures_every_topic(arrivals: Seq<(TopicName, u64)>, window: nat)
    requires
        forall|i: int| 0 <= i < arrivals.len() ==> (#[trigger] arrivals[i]).0 != all_name(),
    ensures
        row_replayed(all_name(), arrivals, window) == replayed(moments(arrivals), window),
    decreases arrivals.len(),
{
    if arrivals.len() > 0 {
        let earlier = arrivals.drop_last();
        assert forall|i: int| 0 <= i < earlier.len() implies (#[trigger] earlier[i]).0
            != all_name() by {
            assert(arrivals[i].0 != all_name());
        }
        law_all_entry_measures_every_topic(earlier, window);
        assert(arrivals[arrivals.len() - 1].0 != all_name());
        assert(moments(arrivals).drop_last() =~= moments(earlier));
    } else {
        assert(moments(arrivals) =~= Seq::empty());
    }
}

/// A series after rates were appended to it, one after the other.
pub open spec fn series_of(rates: Seq<u64>) -> Seq<u64>
    decreases rates.len(),
{
    if rates.len() == 0 {
        Seq::empty()
    } else {
        series_pushed(series_of(rates.drop_last()), rates.last())
    }
}

/// A series holds the latest rates, in order, and no more than are kept.
pub proof fn law_series_holds_the_latest_rates(rates: Seq<u64>)
    ensures
        series_of(rates) == if rates.len() > SERIES_CAPACITY {
            rates.skip(rates.len() - SERIES_CAPACITY)
        } else {
            rates
        },
        series_of(rates).len() <= SERIES_CAPACITY,
    decreases rates.len(),
{
    if rates.len() > 0 {
        let earlier = rates.drop_last();
        law_series_holds_the_latest_rates(earlier);
        if rates.len() > SERIES_CAPACITY {
            assert(series_of(rates) =~= rates.skip(rates.len() - SERIES_CAPACITY));
        } else {
            assert(series_of(rates) =~= rates);
        }
    } else {
        assert(rates =~= Seq::empty());
    }
}

/// The names of the entries are those of their topics, one for one.
pub proof fn law_entries_are_named_by_their_topics(rows: Seq<HzRow>)
    ensures
        row_names(rows).len() == rows.len(),
        forall|i: int|
            #![trigger row_names(rows)[i]]
            #![trigger rows[i]]
            0 <= i < rows.len() ==> row_names(rows)[i].node_id == rows[i].topic.node_id@
                && row_names(rows)[i].data_id == rows[i].topic.data_id@,
{
}

/// Between any two operations an entry is selected; the first entry, and only it, is
/// that of all topics; the others stand in order, each once; all entries measure over
/// the window of the display, and all have the same number of rates, at most 240.
pub proof fn law_display_is_consistent(monitor: HzMonitor)
    requires
        monitor.wf(),
    ensures
        monitor.selected < monitor.rows@.len(),
        monitor.rows@[0].topic.node_id@ == "<ALL>"@,
        monitor.rows@[0].topic.data_id@ == "*"@,
        forall|i: int, j: int|
            1 <= i < j < monitor.rows@.len() ==> crate::topic::name_before(
                (#[trigger] monitor.rows@[i]).topic@,
                (#[trigger] monitor.rows@[j]).topic@,
            ),
        forall|i: int|
            1 <= i < monitor.rows@.len() ==> (#[trigger] monitor.rows@[i]).topic@
                != monitor.rows@[0].topic@,
        forall|i: int|
            0 <= i < monitor.rows@.len() ==> {
                &&& (#[trigger] monitor.rows@[i]).stats.window_nanos == monitor.window_nanos
                &&& monitor.rows@[i].series@.len() == monitor.rows@[0].series@.len() <= 240
            },
{
    let rows = monitor.rows@;
    let all = row_names(rows);
    crate::topic::law_shown_rows_are_all_then_the_topics_in_order(all, all.skip(1));
    assert(all[0] == rows[0].topic@);
    assert forall|i: int, j: int| 1 <= i < j < rows.len() implies crate::topic::name_before(
        (#[trigger] rows[i]).topic@,
        (#[trigger] rows[j]).topic@,
    ) by {
        assert(crate::topic::name_before(all[i], all[j]));
    }
    assert forall|i: int| 1 <= i < rows.len() implies (#[trigger] rows[i]).topic@
        != rows[0].topic@ by {
        assert(all[i] != all[0]);
    }
}

/// A message leaves the entries of other topics as they are. For the entry of its
/// topic, and for the entry of all topics, it is recorded at the end, and nothing but
/// the outdated beginning is lost.
pub proof fn law_message_counts_for_its_topic_and_all(
    before: HzMonitor,
    after: HzMonitor,
    topic: TopicName,
    now: u64,
    i: int,
)
    requires
        before.with_output(after, topic, now),
        0 <= i < before.rows@.len(),
    ensures
        after.selected == before.selected,
        after.start == before.start,
        after.window_nanos == before.window_nanos,
        after.rows@.len() == before.rows@.len(),
        after.rows@[i].topic == before.rows@[i].topic,
        after.rows@[i].series == before.rows@[i].series,
        after.rows@[i].stats.window_nanos == before.rows@[i].stats.window_nanos,
        before.rows@[i].topic@ != topic && before.rows@[i].topic@ != (TopicName {
            node_id: "<ALL>"@,
            data_id: "*"@,
        }) ==> after.rows@[i].stats.timestamps@ == before.rows@[i].stats.timestamps@,
        topic != (TopicName { node_id: "<ALL>"@, data_id: "*"@ }) && (before.rows@[i].topic@ == topic
            || before.rows@[i].topic@ == (TopicName { node_id: "<ALL>"@, data_id: "*"@ }))
            ==> after.rows@[i].stats.timestamps@ == recorded(
            before.rows@[i].stats.timestamps@,
            now,
            before.window_nanos as nat,
        ),
        topic == (TopicName { node_id: "<ALL>"@, data_id: "*"@ }) && before.rows@[i].topic@ == topic
            ==> after.rows@[i].stats.timestamps@ == recorded(
            recorded(before.rows@[i].stats.timestamps@, now, before.window_nanos as nat),
            now,
            before.window_nanos as nat,
        ),
{
    assert(after.rows@[i].topic == before.rows@[i].topic);
}

/// An entry is filled message by message, starting from nothing.
pub proof fn law_entry_is_filled_message_by_message(
    name: TopicName,
    arrivals: Seq<(TopicName, u64)>,
    topic: TopicName,
    now: u64,
    window: nat,
)
    ensures
        row_replayed(name, Seq::empty(), window) == Seq::<u64>::empty(),
        row_replayed(name, arrivals.push((topic, now)), window) == row_recorded(
            name,
            row_replayed(name, arrivals, window),
            topic,
            now,
            window,
        ),
        moments(arrivals.push((topic, now))) == moments(arrivals).push(now),
        moments(Seq::empty()) == Seq::<u64>::empty(),
        arrivals_on(name, Seq::empty()) == Seq::<(TopicName, u64)>::empty(),
        arrivals_on(name, arrivals.push((topic, now))) == if topic == name {
            arrivals_on(name, arrivals).push((topic, now))
        } else {
            arrivals_on(name, arrivals)
        },
{
    reveal(Seq::filter);
    assert(arrivals.push((topic, now)).drop_last() =~= arrivals);
    assert(moments(arrivals.push((topic, now))) =~= moments(arrivals).push(now));
    assert(moments(Seq::empty()) =~= Seq::<u64>::empty());
}

/// A further rate comes last and the order of the others stays; a series of fewer than
/// 240 rates loses none, and a full one loses its oldest.
pub proof fn law_series_takes_a_rate_at_its_end(series: Seq<u64>, rate: u64)
    requires
        series.len() <= 240,
    ensures
        series_pushed(series, rate).len() == if series.len() < 240 {
            series.len() + 1
        } else {
            240
        },
        series_pushed(series, rate) == series.push(rate).skip(
            series.len() + 1 - series_pushed(series, rate).len(),
        ),
        series_pushed(series, rate).last() == rate,
        series_of(Seq::empty()) == Seq::<u64>::empty(),
{
    assert(series_pushed(series, rate) =~= series.push(rate).skip(
        series.len() + 1 - series_pushed(series, rate).len(),
    ));
}

/// A series after all rates but the last takes the last at its end.
pub proof fn law_series_grows_rate_by_rate(rates: Seq<u64>, rate: u64)
    ensures
        series_of(rates.push(rate)) == series_pushed(series_of(rates), rate),
        series_of(rates).len() == if rates.len() < 240 {
            rates.len()
        } else {
            240
        },
        series_of(rates) == rates.skip(rates.len() - series_of(rates).len()),
{
    law_series_holds_the_latest_rates(rates);
    assert(rates.push(rate).drop_last() =~= rates);
    assert(series_of(rates) =~= rates.skip(rates.len() - series_of(rates).len()));
}

/// The rate that an entry's series takes is the number of its latest messages, back to
/// the first that is more than a fifth of a second old, times five.
pub proof fn law_series_takes_the_current_rate(times: Seq<u64>, now: u64, recent: nat)
    requires
        recent <= times.len(),
        5 * recent <= u64::MAX,
        forall|i: int|
            times.len() - recent <= i < times.len() ==> #[trigger] times[i] >= now - 200_000_000,
        recent < times.len() ==> times[times.len() - recent - 1] < now - 200_000_000,
    ensures
        rate_of(fresh(times, now - SUB_WINDOW_NANOS)) == 5 * recent,
{
    let cutoff = now - SUB_WINDOW_NANOS;
    crate::hz::window::law_fresh_is_the_recent_end(times, cutoff);
    let found = fresh(times, cutoff);
    if found < recent {
        assert(times[times.len() - found - 1] >= cutoff);
    }
    if recent < found {
        assert(times[times.len() - recent - 1] >= cutoff);
    }
    crate::hz::window::law_rate_is_messages_per_second(recent, 0);
}

} // verus!
