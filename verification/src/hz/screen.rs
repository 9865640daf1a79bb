//! What the display shows.

#[allow(unused_imports)]
use crate::hz::histogram::bins_for;
use crate::hz::histogram::{bin_count, histogram, Histogram};
use crate::hz::monitor::{HzMonitor, HzRow};
use crate::hz::stats::Stats;
#[allow(unused_imports)]
use crate::hz::window::gaps;
use std::collections::VecDeque;
use vstd::prelude::*;

verus! {

/// How much of the window may be missing, in nanoseconds, when it counts as
/// filled.
pub const FILLING_TOLERANCE_NANOS: u128 = 1_000_000;

/// A line of the table.
#[derive(Debug)]
pub struct ScreenRow {
    pub name: String,
    /// The statistics, where there are intervals; else a line of dashes.
    pub stats: Option<Stats>,
    /// Whether the line stands out as the selected one.
    pub highlighted: bool,
}

/// The chart of the latest rates.
#[derive(Debug)]
pub enum Recent {
    /// There is nothing to draw yet.
    Waiting,
    /// The rates to draw, oldest first.
    Rates(Vec<u64>),
}

/// How far the window has been filled.
#[derive(Debug, Clone, Copy)]
pub struct Filling {
    pub elapsed_nanos: u64,
    pub window_nanos: u128,
}

/// The charts for the selected entry.
#[derive(Debug)]
pub struct Detail {
    pub name: String,
    pub recent: Recent,
    /// The distribution of the intervals, where there are any.
    pub histogram: Option<Histogram>,
    /// The hint that the window is still being filled.
    pub filling: Option<Filling>,
}

/// All that the display shows.
#[derive(Debug)]
pub struct Screen {
    pub rows: Vec<ScreenRow>,
    /// The charts; nothing where no entry is selected.
    pub detail: Option<Detail>,
}

/// The time from `start` to `now`, which is none where `now` is earlier.
pub open spec fn elapsed(start: u64, now: u64) -> nat {
    if now < start {
        0
    } else {
        (now - start) as nat
    }
}

/// Whether measuring began too recently to fill the window.
pub open spec fn is_filling(start: u64, now: u64, window: nat) -> bool {
    elapsed(start, now) + FILLING_TOLERANCE_NANOS < window
}

/// The latest rates that a chart of the given width has room for within its
/// borders, a column each.
pub open spec fn latest(series: Seq<u64>, width: nat) -> Seq<u64> {
    let room: int = if width < 2 {
        0
    } else {
        width - 2
    };
    if series.len() > room {
        series.skip(series.len() - room)
    } else {
        series
    }
}

impl ScreenRow {
    /// Whether this is the line for an entry.
    pub open spec fn presents(self, row: HzRow, selected: bool) -> bool {
        &&& self.name@ == row.topic.text()
        &&& self.highlighted == selected
        &&& match self.stats {
            Some(stats) => gaps(row.stats.timestamps@).len() > 0 && stats.describes(
                gaps(row.stats.timestamps@),
            ),
            None => gaps(row.stats.timestamps@).len() == 0,
        }
    }
}

impl Recent {
    /// Whether this is the chart for a series of rates.
    pub open spec fn presents(self, series: Seq<u64>, width: nat) -> bool {
        match self {
            Recent::Waiting => series.len() == 0,
            Recent::Rates(rates) => series.len() > 0 && rates@ == latest(series, width),
        }
    }
}

impl Detail {
    /// Whether these are the charts for an entry.
    pub open spec fn presents(
        self,
        row: HzRow,
        recent_width: nat,
        histogram_width: nat,
        start: u64,
        now: u64,
        window: nat,
    ) -> bool {
        &&& self.name@ == row.topic.text()
        &&& self.recent.presents(row.series@, recent_width)
        &&& match self.histogram {
            Some(histogram) => gaps(row.stats.timestamps@).len() > 0 && histogram.describes(
                gaps(row.stats.timestamps@),
                bins_for(histogram_width) as int,
            ),
            None => gaps(row.stats.timestamps@).len() == 0,
        }
        &&& match self.filling {
            Some(filling) => {
                &&& is_filling(start, now, window)
                &&& filling.elapsed_nanos == elapsed(start, now)
                &&& filling.window_nanos == window
            },
            None => !is_filling(start, now, window),
        }
    }
}

/// Takes the latest rates that a chart of the given width has room for.
pub fn recent_rates(series: &VecDeque<u64>, width: u16) -> (recent: Recent)
    ensures
        recent.presents(series@, width as nat),
{
    let len: usize = series.len();
    if len == 0 {
        return Recent::Waiting;
    }
    let room: usize = (width as usize).saturating_sub(2);
    let first: usize = if len > room {
        len - room
    } else {
        0
    };
    let mut rates: Vec<u64> = Vec::new();
    let mut i: usize = first;
    while i < len
        invariant
            len == series@.len(),
            first <= i <= len,
            rates@ == series@.subrange(first as int, i as int),
        decreases len - i,
    {
        rates.push(series[i]);
        i += 1;
        assert(rates@ =~= series@.subrange(first as int, i as int));
    }
    assert(rates@ =~= latest(series@, width as nat));
    Recent::Rates(rates)
}

/// Says how far the window has been filled, while it is not.
pub fn filling_hint(start: u64, now: u64, window_nanos: u128) -> (filling: Option<Filling>)
    ensures
        match filling {
            Some(filling) => {
                &&& is_filling(start, now, window_nanos as nat)
                &&& filling.elapsed_nanos == elapsed(start, now)
                &&& filling.window_nanos == window_nanos
            },
            None => !is_filling(start, now, window_nanos as nat),
        },
{
    let elapsed_nanos: u64 = now.saturating_sub(start);
    if elapsed_nanos as u128 + FILLING_TOLERANCE_NANOS < window_nanos {
        Some(Filling { elapsed_nanos, window_nanos })
    } else {
        None
    }
}

impl HzMonitor {
    /// What to show at `now`, given the widths of the two charts.
    pub fn screen(&self, recent_width: u16, histogram_width: u16, now: u64) -> (screen: Screen)
        ensures
            screen.rows@.len() == self.rows@.len(),
            forall|i: int|
                0 <= i < self.rows@.len() ==> (#[trigger] screen.rows@[i]).presents(
                    self.rows@[i],
                    i == self.selected,
                ),
            match screen.detail {
                Some(detail) => self.selected < self.rows@.len() && detail.presents(
                    self.rows@[self.selected as int],
                    recent_width as nat,
                    histogram_width as nat,
                    self.start,
                    now,
                    self.window_nanos as nat,
                ),
                None => self.selected >= self.rows@.len(),
            },
    {
        let mut rows: Vec<ScreenRow> = Vec::new();
        let mut i: usize = 0;
        while i < self.rows.len()
            invariant
                i <= self.rows@.len(),
                rows.len() == i,
                forall|j: int|
                    0 <= j < i ==> (#[trigger] rows@[j]).presents(
                        self.rows@[j],
                        j == self.selected,
                    ),
            decreases self.rows@.len() - i,
        {
            let row: &HzRow = &self.rows[i];
            let shown = ScreenRow {
                name: row.topic.label(),
                stats: row.stats.calculate(),
                highlighted: i == self.selected,
            };
            rows.push(shown);
            i += 1;
        }
        if self.selected < self.rows.len() {
            let row: &HzRow = &self.rows[self.selected];
            let intervals = row.stats.intervals();
            let detail = Detail {
                name: row.topic.label(),
                recent: recent_rates(&row.series, recent_width),
                histogram: histogram(&intervals, bin_count(histogram_width)),
                filling: filling_hint(self.start, now, self.window_nanos),
            };
            Screen { rows, detail: Some(detail) }
        } else {
            Screen { rows, detail: None }
        }
    }
}

/// Once the window counts as filled, it does so from then on.
pub proof fn law_window_stays_filled(start: u64, now: u64, later: u64, window: nat)
    requires
        now <= later,
        !is_filling(start, now, window),
    ensures
        !is_filling(start, later, window),
{
}

/// The chart of rates ends with the latest rate and holds no more of them than
/// it has room for.
pub proof fn law_chart_ends_with_the_latest_rate(series: Seq<u64>, width: nat)
    ensures
        latest(series, width).len() <= series.len(),
        latest(series, width).len() + 2 <= width || latest(series, width).len() == 0,
        series.len() > 0 && width > 2 ==> latest(series, width).len() > 0 && latest(
            series,
            width,
        ).last() == series.last(),
{
}

/// A line of the table names its entry as node and output with a slash between them,
/// stands out exactly if the entry is selected, and has statistics exactly if there are
/// intervals, namely those of the intervals.
pub proof fn law_table_line_presents_its_entry(line: ScreenRow, row: HzRow, selected: bool)
    requires
        line.presents(row, selected),
    ensures
        line.name@ == row.topic.node_id@ + "/"@ + row.topic.data_id@,
        line.highlighted == selected,
        line.stats is Some <==> gaps(row.stats.timestamps@).len() > 0,
        line.stats matches Some(stats) ==> stats.describes(gaps(row.stats.timestamps@)),
{
}

/// The chart of rates waits exactly while there is no rate. Else it holds the latest
/// rates, in order: as many as there are, but no more than the width less two.
pub proof fn law_rates_fill_the_chart(recent: Recent, series: Seq<u64>, width: nat)
    requires
        recent.presents(series, width),
    ensures
        recent is Waiting <==> series.len() == 0,
        recent matches Recent::Rates(rates) ==> {
            &&& rates@ == series.skip(series.len() - rates@.len())
            &&& rates@.len() <= series.len()
            &&& rates@.len() + 2 <= width || rates@.len() == 0
            &&& rates@.len() == series.len() || rates@.len() + 2 >= width
        },
{
    match recent {
        Recent::Rates(rates) => {
            assert(rates@ =~= series.skip(series.len() - rates@.len()));
        },
        Recent::Waiting => {},
    }
}

/// The window is being filled exactly while the time since measuring began, and a
/// millisecond more, falls short of it. Before measuring began no time has passed.
pub proof fn law_window_is_filled_by_time(start: u64, now: u64, window: nat)
    ensures
        start <= now ==> elapsed(start, now) == now - start,
        now < start ==> elapsed(start, now) == 0,
        start <= now ==> (is_filling(start, now, window) <==> now - start + 1_000_000 < window),
        now < start ==> (is_filling(start, now, window) <==> 1_000_000 < window),
{
}

/// The charts name their entry; they hold its latest rates, the distribution of its
/// intervals over as many bars as suit the width, exactly if there are intervals, and
/// the time since measuring began exactly while the window is being filled.
pub proof fn law_charts_present_their_entry(
    detail: Detail,
    row: HzRow,
    recent_width: nat,
    histogram_width: nat,
    start: u64,
    now: u64,
    window: nat,
)
    requires
        detail.presents(row, recent_width, histogram_width, start, now, window),
    ensures
        detail.name@ == row.topic.node_id@ + "/"@ + row.topic.data_id@,
        detail.recent.presents(row.series@, recent_width),
        detail.histogram is Some <==> gaps(row.stats.timestamps@).len() > 0,
        detail.histogram matches Some(histogram) ==> histogram.describes(
            gaps(row.stats.timestamps@),
            bins_for(histogram_width) as int,
        ),
        detail.filling is Some <==> is_filling(start, now, window),
        detail.filling matches Some(filling) ==> filling.elapsed_nanos == elapsed(start, now)
            && filling.window_nanos == window,
{
}

} // verus!
