//! Measure topic publish intervals.
//!
//! Messages are recorded as they arrive, and the intervals between them are
//! kept over a sliding window. All numbers are exact: times are whole
//! nanoseconds, averages are fractions, and a standard deviation is given by
//! the whole numbers that it is computed from. Rounding them is left to
//! whoever shows them.

pub mod histogram;
pub mod keys;
pub mod monitor;
pub mod range;
pub mod screen;
pub mod stats;
pub mod subscriber;
pub mod window;

use crate::hz::monitor::HzMonitor;
#[allow(unused_imports)]
use crate::hz::monitor::row_names;
use crate::hz::window::NANOS_PER_SEC;
use crate::options::{CoordinatorOptions, TopicSelector};
use crate::topic::TopicIdentifier;
#[allow(unused_imports)]
use crate::topic::{names, shows};
use vstd::prelude::*;

verus! {

/// The length of the window in seconds, unless one is chosen.
pub const DEFAULT_WINDOW_SECS: usize = 10;

/// Measure topic publish intervals.
///
/// Subscribe to one or more outputs and display per-topic interval statistics
/// (average, min, max, stddev) over a sliding window. Average frequency (Hz)
/// is derived from the average interval.
#[derive(Debug)]
pub struct Hz {
    pub selector: TopicSelector,
    /// Sliding window size in seconds
    pub window: usize,
    pub coordinator: CoordinatorOptions,
}

impl Hz {
    /// The display for the topics that were selected, when measuring begins at
    /// `start`.
    pub fn monitor(&self, topics: &Vec<TopicIdentifier>, start: u64) -> (monitor: HzMonitor)
        ensures
            monitor.wf(),
            shows(row_names(monitor.rows@), names(topics@)),
            monitor.selected == 0,
            monitor.start == start,
            monitor.window_nanos == self.window * NANOS_PER_SEC,
            monitor.window_nanos == self.window * 1_000_000_000,
            forall|i: int|
                0 <= i < monitor.rows@.len() ==> {
                    &&& (#[trigger] monitor.rows@[i]).stats.timestamps@ == Seq::<u64>::empty()
                    &&& monitor.rows@[i].series@ == Seq::<u64>::empty()
                },
    {
        HzMonitor::new(topics, self.window, start)
    }
}

} // verus!
