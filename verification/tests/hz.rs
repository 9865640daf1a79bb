use dora_inspect::hz::histogram::{bin_count, histogram};
use dora_inspect::hz::keys::{select, Flow, KeyCode, KeyPress};
use dora_inspect::hz::monitor::{HzMonitor, SERIES_CAPACITY};
use dora_inspect::hz::screen::{filling_hint, recent_rates, Recent};
use dora_inspect::hz::stats::statistics;
use dora_inspect::hz::subscriber::{SubscriberAction, SubscriberEvent};
use dora_inspect::hz::window::{current_rate, HzStats};
use dora_inspect::hz::{Hz, DEFAULT_WINDOW_SECS};
use dora_inspect::options::{CoordinatorOptions, DataflowSelector, TopicSelector};
use dora_inspect::topic::{ordered_topics, TopicIdentifier};
use std::collections::VecDeque;

const MS: u64 = 1_000_000;
const SEC: u64 = 1_000_000_000;

fn topic(node_id: &str, data_id: &str) -> TopicIdentifier {
    TopicIdentifier { node_id: node_id.to_string(), data_id: data_id.to_string() }
}

fn labels(topics: &[TopicIdentifier]) -> Vec<String> {
    topics.iter().map(|topic| topic.label()).collect()
}

fn times(stats: &HzStats) -> Vec<u64> {
    stats.timestamps.iter().copied().collect()
}

fn recorded(window: usize, moments: &[u64]) -> HzStats {
    let mut stats = HzStats::new(window);
    for &moment in moments {
        stats.record(moment);
    }
    stats
}

fn key(code: KeyCode, control: bool) -> KeyPress {
    KeyPress { code, control }
}

#[test]
fn topics_are_ordered_by_node_and_output_with_all_first() {
    let rows = ordered_topics(&vec![
        topic("robot2", "vel"),
        topic("robot1", "pose"),
        topic("robot1", "image"),
        topic("robot", "z"),
    ]);
    assert_eq!(
        labels(&rows),
        ["<ALL>/*", "robot/z", "robot1/image", "robot1/pose", "robot2/vel"]
    );
}

#[test]
fn order_of_topics_does_not_depend_on_how_they_are_given() {
    let given = ordered_topics(&vec![topic("a", "y"), topic("b", "x"), topic("a", "x")]);
    let turned = ordered_topics(&vec![topic("a", "x"), topic("b", "x"), topic("a", "y")]);
    assert_eq!(labels(&given), ["<ALL>/*", "a/x", "a/y", "b/x"]);
    assert_eq!(labels(&given), labels(&turned));
}

#[test]
fn topics_are_listed_once() {
    let rows = ordered_topics(&vec![topic("a", "x"), topic("b", "x"), topic("a", "x")]);
    assert_eq!(labels(&rows), ["<ALL>/*", "a/x", "b/x"]);
}

#[test]
fn a_topic_called_like_the_first_entry_has_no_own_entry() {
    let rows = ordered_topics(&vec![topic("<ALL>", "*"), topic("!", "x")]);
    assert_eq!(labels(&rows), ["<ALL>/*", "!/x"]);
}

#[test]
fn topics_are_ordered_by_bytes() {
    let rows = ordered_topics(&vec![topic("é", "x"), topic("z", "x"), topic("Z", "x")]);
    assert_eq!(labels(&rows), ["<ALL>/*", "Z/x", "z/x", "é/x"]);
}

#[test]
fn no_topics_leave_the_entry_of_all() {
    assert_eq!(labels(&ordered_topics(&Vec::new())), ["<ALL>/*"]);
}

#[test]
fn new_window_is_empty() {
    let stats = HzStats::new(10);
    assert!(stats.timestamps.is_empty());
    assert_eq!(stats.window_nanos, 10_000_000_000);
    assert_eq!(HzStats::new(usize::MAX).window_nanos, usize::MAX as u128 * 1_000_000_000);
}

#[test]
fn window_keeps_the_recent_arrivals() {
    let stats = recorded(1, &[0, SEC / 2, SEC, SEC + 1]);
    assert_eq!(times(&stats), [SEC / 2, SEC, SEC + 1]);
    let stats = recorded(1, &[0, SEC]);
    assert_eq!(times(&stats), [0, SEC]);
}

#[test]
fn window_longer_than_the_clock_keeps_everything() {
    assert_eq!(times(&recorded(10, &[0, 1, 2])), [0, 1, 2]);
}

#[test]
fn window_of_no_length_keeps_the_latest_moment() {
    assert_eq!(times(&recorded(0, &[5, 5, 7])), [7]);
    assert_eq!(times(&recorded(0, &[5, 5])), [5, 5]);
}

#[test]
fn dropping_stops_at_the_first_recent_arrival() {
    let stats = recorded(1, &[2 * SEC, 0, 3 * SEC]);
    assert_eq!(times(&stats), [2 * SEC, 0, 3 * SEC]);
}

#[test]
fn intervals_skip_what_does_not_advance() {
    let stats = recorded(10, &[0, 10 * MS, 10 * MS, 5 * MS, 25 * MS]);
    assert_eq!(stats.intervals(), [10 * MS, 20 * MS]);
}

#[test]
fn intervals_of_few_moments_are_none() {
    assert!(recorded(10, &[]).intervals().is_empty());
    assert!(recorded(10, &[7]).intervals().is_empty());
}

#[test]
fn intervals_add_up_to_the_time_covered() {
    let stats = recorded(10, &[3, 8, 20, 21]);
    let intervals = stats.intervals();
    assert_eq!(intervals, [5, 12, 1]);
    assert_eq!(intervals.iter().sum::<u64>(), 21 - 3);
    assert!(intervals.iter().all(|&interval| interval > 0));
}

#[test]
fn intervals_fit_the_window() {
    let stats = recorded(1, &[0, SEC / 4, SEC, SEC + SEC / 2, 2 * SEC]);
    assert_eq!(times(&stats), [SEC, SEC + SEC / 2, 2 * SEC]);
    let summary = stats.calculate().unwrap();
    assert!(0 < summary.total && summary.total <= stats.window_nanos);
}

#[test]
fn statistics_of_steady_intervals() {
    let stats = recorded(10, &[0, 10 * MS, 20 * MS, 30 * MS]).calculate().unwrap();
    assert_eq!(stats.count, 3);
    assert_eq!(stats.total, 30 * MS as u128);
    assert_eq!(stats.min, 10 * MS);
    assert_eq!(stats.max, 10 * MS);
    assert_eq!(stats.mean, 10 * MS);
    assert_eq!(stats.remainder, 0);
    assert_eq!((stats.deviation_high, stats.deviation_low), (0, 0));
    let average = stats.average();
    assert_eq!((average.numerator, average.denominator), (30 * MS as u128, 3));
    let frequency = stats.frequency();
    assert_eq!((frequency.numerator, frequency.denominator), (3 * SEC as u128, 30 * MS as u128));
}

#[test]
fn statistics_of_unequal_intervals() {
    let stats = statistics(&vec![10, 20, 31]).unwrap();
    assert_eq!(stats.count, 3);
    assert_eq!(stats.total, 61);
    assert_eq!((stats.min, stats.max), (10, 31));
    assert_eq!((stats.mean, stats.remainder), (20, 1));
    assert_eq!((stats.deviation_high, stats.deviation_low), (0, 221));
    // Nine times 221 less three times one is the spread, 27 times the variance.
    let spread: i64 = [10, 20, 31].iter().map(|x| (3 * x - 61) * (3 * x - 61)).sum();
    assert_eq!(spread, 9 * 221 - 3);
}

#[test]
fn statistics_carry_large_deviations() {
    let top = u64::MAX;
    let stats = statistics(&vec![1, 1, 1, 1, top, top, top, top]).unwrap();
    assert_eq!(stats.total, 4 * (1 + top as u128));
    assert_eq!((stats.mean, stats.remainder), (1 << 63, 0));
    // Eight squares, each of two to the power of 63 less one.
    let square = ((1u128 << 63) - 1) * ((1u128 << 63) - 1);
    assert_eq!(stats.deviation_high, 1);
    assert_eq!(stats.deviation_low, square.wrapping_mul(8));
}

#[test]
fn statistics_of_nothing_are_none() {
    assert!(statistics(&Vec::new()).is_none());
    assert!(recorded(10, &[4, 4]).calculate().is_none());
}

#[test]
fn average_lies_between_the_extremes() {
    let stats = statistics(&vec![7, 3, 9, 4]).unwrap();
    assert!(stats.min as u128 * 4 <= stats.total && stats.total <= stats.max as u128 * 4);
    assert!(stats.min <= stats.mean && stats.mean <= stats.max);
}

#[test]
fn frequency_of_no_time_is_zero() {
    let frequency = statistics(&vec![0, 0]).unwrap().frequency();
    assert_eq!((frequency.numerator, frequency.denominator), (0, 1));
}

#[test]
fn rate_is_five_times_the_count() {
    assert_eq!(current_rate(0), 0);
    assert_eq!(current_rate(3), 15);
    assert_eq!(current_rate(usize::MAX), u64::MAX);
}

#[test]
fn recent_count_looks_at_the_sub_window() {
    let stats = recorded(10, &[0, 100 * MS, 200 * MS, 300 * MS]);
    assert_eq!(stats.recent_count(300 * MS), 3);
    assert_eq!(stats.recent_count(300 * MS + 1), 2);
    assert_eq!(stats.recent_count(100 * MS), 4);
    assert_eq!(stats.recent_count(SEC), 0);
}

#[test]
fn recent_count_stops_at_the_first_old_arrival() {
    let stats = recorded(10, &[900 * MS, 100 * MS, SEC]);
    assert_eq!(stats.recent_count(SEC), 1);
}

#[test]
fn bin_count_follows_the_width() {
    assert_eq!(bin_count(0), 10);
    assert_eq!(bin_count(51), 10);
    assert_eq!(bin_count(52), 11);
    assert_eq!(bin_count(80), 18);
    assert_eq!(bin_count(168), 40);
    assert_eq!(bin_count(u16::MAX), 40);
}

#[test]
fn histogram_counts_every_interval() {
    let intervals: Vec<u64> = (0..=100).map(|i| 1000 + i).collect();
    let histogram = histogram(&intervals, 10).unwrap();
    assert_eq!((histogram.min, histogram.max), (1000, 1100));
    assert_eq!(histogram.counts, [10, 10, 10, 10, 10, 10, 10, 10, 10, 11]);
    assert_eq!(histogram.counts.iter().sum::<u64>(), 101);
}

#[test]
fn histogram_of_equal_intervals_fills_the_first_bar() {
    let histogram = histogram(&vec![5, 5, 5], 4).unwrap();
    assert_eq!(histogram.counts, [3, 0, 0, 0]);
}

#[test]
fn histogram_puts_the_longest_into_the_last_bar() {
    let histogram = histogram(&vec![1, u64::MAX], 40).unwrap();
    assert_eq!(histogram.counts[0], 1);
    assert_eq!(histogram.counts[39], 1);
}

#[test]
fn histogram_of_nothing_is_none() {
    assert!(histogram(&Vec::new(), 10).is_none());
}

#[test]
fn selection_wraps_around() {
    assert_eq!(select(0, 3, KeyCode::Up), 2);
    assert_eq!(select(2, 3, KeyCode::Up), 1);
    assert_eq!(select(2, 3, KeyCode::Down), 0);
    assert_eq!(select(0, 3, KeyCode::Down), 1);
    assert_eq!(select(1, 3, KeyCode::Char('x')), 1);
    assert_eq!(select(0, 0, KeyCode::Up), 0);
    assert_eq!(select(0, 0, KeyCode::Down), 0);
}

#[test]
fn up_and_down_undo_each_other() {
    for selected in 0..4 {
        assert_eq!(select(select(selected, 4, KeyCode::Down), 4, KeyCode::Up), selected);
        assert_eq!(select(select(selected, 4, KeyCode::Up), 4, KeyCode::Down), selected);
    }
}

#[test]
fn keys_that_quit() {
    assert!(key(KeyCode::Char('q'), false).is_quit());
    assert!(key(KeyCode::Char('q'), true).is_quit());
    assert!(key(KeyCode::Esc, false).is_quit());
    assert!(key(KeyCode::Char('c'), true).is_quit());
    assert!(!key(KeyCode::Char('c'), false).is_quit());
    assert!(!key(KeyCode::Char('Q'), false).is_quit());
    assert!(!key(KeyCode::Up, true).is_quit());
    assert!(!key(KeyCode::Other, true).is_quit());
}

#[test]
fn monitor_starts_with_the_entry_of_all_selected() {
    let hz = Hz {
        selector: TopicSelector { selector: DataflowSelector { dataflow: None }, data: Vec::new() },
        window: DEFAULT_WINDOW_SECS,
        coordinator: CoordinatorOptions {
            coordinator_addr: "127.0.0.1".to_string(),
            coordinator_port: 6012,
        },
    };
    let monitor = hz.monitor(&vec![topic("b", "x"), topic("a", "x")], 17);
    assert_eq!(monitor.rows.len(), 3);
    assert_eq!(monitor.rows[0].topic.label(), "<ALL>/*");
    assert_eq!(monitor.rows[1].topic.label(), "a/x");
    assert_eq!(monitor.rows[2].topic.label(), "b/x");
    assert_eq!(monitor.selected, 0);
    assert_eq!(monitor.start, 17);
    assert_eq!(monitor.window_nanos, 10 * SEC as u128);
    for row in &monitor.rows {
        assert!(row.stats.timestamps.is_empty());
        assert!(row.series.is_empty());
    }
}

#[test]
fn output_counts_for_its_topic_and_for_all() {
    let mut monitor = HzMonitor::new(&vec![topic("a", "x"), topic("b", "x")], 10, 0);
    monitor.record_output(&topic("a", "x"), 1);
    monitor.record_output(&topic("b", "x"), 2);
    monitor.record_output(&topic("a", "x"), 3);
    assert_eq!(times(&monitor.rows[0].stats), [1, 2, 3]);
    assert_eq!(times(&monitor.rows[1].stats), [1, 3]);
    assert_eq!(times(&monitor.rows[2].stats), [2]);
}

#[test]
fn output_of_an_unknown_topic_counts_for_all() {
    let mut monitor = HzMonitor::new(&vec![topic("a", "x")], 10, 0);
    monitor.record_output(&topic("c", "x"), 1);
    assert_eq!(times(&monitor.rows[0].stats), [1]);
    assert!(monitor.rows[1].stats.timestamps.is_empty());
}

#[test]
fn output_called_like_the_entry_of_all_counts_twice() {
    let mut monitor = HzMonitor::new(&vec![topic("<ALL>", "*")], 10, 0);
    monitor.record_output(&topic("<ALL>", "*"), 1);
    assert_eq!(times(&monitor.rows[0].stats), [1, 1]);
}

#[test]
fn subscriber_records_outputs_only() {
    let mut monitor = HzMonitor::new(&vec![topic("a", "x")], 10, 0);
    let a = topic("a", "x");
    assert_eq!(monitor.observe(&a, SubscriberEvent::Output, 4), SubscriberAction::Record);
    assert_eq!(monitor.observe(&a, SubscriberEvent::Undecodable, 5), SubscriberAction::Wait);
    assert_eq!(
        monitor.observe(&a, SubscriberEvent::ShutdownChanged(false), 6),
        SubscriberAction::Wait
    );
    assert_eq!(
        monitor.observe(&a, SubscriberEvent::ShutdownChanged(true), 7),
        SubscriberAction::Stop
    );
    assert_eq!(monitor.observe(&a, SubscriberEvent::OutputClosed, 8), SubscriberAction::Stop);
    assert_eq!(monitor.observe(&a, SubscriberEvent::ReceiveFailed, 9), SubscriberAction::Stop);
    assert_eq!(times(&monitor.rows[1].stats), [4]);
    assert_eq!(times(&monitor.rows[0].stats), [4]);
}

#[test]
fn tick_appends_the_rate_of_each_entry() {
    let mut monitor = HzMonitor::new(&vec![topic("a", "x"), topic("b", "x")], 10, 0);
    monitor.record_output(&topic("a", "x"), 10);
    monitor.record_output(&topic("b", "x"), 20);
    monitor.tick(30);
    monitor.tick(30 + 200 * MS);
    assert_eq!(monitor.rows[0].series, [10, 0]);
    assert_eq!(monitor.rows[1].series, [5, 0]);
    assert_eq!(monitor.rows[2].series, [5, 0]);
}

#[test]
fn series_keep_the_latest_rates() {
    let mut monitor = HzMonitor::new(&Vec::new(), 10, 0);
    for _ in 0..SERIES_CAPACITY {
        monitor.tick(0);
    }
    assert_eq!(monitor.rows[0].series.len(), 240);
    monitor.record_output(&topic("a", "x"), 1);
    monitor.tick(1);
    assert_eq!(monitor.rows[0].series.len(), 240);
    assert_eq!(monitor.rows[0].series[239], 5);
    assert_eq!(monitor.rows[0].series[238], 0);
}

#[test]
fn keys_move_the_selection_or_quit() {
    let mut monitor = HzMonitor::new(&vec![topic("a", "x")], 10, 0);
    assert_eq!(monitor.handle_key(key(KeyCode::Up, false)), Flow::Continue);
    assert_eq!(monitor.selected, 1);
    assert_eq!(monitor.handle_key(key(KeyCode::Down, false)), Flow::Continue);
    assert_eq!(monitor.selected, 0);
    assert_eq!(monitor.handle_key(key(KeyCode::Other, false)), Flow::Continue);
    assert_eq!(monitor.selected, 0);
    assert_eq!(monitor.handle_key(key(KeyCode::Esc, false)), Flow::Quit);
    assert_eq!(monitor.selected, 0);
}

#[test]
fn chart_of_rates_fits_its_width() {
    let series: VecDeque<u64> = VecDeque::from(vec![1, 2, 3, 4]);
    match recent_rates(&series, 5) {
        Recent::Rates(rates) => assert_eq!(rates, [2, 3, 4]),
        other => panic!("unexpected chart: {other:?}"),
    }
    match recent_rates(&series, 100) {
        Recent::Rates(rates) => assert_eq!(rates, [1, 2, 3, 4]),
        other => panic!("unexpected chart: {other:?}"),
    }
    match recent_rates(&series, 1) {
        Recent::Rates(rates) => assert!(rates.is_empty()),
        other => panic!("unexpected chart: {other:?}"),
    }
    assert!(matches!(recent_rates(&VecDeque::new(), 100), Recent::Waiting));
}

#[test]
fn window_counts_as_filled_within_a_millisecond() {
    let filling = filling_hint(0, SEC - MS - 1, SEC as u128).unwrap();
    assert_eq!(filling.elapsed_nanos, SEC - MS - 1);
    assert_eq!(filling.window_nanos, SEC as u128);
    assert!(filling_hint(0, SEC - MS, SEC as u128).is_none());
    assert!(filling_hint(0, SEC, SEC as u128).is_none());
    assert_eq!(filling_hint(5, 3, SEC as u128).unwrap().elapsed_nanos, 0);
}

#[test]
fn screen_before_anything_arrived() {
    let monitor = HzMonitor::new(&vec![topic("a", "x")], 10, 0);
    let screen = monitor.screen(80, 80, 0);
    assert_eq!(screen.rows.len(), 2);
    assert_eq!(screen.rows[0].name, "<ALL>/*");
    assert!(screen.rows[0].highlighted);
    assert!(screen.rows[0].stats.is_none());
    assert_eq!(screen.rows[1].name, "a/x");
    assert!(!screen.rows[1].highlighted);
    let detail = screen.detail.unwrap();
    assert_eq!(detail.name, "<ALL>/*");
    assert!(matches!(detail.recent, Recent::Waiting));
    assert!(detail.histogram.is_none());
    assert_eq!(detail.filling.unwrap().elapsed_nanos, 0);
}

#[test]
fn screen_with_arrivals() {
    let mut monitor = HzMonitor::new(&vec![topic("a", "x"), topic("b", "x")], 1, 0);
    for moment in [0, 10 * MS, 30 * MS] {
        monitor.record_output(&topic("a", "x"), moment);
    }
    monitor.tick(30 * MS);
    monitor.handle_key(key(KeyCode::Down, false));
    let screen = monitor.screen(80, 80, SEC);
    assert!(screen.rows[1].highlighted);
    assert_eq!(screen.rows[1].stats.unwrap().total, 30 * MS as u128);
    assert!(screen.rows[2].stats.is_none());
    let detail = screen.detail.unwrap();
    assert_eq!(detail.name, "a/x");
    match detail.recent {
        Recent::Rates(rates) => assert_eq!(rates, [15]),
        other => panic!("unexpected chart: {other:?}"),
    }
    let histogram = detail.histogram.unwrap();
    assert_eq!(histogram.counts.len(), 18);
    assert_eq!((histogram.min, histogram.max), (10 * MS, 20 * MS));
    assert_eq!(histogram.counts[0], 1);
    assert_eq!(histogram.counts[17], 1);
    assert!(detail.filling.is_none());
}

#[test]
fn screen_without_a_selected_entry_has_no_charts() {
    let mut monitor = HzMonitor::new(&Vec::new(), 10, 0);
    monitor.selected = 1;
    assert!(monitor.screen(80, 80, 0).detail.is_none());
}
