use loadgen::metrics::Aggregator;
use loadgen::metrics::Metrics;
use loadgen::metrics::MetricsRange;
use loadgen::metrics::StepAction;

fn outcome(start_us: u64, now_us: u64, status: u16) -> Metrics {
    Metrics::new(start_us, now_us, status)
}

#[test]
fn metrics_new_measures_elapsed_time() {
    let m = Metrics::new(100, 350, 200);
    assert_eq!(m.start_us, 100);
    assert_eq!(m.response_time_us, 250);
    assert_eq!(m.status_code, 200);
}

#[test]
fn counters_track_total_and_success() {
    let mut a = Aggregator::new(200, 3_600_000_000, false, None, 0);
    a.on_outcome(100_000, outcome(50_000, 100_000, 200));
    a.on_outcome(150_000, outcome(60_000, 150_000, 500));
    a.on_outcome(160_000, outcome(70_000, 160_000, 200));
    assert_eq!(a.total_count, 3);
    assert_eq!(a.success_count, 2);
}

#[test]
fn successes_never_exceed_total() {
    let mut a = Aggregator::new(200, 3_600_000_000, false, None, 0);
    let statuses = [200u16, 500, 200, 404, 200, 200, 503];
    let mut now: u64 = 0;
    for st in statuses {
        now += 30_000;
        a.on_outcome(now, outcome(now - 10_000, now, st));
        assert!(a.success_count <= a.total_count);
    }
    assert_eq!(a.total_count, 7);
    assert_eq!(a.success_count, 4);
}

#[test]
fn first_snapshot_after_interval_carries_stats() {
    let mut a = Aggregator::new(200, 3_600_000_000, false, None, 0);
    match a.on_outcome(100_000, outcome(40_000, 100_000, 200)) {
        StepAction::Emit(u) => {
            assert_eq!(u.elapsed_us, 100_000);
            assert_eq!(u.current_requests, 1);
            assert_eq!(u.successful_requests, 1);
            assert_eq!(u.latencies, vec![(100_000, 60_000)]);
            assert_eq!(u.rps, 1);
            assert_eq!(u.rpm, 60);
        }
        _ => panic!("expected a snapshot"),
    }
}

#[test]
fn snapshots_are_rate_limited() {
    let mut a = Aggregator::new(200, 3_600_000_000, false, None, 0);
    assert!(matches!(
        a.on_outcome(100_000, outcome(0, 100_000, 200)),
        StepAction::Emit(_)
    ));
    // Only 50 ms since the last snapshot: no emission.
    assert!(matches!(
        a.on_outcome(150_000, outcome(0, 150_000, 200)),
        StepAction::Continue
    ));
    // 100 ms again: a fresh snapshot.
    assert!(matches!(
        a.on_outcome(200_000, outcome(0, 200_000, 200)),
        StepAction::Emit(_)
    ));
}

#[test]
fn latency_window_evicts_entries_older_than_ten_seconds() {
    let mut a = Aggregator::new(200, 3_600_000_000, false, None, 0);
    a.on_outcome(100_000, outcome(0, 100_000, 200));
    a.on_outcome(5_000_000, outcome(0, 5_000_000, 200));
    assert_eq!(a.latency_window.len(), 2);
    // 20 s in: both earlier entries are now stale.
    a.on_outcome(20_000_000, outcome(19_000_000, 20_000_000, 200));
    assert_eq!(a.latency_window.len(), 1);
    assert_eq!(*a.latency_window.front().unwrap(), (20_000_000, 1_000_000));
    // No entry is ever older than 10 s relative to the newest one.
    let newest = a.latency_window.back().unwrap().0;
    for (ts, _) in a.latency_window.iter() {
        assert!(newest - ts <= 10_000_000);
    }
}

#[test]
fn rps_slots_extend_within_100ms_and_reopen_after() {
    let mut a = Aggregator::new(200, 3_600_000_000, false, None, 0);
    a.on_outcome(100_000, outcome(0, 100_000, 200));
    a.on_outcome(150_000, outcome(0, 150_000, 200));
    // Both fall in the slot opened at 100 ms.
    assert_eq!(a.rps_window.len(), 1);
    assert_eq!(*a.rps_window.back().unwrap(), (100_000, 2));
    // 250 ms is past the slot's 100 ms width: a new slot opens.
    a.on_outcome(250_000, outcome(0, 250_000, 200));
    assert_eq!(a.rps_window.len(), 2);
    assert_eq!(*a.rps_window.back().unwrap(), (250_000, 1));
}

#[test]
fn rps_window_evicts_slots_older_than_sixty_seconds() {
    let mut a = Aggregator::new(200, 3_600_000_000, false, None, 0);
    a.on_outcome(100_000, outcome(0, 100_000, 200));
    assert_eq!(a.rps_window.len(), 1);
    a.on_outcome(70_000_000, outcome(69_000_000, 70_000_000, 200));
    // The slot from 0.1 s is more than 60 s old now.
    assert_eq!(a.rps_window.len(), 1);
    assert_eq!(*a.rps_window.front().unwrap(), (70_000_000, 1));
}

#[test]
fn rps_counts_only_the_trailing_second() {
    let mut a = Aggregator::new(200, 3_600_000_000, false, None, 0);
    a.on_outcome(100_000, outcome(0, 100_000, 200));
    a.on_outcome(150_000, outcome(0, 150_000, 200));
    // 2.2 s in, the first slot is outside the trailing second.
    match a.on_outcome(2_200_000, outcome(0, 2_200_000, 200)) {
        StepAction::Emit(u) => {
            assert_eq!(u.rps, 1);
            assert_eq!(u.rpm, 60);
            assert_eq!(u.current_requests, 3);
        }
        _ => panic!("expected a snapshot"),
    }
}

#[test]
fn run_expires_exactly_at_target_duration() {
    let mut a = Aggregator::new(200, 30_000_000, false, None, 0);
    assert!(matches!(
        a.on_outcome(29_899_999, outcome(0, 29_899_999, 200)),
        StepAction::Emit(_)
    ));
    assert!(matches!(
        a.on_outcome(30_000_000, outcome(0, 30_000_000, 200)),
        StepAction::Expired
    ));
}

#[test]
fn history_filter_keeps_only_records_arriving_inside_range() {
    // Range 2-4 seconds: arrivals in seconds 1 and 5 are dropped from the
    // history, but every arrival still counts towards the statistics.
    let range = MetricsRange::parse("2-4").unwrap();
    let mut a = Aggregator::new(200, 3_600_000_000, false, Some(range), 0);
    a.on_outcome(1_000_000, outcome(900_000, 1_000_000, 200));
    a.on_outcome(3_000_000, outcome(2_900_000, 3_000_000, 200));
    a.on_outcome(5_000_000, outcome(4_900_000, 5_000_000, 500));
    assert_eq!(a.history.len(), 1);
    assert_eq!(a.history[0].start_us, 2_900_000);
    assert_eq!(a.total_count, 3);
    assert_eq!(a.success_count, 2);
    // The windows see all three outcomes regardless of the filter.
    assert_eq!(a.latency_window.len(), 3);
}

#[test]
fn history_unfiltered_keeps_everything() {
    let mut a = Aggregator::new(200, 3_600_000_000, false, None, 0);
    a.on_outcome(1_000_000, outcome(900_000, 1_000_000, 200));
    a.on_outcome(5_000_000, outcome(4_900_000, 5_000_000, 500));
    assert_eq!(a.history.len(), 2);
}

#[test]
fn disabling_charts_disables_history_but_not_counters() {
    let mut a = Aggregator::new(200, 3_600_000_000, true, None, 0);
    a.on_outcome(1_000_000, outcome(900_000, 1_000_000, 200));
    a.on_outcome(2_000_000, outcome(1_900_000, 2_000_000, 200));
    assert!(a.history.is_empty());
    assert_eq!(a.total_count, 2);
    assert_eq!(a.success_count, 2);
}
