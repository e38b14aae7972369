use loadgen::metrics::Metrics;
use loadgen::series::average_response_time_series;
use loadgen::series::cumulative_series;
use loadgen::series::latency_percentile_rows;
use loadgen::series::requests_per_second_series;
use loadgen::series::StatusFilter;

fn record(start_us: u64, response_time_us: u64, status: u16) -> Metrics {
    Metrics::new(start_us, start_us + response_time_us, status)
}

fn sample_history() -> Vec<Metrics> {
    vec![
        record(0, 1_000, 200),
        record(50_000, 3_000, 500),
        record(150_000, 10_000, 200),
        record(1_200_000, 2_000, 200),
    ]
}

#[test]
fn cumulative_successes_accumulate_per_bucket() {
    let h = sample_history();
    let rows = cumulative_series(&h, StatusFilter::Matching(200));
    assert_eq!(rows.len(), 13);
    assert_eq!(rows[0], (0, 1));
    assert_eq!(rows[1], (1, 2));
    assert_eq!(rows[11], (11, 2));
    assert_eq!(rows[12], (12, 3));
}

#[test]
fn cumulative_errors_accumulate_per_bucket() {
    let h = sample_history();
    let rows = cumulative_series(&h, StatusFilter::NotMatching(200));
    assert_eq!(rows, vec![(0, 1)]);
}

#[test]
fn cumulative_totals_accumulate_per_bucket() {
    let h = sample_history();
    let rows = cumulative_series(&h, StatusFilter::All);
    assert_eq!(rows.len(), 13);
    assert_eq!(rows[0], (0, 2));
    assert_eq!(rows[1], (1, 3));
    assert_eq!(rows[11], (11, 3));
    assert_eq!(rows[12], (12, 4));
}

#[test]
fn average_latency_per_bucket_uses_bucket_means() {
    let h = sample_history();
    let rows = average_response_time_series(&h);
    // Bucket 0 holds 1 ms and 3 ms: mean 2 ms. Buckets without records
    // produce no row.
    assert_eq!(rows, vec![(0, 2), (1, 10), (12, 2)]);
}

#[test]
fn requests_per_second_counts_each_second() {
    let h = sample_history();
    let counts = requests_per_second_series(&h);
    assert_eq!(counts, vec![3, 1]);
}

#[test]
fn percentile_tracks_per_second() {
    let h = sample_history();
    let rows = latency_percentile_rows(&h);
    // Second 0 has latencies [1, 3, 10] ms: P50 = 3, P90 interpolates to
    // 8.6 ms (8 after integer division), P99 to 9.86 ms (9).
    // Second 1 has the single latency 2 ms, so every percentile is 2.
    assert_eq!(rows, vec![(0, 3, 8, 9), (1, 2, 2, 2)]);
}

#[test]
fn percentile_tracks_of_empty_history_are_empty() {
    let h: Vec<Metrics> = vec![];
    assert!(latency_percentile_rows(&h).is_empty());
}

#[test]
fn record_starting_before_the_first_saturates_to_time_zero() {
    let h = vec![record(100_000, 1_000, 200), record(50_000, 3_000, 200)];
    let rows = cumulative_series(&h, StatusFilter::All);
    // Both records land in bucket 0: the second one's offset saturates.
    assert_eq!(rows, vec![(0, 2)]);
}
