use loadgen::stats::percentile;
use loadgen::stats::sorted_copy;

#[test]
fn sort_orders_and_keeps_duplicates() {
    let v = vec![3u64, 1, 2, 3, 0];
    let s = sorted_copy(&v);
    assert_eq!(s, vec![0, 1, 2, 3, 3]);
}

#[test]
fn sort_of_empty_is_empty() {
    let v: Vec<u64> = vec![];
    let s = sorted_copy(&v);
    assert!(s.is_empty());
}

#[test]
fn single_sample_percentiles_all_equal_it() {
    // For a one-element sample every percentile is that element.
    let v = vec![42u64];
    assert_eq!(percentile(&v, 50), 42);
    assert_eq!(percentile(&v, 90), 42);
    assert_eq!(percentile(&v, 99), 42);
}

#[test]
fn two_sample_median_interpolates_linearly() {
    // P50 of [10, 20] interpolates halfway: 15.
    let v = vec![10u64, 20];
    assert_eq!(percentile(&v, 50), 15);
}

#[test]
fn two_sample_tail_percentile() {
    // P99 of [10, 20]: rank 0.99, so (10 * 1 + 20 * 99) / 100 = 19.
    let v = vec![10u64, 20];
    assert_eq!(percentile(&v, 99), 19);
}

#[test]
fn four_sample_median() {
    // Rank = 50 * 3 / 100 = 1.5: halfway between 20 and 30.
    let v = vec![10u64, 20, 30, 40];
    assert_eq!(percentile(&v, 50), 25);
}

#[test]
fn percentile_zero_is_minimum_and_hundred_is_maximum() {
    let v = vec![5u64, 7, 11];
    assert_eq!(percentile(&v, 0), 5);
    assert_eq!(percentile(&v, 100), 11);
}

#[test]
fn percentile_of_empty_sample_is_zero() {
    let v: Vec<u64> = vec![];
    assert_eq!(percentile(&v, 50), 0);
}
