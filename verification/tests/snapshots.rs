use loadgen::ui::UiData;

#[test]
fn new_snapshot_carries_its_fields() {
    let u = UiData::new(2_500_000, 40, 38, vec![(1_000_000, 12_000)], 16, 960);
    assert_eq!(u.elapsed_us, 2_500_000);
    assert_eq!(u.current_requests, 40);
    assert_eq!(u.successful_requests, 38);
    assert_eq!(u.latencies, vec![(1_000_000, 12_000)]);
    assert_eq!(u.rps, 16);
    assert_eq!(u.rpm, 960);
}

#[test]
fn default_snapshot_is_all_zero() {
    let u = UiData::default();
    assert_eq!(u.elapsed_us, 0);
    assert_eq!(u.current_requests, 0);
    assert_eq!(u.successful_requests, 0);
    assert!(u.latencies.is_empty());
    assert_eq!(u.rps, 0);
    assert_eq!(u.rpm, 0);
}
