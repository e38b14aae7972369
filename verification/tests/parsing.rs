use loadgen::args::parse_header;
use loadgen::metrics::MetricsRange;

#[test]
fn header_simple() {
    let r = parse_header("Content-Type: application/json").unwrap();
    assert_eq!(r.0, "Content-Type");
    assert_eq!(r.1, "application/json");
}

#[test]
fn header_splits_at_first_colon_only() {
    let r = parse_header("Authorization: Bearer a:b:c").unwrap();
    assert_eq!(r.0, "Authorization");
    assert_eq!(r.1, "Bearer a:b:c");
}

#[test]
fn header_trims_whitespace() {
    let r = parse_header("  X-Key \t :  some value  ").unwrap();
    assert_eq!(r.0, "X-Key");
    assert_eq!(r.1, "some value");
}

#[test]
fn header_empty_value() {
    let r = parse_header("X-Empty:").unwrap();
    assert_eq!(r.0, "X-Empty");
    assert_eq!(r.1, "");
}

#[test]
fn header_without_colon_is_rejected() {
    let e = parse_header("NotAHeader").unwrap_err();
    assert_eq!(e, "Invalid header format: 'NotAHeader'. Expected 'Key: Value'");
}

#[test]
fn range_simple() {
    let r = MetricsRange::parse("10-30").unwrap();
    assert_eq!(r.lo, 10);
    assert_eq!(r.hi, 30);
}

#[test]
fn range_two_four() {
    let r = MetricsRange::parse("2-4").unwrap();
    assert_eq!(r.lo, 2);
    assert_eq!(r.hi, 4);
}

#[test]
fn range_equal_endpoints() {
    let r = MetricsRange::parse("7-7").unwrap();
    assert_eq!(r.lo, 7);
    assert_eq!(r.hi, 7);
}

#[test]
fn range_leading_plus_accepted() {
    let r = MetricsRange::parse("+10-30").unwrap();
    assert_eq!(r.lo, 10);
    assert_eq!(r.hi, 30);
}

#[test]
fn range_without_dash_is_rejected() {
    let e = MetricsRange::parse("10").unwrap_err();
    assert_eq!(e, "Expected format start-end (e.g., 10-30)");
}

#[test]
fn range_with_two_dashes_is_rejected() {
    let e = MetricsRange::parse("1-2-3").unwrap_err();
    assert_eq!(e, "Expected format start-end (e.g., 10-30)");
}

#[test]
fn range_bad_start_is_rejected() {
    let e = MetricsRange::parse("a-30").unwrap_err();
    assert_eq!(e, "Invalid start value");
}

#[test]
fn range_empty_start_is_rejected() {
    let e = MetricsRange::parse("-30").unwrap_err();
    assert_eq!(e, "Invalid start value");
}

#[test]
fn range_overflowing_start_is_rejected() {
    let e = MetricsRange::parse("99999999999999999999-5").unwrap_err();
    assert_eq!(e, "Invalid start value");
}

#[test]
fn range_largest_value_accepted() {
    let r = MetricsRange::parse("0-18446744073709551615").unwrap();
    assert_eq!(r.lo, 0);
    assert_eq!(r.hi, u64::MAX);
}

#[test]
fn range_bad_end_is_rejected() {
    let e = MetricsRange::parse("10-b").unwrap_err();
    assert_eq!(e, "Invalid end value");
}

#[test]
fn range_reversed_is_rejected() {
    let e = MetricsRange::parse("30-10").unwrap_err();
    assert_eq!(e, "Start must be <= end");
}

#[test]
fn range_from_str_trait() {
    let r: MetricsRange = "5-6".parse().unwrap();
    assert_eq!(r.lo, 5);
    assert_eq!(r.hi, 6);
    let e = "6-5".parse::<MetricsRange>().unwrap_err();
    assert_eq!(e, "Start must be <= end");
}
