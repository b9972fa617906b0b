use squiggle::config::{parallelism, read_decimal, timeout_ns, DEFAULT_PARALLELISM, DEFAULT_TIMEOUT};

#[test]
fn numbers_are_read_from_digits() {
    assert_eq!(read_decimal("0"), Some(0));
    assert_eq!(read_decimal("007"), Some(7));
    assert_eq!(read_decimal("1000000000"), Some(1_000_000_000));
    assert_eq!(read_decimal("18446744073709551615"), Some(u64::MAX));
    assert_eq!(read_decimal("18446744073709551616"), None);
    assert_eq!(read_decimal(""), None);
    assert_eq!(read_decimal("12a"), None);
    assert_eq!(read_decimal("-1"), None);
    assert_eq!(read_decimal(" 1"), None);
    assert_eq!(read_decimal("1.5"), None);
}

#[test]
fn one_worker_searches_where_nothing_else_is_set() {
    assert_eq!(DEFAULT_PARALLELISM, 1);
    assert_eq!(parallelism(None), 1);
    assert_eq!(parallelism(Some("")), 1);
    assert_eq!(parallelism(Some("many")), 1);
    assert_eq!(parallelism(Some("8")), 8);
    assert_eq!(parallelism(Some("0")), 0);
}

#[test]
fn a_search_takes_60_seconds_where_nothing_else_is_set() {
    assert_eq!(DEFAULT_TIMEOUT, 60);
    assert_eq!(timeout_ns(None), 60_000_000_000);
    assert_eq!(timeout_ns(Some("soon")), 60_000_000_000);
    assert_eq!(timeout_ns(Some("1")), 1_000_000_000);
    assert_eq!(timeout_ns(Some("0")), 0);
    assert_eq!(timeout_ns(Some("18446744073")), 18_446_744_073_000_000_000);
    assert_eq!(timeout_ns(Some("18446744074")), u64::MAX);
}
