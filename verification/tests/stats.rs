use squiggle::stats::{Statistics, HISTORY};

#[test]
fn new_statistics_hold_nothing() {
    let stats = Statistics::new();
    assert_eq!(stats.history, vec![0u64; 25]);
    assert_eq!(stats.history.len(), HISTORY);
    assert_eq!(stats.size, 0);
    assert_eq!(stats.cursor, 0);
    assert_eq!(stats.report(), None);
}

#[test]
fn the_average_is_in_whole_milliseconds() {
    let mut stats = Statistics::new();
    stats.start(1_000);
    assert_eq!(stats.start, 1_000);
    stats.end(1_000 + 3_000_000);
    assert_eq!(stats.start, 0);
    assert_eq!(stats.size, 1);
    assert_eq!(stats.report(), Some(3));
    stats.start(5);
    stats.end(5 + 8_999_999);
    // (3_000_000 + 8_999_999) / 2 = 5_999_999 ns
    assert_eq!(stats.report(), Some(5));
    stats.start(5);
    stats.end(5 + 6_000_004);
    // 18_000_003 / 3 = 6_000_001 ns
    assert_eq!(stats.report(), Some(6));
}

#[test]
fn the_oldest_time_is_replaced() {
    let mut stats = Statistics::new();
    for i in 0..25u64 {
        stats.start(1);
        stats.end(1 + (i + 1) * 1_000_000);
    }
    assert_eq!(stats.size, 25);
    assert_eq!(stats.cursor, 0);
    // 1 + 2 + .. + 25 = 325 ms over 25
    assert_eq!(stats.report(), Some(13));
    stats.start(1);
    stats.end(1 + 101_000_000);
    assert_eq!(stats.size, 25);
    assert_eq!(stats.cursor, 1);
    assert_eq!(stats.history[0], 101_000_000);
    // 325 - 1 + 101 = 425 ms over 25
    assert_eq!(stats.report(), Some(17));
}

#[test]
fn large_times_do_not_overflow() {
    let mut stats = Statistics::new();
    for _ in 0..25 {
        stats.start(0);
        stats.end(u64::MAX);
    }
    assert_eq!(stats.report(), Some(u64::MAX / 1_000_000));
}
