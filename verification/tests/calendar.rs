use leg::calendar::{format_ts, LAST_FOUR_DIGIT_MS};

#[test]
fn format_ts_renders_utc_civil_date() {
    assert_eq!(format_ts(1_700_000_000_000), "2023-11-14T22:13:20Z");
}

#[test]
fn stamps_are_ordered_as_their_times_are() {
    let times = [
        0,
        999,
        1_000,
        86_399_999,
        86_400_000,
        951_782_400_000,
        1_700_000_000_000,
        LAST_FOUR_DIGIT_MS,
    ];
    for pair in times.windows(2) {
        let (a, b) = (format_ts(pair[0]), format_ts(pair[1]));
        assert_eq!(a.len(), 20);
        assert_eq!(a == b, pair[0] / 1000 == pair[1] / 1000);
        assert!(a <= b);
    }
    assert_eq!(format_ts(999), "1970-01-01T00:00:00Z");
    assert_eq!(format_ts(951_782_400_000), "2000-02-29T00:00:00Z");
    assert_eq!(format_ts(LAST_FOUR_DIGIT_MS), "9999-12-31T23:59:59Z");
    assert_eq!(format_ts(LAST_FOUR_DIGIT_MS + 1), "10000-01-01T00:00:00Z");
}
