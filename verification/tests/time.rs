use harbor_light::time::{later_of, nanos_between, not_after, now, parse_rfc3339, Timestamp};

#[test]
fn timestamps_compare_and_shift() {
    let a = Timestamp { secs: 10, nanos: 5 };
    let b = Timestamp { secs: 10, nanos: 6 };
    assert!(not_after(&a, &b));
    assert!(!not_after(&b, &a));
    assert_eq!(nanos_between(&a, &b), 1);
    assert_eq!(later_of(a, b), b);
    assert_eq!(later_of(a, a), a);
    assert_eq!(a.plus_secs(5).secs, 15);
    assert_eq!(Timestamp { secs: i64::MAX - 1, nanos: 0 }.plus_secs(5).secs, i64::MAX);
    assert_eq!(Timestamp::from_secs(3), Timestamp { secs: 3, nanos: 0 });
}

#[test]
fn rfc3339_timestamps_are_read_in_utc() {
    let t = parse_rfc3339("2026-08-20T03:00:05Z").unwrap();
    assert_eq!(t, Timestamp { secs: 1_787_194_805, nanos: 0 });
    let t = parse_rfc3339("2026-08-20T05:00:05.25+02:00").unwrap();
    assert_eq!(t, Timestamp { secs: 1_787_194_805, nanos: 250_000_000 });
    assert_eq!(parse_rfc3339("yesterday"), None);
    assert!(now().secs > 1_700_000_000);
}

#[test]
fn leap_seconds_order_and_subtract_as_chrono_does() {
    let leap = parse_rfc3339("2016-12-31T23:59:60.5Z").unwrap();
    assert_eq!(leap, Timestamp { secs: 1_483_228_799, nanos: 1_500_000_000 });
    let next = parse_rfc3339("2017-01-01T00:00:00.2Z").unwrap();
    let before = parse_rfc3339("2016-12-31T23:59:58Z").unwrap();
    // A leap second stays within its second.
    assert!(not_after(&leap, &next));
    assert!(!not_after(&next, &leap));
    assert_eq!(later_of(leap, next), next);
    assert_eq!(later_of(next, leap), next);
    // Differences within a day count the leap second in full.
    assert_eq!(nanos_between(&before, &leap), 2_500_000_000);
    // Across midnight chrono compares the times of day.
    assert_eq!(nanos_between(&leap, &next), -300_000_000);
}
