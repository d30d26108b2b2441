use codex_console::clock::{
    normalize_timestamp_string, now_rfc3339, now_timestamp, parse_rfc3339_to_datetime,
    parse_rfc3339_to_timestamp, system_time_to_timestamp, UtcDateTime,
};

#[test]
fn times_are_read_in_any_zone() {
    assert_eq!(parse_rfc3339_to_timestamp("1970-01-01T00:00:01Z"), Some(1));
    assert_eq!(parse_rfc3339_to_timestamp(" 2024-01-02T03:04:05+01:00 "), Some(1704161045));
    assert_eq!(
        parse_rfc3339_to_datetime(Some("1969-12-31T23:59:59.25Z")),
        Some(UtcDateTime { seconds: -1, nanos: 250_000_000 })
    );
}

#[test]
fn texts_that_are_no_times_are_refused() {
    assert_eq!(parse_rfc3339_to_datetime(None), None);
    assert_eq!(parse_rfc3339_to_timestamp(""), None);
    assert_eq!(parse_rfc3339_to_timestamp("  "), None);
    assert_eq!(parse_rfc3339_to_timestamp("yesterday"), None);
    assert_eq!(parse_rfc3339_to_timestamp("2024-02-30T00:00:00Z"), None);
}

#[test]
fn times_are_written_in_utc() {
    assert_eq!(
        normalize_timestamp_string(" 2024-01-02T03:04:05.5+01:00"),
        "2024-01-02T02:04:05.500+00:00"
    );
    assert_eq!(normalize_timestamp_string(" not a time "), " not a time ");
    assert_eq!(normalize_timestamp_string(""), "");
}

#[test]
fn leap_seconds_are_read_again() {
    let text = normalize_timestamp_string("2016-12-31T23:59:60.5Z");
    assert_eq!(text, "2016-12-31T23:59:60.500+00:00");
    assert_eq!(
        parse_rfc3339_to_datetime(Some(&text)),
        Some(UtcDateTime { seconds: 1483228799, nanos: 1_500_000_000 })
    );
}

#[test]
fn the_last_and_first_years_are_read_again() {
    for text in ["0000-01-01T00:00:00+00:00", "9999-12-31T23:59:59.999999999+00:00"] {
        assert_eq!(normalize_timestamp_string(text), text);
    }
    assert_eq!(parse_rfc3339_to_timestamp("0000-01-01T00:00:00Z"), Some(-62_167_219_200));
    assert_eq!(parse_rfc3339_to_timestamp("9999-12-31T23:59:59Z"), Some(253_402_300_799));
}

#[test]
fn the_present_can_be_read_again() {
    let before = now_timestamp();
    let written = parse_rfc3339_to_timestamp(&now_rfc3339()).unwrap();
    let after = now_timestamp();
    assert!(before <= written && written <= after);
    assert!(before > 1_600_000_000);
    assert_eq!(normalize_timestamp_string(&now_rfc3339()).len() > 20, true);
}

#[test]
fn file_times_are_seconds_with_a_sign() {
    assert_eq!(system_time_to_timestamp(None), None);
    assert_eq!(system_time_to_timestamp(Some(5)), Some(5));
    for n in [i64::MAX as u64, i64::MAX as u64 + 1, u64::MAX] {
        assert_eq!(system_time_to_timestamp(Some(n)), Some(n as i64));
    }
}
