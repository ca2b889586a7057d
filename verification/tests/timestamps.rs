use mqtt2timescale::reading::TimestampError;
use mqtt2timescale::timestamp::{check_freshness, parse_rfc3339, Freshness, Timestamp};

#[test]
fn epoch_and_offsets_resolve_to_utc() {
    assert_eq!(
        parse_rfc3339(b"1970-01-01T00:00:00Z").unwrap(),
        Timestamp { secs: 0, nanos: 0 }
    );
    assert_eq!(
        parse_rfc3339(b"2024-01-01T00:00:00Z").unwrap(),
        Timestamp { secs: 1704067200, nanos: 0 }
    );
    // the same civil time two hours east of UTC is two hours earlier
    assert_eq!(
        parse_rfc3339(b"2024-01-01T00:00:00+02:00").unwrap(),
        Timestamp { secs: 1704060000, nanos: 0 }
    );
    assert_eq!(
        parse_rfc3339(b"2024-01-01T00:00:00-02:30").unwrap(),
        Timestamp { secs: 1704067200 + 9000, nanos: 0 }
    );
}

#[test]
fn invalid_month_and_free_text_fail() {
    assert_eq!(
        parse_rfc3339(b"2024-13-01T00:00:00Z").unwrap_err(),
        TimestampError::NotATimestamp
    );
    assert_eq!(parse_rfc3339(b"not-a-date").unwrap_err(), TimestampError::NotATimestamp);
}

#[test]
fn calendar_is_validated() {
    assert!(parse_rfc3339(b"2024-02-29T00:00:00Z").is_ok());
    assert!(parse_rfc3339(b"2023-02-29T00:00:00Z").is_err());
    assert!(parse_rfc3339(b"1900-02-29T00:00:00Z").is_err());
    assert!(parse_rfc3339(b"2000-02-29T00:00:00Z").is_ok());
    assert!(parse_rfc3339(b"2024-04-31T00:00:00Z").is_err());
    assert!(parse_rfc3339(b"2024-01-01T24:00:00Z").is_err());
    assert!(parse_rfc3339(b"2024-01-01T00:00:60Z").is_err());
}

#[test]
fn fractional_seconds_keep_nine_digits() {
    assert_eq!(
        parse_rfc3339(b"2024-01-01T00:00:00.5Z").unwrap(),
        Timestamp { secs: 1704067200, nanos: 500_000_000 }
    );
    assert_eq!(
        parse_rfc3339(b"2024-01-01T00:00:00.123456789123Z").unwrap(),
        Timestamp { secs: 1704067200, nanos: 123_456_789 }
    );
    assert!(parse_rfc3339(b"2024-01-01T00:00:00.Z").is_err());
}

#[test]
fn offset_must_be_present_and_whole() {
    assert!(parse_rfc3339(b"2024-01-01T00:00:00").is_err());
    assert!(parse_rfc3339(b"2024-01-01T00:00:00+02").is_err());
    assert!(parse_rfc3339(b"2024-01-01 00:00:00Z").is_err());
    assert!(parse_rfc3339(b"2024-01-01t00:00:00z").is_ok());
}

#[test]
fn chrono_agrees_on_resolved_instants() {
    for text in [
        "1970-01-01T00:00:00Z",
        "2024-01-01T00:00:00+02:00",
        "1999-12-31T23:59:59-11:30",
        "0001-03-04T05:06:07Z",
        "9999-12-31T23:59:59.25Z",
        "2016-02-29T12:00:00+14:00",
    ] {
        let ours = parse_rfc3339(text.as_bytes()).unwrap();
        let theirs = chrono::DateTime::parse_from_rfc3339(text).unwrap();
        assert_eq!(ours.secs, theirs.timestamp(), "{text}");
        assert_eq!(ours.nanos, theirs.timestamp_subsec_nanos(), "{text}");
    }
}

#[test]
fn freshness_is_advisory_and_exact() {
    let now = Timestamp { secs: 100, nanos: 0 };
    assert_eq!(
        check_freshness(&now, &Timestamp { secs: 99, nanos: 0 }),
        Freshness::Fresh
    );
    // 1000 ms behind is still fresh; one more millisecond is stale
    assert_eq!(
        check_freshness(&now, &Timestamp { secs: 99, nanos: 1_000_000 }),
        Freshness::Fresh
    );
    assert_eq!(
        check_freshness(&now, &Timestamp { secs: 98, nanos: 998_999_999 }),
        Freshness::Stale
    );
    assert_eq!(
        check_freshness(&now, &Timestamp { secs: 98, nanos: 998_000_000 }),
        Freshness::Stale
    );
    assert_eq!(
        check_freshness(&now, &Timestamp { secs: 100, nanos: 1 }),
        Freshness::FromFuture
    );
}
