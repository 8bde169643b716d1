use rfc3339_fast::{Buffer, Timestamp, TimestampError};
use rfc3339_fast::calendar::{SECONDS_MAX, SECONDS_MIN};
use std::str::FromStr;
use std::time::{Duration, SystemTime, UNIX_EPOCH};

/// Points in time with the text of each.
fn timestamps() -> [(SystemTime, &'static str); 8] {
    [
        (
            UNIX_EPOCH + Duration::new(86400 + (60 * 60) + 60 + 1, 0),
            "1970-01-02T01:01:01Z",
        ),
        (
            UNIX_EPOCH + Duration::new(253402300799, 0),
            "9999-12-31T23:59:59Z",
        ),
        (
            UNIX_EPOCH + Duration::new(1641006000, 0),
            "2022-01-01T03:00:00Z",
        ),
        (
            UNIX_EPOCH - Duration::new(2208988800, 0),
            "1900-01-01T00:00:00Z",
        ),
        (
            UNIX_EPOCH - Duration::new(86400 + (60 * 60) + 60 + 1, 987654321),
            "1969-12-30T22:58:58.012345679Z",
        ),
        (
            UNIX_EPOCH + Duration::new(86400 + (60 * 60) + 60 + 1, 987654321),
            "1970-01-02T01:01:01.987654321Z",
        ),
        (
            UNIX_EPOCH + Duration::new(86400 + (60 * 60) + 60 + 1, 987654000),
            "1970-01-02T01:01:01.987654Z",
        ),
        (
            UNIX_EPOCH + Duration::new(86400 + (60 * 60) + 60 + 1, 987000000),
            "1970-01-02T01:01:01.987Z",
        ),
    ]
}

#[test]
fn test_buffer_format() {
    let mut buf = Buffer::new();
    for ts in timestamps() {
        assert_eq!(buf.format(ts.0), ts.1);
    }
}

#[test]
fn test_parse() {
    for ts in timestamps() {
        assert_eq!(Timestamp::from(ts.0), Timestamp::from_str(ts.1).unwrap());
    }
}

#[test]
fn test_parse_offset() {
    // The same instant in UTC is five hours earlier.
    let utc = Timestamp::from_str("2026-02-25T09:30:00Z").unwrap();
    let off = Timestamp::from_str("2026-02-25T14:30:00+05:00").unwrap();
    assert_eq!(utc, off);

    let utc = Timestamp::from_str("2026-02-25T19:30:00Z").unwrap();
    let off = Timestamp::from_str("2026-02-25T14:30:00-05:00").unwrap();
    assert_eq!(utc, off);

    let utc = Timestamp::from_str("2026-02-25T14:30:00Z").unwrap();
    let off = Timestamp::from_str("2026-02-25T14:30:00+00:00").unwrap();
    assert_eq!(utc, off);

    // The fraction is kept beside an offset.
    let utc = Timestamp::from_str("2026-02-25T09:30:00.123456789Z").unwrap();
    let off = Timestamp::from_str("2026-02-25T14:30:00.123456789+05:00").unwrap();
    assert_eq!(utc, off);

    let utc = Timestamp::from_str("2026-02-25T09:00:00Z").unwrap();
    let off = Timestamp::from_str("2026-02-25T14:30:00+05:30").unwrap();
    assert_eq!(utc, off);
}

#[test]
fn test_parse_offset_invalid() {
    // No colon.
    assert!(Timestamp::from_str("2026-02-25T14:30:00+0500").is_err());
    // Another byte in its place.
    assert!(Timestamp::from_str("2026-02-25T14:30:00+05.00").is_err());
    // Too many hours, too many minutes.
    assert!(Timestamp::from_str("2026-02-25T14:30:00+24:00").is_err());
    assert!(Timestamp::from_str("2026-02-25T14:30:00+05:60").is_err());
    // Not a digit.
    assert!(Timestamp::from_str("2026-02-25T14:30:00+0a:00").is_err());
    // More after the offset.
    assert!(Timestamp::from_str("2026-02-25T14:30:00+05:00X").is_err());
    // No zone, but something.
    assert!(Timestamp::from_str("2026-02-25T14:30:00X").is_err());
    // Nothing after the time.
    assert!(Timestamp::from_str("2026-02-25T14:30:00").is_err());
}

#[test]
fn test_error_display() {
    assert_eq!(
        TimestampError::InvalidFormat.to_string(),
        "invalid timestamp format"
    );
    assert_eq!(
        TimestampError::OutOfRange.to_string(),
        "timestamp value out of range"
    );
}

#[test]
fn test_try_from_seconds_nanos() {
    let ts = Timestamp::try_from((0i64, 0u32)).unwrap();
    assert_eq!(ts.to_system_time(), Some(UNIX_EPOCH));
    assert_eq!(ts.seconds(), 0);
    assert_eq!(ts.subsec_nanos(), 0);

    // Before the epoch, with nanoseconds.
    let ts = Timestamp::from_unix(-1, 500_000_000).unwrap();
    assert_eq!(
        ts.to_system_time(),
        Some(UNIX_EPOCH - Duration::from_millis(500))
    );
    assert_eq!(ts.seconds(), -1);
    assert_eq!(ts.subsec_nanos(), 500_000_000);

    assert_eq!(
        Timestamp::try_from((SECONDS_MIN - 1, 0)),
        Err(TimestampError::OutOfRange),
    );
    assert_eq!(
        Timestamp::try_from((SECONDS_MAX + 1, 0)),
        Err(TimestampError::OutOfRange),
    );
    assert_eq!(
        Timestamp::from_unix(0, 1_000_000_000),
        Err(TimestampError::OutOfRange),
    );
}

#[test]
fn test_now_display_debug() {
    let now = Timestamp::now();
    let s = now.to_string();
    assert!(s.ends_with('Z'));
    assert_eq!(now, Timestamp::from_str(&s).unwrap());

    let dbg = format!("{now:?}");
    assert!(dbg.starts_with("Timestamp "), "got: {dbg}");
}

#[test]
fn test_from_conversions() {
    let st = UNIX_EPOCH + Duration::from_secs(1641006000);
    let ts_owned: Timestamp = st.into();
    let ts_ref: Timestamp = (&st).into();
    assert_eq!(ts_owned, ts_ref);

    let ts_copy: Timestamp = (&ts_owned).into();
    assert_eq!(ts_owned, ts_copy);
}

#[test]
fn test_buffer_default_and_clone() {
    let mut buf = Buffer::default();
    let ts: Timestamp = "2026-02-26T00:31:30.042Z".parse().unwrap();
    assert_eq!(buf.format(ts), "2026-02-26T00:31:30.042Z");

    // A clone is empty.
    let cloned = buf.clone();
    assert_eq!(cloned.as_str().len(), 0);
}

#[test]
fn test_buffer_size() {
    assert_eq!(core::mem::size_of::<Buffer>(), 32);
}

#[test]
fn test_buffer_write_number() {
    let mut buf = Buffer::new();
    buf.write_byte(b'A');
    buf.write_number(12345, 5);
    buf.write_byte(b'B');
    assert_eq!(buf.as_str(), "A12345B");
}

#[test]
fn numbers_are_padded_and_cut() {
    let mut buf = Buffer::new();
    buf.write_number(42, 4);
    buf.write_number(7, 0);
    buf.write_number(1234, 2);
    buf.write_number(1234, 3);
    assert_eq!(buf.as_str(), "004234234");
}

#[test]
fn fractions_take_as_few_digits_as_they_need() {
    let cases: [(u32, &str); 6] = [
        (0, ""),
        (1, ".000000001"),
        (1_000, ".000001"),
        (1_000_000, ".001"),
        (120_000_000, ".120"),
        (999_999_999, ".999999999"),
    ];
    for (nanos, text) in cases {
        let mut buf = Buffer::new();
        buf.jsonenc_nanos(nanos);
        assert_eq!(buf.as_str(), text);
        let whole = format!("1970-01-01T00:00:00{text}Z");
        let ts = Timestamp::from_unix(0, nanos).unwrap();
        assert_eq!(ts.to_string(), whole);
        assert_eq!(Timestamp::from_str(&whole), Ok(ts));
    }
}

#[test]
fn the_ends_of_the_range() {
    let first = Timestamp::from_unix(SECONDS_MIN, 0).unwrap();
    assert_eq!(first.to_string(), "0001-01-01T00:00:00Z");
    assert_eq!(Timestamp::from_str("0001-01-01T00:00:00Z"), Ok(first));
    let last = Timestamp::from_unix(SECONDS_MAX, 999_999_999).unwrap();
    assert_eq!(last.to_string(), "9999-12-31T23:59:59.999999999Z");
    assert_eq!(
        Timestamp::from_str("9999-12-31T23:59:59.999999999Z"),
        Ok(last)
    );

    assert_eq!(
        Timestamp::from_str("0001-01-01T00:00:00+00:01"),
        Err(TimestampError::OutOfRange)
    );
    assert_eq!(
        Timestamp::from_str("9999-12-31T23:59:59-00:01"),
        Err(TimestampError::OutOfRange)
    );
    assert_eq!(
        Timestamp::from_str("0001-01-01T00:01:00+00:01"),
        Ok(first)
    );
}

#[test]
fn fields_out_of_their_range_are_refused() {
    for text in [
        "0000-01-01T00:00:00Z",
        "2026-00-01T00:00:00Z",
        "2026-13-01T00:00:00Z",
        "2026-01-00T00:00:00Z",
        "2026-01-32T00:00:00Z",
        "2026-01-01T24:00:00Z",
        "2026-01-01T00:60:00Z",
        "2026-01-01T00:00:60Z",
        "+026-01-01T00:00:00Z",
        "-026-01-01T00:00:00Z",
        "2026-+1-01T00:00:00Z",
        "2026/01-01T00:00:00Z",
        "2026-01-01t00:00:00Z",
        "2026-01-01T00:00:00z",
        "2026-01-01T00:00:00ZZ",
        "2026-01-01T00:00:00.Z",
        "2026-01-01T00:00:00.+12Z",
        "2026-01-01T00:00:00.-12Z",
        "2026-01-01T00:00:00.1234Z",
        "2026-01-01T00:00:00.1234567890Z",
        "2026-01-01T00:00:00.12345678901234567890Z",
        "2026-01-01T00:00:00.123",
        "2026",
        "",
        "\u{ff12}026-01-01T00:00:00Z",
    ] {
        assert_eq!(
            Timestamp::from_str(text),
            Err(TimestampError::InvalidFormat),
            "{text}"
        );
    }
}

#[test]
fn every_offset_is_read() {
    let local = Timestamp::from_str("2026-02-25T14:30:00Z").unwrap();
    for hours in 0..24i64 {
        for mins in 0..60i64 {
            let shift = hours * 3600 + mins * 60;
            let east = format!("2026-02-25T14:30:00+{hours:02}:{mins:02}");
            let west = format!("2026-02-25T14:30:00-{hours:02}:{mins:02}");
            assert_eq!(
                Timestamp::from_str(&east).unwrap().seconds(),
                local.seconds() - shift
            );
            assert_eq!(
                Timestamp::from_str(&west).unwrap().seconds(),
                local.seconds() + shift
            );
        }
    }
}

#[test]
fn days_run_over_short_months() {
    assert_eq!(
        Timestamp::from_str("2026-02-31T00:00:00Z"),
        Timestamp::from_str("2026-03-03T00:00:00Z")
    );
    assert_eq!(
        Timestamp::from_str("2024-02-30T00:00:00Z"),
        Timestamp::from_str("2024-03-01T00:00:00Z")
    );
}

#[test]
fn every_day_is_read_back() {
    let mut buf = Buffer::new();
    let mut seconds = SECONDS_MIN;
    while seconds <= SECONDS_MAX {
        let ts = Timestamp::from_unix(seconds, 0).unwrap();
        assert_eq!(Timestamp::from_str(buf.format(ts)), Ok(ts));
        seconds += 86_400;
    }
}

#[test]
fn a_buffer_is_overwritten() {
    let mut buf = Buffer::new();
    let long = Timestamp::from_unix(0, 123_456_789).unwrap();
    let short = Timestamp::from_unix(0, 0).unwrap();
    assert_eq!(buf.format(long), "1970-01-01T00:00:00.123456789Z");
    assert_eq!(buf.format(&short), "1970-01-01T00:00:00Z");
    assert_eq!(buf.as_str(), "1970-01-01T00:00:00Z");
}

#[test]
fn bytes_are_read_like_text() {
    let ts: Timestamp = "2026-02-26T00:31:30.042Z".parse().unwrap();
    assert_eq!(
        Timestamp::from_bytes(b"2026-02-26T00:31:30.042Z"),
        Ok(ts)
    );
    assert_eq!(
        Timestamp::from_bytes(b"\xff\xfe"),
        Err(TimestampError::InvalidFormat)
    );
    assert_eq!(
        Timestamp::from_str("not a timestamp"),
        Err(TimestampError::InvalidFormat)
    );
}

#[test]
fn a_byte_outside_ascii_is_refused() {
    let text = b"2026-02-26T00:31:30.042+01:00";
    assert!(Timestamp::from_bytes(text).is_ok());
    for i in 0..text.len() {
        let mut bytes = *text;
        bytes[i] |= 0x80;
        assert_eq!(
            Timestamp::from_bytes(&bytes),
            Err(TimestampError::InvalidFormat)
        );
    }
}

#[test]
fn text_is_written_as_it_was_read() {
    for (_, text) in timestamps() {
        assert_eq!(Timestamp::from_str(text).unwrap().to_string(), text);
    }
}

#[test]
fn other_forms_are_written_in_utc() {
    for (given, written) in [
        ("2026-02-25T14:30:00.120+05:00", "2026-02-25T09:30:00.120Z"),
        ("2026-02-25T14:30:00.120000Z", "2026-02-25T14:30:00.120Z"),
        ("2026-12-31T23:59:59.000-00:01", "2027-01-01T00:00:59Z"),
        ("2026-02-29T00:00:00Z", "2026-03-01T00:00:00Z"),
    ] {
        let ts = Timestamp::from_str(given).unwrap();
        assert_eq!(ts.to_string(), written);
        assert_eq!(Timestamp::from_str(written), Ok(ts));
    }
}

#[test]
fn timestamps_are_ordered_by_time() {
    let a = Timestamp::from_unix(-5, 200_000_000).unwrap();
    let b = Timestamp::from_unix(-5, 300_000_000).unwrap();
    let c = Timestamp::from_unix(3, 0).unwrap();
    assert!(a < b && b < c && a < c);
    assert!(a <= a && !(a < a) && !(c < b));
    assert_eq!(a.max(c), c);
    assert_eq!(b.cmp(&a), std::cmp::Ordering::Greater);
    assert_eq!(a.partial_cmp(&a), Some(std::cmp::Ordering::Equal));
}
