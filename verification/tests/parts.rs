use rfc3339_fast::calendar::{
    date_from_day_count, jsondec_epochdays, jsondec_unixtime, SECONDS_MAX, SECONDS_MIN,
};
use rfc3339_fast::digits::{atoi_consume, decode_tsdigits};
use rfc3339_fast::parse::{decode_nanos, decode_offset, decode_seconds};
use rfc3339_fast::{Buffer, TimestampError};

#[test]
fn lib_test_decode_seconds() {
    let s = "2026-02-25T14:30:00Z";
    let input = &mut s.as_bytes();
    assert_eq!(decode_seconds(input).unwrap(), 1772029800);
    assert_eq!(input, b"Z");
}

#[test]
fn lib_test_decode_seconds_invalid_chars() {
    let s = "20/6-02-25T14:30:00Z";
    let input = &mut s.as_bytes();
    assert!(decode_seconds(input).is_err());

    let s = "20:6-02-25T14:30:00Z";
    let input = &mut s.as_bytes();
    assert!(decode_seconds(input).is_err());
}

#[test]
fn lib_test_decode_nanos() {
    let s = ".987654321Z";
    let input = &mut s.as_bytes();
    assert_eq!(decode_nanos(input).unwrap(), 987654321);
    assert_eq!(input, b"Z");

    let s = ".987654+00:00";
    let input = &mut s.as_bytes();
    assert_eq!(decode_nanos(input).unwrap(), 987654000);
    assert_eq!(input, b"+00:00");
}

#[test]
fn lib_test_decode_nanos_invalid_chars() {
    let s = ".98/654321Z";
    let input = &mut s.as_bytes();
    assert!(decode_nanos(input).is_err());

    let s = ".98:654321Z";
    let input = &mut s.as_bytes();
    assert!(decode_nanos(input).is_err());
}

#[test]
fn test_atoi_consume() {
    let mut ascii = "1234ABCD".as_bytes();
    assert_eq!(atoi_consume(&mut ascii), 1234);
    assert_eq!(ascii, "ABCD".as_bytes());

    let mut ascii = "-1234ABCD".as_bytes();
    assert_eq!(atoi_consume(&mut ascii), -1234);
    assert_eq!(ascii, "ABCD".as_bytes());

    let mut ascii = "+1234ABCD".as_bytes();
    assert_eq!(atoi_consume(&mut ascii), 1234);
    assert_eq!(ascii, "ABCD".as_bytes());
}

#[test]
fn test_decode_nanos_3digit() {
    let s = ".042Z";
    let input = &mut s.as_bytes();
    assert_eq!(decode_nanos(input).unwrap(), 42_000_000);
    assert_eq!(input, b"Z");
}

#[test]
fn neon_test_decode_seconds() {
    let s = "2026-02-25T14:30:00Z";
    let input = &mut s.as_bytes();
    assert_eq!(decode_seconds(input).unwrap(), 1772029800);
    assert_eq!(input, b"Z");
}

#[test]
fn neon_test_decode_seconds_invalid_chars() {
    let s = "20/6-02-25T14:30:00Z";
    let input = &mut s.as_bytes();
    assert!(decode_seconds(input).is_err());

    let s = "20:6-02-25T14:30:00Z";
    let input = &mut s.as_bytes();
    assert!(decode_seconds(input).is_err());
}

#[test]
fn neon_test_decode_nanos() {
    let s = ".987654321Z";
    let input = &mut s.as_bytes();
    assert_eq!(decode_nanos(input).unwrap(), 987654321);
    assert_eq!(input, b"Z");

    let s = ".987654+00:00";
    let input = &mut s.as_bytes();
    assert_eq!(decode_nanos(input).unwrap(), 987654000);
    assert_eq!(input, b"+00:00");
}

#[test]
fn neon_test_decode_nanos_invalid_chars() {
    let s = ".98/654321Z";
    let input = &mut s.as_bytes();
    assert!(decode_nanos(input).is_err());

    let s = ".98:654321Z";
    let input = &mut s.as_bytes();
    assert!(decode_nanos(input).is_err());
}

#[test]
fn test_decode_nanos_invalid_length() {
    let s = ".12Z";
    let input = &mut s.as_bytes();
    assert!(decode_nanos(input).is_err());

    let s = ".12345Z";
    let input = &mut s.as_bytes();
    assert!(decode_nanos(input).is_err());
}

#[test]
fn sse_test_decode_seconds() {
    let s = "2026-02-25T14:30:00Z";
    let input = &mut s.as_bytes();
    assert_eq!(decode_seconds(input).unwrap(), 1772029800);
    assert_eq!(input, b"Z");
}

#[test]
fn sse_test_decode_seconds_invalid_chars() {
    let s = "20/6-02-25T14:30:00Z";
    let input = &mut s.as_bytes();
    assert!(decode_seconds(input).is_err());

    let s = "20:6-02-25T14:30:00Z";
    let input = &mut s.as_bytes();
    assert!(decode_seconds(input).is_err());
}

#[test]
fn sse_test_decode_nanos() {
    let s = ".987654321Z";
    let input = &mut s.as_bytes();
    assert_eq!(decode_nanos(input).unwrap(), 987654321);
    assert_eq!(input, b"Z");

    let s = ".987654+00:00";
    let input = &mut s.as_bytes();
    assert_eq!(decode_nanos(input).unwrap(), 987654000);
    assert_eq!(input, b"+00:00");
}

#[test]
fn sse_test_decode_nanos_invalid_chars() {
    let s = ".98/654321Z";
    let input = &mut s.as_bytes();
    assert!(decode_nanos(input).is_err());

    let s = ".98:654321Z";
    let input = &mut s.as_bytes();
    assert!(decode_nanos(input).is_err());
}

#[test]
fn atoi_reaches_the_ends_of_its_type() {
    let mut ascii = "-2147483648".as_bytes();
    assert_eq!(atoi_consume(&mut ascii), i32::MIN);
    assert!(ascii.is_empty());
    let mut ascii = "002147483647x".as_bytes();
    assert_eq!(atoi_consume(&mut ascii), i32::MAX);
    assert_eq!(ascii, b"x");
    let mut ascii = "-x".as_bytes();
    assert_eq!(atoi_consume(&mut ascii), 0);
    assert_eq!(ascii, b"x");
}

#[test]
fn a_field_has_its_width_and_its_delimiter() {
    let mut ascii = "2026-02".as_bytes();
    assert_eq!(decode_tsdigits(&mut ascii, 4, Some(b'-')), Ok(2026));
    assert_eq!(ascii, b"02");
    assert_eq!(decode_tsdigits(&mut ascii, 2, None), Ok(2));
    assert!(ascii.is_empty());

    for (text, after) in [
        ("2026-02", Some(b':')),
        ("2026", Some(b'-')),
        ("202", None),
        ("20x6-", Some(b'-')),
        ("-026-", Some(b'-')),
        ("+026-", Some(b'-')),
    ] {
        let mut ascii = text.as_bytes();
        assert_eq!(
            decode_tsdigits(&mut ascii, 4, after),
            Err(TimestampError::InvalidFormat)
        );
        assert_eq!(ascii, text.as_bytes());
    }
}

#[test]
fn a_refused_time_leaves_the_input_alone() {
    let s = "2026-02-25T14:61:00Z";
    let input = &mut s.as_bytes();
    assert_eq!(decode_seconds(input), Err(TimestampError::InvalidFormat));
    assert_eq!(*input, s.as_bytes());

    let s = "2026-02-25T14:30:00";
    let input = &mut s.as_bytes();
    assert_eq!(decode_seconds(input), Ok(1772029800));
    assert!(input.is_empty());
}

#[test]
fn no_dot_is_no_fraction() {
    let s = "Z";
    let input = &mut s.as_bytes();
    assert_eq!(decode_nanos(input), Ok(0));
    assert_eq!(input, b"Z");
}

#[test]
fn offsets_are_taken_from_local_time() {
    assert_eq!(decode_offset(b"+05:00", b'+'), Ok(-18000));
    assert_eq!(decode_offset(b"-05:00", b'-'), Ok(18000));
    assert_eq!(decode_offset(b"+09:30", b'+'), Ok(-34200));
    assert_eq!(decode_offset(b"+23:59", b'+'), Ok(-86340));
    assert_eq!(
        decode_offset(b"+24:00", b'+'),
        Err(TimestampError::InvalidFormat)
    );
    assert_eq!(
        decode_offset(b"+00:60", b'+'),
        Err(TimestampError::InvalidFormat)
    );
    assert_eq!(decode_offset(b"", b'+'), Err(TimestampError::InvalidFormat));
}

#[test]
fn days_are_counted_from_the_epoch() {
    assert_eq!(jsondec_epochdays(1970, 1, 1), 0);
    assert_eq!(jsondec_epochdays(1969, 12, 31), -1);
    assert_eq!(jsondec_epochdays(1, 1, 1), -719_162);
    assert_eq!(jsondec_epochdays(9999, 12, 31), 2_932_896);
    assert_eq!(jsondec_epochdays(2000, 2, 29), 11_016);
    assert_eq!(jsondec_epochdays(0, 3, 1), -719_468);
    assert_eq!(jsondec_unixtime(2000, 1, 1, 0, 0, 0), 946_684_800);
    assert_eq!(jsondec_unixtime(1969, 12, 31, 23, 59, 59), -1);
}

#[test]
fn dates_are_found_from_day_counts() {
    assert_eq!(date_from_day_count(0), (1, 1, 1));
    assert_eq!(date_from_day_count(719_162), (1970, 1, 1));
    assert_eq!(date_from_day_count(719_162 + 11_016), (2000, 2, 29));
    assert_eq!(date_from_day_count(3_652_058), (9999, 12, 31));
}

#[test]
fn the_readers_of_the_parts_undo_the_writer() {
    let mut buf = Buffer::new();
    for (seconds, nanos) in [
        (0, 0),
        (1_772_029_800, 42_000_000),
        (-1, 987_654_000),
        (SECONDS_MIN, 1),
        (SECONDS_MAX, 999_999_999),
    ] {
        buf.jsonenc_timestamp(seconds, nanos);
        let input = &mut buf.as_str().as_bytes();
        assert_eq!(decode_seconds(input), Ok(seconds));
        assert_eq!(decode_nanos(input), Ok(nanos));
        assert_eq!(input, b"Z");
    }
}
