use chrono::NaiveDateTime;
use rfc3339_fast::calendar::{SECONDS_MAX, SECONDS_MIN};
use rfc3339_fast::timestamptz::TimestamptzError;
use rfc3339_fast::{Buffer, Timestamp, TimestampError};
use std::time::{Duration, SystemTime, UNIX_EPOCH};

#[test]
fn test_chrono() {
    let now = chrono::Utc::now();
    let ts: Timestamp = now.naive_utc().into();
    let st: Option<SystemTime> = ts.to_system_time();
    assert_eq!(st, Some(now.into()));
}

#[test]
fn test_chrono_roundtrip() {
    let ts: Timestamp = "2026-02-26T00:31:30.042Z".parse().unwrap();
    let dt: chrono::DateTime<chrono::Utc> = NaiveDateTime::from(ts).and_utc();
    let back: Timestamp = dt.naive_utc().into();
    assert_eq!(ts, back);
}

#[test]
fn chrono_agrees_on_the_parts() {
    let ts = Timestamp::from_unix(-62_135_596_800, 5).unwrap();
    let dt = NaiveDateTime::from(ts).and_utc();
    assert_eq!(dt.timestamp(), -62_135_596_800);
    assert_eq!(dt.timestamp_subsec_nanos(), 5);
    let dt = chrono::DateTime::from_timestamp(1_641_006_000, 250_000_000).unwrap();
    let ts = Timestamp::from(dt.naive_utc());
    assert_eq!((ts.seconds(), ts.subsec_nanos()), (1_641_006_000, 250_000_000));
    let mut buf = Buffer::new();
    assert_eq!(buf.format(dt.naive_utc()), "2022-01-01T03:00:00.250Z");
}

#[test]
fn chrono_saturates() {
    let early = chrono::DateTime::from_timestamp(SECONDS_MIN - 1, 999_999_999).unwrap();
    assert_eq!(
        Timestamp::from(early.naive_utc()),
        Timestamp::from_unix(SECONDS_MIN, 0).unwrap()
    );
    let late = chrono::DateTime::from_timestamp(SECONDS_MAX + 1, 5).unwrap();
    assert_eq!(
        Timestamp::from(late.naive_utc()),
        Timestamp::from_unix(SECONDS_MAX, 0).unwrap()
    );
}

#[test]
fn leap_seconds_at_the_ends_saturate() {
    let early = chrono::DateTime::from_timestamp(SECONDS_MIN - 1, 1_500_000_000).unwrap();
    assert_eq!(
        Timestamp::from(early.naive_utc()),
        Timestamp::from_unix(SECONDS_MIN, 0).unwrap()
    );
    let late = chrono::DateTime::from_timestamp(SECONDS_MAX, 1_500_000_000).unwrap();
    assert_eq!(
        Timestamp::from(late.naive_utc()),
        Timestamp::from_unix(SECONDS_MAX, 0).unwrap()
    );
}

#[test]
fn a_leap_second_runs_into_the_next() {
    let leap = chrono::DateTime::from_timestamp(1_483_228_799, 1_500_000_000).unwrap();
    let ts = Timestamp::from(leap.naive_utc());
    assert_eq!((ts.seconds(), ts.subsec_nanos()), (1_483_228_800, 500_000_000));
    assert_eq!(ts.to_system_time(), Some(SystemTime::from(leap)));
}

#[test]
fn system_times_come_back() {
    for (seconds, nanos) in [
        (0, 0),
        (0, 999_999_900),
        (-1, 999_999_900),
        (-5, 200_000_000),
        (-5, 0),
        (SECONDS_MIN, 0),
        (SECONDS_MIN, 100),
        (SECONDS_MAX, 999_999_900),
    ] {
        let ts = Timestamp::from_unix(seconds, nanos).unwrap();
        assert_eq!(Timestamp::from(ts.to_system_time().unwrap()), ts);
    }
    let st = UNIX_EPOCH - Duration::new(4, 800_000_000);
    let ts = Timestamp::from(st);
    assert_eq!((ts.seconds(), ts.subsec_nanos()), (-5, 200_000_000));
    assert_eq!(ts.to_system_time(), Some(st));
}

#[test]
fn system_times_within_reach_are_found() {
    for (seconds, nanos) in [(0, 0), (1_641_006_000, 250_000_000), (-5, 200_000_000)] {
        let ts = Timestamp::from_unix(seconds, nanos).unwrap();
        let st = ts.to_system_time().unwrap();
        assert_eq!(Timestamp::from(st), ts);
    }
    assert_eq!(
        Timestamp::from_unix(-1, 500_000_000).unwrap().to_system_time(),
        Some(UNIX_EPOCH - Duration::from_millis(500))
    );
    assert_eq!(
        Timestamp::from_unix(7, 100).unwrap().to_system_time(),
        Some(UNIX_EPOCH + Duration::new(7, 100))
    );
}

#[test]
fn system_times_saturate() {
    let late = UNIX_EPOCH + Duration::new(253_402_300_800, 7);
    assert_eq!(
        Timestamp::from(late),
        Timestamp::from_unix(SECONDS_MAX, 0).unwrap()
    );
    let early = UNIX_EPOCH - Duration::new(62_135_596_800, 1);
    assert_eq!(
        Timestamp::from(early),
        Timestamp::from_unix(SECONDS_MIN, 0).unwrap()
    );
}

#[test]
fn distances_from_the_epoch() {
    let ts = Timestamp::from_unix(-5, 200_000_000).unwrap();
    assert_eq!(ts.epoch_distance(), (true, 4, 800_000_000));
    assert_eq!(Timestamp::from_epoch_distance(true, 4, 800_000_000), ts);
    let ts = Timestamp::from_unix(7, 8).unwrap();
    assert_eq!(ts.epoch_distance(), (false, 7, 8));
    assert_eq!(Timestamp::from_epoch_distance(false, 7, 8), ts);
    assert_eq!(
        Timestamp::from_epoch_distance(false, u64::MAX, 1),
        Timestamp::from_unix(SECONDS_MAX, 0).unwrap()
    );
    assert_eq!(
        Timestamp::from_epoch_distance(true, u64::MAX, 1),
        Timestamp::from_unix(SECONDS_MIN, 0).unwrap()
    );
    assert_eq!(
        Timestamp::saturating_from_unix(i64::MIN, u32::MAX),
        Timestamp::from_unix(SECONDS_MIN, 0).unwrap()
    );
    assert_eq!(
        Timestamp::saturating_from_unix(SECONDS_MIN - 1, 1_500_000_000),
        Timestamp::from_unix(SECONDS_MIN, 500_000_000).unwrap()
    );
}

#[test]
fn now_is_near_the_clock() {
    let before = SystemTime::now();
    let now = Timestamp::now();
    let after = SystemTime::now();
    assert!(Timestamp::from(before) <= now && now <= Timestamp::from(after));
}

#[test]
fn timestamptz_counts_microseconds_since_2000() {
    let ts = Timestamp::from_unix(946_684_800, 0).unwrap();
    assert_eq!(ts.to_timestamptz(), [0; 8]);
    let ts = Timestamp::from_unix(946_684_799, 999_999_000).unwrap();
    assert_eq!(ts.to_timestamptz(), [255; 8]);
    let ts = Timestamp::from_unix(946_684_801, 2_345).unwrap();
    assert_eq!(ts.to_timestamptz(), 1_000_002i64.to_be_bytes());
}

#[test]
fn timestamptz_comes_back_in_microseconds() {
    for (seconds, nanos) in [
        (0, 123_456_789),
        (-1, 999_999_999),
        (SECONDS_MIN, 0),
        (SECONDS_MAX, 999_999_999),
        (1_772_029_800, 42_000_000),
    ] {
        let ts = Timestamp::from_unix(seconds, nanos).unwrap();
        let back = Timestamp::from_timestamptz(&ts.to_timestamptz()).unwrap();
        assert_eq!(back.seconds(), seconds);
        assert_eq!(back.subsec_nanos(), nanos / 1_000 * 1_000);
        assert_eq!(back.to_timestamptz(), ts.to_timestamptz());
    }
}

#[test]
fn timestamptz_errors() {
    assert_eq!(
        Timestamp::from_timestamptz(&[0; 7]),
        Err(TimestamptzError::InvalidLength(7))
    );
    for micros in [i64::MAX, i64::MIN] {
        assert_eq!(
            Timestamp::from_timestamptz(&micros.to_be_bytes()),
            Err(TimestamptzError::InvalidValue(TimestampError::OutOfRange))
        );
    }
}
