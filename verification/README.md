# rfc3339_fast

RFC 3339 timestamps from year 1 to year 9999 with nanosecond precision, parsed and formatted by
code that Verus has verified.

- `src/calendar.rs`: the proleptic Gregorian calendar, from dates to day counts and back.
- `src/ascii.rs`, `src/digits.rs`: ASCII text and the decimal numbers in it.
- `src/parse.rs`: the grammar of a timestamp, and the functions that read its parts.
- `src/text.rs`, `src/buffer.rs`: the text of a timestamp, and the buffer that it is written to.
- `src/timestamp.rs`, `src/error.rs`: the types `Timestamp` and `TimestampError`.
- `src/system_time.rs`, `src/chrono_time.rs`, `src/timestamptz.rs`: conversions from and to the
  system's clock, the date and time of `chrono`, and the binary form of Postgres `timestamptz`.
- `src/laws.rs`: what is proved of these together, such as that every timestamp is read back
  from its text.
- `app/`: the traits of `serde`, `postgres-types` and `chrono`, and `Display`, on wrapper types.

## Format

A timestamp reads `YYYY-MM-DDTHH:mm:ss[.nnn]` and then `Z` or an offset `+HH:MM` or `-HH:MM`.
The fraction has exactly 3, 6 or 9 digits. Each field is held to its own range (year 0001-9999,
month 01-12, day 01-31, hour 00-23, minute and second 00-59); a day beyond the end of a shorter
month counts on into the next month. Offsets are normalized to UTC when a timestamp is read, and
formatting always writes `Z`.
