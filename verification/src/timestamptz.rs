//! The binary form of Postgres `timestamptz`: microseconds since
//! `2000-01-01T00:00:00Z`, as eight bytes of a signed number, the highest first.
use crate::error::TimestampError;
use crate::timestamp;
use crate::timestamp::Timestamp;
use vstd::prelude::*;

verus! {

/// The Unix second of `2000-01-01T00:00:00Z`.
pub const POSTGRES_EPOCH_UNIX_SECS: i64 = 946_684_800;

/// Why bytes are no `timestamptz` value that a [`Timestamp`] can hold.
#[derive(Debug, Clone, Copy, PartialEq, Eq, Structural)]
pub enum TimestamptzError {
    /// There are not eight bytes but this many.
    InvalidLength(usize),
    /// The value is no timestamp.
    InvalidValue(TimestampError),
}

/// The unsigned number that eight bytes stand for, the highest first.
pub open spec fn big_endian(b: Seq<u8>) -> int {
    ((((((b[0] * 256 + b[1]) * 256 + b[2]) * 256 + b[3]) * 256 + b[4]) * 256 + b[5]) * 256 + b[6])
        * 256 + b[7]
}

/// The signed number that eight bytes stand for in two's complement.
pub open spec fn signed_big_endian(b: Seq<u8>) -> int {
    if big_endian(b) < 0x8000_0000_0000_0000 {
        big_endian(b)
    } else {
        big_endian(b) - 0x1_0000_0000_0000_0000
    }
}

proof fn lemma_last_byte(high_a: int, low_a: u8, high_b: int, low_b: u8)
    requires
        high_a * 256 + low_a == high_b * 256 + low_b,
    ensures
        high_a == high_b,
        low_a == low_b,
{
}

/// Eight bytes are told by the number that they stand for.
pub proof fn lemma_signed_big_endian_unique(a: Seq<u8>, b: Seq<u8>)
    requires
        a.len() == 8,
        b.len() == 8,
        signed_big_endian(a) == signed_big_endian(b),
    ensures
        a == b,
{
    let a1 = a[0] * 256 + a[1];
    let b1 = b[0] * 256 + b[1];
    let a2 = a1 * 256 + a[2];
    let b2 = b1 * 256 + b[2];
    let a3 = a2 * 256 + a[3];
    let b3 = b2 * 256 + b[3];
    let a4 = a3 * 256 + a[4];
    let b4 = b3 * 256 + b[4];
    let a5 = a4 * 256 + a[5];
    let b5 = b4 * 256 + b[5];
    let a6 = a5 * 256 + a[6];
    let b6 = b5 * 256 + b[6];
    assert(a6 * 256 + a[7] == big_endian(a));
    assert(b6 * 256 + b[7] == big_endian(b));
    lemma_last_byte(a6, a[7], b6, b[7]);
    lemma_last_byte(a5, a[6], b5, b[6]);
    lemma_last_byte(a4, a[5], b4, b[5]);
    lemma_last_byte(a3, a[4], b3, b[4]);
    lemma_last_byte(a2, a[3], b2, b[3]);
    lemma_last_byte(a1, a[2], b1, b[2]);
    lemma_last_byte(a[0] as int, a[1], b[0] as int, b[1]);
    assert(a =~= b);
}

/// The whole microseconds from the Postgres epoch to a point in time that is given in
/// Unix seconds and nanoseconds.
pub open spec fn postgres_micros(seconds: int, nanos: int) -> int {
    (seconds - POSTGRES_EPOCH_UNIX_SECS) * 1_000_000 + nanos / 1_000
}

fn to_be_bytes(value: i64) -> (r: [u8; 8])
    ensures
        signed_big_endian(r@) == value,
{
    let b7: u64 = if value >= 0 {
        value as u64
    } else {
        u64::MAX - (-(value + 1)) as u64
    };
    let b6: u64 = b7 / 256;
    let b5: u64 = b6 / 256;
    let b4: u64 = b5 / 256;
    let b3: u64 = b4 / 256;
    let b2: u64 = b3 / 256;
    let b1: u64 = b2 / 256;
    let b0: u64 = b1 / 256;
    [
        b0 as u8,
        (b1 % 256) as u8,
        (b2 % 256) as u8,
        (b3 % 256) as u8,
        (b4 % 256) as u8,
        (b5 % 256) as u8,
        (b6 % 256) as u8,
        (b7 % 256) as u8,
    ]
}

fn from_be_bytes(b: &[u8]) -> (r: i64)
    requires
        b@.len() == 8,
    ensures
        r == signed_big_endian(b@),
{
    let high: u64 = ((b[0] as u64 * 256 + b[1] as u64) * 256 + b[2] as u64) * 256 + b[3] as u64;
    let low: u64 = ((b[4] as u64 * 256 + b[5] as u64) * 256 + b[6] as u64) * 256 + b[7] as u64;
    let v: u64 = high * 0x1_0000_0000 + low;
    if v < 0x8000_0000_0000_0000 {
        v as i64
    } else {
        -((u64::MAX - v) as i64) - 1
    }
}

impl Timestamp {
    /// The timestamp as a `timestamptz` value. Nanoseconds below a microsecond are cut off.
    pub fn to_timestamptz(&self) -> (r: [u8; 8])
        ensures
            signed_big_endian(r@) == postgres_micros(
                self.seconds() as int,
                self.subsec_nanos() as int,
            ),
    {
        let seconds: i64 = self.seconds();
        let nanos: u32 = self.subsec_nanos();
        let micros: i64 = (seconds - POSTGRES_EPOCH_UNIX_SECS) * 1_000_000 + (nanos / 1_000) as i64;
        to_be_bytes(micros)
    }

    /// The timestamp that a `timestamptz` value stands for. A value outside the years 1
    /// to 9999 is an error: saturating it would hide damaged data.
    pub fn from_timestamptz(raw: &[u8]) -> (r: Result<Timestamp, TimestamptzError>)
        ensures
            raw@.len() != 8 ==> r == Err::<Timestamp, TimestamptzError>(
                TimestamptzError::InvalidLength(raw@.len() as usize),
            ),
            raw@.len() == 8 ==> {
                let micros = signed_big_endian(raw@);
                let seconds = micros / 1_000_000 + POSTGRES_EPOCH_UNIX_SECS;
                let nanos = micros % 1_000_000 * 1_000;
                if timestamp::in_range(seconds, nanos) {
                    r matches Ok(t) && t.seconds() == seconds && t.subsec_nanos() == nanos
                } else {
                    r == Err::<Timestamp, TimestamptzError>(
                        TimestamptzError::InvalidValue(TimestampError::OutOfRange),
                    )
                }
            },
    {
        if raw.len() != 8 {
            return Err(TimestamptzError::InvalidLength(raw.len()));
        }
        let micros: i64 = from_be_bytes(raw);
        let seconds: i64 = micros.checked_div_euclid(1_000_000).unwrap() + POSTGRES_EPOCH_UNIX_SECS;
        let nanos: u32 = micros.checked_rem_euclid(1_000_000).unwrap() as u32 * 1_000;
        match Timestamp::from_unix(seconds, nanos) {
            Ok(t) => Ok(t),
            Err(e) => Err(TimestamptzError::InvalidValue(e)),
        }
    }
}

}
