//! What is stored as a `timestamptz` value.
use crate::error::TimestampError;
use crate::timestamp::Timestamp;
use crate::timestamptz;
use crate::timestamptz::TimestamptzError;
use vstd::prelude::*;

verus! {

/// The stored bytes are those of the whole microseconds since `2000-01-01T00:00:00Z`: each byte
/// counts its power of 256, the highest first, and negative numbers are counted down from
/// 256 to the power of eight.
pub proof fn law_stored_bytes(t: Timestamp, b: [u8; 8])
    requires
        call_ensures(Timestamp::to_timestamptz, (&t,), b),
    ensures
        ({
            let micros = (t.seconds() - 946_684_800) * 1_000_000 + t.subsec_nanos() / 1_000;
            &&& b@[0] == micros / 0x100_0000_0000_0000 % 256
            &&& b@[1] == micros / 0x1_0000_0000_0000 % 256
            &&& b@[2] == micros / 0x100_0000_0000 % 256
            &&& b@[3] == micros / 0x1_0000_0000 % 256
            &&& b@[4] == micros / 0x100_0000 % 256
            &&& b@[5] == micros / 0x1_0000 % 256
            &&& b@[6] == micros / 0x100 % 256
            &&& b@[7] == micros % 256
        }),
{
    let micros = (t.seconds() - 946_684_800) * 1_000_000 + t.subsec_nanos() / 1_000;
    lemma_bytes_of_number(micros, b@);
}

/// A stored value is read as the number in which each byte counts its power of 256, the highest
/// first, and from half of 256 to the power of eight on as that number less 256 to the power of
/// eight. The number is microseconds since `2000-01-01T00:00:00Z`. What is no eight bytes, or
/// lies outside the years 1 to 9999, is refused.
pub proof fn law_stored_bytes_are_read(b: &[u8], r: Result<Timestamp, TimestamptzError>)
    requires
        call_ensures(Timestamp::from_timestamptz, (b,), r),
    ensures
        b@.len() != 8 ==> r == Err::<Timestamp, TimestamptzError>(
            TimestamptzError::InvalidLength(b@.len() as usize),
        ),
        b@.len() == 8 ==> {
            let number = b@[0] * 0x100_0000_0000_0000 + b@[1] * 0x1_0000_0000_0000 + b@[2]
                * 0x100_0000_0000 + b@[3] * 0x1_0000_0000 + b@[4] * 0x100_0000 + b@[5] * 0x1_0000
                + b@[6] * 0x100 + b@[7];
            let micros = if b@[0] < 128 {
                number
            } else {
                number - 0x1_0000_0000_0000_0000
            };
            let seconds = 946_684_800 + micros / 1_000_000;
            if -62_135_596_800 <= seconds <= 253_402_300_799 {
                r matches Ok(t) && t.seconds() == seconds && t.subsec_nanos() == micros % 1_000_000
                    * 1_000
            } else {
                r == Err::<Timestamp, TimestamptzError>(
                    TimestamptzError::InvalidValue(TimestampError::OutOfRange),
                )
            }
        },
{
    if b@.len() == 8 {
        lemma_weights(b@);
    }
}

/// The number that eight bytes stand for, as a sum of powers of 256.
proof fn lemma_weights(b: Seq<u8>)
    requires
        b.len() == 8,
    ensures
        timestamptz::big_endian(b) == b[0] * 0x100_0000_0000_0000 + b[1] * 0x1_0000_0000_0000 + b[2]
            * 0x100_0000_0000 + b[3] * 0x1_0000_0000 + b[4] * 0x100_0000 + b[5] * 0x1_0000 + b[6]
            * 0x100 + b[7],
        timestamptz::big_endian(b) < 0x8000_0000_0000_0000 <==> b[0] < 128,
        0 <= timestamptz::big_endian(b) < 0x1_0000_0000_0000_0000,
{
}

proof fn lemma_bytes_of_number(v: int, b: Seq<u8>)
    requires
        b.len() == 8,
        timestamptz::signed_big_endian(b) == v,
    ensures
        b[0] == v / 0x100_0000_0000_0000 % 256,
        b[1] == v / 0x1_0000_0000_0000 % 256,
        b[2] == v / 0x100_0000_0000 % 256,
        b[3] == v / 0x1_0000_0000 % 256,
        b[4] == v / 0x100_0000 % 256,
        b[5] == v / 0x1_0000 % 256,
        b[6] == v / 0x100 % 256,
        b[7] == v % 256,
{
    lemma_weights(b);
    let high = if b[0] < 128 {
        b[0] as int
    } else {
        b[0] - 256
    };
    let v1 = high * 256 + b[1];
    let v2 = v1 * 256 + b[2];
    let v3 = v2 * 256 + b[3];
    let v4 = v3 * 256 + b[4];
    let v5 = v4 * 256 + b[5];
    let v6 = v5 * 256 + b[6];
    assert(v == v6 * 256 + b[7]);
    assert(v / 0x100 == v6);
    assert(v / 0x1_0000 == v5);
    assert(v / 0x100_0000 == v4);
    assert(v / 0x1_0000_0000 == v3);
    assert(v / 0x100_0000_0000 == v2);
    assert(v / 0x1_0000_0000_0000 == v1);
    assert(v / 0x100_0000_0000_0000 == high);
}

}
