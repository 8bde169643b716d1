//! A buffer that timestamps are written to.
use crate::ascii;
use crate::ascii::{ascii_str, COLON, DOT, LETTER_T, LETTER_Z, MINUS, ZERO};
use crate::calendar::{date_from_day_count, Date, SECONDS_MAX, SECONDS_MIN};
use crate::digits;
use crate::text;
use crate::timestamp::Timestamp;
use vstd::prelude::*;

verus! {

/// The length of the longest text of a timestamp,
/// `YYYY-MM-DDTHH:mm:ss.sssssssssZ`.
pub const BUFFER_SIZE: usize = 30;

/// A reusable buffer for the text of timestamps, which needs no allocation.
pub struct Buffer {
    bytes: [u8; 30],
    len: u16,
}

impl View for Buffer {
    type V = Seq<u8>;

    /// The text that was written last.
    closed spec fn view(&self) -> Seq<u8> {
        self.bytes@.take(self.len as int)
    }
}

/// `s` with `t` written over it from position `at` on.
#[verifier::opaque]
spec fn overwritten(s: Seq<u8>, at: int, t: Seq<u8>) -> Seq<u8> {
    Seq::new(
        s.len(),
        |i: int|
            if at <= i < at + t.len() {
                t[i - at]
            } else {
                s[i]
            },
    )
}

/// `0000-00-00T00:00:00.000000000Z`
fn blank_text() -> (r: [u8; 30])
    ensures
        ascii::is_ascii(r@),
        r@[4] == MINUS,
        r@[7] == MINUS,
        r@[10] == LETTER_T,
        r@[13] == COLON,
        r@[16] == COLON,
        r@[19] == DOT,
        r@[29] == LETTER_Z,
{
    let mut r: [u8; 30] = [ZERO; 30];
    r[4] = MINUS;
    r[7] = MINUS;
    r[10] = LETTER_T;
    r[13] = COLON;
    r[16] = COLON;
    r[19] = DOT;
    r[29] = LETTER_Z;
    r
}

impl Buffer {
    #[verifier::type_invariant]
    spec fn inv(&self) -> bool {
        self.len <= 30 && ascii::is_ascii(self.bytes@)
    }

    /// Makes an empty buffer.
    #[must_use]
    pub fn new() -> (r: Buffer)
        ensures
            r@ == Seq::<u8>::empty(),
    {
        let r: Buffer = Buffer { bytes: [0u8; 30], len: 0 };
        assert(r@ =~= Seq::<u8>::empty());
        r
    }

    fn reset(&mut self)
        ensures
            final(self)@ == Seq::<u8>::empty(),
    {
        proof {
            use_type_invariant(&*self);
        }
        self.len = 0;
        assert(self@ =~= Seq::<u8>::empty());
    }

    /// Writes one ASCII byte at the end of the text.
    pub fn write_byte(&mut self, value: u8)
        requires
            value < 0x80,
            old(self)@.len() < BUFFER_SIZE,
        ensures
            final(self)@ == old(self)@.push(value),
    {
        proof {
            use_type_invariant(&*self);
        }
        let len: usize = self.len as usize;
        self.bytes[len] = value;
        self.len = self.len + 1;
        assert(self@ =~= old(self)@.push(value));
    }

    /// The text that was written.
    pub fn as_str(&self) -> (r: &str)
        ensures
            r@ == ascii::chars(self@),
    {
        proof {
            use_type_invariant(self);
        }
        ascii_str(vstd::slice::slice_subrange(self.bytes.as_slice(), 0, self.len as usize))
    }

    fn write_byte_at(&mut self, value: u8, offset: usize)
        requires
            value < 0x80,
            offset < BUFFER_SIZE,
        ensures
            final(self).bytes@ == overwritten(old(self).bytes@, offset as int, seq![value]),
            final(self).len == old(self).len,
    {
        proof {
            use_type_invariant(&*self);
        }
        self.bytes[offset] = value;
        reveal(overwritten);
        assert(self.bytes@ =~= overwritten(old(self).bytes@, offset as int, seq![value]));
    }

    fn write_2_at(&mut self, value: u32, offset: usize)
        requires
            value < 100,
            offset + 1 < BUFFER_SIZE,
        ensures
            final(self).bytes@ == overwritten(
                old(self).bytes@,
                offset as int,
                digits::decimal(value as int, 2),
            ),
            final(self).len == old(self).len,
    {
        proof {
            use_type_invariant(&*self);
            digits::lemma_decimal_2(value as int);
        }
        self.bytes[offset] = ZERO + (value / 10) as u8;
        self.bytes[offset + 1] = ZERO + (value % 10) as u8;
        reveal(overwritten);
        assert(self.bytes@ =~= overwritten(
            old(self).bytes@,
            offset as int,
            digits::decimal(value as int, 2),
        ));
    }

    fn write_4_at(&mut self, value: u32, offset: usize)
        requires
            value < 10_000,
            offset + 3 < BUFFER_SIZE,
        ensures
            final(self).bytes@ == overwritten(
                old(self).bytes@,
                offset as int,
                digits::decimal(value as int, 4),
            ),
            final(self).len == old(self).len,
    {
        self.write_2_at(value / 100, offset);
        self.write_2_at(value % 100, offset + 2);
        proof {
            let high = digits::decimal(value as int / 100, 2);
            let low = digits::decimal(value as int % 100, 2);
            assert(digits::decimal(value as int, 4) == high + low) by {
                reveal_with_fuel(digits::pow10, 3);
                digits::lemma_decimal_split(value as int, 2, 2);
                digits::lemma_decimal_mod(value as int, 2, 2);
            }
            digits::lemma_decimal_len(value as int / 100, 2);
            digits::lemma_decimal_len(value as int % 100, 2);
            reveal(overwritten);
            assert(self.bytes@ =~= overwritten(
                old(self).bytes@,
                offset as int,
                digits::decimal(value as int, 4),
            ));
        }
    }

    fn write_9_at(&mut self, value: u32, offset: usize)
        requires
            value < 1_000_000_000,
            offset + 8 < BUFFER_SIZE,
        ensures
            final(self).bytes@ == overwritten(
                old(self).bytes@,
                offset as int,
                digits::decimal(value as int, 9),
            ),
            final(self).len == old(self).len,
    {
        let q1: u32 = value / 100_000_000;
        let r1: u32 = value % 100_000_000;
        let q2: u32 = r1 / 10_000;
        let q3: u32 = r1 % 10_000;
        self.write_byte_at(ZERO + q1 as u8, offset);
        self.write_4_at(q2, offset + 1);
        self.write_4_at(q3, offset + 5);
        proof {
            reveal(overwritten);
            lemma_nine_digits(value as int);
            assert(self.bytes@ =~= overwritten(
                old(self).bytes@,
                offset as int,
                digits::decimal(value as int, 9),
            ));
        }
    }

    /// Writes the last `digits` decimal digits of a number at the end of the text,
    /// with leading zeros: `write_number(42, 4)` writes `0042`.
    pub fn write_number(&mut self, value: u32, digits: usize)
        requires
            old(self)@.len() + digits <= BUFFER_SIZE,
        ensures
            final(self)@ == old(self)@ + digits::decimal(value as int, digits as nat),
    {
        proof {
            use_type_invariant(&*self);
        }
        let ghost before = self.bytes@;
        let start: usize = self.len as usize;
        let mut rest: u32 = value;
        let mut left: usize = digits;
        assert(value as int / digits::pow10(0) == value);
        reveal(overwritten);
        assert(self.bytes@ =~= overwritten(before, start + left, digits::decimal(value as int, 0)));
        // Two digits are written at a time, from the last to the first.
        while left >= 2
            invariant
                left <= digits,
                start + digits <= 30,
                self.len == start,
                before.len() == 30,
                rest == value as int / digits::pow10((digits - left) as nat),
                self.bytes@ == overwritten(
                    before,
                    start + left,
                    digits::decimal(value as int, (digits - left) as nat),
                ),
            decreases left,
        {
            let ghost written = (digits - left) as nat;
            proof {
                digits::lemma_decimal_split(value as int, 2, written);
                digits::lemma_decimal_len(value as int, written);
                digits::lemma_decimal_2(rest as int);
                digits::lemma_decimal_2(rest as int % 100);
                digits::lemma_pow10_positive(written);
                vstd::arithmetic::div_mod::lemma_div_denominator(
                    value as int,
                    digits::pow10(written),
                    100,
                );
                assert(digits::pow10(written + 2) == digits::pow10(written) * 100) by {
                    reveal_with_fuel(digits::pow10, 3);
                }
            }
            left = left - 2;
            self.write_2_at(rest % 100, start + left);
            rest = rest / 100;
            reveal(overwritten);
            assert(self.bytes@ =~= overwritten(
                before,
                start + left,
                digits::decimal(value as int, written + 2),
            ));
        }
        if left == 1 {
            proof {
                let written = (digits - 1) as nat;
                digits::lemma_decimal_split(value as int, 1, written);
                digits::lemma_decimal_len(value as int, written);
                reveal_with_fuel(digits::decimal, 2);
            }
            self.write_byte_at(ZERO + (rest % 10) as u8, start);
        }
        proof {
            use_type_invariant(&*self);
            digits::lemma_decimal_len(value as int, digits as nat);
        }
        self.len = (start + digits) as u16;
        assert(self@ =~= old(self)@ + digits::decimal(value as int, digits as nat));
    }

    /// Writes a fraction of a second at the end of the text, given in nanoseconds:
    /// nothing for zero, otherwise a dot and 3, 6 or 9 digits.
    pub fn jsonenc_nanos(&mut self, nanos: u32)
        requires
            nanos < 1_000_000_000,
            old(self)@.len() + text::fraction_text(nanos as int).len() <= BUFFER_SIZE,
        ensures
            final(self)@ == old(self)@ + text::fraction_text(nanos as int),
    {
        if nanos == 0 {
            assert(self@ =~= old(self)@ + text::fraction_text(0));
            return;
        }
        proof {
            digits::lemma_decimal_len(nanos as int, 9);
            digits::lemma_decimal_len(nanos as int / 1_000, 6);
            digits::lemma_decimal_len(nanos as int / 1_000_000, 3);
        }
        self.write_byte(DOT);
        if nanos % 1_000 != 0 {
            self.write_number(nanos, 9);
        } else if nanos / 1_000 % 1_000 != 0 {
            self.write_number(nanos / 1_000, 6);
        } else {
            self.write_number(nanos / 1_000_000, 3);
        }
        assert(self@ =~= old(self)@ + text::fraction_text(nanos as int));
    }

    /// Writes a date and a time of day over the first 19 bytes, and leaves a dot, nine
    /// zeros and `Z` after them. The separators are laid down first, then each field
    /// is written at its fixed position.
    fn write_civil_time(&mut self, year: u32, month: u32, day: u32, second_of_day: u32)
        requires
            year < 10_000,
            month < 100,
            day < 100,
            second_of_day < 86_400,
        ensures
            final(self).bytes@.take(19) == text::date_text(
                Date { year: year as int, month: month as int, day: day as int },
            ) + seq![LETTER_T] + text::time_text(second_of_day as int),
            final(self).bytes@[19] == DOT,
            final(self).bytes@[29] == LETTER_Z,
    {
        proof {
            use_type_invariant(&*self);
        }
        self.bytes = blank_text();
        let ghost b0 = self.bytes@;
        let hour: u32 = second_of_day / 3600;
        let rem: u32 = second_of_day % 3600;
        let min: u32 = rem / 60;
        let sec: u32 = rem % 60;
        self.write_4_at(year, 0);
        self.write_2_at(month, 5);
        self.write_2_at(day, 8);
        self.write_2_at(hour, 11);
        self.write_2_at(min, 14);
        self.write_2_at(sec, 17);
        proof {
            digits::lemma_decimal_len(year as int, 4);
            digits::lemma_decimal_len(month as int, 2);
            digits::lemma_decimal_len(day as int, 2);
            digits::lemma_decimal_len(hour as int, 2);
            digits::lemma_decimal_len(min as int, 2);
            digits::lemma_decimal_len(sec as int, 2);
            lemma_time_of_day(second_of_day as int);
            lemma_civil_time_written(
                b0,
                self.bytes@,
                digits::decimal(year as int, 4),
                digits::decimal(month as int, 2),
                digits::decimal(day as int, 2),
                digits::decimal(hour as int, 2),
                digits::decimal(min as int, 2),
                digits::decimal(sec as int, 2),
            );
        }
    }

    /// Writes a fraction of a second and `Z` after the first 19 bytes, and cuts the
    /// text there.
    fn write_fraction(&mut self, nanos: u32)
        requires
            nanos < 1_000_000_000,
            old(self).bytes@[19] == DOT,
            old(self).bytes@[29] == LETTER_Z,
        ensures
            final(self)@ == old(self).bytes@.take(19) + text::fraction_text(nanos as int)
                + seq![LETTER_Z],
    {
        let len: u16 = if nanos == 0 {
            self.write_byte_at(LETTER_Z, 19);
            20
        } else {
            self.write_9_at(nanos, 20);
            proof {
                lemma_trimmed_nanos(nanos as int);
            }
            if nanos % 1_000 != 0 {
                30
            } else if nanos / 1_000 % 1_000 != 0 {
                self.write_byte_at(LETTER_Z, 26);
                27
            } else {
                self.write_byte_at(LETTER_Z, 23);
                24
            }
        };
        proof {
            use_type_invariant(&*self);
        }
        self.len = len;
        reveal(overwritten);
        assert(self@ =~= old(self).bytes@.take(19) + text::fraction_text(nanos as int)
            + seq![LETTER_Z]);
    }

    /// Writes the text of a point in time, given in seconds since the Unix epoch
    /// and nanoseconds, in place of what the buffer held.
    pub fn jsonenc_timestamp(&mut self, seconds: i64, nanos: i32)
        requires
            SECONDS_MIN <= seconds <= SECONDS_MAX,
            0 <= nanos < 1_000_000_000,
        ensures
            final(self)@ == text::timestamp_text(seconds as int, nanos as int),
    {
        // Counted from 0001-01-01, no second is negative.
        let shifted: i64 = seconds + 62_135_596_800;
        let days: i32 = (shifted / 86_400) as i32;
        let second_of_day: u32 = (shifted - days as i64 * 86_400) as u32;
        assert(days - 719_162 == seconds as int / 86_400);
        assert(second_of_day == seconds as int % 86_400);
        let (year, month, day) = date_from_day_count(days);
        self.write_civil_time(year, month, day, second_of_day);
        self.write_fraction(nanos as u32);
    }

    /// Writes the text of a timestamp in place of what the buffer held, and returns
    /// it: `YYYY-MM-DDTHH:mm:ss[.nnn]Z`.
    ///
    /// The argument may be anything that converts into a [`Timestamp`].
    pub fn format<T: Into<Timestamp>>(&mut self, timestamp: T) -> (r: &str)
        ensures
            exists|t: Timestamp|
                {
                    &&& call_ensures(<T as Into<Timestamp>>::into, (timestamp,), t)
                    &&& t.wf()
                    &&& final(self)@ == #[trigger] text::timestamp_text(
                        t.seconds() as int,
                        t.subsec_nanos() as int,
                    )
                },
            r@ == ascii::chars(final(self)@),
    {
        let timestamp: Timestamp = timestamp.into();
        proof {
            use_type_invariant(&timestamp);
        }
        self.reset();
        self.jsonenc_timestamp(timestamp.seconds(), timestamp.subsec_nanos() as i32);
        self.as_str()
    }
}

proof fn lemma_nine_digits(v: int)
    requires
        0 <= v < 1_000_000_000,
    ensures
        digits::decimal(v, 9) == seq![(ZERO + v / 100_000_000) as u8] + digits::decimal(
            v % 100_000_000 / 10_000,
            4,
        ) + digits::decimal(v % 100_000_000 % 10_000, 4),
        digits::decimal(v % 100_000_000 / 10_000, 4).len() == 4,
        digits::decimal(v % 100_000_000 % 10_000, 4).len() == 4,
{
    assert(digits::pow10(4) == 10_000 && digits::pow10(8) == 100_000_000) by {
        reveal_with_fuel(digits::pow10, 10);
    }
    digits::lemma_decimal_split(v, 1, 8);
    assert(digits::decimal(v / 100_000_000, 1) =~= seq![(ZERO + v / 100_000_000) as u8]) by {
        reveal_with_fuel(digits::decimal, 2);
    }
    let low = v % 100_000_000;
    digits::lemma_decimal_mod(v, 8, 8);
    digits::lemma_decimal_split(low, 4, 4);
    digits::lemma_decimal_mod(low, 4, 4);
    digits::lemma_decimal_len(low / 10_000, 4);
    digits::lemma_decimal_len(low % 10_000, 4);
    assert(digits::decimal(v, 9) =~= seq![(ZERO + v / 100_000_000) as u8] + digits::decimal(
        low / 10_000,
        4,
    ) + digits::decimal(low % 10_000, 4));
}

proof fn lemma_time_of_day(second: int)
    requires
        0 <= second < 86_400,
    ensures
        0 <= second / 3600 < 24,
        second % 3600 / 60 == second / 60 % 60,
        second % 3600 % 60 == second % 60,
{
}

/// Six fields written at their positions make up a date and a time of day.
proof fn lemma_civil_time_written(
    blank: Seq<u8>,
    b: Seq<u8>,
    year: Seq<u8>,
    month: Seq<u8>,
    day: Seq<u8>,
    hour: Seq<u8>,
    min: Seq<u8>,
    sec: Seq<u8>,
)
    requires
        blank.len() == 30,
        year.len() == 4,
        month.len() == 2,
        day.len() == 2,
        hour.len() == 2,
        min.len() == 2,
        sec.len() == 2,
        b == overwritten(
            overwritten(
                overwritten(
                    overwritten(overwritten(overwritten(blank, 0, year), 5, month), 8, day),
                    11,
                    hour,
                ),
                14,
                min,
            ),
            17,
            sec,
        ),
    ensures
        b.take(19) == year + seq![blank[4]] + month + seq![blank[7]] + day + seq![blank[10]] + (hour
            + seq![blank[13]] + min + seq![blank[16]] + sec),
        b[19] == blank[19],
        b[29] == blank[29],
{
    reveal(overwritten);
    assert(b.take(19) =~= year + seq![blank[4]] + month + seq![blank[7]] + day + seq![blank[10]] + (
    hour + seq![blank[13]] + min + seq![blank[16]] + sec));
}

/// The first digits of nine are those of a fraction that needs fewer.
proof fn lemma_trimmed_nanos(nanos: int)
    requires
        0 <= nanos < 1_000_000_000,
    ensures
        digits::decimal(nanos, 9).len() == 9,
        digits::decimal(nanos, 9).take(6) == digits::decimal(nanos / 1_000, 6),
        digits::decimal(nanos, 9).take(3) == digits::decimal(nanos / 1_000_000, 3),
{
    assert(digits::pow10(3) == 1_000 && digits::pow10(6) == 1_000_000) by {
        reveal_with_fuel(digits::pow10, 7);
    }
    digits::lemma_decimal_split(nanos, 6, 3);
    digits::lemma_decimal_split(nanos, 3, 6);
    digits::lemma_decimal_len(nanos, 9);
    digits::lemma_decimal_len(nanos / 1_000, 6);
    digits::lemma_decimal_len(nanos / 1_000_000, 3);
    assert(digits::decimal(nanos, 9).take(6) =~= digits::decimal(nanos / 1_000, 6));
    assert(digits::decimal(nanos, 9).take(3) =~= digits::decimal(nanos / 1_000_000, 3));
}

impl Default for Buffer {
    fn default() -> (r: Buffer)
        ensures
            r@ == Seq::<u8>::empty(),
    {
        Buffer::new()
    }
}

impl Copy for Buffer {

}

impl Clone for Buffer {
    /// Makes an empty buffer: what a buffer holds is overwritten by the next
    /// formatting, and is not worth copying.
    fn clone(&self) -> (r: Buffer)
        ensures
            r@ == Seq::<u8>::empty(),
    {
        Buffer::new()
    }
}

impl Timestamp {
    /// The text of the timestamp, as [`Buffer::format`] writes it.
    pub fn to_string(&self) -> (r: String)
        ensures
            r@ == ascii::chars(
                text::timestamp_text(self.seconds() as int, self.subsec_nanos() as int),
            ),
    {
        let mut buf: Buffer = Buffer::new();
        buf.format(*self).to_owned()
    }
}

}
