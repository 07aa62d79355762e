//! The time at which a reading was taken, and how it is written:
//! ISO 8601 with the local UTC offset, such as `2026-12-03T11:30:00+0100`.

use chrono::{Datelike, Timelike};
use vstd::prelude::*;
use crate::digits::{
    decimal_digits, digit_char, digit_text, digits_value, is_digit, join, lemma_decimal_digits_read_back,
    lemma_digit_char, nat_text,
};

verus! {

/// A local date and time, field by field.
#[derive(Debug, Clone, Copy, PartialEq, Eq, Structural)]
pub struct LocalTime {
    pub year: i32,
    /// 1 to 12.
    pub month: u32,
    /// 1 to 31.
    pub day: u32,
    /// 0 to 23.
    pub hour: u32,
    /// 0 to 59.
    pub minute: u32,
    /// 0 to 59.
    pub second: u32,
    /// Nanoseconds into the second; from 1,000,000,000 on, a leap second.
    pub nanosecond: u32,
    /// Seconds to add to UTC to get the local time.
    pub utc_offset: i32,
}

impl LocalTime {
    /// Every field is within its range.
    pub open spec fn in_range(&self) -> bool {
        &&& 1 <= self.month <= 12
        &&& 1 <= self.day <= 31
        &&& self.hour <= 23
        &&& self.minute <= 59
        &&& self.second <= 59
        &&& self.nanosecond < 2_000_000_000
        &&& -86_400 < self.utc_offset < 86_400
    }
}

/// Calls `chrono::Local::now` and hands out its fields (through chrono's
/// `Datelike`, `Timelike` and `FixedOffset::local_minus_utc`). The ranges
/// stated are those that chrono documents for these fields; which time it is
/// depends on the clock and the machine's time zone, and is not stated.
#[verifier::external_body]
pub(crate) fn local_now() -> (t: LocalTime)
    ensures
        t.in_range(),
{
    let now = chrono::Local::now();
    LocalTime {
        year: now.year(),
        month: now.month(),
        day: now.day(),
        hour: now.hour(),
        minute: now.minute(),
        second: now.second(),
        nanosecond: now.nanosecond(),
        utc_offset: now.offset().local_minus_utc(),
    }
}

/// The readings that the local clock has given through this log, oldest
/// first. The log is ghost state: it exists for the proofs alone, and only
/// `read` adds to it.
pub struct ClockLog {
    readings: Ghost<Seq<LocalTime>>,
}

impl ClockLog {
    /// The readings taken so far, oldest first.
    pub closed spec fn readings(&self) -> Seq<LocalTime> {
        self.readings@
    }

    /// A log with no reading yet.
    pub fn new() -> (c: ClockLog)
        ensures
            c.readings() == Seq::<LocalTime>::empty(),
    {
        ClockLog { readings: Ghost(Seq::empty()) }
    }

    /// Reads the local clock, and records the reading.
    pub fn read(&mut self) -> (t: LocalTime)
        ensures
            t.in_range(),
            final(self).readings() == old(self).readings().push(t),
    {
        let t = local_now();
        self.readings = Ghost(self.readings@.push(t));
        t
    }
}

/// A number below 100 as two digits.
pub open spec fn two_digits(v: int) -> Seq<char> {
    seq![digit_char(v / 10), digit_char(v % 10)]
}

/// A natural number with leading zeros up to four digits.
pub open spec fn four_digits(n: nat) -> Seq<char> {
    if n < 10 {
        seq!['0', '0', '0'] + decimal_digits(n)
    } else if n < 100 {
        seq!['0', '0'] + decimal_digits(n)
    } else if n < 1000 {
        seq!['0'] + decimal_digits(n)
    } else {
        decimal_digits(n)
    }
}

/// A year: four digits from 0 to 9999, and outside that range a sign
/// followed by at least four digits.
pub open spec fn year_chars(y: int) -> Seq<char> {
    if 0 <= y <= 9999 {
        four_digits(y as nat)
    } else if y < 0 {
        seq!['-'] + four_digits((-y) as nat)
    } else {
        seq!['+'] + four_digits(y as nat)
    }
}

/// A UTC offset in seconds as a sign, two digits of hours and two of
/// minutes, the seconds rounded to the nearest minute.
pub open spec fn offset_chars(offset: int) -> Seq<char> {
    let magnitude = if offset < 0 {
        -offset
    } else {
        offset
    };
    let minutes = (magnitude + 30) / 60;
    seq![
        if offset < 0 {
            '-'
        } else {
            '+'
        },
    ] + two_digits(minutes / 60) + two_digits(minutes % 60)
}

/// The time as `YYYY-MM-DDTHH:MM:SS±HHMM`: the form chrono writes for
/// `%Y-%m-%dT%H:%M:%S%z`. A leap second shows as second 60.
pub open spec fn timestamp_chars(t: LocalTime) -> Seq<char> {
    year_chars(t.year as int) + seq!['-'] + two_digits(t.month as int) + seq!['-'] + two_digits(
        t.day as int,
    ) + seq!['T'] + two_digits(t.hour as int) + seq![':'] + two_digits(t.minute as int) + seq![
        ':',
    ] + two_digits(t.second + t.nanosecond / 1_000_000_000) + offset_chars(t.utc_offset as int)
}

/// A number below 100 as two digits.
fn two_digit_text(v: u64) -> (s: String)
    requires
        v < 100,
    ensures
        s@ == two_digits(v as int),
{
    join(digit_text(v / 10), digit_text(v % 10))
}

/// A natural number with leading zeros up to four digits.
fn four_digit_text(n: u64) -> (s: String)
    ensures
        s@ == four_digits(n as nat),
{
    let digits = nat_text(n);
    if n < 10 {
        proof { reveal_strlit("000"); }
        join("000", digits.as_str())
    } else if n < 100 {
        proof { reveal_strlit("00"); }
        join("00", digits.as_str())
    } else if n < 1000 {
        proof { reveal_strlit("0"); }
        join("0", digits.as_str())
    } else {
        digits
    }
}

/// A year as chrono writes `%Y`.
fn year_text(y: i32) -> (s: String)
    ensures
        s@ == year_chars(y as int),
{
    if 0 <= y && y <= 9999 {
        four_digit_text(y as u64)
    } else if y < 0 {
        let digits = four_digit_text((0i64 - (y as i64)) as u64);
        proof { reveal_strlit("-"); }
        join("-", digits.as_str())
    } else {
        let digits = four_digit_text(y as u64);
        proof { reveal_strlit("+"); }
        join("+", digits.as_str())
    }
}

/// A UTC offset as chrono writes `%z`.
fn offset_text(offset: i32) -> (s: String)
    requires
        -86_400 < offset < 86_400,
    ensures
        s@ == offset_chars(offset as int),
{
    let magnitude: u64 = if offset < 0 {
        (0i64 - (offset as i64)) as u64
    } else {
        offset as u64
    };
    let minutes = (magnitude + 30) / 60;
    let sign = if offset < 0 {
        proof { reveal_strlit("-"); }
        "-"
    } else {
        proof { reveal_strlit("+"); }
        "+"
    };
    let hours = two_digit_text(minutes / 60);
    let mins = two_digit_text(minutes % 60);
    let s = join(sign, hours.as_str());
    join(s.as_str(), mins.as_str())
}

/// The time in ISO 8601 with its UTC offset, as `YYYY-MM-DDTHH:MM:SS±HHMM`.
pub fn timestamp_text(t: &LocalTime) -> (s: String)
    requires
        t.in_range(),
    ensures
        s@ == timestamp_chars(*t),
{
    proof {
        reveal_strlit("-");
        reveal_strlit("T");
        reveal_strlit(":");
    }
    let year = year_text(t.year);
    let s = join(year.as_str(), "-");
    let s = join(s.as_str(), two_digit_text(t.month as u64).as_str());
    let s = join(s.as_str(), "-");
    let s = join(s.as_str(), two_digit_text(t.day as u64).as_str());
    let s = join(s.as_str(), "T");
    let s = join(s.as_str(), two_digit_text(t.hour as u64).as_str());
    let s = join(s.as_str(), ":");
    let s = join(s.as_str(), two_digit_text(t.minute as u64).as_str());
    let s = join(s.as_str(), ":");
    let second = t.second as u64 + t.nanosecond as u64 / 1_000_000_000;
    let s = join(s.as_str(), two_digit_text(second).as_str());
    join(s.as_str(), offset_text(t.utc_offset).as_str())
}

/// Two digits read back as the number below 100 they were written for.
proof fn lemma_two_digits(v: int)
    requires
        0 <= v < 100,
    ensures
        two_digits(v).len() == 2,
        is_digit(two_digits(v)[0]) && is_digit(two_digits(v)[1]),
        digits_value(two_digits(v)) == v,
{
    lemma_digit_char(v / 10);
    lemma_digit_char(v % 10);
    let d = two_digits(v);
    assert(d.drop_last().drop_last() =~= Seq::<char>::empty());
    assert(d.drop_last() =~= seq![digit_char(v / 10)]);
    assert(digits_value(Seq::<char>::empty()) == 0);
    assert(digits_value(d.drop_last()) == v / 10);
}

/// A zero in front changes nothing of what digits read as.
proof fn lemma_leading_zero(s: Seq<char>)
    ensures
        digits_value(seq!['0'] + s) == digits_value(s),
    decreases s.len(),
{
    let z = seq!['0'] + s;
    assert('0' as int == 48);
    if s.len() == 0 {
        assert(z.drop_last() =~= Seq::<char>::empty());
        assert(digits_value(Seq::<char>::empty()) == 0);
        assert(z.last() == '0');
    } else {
        assert(z.drop_last() =~= seq!['0'] + s.drop_last());
        assert(z.last() == s.last());
        lemma_leading_zero(s.drop_last());
    }
}

/// The number of decimal digits of a number below 10000.
proof fn lemma_digit_count(n: nat)
    requires
        n <= 9999,
    ensures
        n < 10 ==> decimal_digits(n).len() == 1,
        10 <= n < 100 ==> decimal_digits(n).len() == 2,
        100 <= n < 1000 ==> decimal_digits(n).len() == 3,
        1000 <= n ==> decimal_digits(n).len() == 4,
{
    reveal_with_fuel(decimal_digits, 4);
}

/// Four digits, with leading zeros, read back as the number below 10000
/// they were written for.
proof fn lemma_four_digits(n: nat)
    requires
        n <= 9999,
    ensures
        four_digits(n).len() == 4,
        forall|i: int| 0 <= i < 4 ==> is_digit(#[trigger] four_digits(n)[i]),
        digits_value(four_digits(n)) == n,
{
    let d = decimal_digits(n);
    lemma_decimal_digits_read_back(n);
    lemma_digit_count(n);
    lemma_digit_char(0);
    if n < 1000 {
        lemma_leading_zero(d);
        if n < 100 {
            lemma_leading_zero(seq!['0'] + d);
            assert(seq!['0', '0'] + d =~= seq!['0'] + (seq!['0'] + d));
            if n < 10 {
                lemma_leading_zero(seq!['0', '0'] + d);
                assert(seq!['0', '0', '0'] + d =~= seq!['0'] + (seq!['0', '0'] + d));
            }
        }
    }
}

/// A timestamp of a year from 0 to 9999 reads back field by field: 24
/// characters with `-`, `-`, `T`, `:` and `:` in their places, and digits
/// that read as the year, month, day, hour, minute and second (60 during a
/// leap second), then the sign of the UTC offset and its hours and minutes,
/// rounded to the nearest minute.
#[verifier::rlimit(80)]
pub proof fn law_timestamp_reads_back(t: LocalTime)
    requires
        t.in_range(),
        0 <= t.year <= 9999,
    ensures
        ({
            let s = timestamp_chars(t);
            let magnitude = if t.utc_offset < 0 {
                -t.utc_offset
            } else {
                t.utc_offset as int
            };
            let minutes = (magnitude + 30) / 60;
            &&& s.len() == 24
            &&& s[4] == '-' && s[7] == '-' && s[10] == 'T' && s[13] == ':' && s[16] == ':'
            &&& forall|i: int|
                0 <= i < 24 && i != 4 && i != 7 && i != 10 && i != 13 && i != 16 && i != 19
                    ==> is_digit(#[trigger] s[i])
            &&& digits_value(s.subrange(0, 4)) == t.year
            &&& digits_value(s.subrange(5, 7)) == t.month
            &&& digits_value(s.subrange(8, 10)) == t.day
            &&& digits_value(s.subrange(11, 13)) == t.hour
            &&& digits_value(s.subrange(14, 16)) == t.minute
            &&& digits_value(s.subrange(17, 19)) == t.second + t.nanosecond / 1_000_000_000
            &&& s[19] == if t.utc_offset < 0 {
                '-'
            } else {
                '+'
            }
            &&& digits_value(s.subrange(20, 22)) == minutes / 60
            &&& digits_value(s.subrange(22, 24)) == minutes % 60
        }),
{
    let s = timestamp_chars(t);
    let y = four_digits(t.year as nat);
    let mo = two_digits(t.month as int);
    let d = two_digits(t.day as int);
    let h = two_digits(t.hour as int);
    let mi = two_digits(t.minute as int);
    let se = two_digits(t.second + t.nanosecond / 1_000_000_000);
    let magnitude = if t.utc_offset < 0 {
        -t.utc_offset
    } else {
        t.utc_offset as int
    };
    let minutes = (magnitude + 30) / 60;
    let oh = two_digits(minutes / 60);
    let om = two_digits(minutes % 60);
    lemma_four_digits(t.year as nat);
    lemma_two_digits(t.month as int);
    lemma_two_digits(t.day as int);
    lemma_two_digits(t.hour as int);
    lemma_two_digits(t.minute as int);
    lemma_two_digits(t.second + t.nanosecond / 1_000_000_000);
    lemma_two_digits(minutes / 60);
    lemma_two_digits(minutes % 60);
    let sign = if t.utc_offset < 0 {
        '-'
    } else {
        '+'
    };
    assert(s =~= y + seq!['-'] + mo + seq!['-'] + d + seq!['T'] + h + seq![':'] + mi + seq![':'] + se
        + seq![sign] + oh + om);
    assert(s.subrange(0, 4) =~= y);
    assert(s.subrange(5, 7) =~= mo);
    assert(s.subrange(8, 10) =~= d);
    assert(s.subrange(11, 13) =~= h);
    assert(s.subrange(14, 16) =~= mi);
    assert(s.subrange(17, 19) =~= se);
    assert(s.subrange(20, 22) =~= oh);
    assert(s.subrange(22, 24) =~= om);
    assert forall|i: int|
        0 <= i < 24 && i != 4 && i != 7 && i != 10 && i != 13 && i != 16 && i != 19 implies is_digit(
            #[trigger] s[i],
        ) by {
        if i < 4 {
            assert(s[i] == y[i]);
        } else if i < 7 {
            assert(s[i] == mo[i - 5]);
        } else if i < 10 {
            assert(s[i] == d[i - 8]);
        } else if i < 13 {
            assert(s[i] == h[i - 11]);
        } else if i < 16 {
            assert(s[i] == mi[i - 14]);
        } else if i < 19 {
            assert(s[i] == se[i - 17]);
        } else if i < 22 {
            assert(s[i] == oh[i - 20]);
        } else {
            assert(s[i] == om[i - 22]);
        }
    }
}

} // verus!
