//! The local date and time of day, as the texts that go into file names and
//! entries.
//!
//! The clock is read through `chrono`. What is known of a reading is its shape
//! only: which characters it is made of, and the range of each number.

use vstd::prelude::*;

verus! {

/// Whether `c` is one of the digits `0` to `9`.
pub open spec fn is_digit(c: char) -> bool {
    0x30 <= c as u32 <= 0x39
}

/// Whether every character of `s` is a digit.
pub open spec fn all_digits(s: Seq<char>) -> bool {
    forall|i: int| 0 <= i < s.len() ==> is_digit(#[trigger] s[i])
}

/// The number that the two digits `tens` and `ones` write.
pub open spec fn two_digit_value(tens: char, ones: char) -> int {
    (tens as u32 - 0x30) * 10 + (ones as u32 - 0x30)
}

/// Whether `s` is a number from `low` to `high` written with exactly two
/// digits.
pub open spec fn is_two_digits(s: Seq<char>, low: int, high: int) -> bool {
    &&& s.len() == 2
    &&& is_digit(s[0])
    &&& is_digit(s[1])
    &&& low <= two_digit_value(s[0], s[1]) <= high
}

/// Whether `s` is a year as it is written out: four digits, or a sign and at
/// least four digits for a year before 0 or after 9999.
pub open spec fn is_year_text(s: Seq<char>) -> bool {
    ||| s.len() == 4 && all_digits(s)
    ||| s.len() >= 5 && (s[0] == '+' || s[0] == '-') && all_digits(s.skip(1))
}

/// Whether `s` is a time of day written `HH:MM:SS` on the 24-hour clock. The
/// seconds reach 60 during a leap second.
pub open spec fn is_clock_text(s: Seq<char>) -> bool {
    &&& s.len() == 8
    &&& is_two_digits(s.subrange(0, 2), 0, 23)
    &&& s[2] == ':'
    &&& is_two_digits(s.subrange(3, 5), 0, 59)
    &&& s[5] == ':'
    &&& is_two_digits(s.subrange(6, 8), 0, 60)
}

/// A calendar date as three texts: the year, the month and the day of the
/// month.
pub struct DateStamp {
    pub year: String,
    pub month: String,
    pub day: String,
}

impl DateStamp {
    /// Whether the three texts have the shape of a date read from the clock: a
    /// written-out year, a two-digit month from 01 to 12 and a two-digit day
    /// from 01 to 31.
    pub open spec fn well_formed(self) -> bool {
        &&& is_year_text(self.year@)
        &&& is_two_digits(self.month@, 1, 12)
        &&& is_two_digits(self.day@, 1, 31)
    }
}

/// Today's date on the local clock.
///
/// Trusted: the body reads `chrono::Local::now()` once and formats that
/// moment with `%Y`, `%m` and `%d`. The contract claims what `chrono` documents
/// of these three: the year with four digits, or with a sign and at least four
/// digits outside 0 to 9999; the month as two digits from 01 to 12; the day as
/// two digits from 01 to 31. Which date comes back is not stated. `chrono`
/// panics where the system clock stands before 1970.
#[verifier::external_body]
pub(crate) fn local_today() -> (date: DateStamp)
    ensures
        date.well_formed(),
{
    let now = chrono::Local::now();
    DateStamp {
        year: now.format("%Y").to_string(),
        month: now.format("%m").to_string(),
        day: now.format("%d").to_string(),
    }
}

/// The time of day on the local clock, written `HH:MM:SS`.
///
/// Trusted: the body formats `chrono::Local::now()` with `%H:%M:%S`. The
/// contract claims what `chrono` documents of these items: each is written
/// with two digits, the hour from 00 to 23, the minute from 00 to 59 and the
/// second from 00 to 60. Which time comes back is not stated. `chrono` panics
/// where the system clock stands before 1970.
#[verifier::external_body]
pub(crate) fn local_clock() -> (stamp: String)
    ensures
        is_clock_text(stamp@),
{
    chrono::Local::now().format("%H:%M:%S").to_string()
}

} // verus!
