//! Calendar date and time of day as plain numbers, and its text form in
//! snapshot folder names.

use chrono::Datelike;
use chrono::Timelike;
use vstd::prelude::*;
use crate::text::decimal;
use crate::text::digit_char;

verus! {

/// A calendar date and time of day in the local time zone, to the second.
#[derive(Clone, Copy, Debug, PartialEq, Eq, Structural)]
pub struct LocalDateTime {
    pub year: i32,
    pub month: u32,
    pub day: u32,
    pub hour: u32,
    pub minute: u32,
    pub second: u32,
}

/// Whether `year` has a 29th of February.
pub open spec fn is_leap_year(year: int) -> bool {
    year % 4 == 0 && (year % 100 != 0 || year % 400 == 0)
}

/// The number of days of `month` in `year`; zero when there is no such month.
pub open spec fn days_in_month(year: int, month: int) -> int {
    if month == 2 {
        if is_leap_year(year) {
            29
        } else {
            28
        }
    } else if month == 4 || month == 6 || month == 9 || month == 11 {
        30
    } else if 1 <= month <= 12 {
        31
    } else {
        0
    }
}

/// The first year that a date can have.
pub const MIN_YEAR: i32 = -262143;

/// The last year that a date can have.
pub const MAX_YEAR: i32 = 262142;

impl LocalDateTime {
    /// The date exists in the calendar and the time exists on the clock.
    pub open spec fn is_valid(self) -> bool {
        &&& MIN_YEAR <= self.year <= MAX_YEAR
        &&& 1 <= self.month <= 12
        &&& 1 <= self.day <= days_in_month(self.year as int, self.month as int)
        &&& self.hour < 24
        &&& self.minute < 60
        &&& self.second < 60
    }

    /// Whether `self` is strictly earlier than `other`, field by field from
    /// the year down.
    pub open spec fn before(self, other: LocalDateTime) -> bool {
        self.year < other.year || (self.year == other.year && (self.month < other.month || (
        self.month == other.month && (self.day < other.day || (self.day == other.day && (self.hour
            < other.hour || (self.hour == other.hour && (self.minute < other.minute || (
        self.minute == other.minute && self.second < other.second)))))))))
    }

    /// Tells whether `self` is strictly earlier than `other`.
    pub fn is_before(&self, other: &LocalDateTime) -> (b: bool)
        ensures
            b == self.before(*other),
    {
        if self.year != other.year {
            self.year < other.year
        } else if self.month != other.month {
            self.month < other.month
        } else if self.day != other.day {
            self.day < other.day
        } else if self.hour != other.hour {
            self.hour < other.hour
        } else if self.minute != other.minute {
            self.minute < other.minute
        } else {
            self.second < other.second
        }
    }

    /// Checks that the date exists in the calendar and the time on the clock.
    pub fn check(&self) -> (b: bool)
        ensures
            b == self.is_valid(),
    {
        if self.year < MIN_YEAR || self.year > MAX_YEAR {
            return false;
        }
        if self.month < 1 || self.month > 12 || self.day < 1 {
            return false;
        }
        // 262400 is a multiple of 400, so the shifted year is a leap year
        // exactly when `year` is.
        let shifted: u32 = (self.year + 262400) as u32;
        let leap = shifted % 4 == 0 && (shifted % 100 != 0 || shifted % 400 == 0);
        assert(leap == is_leap_year(self.year as int));
        let days: u32 = if self.month == 2 {
            if leap {
                29
            } else {
                28
            }
        } else if self.month == 4 || self.month == 6 || self.month == 9 || self.month == 11 {
            30
        } else {
            31
        };
        self.day <= days && self.hour < 24 && self.minute < 60 && self.second < 60
    }
}

/// Two decimal digits for a number below one hundred.
pub open spec fn two_digits(n: nat) -> Seq<char> {
    seq![digit_char(n / 10), digit_char(n % 10)]
}

/// At least four decimal digits, with leading zeros where `n` is small.
pub open spec fn four_digits(n: nat) -> Seq<char> {
    if n < 10000 {
        seq![
            digit_char(n / 1000),
            digit_char(n / 100 % 10),
            digit_char(n / 10 % 10),
            digit_char(n % 10),
        ]
    } else {
        decimal(n)
    }
}

/// The year as the folder name shows it: four digits, and a sign in front
/// for a year before 0 or after 9999.
pub open spec fn year_text(year: int) -> Seq<char> {
    if 0 <= year <= 9999 {
        four_digits(year as nat)
    } else if year < 0 {
        seq!['-'] + four_digits((-year) as nat)
    } else {
        seq!['+'] + four_digits(year as nat)
    }
}

/// The English three-letter name of a month.
pub open spec fn month_text(month: int) -> Seq<char> {
    if month == 1 {
        seq!['J', 'a', 'n']
    } else if month == 2 {
        seq!['F', 'e', 'b']
    } else if month == 3 {
        seq!['M', 'a', 'r']
    } else if month == 4 {
        seq!['A', 'p', 'r']
    } else if month == 5 {
        seq!['M', 'a', 'y']
    } else if month == 6 {
        seq!['J', 'u', 'n']
    } else if month == 7 {
        seq!['J', 'u', 'l']
    } else if month == 8 {
        seq!['A', 'u', 'g']
    } else if month == 9 {
        seq!['S', 'e', 'p']
    } else if month == 10 {
        seq!['O', 'c', 't']
    } else if month == 11 {
        seq!['N', 'o', 'v']
    } else {
        seq!['D', 'e', 'c']
    }
}

/// The hour on a twelve-hour clock, from 1 to 12.
pub open spec fn hour12(hour: int) -> int {
    if hour % 12 == 0 {
        12
    } else {
        hour % 12
    }
}

/// The text of a moment in a folder name: day, month name and year, then
/// hour, minute and second on a twelve-hour clock, then `AM` or `PM`.
#[verifier::opaque]
pub open spec fn timestamp_text(t: LocalDateTime) -> Seq<char> {
    two_digits(t.day as nat) + seq!['-'] + month_text(t.month as int) + seq!['-'] + year_text(
        t.year as int,
    ) + seq![' '] + two_digits(hour12(t.hour as int) as nat) + seq!['-'] + two_digits(
        t.minute as nat,
    ) + seq!['-'] + two_digits(t.second as nat) + seq![' '] + (if t.hour < 12 {
        seq!['A', 'M']
    } else {
        seq!['P', 'M']
    })
}

/// What chrono reads from a text in the folder-name form `%d-%b-%Y %I-%M-%S %p`:
/// the moment, or nothing where it refuses the text.
pub uninterp spec fn parsed_timestamp(text: Seq<char>) -> Option<LocalDateTime>;

/// Whether chrono reads the text of the moment `t` back as `t`. It does so
/// for every moment it wrote: `format_timestamp` says so of each text it
/// returns.
pub open spec fn reads_back(t: LocalDateTime) -> bool {
    parsed_timestamp(timestamp_text(t)) == Some(t)
}

/// Renders a moment with chrono. `NaiveDate::from_ymd_opt` and `and_hms_opt`
/// build the moment from its fields, and `NaiveDateTime::format` with
/// `%d-%b-%Y %I-%M-%S %p` writes it.
///
/// Not proved, but taken from chrono: that a moment is built for every valid
/// date and time; that the text is the two-digit day, the English month
/// name, the year in four digits (with a sign in front outside 0 to 9999), the
/// two-digit hour of the twelve-hour clock, minute and second, and `AM` or
/// `PM`, with `-` and a space between them as in the format; and that chrono
/// reads the text it wrote back as the same moment, so that `parsed_timestamp`
/// of the text is the moment.
#[verifier::external_body]
pub(crate) fn format_timestamp(t: LocalDateTime) -> (r: Option<String>)
    ensures
        t.is_valid() ==> r is Some,
        r matches Some(s) ==> s@ == timestamp_text(t),
        r matches Some(s) ==> parsed_timestamp(s@) == Some(t),
{
    let date = chrono::NaiveDate::from_ymd_opt(t.year, t.month, t.day)?;
    let moment = date.and_hms_opt(t.hour, t.minute, t.second)?;
    Some(moment.format("%d-%b-%Y %I-%M-%S %p").to_string())
}

/// Reads a moment with chrono: `NaiveDateTime::parse_from_str` with
/// `%d-%b-%Y %I-%M-%S %p`, and the fields of what it returns, or `None` where
/// it reports an error. The result is what `parsed_timestamp` names; which
/// texts chrono reads, and as what, is not stated.
#[verifier::external_body]
pub(crate) fn parse_timestamp(text: &str) -> (r: Option<LocalDateTime>)
    ensures
        r == parsed_timestamp(text@),
{
    let t = chrono::NaiveDateTime::parse_from_str(text, "%d-%b-%Y %I-%M-%S %p").ok()?;
    Some(
        LocalDateTime {
            year: t.year(),
            month: t.month(),
            day: t.day(),
            hour: t.hour(),
            minute: t.minute(),
            second: t.second(),
        },
    )
}

} // verus!
