//! Calendar dates, and the date that a note's identifier stands for.

use vstd::prelude::*;

verus! {

/// A day of the calendar: a year, a month from 1 and a day of the month from
/// 1.
#[derive(Clone, Copy, Debug, PartialEq, Eq, Structural)]
pub struct Date {
    pub year: i32,
    pub month: u32,
    pub day: u32,
}

/// Whether `year` has a 29th of February.
pub open spec fn is_leap_year(year: int) -> bool {
    year % 4 == 0 && (year % 100 != 0 || year % 400 == 0)
}

/// The number of days of a month, and 0 for a month that does not exist.
pub open spec fn days_in_month(year: int, month: int) -> int {
    if month == 2 {
        if is_leap_year(year) {
            29
        } else {
            28
        }
    } else if month == 4 || month == 6 || month == 9 || month == 11 {
        30
    } else if 1 <= month <= 12 {
        31
    } else {
        0
    }
}

/// The date in `text` as chrono reads it by the format `format`, where it
/// reads one: what `NaiveDateTime::parse_from_str` gives for the two, reduced
/// to the day. It depends on the two texts alone.
pub uninterp spec fn parsed_date(text: Seq<char>, format: Seq<char>) -> Option<Date>;

/// The format of an identifier: year, month, day, `T`, hour, minute, second,
/// as in `20240105T093000`.
pub open spec fn timestamp_format() -> Seq<char> {
    "%Y%m%dT%H%M%S"@
}

/// A decimal digit.
pub open spec fn is_digit(c: char) -> bool {
    '0' <= c <= '9'
}

/// A letter of the basic alphabet.
pub open spec fn is_letter(c: char) -> bool {
    'a' <= c <= 'z' || 'A' <= c <= 'Z'
}

/// Every character of `text` is a digit.
pub open spec fn all_digits(text: Seq<char>) -> bool {
    forall|i: int| 0 <= i < text.len() ==> is_digit(#[trigger] text[i])
}

/// A year as the clock writes it: four digits, or a sign and at least four
/// digits for a year before 0 or after 9999.
pub open spec fn is_year_text(text: Seq<char>) -> bool {
    ||| text.len() == 4 && all_digits(text)
    ||| text.len() >= 5 && (text[0] == '+' || text[0] == '-') && all_digits(text.skip(1))
}

/// A point in time as the clock writes it for an identifier: the year, two
/// digits each for the month and the day, `T`, and two digits each for the
/// hour, the minute and the second, as in `20240105T093000`.
pub open spec fn is_clock_stamp(text: Seq<char>) -> bool {
    let n = text.len() - 11;
    &&& n >= 4
    &&& is_year_text(text.take(n))
    &&& all_digits(text.subrange(n, n + 4))
    &&& text[n + 4] == 'T'
    &&& all_digits(text.subrange(n + 5, n + 11))
}

/// A point in time as the clock writes it for the front matter: the year, the
/// month and the day with `-` between them, the three letters of the weekday,
/// and the hour and the minute with `:` between them, as in
/// `2024-01-05 Fri 09:30`.
pub open spec fn is_clock_date(text: Seq<char>) -> bool {
    let n = text.len() - 16;
    &&& n >= 4
    &&& is_year_text(text.take(n))
    &&& text[n] == '-'
    &&& all_digits(text.subrange(n + 1, n + 3))
    &&& text[n + 3] == '-'
    &&& all_digits(text.subrange(n + 4, n + 6))
    &&& text[n + 6] == ' '
    &&& forall|i: int| n + 7 <= i < n + 10 ==> is_letter(#[trigger] text[i])
    &&& text[n + 10] == ' '
    &&& all_digits(text.subrange(n + 11, n + 13))
    &&& text[n + 13] == ':'
    &&& all_digits(text.subrange(n + 14, n + 16))
}

impl Date {
    /// Whether the calendar has this day.
    pub open spec fn is_valid(self) -> bool {
        1 <= self.day <= days_in_month(self.year as int, self.month as int)
    }

    /// The date with the given year, month and day, where the calendar has
    /// that day.
    pub fn new(year: i32, month: u32, day: u32) -> (r: Option<Date>)
        ensures
            r == if (Date { year, month, day }).is_valid() {
                Some(Date { year, month, day })
            } else {
                None
            },
    {
        let leap: bool = year % 4 == 0 && (year % 100 != 0 || year % 400 == 0);
        let days: u32 = if month == 2 {
            if leap {
                29
            } else {
                28
            }
        } else if month == 4 || month == 6 || month == 9 || month == 11 {
            30
        } else if 1 <= month && month <= 12 {
            31
        } else {
            0
        };
        if 1 <= day && day <= days {
            Some(Date { year, month, day })
        } else {
            None
        }
    }
}

} // verus!
