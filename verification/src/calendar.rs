//! Calendar dates and times of day, held as plain numbers, and parsers for
//! their wire formats "YYYY-MM-DD" and "HH:MM".

use crate::money::{all_digits, digits_val, lemma_digits_val_small, parse_digits};
use crate::text::chars_of;
use vstd::prelude::*;

verus! {

/// A calendar date: year, month and day numbers, no time zone.
#[derive(Clone, Copy, Debug, PartialEq, Eq, Structural)]
pub struct Date {
    pub year: u32,
    pub month: u32,
    pub day: u32,
}

/// A time of day: hour and minute, no seconds, no time zone.
#[derive(Clone, Copy, Debug, PartialEq, Eq, Structural)]
pub struct Time {
    pub hour: u32,
    pub minute: u32,
}

/// The Gregorian leap-year rule.
pub open spec fn leap_year(y: int) -> bool {
    (y % 4 == 0 && y % 100 != 0) || y % 400 == 0
}

/// How many days month `m` of year `y` has.
pub open spec fn days_in_month(y: int, m: int) -> int {
    if m == 2 {
        if leap_year(y) {
            29
        } else {
            28
        }
    } else if m == 4 || m == 6 || m == 9 || m == 11 {
        30
    } else {
        31
    }
}

impl Date {
    /// A date is valid when its month exists and its day exists in that
    /// month of that year.
    pub open spec fn valid(self) -> bool {
        &&& 1 <= self.month <= 12
        &&& 1 <= self.day <= days_in_month(self.year as int, self.month as int)
    }
}

impl Time {
    pub open spec fn valid(self) -> bool {
        self.hour <= 23 && self.minute <= 59
    }
}

/// Whether `s` reads "YYYY-MM-DD", digits in every digit position.
pub open spec fn date_str_shape(s: Seq<char>) -> bool {
    &&& s.len() == 10
    &&& all_digits(s.subrange(0, 4))
    &&& s[4] == '-'
    &&& all_digits(s.subrange(5, 7))
    &&& s[7] == '-'
    &&& all_digits(s.subrange(8, 10))
}

/// The date a shaped string denotes.
pub open spec fn date_of(s: Seq<char>) -> Date {
    Date {
        year: digits_val(s.subrange(0, 4)) as u32,
        month: digits_val(s.subrange(5, 7)) as u32,
        day: digits_val(s.subrange(8, 10)) as u32,
    }
}

/// Whether `s` denotes a valid calendar date.
pub open spec fn date_str_ok(s: Seq<char>) -> bool {
    date_str_shape(s) && date_of(s).valid()
}

/// Whether `s` reads "HH:MM", digits in every digit position.
pub open spec fn time_str_shape(s: Seq<char>) -> bool {
    &&& s.len() == 5
    &&& all_digits(s.subrange(0, 2))
    &&& s[2] == ':'
    &&& all_digits(s.subrange(3, 5))
}

/// The time a shaped string denotes.
pub open spec fn time_of(s: Seq<char>) -> Time {
    Time { hour: digits_val(s.subrange(0, 2)) as u32, minute: digits_val(s.subrange(3, 5)) as u32 }
}

/// Whether `s` denotes a valid time of day.
pub open spec fn time_str_ok(s: Seq<char>) -> bool {
    time_str_shape(s) && time_of(s).valid()
}

/// How many days the given month has.
pub fn month_length(year: u32, month: u32) -> (d: u32)
    requires
        1 <= month <= 12,
    ensures
        d == days_in_month(year as int, month as int),
{
    if month == 2 {
        if (year % 4 == 0 && year % 100 != 0) || year % 400 == 0 {
            29
        } else {
            28
        }
    } else if month == 4 || month == 6 || month == 9 || month == 11 {
        30
    } else {
        31
    }
}

/// Parses "YYYY-MM-DD" into a valid date; rejects every other string.
pub fn parse_date(s: &str) -> (r: Option<Date>)
    ensures
        match r {
            Some(d) => date_str_ok(s@) && d == date_of(s@),
            None => !date_str_ok(s@),
        },
{
    let v = chars_of(s);
    if v.len() != 10 {
        return None;
    }
    if v[4] != '-' || v[7] != '-' {
        return None;
    }
    let year = match parse_digits(&v, 0, 4) {
        Some(x) => x,
        None => {
            proof {
                if all_digits(v@.subrange(0, 4)) {
                    lemma_digits_val_small(v@.subrange(0, 4));
                }
            }
            return None;
        },
    };
    let month = match parse_digits(&v, 5, 7) {
        Some(x) => x,
        None => {
            proof {
                if all_digits(v@.subrange(5, 7)) {
                    lemma_digits_val_small(v@.subrange(5, 7));
                }
            }
            return None;
        },
    };
    let day = match parse_digits(&v, 8, 10) {
        Some(x) => x,
        None => {
            proof {
                if all_digits(v@.subrange(8, 10)) {
                    lemma_digits_val_small(v@.subrange(8, 10));
                }
            }
            return None;
        },
    };
    proof {
        lemma_digits_val_small(v@.subrange(0, 4));
        lemma_digits_val_small(v@.subrange(5, 7));
        lemma_digits_val_small(v@.subrange(8, 10));
    }
    let d = Date { year: year as u32, month: month as u32, day: day as u32 };
    if d.month < 1 || d.month > 12 {
        return None;
    }
    if d.day < 1 || d.day > month_length(d.year, d.month) {
        return None;
    }
    Some(d)
}

/// Parses "HH:MM" into a valid time of day; rejects every other string.
pub fn parse_time(s: &str) -> (r: Option<Time>)
    ensures
        match r {
            Some(t) => time_str_ok(s@) && t == time_of(s@),
            None => !time_str_ok(s@),
        },
{
    let v = chars_of(s);
    if v.len() != 5 {
        return None;
    }
    if v[2] != ':' {
        return None;
    }
    let hour = match parse_digits(&v, 0, 2) {
        Some(x) => x,
        None => {
            proof {
                if all_digits(v@.subrange(0, 2)) {
                    lemma_digits_val_small(v@.subrange(0, 2));
                }
            }
            return None;
        },
    };
    let minute = match parse_digits(&v, 3, 5) {
        Some(x) => x,
        None => {
            proof {
                if all_digits(v@.subrange(3, 5)) {
                    lemma_digits_val_small(v@.subrange(3, 5));
                }
            }
            return None;
        },
    };
    proof {
        lemma_digits_val_small(v@.subrange(0, 2));
        lemma_digits_val_small(v@.subrange(3, 5));
    }
    let t = Time { hour: hour as u32, minute: minute as u32 };
    if t.hour > 23 || t.minute > 59 {
        return None;
    }
    Some(t)
}

} // verus!
