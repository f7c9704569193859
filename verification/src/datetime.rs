//! Calendar date and time-of-day text: validation of the `YYYY-MM-DD` and
//! `HH:MM:SS` forms used by the price journal, including real month lengths
//! and leap years. Valid strings are fixed-width, so their lexicographic
//! order coincides with chronological order.

use vstd::prelude::*;
use crate::digits::{digit_val, is_digit};
use crate::text::str_to_chars;

verus! {

pub open spec fn date_year(s: Seq<char>) -> int {
    digit_val(s[0]) * 1000 + digit_val(s[1]) * 100 + digit_val(s[2]) * 10 + digit_val(s[3])
}

pub open spec fn date_month(s: Seq<char>) -> int {
    digit_val(s[5]) * 10 + digit_val(s[6])
}

pub open spec fn date_day(s: Seq<char>) -> int {
    digit_val(s[8]) * 10 + digit_val(s[9])
}

pub open spec fn is_leap_year(y: int) -> bool {
    y % 4 == 0 && (y % 100 != 0 || y % 400 == 0)
}

pub open spec fn days_in_month(y: int, m: int) -> int {
    if m == 2 {
        if is_leap_year(y) {
            29
        } else {
            28
        }
    } else if m == 4 || m == 6 || m == 9 || m == 11 {
        30
    } else {
        31
    }
}

/// A well-formed `YYYY-MM-DD` calendar date.
pub open spec fn valid_date(s: Seq<char>) -> bool {
    &&& s.len() == 10
    &&& is_digit(s[0]) && is_digit(s[1]) && is_digit(s[2]) && is_digit(s[3])
    &&& s[4] == '-' && s[7] == '-'
    &&& is_digit(s[5]) && is_digit(s[6]) && is_digit(s[8]) && is_digit(s[9])
    &&& 1 <= date_month(s) <= 12
    &&& 1 <= date_day(s) <= days_in_month(date_year(s), date_month(s))
}

pub open spec fn time_hour(s: Seq<char>) -> int {
    digit_val(s[0]) * 10 + digit_val(s[1])
}

pub open spec fn time_minute(s: Seq<char>) -> int {
    digit_val(s[3]) * 10 + digit_val(s[4])
}

pub open spec fn time_second(s: Seq<char>) -> int {
    digit_val(s[6]) * 10 + digit_val(s[7])
}

/// A well-formed `HH:MM:SS` time of day.
pub open spec fn valid_time(s: Seq<char>) -> bool {
    &&& s.len() == 8
    &&& is_digit(s[0]) && is_digit(s[1]) && is_digit(s[3]) && is_digit(s[4]) && is_digit(s[6])
        && is_digit(s[7])
    &&& s[2] == ':' && s[5] == ':'
    &&& time_hour(s) <= 23
    &&& time_minute(s) <= 59
    &&& time_second(s) <= 59
}

/// A well-formed `YYYY-MM-DD HH:MM:SS` stamp.
pub open spec fn valid_datetime(s: Seq<char>) -> bool {
    &&& s.len() == 19
    &&& valid_date(s.take(10))
    &&& s[10] == ' '
    &&& valid_time(s.skip(11))
}

/// Midnight is a valid time of day.
pub proof fn lemma_midnight_valid()
    ensures
        valid_time("00:00:00"@),
{
    reveal_strlit("00:00:00");
}

/// The components of a parsed date or date-time stamp.
pub struct DateTimeParts {
    pub year: u32,
    pub month: u32,
    pub day: u32,
    pub hour: u32,
    pub minute: u32,
    pub second: u32,
}

fn digit_at(v: &Vec<char>, i: usize) -> (r: Option<u32>)
    requires
        i < v@.len(),
    ensures
        match r {
            Some(d) => is_digit(v@[i as int]) && d == digit_val(v@[i as int]),
            None => !is_digit(v@[i as int]),
        },
{
    match crate::digits::char_to_digit(v[i]) {
        Some(d) => Some(d as u32),
        None => None,
    }
}

/// Parses a `YYYY-MM-DD` date, checking the real calendar ranges.
/// Returns `None` exactly when the text is not a valid date.
pub fn parse_date(s: &str) -> (r: Option<(u32, u32, u32)>)
    ensures
        match r {
            Some(p) => valid_date(s@) && p.0 == date_year(s@) && p.1 == date_month(s@) && p.2
                == date_day(s@),
            None => !valid_date(s@),
        },
{
    let cv = str_to_chars(s);
    if cv.len() != 10 {
        return None;
    }
    if !(cv[4] == '-' && cv[7] == '-') {
        return None;
    }
    let d0 = match digit_at(&cv, 0) {
        Some(d) => d,
        None => {
            return None;
        },
    };
    let d1 = match digit_at(&cv, 1) {
        Some(d) => d,
        None => {
            return None;
        },
    };
    let d2 = match digit_at(&cv, 2) {
        Some(d) => d,
        None => {
            return None;
        },
    };
    let d3 = match digit_at(&cv, 3) {
        Some(d) => d,
        None => {
            return None;
        },
    };
    let m0 = match digit_at(&cv, 5) {
        Some(d) => d,
        None => {
            return None;
        },
    };
    let m1 = match digit_at(&cv, 6) {
        Some(d) => d,
        None => {
            return None;
        },
    };
    let a0 = match digit_at(&cv, 8) {
        Some(d) => d,
        None => {
            return None;
        },
    };
    let a1 = match digit_at(&cv, 9) {
        Some(d) => d,
        None => {
            return None;
        },
    };
    let year = d0 * 1000 + d1 * 100 + d2 * 10 + d3;
    let month = m0 * 10 + m1;
    let day = a0 * 10 + a1;
    if month < 1 || month > 12 {
        return None;
    }
    let dim = days_in_month_of(year, month);
    if day < 1 || day > dim {
        return None;
    }
    Some((year, month, day))
}

/// The number of days in a month of the proleptic Gregorian calendar.
pub fn days_in_month_of(year: u32, month: u32) -> (r: u32)
    ensures
        r == days_in_month(year as int, month as int),
{
    if month == 2 {
        let leap = year % 4 == 0 && (year % 100 != 0 || year % 400 == 0);
        if leap {
            29
        } else {
            28
        }
    } else if month == 4 || month == 6 || month == 9 || month == 11 {
        30
    } else {
        31
    }
}

/// Parses an `HH:MM:SS` time of day.
/// Returns `None` exactly when the text is not a valid time.
pub fn parse_time(s: &str) -> (r: Option<(u32, u32, u32)>)
    ensures
        match r {
            Some(p) => valid_time(s@) && p.0 == time_hour(s@) && p.1 == time_minute(s@) && p.2
                == time_second(s@),
            None => !valid_time(s@),
        },
{
    let cv = str_to_chars(s);
    if cv.len() != 8 {
        return None;
    }
    if !(cv[2] == ':' && cv[5] == ':') {
        return None;
    }
    let h0 = match digit_at(&cv, 0) {
        Some(d) => d,
        None => {
            return None;
        },
    };
    let h1 = match digit_at(&cv, 1) {
        Some(d) => d,
        None => {
            return None;
        },
    };
    let m0 = match digit_at(&cv, 3) {
        Some(d) => d,
        None => {
            return None;
        },
    };
    let m1 = match digit_at(&cv, 4) {
        Some(d) => d,
        None => {
            return None;
        },
    };
    let s0 = match digit_at(&cv, 6) {
        Some(d) => d,
        None => {
            return None;
        },
    };
    let s1 = match digit_at(&cv, 7) {
        Some(d) => d,
        None => {
            return None;
        },
    };
    let hour = h0 * 10 + h1;
    let minute = m0 * 10 + m1;
    let second = s0 * 10 + s1;
    if hour > 23 || minute > 59 || second > 59 {
        return None;
    }
    Some((hour, minute, second))
}

/// Parses a `YYYY-MM-DD HH:MM:SS` stamp into its six components.
/// Returns `None` exactly when the text is not a valid stamp.
pub fn parse_datetime(s: &str) -> (r: Option<DateTimeParts>)
    ensures
        match r {
            Some(p) => valid_datetime(s@) && p.year == date_year(s@.take(10)) && p.month
                == date_month(s@.take(10)) && p.day == date_day(s@.take(10)) && p.hour == time_hour(
                s@.skip(11),
            ) && p.minute == time_minute(s@.skip(11)) && p.second == time_second(s@.skip(11)),
            None => !valid_datetime(s@),
        },
{
    let n = s.unicode_len();
    if n != 19 {
        return None;
    }
    if s.get_char(10) != ' ' {
        return None;
    }
    let date_part = s.substring_char(0, 10);
    let time_part = s.substring_char(11, 19);
    proof {
        assert(date_part@ =~= s@.take(10));
        assert(time_part@ =~= s@.skip(11));
    }
    let d = match parse_date(date_part) {
        Some(p) => p,
        None => {
            return None;
        },
    };
    let t = match parse_time(time_part) {
        Some(p) => p,
        None => {
            return None;
        },
    };
    Some(
        DateTimeParts {
            year: d.0,
            month: d.1,
            day: d.2,
            hour: t.0,
            minute: t.1,
            second: t.2,
        },
    )
}

} // verus!
