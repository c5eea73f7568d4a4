//! Calendar dates in `YYYY-MM-DD` form: parsing, formatting, and the
//! successor-day computation used to turn an inclusive day range into the
//! lexicographic bounds that the aggregation queries compare timestamps
//! against.

use crate::strings::dec_digit;
use crate::strings::push_char;
use vstd::prelude::*;
use vstd::string::*;

verus! {

/// A calendar date. Valid dates (see [`valid_date`]) have a four-digit year,
/// so that formatting is fixed-width and string comparison of formatted dates
/// coincides with chronological order.
#[derive(Clone, Copy, PartialEq, Eq, Structural, Debug)]
pub struct Date {
    pub year: u32,
    pub month: u32,
    pub day: u32,
}

pub open spec fn is_leap_year(y: int) -> bool {
    y % 4 == 0 && (y % 100 != 0 || y % 400 == 0)
}

pub open spec fn days_in_month(y: int, m: int) -> int {
    if m == 2 {
        if is_leap_year(y) {
            29
        } else {
            28
        }
    } else if m == 4 || m == 6 || m == 9 || m == 11 {
        30
    } else {
        31
    }
}

pub open spec fn valid_date(d: Date) -> bool {
    &&& 1 <= d.year <= 9999
    &&& 1 <= d.month <= 12
    &&& 1 <= d.day <= days_in_month(d.year as int, d.month as int)
}

/// The calendar successor of a date.
pub open spec fn spec_next_day(d: Date) -> Date {
    if d.day < days_in_month(d.year as int, d.month as int) {
        Date { year: d.year, month: d.month, day: (d.day + 1) as u32 }
    } else if d.month < 12 {
        Date { year: d.year, month: (d.month + 1) as u32, day: 1 }
    } else {
        Date { year: (d.year + 1) as u32, month: 1, day: 1 }
    }
}

fn days_in_month_exec(year: u32, month: u32) -> (r: u32)
    requires
        1 <= month <= 12,
    ensures
        r == days_in_month(year as int, month as int),
{
    if month == 2 {
        if year % 4 == 0 && (year % 100 != 0 || year % 400 == 0) {
            29
        } else {
            28
        }
    } else if month == 4 || month == 6 || month == 9 || month == 11 {
        30
    } else {
        31
    }
}

/// The day after `d`. The last representable date is excluded so that the
/// result still formats as four year digits.
pub fn next_day(d: Date) -> (r: Date)
    requires
        valid_date(d),
        !(d.year == 9999 && d.month == 12 && d.day == 31),
    ensures
        r == spec_next_day(d),
        valid_date(r),
{
    let dim = days_in_month_exec(d.year, d.month);
    if d.day < dim {
        Date { year: d.year, month: d.month, day: d.day + 1 }
    } else if d.month < 12 {
        Date { year: d.year, month: d.month + 1, day: 1 }
    } else {
        Date { year: d.year + 1, month: 1, day: 1 }
    }
}

pub open spec fn is_digit(c: char) -> bool {
    48 <= (c as u32) <= 57
}

pub open spec fn digit_val(c: char) -> int {
    (c as u32) - 48
}

/// A well-formed `YYYY-MM-DD` argument: ten characters, digits and dashes in
/// the fixed positions.
pub open spec fn date_str_wf(s: Seq<char>) -> bool {
    &&& s.len() == 10
    &&& is_digit(s[0])
    &&& is_digit(s[1])
    &&& is_digit(s[2])
    &&& is_digit(s[3])
    &&& s[4] == '-'
    &&& is_digit(s[5])
    &&& is_digit(s[6])
    &&& s[7] == '-'
    &&& is_digit(s[8])
    &&& is_digit(s[9])
}

/// The date a well-formed `YYYY-MM-DD` string denotes.
pub open spec fn parsed_date(s: Seq<char>) -> Date {
    Date {
        year: (1000 * digit_val(s[0]) + 100 * digit_val(s[1]) + 10 * digit_val(s[2]) + digit_val(
            s[3],
        )) as u32,
        month: (10 * digit_val(s[5]) + digit_val(s[6])) as u32,
        day: (10 * digit_val(s[8]) + digit_val(s[9])) as u32,
    }
}

fn digit_of(c: char) -> (r: Option<u32>)
    ensures
        r is Some <==> is_digit(c),
        r is Some ==> r.unwrap() == digit_val(c),
{
    let v = c as u32;
    if 48 <= v && v <= 57 {
        Some(v - 48)
    } else {
        None
    }
}

/// Parse a strict `YYYY-MM-DD` date argument. Returns the date exactly when
/// the string is well-formed and denotes a valid calendar date.
pub fn parse_date(s: &str) -> (r: Option<Date>)
    ensures
        r is Some <==> date_str_wf(s@) && valid_date(parsed_date(s@)),
        r is Some ==> r.unwrap() == parsed_date(s@),
{
    let len = s.unicode_len();
    if len != 10 {
        return None;
    }
    if s.get_char(4) != '-' || s.get_char(7) != '-' {
        return None;
    }
    let d0 = match digit_of(s.get_char(0)) {
        Some(v) => v,
        None => {
            return None;
        },
    };
    let d1 = match digit_of(s.get_char(1)) {
        Some(v) => v,
        None => {
            return None;
        },
    };
    let d2 = match digit_of(s.get_char(2)) {
        Some(v) => v,
        None => {
            return None;
        },
    };
    let d3 = match digit_of(s.get_char(3)) {
        Some(v) => v,
        None => {
            return None;
        },
    };
    let m0 = match digit_of(s.get_char(5)) {
        Some(v) => v,
        None => {
            return None;
        },
    };
    let m1 = match digit_of(s.get_char(6)) {
        Some(v) => v,
        None => {
            return None;
        },
    };
    let a0 = match digit_of(s.get_char(8)) {
        Some(v) => v,
        None => {
            return None;
        },
    };
    let a1 = match digit_of(s.get_char(9)) {
        Some(v) => v,
        None => {
            return None;
        },
    };
    let year = 1000 * d0 + 100 * d1 + 10 * d2 + d3;
    let month = 10 * m0 + m1;
    let day = 10 * a0 + a1;
    let d = Date { year, month, day };
    if year < 1 || month < 1 || month > 12 {
        return None;
    }
    if day < 1 || day > days_in_month_exec(year, month) {
        return None;
    }
    Some(d)
}

/// The fixed-width rendering of a valid date, `YYYY-MM-DD`.
pub open spec fn date_seq(d: Date) -> Seq<char> {
    let y = d.year as int;
    let m = d.month as int;
    let a = d.day as int;
    seq![
        dec_digit(y / 1000),
        dec_digit((y / 100) % 10),
        dec_digit((y / 10) % 10),
        dec_digit(y % 10),
        '-',
        dec_digit(m / 10),
        dec_digit(m % 10),
        '-',
        dec_digit(a / 10),
        dec_digit(a % 10),
    ]
}

fn push_digit(s: &mut String, v: u32)
    requires
        v < 10,
    ensures
        final(s)@ == old(s)@.push(dec_digit(v as int)),
{
    let c: char = crate::strings::digit_char(v as u64);
    push_char(s, c);
}

pub fn format_date(d: Date) -> (r: String)
    requires
        valid_date(d),
    ensures
        r@ == date_seq(d),
{
    let mut r = String::new();
    push_digit(&mut r, d.year / 1000);
    push_digit(&mut r, (d.year / 100) % 10);
    push_digit(&mut r, (d.year / 10) % 10);
    push_digit(&mut r, d.year % 10);
    push_char(&mut r, '-');
    push_digit(&mut r, d.month / 10);
    push_digit(&mut r, d.month % 10);
    push_char(&mut r, '-');
    push_digit(&mut r, d.day / 10);
    push_digit(&mut r, d.day % 10);
    proof {
        assert(r@ =~= date_seq(d));
    }
    r
}

/// Turn an inclusive `YYYY-MM-DD` day range into the bounds the store
/// queries compare timestamps against: the start day itself and the day
/// after the end day. Lexicographically, `since <= t <= next_day(until)`
/// then admits exactly the timestamps from the start of `since` through the
/// end of `until`.
pub fn normalize_range(since: &str, until: &str) -> (r: Option<(String, String)>)
    ensures
        r is Some <==> ({
            &&& date_str_wf(since@)
            &&& valid_date(parsed_date(since@))
            &&& date_str_wf(until@)
            &&& valid_date(parsed_date(until@))
            &&& parsed_date(until@) != (Date { year: 9999, month: 12, day: 31 })
        }),
        r is Some ==> r.unwrap().0@ == since@ && r.unwrap().1@ == date_seq(
            spec_next_day(parsed_date(until@)),
        ),
{
    let s = match parse_date(since) {
        Some(d) => d,
        None => {
            return None;
        },
    };
    let u = match parse_date(until) {
        Some(d) => d,
        None => {
            return None;
        },
    };
    if u.year == 9999 && u.month == 12 && u.day == 31 {
        return None;
    }
    let next = next_day(u);
    Some((since.to_owned(), format_date(next)))
}

} // verus!
