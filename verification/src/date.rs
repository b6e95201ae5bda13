//! Calendar dates as plain year/month/day values, with the proleptic
//! Gregorian rules the schedule engine needs: validity, ordering, the next
//! calendar day, and the day count since the Unix epoch.

use vstd::prelude::*;
use vstd::string::StrSliceExecFns;

use crate::error::Error;

verus! {

/// A calendar date with no time component.
#[derive(Clone, Copy, PartialEq, Eq, Structural, Debug)]
pub struct Date {
    pub year: u16,
    pub month: u8,
    pub day: u8,
}

/// A leap year in the proleptic Gregorian calendar.
pub open spec fn spec_is_leap_year(y: int) -> bool {
    y % 4 == 0 && (y % 100 != 0 || y % 400 == 0)
}

/// How many days the given month of the given year has.
pub open spec fn spec_days_in_month(y: int, m: int) -> int {
    if m == 2 {
        if spec_is_leap_year(y) {
            29
        } else {
            28
        }
    } else if m == 4 || m == 6 || m == 9 || m == 11 {
        30
    } else {
        31
    }
}

/// A well-formed date: the year is four digits at most and at least 1, and
/// month and day denote a real calendar day.
pub open spec fn date_valid(d: Date) -> bool {
    &&& 1 <= d.year <= 9999
    &&& 1 <= d.month <= 12
    &&& 1 <= d.day <= spec_days_in_month(d.year as int, d.month as int)
}

impl Date {
    pub fn new(year: u16, month: u8, day: u8) -> (r: Date)
        ensures
            r == (Date { year, month, day }),
    {
        Date { year, month, day }
    }
}

fn is_leap_year(y: u16) -> (r: bool)
    ensures
        r == spec_is_leap_year(y as int),
{
    y % 4 == 0 && (y % 100 != 0 || y % 400 == 0)
}

fn days_in_month(y: u16, m: u8) -> (r: u8)
    ensures
        r as int == spec_days_in_month(y as int, m as int),
{
    if m == 2 {
        if is_leap_year(y) {
            29
        } else {
            28
        }
    } else if m == 4 || m == 6 || m == 9 || m == 11 {
        30
    } else {
        31
    }
}

/// Checks that the fields denote a real calendar day.
pub fn check_date_valid(d: &Date) -> (r: bool)
    ensures
        r == date_valid(*d),
{
    1 <= d.year && d.year <= 9999 && 1 <= d.month && d.month <= 12 && 1 <= d.day
        && d.day <= days_in_month(d.year, d.month)
}

/// Strict calendar order: year first, then month, then day.
pub open spec fn date_lt(a: Date, b: Date) -> bool {
    ||| a.year < b.year
    ||| (a.year == b.year && a.month < b.month)
    ||| (a.year == b.year && a.month == b.month && a.day < b.day)
}

/// Non-strict calendar order.
pub open spec fn date_le(a: Date, b: Date) -> bool {
    date_lt(a, b) || a == b
}

impl Date {
    /// Strict comparison in calendar order.
    pub fn lt(&self, other: &Date) -> (r: bool)
        ensures
            r == date_lt(*self, *other),
    {
        self.year < other.year || (self.year == other.year && (self.month < other.month || (
        self.month == other.month && self.day < other.day)))
    }

    /// Non-strict comparison in calendar order.
    pub fn le(&self, other: &Date) -> (r: bool)
        ensures
            r == date_le(*self, *other),
    {
        self.year < other.year || (self.year == other.year && (self.month < other.month || (
        self.month == other.month && self.day <= other.day)))
    }

    /// The calendar day after this one, or nothing past the last
    /// representable day.
    pub fn next_day(&self) -> (r: Option<Date>)
        requires
            date_valid(*self),
        ensures
            r == spec_next_day(*self),
            r is Some ==> date_valid(r->Some_0),
    {
        if self.day < days_in_month(self.year, self.month) {
            Some(Date { year: self.year, month: self.month, day: self.day + 1 })
        } else if self.month < 12 {
            Some(Date { year: self.year, month: self.month + 1, day: 1 })
        } else if self.year < 9999 {
            Some(Date { year: self.year + 1, month: 1, day: 1 })
        } else {
            None
        }
    }
}

/// The calendar day after `d`, if it is representable.
pub open spec fn spec_next_day(d: Date) -> Option<Date> {
    if d.day < spec_days_in_month(d.year as int, d.month as int) {
        Some(Date { year: d.year, month: d.month, day: (d.day + 1) as u8 })
    } else if d.month < 12 {
        Some(Date { year: d.year, month: (d.month + 1) as u8, day: 1 })
    } else if d.year < 9999 {
        Some(Date { year: (d.year + 1) as u16, month: 1, day: 1 })
    } else {
        None
    }
}

/// Days from the Unix epoch (1970-01-01 is day 0) to `d`, negative for
/// earlier dates, by the usual era decomposition of the proleptic
/// Gregorian calendar.
pub open spec fn spec_epoch_days(d: Date) -> int {
    let y: int = if d.month <= 2 {
        d.year - 1
    } else {
        d.year as int
    };
    let era: int = y / 400;
    let yoe: int = y - era * 400;
    let mp: int = if d.month > 2 {
        d.month - 3
    } else {
        d.month + 9
    };
    let doy: int = (153 * mp + 2) / 5 + d.day - 1;
    let doe: int = yoe * 365 + yoe / 4 - yoe / 100 + doy;
    era * 146097 + doe - 719468
}

/// Computes `spec_epoch_days`, with the bounds the expiry arithmetic needs.
pub fn epoch_days(d: &Date) -> (r: i64)
    requires
        date_valid(*d),
    ensures
        r as int == spec_epoch_days(*d),
        -719469 <= r <= 2932897,
{
    let y: u64 = if d.month <= 2 {
        (d.year - 1) as u64
    } else {
        d.year as u64
    };
    let era: u64 = y / 400;
    let yoe: u64 = y - era * 400;
    let mp: u64 = if d.month > 2 {
        (d.month - 3) as u64
    } else {
        (d.month + 9) as u64
    };
    let doy: u64 = (153 * mp + 2) / 5 + (d.day - 1) as u64;
    let doe: u64 = yoe * 365 + yoe / 4 - yoe / 100 + doy;
    (era * 146097 + doe) as i64 - 719468
}

/// Value of the decimal digit `c`.
pub open spec fn spec_digit(c: char) -> int {
    c as int - '0' as int
}

/// Whether `c` is a decimal digit.
pub open spec fn spec_is_digit(c: char) -> bool {
    '0' as int <= c as int && c as int <= '9' as int
}

/// The two-digit number written at position `i`.
pub open spec fn spec_two_digits(s: Seq<char>, i: int) -> int {
    spec_digit(s[i]) * 10 + spec_digit(s[i + 1])
}

/// The one- or two-digit field (month or day) of width `w` at position `i`.
pub open spec fn spec_field(s: Seq<char>, i: int, w: int) -> Option<int> {
    if w == 1 {
        if spec_is_digit(s[i]) {
            Some(spec_digit(s[i]))
        } else {
            None
        }
    } else {
        if spec_is_digit(s[i]) && spec_is_digit(s[i + 1]) {
            Some(spec_two_digits(s, i))
        } else {
            None
        }
    }
}

/// The four-digit year at position `i`.
pub open spec fn spec_year_at(s: Seq<char>, i: int) -> Option<int> {
    if spec_is_digit(s[i]) && spec_is_digit(s[i + 1]) && spec_is_digit(s[i + 2]) && spec_is_digit(
        s[i + 3],
    ) {
        Some(spec_two_digits(s, i) * 100 + spec_two_digits(s, i + 2))
    } else {
        None
    }
}

/// Assembles a date from parsed month, day and year fields, keeping only
/// real calendar days.
pub open spec fn spec_date_fields(m: Option<int>, d: Option<int>, y: Option<int>) -> Option<Date> {
    match (m, d, y) {
        (Some(m), Some(d), Some(y)) => {
            let date = Date { year: y as u16, month: m as u8, day: d as u8 };
            if date_valid(date) {
                Some(date)
            } else {
                None
            }
        },
        _ => None,
    }
}

/// The date a raw text fragment denotes: a month of one or two digits, a
/// slash, a day of one or two digits, a slash, and a four-digit year,
/// together naming a real calendar day. Anything else is no date.
pub open spec fn spec_parse_date(s: Seq<char>) -> Option<Date> {
    if s.len() == 8 && s[1] == '/' && s[3] == '/' {
        spec_date_fields(spec_field(s, 0, 1), spec_field(s, 2, 1), spec_year_at(s, 4))
    } else if s.len() == 9 && s[1] == '/' && s[4] == '/' {
        spec_date_fields(spec_field(s, 0, 1), spec_field(s, 2, 2), spec_year_at(s, 5))
    } else if s.len() == 9 && s[2] == '/' && s[4] == '/' {
        spec_date_fields(spec_field(s, 0, 2), spec_field(s, 3, 1), spec_year_at(s, 5))
    } else if s.len() == 10 && s[2] == '/' && s[5] == '/' {
        spec_date_fields(spec_field(s, 0, 2), spec_field(s, 3, 2), spec_year_at(s, 6))
    } else {
        None
    }
}

/// The decimal value of the digit `c`, if it is one.
fn digit_of(s: &str, i: usize) -> (r: Option<u8>)
    requires
        i < s@.len(),
        s@.len() <= usize::MAX,
    ensures
        match r {
            Some(v) => spec_is_digit(s@[i as int]) && v as int == spec_digit(s@[i as int]) && v
                <= 9,
            None => !spec_is_digit(s@[i as int]),
        },
{
    let c = s.get_char(i);
    let v = c as u32;
    if 48 <= v && v <= 57 {
        Some((v - 48) as u8)
    } else {
        None
    }
}

/// Reads the month or day field of width `w` (1 or 2) at position `i`.
fn read_field(s: &str, i: usize, w: usize) -> (r: Option<u8>)
    requires
        1 <= w <= 2,
        i + w <= s@.len(),
        s@.len() <= usize::MAX,
    ensures
        match r {
            Some(v) => spec_field(s@, i as int, w as int) == Some(v as int),
            None => spec_field(s@, i as int, w as int) is None,
        },
{
    if w == 1 {
        digit_of(s, i)
    } else {
        match (digit_of(s, i), digit_of(s, i + 1)) {
            (Some(a), Some(b)) => Some(a * 10 + b),
            _ => None,
        }
    }
}

/// Reads the four-digit year at position `i`.
fn read_year(s: &str, i: usize) -> (r: Option<u16>)
    requires
        i + 4 <= s@.len(),
        s@.len() <= usize::MAX,
    ensures
        match r {
            Some(v) => spec_year_at(s@, i as int) == Some(v as int),
            None => spec_year_at(s@, i as int) is None,
        },
{
    match (digit_of(s, i), digit_of(s, i + 1), digit_of(s, i + 2), digit_of(s, i + 3)) {
        (Some(a), Some(b), Some(c), Some(d)) => Some(
            (a as u16 * 10 + b as u16) * 100 + (c as u16 * 10 + d as u16),
        ),
        _ => None,
    }
}

/// Assembles and validates the three parsed fields.
fn date_of_fields(m: Option<u8>, d: Option<u8>, y: Option<u16>) -> (r: Option<Date>)
    ensures
        r == spec_date_fields(
            match m {
                Some(v) => Some(v as int),
                None => None,
            },
            match d {
                Some(v) => Some(v as int),
                None => None,
            },
            match y {
                Some(v) => Some(v as int),
                None => None,
            },
        ),
{
    match (m, d, y) {
        (Some(m), Some(d), Some(y)) => {
            let date = Date { year: y, month: m, day: d };
            if check_date_valid(&date) {
                Some(date)
            } else {
                None
            }
        },
        _ => None,
    }
}

/// Checks that the character at `i` is a slash.
fn slash_at(s: &str, i: usize) -> (r: bool)
    requires
        i < s@.len(),
        s@.len() <= usize::MAX,
    ensures
        r == (s@[i as int] == '/'),
{
    s.get_char(i) == '/'
}

/// Parses a date written as month/day/4-digit-year, for example
/// `01/05/2024`. Fails with `ParseError` on any string that
/// `spec_parse_date` gives no date for.
pub fn parse_date(s: &str) -> (r: Result<Date, Error>)
    ensures
        match r {
            Ok(d) => spec_parse_date(s@) == Some(d) && date_valid(d),
            Err(e) => spec_parse_date(s@) is None && e == Error::ParseError,
        },
{
    let n = s.unicode_len();
    let parsed: Option<Date> = if n == 8 && slash_at(s, 1) && slash_at(s, 3) {
        date_of_fields(read_field(s, 0, 1), read_field(s, 2, 1), read_year(s, 4))
    } else if n == 9 && slash_at(s, 1) && slash_at(s, 4) {
        date_of_fields(read_field(s, 0, 1), read_field(s, 2, 2), read_year(s, 5))
    } else if n == 9 && slash_at(s, 2) && slash_at(s, 4) {
        date_of_fields(read_field(s, 0, 2), read_field(s, 3, 1), read_year(s, 5))
    } else if n == 10 && slash_at(s, 2) && slash_at(s, 5) {
        date_of_fields(read_field(s, 0, 2), read_field(s, 3, 2), read_year(s, 6))
    } else {
        None
    };
    match parsed {
        Some(d) => Ok(d),
        None => Err(Error::ParseError),
    }
}

} // verus!
