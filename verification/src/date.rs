//! Calendar dates as plain year/month/day values, with validity under the
//! Gregorian rules and a fixed `YYYY-MM-DD` text form.
use vstd::prelude::*;

use crate::text::push_char;

verus! {

/// A calendar date (no time of day).
#[derive(Clone, Copy, PartialEq, Eq, Structural, Debug)]
pub struct Date {
    pub year: u32,
    pub month: u8,
    pub day: u8,
}

/// Gregorian leap-year rule.
pub open spec fn spec_is_leap_year(y: u32) -> bool {
    (y % 4 == 0 && y % 100 != 0) || y % 400 == 0
}

/// Number of days in a month of a given year.
pub open spec fn spec_days_in_month(y: u32, m: u8) -> u8 {
    if m == 2 {
        if spec_is_leap_year(y) {
            29
        } else {
            28
        }
    } else if m == 4 || m == 6 || m == 9 || m == 11 {
        30
    } else {
        31
    }
}

/// A date is valid when its year is in range and its day exists in that
/// month of that year, leap years included.
pub open spec fn date_valid(d: Date) -> bool {
    &&& 1 <= d.year <= 9999
    &&& 1 <= d.month <= 12
    &&& 1 <= d.day <= spec_days_in_month(d.year, d.month)
}

/// The decimal digit character for `n` in `0 .. 10`.
pub open spec fn spec_digit(n: int) -> char {
    (48 + n) as char
}

/// `n` in `0 .. 100` as two zero-padded decimal digits.
pub open spec fn spec_two_digits(n: int) -> Seq<char> {
    seq![spec_digit(n / 10), spec_digit(n % 10)]
}

/// `n` in `0 .. 10000` as four zero-padded decimal digits.
pub open spec fn spec_four_digits(n: int) -> Seq<char> {
    seq![
        spec_digit(n / 1000),
        spec_digit((n / 100) % 10),
        spec_digit((n / 10) % 10),
        spec_digit(n % 10),
    ]
}

/// The `YYYY-MM-DD` form of a date.
pub open spec fn spec_iso_date(d: Date) -> Seq<char> {
    spec_four_digits(d.year as int) + seq!['-'] + spec_two_digits(d.month as int) + seq!['-']
        + spec_two_digits(d.day as int)
}

/// Executable twin of `spec_days_in_month`.
pub fn days_in_month(y: u32, m: u8) -> (r: u8)
    ensures
        r == spec_days_in_month(y, m),
{
    if m == 2 {
        if (y % 4 == 0 && y % 100 != 0) || y % 400 == 0 {
            29
        } else {
            28
        }
    } else if m == 4 || m == 6 || m == 9 || m == 11 {
        30
    } else {
        31
    }
}

impl Date {
    /// Builds a date, rejecting anything that is not a real calendar day.
    pub fn new(year: u32, month: u8, day: u8) -> (r: Option<Date>)
        ensures
            match r {
                Some(d) => d == (Date { year, month, day }) && date_valid(d),
                None => !date_valid(Date { year, month, day }),
            },
    {
        let d = Date { year, month, day };
        if 1 <= year && year <= 9999 && 1 <= month && month <= 12 && 1 <= day && day
            <= days_in_month(year, month) {
            Some(d)
        } else {
            None
        }
    }

    /// The date as `YYYY-MM-DD`, zero-padded.
    pub fn iso_string(&self) -> (r: String)
        requires
            date_valid(*self),
        ensures
            r@ == spec_iso_date(*self),
    {
        let mut out = String::new();
        push_digit(&mut out, self.year / 1000);
        push_digit(&mut out, (self.year / 100) % 10);
        push_digit(&mut out, (self.year / 10) % 10);
        push_digit(&mut out, self.year % 10);
        push_char(&mut out, '-');
        push_digit(&mut out, (self.month / 10) as u32);
        push_digit(&mut out, (self.month % 10) as u32);
        push_char(&mut out, '-');
        push_digit(&mut out, (self.day / 10) as u32);
        push_digit(&mut out, (self.day % 10) as u32);
        proof {
            assert(out@ =~= spec_iso_date(*self));
        }
        out
    }
}

/// Appends one decimal digit character.
fn push_digit(s: &mut String, n: u32)
    requires
        n < 10,
    ensures
        final(s)@ == old(s)@.push(spec_digit(n as int)),
{
    let b: u8 = 48 + (n as u8);
    push_char(s, b as char);
}

} // verus!
