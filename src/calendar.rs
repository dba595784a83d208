//! Calendar dates of commit timestamps.

use vstd::prelude::*;
use crate::numeral::{abs, padded_digits, push_digits};
use crate::text::push_char;

verus! {

/// A day of the proleptic Gregorian calendar.
#[derive(PartialEq, Eq, Structural, Clone, Copy, Debug)]
pub struct CalendarDate {
    pub year: i32,
    /// 1 to 12.
    pub month: u32,
    /// 1 to 31.
    pub day: u32,
}

/// The day number, counted from 1970-01-01, on which a Unix timestamp falls.
pub open spec fn day_number(secs: int) -> int {
    secs / 86400
}

/// The UTC (year, month, day) of a day number, when the calendar reaches it.
pub uninterp spec fn utc_date_of_day(day: int) -> Option<(int, int, int)>;

/// Relies on chrono's `NaiveDateTime::from_timestamp_opt`: the UTC date of a Unix
/// timestamp, which depends on its day number alone; `None` when out of chrono's range.
#[verifier::external_body]
#[allow(deprecated)]
fn utc_date(secs: i64) -> (r: Option<CalendarDate>)
    ensures
        match r {
            Some(d) => {
                &&& utc_date_of_day(day_number(secs as int)) == Some(
                    (d.year as int, d.month as int, d.day as int),
                )
                &&& 1 <= d.month <= 12
                &&& 1 <= d.day <= 31
            },
            None => utc_date_of_day(day_number(secs as int)) is None,
        },
{
    match chrono::NaiveDateTime::from_timestamp_opt(secs, 0) {
        Some(t) => Some(
            CalendarDate {
                year: chrono::Datelike::year(&t),
                month: chrono::Datelike::month(&t),
                day: chrono::Datelike::day(&t),
            },
        ),
        None => None,
    }
}

/// The date of a Unix timestamp, in UTC.
pub open spec fn date_of_timestamp(secs: int) -> Option<CalendarDate> {
    match utc_date_of_day(day_number(secs)) {
        Some((y, m, d)) => Some(CalendarDate { year: y as i32, month: m as u32, day: d as u32 }),
        None => None,
    }
}

/// The calendar date (UTC) on which a Unix timestamp falls.
pub fn timestamp_date(secs: i64) -> (r: Option<CalendarDate>)
    ensures
        r == date_of_timestamp(secs as int),
        r matches Some(d) ==> 1 <= d.month <= 12 && 1 <= d.day <= 31,
{
    utc_date(secs)
}

/// `YYYY-MM-DD`: the year zero-padded to four digits, with a sign when it is outside
/// 0 to 9999, then the month and the day on two digits each.
pub open spec fn date_text(d: CalendarDate) -> Seq<char> {
    let year = if 0 <= d.year <= 9999 {
        padded_digits(d.year as nat, 4)
    } else if d.year < 0 {
        seq!['-'] + padded_digits(abs(d.year as int), 4)
    } else {
        seq!['+'] + padded_digits(d.year as nat, 4)
    };
    year + seq!['-'] + padded_digits(d.month as nat, 2) + seq!['-'] + padded_digits(
        d.day as nat,
        2,
    )
}

impl CalendarDate {
    /// The date written `YYYY-MM-DD`.
    #[verifier::rlimit(40)]
    pub fn to_text(&self) -> (s: String)
        ensures
            s@ == date_text(*self),
    {
        let mut s = String::new();
        if self.year < 0 {
            push_char(&mut s, '-');
            let y: i64 = -(self.year as i64);
            push_digits(&mut s, y as u64, 4);
        } else {
            if self.year > 9999 {
                push_char(&mut s, '+');
            }
            push_digits(&mut s, self.year as u64, 4);
        }
        let ghost year = s@;
        push_char(&mut s, '-');
        push_digits(&mut s, self.month as u64, 2);
        push_char(&mut s, '-');
        push_digits(&mut s, self.day as u64, 2);
        assert(year =~= date_text(*self).take(year.len() as int)) by {
            if self.year < 0 {
                assert(year =~= seq!['-'] + padded_digits(abs(self.year as int), 4));
            } else if self.year > 9999 {
                assert(year =~= seq!['+'] + padded_digits(self.year as nat, 4));
            }
        }
        assert(s@ =~= date_text(*self));
        s
    }
}

} // verus!
