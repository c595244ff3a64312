//! Calendar dates as plain values, read and produced through `chrono`.

use chrono::Datelike;
use vstd::prelude::*;

verus! {

/// A calendar date (proleptic Gregorian), as `chrono::NaiveDate` holds one.
#[derive(Clone, Copy, Debug, PartialEq, Eq, Structural)]
pub struct Date {
    pub year: i32,
    pub month: u32,
    pub day: u32,
}

/// Smallest year `chrono::NaiveDate` can hold.
pub open spec fn min_year() -> int {
    -262143
}

/// Largest year `chrono::NaiveDate` can hold.
pub open spec fn max_year() -> int {
    262142
}

/// Gregorian leap year.
pub open spec fn is_leap_year(y: int) -> bool {
    (y % 4 == 0 && y % 100 != 0) || y % 400 == 0
}

/// Number of days of month `m` (1-based) in year `y`.
pub open spec fn days_in_month(y: int, m: int) -> int {
    if m == 2 {
        if is_leap_year(y) {
            29
        } else {
            28
        }
    } else if m == 4 || m == 6 || m == 9 || m == 11 {
        30
    } else {
        31
    }
}

/// A date that exists in the calendar and that `chrono` can represent.
pub open spec fn is_valid_date(d: Date) -> bool {
    &&& min_year() <= d.year <= max_year()
    &&& 1 <= d.month <= 12
    &&& 1 <= d.day <= days_in_month(d.year as int, d.month as int)
}

/// Days of the year before the first day of month `m`.
pub open spec fn days_before_month(y: int, m: int) -> int
    decreases m,
{
    if m <= 1 {
        0
    } else {
        days_before_month(y, m - 1) + days_in_month(y, m - 1)
    }
}

/// Zero-based day of the year (`Datelike::ordinal0`).
pub open spec fn spec_ordinal0(d: Date) -> int {
    days_before_month(d.year as int, d.month as int) + d.day - 1
}

proof fn lemma_days_before_month_bound(y: int, m: int)
    requires
        1 <= m <= 13,
    ensures
        0 <= days_before_month(y, m) <= 31 * (m - 1),
        m == 13 ==> days_before_month(y, m) == if is_leap_year(y) {
            366int
        } else {
            365int
        },
    decreases m,
{
    if m > 1 {
        lemma_days_before_month_bound(y, m - 1);
    }
    if m == 13 {
        reveal_with_fuel(days_before_month, 13);
    }
}

/// Leap year test on a machine year.
pub fn leap_year(y: i32) -> (r: bool)
    ensures
        r == is_leap_year(y as int),
{
    (y % 4 == 0 && y % 100 != 0) || y % 400 == 0
}

/// Number of days in month `m` of year `y`.
pub fn month_length(y: i32, m: u32) -> (r: u32)
    requires
        1 <= m <= 12,
    ensures
        r == days_in_month(y as int, m as int),
{
    if m == 2 {
        if leap_year(y) {
            29
        } else {
            28
        }
    } else if m == 4 || m == 6 || m == 9 || m == 11 {
        30
    } else {
        31
    }
}

impl Date {
    /// Zero-based day of the year.
    pub fn ordinal0(&self) -> (r: u32)
        requires
            is_valid_date(*self),
        ensures
            r == spec_ordinal0(*self),
            r <= 365,
    {
        let mut acc: u32 = 0;
        let mut m: u32 = 1;
        while m < self.month
            invariant
                is_valid_date(*self),
                1 <= m <= self.month,
                acc == days_before_month(self.year as int, m as int),
                acc <= 31 * (m - 1),
            decreases self.month - m,
        {
            acc = acc + month_length(self.year, m);
            m = m + 1;
        }
        proof {
            lemma_days_before_month_bound(self.year as int, 13);
            lemma_days_before_month_mono(self.year as int, self.month as int + 1, 13);
        }
        acc + self.day - 1
    }

    /// The last day of this date's month.
    pub fn last_day_of_month(&self) -> (r: Date)
        requires
            1 <= self.month <= 12,
        ensures
            r == (Date {
                year: self.year,
                month: self.month,
                day: days_in_month(self.year as int, self.month as int) as u32,
            }),
    {
        Date { year: self.year, month: self.month, day: month_length(self.year, self.month) }
    }
}

proof fn lemma_days_before_month_mono(y: int, a: int, b: int)
    requires
        1 <= a <= b,
    ensures
        days_before_month(y, a) <= days_before_month(y, b),
    decreases b - a,
{
    if a < b {
        lemma_days_before_month_mono(y, a, b - 1);
    }
}

/// What `<NaiveDate as FromStr>::from_str` reads from a text (`%Y-%m-%d`,
/// with optional spaces around the separators).
pub uninterp spec fn naive_date_from_str(s: Seq<char>) -> Option<Date>;

/// Calls `str::parse::<chrono::NaiveDate>`; the result is named
/// `naive_date_from_str`. A date `chrono` gives back exists in the calendar.
#[verifier::external_body]
pub(crate) fn parse_date(s: &str) -> (r: Option<Date>)
    ensures
        r == naive_date_from_str(s@),
        r matches Some(d) ==> is_valid_date(d),
{
    match s.parse::<chrono::NaiveDate>() {
        Ok(d) => Some(Date { year: d.year(), month: d.month(), day: d.day() }),
        Err(_) => None,
    }
}

/// What `NaiveDate::parse_from_str(s, "%Y-%m-%d")` reads from a text.
pub uninterp spec fn naive_date_from_iso(s: Seq<char>) -> Option<Date>;

/// Calls `chrono::NaiveDate::parse_from_str` with the format `%Y-%m-%d`;
/// the result is named `naive_date_from_iso`.
#[verifier::external_body]
pub(crate) fn parse_iso_date(s: &str) -> (r: Option<Date>)
    ensures
        r == naive_date_from_iso(s@),
        r matches Some(d) ==> is_valid_date(d),
{
    match chrono::NaiveDate::parse_from_str(s, "%Y-%m-%d") {
        Ok(d) => Some(Date { year: d.year(), month: d.month(), day: d.day() }),
        Err(_) => None,
    }
}

/// Today's date in UTC (`chrono::Utc::now().date_naive()`). It depends on the
/// clock: only that it is a valid date is stated.
#[verifier::external_body]
pub(crate) fn today() -> (r: Date)
    ensures
        is_valid_date(r),
{
    let d = chrono::Utc::now().date_naive();
    Date { year: d.year(), month: d.month(), day: d.day() }
}

} // verus!
