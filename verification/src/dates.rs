//! Calendar dates as plain day counts.
//!
//! A `Date` holds a signed number of days since 1970-01-01 in the proleptic
//! Gregorian calendar, so that date arithmetic in the rest of the engine is
//! ordinary integer arithmetic.  Construction from a year/month/day triple is
//! verified against the closed-form civil-calendar conversion.

use vstd::prelude::*;

verus! {

/// Smallest day number a `Date` may hold.
pub const MIN_DAY: i64 = -300_000_000;

/// Largest day number a `Date` may hold.
pub const MAX_DAY: i64 = 300_000_000;

/// A calendar date, represented as days since 1970-01-01.
#[derive(Clone, Copy, PartialEq, Eq, Structural, Debug)]
pub struct Date {
    days: i64,
}

/// True for years with 366 days in the proleptic Gregorian calendar.
pub open spec fn spec_is_leap_year(y: int) -> bool {
    y % 4 == 0 && (y % 100 != 0 || y % 400 == 0)
}

/// Number of days in the given month of the given year.
pub open spec fn spec_days_in_month(y: int, m: int) -> int {
    if m == 2 {
        if spec_is_leap_year(y) {
            29
        } else {
            28
        }
    } else if m == 4 || m == 6 || m == 9 || m == 11 {
        30
    } else {
        31
    }
}

/// Day number of the civil date y-m-d, with day 0 at 1970-01-01.
///
/// This is the standard era-based conversion: years are regrouped into
/// 400-year eras starting in March, so that the leap day is the last day of
/// the shifted year.
pub open spec fn spec_day_number(y: int, m: int, d: int) -> int {
    let yy = if m <= 2 { y - 1 } else { y };
    let era = yy / 400;
    let yoe = yy - era * 400;
    let mp = if m > 2 { m - 3 } else { m + 9 };
    let doy = (153 * mp + 2) / 5 + d - 1;
    let doe = yoe * 365 + yoe / 4 - yoe / 100 + doy;
    era * 146097 + doe - 719468
}

impl Date {
    #[verifier::type_invariant]
    spec fn inv(self) -> bool {
        MIN_DAY <= self.days <= MAX_DAY
    }

    /// The day count this date stands for.
    pub closed spec fn day(self) -> int {
        self.days as int
    }

    /// Exposes the day count to executable callers.
    pub fn day_number(&self) -> (d: i64)
        ensures
            d == self.day(),
            MIN_DAY <= d <= MAX_DAY,
    {
        proof {
            use_type_invariant(self);
        }
        self.days
    }

    /// Builds a date directly from a day count, rejecting out-of-range values.
    pub fn from_day_number(days: i64) -> (r: Option<Date>)
        ensures
            match r {
                Some(date) => MIN_DAY <= days <= MAX_DAY && date.day() == days,
                None => !(MIN_DAY <= days <= MAX_DAY),
            },
    {
        if MIN_DAY <= days && days <= MAX_DAY {
            Some(Date { days })
        } else {
            None
        }
    }

    /// Builds the date for a valid civil year/month/day triple.
    pub fn from_ymd(year: i64, month: i64, day: i64) -> (r: Date)
        requires
            0 <= year <= 9999,
            1 <= month <= 12,
            1 <= day <= spec_days_in_month(year as int, month as int),
        ensures
            r.day() == spec_day_number(year as int, month as int, day as int),
    {
        let yy: i64 = if month <= 2 { year - 1 } else { year };
        let era: i64 = if yy >= 0 { ((yy as u64) / 400) as i64 } else { -1 };
        let yoe: i64 = yy - era * 400;
        let mp: i64 = if month > 2 { month - 3 } else { month + 9 };
        let doy: i64 = (((153 * (mp as u64)) + 2) / 5) as i64 + day - 1;
        let doe: i64 = yoe * 365 + ((yoe as u64) / 4) as i64 - ((yoe as u64) / 100) as i64 + doy;
        Date { days: era * 146097 + doe - 719468 }
    }

    /// Builds a date from a civil triple, rejecting invalid ones.
    pub fn try_from_ymd(year: i64, month: i64, day: i64) -> (r: Option<Date>)
        ensures
            match r {
                Some(date) => {
                    &&& 0 <= year <= 9999
                    &&& 1 <= month <= 12
                    &&& 1 <= day <= spec_days_in_month(year as int, month as int)
                    &&& date.day() == spec_day_number(year as int, month as int, day as int)
                },
                None => !{
                    &&& 0 <= year <= 9999
                    &&& 1 <= month <= 12
                    &&& 1 <= day <= spec_days_in_month(year as int, month as int)
                },
            },
    {
        if 0 <= year && year <= 9999 && 1 <= month && month <= 12 && 1 <= day
            && day <= days_in_month(year, month) {
            Some(Date::from_ymd(year, month, day))
        } else {
            None
        }
    }

    /// The date `n` days earlier.
    pub fn minus_days(self, n: u16) -> (r: Date)
        requires
            self.day() - n >= MIN_DAY,
        ensures
            r.day() == self.day() - n,
    {
        proof {
            use_type_invariant(&self);
        }
        Date { days: self.days - (n as i64) }
    }
}

/// True for years with 366 days.
pub fn is_leap_year(year: i64) -> (b: bool)
    requires
        0 <= year,
    ensures
        b == spec_is_leap_year(year as int),
{
    let y = year as u64;
    y % 4 == 0 && (y % 100 != 0 || y % 400 == 0)
}

/// Number of days in the given month.
pub fn days_in_month(year: i64, month: i64) -> (n: i64)
    requires
        0 <= year,
        1 <= month <= 12,
    ensures
        n == spec_days_in_month(year as int, month as int),
{
    if month == 2 {
        if is_leap_year(year) {
            29
        } else {
            28
        }
    } else if month == 4 || month == 6 || month == 9 || month == 11 {
        30
    } else {
        31
    }
}

} // verus!
