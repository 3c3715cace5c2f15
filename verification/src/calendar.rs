//! The proleptic Gregorian calendar: days since 1970-01-01 to dates.

use vstd::prelude::*;

verus! {

/// A calendar date.
#[derive(Clone, Copy, Debug, PartialEq, Eq, Structural)]
pub struct Date {
    pub year: u64,
    pub month: u64,
    pub day: u64,
}

pub open spec fn is_leap(y: int) -> bool {
    y % 4 == 0 && (y % 100 != 0 || y % 400 == 0)
}

pub open spec fn days_in_month(y: int, m: int) -> int {
    if m == 2 {
        if is_leap(y) {
            29
        } else {
            28
        }
    } else if m == 4 || m == 6 || m == 9 || m == 11 {
        30
    } else {
        31
    }
}

pub open spec fn days_in_year(y: int) -> int {
    if is_leap(y) {
        366
    } else {
        365
    }
}

/// Days of the years 1970 up to, not including, `y`.
pub open spec fn days_before_year(y: int) -> int
    decreases y - 1970,
{
    if y <= 1970 {
        0
    } else {
        days_before_year(y - 1) + days_in_year(y - 1)
    }
}

/// Days of the months of year `y` before month `m`.
pub open spec fn days_before_month(y: int, m: int) -> int
    decreases m,
{
    if m <= 1 {
        0
    } else {
        days_before_month(y, m - 1) + days_in_month(y, m - 1)
    }
}

impl Date {
    /// A date that exists, from 1970 on.
    pub open spec fn valid(self) -> bool {
        &&& 1970 <= self.year
        &&& 1 <= self.month <= 12
        &&& 1 <= self.day <= days_in_month(self.year as int, self.month as int)
    }

    /// Days from 1970-01-01 to this date.
    pub open spec fn day_number(self) -> int {
        days_before_year(self.year as int) + days_before_month(self.year as int, self.month as int)
            + self.day - 1
    }
}

/// The date that lies `days` days after 1970-01-01.
pub open spec fn date_of(days: int) -> Date {
    choose|d: Date| #[trigger] d.valid() && d.day_number() == days
}

/// Days before the first of March of year `y`, counted from March of year 0.
spec fn march_days(y: int) -> int {
    365 * y + y / 4 - y / 100 + y / 400
}

proof fn lemma_days_before_year(y: int)
    requires
        y >= 1970,
    ensures
        days_before_year(y) == 365 * y + (y - 1) / 4 - (y - 1) / 100 + (y - 1) / 400 - 719527,
    decreases y,
{
    if y > 1970 {
        lemma_days_before_year(y - 1);
        let p = y - 1;
        assert(p / 4 - (p - 1) / 4 == (if p % 4 == 0 { 1int } else { 0 }));
        assert(p / 100 - (p - 1) / 100 == (if p % 100 == 0 { 1int } else { 0 }));
        assert(p / 400 - (p - 1) / 400 == (if p % 400 == 0 { 1int } else { 0 }));
    }
}

proof fn lemma_days_before_month(y: int, m: int)
    requires
        1 <= m <= 13,
    ensures
        days_before_month(y, m) == if m <= 2 {
            31 * (m - 1)
        } else {
            59 + (if is_leap(y) { 1int } else { 0 }) + (153 * (m - 3) + 2) / 5
        },
    decreases m,
{
    if m > 1 {
        lemma_days_before_month(y, m - 1);
    }
}

/// The day number in terms of years that begin in March.
proof fn lemma_march_day_number(d: Date, my: int, mp: int)
    requires
        d.year >= 1970,
        1 <= d.month <= 12,
        d.month > 2 ==> my == d.year && mp == d.month - 3,
        d.month <= 2 ==> my == d.year - 1 && mp == d.month + 9,
    ensures
        d.day_number() == march_days(my) + (153 * mp + 2) / 5 + d.day - 1 - 719468,
{
    let y = d.year as int;
    lemma_days_before_year(y);
    lemma_days_before_month(y, d.month as int);
    assert(y / 4 - (y - 1) / 4 == (if y % 4 == 0 { 1int } else { 0 }));
    assert(y / 100 - (y - 1) / 100 == (if y % 100 == 0 { 1int } else { 0 }));
    assert(y / 400 - (y - 1) / 400 == (if y % 400 == 0 { 1int } else { 0 }));
}

/// The year within its era of 400 that holds day `doe` of the era.
proof fn lemma_year_of_era(doe: int, yoe: int)
    requires
        0 <= doe < 146097,
        yoe == (doe - doe / 1460 + doe / 36524 - doe / 146096) / 365,
    ensures
        0 <= yoe < 400,
        0 <= doe - (365 * yoe + yoe / 4 - yoe / 100) <= 365,
        doe - (365 * yoe + yoe / 4 - yoe / 100) == 365 ==> (yoe % 4 == 3 && (yoe % 100 != 99
            || yoe == 399)),
{
}

proof fn lemma_years_grow(a: int, b: int)
    requires
        1970 <= a < b,
    ensures
        days_before_year(a) + days_in_year(a) <= days_before_year(b),
    decreases b,
{
    if a < b - 1 {
        lemma_years_grow(a, b - 1);
    }
}

/// A date lies inside its year.
proof fn lemma_day_in_year(d: Date)
    requires
        d.valid(),
    ensures
        days_before_year(d.year as int) <= d.day_number() < days_before_year(d.year as int)
            + days_in_year(d.year as int),
{
    lemma_days_before_month(d.year as int, d.month as int);
    lemma_days_before_month(d.year as int, d.month + 1);
    lemma_days_before_month(d.year as int, 13);
}

/// Different dates have different day numbers, so a day number is the name of
/// one date.
pub proof fn lemma_day_number_is_unique(a: Date, b: Date)
    requires
        a.valid(),
        b.valid(),
        a.day_number() == b.day_number(),
    ensures
        a == b,
{
    lemma_day_in_year(a);
    lemma_day_in_year(b);
    if a.year < b.year {
        lemma_years_grow(a.year as int, b.year as int);
    } else if b.year < a.year {
        lemma_years_grow(b.year as int, a.year as int);
    }
    let y = a.year as int;
    lemma_days_before_month(y, a.month as int);
    lemma_days_before_month(y, a.month + 1);
    lemma_days_before_month(y, b.month as int);
    lemma_days_before_month(y, b.month + 1);
}

/// Every day from 1970-01-01 on is a date.
pub proof fn lemma_date_exists(days: int)
    requires
        0 <= days <= 0xffff_ffff_ffff,
    ensures
        date_of(days).valid(),
        date_of(days).day_number() == days,
{
    let z = days + 719_468;
    let era = z / 146_097;
    let doe = z % 146_097;
    let yoe = (doe - doe / 1460 + doe / 36_524 - doe / 146_096) / 365;
    lemma_year_of_era(doe, yoe);
    let doy = doe - (365 * yoe + yoe / 4 - yoe / 100);
    let mp = (5 * doy + 2) / 153;
    let day = doy - (153 * mp + 2) / 5 + 1;
    let month = if mp < 10 {
        mp + 3
    } else {
        mp - 9
    };
    let my = yoe + era * 400;
    let year = if month <= 2 {
        my + 1
    } else {
        my
    };
    let date = Date { year: year as u64, month: month as u64, day: day as u64 };
    assert(my / 4 == 100 * era + yoe / 4);
    assert(my / 100 == 4 * era + yoe / 100);
    assert(my / 400 == era);
    assert(march_days(my) == 146_097 * era + 365 * yoe + yoe / 4 - yoe / 100);
    lemma_march_day_number(date, my, mp);
    assert(date.valid());
}

/// A later day is a later date: by year, then month, then day of the month.
pub proof fn lemma_dates_grow(a: Date, b: Date)
    requires
        a.valid(),
        b.valid(),
        a.day_number() < b.day_number(),
    ensures
        a.year < b.year || (a.year == b.year && (a.month < b.month || (a.month == b.month && a.day
            < b.day))),
{
    lemma_day_in_year(a);
    lemma_day_in_year(b);
    if b.year < a.year {
        lemma_years_grow(b.year as int, a.year as int);
    }
    let y = a.year as int;
    lemma_days_before_month(y, a.month as int);
    lemma_days_before_month(y, a.month + 1);
    lemma_days_before_month(y, b.month as int);
    lemma_days_before_month(y, b.month + 1);
}

/// Days from 1970-01-01 to the end of the year 9999.
pub const DAYS_TO_10000: u64 = 2_932_897;

/// Up to the end of the year 9999 a year has four digits.
pub proof fn lemma_four_digit_years(d: Date)
    requires
        d.valid(),
        d.day_number() < DAYS_TO_10000,
    ensures
        1970 <= d.year <= 9999,
{
    lemma_day_in_year(d);
    lemma_days_before_year(10000);
    if d.year > 10000 {
        lemma_years_grow(10000, d.year as int);
    }
}

/// The date `days` days after 1970-01-01.
pub fn civil_date(days: u64) -> (date: Date)
    requires
        days <= 0xffff_ffff_ffff,
    ensures
        date.valid(),
        date.day_number() == days,
        date == date_of(days as int),
{
    proof {
        lemma_date_exists(days as int);
    }
    let z: u64 = days + 719_468;
    let era: u64 = z / 146_097;
    let doe: u64 = z % 146_097;
    let yoe: u64 = (doe - doe / 1460 + doe / 36_524 - doe / 146_096) / 365;
    proof {
        lemma_year_of_era(doe as int, yoe as int);
    }
    let doy: u64 = doe - (365 * yoe + yoe / 4 - yoe / 100);
    let mp: u64 = (5 * doy + 2) / 153;
    let day: u64 = doy - (153 * mp + 2) / 5 + 1;
    let month: u64 = if mp < 10 {
        mp + 3
    } else {
        mp - 9
    };
    let march_year: u64 = yoe + era * 400;
    let year: u64 = if month <= 2 {
        march_year + 1
    } else {
        march_year
    };
    let date = Date { year, month, day };
    proof {
        let my = march_year as int;
        assert(my / 4 == 100 * era + yoe / 4);
        assert(my / 100 == 4 * era + yoe / 100);
        assert(my / 400 == era);
        assert(march_days(my) == 146_097 * era + 365 * yoe + yoe / 4 - yoe / 100);
        lemma_march_day_number(date, my, mp as int);
        lemma_day_number_is_unique(date, date_of(days as int));
    }
    date
}

} // verus!
