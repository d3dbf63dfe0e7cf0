//! The proleptic Gregorian calendar as arithmetic on integers.
//!
//! Every date of the calendar has a day number: 1 for January 1 of year 1,
//! counting up and down without gaps. Year 0 is the year before year 1.
//! The day number taken modulo 7 is the weekday counted from Sunday.

use vstd::prelude::*;

verus! {

/// The first year that a [`crate::date::Date`] can hold.
pub const MIN_YEAR: i32 = -262143;

/// The last year that a [`crate::date::Date`] can hold.
pub const MAX_YEAR: i32 = 262142;

/// The day number of January 1 of [`MIN_YEAR`].
pub const MIN_DAY: i32 = -95746129;

/// The day number of December 31 of [`MAX_YEAR`].
pub const MAX_DAY: i32 = 95745399;

/// Whether `year` has a February 29.
pub open spec fn is_leap_year(year: int) -> bool {
    year % 4 == 0 && (year % 100 != 0 || year % 400 == 0)
}

/// The number of days of `year`.
pub open spec fn days_in_year(year: int) -> int {
    if is_leap_year(year) {
        366
    } else {
        365
    }
}

/// The number of days of month `month` (1 to 12) of `year`.
pub open spec fn days_in_month(year: int, month: int) -> int {
    if month == 2 {
        if is_leap_year(year) {
            29
        } else {
            28
        }
    } else if month == 4 || month == 6 || month == 9 || month == 11 {
        30
    } else {
        31
    }
}

/// The number of days between January 1 of year 1 and January 1 of `year`:
/// negative for the years before year 1.
#[verifier::opaque]
pub open spec fn days_before_year(year: int) -> int {
    365 * (year - 1) + (year - 1) / 4 - (year - 1) / 100 + (year - 1) / 400
}

/// The number of days of `year` that lie before the first day of `month`.
pub open spec fn days_before_month(year: int, month: int) -> int
    decreases month,
{
    if month <= 1 {
        0
    } else {
        days_before_month(year, month - 1) + days_in_month(year, month - 1)
    }
}

/// Whether the calendar has a day `day` in month `month` of `year`.
pub open spec fn is_calendar_date(year: int, month: int, day: int) -> bool {
    1 <= month <= 12 && 1 <= day <= days_in_month(year, month)
}

/// Whether year, month and day name a calendar date in the years from
/// [`MIN_YEAR`] to [`MAX_YEAR`].
pub open spec fn is_date(year: int, month: int, day: int) -> bool {
    is_calendar_date(year, month, day) && MIN_YEAR <= year <= MAX_YEAR
}

/// The day number of a calendar date.
pub open spec fn day_number(year: int, month: int, day: int) -> int {
    days_before_year(year) + days_before_month(year, month) + day
}

/// The weekday of the day with number `n`: 0 for Sunday, 6 for Saturday.
pub open spec fn weekday_of(n: int) -> int {
    n % 7
}

/// The day number of the Sunday on or before the day with number `n`.
pub open spec fn week_start(n: int) -> int {
    n - weekday_of(n)
}

/// Whether the day with number `n` lies in the years from [`MIN_YEAR`] to
/// [`MAX_YEAR`].
pub open spec fn day_in_range(n: int) -> bool {
    MIN_DAY <= n <= MAX_DAY
}

/// The days before each month, month by month.
pub proof fn lemma_days_before_month(year: int)
    ensures
        days_before_month(year, 1) == 0,
        days_before_month(year, 2) == 31,
        days_before_month(year, 3) == 31 + days_in_month(year, 2),
        days_before_month(year, 4) == 62 + days_in_month(year, 2),
        days_before_month(year, 5) == 92 + days_in_month(year, 2),
        days_before_month(year, 6) == 123 + days_in_month(year, 2),
        days_before_month(year, 7) == 153 + days_in_month(year, 2),
        days_before_month(year, 8) == 184 + days_in_month(year, 2),
        days_before_month(year, 9) == 215 + days_in_month(year, 2),
        days_before_month(year, 10) == 245 + days_in_month(year, 2),
        days_before_month(year, 11) == 276 + days_in_month(year, 2),
        days_before_month(year, 12) == 306 + days_in_month(year, 2),
        days_before_month(year, 13) == days_in_year(year),
{
    reveal_with_fuel(days_before_month, 14);
}

/// Counting the multiples of 4, of 100 and of 400 up to a year: one more
/// than up to the year before exactly when the year is such a multiple.
proof fn lemma_multiples(year: int)
    ensures
        year / 4 - (year - 1) / 4 == if year % 4 == 0 { 1int } else { 0int },
        year / 100 - (year - 1) / 100 == if year % 100 == 0 { 1int } else { 0int },
        year / 400 - (year - 1) / 400 == if year % 400 == 0 { 1int } else { 0int },
        year % 400 == 0 ==> year % 100 == 0,
        year % 100 == 0 ==> year % 4 == 0,
{
    assert(year % 400 == 0 ==> year % 100 == 0) by {
        if year % 400 == 0 {
            assert(year == 100 * (4 * (year / 400)));
        }
    }
    assert(year % 100 == 0 ==> year % 4 == 0) by {
        if year % 100 == 0 {
            assert(year == 4 * (25 * (year / 100)));
        }
    }
}

/// A year ends where the next one begins.
pub proof fn lemma_year_length(year: int)
    ensures
        days_before_year(year + 1) == days_before_year(year) + days_in_year(year),
{
    reveal(days_before_year);
    lemma_multiples(year);
}

/// The day numbers of the dates of one year run from 1 to the year's length
/// above the days before the year, and grow with month and day.
pub proof fn lemma_day_of_year(year: int, month: int, day: int)
    requires
        is_calendar_date(year, month, day),
    ensures
        1 <= days_before_month(year, month) + day <= days_in_year(year),
        days_before_month(year, month) + days_in_month(year, month) == days_before_month(
            year,
            month + 1,
        ),
        days_before_month(year, month + 1) <= days_in_year(year),
{
    lemma_days_before_month(year);
}

/// Later years begin later.
pub proof fn lemma_years_grow(first: int, second: int)
    requires
        first <= second,
    ensures
        days_before_year(first) + 365 * (second - first) <= days_before_year(second),
    decreases second - first,
{
    if first < second {
        lemma_years_grow(first, second - 1);
        lemma_year_length(second - 1);
    }
}

/// The order of calendar dates by year, month and day is the order of their
/// day numbers.
pub proof fn lemma_day_number_order(y1: int, m1: int, d1: int, y2: int, m2: int, d2: int)
    requires
        is_calendar_date(y1, m1, d1),
        is_calendar_date(y2, m2, d2),
    ensures
        day_number(y1, m1, d1) < day_number(y2, m2, d2) <==> (y1 < y2 || (y1 == y2 && (m1 < m2
            || (m1 == m2 && d1 < d2)))),
        day_number(y1, m1, d1) == day_number(y2, m2, d2) <==> (y1 == y2 && m1 == m2 && d1 == d2),
{
    lemma_day_of_year(y1, m1, d1);
    lemma_day_of_year(y2, m2, d2);
    lemma_days_before_month(y1);
    lemma_days_before_month(y2);
    if y1 < y2 {
        lemma_years_grow(y1 + 1, y2);
        lemma_year_length(y1);
    } else if y2 < y1 {
        lemma_years_grow(y2 + 1, y1);
        lemma_year_length(y2);
    }
}

/// The dates of the years from [`MIN_YEAR`] to [`MAX_YEAR`] are those with
/// a day number from [`MIN_DAY`] to [`MAX_DAY`].
pub proof fn lemma_range(year: int, month: int, day: int)
    requires
        is_calendar_date(year, month, day),
    ensures
        day_in_range(day_number(year, month, day)) <==> is_date(year, month, day),
        day_number(MIN_YEAR as int, 1, 1) == MIN_DAY,
        day_number(MAX_YEAR as int, 12, 31) == MAX_DAY,
{
    lemma_days_before_month(MIN_YEAR as int);
    lemma_days_before_month(MAX_YEAR as int);
    assert(days_before_year(MIN_YEAR as int) == MIN_DAY - 1 && days_before_year(MAX_YEAR as int)
        == MAX_DAY - 365) by {
        reveal(days_before_year);
    }
    lemma_day_number_order(year, month, day, MIN_YEAR as int, 1, 1);
    lemma_day_number_order(year, month, day, MAX_YEAR as int, 12, 31);
}

/// A day that comes `place` days after a Sunday lies in the week of the
/// day with number `n` exactly when that week begins at the Sunday on or
/// before it: `7 * (place / 7)` days after the first Sunday.
pub proof fn lemma_same_week(sunday: int, place: int, n: int)
    requires
        weekday_of(sunday) == 0,
        0 <= place,
    ensures
        week_start(n) <= sunday + place <= week_start(n) + 6 <==> sunday + 7 * (place / 7)
            == week_start(n),
        week_start(n) <= sunday + place <= week_start(n) + 6 <==> 7 * (place / 7) <= n - sunday
            < 7 * (place / 7) + 7,
        sunday <= n ==> week_start(n) == sunday + 7 * ((n - sunday) / 7),
{
    assert(sunday == 7 * (sunday / 7));
    assert(week_start(n) == 7 * (n / 7));
    assert(place == 7 * (place / 7) + place % 7);
    if sunday <= n {
        assert(n - sunday == 7 * ((n - sunday) / 7) + (n - sunday) % 7);
    }
}

} // verus!
