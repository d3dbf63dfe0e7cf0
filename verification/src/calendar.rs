//! The grid of a month: its days padded to whole weeks, Sunday first.
//!
//! [`CalendarService`] has its other functions in [`crate::month`].

use crate::date::{dates_from_to, lemma_date_at_in_range, Date, Ymd};
use crate::gregorian::{
    day_in_range, day_number, days_in_month, is_date, lemma_day_number_order, lemma_day_of_year,
    lemma_days_before_month, lemma_range, lemma_year_length, week_start, weekday_of,
};
use vstd::prelude::*;

verus! {

/// Why no calendar could be made.
#[derive(Clone, Copy, Debug, PartialEq, Eq, Structural)]
pub enum CalendarError {
    /// The month is not one of 1 to 12, or the grid of that month of that
    /// year has a day that no [`Date`] can hold.
    InvalidArgument,
}

/// The functions that make a month's calendar.
pub struct CalendarService;

/// The day number of the first day of the grid of a month: the Sunday on or
/// before the first of the month.
pub open spec fn grid_start(year: int, month: int) -> int {
    week_start(day_number(year, month, 1))
}

/// The day number of the last day of the grid of a month: the Saturday on
/// or after the last of the month.
pub open spec fn grid_end(year: int, month: int) -> int {
    week_start(day_number(year, month, days_in_month(year, month))) + 6
}

/// Whether a month has a grid: the month is one of 1 to 12 and every day
/// of the grid is one that a [`Date`] can hold.
pub open spec fn has_grid(year: int, month: int) -> bool {
    &&& 1 <= month <= 12
    &&& day_in_range(grid_start(year, month))
    &&& day_in_range(grid_end(year, month))
}

/// The days of the grid of a month, in order.
pub open spec fn grid_dates(year: int, month: int) -> Seq<Date> {
    dates_from_to(grid_start(year, month), grid_end(year, month))
}

impl CalendarError {
    /// The error in words.
    pub fn message(&self) -> (r: String)
        ensures
            r@ == "invalid argument"@,
    {
        "invalid argument".to_owned()
    }
}

impl CalendarService {
    /// The last day of a month: `None` exactly when the month is not one of
    /// 1 to 12 or the year is not one that a [`Date`] holds.
    pub fn last_day_of_month(year: i32, month: u32) -> (r: Option<Date>)
        ensures
            r is Some <==> is_date(year as int, month as int, 1),
            r matches Some(d) ==> d.wf() && d@ == (Ymd {
                year: year as int,
                month: month as int,
                day: days_in_month(year as int, month as int),
            }),
    {
        if month < 1 || month > 12 {
            return None;
        }
        let next_first = if month < 12 {
            Date::from_ymd_opt(year, month + 1, 1)
        } else if year < i32::MAX {
            Date::from_ymd_opt(year + 1, 1, 1)
        } else {
            None
        };
        proof {
            lemma_days_before_month(year as int);
            lemma_days_before_month(year + 1);
            lemma_year_length(year as int);
            lemma_range(year as int, month as int, days_in_month(year as int, month as int));
        }
        match next_first {
            Some(first) => {
                let r = first.checked_add_days(-1);
                proof {
                    if let Some(last) = r {
                        lemma_day_number_order(
                            last@.year,
                            last@.month,
                            last@.day,
                            year as int,
                            month as int,
                            days_in_month(year as int, month as int),
                        );
                    }
                }
                r
            },
            None => Date::from_ymd_opt(year, month, 31),
        }
    }

    /// The Sunday on or before `date`: `None` exactly when no [`Date`] can
    /// hold it.
    pub fn start_of_week(date: Date) -> (r: Option<Date>)
        ensures
            r is Some <==> day_in_range(week_start(date.day_number())),
            r matches Some(d) ==> d.wf() && d.day_number() == week_start(date.day_number())
                && d.weekday() == 0,
    {
        let days_from_sunday: u32 = date.num_days_from_sunday();
        date.checked_add_days(-(days_from_sunday as i32))
    }

    /// The first day of the grid of the month that begins with `first_day`:
    /// the Sunday on or before it.
    pub fn start_of_calendar_grid(first_day: Date) -> (r: Option<Date>)
        ensures
            r is Some <==> day_in_range(week_start(first_day.day_number())),
            r matches Some(d) ==> d.wf() && d.day_number() == week_start(first_day.day_number())
                && d.weekday() == 0,
    {
        Self::start_of_week(first_day)
    }

    /// The last day of the grid of the month that ends with `last_day`: the
    /// Saturday on or after it.
    pub fn end_of_calendar_grid(last_day: Date) -> (r: Option<Date>)
        ensures
            r is Some <==> day_in_range(week_start(last_day.day_number()) + 6),
            r matches Some(d) ==> d.wf() && d.day_number() == week_start(last_day.day_number())
                + 6 && d.weekday() == 6,
    {
        let days_until_saturday: u32 = 6 - last_day.num_days_from_sunday();
        last_day.checked_add_days(days_until_saturday as i32)
    }

    /// The days of the grid of a month, in order: from the Sunday on or
    /// before the first of the month to the Saturday on or after its last
    /// day. Fails exactly when the month has no grid.
    pub fn build_grid(year: i32, month: u32) -> (r: Result<Vec<Date>, CalendarError>)
        ensures
            r is Ok <==> has_grid(year as int, month as int),
            r matches Ok(grid) ==> grid@ == grid_dates(year as int, month as int),
            r matches Ok(grid) ==> grid@.len() % 7 == 0 && 28 <= grid@.len() <= 42,
            r matches Ok(grid) ==> grid@[0].day_number() == grid_start(year as int, month as int)
                && grid@[0].weekday() == 0 && grid@.last().weekday() == 6,
            r matches Ok(grid) ==> forall|i: int|
                0 <= i < grid@.len() ==> (#[trigger] grid@[i]).wf() && grid@[i].day_number()
                    == grid@[0].day_number() + i,
            r matches Ok(grid) ==> forall|day: int|
                1 <= day <= days_in_month(year as int, month as int) ==> grid@.contains(
                    #[trigger] date_of_month(year as int, month as int, day),
                ),
    {
        proof {
            if 1 <= month <= 12 {
                lemma_grid_bounds(year as int, month as int);
            }
            if has_grid(year as int, month as int) {
                lemma_grid_is_whole_weeks(year as int, month as int);
                assert forall|day: int|
                    1 <= day <= days_in_month(year as int, month as int) implies grid_dates(
                    year as int,
                    month as int,
                ).contains(#[trigger] date_of_month(year as int, month as int, day)) by {
                    lemma_grid_holds_month(year as int, month as int, day);
                }
            }
        }
        let first_day = match Date::from_ymd_opt(year, month, 1) {
            Some(d) => d,
            None => {
                return Err(CalendarError::InvalidArgument);
            },
        };
        let last_day = match Self::last_day_of_month(year, month) {
            Some(d) => d,
            None => {
                return Err(CalendarError::InvalidArgument);
            },
        };
        let start = match Self::start_of_calendar_grid(first_day) {
            Some(d) => d,
            None => {
                return Err(CalendarError::InvalidArgument);
            },
        };
        let end = match Self::end_of_calendar_grid(last_day) {
            Some(d) => d,
            None => {
                return Err(CalendarError::InvalidArgument);
            },
        };
        Ok(start.days_through(&end))
    }
}

/// The date of day `day` of a month.
pub open spec fn date_of_month(year: int, month: int, day: int) -> Date {
    crate::date::date_at(day_number(year, month, day))
}

/// The grid begins at most six days before the first of the month and ends
/// at most six days after its last day; so a month with a grid lies in the
/// years that a [`Date`] holds.
pub proof fn lemma_grid_bounds(year: int, month: int)
    requires
        1 <= month <= 12,
    ensures
        day_number(year, month, 1) - 6 <= grid_start(year, month) <= day_number(year, month, 1),
        day_number(year, month, days_in_month(year, month)) <= grid_end(year, month)
            <= day_number(year, month, days_in_month(year, month)) + 6,
        day_number(year, month, days_in_month(year, month)) == day_number(year, month, 1)
            + days_in_month(year, month) - 1,
        has_grid(year, month) ==> is_date(year, month, 1),
{
    lemma_range(year, month, 1);
    lemma_range(year, month, days_in_month(year, month));
}

/// The grid of a month is a whole number of weeks, four to six: it begins
/// on a Sunday, ends on a Saturday, and each of its days is the day after
/// the one before it.
pub proof fn lemma_grid_is_whole_weeks(year: int, month: int)
    requires
        has_grid(year, month),
    ensures
        grid_dates(year, month).len() % 7 == 0,
        28 <= grid_dates(year, month).len() <= 42,
        grid_dates(year, month).len() == grid_end(year, month) - grid_start(year, month) + 1,
        grid_dates(year, month)[0].weekday() == 0,
        grid_dates(year, month).last().weekday() == 6,
        forall|i: int|
            0 <= i < grid_dates(year, month).len() ==> (#[trigger] grid_dates(year, month)[i]).wf()
                && grid_dates(year, month)[i].day_number() == grid_start(year, month) + i,
        forall|i: int|
            0 <= i < grid_dates(year, month).len() ==> (#[trigger] grid_dates(
                year,
                month,
            )[i]).day_number() == grid_dates(year, month)[0].day_number() + i,
{
    lemma_grid_bounds(year, month);
    let start = grid_start(year, month);
    let end = grid_end(year, month);
    let grid = grid_dates(year, month);
    assert(weekday_of(start) == 0 && weekday_of(end) == 6);
    assert(grid.len() == end - start + 1);
    assert forall|i: int| 0 <= i < grid.len() implies (#[trigger] grid[i]).wf()
        && grid[i].day_number() == start + i by {
        lemma_date_at_in_range(start + i);
    }
    assert(grid[0].day_number() == start);
    assert(grid.last().day_number() == end);
}

/// The grid of a month holds every day of the month: day `day` is the
/// grid's day at the place that its day number gives.
pub proof fn lemma_grid_holds_month(year: int, month: int, day: int)
    requires
        has_grid(year, month),
        1 <= day <= days_in_month(year, month),
    ensures
        0 <= day_number(year, month, day) - grid_start(year, month) < grid_dates(year, month).len(),
        grid_dates(year, month)[day_number(year, month, day) - grid_start(year, month)]
            == date_of_month(year, month, day),
        date_of_month(year, month, day)@ == (Ymd { year, month, day }),
        grid_dates(year, month).contains(date_of_month(year, month, day)),
{
    lemma_grid_bounds(year, month);
    lemma_grid_is_whole_weeks(year, month);
    lemma_day_of_year(year, month, day);
    let n = day_number(year, month, day);
    lemma_range(year, month, day);
    lemma_date_at_in_range(n);
    let d = date_of_month(year, month, day);
    lemma_day_number_order(d@.year, d@.month, d@.day, year, month, day);
    let i = n - grid_start(year, month);
    assert(grid_dates(year, month)[i] == d);
}

} // verus!
