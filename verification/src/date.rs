//! Calendar dates and instants as plain values.
//!
//! A [`Date`] holds year, month and day. What is computed on dates (whether
//! a date exists, its weekday, the date some days later) is computed by
//! `chrono`; the contracts say what comes back in terms of
//! [`crate::gregorian`].

use crate::gregorian::{
    day_in_range, day_number, days_in_month, is_date, lemma_day_number_order, lemma_day_of_year,
    lemma_days_before_month, lemma_range, lemma_year_length, weekday_of, MIN_DAY, MIN_YEAR,
};
use chrono::{DateTime, Datelike, Local, NaiveDate, TimeDelta};
use vstd::prelude::*;

verus! {

/// Year, month and day as integers: what a [`Date`] is in contracts.
pub struct Ymd {
    pub year: int,
    pub month: int,
    pub day: int,
}

/// A date of the proleptic Gregorian calendar, in the years from
/// [`crate::gregorian::MIN_YEAR`] to [`crate::gregorian::MAX_YEAR`].
///
/// Every value is a date that the calendar has: the fields can only be set
/// through functions that check them.
#[derive(Clone, Copy, Debug, PartialEq, Eq, Structural)]
pub struct Date {
    year: i32,
    month: u32,
    day: u32,
}

impl View for Date {
    type V = Ymd;

    closed spec fn view(&self) -> Ymd {
        Ymd { year: self.year as int, month: self.month as int, day: self.day as int }
    }
}

/// The days of one UTC day, in seconds.
pub const SECONDS_PER_DAY: i64 = 86400;

/// The day number of January 1, 1970.
pub const UNIX_EPOCH_DAY: i32 = 719163;

/// An instant: seconds and nanoseconds since 1970-01-01 00:00:00 UTC.
#[derive(Clone, Copy, Debug, PartialEq, Eq, Structural)]
pub struct Timestamp {
    pub secs: i64,
    pub nanos: u32,
}

/// `chrono::NaiveDate::from_ymd_opt`: a date comes back exactly when the
/// calendar has the day and the year is one that `NaiveDate` holds; it is
/// the date asked for.
#[verifier::external_body]
fn naive_from_ymd(year: i32, month: u32, day: u32) -> (r: Option<Date>)
    ensures
        r is Some <==> is_date(year as int, month as int, day as int),
        r matches Some(d) ==> d@ == (Ymd {
            year: year as int,
            month: month as int,
            day: day as int,
        }),
{
    match NaiveDate::from_ymd_opt(year, month, day) {
        Some(_) => Some(Date { year, month, day }),
        None => None,
    }
}

/// `chrono::Datelike::num_days_from_ce` on a `NaiveDate`: the date's day
/// number, with January 1 of year 1 as day 1.
#[verifier::external_body]
fn naive_day_number(date: &Date) -> (r: Option<i32>)
    requires
        date.wf(),
    ensures
        r is Some,
        r matches Some(n) ==> n == date.day_number(),
{
    Some(NaiveDate::from_ymd_opt(date.year, date.month, date.day)?.num_days_from_ce())
}

/// `chrono::Datelike::weekday` on a `NaiveDate`, then
/// `chrono::Weekday::num_days_from_sunday`: 0 for Sunday to 6 for Saturday,
/// which is the day number modulo 7.
#[verifier::external_body]
fn naive_weekday(date: &Date) -> (r: Option<u32>)
    requires
        date.wf(),
    ensures
        r is Some,
        r matches Some(w) ==> w == weekday_of(date.day_number()),
{
    Some(NaiveDate::from_ymd_opt(date.year, date.month, date.day)?.weekday().num_days_from_sunday())
}

/// `chrono::NaiveDate::checked_add_signed` with `chrono::TimeDelta::try_days`:
/// the date `days` days later (earlier, where `days` is negative), exactly
/// when that date is one that `NaiveDate` holds.
#[verifier::external_body]
fn naive_add_days(date: &Date, days: i32) -> (r: Option<Date>)
    requires
        date.wf(),
    ensures
        r is Some <==> day_in_range(date.day_number() + days),
        r matches Some(d) ==> d.wf() && d.day_number() == date.day_number() + days,
{
    let start = NaiveDate::from_ymd_opt(date.year, date.month, date.day)?;
    let moved = start.checked_add_signed(TimeDelta::try_days(days as i64)?)?;
    Some(Date { year: moved.year(), month: moved.month(), day: moved.day() })
}

/// `chrono::DateTime::from_timestamp`, then `chrono::DateTime::date_naive`:
/// the UTC date of the instant `secs` seconds after 1970-01-01 00:00:00 UTC,
/// exactly when that date is one that `NaiveDate` holds.
#[verifier::external_body]
fn naive_utc_date(secs: i64) -> (r: Option<Date>)
    ensures
        r is Some <==> day_in_range(utc_day_number(secs as int)),
        r matches Some(d) ==> d.wf() && d.day_number() == utc_day_number(secs as int),
{
    let date = DateTime::from_timestamp(secs, 0)?.date_naive();
    Some(Date { year: date.year(), month: date.month(), day: date.day() })
}

/// `chrono::Local::now`, then `chrono::DateTime::naive_local` and
/// `chrono::NaiveDateTime::date`: the date that the machine's clock shows in
/// its own time zone. Nothing is known of it but that it is a date.
#[verifier::external_body]
pub(crate) fn local_today() -> (r: Date)
    ensures
        r.wf(),
{
    let now = Local::now().naive_local().date();
    Date { year: now.year(), month: now.month(), day: now.day() }
}

/// The day number of the UTC day that holds the instant `secs` seconds after
/// 1970-01-01 00:00:00 UTC.
pub open spec fn utc_day_number(secs: int) -> int {
    secs / (SECONDS_PER_DAY as int) + UNIX_EPOCH_DAY
}

/// The dates from day number `first` to day number `last`, both included, in
/// order: none where `last` comes before `first`.
pub open spec fn dates_from_to(first: int, last: int) -> Seq<Date> {
    Seq::new(
        if first <= last {
            (last - first + 1) as nat
        } else {
            0
        },
        |i: int| date_at(first + i),
    )
}

/// The date with day number `n`, where `n` is in range.
pub closed spec fn date_at(n: int) -> Date {
    choose|d: Date| d.wf() && d.day_number() == n
}

impl Date {
    /// The date is one that the calendar has, in a year that a `Date` holds.
    /// This holds of every `Date` that a program has in hand.
    #[verifier::type_invariant]
    pub open spec fn wf(self) -> bool {
        is_date(self@.year, self@.month, self@.day)
    }

    /// The date's day number: 1 for January 1 of year 1.
    pub open spec fn day_number(self) -> int {
        day_number(self@.year, self@.month, self@.day)
    }

    /// The date's weekday, 0 for Sunday to 6 for Saturday.
    pub open spec fn weekday(self) -> int {
        weekday_of(self.day_number())
    }

    /// The date of the given year, month and day, if there is one.
    pub fn from_ymd_opt(year: i32, month: u32, day: u32) -> (r: Option<Date>)
        ensures
            r is Some <==> is_date(year as int, month as int, day as int),
            r matches Some(d) ==> d.wf() && d@ == (Ymd {
                year: year as int,
                month: month as int,
                day: day as int,
            }),
    {
        naive_from_ymd(year, month, day)
    }

    /// The year.
    pub fn year(&self) -> (r: i32)
        ensures
            r == self@.year,
    {
        self.year
    }

    /// The month, 1 to 12.
    pub fn month(&self) -> (r: u32)
        ensures
            r == self@.month,
            1 <= r <= 12,
    {
        proof {
            use_type_invariant(self);
        }
        self.month
    }

    /// The day of the month, from 1.
    pub fn day(&self) -> (r: u32)
        ensures
            r == self@.day,
            1 <= r <= days_in_month(self@.year, self@.month),
    {
        proof {
            use_type_invariant(self);
        }
        self.day
    }

    /// The date's day number, with January 1 of year 1 as day 1.
    pub fn num_days_from_ce(&self) -> (r: i32)
        ensures
            r == self.day_number(),
            day_in_range(r as int),
    {
        proof {
            use_type_invariant(self);
            lemma_range(self@.year, self@.month, self@.day);
        }
        naive_day_number(self).unwrap()
    }

    /// The date's weekday as the number of days since Sunday.
    pub fn num_days_from_sunday(&self) -> (r: u32)
        ensures
            r == self.weekday(),
            r < 7,
    {
        proof {
            use_type_invariant(self);
        }
        naive_weekday(self).unwrap()
    }

    /// The date `days` days after this one, or before it where `days` is
    /// negative: `None` exactly when that day lies outside the years that a
    /// `Date` holds.
    pub fn checked_add_days(&self, days: i32) -> (r: Option<Date>)
        ensures
            r is Some <==> day_in_range(self.day_number() + days),
            r matches Some(d) ==> d.wf() && d.day_number() == self.day_number() + days && d
                == date_at(self.day_number() + days),
    {
        proof {
            use_type_invariant(self);
        }
        let r = naive_add_days(self, days);
        proof {
            if let Some(d) = r {
                lemma_date_at(d);
            }
        }
        r
    }

    /// The dates from this one to `end`, both included, in order: none where
    /// `end` comes before this date.
    pub fn days_through(&self, end: &Date) -> (r: Vec<Date>)
        ensures
            r@ == dates_from_to(self.day_number(), end.day_number()),
    {
        let first: i32 = self.num_days_from_ce();
        let span: i32 = end.num_days_from_ce() - first;
        let mut out: Vec<Date> = Vec::new();
        let mut i: i32 = 0;
        while i <= span
            invariant
                first == self.day_number(),
                span == end.day_number() - first,
                day_in_range(first as int),
                day_in_range(end.day_number()),
                0 <= i,
                span >= 0 ==> i <= span + 1,
                span < 0 ==> i == 0,
                out@ == dates_from_to(first as int, first + i - 1),
            decreases span + 1 - i,
        {
            out.push(self.checked_add_days(i).unwrap());
            assert(out@ =~= dates_from_to(first as int, first + i));
            i = i + 1;
        }
        assert(out@ =~= dates_from_to(self.day_number(), end.day_number()));
        out
    }

    /// Whether this date comes before `other`.
    pub fn is_before(&self, other: &Date) -> (r: bool)
        ensures
            r == (self.day_number() < other.day_number()),
    {
        proof {
            use_type_invariant(self);
            use_type_invariant(other);
            lemma_day_number_order(
                self@.year,
                self@.month,
                self@.day,
                other@.year,
                other@.month,
                other@.day,
            );
        }
        self.year < other.year || (self.year == other.year && (self.month < other.month || (
        self.month == other.month && self.day < other.day)))
    }

    /// Whether this date is `other`.
    pub fn is_same(&self, other: &Date) -> (r: bool)
        ensures
            r == (*self == *other),
            r == (self.day_number() == other.day_number()),
    {
        proof {
            use_type_invariant(self);
            use_type_invariant(other);
            lemma_same_day(*self, *other);
        }
        self.year == other.year && self.month == other.month && self.day == other.day
    }
}

impl Timestamp {
    /// The day number of the UTC day that holds the instant.
    pub open spec fn utc_day(self) -> int {
        utc_day_number(self.secs as int)
    }

    /// The UTC date of the instant, where a [`Date`] can hold it.
    pub open spec fn utc_date(self) -> Option<Date> {
        if day_in_range(self.utc_day()) {
            Some(date_at(self.utc_day()))
        } else {
            None
        }
    }

    /// The UTC date of the instant: `None` exactly when it lies outside the
    /// years that a [`Date`] holds.
    pub fn date_naive(&self) -> (r: Option<Date>)
        ensures
            r == self.utc_date(),
            r matches Some(d) ==> d.wf() && d.day_number() == self.utc_day(),
    {
        let r = naive_utc_date(self.secs);
        proof {
            if let Some(d) = r {
                lemma_date_at(d);
            }
        }
        r
    }
}

/// Two dates with the same day number are the same date.
pub proof fn lemma_same_day(a: Date, b: Date)
    requires
        a.wf(),
        b.wf(),
    ensures
        a.day_number() == b.day_number() <==> a == b,
        a@ == b@ <==> a == b,
{
    lemma_day_number_order(a@.year, a@.month, a@.day, b@.year, b@.month, b@.day);
}

/// A date is the date at its day number, and its day number is in range.
pub proof fn lemma_date_at(d: Date)
    requires
        d.wf(),
    ensures
        date_at(d.day_number()) == d,
        day_in_range(d.day_number()),
{
    lemma_same_day(date_at(d.day_number()), d);
    lemma_range(d@.year, d@.month, d@.day);
}

/// Every day number in range is the day number of a date, and of one only.
pub proof fn lemma_date_at_in_range(n: int)
    requires
        day_in_range(n),
    ensures
        date_at(n).wf(),
        date_at(n).day_number() == n,
    decreases n - MIN_DAY,
{
    if n == MIN_DAY {
        let first = Date { year: MIN_YEAR, month: 1, day: 1 };
        lemma_range(first@.year, first@.month, first@.day);
        assert(first.wf() && first.day_number() == n);
    } else {
        lemma_date_at_in_range(n - 1);
        let before = date_at(n - 1)@;
        lemma_day_of_year(before.year, before.month, before.day);
        lemma_days_before_month(before.year);
        lemma_days_before_month(before.year + 1);
        lemma_year_length(before.year);
        let after = if before.day < days_in_month(before.year, before.month) {
            Ymd { year: before.year, month: before.month, day: before.day + 1 }
        } else if before.month < 12 {
            Ymd { year: before.year, month: before.month + 1, day: 1 }
        } else {
            Ymd { year: before.year + 1, month: 1, day: 1 }
        };
        assert(day_number(after.year, after.month, after.day) == n);
        lemma_range(after.year, after.month, after.day);
        let next = Date { year: after.year as i32, month: after.month as u32, day: after.day as u32 };
        assert(next@ == after);
        assert(next.wf() && next.day_number() == n);
    }
}

} // verus!
