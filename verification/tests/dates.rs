use chrono::{Datelike, NaiveDate};
use task_calendar::gregorian::{MAX_DAY, MAX_YEAR, MIN_DAY, MIN_YEAR};
use task_calendar::{Date, Timestamp};

fn date(year: i32, month: u32, day: u32) -> Date {
    Date::from_ymd_opt(year, month, day).unwrap()
}

fn ymd(d: &Date) -> (i32, u32, u32) {
    (d.year(), d.month(), d.day())
}

#[test]
fn from_ymd_opt_takes_calendar_dates_only() {
    assert!(Date::from_ymd_opt(2024, 2, 29).is_some());
    assert!(Date::from_ymd_opt(2023, 2, 29).is_none());
    assert!(Date::from_ymd_opt(1900, 2, 29).is_none());
    assert!(Date::from_ymd_opt(2000, 2, 29).is_some());
    assert!(Date::from_ymd_opt(2024, 4, 31).is_none());
    assert!(Date::from_ymd_opt(2024, 0, 1).is_none());
    assert!(Date::from_ymd_opt(2024, 13, 1).is_none());
    assert!(Date::from_ymd_opt(2024, 1, 0).is_none());
    assert!(Date::from_ymd_opt(2024, 1, 32).is_none());
    assert!(Date::from_ymd_opt(-4, 2, 29).is_some());
}

#[test]
fn from_ymd_opt_keeps_year_month_day() {
    let d = date(2024, 3, 10);
    assert_eq!(ymd(&d), (2024, 3, 10));
}

#[test]
fn years_out_of_range_have_no_dates() {
    assert!(Date::from_ymd_opt(MIN_YEAR, 1, 1).is_some());
    assert!(Date::from_ymd_opt(MIN_YEAR - 1, 12, 31).is_none());
    assert!(Date::from_ymd_opt(MAX_YEAR, 12, 31).is_some());
    assert!(Date::from_ymd_opt(MAX_YEAR + 1, 1, 1).is_none());
    assert!(Date::from_ymd_opt(i32::MAX, 1, 1).is_none());
    assert!(Date::from_ymd_opt(i32::MIN, 1, 1).is_none());
}

#[test]
fn day_numbers_count_from_january_first_of_year_one() {
    assert_eq!(date(1, 1, 1).num_days_from_ce(), 1);
    assert_eq!(date(0, 12, 31).num_days_from_ce(), 0);
    assert_eq!(date(0, 1, 1).num_days_from_ce(), -365);
    assert_eq!(date(1970, 1, 1).num_days_from_ce(), 719163);
    assert_eq!(date(2024, 3, 10).num_days_from_ce(), 738955);
    assert_eq!(date(MIN_YEAR, 1, 1).num_days_from_ce(), MIN_DAY);
    assert_eq!(date(MAX_YEAR, 12, 31).num_days_from_ce(), MAX_DAY);
}

#[test]
fn weekday_counts_from_sunday() {
    assert_eq!(date(2024, 3, 10).num_days_from_sunday(), 0);
    assert_eq!(date(2024, 3, 1).num_days_from_sunday(), 5);
    assert_eq!(date(2024, 4, 6).num_days_from_sunday(), 6);
    assert_eq!(date(1, 1, 1).num_days_from_sunday(), 1);
    assert_eq!(date(1970, 1, 1).num_days_from_sunday(), 4);
}

#[test]
fn weekday_is_day_number_modulo_seven() {
    let mut d = date(1999, 12, 20);
    for _ in 0..800 {
        let n = d.num_days_from_ce();
        assert_eq!(d.num_days_from_sunday() as i32, n.rem_euclid(7));
        d = d.checked_add_days(1).unwrap();
    }
    let early = date(-300, 5, 17);
    assert_eq!(early.num_days_from_sunday() as i32, early.num_days_from_ce().rem_euclid(7));
}

#[test]
fn checked_add_days_moves_by_whole_days() {
    assert_eq!(ymd(&date(2024, 2, 28).checked_add_days(1).unwrap()), (2024, 2, 29));
    assert_eq!(ymd(&date(2024, 2, 28).checked_add_days(2).unwrap()), (2024, 3, 1));
    assert_eq!(ymd(&date(2023, 2, 28).checked_add_days(1).unwrap()), (2023, 3, 1));
    assert_eq!(ymd(&date(2023, 12, 31).checked_add_days(1).unwrap()), (2024, 1, 1));
    assert_eq!(ymd(&date(2024, 1, 1).checked_add_days(-1).unwrap()), (2023, 12, 31));
    assert_eq!(ymd(&date(2024, 3, 10).checked_add_days(0).unwrap()), (2024, 3, 10));
    assert_eq!(ymd(&date(2015, 9, 5).checked_add_days(40).unwrap()), (2015, 10, 15));
    assert_eq!(ymd(&date(2015, 9, 5).checked_add_days(-40).unwrap()), (2015, 7, 27));
}

#[test]
fn checked_add_days_adds_to_the_day_number() {
    let d = date(2024, 3, 10);
    for days in [-100000, -366, -1, 0, 1, 59, 365, 100000] {
        let moved = d.checked_add_days(days).unwrap();
        assert_eq!(moved.num_days_from_ce(), d.num_days_from_ce() + days);
    }
}

#[test]
fn checked_add_days_stops_at_the_ends_of_the_range() {
    let first = date(MIN_YEAR, 1, 1);
    let last = date(MAX_YEAR, 12, 31);
    assert!(first.checked_add_days(-1).is_none());
    assert!(last.checked_add_days(1).is_none());
    assert_eq!(ymd(&first.checked_add_days(1).unwrap()), (MIN_YEAR, 1, 2));
    assert_eq!(ymd(&last.checked_add_days(-1).unwrap()), (MAX_YEAR, 12, 30));
    assert!(date(2024, 1, 1).checked_add_days(i32::MAX).is_none());
    assert!(date(2024, 1, 1).checked_add_days(i32::MIN).is_none());
    assert_eq!(ymd(&first.checked_add_days(MAX_DAY - MIN_DAY).unwrap()), (MAX_YEAR, 12, 31));
}

#[test]
fn is_before_orders_by_day() {
    assert!(date(2024, 3, 9).is_before(&date(2024, 3, 10)));
    assert!(!date(2024, 3, 10).is_before(&date(2024, 3, 10)));
    assert!(!date(2024, 3, 11).is_before(&date(2024, 3, 10)));
    assert!(date(2023, 12, 31).is_before(&date(2024, 1, 1)));
    assert!(date(2024, 1, 31).is_before(&date(2024, 2, 1)));
    assert!(!date(2024, 2, 1).is_before(&date(2024, 1, 31)));
    assert!(date(-1, 12, 31).is_before(&date(0, 1, 1)));
}

#[test]
fn is_same_tells_dates_apart() {
    assert!(date(2024, 3, 10).is_same(&date(2024, 3, 10)));
    assert!(!date(2024, 3, 10).is_same(&date(2024, 3, 11)));
    assert!(!date(2024, 3, 10).is_same(&date(2024, 4, 10)));
    assert!(!date(2024, 3, 10).is_same(&date(2023, 3, 10)));
    assert_eq!(date(2024, 3, 10), date(2024, 3, 10));
    assert_ne!(date(2024, 3, 10), date(2024, 3, 11));
}

#[test]
fn days_through_lists_each_day_once() {
    let days = date(2024, 2, 27).days_through(&date(2024, 3, 2));
    let got: Vec<(i32, u32, u32)> = days.iter().map(ymd).collect();
    assert_eq!(
        got,
        vec![(2024, 2, 27), (2024, 2, 28), (2024, 2, 29), (2024, 3, 1), (2024, 3, 2)]
    );
}

#[test]
fn days_through_of_one_day_and_of_none() {
    let one = date(2024, 3, 10).days_through(&date(2024, 3, 10));
    assert_eq!(one.len(), 1);
    assert_eq!(ymd(&one[0]), (2024, 3, 10));
    let none = date(2024, 3, 10).days_through(&date(2024, 3, 9));
    assert!(none.is_empty());
}

#[test]
fn dates_agree_with_chrono_day_by_day() {
    let days = date(1899, 12, 25).days_through(&date(1901, 3, 5));
    let mut expected = NaiveDate::from_ymd_opt(1899, 12, 25).unwrap();
    for d in &days {
        assert_eq!(ymd(d), (expected.year(), expected.month(), expected.day()));
        assert_eq!(d.num_days_from_ce(), expected.num_days_from_ce());
        assert_eq!(d.num_days_from_sunday(), expected.weekday().num_days_from_sunday());
        expected = expected.succ_opt().unwrap();
    }
    assert_eq!(days.len(), 6 + 365 + 31 + 28 + 5 + 1);
}

#[test]
fn timestamp_gives_the_utc_date() {
    assert_eq!(ymd(&Timestamp { secs: 0, nanos: 0 }.date_naive().unwrap()), (1970, 1, 1));
    assert_eq!(ymd(&Timestamp { secs: 86399, nanos: 999_999_999 }.date_naive().unwrap()), (1970, 1, 1));
    assert_eq!(ymd(&Timestamp { secs: 86400, nanos: 0 }.date_naive().unwrap()), (1970, 1, 2));
    assert_eq!(ymd(&Timestamp { secs: -1, nanos: 0 }.date_naive().unwrap()), (1969, 12, 31));
    assert_eq!(ymd(&Timestamp { secs: -86400, nanos: 0 }.date_naive().unwrap()), (1969, 12, 31));
    assert_eq!(ymd(&Timestamp { secs: -86401, nanos: 0 }.date_naive().unwrap()), (1969, 12, 30));
    assert_eq!(ymd(&Timestamp { secs: 1710072000, nanos: 0 }.date_naive().unwrap()), (2024, 3, 10));
    assert_eq!(ymd(&Timestamp { secs: 1709251200, nanos: 5 }.date_naive().unwrap()), (2024, 3, 1));
}

#[test]
fn timestamp_date_ignores_the_nanoseconds() {
    let odd = Timestamp { secs: 1710072000, nanos: u32::MAX };
    assert_eq!(ymd(&odd.date_naive().unwrap()), (2024, 3, 10));
}

#[test]
fn timestamp_out_of_range_has_no_date() {
    assert!(Timestamp { secs: i64::MAX, nanos: 0 }.date_naive().is_none());
    assert!(Timestamp { secs: i64::MIN, nanos: 0 }.date_naive().is_none());
    let last_second = (MAX_DAY as i64 - 719163) * 86400 + 86399;
    assert_eq!(
        ymd(&Timestamp { secs: last_second, nanos: 0 }.date_naive().unwrap()),
        (MAX_YEAR, 12, 31)
    );
    assert!(Timestamp { secs: last_second + 1, nanos: 0 }.date_naive().is_none());
    let first_second = (MIN_DAY as i64 - 719163) * 86400;
    assert_eq!(
        ymd(&Timestamp { secs: first_second, nanos: 0 }.date_naive().unwrap()),
        (MIN_YEAR, 1, 1)
    );
    assert!(Timestamp { secs: first_second - 1, nanos: 0 }.date_naive().is_none());
}
