use task_calendar::{
    expand, occurs_on, CustomRule, Date, Task, TaskFrequency, TaskStatus, Timestamp,
};

fn date(year: i32, month: u32, day: u32) -> Date {
    Date::from_ymd_opt(year, month, day).unwrap()
}

fn ymd(d: &Date) -> (i32, u32, u32) {
    (d.year(), d.month(), d.day())
}

/// Noon of the given day, UTC.
fn noon(year: i32, month: u32, day: u32) -> Timestamp {
    let days = date(year, month, day).num_days_from_ce() as i64 - 719163;
    Timestamp { secs: days * 86400 + 12 * 3600, nanos: 0 }
}

fn task(
    id: u128,
    due: Option<Timestamp>,
    frequency: TaskFrequency,
    anchor: Option<Timestamp>,
) -> Task {
    Task {
        id,
        name: format!("task {}", id),
        description: None,
        status: TaskStatus::Pending,
        created_at: Timestamp { secs: 1700000000, nanos: 0 },
        updated_at: Timestamp { secs: 1700000000, nanos: 0 },
        due_date: due,
        frequency,
        recurrence_date: anchor,
    }
}

fn expanded(t: &Task, rule: &CustomRule, from: Date, to: Date) -> Vec<(i32, u32, u32)> {
    expand(t, rule, from, to).iter().map(ymd).collect()
}

#[test]
fn weekly_task_recurs_on_every_friday_of_the_window() {
    let t = task(1, None, TaskFrequency::Weekly, Some(noon(2024, 3, 1)));
    let got = expanded(&t, &CustomRule::Never, date(2024, 2, 25), date(2024, 4, 6));
    assert_eq!(
        got,
        vec![(2024, 3, 1), (2024, 3, 8), (2024, 3, 15), (2024, 3, 22), (2024, 3, 29), (2024, 4, 5)]
    );
}

#[test]
fn daily_task_recurs_on_every_day_from_the_base() {
    let t = task(1, None, TaskFrequency::Daily, Some(noon(2024, 3, 29)));
    let got = expanded(&t, &CustomRule::Never, date(2024, 3, 25), date(2024, 4, 2));
    assert_eq!(got, vec![(2024, 3, 29), (2024, 3, 30), (2024, 3, 31), (2024, 4, 1), (2024, 4, 2)]);
}

#[test]
fn daily_task_from_long_ago_fills_the_window() {
    let t = task(1, None, TaskFrequency::Daily, Some(noon(1990, 1, 1)));
    let got = expand(&t, &CustomRule::Never, date(2024, 2, 25), date(2024, 4, 6));
    assert_eq!(got.len(), 42);
    assert_eq!(ymd(&got[0]), (2024, 2, 25));
    assert_eq!(ymd(&got[41]), (2024, 4, 6));
}

#[test]
fn no_task_recurs_before_its_base() {
    for frequency in [
        TaskFrequency::Daily,
        TaskFrequency::Weekly,
        TaskFrequency::Monthly,
        TaskFrequency::Yearly,
        TaskFrequency::Custom,
    ] {
        let t = task(1, None, frequency, Some(noon(2024, 5, 1)));
        let rule = CustomRule::EveryDays(1);
        assert!(expand(&t, &rule, date(2024, 2, 25), date(2024, 4, 30)).is_empty());
    }
}

#[test]
fn task_that_does_not_recur_has_no_occurrences() {
    let once = task(1, Some(noon(2024, 3, 10)), TaskFrequency::Once, Some(noon(2024, 3, 1)));
    assert!(expand(&once, &CustomRule::EveryDays(1), date(2024, 2, 25), date(2024, 4, 6)).is_empty());
    let invalid = task(2, Some(noon(2024, 3, 10)), TaskFrequency::Invalid, None);
    assert!(expand(&invalid, &CustomRule::EveryDays(1), date(2024, 2, 25), date(2024, 4, 6)).is_empty());
}

#[test]
fn task_without_a_base_has_no_occurrences() {
    for frequency in [
        TaskFrequency::Daily,
        TaskFrequency::Weekly,
        TaskFrequency::Monthly,
        TaskFrequency::Yearly,
        TaskFrequency::Custom,
    ] {
        let t = task(1, None, frequency, None);
        assert!(expand(&t, &CustomRule::EveryDays(1), date(2024, 2, 25), date(2024, 4, 6)).is_empty());
    }
}

#[test]
fn task_with_a_base_out_of_range_has_no_occurrences() {
    let t = task(1, Some(Timestamp { secs: i64::MIN, nanos: 0 }), TaskFrequency::Daily, Some(noon(2024, 3, 1)));
    assert!(expand(&t, &CustomRule::Never, date(2024, 2, 25), date(2024, 4, 6)).is_empty());
    assert_eq!(t.base_date(), None);
}

#[test]
fn due_date_is_the_base_before_the_recurrence_date() {
    let t = task(1, Some(noon(2024, 3, 6)), TaskFrequency::Weekly, Some(noon(2024, 3, 1)));
    assert_eq!(t.base_date().map(|d| ymd(&d)), Some((2024, 3, 6)));
    let got = expanded(&t, &CustomRule::Never, date(2024, 2, 25), date(2024, 3, 31));
    assert_eq!(got, vec![(2024, 3, 6), (2024, 3, 13), (2024, 3, 20), (2024, 3, 27)]);
    let anchored = task(2, None, TaskFrequency::Weekly, Some(noon(2024, 3, 1)));
    assert_eq!(anchored.base_date().map(|d| ymd(&d)), Some((2024, 3, 1)));
    assert_eq!(task(3, None, TaskFrequency::Weekly, None).base_date(), None);
}

#[test]
fn monthly_task_recurs_on_its_day_of_the_month() {
    let t = task(1, None, TaskFrequency::Monthly, Some(noon(2024, 1, 15)));
    let got = expanded(&t, &CustomRule::Never, date(2024, 1, 1), date(2024, 4, 30));
    assert_eq!(got, vec![(2024, 1, 15), (2024, 2, 15), (2024, 3, 15), (2024, 4, 15)]);
}

#[test]
fn monthly_task_falls_on_the_last_day_of_a_short_month() {
    let t = task(1, None, TaskFrequency::Monthly, Some(noon(2024, 1, 31)));
    let got = expanded(&t, &CustomRule::Never, date(2024, 1, 1), date(2024, 6, 30));
    assert_eq!(
        got,
        vec![(2024, 1, 31), (2024, 2, 29), (2024, 3, 31), (2024, 4, 30), (2024, 5, 31), (2024, 6, 30)]
    );
    let got = expanded(&t, &CustomRule::Never, date(2025, 2, 1), date(2025, 3, 31));
    assert_eq!(got, vec![(2025, 2, 28), (2025, 3, 31)]);
}

#[test]
fn monthly_task_on_the_thirtieth() {
    let t = task(1, None, TaskFrequency::Monthly, Some(noon(2023, 11, 30)));
    let got = expanded(&t, &CustomRule::Never, date(2023, 11, 1), date(2024, 3, 31));
    assert_eq!(got, vec![(2023, 11, 30), (2023, 12, 30), (2024, 1, 30), (2024, 2, 29), (2024, 3, 30)]);
}

#[test]
fn yearly_task_recurs_on_its_day_of_the_year() {
    let t = task(1, None, TaskFrequency::Yearly, Some(noon(2020, 3, 10)));
    let got = expanded(&t, &CustomRule::Never, date(2019, 1, 1), date(2023, 12, 31));
    assert_eq!(got, vec![(2020, 3, 10), (2021, 3, 10), (2022, 3, 10), (2023, 3, 10)]);
}

#[test]
fn yearly_task_of_february_29_falls_on_february_28_in_common_years() {
    let t = task(1, None, TaskFrequency::Yearly, Some(noon(2020, 2, 29)));
    let got = expanded(&t, &CustomRule::Never, date(2020, 1, 1), date(2024, 12, 31));
    assert_eq!(
        got,
        vec![(2020, 2, 29), (2021, 2, 28), (2022, 2, 28), (2023, 2, 28), (2024, 2, 29)]
    );
}

#[test]
fn yearly_task_is_not_due_on_february_28_of_a_leap_year() {
    let base = date(2020, 2, 29);
    assert!(!occurs_on(TaskFrequency::Yearly, &CustomRule::Never, &base, &date(2024, 2, 28)));
    assert!(occurs_on(TaskFrequency::Yearly, &CustomRule::Never, &base, &date(2024, 2, 29)));
    assert!(occurs_on(TaskFrequency::Yearly, &CustomRule::Never, &base, &date(2023, 2, 28)));
    assert!(!occurs_on(TaskFrequency::Yearly, &CustomRule::Never, &base, &date(2023, 3, 1)));
    assert!(!occurs_on(TaskFrequency::Yearly, &CustomRule::Never, &base, &date(2023, 3, 29)));
}

#[test]
fn occurs_on_the_base_date_itself() {
    let base = date(2024, 3, 1);
    for frequency in [
        TaskFrequency::Daily,
        TaskFrequency::Weekly,
        TaskFrequency::Monthly,
        TaskFrequency::Yearly,
    ] {
        assert!(occurs_on(frequency, &CustomRule::Never, &base, &base));
        assert!(!occurs_on(frequency, &CustomRule::Never, &base, &date(2024, 2, 29)));
    }
    assert!(!occurs_on(TaskFrequency::Once, &CustomRule::Never, &base, &base));
    assert!(!occurs_on(TaskFrequency::Invalid, &CustomRule::Never, &base, &base));
    assert!(!occurs_on(TaskFrequency::Custom, &CustomRule::Never, &base, &base));
}

#[test]
fn weekly_task_keeps_its_weekday_over_years() {
    let base = date(2024, 3, 1);
    assert!(occurs_on(TaskFrequency::Weekly, &CustomRule::Never, &base, &date(2030, 3, 1)));
    assert!(!occurs_on(TaskFrequency::Weekly, &CustomRule::Never, &base, &date(2030, 3, 2)));
    assert_eq!(date(2030, 3, 1).num_days_from_sunday(), 5);
}

#[test]
fn custom_rule_every_third_day() {
    let t = task(1, None, TaskFrequency::Custom, Some(noon(2024, 2, 27)));
    let got = expanded(&t, &CustomRule::EveryDays(3), date(2024, 2, 25), date(2024, 3, 10));
    assert_eq!(got, vec![(2024, 2, 27), (2024, 3, 1), (2024, 3, 4), (2024, 3, 7), (2024, 3, 10)]);
}

#[test]
fn custom_rule_every_second_week() {
    let t = task(1, None, TaskFrequency::Custom, Some(noon(2024, 3, 1)));
    let got = expanded(&t, &CustomRule::EveryWeeks(2), date(2024, 2, 25), date(2024, 4, 30));
    assert_eq!(got, vec![(2024, 3, 1), (2024, 3, 15), (2024, 3, 29), (2024, 4, 12), (2024, 4, 26)]);
}

#[test]
fn custom_rule_every_zero_days_never_comes() {
    let t = task(1, None, TaskFrequency::Custom, Some(noon(2024, 3, 1)));
    assert!(expand(&t, &CustomRule::EveryDays(0), date(2024, 2, 25), date(2024, 4, 6)).is_empty());
    assert!(expand(&t, &CustomRule::EveryWeeks(0), date(2024, 2, 25), date(2024, 4, 6)).is_empty());
    assert!(expand(&t, &CustomRule::Never, date(2024, 2, 25), date(2024, 4, 6)).is_empty());
}

#[test]
fn custom_rule_with_a_large_step() {
    let base = date(2024, 3, 1);
    let rule = CustomRule::EveryDays(u32::MAX);
    assert!(occurs_on(TaskFrequency::Custom, &rule, &base, &base));
    assert!(!occurs_on(TaskFrequency::Custom, &rule, &base, &date(2024, 3, 2)));
    let weeks = CustomRule::EveryWeeks(u32::MAX);
    assert!(occurs_on(TaskFrequency::Custom, &weeks, &base, &base));
    assert!(!occurs_on(TaskFrequency::Custom, &weeks, &base, &date(2024, 3, 8)));
}

#[test]
fn custom_rule_on_weekdays() {
    // Mondays and Thursdays.
    let rule = CustomRule::OnWeekdays([false, true, false, false, true, false, false]);
    let t = task(1, None, TaskFrequency::Custom, Some(noon(2024, 3, 5)));
    let got = expanded(&t, &rule, date(2024, 3, 1), date(2024, 3, 18));
    assert_eq!(got, vec![(2024, 3, 7), (2024, 3, 11), (2024, 3, 14), (2024, 3, 18)]);
}

#[test]
fn custom_rule_allows() {
    let base = date(2024, 3, 1);
    assert!(CustomRule::EveryDays(2).allows(&base, &date(2024, 3, 3)));
    assert!(!CustomRule::EveryDays(2).allows(&base, &date(2024, 3, 4)));
    assert!(!CustomRule::EveryDays(2).allows(&base, &date(2024, 2, 28)));
    assert!(!CustomRule::EveryDays(2).allows(&base, &date(2024, 2, 29)));
    assert!(CustomRule::EveryWeeks(1).allows(&base, &date(2024, 3, 8)));
    assert!(!CustomRule::EveryWeeks(1).allows(&base, &date(2024, 2, 23)));
    assert!(!CustomRule::Never.allows(&base, &base));
    let sundays = CustomRule::OnWeekdays([true, false, false, false, false, false, false]);
    assert!(sundays.allows(&base, &date(2024, 3, 10)));
    assert!(!sundays.allows(&base, &date(2024, 3, 11)));
}

#[test]
fn custom_rule_is_for_custom_tasks_only() {
    let t = task(1, None, TaskFrequency::Weekly, Some(noon(2024, 3, 1)));
    let got = expanded(&t, &CustomRule::EveryDays(1), date(2024, 3, 1), date(2024, 3, 10));
    assert_eq!(got, vec![(2024, 3, 1), (2024, 3, 8)]);
}

#[test]
fn empty_window_has_no_occurrences() {
    let t = task(1, None, TaskFrequency::Daily, Some(noon(2024, 3, 1)));
    assert!(expand(&t, &CustomRule::Never, date(2024, 3, 10), date(2024, 3, 9)).is_empty());
    assert_eq!(expanded(&t, &CustomRule::Never, date(2024, 3, 10), date(2024, 3, 10)), vec![(2024, 3, 10)]);
}

#[test]
fn task_due_on_and_occurs_on() {
    let t = task(1, Some(noon(2024, 3, 10)), TaskFrequency::Weekly, None);
    assert!(t.due_on(&date(2024, 3, 10)));
    assert!(!t.due_on(&date(2024, 3, 17)));
    assert!(!t.due_on(&date(2024, 3, 9)));
    assert!(t.occurs_on(&CustomRule::Never, &date(2024, 3, 10)));
    assert!(t.occurs_on(&CustomRule::Never, &date(2024, 3, 17)));
    assert!(!t.occurs_on(&CustomRule::Never, &date(2024, 3, 3)));
    assert!(!t.occurs_on(&CustomRule::Never, &date(2024, 3, 11)));
    let undated = task(2, None, TaskFrequency::Once, Some(noon(2024, 3, 10)));
    assert!(!undated.due_on(&date(2024, 3, 10)));
    let far = task(3, Some(Timestamp { secs: i64::MAX, nanos: 0 }), TaskFrequency::Once, None);
    assert!(!far.due_on(&date(2024, 3, 10)));
}

#[test]
fn due_day_is_the_utc_day_of_the_instant() {
    let first_second = noon(2024, 3, 10).secs - 12 * 3600;
    let t = task(1, Some(Timestamp { secs: first_second, nanos: 0 }), TaskFrequency::Once, None);
    assert!(t.due_on(&date(2024, 3, 10)));
    let t = task(1, Some(Timestamp { secs: first_second - 1, nanos: 999_999_999 }), TaskFrequency::Once, None);
    assert!(t.due_on(&date(2024, 3, 9)));
    let t = task(1, Some(Timestamp { secs: first_second + 86399, nanos: 0 }), TaskFrequency::Once, None);
    assert!(t.due_on(&date(2024, 3, 10)));
}
