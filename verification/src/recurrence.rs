//! The days on which a recurring task comes round again.
//!
//! A task recurs from its base date on: daily, on the base date's weekday,
//! on its day of the month, or on its day of the year. Where a month is
//! too short for the day, the task falls on the month's last day. A task
//! of custom frequency recurs by the rule that the caller hands in.

use crate::calendar::CalendarService;
use crate::date::{dates_from_to, lemma_date_at, lemma_date_at_in_range, Date};
use crate::gregorian::{day_in_range, days_in_month};
use crate::task::{Task, TaskFrequency};
use vstd::prelude::*;

verus! {

/// The rule for the tasks of custom frequency.
#[derive(Clone, Copy, Debug)]
pub enum CustomRule {
    /// No rule: such a task does not recur.
    Never,
    /// Every so many days, counted from the base date; never, where the
    /// number is 0.
    EveryDays(u32),
    /// Every so many weeks, counted from the base date; never, where the
    /// number is 0.
    EveryWeeks(u32),
    /// On the weekdays marked, Sunday first.
    OnWeekdays([bool; 7]),
}

/// The day of a month on which something due on day `day` falls: `day`,
/// or the last day of the month where the month is shorter.
pub open spec fn day_within_month(day: int, year: int, month: int) -> int {
    if day <= days_in_month(year, month) {
        day
    } else {
        days_in_month(year, month)
    }
}

/// Whether a task of the given frequency and base date recurs on `date`.
/// No task recurs before its base date.
pub open spec fn recurs(frequency: TaskFrequency, rule: CustomRule, base: Date, date: Date) -> bool {
    base.day_number() <= date.day_number() && match frequency {
        TaskFrequency::Once => false,
        TaskFrequency::Daily => true,
        TaskFrequency::Weekly => date.weekday() == base.weekday(),
        TaskFrequency::Monthly => date@.day == day_within_month(
            base@.day,
            date@.year,
            date@.month,
        ),
        TaskFrequency::Yearly => date@.month == base@.month && date@.day == day_within_month(
            base@.day,
            date@.year,
            date@.month,
        ),
        TaskFrequency::Custom => rule.admits(base, date),
        TaskFrequency::Invalid => false,
    }
}

/// Of the given days, those on which the task recurs, in the same order.
pub open spec fn recurring_days(days: Seq<Date>, task: Task, rule: CustomRule) -> Seq<Date> {
    days.filter(|date: Date| task.recurs_on(rule, date))
}

/// The days from day number `first` to day number `last` on which the task
/// recurs, in order.
pub open spec fn occurrences(task: Task, rule: CustomRule, first: int, last: int) -> Seq<Date> {
    recurring_days(dates_from_to(first, last), task, rule)
}

impl CustomRule {
    /// Whether the rule lets a task with the given base date recur on
    /// `date`, a day on or after the base date.
    pub open spec fn admits(self, base: Date, date: Date) -> bool {
        match self {
            CustomRule::Never => false,
            CustomRule::EveryDays(n) => n > 0 && base.day_number() <= date.day_number() && (
            date.day_number() - base.day_number()) % (n as int) == 0,
            CustomRule::EveryWeeks(n) => n > 0 && base.day_number() <= date.day_number() && (
            date.day_number() - base.day_number()) % (7 * n) == 0,
            CustomRule::OnWeekdays(days) => days@[date.weekday()],
        }
    }

    /// Whether the rule lets a task with the given base date recur on
    /// `date`.
    pub fn allows(&self, base: &Date, date: &Date) -> (r: bool)
        ensures
            r == self.admits(*base, *date),
    {
        match self {
            CustomRule::Never => false,
            CustomRule::EveryDays(n) => {
                if *n == 0 || date.is_before(base) {
                    false
                } else {
                    let gap: i64 = date.num_days_from_ce() as i64 - base.num_days_from_ce() as i64;
                    gap % (*n as i64) == 0
                }
            },
            CustomRule::EveryWeeks(n) => {
                if *n == 0 || date.is_before(base) {
                    false
                } else {
                    let gap: i64 = date.num_days_from_ce() as i64 - base.num_days_from_ce() as i64;
                    let period: i64 = 7 * (*n as i64);
                    gap % period == 0
                }
            },
            CustomRule::OnWeekdays(days) => {
                let weekday: usize = date.num_days_from_sunday() as usize;
                days[weekday]
            },
        }
    }
}

/// The number of days of the month that holds `date`.
fn month_length(date: &Date) -> (r: u32)
    ensures
        r == days_in_month(date@.year, date@.month),
{
    proof {
        use_type_invariant(date);
    }
    CalendarService::last_day_of_month(date.year(), date.month()).unwrap().day()
}

/// Whether a task of the given frequency and base date recurs on `date`.
pub fn occurs_on(frequency: TaskFrequency, rule: &CustomRule, base: &Date, date: &Date) -> (r:
    bool)
    ensures
        r == recurs(frequency, *rule, *base, *date),
{
    if date.is_before(base) {
        return false;
    }
    match frequency {
        TaskFrequency::Once => false,
        TaskFrequency::Daily => true,
        TaskFrequency::Weekly => date.num_days_from_sunday() == base.num_days_from_sunday(),
        TaskFrequency::Monthly => {
            let length: u32 = month_length(date);
            let due: u32 = if base.day() <= length {
                base.day()
            } else {
                length
            };
            date.day() == due
        },
        TaskFrequency::Yearly => {
            let length: u32 = month_length(date);
            let due: u32 = if base.day() <= length {
                base.day()
            } else {
                length
            };
            date.month() == base.month() && date.day() == due
        },
        TaskFrequency::Custom => rule.allows(base, date),
        TaskFrequency::Invalid => false,
    }
}

impl Task {
    /// Whether the task recurs on `date`. A task without a base date does
    /// not recur, nor does one whose frequency is `Once` or `Invalid`.
    pub open spec fn recurs_on(self, rule: CustomRule, date: Date) -> bool {
        match self.base() {
            Some(base) => recurs(self.frequency, rule, base, date),
            None => false,
        }
    }

    /// Whether the task recurs on `date`.
    pub fn occurs_on(&self, rule: &CustomRule, date: &Date) -> (r: bool)
        ensures
            r == self.recurs_on(*rule, *date),
    {
        match self.base_date() {
            Some(base) => occurs_on(self.frequency, rule, &base, date),
            None => false,
        }
    }
}

/// The days from `window_start` to `window_end`, both included, on which
/// the task recurs, in order.
pub fn expand(task: &Task, rule: &CustomRule, window_start: Date, window_end: Date) -> (r: Vec<
    Date,
>)
    ensures
        r@ == occurrences(*task, *rule, window_start.day_number(), window_end.day_number()),
{
    let window = window_start.days_through(&window_end);
    let base = task.base_date();
    let mut out: Vec<Date> = Vec::new();
    let mut i: usize = 0;
    assert(window@.take(0) =~= Seq::<Date>::empty());
    assert(recurring_days(Seq::<Date>::empty(), *task, *rule) =~= Seq::<Date>::empty()) by {
        reveal(Seq::filter);
    }
    while i < window.len()
        invariant
            i <= window@.len(),
            base == task.base(),
            out@ == recurring_days(window@.take(i as int), *task, *rule),
        decreases window@.len() - i,
    {
        let date = window[i];
        let occurs = match base {
            Some(b) => occurs_on(task.frequency, rule, &b, &date),
            None => false,
        };
        proof {
            assert(window@.take(i + 1) =~= window@.take(i as int).push(date));
            window@.take(i as int).lemma_filter_push(
                date,
                |date: Date| task.recurs_on(*rule, date),
            );
        }
        if occurs {
            out.push(date);
        }
        i += 1;
    }
    assert(window@.take(i as int) =~= window@);
    out
}

/// A day of a window is among the task's occurrences in the window exactly
/// when the task recurs on it.
pub proof fn lemma_occurrences(task: Task, rule: CustomRule, first: int, last: int, date: Date)
    requires
        date.wf(),
        first <= date.day_number() <= last,
    ensures
        occurrences(task, rule, first, last).contains(date) <==> task.recurs_on(rule, date),
{
    let window = dates_from_to(first, last);
    let keep = |date: Date| task.recurs_on(rule, date);
    lemma_date_at(date);
    assert(window[date.day_number() - first] == date);
    if task.recurs_on(rule, date) {
        window.lemma_filter_contains(keep, date.day_number() - first);
    }
    if window.filter(keep).contains(date) {
        window.lemma_filter_contains_rev(keep, date);
    }
}

/// Each of the task's occurrences in a window is a day of the window on
/// which the task recurs, and they come in order of time.
pub proof fn lemma_occurrences_in_window(
    task: Task,
    rule: CustomRule,
    first: int,
    last: int,
    i: int,
)
    requires
        day_in_range(first),
        day_in_range(last),
        0 <= i < occurrences(task, rule, first, last).len(),
    ensures
        occurrences(task, rule, first, last)[i].wf(),
        first <= occurrences(task, rule, first, last)[i].day_number() <= last,
        task.recurs_on(rule, occurrences(task, rule, first, last)[i]),
        0 < i ==> occurrences(task, rule, first, last)[i - 1].day_number() < occurrences(
            task,
            rule,
            first,
            last,
        )[i].day_number(),
{
    let window = dates_from_to(first, last);
    let keep = |date: Date| task.recurs_on(rule, date);
    let found = window.filter(keep);
    assert forall|k: int| 0 <= k < window.len() implies (#[trigger] window[k]).wf()
        && window[k].day_number() == first + k by {
        lemma_date_at_in_range(first + k);
    }
    window.lemma_filter_pred(keep, i);
    assert(found.contains(found[i]));
    window.lemma_filter_contains_rev(keep, found[i]);
    if 0 < i {
        lemma_filter_keeps_order(window, keep, i - 1, i);
    }
}

/// What a filter keeps stays in order: of two kept items, the one that
/// comes first was first in the sequence that was filtered.
proof fn lemma_filter_keeps_order(
    days: Seq<Date>,
    keep: spec_fn(Date) -> bool,
    i: int,
    j: int,
)
    requires
        0 <= i < j < days.filter(keep).len(),
        forall|a: int, b: int|
            0 <= a < b < days.len() ==> (#[trigger] days[a]).day_number() < (
            #[trigger] days[b]).day_number(),
    ensures
        days.filter(keep)[i].day_number() < days.filter(keep)[j].day_number(),
    decreases days.len(),
{
    reveal(Seq::filter);
    if days.len() > 0 {
        let rest = days.drop_last();
        let kept = rest.filter(keep);
        assert forall|a: int, b: int| 0 <= a < b < rest.len() implies (#[trigger] rest[a])
            .day_number() < (#[trigger] rest[b]).day_number() by {
            assert(rest[a] == days[a] && rest[b] == days[b]);
        }
        if j < kept.len() {
            lemma_filter_keeps_order(rest, keep, i, j);
        } else {
            assert(days.filter(keep)[j] == days.last());
            assert(kept.contains(kept[i]));
            rest.lemma_filter_contains_rev(keep, kept[i]);
            let a = choose|a: int| 0 <= a < rest.len() && rest[a] == kept[i];
            assert(days[a] == kept[i]);
            assert(days[a].day_number() < days[days.len() - 1].day_number());
        }
    }
}

} // verus!
