//! The calendar of a month: each day of the grid with the tasks that land
//! on it and with its flags.
//!
//! A task lands on the day of its due date and on the days on which it
//! recurs. Within a day the tasks due that day come first, then those that
//! recur on it; each group keeps the order in which the tasks were given.
//! A task that is due on a day is not listed a second time for recurring
//! on it.

use crate::calendar::{
    grid_dates, grid_end, grid_start, has_grid, lemma_grid_bounds, lemma_grid_is_whole_weeks,
    CalendarError, CalendarService,
};
use crate::date::{lemma_date_at, lemma_same_day, local_today, Date};
use crate::gregorian::{
    day_number, days_in_month, lemma_day_number_order, lemma_days_before_month,
    lemma_same_week, lemma_year_length, lemma_years_grow, week_start,
};
use crate::recurrence::{lemma_occurrences, occurrences, CustomRule};
use crate::task::Task;
use vstd::prelude::*;

verus! {

/// One day of the grid, with the tasks that land on it.
#[derive(Debug)]
pub struct CalendarDay {
    pub date: Date,
    pub tasks: Vec<Task>,
    pub is_today: bool,
    pub is_current_month: bool,
    pub is_current_week: bool,
}

/// Seven days, Sunday to Saturday.
#[derive(Debug)]
pub struct CalendarWeek {
    pub days: Vec<CalendarDay>,
}

/// The weeks that cover a month.
#[derive(Debug)]
pub struct CalendarMonth {
    pub year: i32,
    pub month: u32,
    pub weeks: Vec<CalendarWeek>,
}

/// What a [`CalendarDay`] holds.
pub struct DayView {
    pub date: Date,
    pub tasks: Seq<Task>,
    pub is_today: bool,
    pub is_current_month: bool,
    pub is_current_week: bool,
}

/// What a [`CalendarWeek`] holds.
pub struct WeekView {
    pub days: Seq<DayView>,
}

/// What a [`CalendarMonth`] holds.
pub struct MonthView {
    pub year: int,
    pub month: int,
    pub weeks: Seq<WeekView>,
}

impl View for CalendarDay {
    type V = DayView;

    open spec fn view(&self) -> DayView {
        DayView {
            date: self.date,
            tasks: self.tasks@,
            is_today: self.is_today,
            is_current_month: self.is_current_month,
            is_current_week: self.is_current_week,
        }
    }
}

impl View for CalendarWeek {
    type V = WeekView;

    open spec fn view(&self) -> WeekView {
        WeekView { days: Seq::new(self.days@.len(), |i: int| self.days@[i]@) }
    }
}

impl View for CalendarMonth {
    type V = MonthView;

    open spec fn view(&self) -> MonthView {
        MonthView {
            year: self.year as int,
            month: self.month as int,
            weeks: Seq::new(self.weeks@.len(), |w: int| self.weeks@[w]@),
        }
    }
}

/// A copy of each task, in the same order.
fn copy_tasks(tasks: &Vec<Task>) -> (r: Vec<Task>)
    ensures
        r@ == tasks@,
{
    let mut out: Vec<Task> = Vec::new();
    let mut k: usize = 0;
    while k < tasks.len()
        invariant
            k <= tasks@.len(),
            out@ == tasks@.take(k as int),
        decreases tasks@.len() - k,
    {
        out.push(tasks[k].clone());
        assert(out@ =~= tasks@.take(k + 1));
        k += 1;
    }
    assert(tasks@.take(k as int) =~= tasks@);
    out
}

impl Clone for CalendarDay {
    fn clone(&self) -> (r: CalendarDay)
        ensures
            r@ == self@,
    {
        CalendarDay {
            date: self.date,
            tasks: copy_tasks(&self.tasks),
            is_today: self.is_today,
            is_current_month: self.is_current_month,
            is_current_week: self.is_current_week,
        }
    }
}

impl Clone for CalendarWeek {
    fn clone(&self) -> (r: CalendarWeek)
        ensures
            r@ == self@,
    {
        let mut days: Vec<CalendarDay> = Vec::new();
        let mut i: usize = 0;
        while i < self.days.len()
            invariant
                i <= self.days@.len(),
                days@.len() == i,
                forall|j: int| 0 <= j < i ==> (#[trigger] days@[j])@ == self.days@[j]@,
            decreases self.days@.len() - i,
        {
            days.push(self.days[i].clone());
            i += 1;
        }
        let week = CalendarWeek { days };
        assert(week@.days =~= self@.days);
        week
    }
}

impl Clone for CalendarMonth {
    fn clone(&self) -> (r: CalendarMonth)
        ensures
            r@ == self@,
    {
        let mut weeks: Vec<CalendarWeek> = Vec::new();
        let mut w: usize = 0;
        while w < self.weeks.len()
            invariant
                w <= self.weeks@.len(),
                weeks@.len() == w,
                forall|k: int| 0 <= k < w ==> (#[trigger] weeks@[k])@ == self.weeks@[k]@,
            decreases self.weeks@.len() - w,
        {
            weeks.push(self.weeks[w].clone());
            w += 1;
        }
        let month = CalendarMonth { year: self.year, month: self.month, weeks };
        assert(month@.weeks =~= self@.weeks);
        month
    }
}

/// The tasks that are due on `date`, in the order given.
pub open spec fn due_tasks(tasks: Seq<Task>, date: Date) -> Seq<Task> {
    tasks.filter(|task: Task| task.falls_due_on(date))
}

/// The tasks that recur on `date` and are not due on it, in the order
/// given.
pub open spec fn recurring_tasks(tasks: Seq<Task>, rule: CustomRule, date: Date) -> Seq<Task> {
    tasks.filter(|task: Task| !task.falls_due_on(date) && task.recurs_on(rule, date))
}

/// The tasks that land on `date`: those due on it, then those that recur
/// on it.
pub open spec fn tasks_on(tasks: Seq<Task>, rule: CustomRule, date: Date) -> Seq<Task> {
    due_tasks(tasks, date) + recurring_tasks(tasks, rule, date)
}

/// Whether `date` lies in the week, Sunday to Saturday, that holds `today`.
pub open spec fn in_week_of(date: Date, today: Date) -> bool {
    week_start(today.day_number()) <= date.day_number() <= week_start(today.day_number()) + 6
}

/// The day `date` in the calendar of a month with number `month`.
pub open spec fn day_view(
    date: Date,
    month: int,
    tasks: Seq<Task>,
    rule: CustomRule,
    today: Date,
) -> DayView {
    DayView {
        date,
        tasks: tasks_on(tasks, rule, date),
        is_today: date == today,
        is_current_month: date@.month == month,
        is_current_week: in_week_of(date, today),
    }
}

/// Week `week` of the grid of a month, counted from 0.
pub open spec fn week_view(
    year: int,
    month: int,
    week: int,
    tasks: Seq<Task>,
    rule: CustomRule,
    today: Date,
) -> WeekView {
    WeekView {
        days: Seq::new(
            7,
            |i: int| day_view(grid_dates(year, month)[7 * week + i], month, tasks, rule, today),
        ),
    }
}

/// The calendar of a month that has a grid.
pub open spec fn month_view(
    year: int,
    month: int,
    tasks: Seq<Task>,
    rule: CustomRule,
    today: Date,
) -> MonthView {
    MonthView {
        year,
        month,
        weeks: Seq::new(
            grid_dates(year, month).len() / 7,
            |week: int| week_view(year, month, week, tasks, rule, today),
        ),
    }
}

/// Whether `outcome` is what assembling the calendar of a month gives: the
/// month's calendar where the month has a grid, an error where it has none.
pub open spec fn is_assembled(
    outcome: Result<CalendarMonth, CalendarError>,
    year: int,
    month: int,
    tasks: Seq<Task>,
    rule: CustomRule,
    today: Date,
) -> bool {
    match outcome {
        Ok(calendar) => has_grid(year, month) && calendar@ == month_view(
            year,
            month,
            tasks,
            rule,
            today,
        ),
        Err(error) => !has_grid(year, month) && error == CalendarError::InvalidArgument,
    }
}

impl CalendarService {
    /// The tasks that land on `date`: copies of those due on it, then of
    /// those that recur on it, each group in the order given.
    pub fn day_tasks(tasks: &Vec<Task>, rule: &CustomRule, date: &Date) -> (r: Vec<Task>)
        ensures
            r@ == tasks_on(tasks@, *rule, *date),
    {
        let mut due: Vec<Task> = Vec::new();
        let mut k: usize = 0;
        assert(tasks@.take(0) =~= Seq::<Task>::empty());
        assert(due_tasks(Seq::<Task>::empty(), *date) =~= Seq::<Task>::empty()) by {
            reveal(Seq::filter);
        }
        assert(recurring_tasks(Seq::<Task>::empty(), *rule, *date) =~= Seq::<Task>::empty()) by {
            reveal(Seq::filter);
        }
        while k < tasks.len()
            invariant
                k <= tasks@.len(),
                due@ == due_tasks(tasks@.take(k as int), *date),
            decreases tasks@.len() - k,
        {
            proof {
                assert(tasks@.take(k + 1) =~= tasks@.take(k as int).push(tasks@[k as int]));
                tasks@.take(k as int).lemma_filter_push(
                    tasks@[k as int],
                    |task: Task| task.falls_due_on(*date),
                );
            }
            if tasks[k].due_on(date) {
                due.push(tasks[k].clone());
            }
            k += 1;
        }
        assert(tasks@.take(k as int) =~= tasks@);
        let mut out = due;
        let ghost placed = out@;
        let mut k: usize = 0;
        while k < tasks.len()
            invariant
                k <= tasks@.len(),
                placed == due_tasks(tasks@, *date),
                out@ == placed + recurring_tasks(tasks@.take(k as int), *rule, *date),
            decreases tasks@.len() - k,
        {
            proof {
                assert(tasks@.take(k + 1) =~= tasks@.take(k as int).push(tasks@[k as int]));
                tasks@.take(k as int).lemma_filter_push(
                    tasks@[k as int],
                    |task: Task| !task.falls_due_on(*date) && task.recurs_on(*rule, *date),
                );
            }
            if !tasks[k].due_on(date) && tasks[k].occurs_on(rule, date) {
                out.push(tasks[k].clone());
            }
            k += 1;
        }
        assert(tasks@.take(k as int) =~= tasks@);
        out
    }

    /// Whether `date` lies in the week, Sunday to Saturday, that holds
    /// `today`.
    pub fn in_current_week(date: &Date, today: Date) -> (r: bool)
        ensures
            r == in_week_of(*date, today),
    {
        proof {
            use_type_invariant(date);
            use_type_invariant(&today);
            lemma_date_at(*date);
            lemma_date_at(today);
        }
        let from_sunday = match Self::start_of_week(today) {
            Some(sunday) => !date.is_before(&sunday),
            None => true,
        };
        let to_saturday = match Self::end_of_calendar_grid(today) {
            Some(saturday) => !saturday.is_before(date),
            None => true,
        };
        from_sunday && to_saturday
    }

    /// The day `date` in the calendar of a month with number `month`.
    pub fn day_of(date: Date, month: u32, tasks: &Vec<Task>, rule: &CustomRule, today: Date) -> (r:
        CalendarDay)
        ensures
            r@ == day_view(date, month as int, tasks@, *rule, today),
    {
        CalendarDay {
            date,
            tasks: Self::day_tasks(tasks, rule, &date),
            is_today: date.is_same(&today),
            is_current_month: date.month() == month,
            is_current_week: Self::in_current_week(&date, today),
        }
    }

    /// The calendar of a month: the weeks of its grid, each day with the
    /// tasks that land on it and with its flags. Fails exactly when the
    /// month has no grid, whatever the tasks are.
    pub fn assemble(
        year: i32,
        month: u32,
        tasks: &Vec<Task>,
        rule: &CustomRule,
        today: Date,
    ) -> (r: Result<CalendarMonth, CalendarError>)
        ensures
            is_assembled(r, year as int, month as int, tasks@, *rule, today),
            r is Ok <==> has_grid(year as int, month as int),
            r matches Ok(calendar) ==> calendar@ == month_view(
                year as int,
                month as int,
                tasks@,
                *rule,
                today,
            ),
            r matches Err(error) ==> error == CalendarError::InvalidArgument,
    {
        let grid = match Self::build_grid(year, month) {
            Ok(grid) => grid,
            Err(error) => {
                return Err(error);
            },
        };
        let count: usize = grid.len() / 7;
        let mut weeks: Vec<CalendarWeek> = Vec::new();
        let mut w: usize = 0;
        while w < count
            invariant
                grid@ == grid_dates(year as int, month as int),
                grid@.len() % 7 == 0,
                count == grid@.len() / 7,
                w <= count,
                weeks@.len() == w,
                forall|k: int|
                    0 <= k < w ==> (#[trigger] weeks@[k])@ == week_view(
                        year as int,
                        month as int,
                        k,
                        tasks@,
                        *rule,
                        today,
                    ),
            decreases count - w,
        {
            let mut days: Vec<CalendarDay> = Vec::new();
            let mut i: usize = 0;
            while i < 7
                invariant
                    grid@ == grid_dates(year as int, month as int),
                    grid@.len() % 7 == 0,
                    count == grid@.len() / 7,
                    w < count,
                    i <= 7,
                    days@.len() == i,
                    forall|j: int|
                        0 <= j < i ==> (#[trigger] days@[j])@ == day_view(
                            grid@[7 * w + j],
                            month as int,
                            tasks@,
                            *rule,
                            today,
                        ),
                decreases 7 - i,
            {
                let date = grid[7 * w + i];
                days.push(Self::day_of(date, month, tasks, rule, today));
                i += 1;
            }
            let week = CalendarWeek { days };
            assert(week@.days =~= week_view(
                year as int,
                month as int,
                w as int,
                tasks@,
                *rule,
                today,
            ).days);
            weeks.push(week);
            w += 1;
        }
        let calendar = CalendarMonth { year, month, weeks };
        assert(calendar@.weeks =~= month_view(
            year as int,
            month as int,
            tasks@,
            *rule,
            today,
        ).weeks);
        Ok(calendar)
    }

    /// The calendar of a month as of today, by the date that the machine's
    /// clock shows. Tasks of custom frequency get no rule, so they land on
    /// their due dates only. Fails exactly when the month has no grid.
    pub fn generate_month_view(year: i32, month: u32, tasks: Vec<Task>) -> (r: Result<
        CalendarMonth,
        CalendarError,
    >)
        ensures
            r is Ok <==> has_grid(year as int, month as int),
            r matches Err(error) ==> error == CalendarError::InvalidArgument,
            exists|today: Date|
                today.wf() && #[trigger] is_assembled(
                    r,
                    year as int,
                    month as int,
                    tasks@,
                    CustomRule::Never,
                    today,
                ),
    {
        let today = local_today();
        Self::assemble(year, month, &tasks, &CustomRule::Never, today)
    }
}

/// Assembling a month's calendar twice from the same year, month, tasks,
/// rule and today gives the same outcome: both fail, or both give
/// calendars that hold the same.
pub proof fn lemma_assembling_is_repeatable(
    first: Result<CalendarMonth, CalendarError>,
    second: Result<CalendarMonth, CalendarError>,
    year: int,
    month: int,
    tasks: Seq<Task>,
    rule: CustomRule,
    today: Date,
)
    requires
        is_assembled(first, year, month, tasks, rule, today),
        is_assembled(second, year, month, tasks, rule, today),
    ensures
        first is Ok <==> second is Ok,
        first is Ok ==> first->Ok_0@ == second->Ok_0@,
        first is Err ==> first->Err_0 == second->Err_0,
{
}

/// The place of each day in a month's calendar: day `i` of week `week` is
/// the grid's day `7 * week + i`, which is `7 * week + i` days after the
/// grid's first day.
pub proof fn lemma_day_of_calendar(
    year: int,
    month: int,
    tasks: Seq<Task>,
    rule: CustomRule,
    today: Date,
    week: int,
    i: int,
)
    requires
        has_grid(year, month),
        0 <= week < month_view(year, month, tasks, rule, today).weeks.len(),
        0 <= i < 7,
    ensures
        month_view(year, month, tasks, rule, today).weeks.len() * 7 == grid_dates(
            year,
            month,
        ).len(),
        month_view(year, month, tasks, rule, today).weeks[week].days.len() == 7,
        month_view(year, month, tasks, rule, today).weeks[week].days[i] == day_view(
            grid_dates(year, month)[7 * week + i],
            month,
            tasks,
            rule,
            today,
        ),
        grid_dates(year, month)[7 * week + i].wf(),
        grid_dates(year, month)[7 * week + i].day_number() == grid_start(year, month) + 7 * week
            + i,
{
    lemma_grid_is_whole_weeks(year, month);
}

/// Exactly one day of a month's calendar is flagged as today where `today`
/// lies in the grid, and it is the day dated `today`: the day whose place
/// in the grid is the number of days from the grid's first day to `today`.
/// Where `today` lies outside the grid, no day is flagged.
pub proof fn lemma_one_today(
    year: int,
    month: int,
    tasks: Seq<Task>,
    rule: CustomRule,
    today: Date,
)
    requires
        has_grid(year, month),
        today.wf(),
    ensures
        forall|week: int, i: int|
            0 <= week < month_view(year, month, tasks, rule, today).weeks.len() && 0 <= i < 7
                ==> (#[trigger] month_view(year, month, tasks, rule, today).weeks[week].days[i]
                .is_today <==> 7 * week + i == today.day_number() - grid_start(year, month)),
        forall|week: int, i: int|
            0 <= week < month_view(year, month, tasks, rule, today).weeks.len() && 0 <= i < 7
                ==> (#[trigger] month_view(year, month, tasks, rule, today).weeks[week].days[i]
                .is_today <==> month_view(year, month, tasks, rule, today).weeks[week].days[i].date
                == today),
        grid_start(year, month) <= today.day_number() <= grid_end(year, month) ==> {
            let place = today.day_number() - grid_start(year, month);
            &&& 0 <= place / 7 < month_view(year, month, tasks, rule, today).weeks.len()
            &&& month_view(year, month, tasks, rule, today).weeks[place / 7].days[place % 7].is_today
        },
{
    let calendar = month_view(year, month, tasks, rule, today);
    lemma_grid_is_whole_weeks(year, month);
    assert forall|week: int, i: int| 0 <= week < calendar.weeks.len() && 0 <= i < 7 implies (
    #[trigger] calendar.weeks[week].days[i].is_today <==> 7 * week + i == today.day_number()
        - grid_start(year, month)) && (calendar.weeks[week].days[i].is_today
        <==> calendar.weeks[week].days[i].date == today) by {
        lemma_day_of_calendar(year, month, tasks, rule, today, week, i);
        lemma_same_day(grid_dates(year, month)[7 * week + i], today);
    }
}

/// The days of a month's calendar that are flagged as of the current week
/// are the seven days of one week of the grid, the week that holds
/// `today`; or none, where `today` lies outside the grid.
pub proof fn lemma_current_week_is_one_week(
    year: int,
    month: int,
    tasks: Seq<Task>,
    rule: CustomRule,
    today: Date,
)
    requires
        has_grid(year, month),
    ensures
        forall|week: int, i: int|
            0 <= week < month_view(year, month, tasks, rule, today).weeks.len() && 0 <= i < 7
                ==> (#[trigger] month_view(year, month, tasks, rule, today).weeks[week].days[i]
                .is_current_week <==> grid_start(year, month) + 7 * week == week_start(
                today.day_number(),
            )),
        forall|week: int, i: int|
            0 <= week < month_view(year, month, tasks, rule, today).weeks.len() && 0 <= i < 7
                ==> (#[trigger] month_view(year, month, tasks, rule, today).weeks[week].days[i]
                .is_current_week <==> 7 * week <= today.day_number() - grid_start(year, month) < 7
                * week + 7),
        grid_start(year, month) <= today.day_number() <= grid_end(year, month) ==> {
            let place = today.day_number() - grid_start(year, month);
            &&& 0 <= place / 7 < month_view(year, month, tasks, rule, today).weeks.len()
            &&& forall|i: int|
                0 <= i < 7 ==> (#[trigger] month_view(year, month, tasks, rule, today).weeks[place
                    / 7].days[i]).is_current_week
        },
{
    let calendar = month_view(year, month, tasks, rule, today);
    let start = grid_start(year, month);
    lemma_grid_is_whole_weeks(year, month);
    assert forall|week: int, i: int| 0 <= week < calendar.weeks.len() && 0 <= i < 7 implies (
    #[trigger] calendar.weeks[week].days[i].is_current_week <==> start + 7 * week == week_start(
        today.day_number(),
    )) && (calendar.weeks[week].days[i].is_current_week <==> 7 * week <= today.day_number() - start
        < 7 * week + 7) by {
        lemma_week_of_cell(year, month, tasks, rule, today, week, i);
    }
    if start <= today.day_number() <= grid_end(year, month) {
        let place = today.day_number() - start;
        assert(0 <= place / 7 < calendar.weeks.len());
        assert forall|i: int| 0 <= i < 7 implies (#[trigger] calendar.weeks[place / 7].days[i])
            .is_current_week by {
            lemma_week_of_cell(year, month, tasks, rule, today, place / 7, i);
        }
    }
}

/// Day `i` of week `week` of a month's calendar is flagged as of the
/// current week exactly when that week is the week of `today`.
proof fn lemma_week_of_cell(
    year: int,
    month: int,
    tasks: Seq<Task>,
    rule: CustomRule,
    today: Date,
    week: int,
    i: int,
)
    requires
        has_grid(year, month),
        0 <= week < month_view(year, month, tasks, rule, today).weeks.len(),
        0 <= i < 7,
    ensures
        month_view(year, month, tasks, rule, today).weeks[week].days[i].is_current_week
            <==> grid_start(year, month) + 7 * week == week_start(today.day_number()),
        month_view(year, month, tasks, rule, today).weeks[week].days[i].is_current_week <==> 7
            * week <= today.day_number() - grid_start(year, month) < 7 * week + 7,
{
    lemma_day_of_calendar(year, month, tasks, rule, today, week, i);
    let date = grid_dates(year, month)[7 * week + i];
    assert(month_view(year, month, tasks, rule, today).weeks[week].days[i].is_current_week
        == in_week_of(date, today));
    assert((7 * week + i) / 7 == week);
    lemma_same_week(grid_start(year, month), 7 * week + i, today.day_number());
}

/// The days of a month's calendar that are flagged as of the current month
/// are the days of that month of that year: no padding day has the month's
/// number.
pub proof fn lemma_current_month_is_the_month(
    year: int,
    month: int,
    tasks: Seq<Task>,
    rule: CustomRule,
    today: Date,
    week: int,
    i: int,
)
    requires
        has_grid(year, month),
        0 <= week < month_view(year, month, tasks, rule, today).weeks.len(),
        0 <= i < 7,
    ensures
        month_view(year, month, tasks, rule, today).weeks[week].days[i].is_current_month <==> (
        month_view(year, month, tasks, rule, today).weeks[week].days[i].date@.year == year
            && month_view(year, month, tasks, rule, today).weeks[week].days[i].date@.month
            == month),
        month_view(year, month, tasks, rule, today).weeks[week].days[i].is_current_month <==> (
        day_number(year, month, 1) <= month_view(
            year,
            month,
            tasks,
            rule,
            today,
        ).weeks[week].days[i].date.day_number() <= day_number(
            year,
            month,
            days_in_month(year, month),
        )),
{
    lemma_day_of_calendar(year, month, tasks, rule, today, week, i);
    lemma_grid_bounds(year, month);
    let date = grid_dates(year, month)[7 * week + i];
    let length = days_in_month(year, month);
    lemma_day_number_order(date@.year, date@.month, date@.day, year, month, 1);
    lemma_day_number_order(date@.year, date@.month, date@.day, year, month, length);
    if date@.month == month && date@.year != year {
        lemma_month_a_year_apart(date@.year, year, month, date@.day);
    }
}

/// The same month of two different years: every day of the one is more
/// than 300 days from the first and from the last day of the other.
proof fn lemma_month_a_year_apart(other: int, year: int, month: int, day: int)
    requires
        1 <= month <= 12,
        1 <= day <= days_in_month(other, month),
        other != year,
    ensures
        day_number(other, month, day) < day_number(year, month, 1) - 300 || day_number(
            other,
            month,
            day,
        ) > day_number(year, month, days_in_month(year, month)) + 300,
{
    lemma_days_before_month(other);
    lemma_days_before_month(year);
    if other < year {
        lemma_years_grow(other + 1, year);
        lemma_year_length(other);
    } else {
        lemma_years_grow(year + 1, other);
        lemma_year_length(year);
    }
}

/// A task lands on a day once or not at all: the count of each task among
/// the tasks of a day is its count among the given tasks that are due on
/// the day or recur on it.
pub proof fn lemma_no_task_listed_twice(tasks: Seq<Task>, rule: CustomRule, date: Date)
    ensures
        tasks_on(tasks, rule, date).to_multiset() == tasks.filter(
            |task: Task| task.falls_due_on(date) || task.recurs_on(rule, date),
        ).to_multiset(),
        tasks_on(tasks, rule, date).len() == tasks.filter(
            |task: Task| task.falls_due_on(date) || task.recurs_on(rule, date),
        ).len(),
    decreases tasks.len(),
{
    broadcast use vstd::seq_lib::group_to_multiset_ensures;

    let due = |task: Task| task.falls_due_on(date);
    let recurring = |task: Task| !task.falls_due_on(date) && task.recurs_on(rule, date);
    let either = |task: Task| task.falls_due_on(date) || task.recurs_on(rule, date);
    if tasks.len() == 0 {
        reveal(Seq::filter);
        assert(tasks_on(tasks, rule, date) =~= tasks.filter(either));
    } else {
        let rest = tasks.drop_last();
        let last = tasks.last();
        assert(tasks =~= rest.push(last));
        lemma_no_task_listed_twice(rest, rule, date);
        rest.lemma_filter_push(last, due);
        rest.lemma_filter_push(last, recurring);
        rest.lemma_filter_push(last, either);
        let a = rest.filter(due);
        let b = rest.filter(recurring);
        vstd::seq_lib::lemma_multiset_commutative(a, b);
        if due(last) {
            vstd::seq_lib::lemma_multiset_commutative(a.push(last), b);
            assert(tasks_on(tasks, rule, date) =~= a.push(last) + b);
        } else if recurring(last) {
            assert(tasks_on(tasks, rule, date) =~= (a + b).push(last));
        } else {
            assert(tasks_on(tasks, rule, date) =~= a + b);
        }
    }
}

/// A task lands on a day exactly when it is due on the day or recurs on it.
pub proof fn lemma_lands_on(tasks: Seq<Task>, rule: CustomRule, date: Date, task: Task)
    ensures
        tasks_on(tasks, rule, date).contains(task) <==> tasks.contains(task) && (
        task.falls_due_on(date) || task.recurs_on(rule, date)),
{
    let due = |task: Task| task.falls_due_on(date);
    let recurring = |task: Task| !task.falls_due_on(date) && task.recurs_on(rule, date);
    let a = tasks.filter(due);
    let b = tasks.filter(recurring);
    if (a + b).contains(task) {
        let k = choose|k: int| 0 <= k < (a + b).len() && (a + b)[k] == task;
        if k < a.len() {
            assert(a.contains(a[k]));
            tasks.lemma_filter_contains_rev(due, task);
        } else {
            assert(b.contains(b[k - a.len()]));
            tasks.lemma_filter_contains_rev(recurring, task);
        }
    }
    if tasks.contains(task) && (task.falls_due_on(date) || task.recurs_on(rule, date)) {
        let k = choose|k: int| 0 <= k < tasks.len() && tasks[k] == task;
        if due(task) {
            tasks.lemma_filter_contains(due, k);
            let j = choose|j: int| 0 <= j < a.len() && a[j] == task;
            assert((a + b)[j] == task);
        } else {
            tasks.lemma_filter_contains(recurring, k);
            let j = choose|j: int| 0 <= j < b.len() && b[j] == task;
            assert((a + b)[a.len() + j] == task);
        }
    }
}

/// A month's calendar lists a task on a day of the grid exactly when the
/// task is due on the day or the day is among the task's occurrences in
/// the window of the grid.
pub proof fn lemma_lists_occurrences(
    year: int,
    month: int,
    tasks: Seq<Task>,
    rule: CustomRule,
    date: Date,
    task: Task,
)
    requires
        has_grid(year, month),
        date.wf(),
        grid_start(year, month) <= date.day_number() <= grid_end(year, month),
    ensures
        tasks_on(tasks, rule, date).contains(task) <==> tasks.contains(task) && (
        task.falls_due_on(date) || occurrences(
            task,
            rule,
            grid_start(year, month),
            grid_end(year, month),
        ).contains(date)),
{
    lemma_lands_on(tasks, rule, date, task);
    lemma_occurrences(task, rule, grid_start(year, month), grid_end(year, month), date);
}

} // verus!
