//! A month calendar of tasks: the grid of a month padded to whole weeks,
//! the tasks that fall on each of its days, and the days on which a
//! recurring task comes round again.

pub mod calendar;
pub mod date;
pub mod gregorian;
pub mod month;
pub mod recurrence;
pub mod task;

pub use calendar::{CalendarError, CalendarService};
pub use date::{Date, Timestamp};
pub use month::{CalendarDay, CalendarMonth, CalendarWeek};
pub use recurrence::{expand, occurs_on, CustomRule};
pub use task::{Task, TaskFrequency, TaskRow, TaskStatus};
