//! The task record and the words that stand for its status and frequency.

use crate::date::{lemma_date_at, Date, Timestamp};
use vstd::prelude::*;
use vstd::string::StrSliceExecFns;

verus! {

/// How often a task comes round again.
#[derive(Clone, Copy, Debug, PartialEq, Eq, Structural)]
pub enum TaskFrequency {
    /// The task does not recur.
    Once,
    Daily,
    Weekly,
    Monthly,
    Yearly,
    Custom,
    /// A word that names no frequency.
    Invalid,
}

/// How far a task has come.
#[derive(Clone, Copy, Debug, PartialEq, Eq, Structural)]
pub enum TaskStatus {
    Pending,
    InProgress,
    Completed,
    Cancelled,
    /// A word that names no status.
    Invalid,
}

/// A task as it is stored: status and frequency are still words.
#[derive(Debug)]
pub struct TaskRow {
    pub id: u128,
    pub name: String,
    pub description: Option<String>,
    pub status: String,
    pub created_at: Timestamp,
    pub updated_at: Timestamp,
    pub due_date: Option<Timestamp>,
    pub frequency: String,
    pub recurrence_date: Option<Timestamp>,
}

/// A task.
#[derive(Debug)]
pub struct Task {
    pub id: u128,
    pub name: String,
    pub description: Option<String>,
    pub status: TaskStatus,
    pub created_at: Timestamp,
    pub updated_at: Timestamp,
    /// When the task is due.
    pub due_date: Option<Timestamp>,
    pub frequency: TaskFrequency,
    /// From when the task recurs, where it has no due date.
    pub recurrence_date: Option<Timestamp>,
}

/// Whether two strings hold the same characters.
fn same_text(a: &str, b: &str) -> (r: bool)
    ensures
        r == (a@ == b@),
{
    let n = a.unicode_len();
    if n != b.unicode_len() {
        return false;
    }
    let mut i: usize = 0;
    while i < n
        invariant
            n == a@.len(),
            n == b@.len(),
            i <= n,
            forall|j: int| 0 <= j < i ==> a@[j] == b@[j],
        decreases n - i,
    {
        if a.get_char(i) != b.get_char(i) {
            return false;
        }
        i += 1;
    }
    assert(a@ =~= b@);
    true
}

impl TaskFrequency {
    /// The word for a frequency.
    pub open spec fn word(self) -> Seq<char> {
        match self {
            TaskFrequency::Once => "none"@,
            TaskFrequency::Daily => "daily"@,
            TaskFrequency::Weekly => "weekly"@,
            TaskFrequency::Monthly => "monthly"@,
            TaskFrequency::Yearly => "yearly"@,
            TaskFrequency::Custom => "custom"@,
            TaskFrequency::Invalid => "invalid"@,
        }
    }

    /// The frequency that a word names: `Invalid` for every word that names
    /// none.
    pub open spec fn named_by(s: Seq<char>) -> TaskFrequency {
        if s == "none"@ {
            TaskFrequency::Once
        } else if s == "daily"@ {
            TaskFrequency::Daily
        } else if s == "weekly"@ {
            TaskFrequency::Weekly
        } else if s == "monthly"@ {
            TaskFrequency::Monthly
        } else if s == "yearly"@ {
            TaskFrequency::Yearly
        } else if s == "custom"@ {
            TaskFrequency::Custom
        } else {
            TaskFrequency::Invalid
        }
    }

    pub fn to_string(&self) -> (r: String)
        ensures
            r@ == self.word(),
    {
        match self {
            TaskFrequency::Once => "none".to_owned(),
            TaskFrequency::Daily => "daily".to_owned(),
            TaskFrequency::Weekly => "weekly".to_owned(),
            TaskFrequency::Monthly => "monthly".to_owned(),
            TaskFrequency::Yearly => "yearly".to_owned(),
            TaskFrequency::Custom => "custom".to_owned(),
            TaskFrequency::Invalid => "invalid".to_owned(),
        }
    }

    pub fn from_str(s: &str) -> (r: TaskFrequency)
        ensures
            r == TaskFrequency::named_by(s@),
    {
        if same_text(s, "none") {
            TaskFrequency::Once
        } else if same_text(s, "daily") {
            TaskFrequency::Daily
        } else if same_text(s, "weekly") {
            TaskFrequency::Weekly
        } else if same_text(s, "monthly") {
            TaskFrequency::Monthly
        } else if same_text(s, "yearly") {
            TaskFrequency::Yearly
        } else if same_text(s, "custom") {
            TaskFrequency::Custom
        } else {
            TaskFrequency::Invalid
        }
    }

    /// The word for a frequency names that frequency.
    pub proof fn lemma_word_names(self)
        ensures
            TaskFrequency::named_by(self.word()) == self,
    {
        reveal_strlit("none");
        reveal_strlit("daily");
        reveal_strlit("weekly");
        reveal_strlit("monthly");
        reveal_strlit("yearly");
        reveal_strlit("custom");
        reveal_strlit("invalid");
        assert("none"@.len() == 4 && "daily"@.len() == 5 && "weekly"@.len() == 6);
        assert("monthly"@.len() == 7 && "yearly"@.len() == 6 && "custom"@.len() == 6);
        assert("weekly"@[0] == 'w' && "yearly"@[0] == 'y' && "custom"@[0] == 'c');
        assert("invalid"@.len() == 7 && "monthly"@[0] == 'm' && "invalid"@[0] == 'i');
    }
}

impl TaskStatus {
    /// The word for a status.
    pub open spec fn word(self) -> Seq<char> {
        match self {
            TaskStatus::Pending => "pending"@,
            TaskStatus::InProgress => "in_progress"@,
            TaskStatus::Completed => "completed"@,
            TaskStatus::Cancelled => "cancelled"@,
            TaskStatus::Invalid => "invalid"@,
        }
    }

    /// The status that a word names: `Invalid` for every word that names
    /// none.
    pub open spec fn named_by(s: Seq<char>) -> TaskStatus {
        if s == "pending"@ {
            TaskStatus::Pending
        } else if s == "in_progress"@ {
            TaskStatus::InProgress
        } else if s == "completed"@ {
            TaskStatus::Completed
        } else if s == "cancelled"@ {
            TaskStatus::Cancelled
        } else {
            TaskStatus::Invalid
        }
    }

    pub fn to_string(&self) -> (r: String)
        ensures
            r@ == self.word(),
    {
        match self {
            TaskStatus::Pending => "pending".to_owned(),
            TaskStatus::InProgress => "in_progress".to_owned(),
            TaskStatus::Completed => "completed".to_owned(),
            TaskStatus::Cancelled => "cancelled".to_owned(),
            TaskStatus::Invalid => "invalid".to_owned(),
        }
    }

    pub fn from_str(s: &str) -> (r: TaskStatus)
        ensures
            r == TaskStatus::named_by(s@),
    {
        if same_text(s, "pending") {
            TaskStatus::Pending
        } else if same_text(s, "in_progress") {
            TaskStatus::InProgress
        } else if same_text(s, "completed") {
            TaskStatus::Completed
        } else if same_text(s, "cancelled") {
            TaskStatus::Cancelled
        } else {
            TaskStatus::Invalid
        }
    }

    /// The word for a status names that status.
    pub proof fn lemma_word_names(self)
        ensures
            TaskStatus::named_by(self.word()) == self,
    {
        reveal_strlit("pending");
        reveal_strlit("in_progress");
        reveal_strlit("completed");
        reveal_strlit("cancelled");
        reveal_strlit("invalid");
        assert("pending"@.len() == 7 && "in_progress"@.len() == 11);
        assert("completed"@.len() == 9 && "cancelled"@.len() == 9);
        assert("completed"@[1] == 'o' && "cancelled"@[1] == 'a');
        assert("invalid"@.len() == 7 && "pending"@[0] == 'p' && "invalid"@[0] == 'i');
    }
}

impl Clone for Task {
    fn clone(&self) -> (r: Task)
        ensures
            r == *self,
    {
        Task {
            id: self.id,
            name: self.name.clone(),
            description: match &self.description {
                Some(text) => Some(text.clone()),
                None => None,
            },
            status: self.status,
            created_at: self.created_at,
            updated_at: self.updated_at,
            due_date: self.due_date,
            frequency: self.frequency,
            recurrence_date: self.recurrence_date,
        }
    }
}

impl From<TaskRow> for Task {
    fn from(row: TaskRow) -> (r: Task) {
        let status = TaskStatus::from_str(row.status.as_str());
        let frequency = TaskFrequency::from_str(row.frequency.as_str());
        Task {
            id: row.id,
            name: row.name,
            description: row.description,
            status,
            created_at: row.created_at,
            updated_at: row.updated_at,
            due_date: row.due_date,
            frequency,
            recurrence_date: row.recurrence_date,
        }
    }
}

impl vstd::std_specs::convert::FromSpecImpl<TaskRow> for Task {
    open spec fn obeys_from_spec() -> bool {
        true
    }

    /// The task of a stored row: every field as it is, status and frequency
    /// by the words that name them.
    open spec fn from_spec(row: TaskRow) -> Task {
        Task {
            id: row.id,
            name: row.name,
            description: row.description,
            status: TaskStatus::named_by(row.status@),
            created_at: row.created_at,
            updated_at: row.updated_at,
            due_date: row.due_date,
            frequency: TaskFrequency::named_by(row.frequency@),
            recurrence_date: row.recurrence_date,
        }
    }
}

impl Task {
    /// Whether the task is due on `date`: its due date, as a UTC date, is
    /// that day.
    pub open spec fn falls_due_on(self, date: Date) -> bool {
        self.due_date matches Some(due) && due.utc_day() == date.day_number()
    }

    /// The date from which the task recurs: the day of the due date where
    /// there is one, else that of the recurrence date. `None` where the task
    /// has neither, or the one it has lies outside the years that a [`Date`]
    /// holds.
    pub open spec fn base(self) -> Option<Date> {
        match self.due_date {
            Some(due) => due.utc_date(),
            None => match self.recurrence_date {
                Some(anchor) => anchor.utc_date(),
                None => None,
            },
        }
    }

    /// Whether the task is due on `date`.
    pub fn due_on(&self, date: &Date) -> (r: bool)
        ensures
            r == self.falls_due_on(*date),
    {
        match self.due_date {
            Some(due) => match due.date_naive() {
                Some(day) => day.is_same(date),
                None => {
                    proof {
                        use_type_invariant(date);
                        lemma_date_at(*date);
                    }
                    false
                },
            },
            None => false,
        }
    }

    /// The date from which the task recurs, if it has one.
    pub fn base_date(&self) -> (r: Option<Date>)
        ensures
            r == self.base(),
            r matches Some(d) ==> d.wf(),
    {
        match self.due_date {
            Some(due) => due.date_naive(),
            None => match self.recurrence_date {
                Some(anchor) => anchor.date_naive(),
                None => None,
            },
        }
    }
}

} // verus!
