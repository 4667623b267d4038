//! A task record, the rules that make one valid, and its status transitions.

use vstd::prelude::*;
use vstd::string::StringExecFns;
use crate::error::TaskError;
use vstd::string::StrSliceExecFns;
use crate::time::{now, parse_rfc3339, rfc3339_instant, Timestamp};

verus! {

/// The most characters a title may hold.
pub const MAX_TITLE_CHARS: usize = 200;

/// The most characters a description may hold.
pub const MAX_DESCRIPTION_CHARS: usize = 2000;

/// The most characters a category may hold.
pub const MAX_CATEGORY_CHARS: usize = 50;

/// A task's identifier: the 128-bit value of a random (version 4) UUID.
#[derive(Clone, Copy, Debug, PartialEq, Eq, Structural, PartialOrd, Ord, Hash)]
pub struct TaskId(pub u128);

/// Relies on uuid's `Uuid::new_v4`: a random identifier, read as its 128-bit
/// value with `as_u128`. Nothing is known of which value comes.
#[verifier::external_body]
pub(crate) fn random_task_id() -> (r: TaskId) {
    TaskId(uuid::Uuid::new_v4().as_u128())
}

/// How to change an optional field: leave it, erase it, or give it a value.
#[derive(Debug, Clone)]
pub enum UpdateValue<T> {
    Keep,
    Clear,
    SetTo(T),
}

impl<T> UpdateValue<T> {
    /// The field's value after the directive is applied to `current`.
    pub open spec fn applied_to(self, current: Option<T>) -> Option<T> {
        match self {
            UpdateValue::Keep => current,
            UpdateValue::Clear => None,
            UpdateValue::SetTo(v) => Some(v),
        }
    }
}

/// How urgent a task is, from `Low` up to `Critical`.
#[derive(Clone, Copy, Debug, PartialEq, Eq, Structural, PartialOrd, Ord, Hash)]
pub enum Priority {
    Low,
    Medium,
    High,
    Critical,
}

impl Priority {
    /// The priority's place in the order `Low < Medium < High < Critical`.
    pub open spec fn rank(self) -> int {
        match self {
            Priority::Low => 1,
            Priority::Medium => 2,
            Priority::High => 3,
            Priority::Critical => 4,
        }
    }

    /// The priority's place in the order, from 1 for `Low` to 4 for `Critical`.
    pub fn level(&self) -> (r: u8)
        ensures
            r == self.rank(),
    {
        match self {
            Priority::Low => 1,
            Priority::Medium => 2,
            Priority::High => 3,
            Priority::Critical => 4,
        }
    }
}

/// Where a task stands in its life.
#[derive(Clone, Copy, Debug, PartialEq, Eq, Structural, Hash)]
pub enum TaskStatus {
    /// Created and not started.
    Todo,
    /// Being worked on.
    InProgress,
    /// Finished.
    Done,
    /// Given up.
    Cancelled,
}

/// One work item.
#[derive(Debug, Clone, PartialEq, Eq)]
pub struct Task {
    pub id: TaskId,
    pub title: String,
    pub description: Option<String>,
    pub priority: Priority,
    pub status: TaskStatus,
    pub category: Option<String>,
    pub due_date: Option<Timestamp>,
    pub created_at: Timestamp,
    pub updated_at: Timestamp,
    pub completed_at: Option<Timestamp>,
}

/// The characters of an optional text.
pub open spec fn text_of(text: Option<String>) -> Option<Seq<char>> {
    match text {
        Some(s) => Some(s@),
        None => None,
    }
}

/// An optional text is absent or holds at most `max` characters.
pub open spec fn within(text: Option<Seq<char>>, max: int) -> bool {
    text matches Some(s) ==> s.len() <= max
}

/// A title of 1 to 200 characters, a description of at most 2000 and a
/// category of at most 50.
pub open spec fn fields_valid(
    title: Seq<char>,
    description: Option<Seq<char>>,
    category: Option<Seq<char>>,
) -> bool {
    &&& 1 <= title.len() <= MAX_TITLE_CHARS
    &&& within(description, MAX_DESCRIPTION_CHARS as int)
    &&& within(category, MAX_CATEGORY_CHARS as int)
}

/// One message for each rule of `fields_valid` that the fields break, in the
/// order title, description, category.
pub open spec fn field_problems(
    title: Seq<char>,
    description: Option<Seq<char>>,
    category: Option<Seq<char>>,
) -> Seq<Seq<char>> {
    (if 1 <= title.len() <= MAX_TITLE_CHARS {
        Seq::empty()
    } else {
        seq!["title: Title must be between 1-200 characters"@]
    }) + (if within(description, MAX_DESCRIPTION_CHARS as int) {
        Seq::empty()
    } else {
        seq!["description: Description must not exceed 2000 characters"@]
    }) + (if within(category, MAX_CATEGORY_CHARS as int) {
        Seq::empty()
    } else {
        seq!["category: Category must not exceed 50 characters"@]
    })
}

/// Parts of a message, separated by "; ".
pub open spec fn joined(parts: Seq<Seq<char>>) -> Seq<char>
    decreases parts.len(),
{
    if parts.len() == 0 {
        Seq::empty()
    } else if parts.len() == 1 {
        parts[0]
    } else {
        joined(parts.drop_last()) + "; "@ + parts.last()
    }
}

/// The fresh task that creation builds: status `Todo`, created and updated
/// at `at`, never completed.
pub open spec fn fresh_task(
    id: TaskId,
    at: Timestamp,
    title: String,
    description: Option<String>,
    priority: Priority,
    category: Option<String>,
    due_date: Option<Timestamp>,
) -> Task {
    Task {
        id,
        title,
        description,
        priority,
        status: TaskStatus::Todo,
        category,
        due_date,
        created_at: at,
        updated_at: at,
        completed_at: None,
    }
}

impl Task {
    /// The task's text fields keep to the rules of `fields_valid`.
    pub open spec fn valid(self) -> bool {
        fields_valid(self.title@, text_of(self.description), text_of(self.category))
    }

    /// One message for each rule that the task's text fields break.
    pub open spec fn problems(self) -> Seq<Seq<char>> {
        field_problems(self.title@, text_of(self.description), text_of(self.category))
    }

    /// The latest of the task's creation and last change: no change may be
    /// stamped before it.
    pub open spec fn last_stamp(self) -> Timestamp {
        if self.updated_at.before(self.created_at) {
            self.created_at
        } else {
            self.updated_at
        }
    }

    /// The time stamped on a change made at `at`: never before the task's
    /// creation or its last change, so that `updated_at` only moves forward
    /// (a clock that was set back does not move it back).
    pub open spec fn stamp(self, at: Timestamp) -> Timestamp {
        if at.before(self.last_stamp()) {
            self.last_stamp()
        } else {
            at
        }
    }

    /// The task marked done at `at`, with its completion time recorded.
    pub open spec fn done_at(self, at: Timestamp) -> Task {
        Task {
            status: TaskStatus::Done,
            completed_at: Some(self.stamp(at)),
            updated_at: self.stamp(at),
            ..self
        }
    }

    /// The task marked in progress at `at`. A completion time recorded
    /// earlier is kept.
    pub open spec fn started_at(self, at: Timestamp) -> Task {
        Task { status: TaskStatus::InProgress, updated_at: self.stamp(at), ..self }
    }

    /// The task marked cancelled at `at`. A completion time recorded
    /// earlier is kept.
    pub open spec fn cancelled_at(self, at: Timestamp) -> Task {
        Task { status: TaskStatus::Cancelled, updated_at: self.stamp(at), ..self }
    }

    /// The task past its due date at `at`: it has one, it lies strictly
    /// before `at`, and the task is not done.
    pub open spec fn overdue_at(self, at: Timestamp) -> bool {
        match self.due_date {
            Some(due) => self.status != TaskStatus::Done && due.before(at),
            None => false,
        }
    }

    /// The task with the given fields changed, and nothing else.
    pub open spec fn with_fields(
        self,
        title: Option<String>,
        description: UpdateValue<String>,
        priority: Option<Priority>,
        category: UpdateValue<String>,
        due_date: UpdateValue<Timestamp>,
    ) -> Task {
        Task {
            title: match title {
                Some(t) => t,
                None => self.title,
            },
            description: description.applied_to(self.description),
            priority: match priority {
                Some(p) => p,
                None => self.priority,
            },
            category: category.applied_to(self.category),
            due_date: due_date.applied_to(self.due_date),
            ..self
        }
    }

    /// The task after an update made at `at`: the fields changed, and the
    /// change stamped.
    pub open spec fn updated(
        self,
        title: Option<String>,
        description: UpdateValue<String>,
        priority: Option<Priority>,
        category: UpdateValue<String>,
        due_date: UpdateValue<Timestamp>,
        at: Timestamp,
    ) -> Task {
        Task {
            updated_at: self.stamp(at),
            ..self.with_fields(title, description, priority, category, due_date)
        }
    }

    /// A task built from all of its parts, as creation at `at` makes it.
    pub fn from_parts(
        id: TaskId,
        at: Timestamp,
        title: String,
        description: Option<String>,
        priority: Priority,
        category: Option<String>,
        due_date: Option<Timestamp>,
    ) -> (r: Task)
        ensures
            r == fresh_task(id, at, title, description, priority, category, due_date),
    {
        Task {
            id,
            title,
            description,
            priority,
            status: TaskStatus::Todo,
            category,
            due_date,
            created_at: at,
            updated_at: at,
            completed_at: None,
        }
    }

    /// A new task with a random identifier, created now: priority `Medium`,
    /// status `Todo`, and no description, category or due date.
    pub fn new(title: String) -> (r: Task)
        ensures
            r == fresh_task(r.id, r.created_at, title, None, Priority::Medium, None, None),
            r.created_at.nanos < 1_000_000_000,
    {
        Task::with_details(title, None, Priority::Medium, None, None)
    }

    /// A new task with a random identifier and the given details, created
    /// now, with status `Todo`.
    pub fn with_details(
        title: String,
        description: Option<String>,
        priority: Priority,
        category: Option<String>,
        due_date: Option<Timestamp>,
    ) -> (r: Task)
        ensures
            r == fresh_task(r.id, r.created_at, title, description, priority, category, due_date),
            r.created_at.nanos < 1_000_000_000,
    {
        let id = random_task_id();
        let at = now();
        Task::from_parts(id, at, title, description, priority, category, due_date)
    }

    /// Checks the task against the rules of `valid`; the error lists each
    /// broken rule.
    pub fn validate(&self) -> (r: Result<(), TaskError>)
        ensures
            match r {
                Ok(_) => self.valid(),
                Err(e) => !self.valid() && (e matches TaskError::ValidationError(m) && m@
                    == joined(self.problems())),
            },
    {
        check_fields(self.title.as_str(), opt_str(&self.description), opt_str(&self.category))
    }
}

/// The text of an optional string, borrowed.
pub(crate) fn opt_str(text: &Option<String>) -> (r: Option<&str>)
    ensures
        r matches Some(s) ==> text_of(*text) == Some(s@),
        r is None ==> text_of(*text) is None,
{
    match text {
        Some(s) => Some(s.as_str()),
        None => None,
    }
}

/// Checks text fields against the rules of `fields_valid`; the error lists
/// each broken rule.
pub(crate) fn check_fields(title: &str, description: Option<&str>, category: Option<&str>) -> (r:
    Result<(), TaskError>)
    ensures
        ({
            let d = match description {
                Some(s) => Some(s@),
                None => None::<Seq<char>>,
            };
            let c = match category {
                Some(s) => Some(s@),
                None => None::<Seq<char>>,
            };
            match r {
                Ok(_) => fields_valid(title@, d, c),
                Err(e) => !fields_valid(title@, d, c) && (e matches TaskError::ValidationError(m)
                    && m@ == joined(field_problems(title@, d, c))),
            }
        }),
{
    let ghost d = match description {
        Some(s) => Some(s@),
        None => None::<Seq<char>>,
    };
    let ghost c = match category {
        Some(s) => Some(s@),
        None => None::<Seq<char>>,
    };
    let n = title.unicode_len();
    let title_ok = 1 <= n && n <= MAX_TITLE_CHARS;
    let description_ok = match description {
        Some(d) => d.unicode_len() <= MAX_DESCRIPTION_CHARS,
        None => true,
    };
    let category_ok = match category {
        Some(c) => c.unicode_len() <= MAX_CATEGORY_CHARS,
        None => true,
    };
    if title_ok && description_ok && category_ok {
        return Ok(());
    }
    let mut message = String::new();
    let ghost mut parts: Seq<Seq<char>> = Seq::empty();
    if !title_ok {
        add_problem(&mut message, true, Ghost(parts), "title: Title must be between 1-200 characters");
        proof {
            parts = parts.push("title: Title must be between 1-200 characters"@);
        }
    }
    if !description_ok {
        add_problem(
            &mut message,
            title_ok,
            Ghost(parts),
            "description: Description must not exceed 2000 characters",
        );
        proof {
            parts = parts.push("description: Description must not exceed 2000 characters"@);
        }
    }
    if !category_ok {
        add_problem(
            &mut message,
            title_ok && description_ok,
            Ghost(parts),
            "category: Category must not exceed 50 characters",
        );
        proof {
            parts = parts.push("category: Category must not exceed 50 characters"@);
        }
    }
    assert(parts =~= field_problems(title@, d, c));
    Err(TaskError::ValidationError(message))
}

impl Task {
    /// The time to stamp on a change made at `at`.
    fn stamp_for(&self, at: Timestamp) -> (r: Timestamp)
        ensures
            r == self.stamp(at),
    {
        let last = if self.updated_at.is_before(&self.created_at) {
            self.created_at
        } else {
            self.updated_at
        };
        if at.is_before(&last) {
            last
        } else {
            at
        }
    }

    /// Marks the task done at `at`, recording when it was completed.
    pub fn complete_at(&mut self, at: Timestamp)
        ensures
            *final(self) == old(self).done_at(at),
    {
        let t = self.stamp_for(at);
        self.status = TaskStatus::Done;
        self.completed_at = Some(t);
        self.updated_at = t;
    }

    /// Marks the task done now, recording when it was completed.
    pub fn complete(&mut self)
        ensures
            *final(self) == old(self).done_at(final(self).updated_at),
            old(self).created_at.not_after(final(self).updated_at),
            old(self).updated_at.not_after(final(self).updated_at),
    {
        let at = now();
        self.complete_at(at);
    }

    /// Marks the task in progress at `at`, whatever its status was.
    pub fn start_at(&mut self, at: Timestamp)
        ensures
            *final(self) == old(self).started_at(at),
    {
        let t = self.stamp_for(at);
        self.status = TaskStatus::InProgress;
        self.updated_at = t;
    }

    /// Marks the task in progress now, whatever its status was.
    pub fn start(&mut self)
        ensures
            *final(self) == old(self).started_at(final(self).updated_at),
            old(self).created_at.not_after(final(self).updated_at),
            old(self).updated_at.not_after(final(self).updated_at),
    {
        let at = now();
        self.start_at(at);
    }

    /// Marks the task cancelled at `at`, whatever its status was.
    pub fn cancel_at(&mut self, at: Timestamp)
        ensures
            *final(self) == old(self).cancelled_at(at),
    {
        let t = self.stamp_for(at);
        self.status = TaskStatus::Cancelled;
        self.updated_at = t;
    }

    /// Marks the task cancelled now, whatever its status was.
    pub fn cancel(&mut self)
        ensures
            *final(self) == old(self).cancelled_at(final(self).updated_at),
            old(self).created_at.not_after(final(self).updated_at),
            old(self).updated_at.not_after(final(self).updated_at),
    {
        let at = now();
        self.cancel_at(at);
    }

    /// Changes the given fields at `at`: a title or priority replaces the
    /// old one where given, and each optional field follows its directive.
    /// Nothing is validated here.
    pub fn update_at(
        &mut self,
        title: Option<String>,
        description: UpdateValue<String>,
        priority: Option<Priority>,
        category: UpdateValue<String>,
        due_date: UpdateValue<Timestamp>,
        at: Timestamp,
    )
        ensures
            *final(self) == old(self).updated(title, description, priority, category, due_date, at),
    {
        let t = self.stamp_for(at);
        if let Some(title) = title {
            self.title = title;
        }
        match description {
            UpdateValue::SetTo(d) => self.description = Some(d),
            UpdateValue::Clear => self.description = None,
            UpdateValue::Keep => {},
        }
        if let Some(priority) = priority {
            self.priority = priority;
        }
        match category {
            UpdateValue::SetTo(c) => self.category = Some(c),
            UpdateValue::Clear => self.category = None,
            UpdateValue::Keep => {},
        }
        match due_date {
            UpdateValue::SetTo(d) => self.due_date = Some(d),
            UpdateValue::Clear => self.due_date = None,
            UpdateValue::Keep => {},
        }
        self.updated_at = t;
    }

    /// Changes the given fields now, as `update_at` does.
    pub fn update(
        &mut self,
        title: Option<String>,
        description: UpdateValue<String>,
        priority: Option<Priority>,
        category: UpdateValue<String>,
        due_date: UpdateValue<Timestamp>,
    )
        ensures
            *final(self) == old(self).updated(
                title,
                description,
                priority,
                category,
                due_date,
                final(self).updated_at,
            ),
            old(self).created_at.not_after(final(self).updated_at),
            old(self).updated_at.not_after(final(self).updated_at),
    {
        let at = now();
        self.update_at(title, description, priority, category, due_date, at);
    }

    /// Whether the task is overdue at `at`.
    pub fn is_overdue_at(&self, at: Timestamp) -> (r: bool)
        ensures
            r == self.overdue_at(at),
    {
        match self.due_date {
            Some(due) => self.status != TaskStatus::Done && due.is_before(&at),
            None => false,
        }
    }

    /// Whether the task is overdue now: only a task with a due date that is
    /// not done can be.
    pub fn is_overdue(&self) -> (r: bool)
        ensures
            exists|at: Timestamp| at.nanos < 1_000_000_000 && r == #[trigger] self.overdue_at(at),
            r ==> self.due_date is Some && self.status != TaskStatus::Done,
    {
        let at = now();
        self.is_overdue_at(at)
    }

    /// The status as shown to a user.
    pub open spec fn status_label(self) -> Seq<char> {
        match self.status {
            TaskStatus::Todo => "\u{1F4CB} TODO"@,
            TaskStatus::InProgress => "\u{1F504} IN PROGRESS"@,
            TaskStatus::Done => "\u{2705} DONE"@,
            TaskStatus::Cancelled => "\u{274C} CANCELLED"@,
        }
    }

    /// The priority as shown to a user.
    pub open spec fn priority_label(self) -> Seq<char> {
        match self.priority {
            Priority::Low => "\u{1F7E2} LOW"@,
            Priority::Medium => "\u{1F7E1} MEDIUM"@,
            Priority::High => "\u{1F7E0} HIGH"@,
            Priority::Critical => "\u{1F534} CRITICAL"@,
        }
    }

    /// The status as shown to a user, with its symbol.
    pub fn status_display(&self) -> (r: &'static str)
        ensures
            r@ == self.status_label(),
    {
        match self.status {
            TaskStatus::Todo => "\u{1F4CB} TODO",
            TaskStatus::InProgress => "\u{1F504} IN PROGRESS",
            TaskStatus::Done => "\u{2705} DONE",
            TaskStatus::Cancelled => "\u{274C} CANCELLED",
        }
    }

    /// The priority as shown to a user, with its symbol.
    pub fn priority_display(&self) -> (r: &'static str)
        ensures
            r@ == self.priority_label(),
    {
        match self.priority {
            Priority::Low => "\u{1F7E2} LOW",
            Priority::Medium => "\u{1F7E1} MEDIUM",
            Priority::High => "\u{1F7E0} HIGH",
            Priority::Critical => "\u{1F534} CRITICAL",
        }
    }
}

impl Default for Task {
    /// A new task with an empty title (which does not pass validation).
    fn default() -> (r: Task)
        ensures
            r == fresh_task(r.id, r.created_at, r.title, None, Priority::Medium, None, None),
            r.title@.len() == 0,
    {
        Task::new(String::new())
    }
}

/// A task without a due date is never overdue, nor is a done task; any
/// other task is overdue exactly when its due date lies strictly in the past.
pub proof fn law_overdue_rules(t: Task, at: Timestamp)
    ensures
        t.due_date is None ==> !t.overdue_at(at),
        t.status == TaskStatus::Done ==> !t.overdue_at(at),
        t.overdue_at(at) <==> (t.status != TaskStatus::Done && (t.due_date matches Some(due)
            && due.before(at))),
{
}

/// The outcome of reading `text` as a date-and-time, given what the parse
/// gave: the instant in UTC, or `DateParseError` carrying the text.
pub fn datetime_from_parsed(parsed: Option<(i64, u32)>, text: &str) -> (r: Result<Timestamp, TaskError>)
    ensures
        match parsed {
            Some(p) => r == Ok::<Timestamp, TaskError>(Timestamp { secs: p.0, nanos: p.1 }),
            None => r matches Err(TaskError::DateParseError(s)) && s@ == text@,
        },
{
    match parsed {
        Some(p) => Ok(Timestamp { secs: p.0, nanos: p.1 }),
        None => Err(TaskError::DateParseError(text.to_owned())),
    }
}

/// Reads an RFC 3339 date-and-time (such as `2024-01-01T12:00:00Z`) as an
/// instant in UTC. A text that is no such value gives `DateParseError`,
/// which carries the text.
pub fn parse_datetime(date_str: &str) -> (r: Result<Timestamp, TaskError>)
    ensures
        match rfc3339_instant(date_str@) {
            Some(p) => r == Ok::<Timestamp, TaskError>(Timestamp { secs: p.0, nanos: p.1 }),
            None => r matches Err(TaskError::DateParseError(s)) && s@ == date_str@,
        },
{
    datetime_from_parsed(parse_rfc3339(date_str), date_str)
}

/// Appends one problem to a message that lists `parts`.
fn add_problem(message: &mut String, first: bool, parts: Ghost<Seq<Seq<char>>>, problem: &str)
    requires
        old(message)@ == joined(parts@),
        first == (parts@.len() == 0),
    ensures
        final(message)@ == joined(parts@.push(problem@)),
{
    assert(parts@.push(problem@).drop_last() =~= parts@);
    if !first {
        message.append("; ");
    }
    message.append(problem);
}

} // verus!
