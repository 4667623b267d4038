//! The command-line surface of the task tracker as plain data, and the rules
//! that turn what a user typed into the library's values.

use vstd::prelude::*;
use crate::error::TaskError;
use crate::manager::{
    lists_exactly, matches_query, overdue_in, select, sorted_by, TaskManager, TaskManagerConfig,
    TaskSort,
};
use crate::task::{parse_datetime, Priority, Task, TaskId, TaskStatus, UpdateValue};
use crate::text::lower_of;
use crate::time::{now, rfc3339_instant, Timestamp};
use vstd::std_specs::convert::FromSpecImpl;
use vstd::utf8::encode_utf8;

verus! {

/// A character folded to lowercase if it is an ASCII capital letter.
pub open spec fn ascii_folded(c: char) -> int {
    if 65 <= c as int <= 90 {
        c as int + 32
    } else {
        c as int
    }
}

/// `a` and `b` are equal when ASCII letters are compared without case.
pub open spec fn eq_ascii_folded(a: Seq<char>, b: Seq<char>) -> bool {
    &&& a.len() == b.len()
    &&& forall|i: int| 0 <= i < a.len() ==> ascii_folded(#[trigger] a[i]) == ascii_folded(b[i])
}

/// The value of a run of decimal digits.
pub open spec fn digits_value(s: Seq<char>) -> int
    decreases s.len(),
{
    if s.len() == 0 {
        0
    } else {
        digits_value(s.drop_last()) * 10 + (s.last() as int - 48)
    }
}

/// A non-empty run of ASCII decimal digits.
pub open spec fn all_digits(s: Seq<char>) -> bool {
    s.len() > 0 && forall|i: int| 0 <= i < s.len() ==> 48 <= #[trigger] s[i] as int <= 57
}

/// What `str::parse::<usize>` reads from a text: an optional `+` followed
/// by decimal digits, whose value fits in a `usize`.
pub open spec fn usize_text(s: Seq<char>) -> Option<usize> {
    let digits = if s.len() > 0 && s[0] == '+' {
        s.drop_first()
    } else {
        s
    };
    if all_digits(digits) && digits_value(digits) <= usize::MAX {
        Some(digits_value(digits) as usize)
    } else {
        None
    }
}

/// What `str::trim` keeps of a text: the text without its leading and
/// trailing Unicode white space.
pub uninterp spec fn trimmed_of(s: Seq<char>) -> Seq<char>;

/// Relies on `str::trim`: the result depends on the characters alone.
#[verifier::external_body]
pub(crate) fn trim_text(s: &str) -> (r: &str)
    ensures
        r@ == trimmed_of(s@),
{
    s.trim()
}

/// Relies on `str::eq_ignore_ascii_case`: equal once ASCII letters are
/// folded to lowercase, character by character.
#[verifier::external_body]
pub(crate) fn same_text_ignoring_ascii_case(a: &str, b: &str) -> (r: bool)
    ensures
        r == eq_ascii_folded(a@, b@),
{
    a.eq_ignore_ascii_case(b)
}

/// Relies on `str::parse::<usize>`, whose documentation (`from_str_radix`)
/// accepts an optional `+` and then digits only, and refuses a value that
/// does not fit.
#[verifier::external_body]
pub(crate) fn parse_usize(s: &str) -> (r: Option<usize>)
    ensures
        r == usize_text(s@),
{
    s.parse::<usize>().ok()
}

/// The longest input, in bytes, that a prompt accepts.
pub const MAX_INPUT_LENGTH: usize = 1000;

/// The largest file, in bytes, that an import reads.
pub const MAX_IMPORT_SIZE: u64 = 10485760;

/// A parsed command line.
pub struct Cli {
    pub command: Commands,
    pub verbose: bool,
    pub file: Option<String>,
}

/// The commands of the task tracker.
pub enum Commands {
    Add {
        title: String,
        description: Option<String>,
        priority: PriorityArg,
        category: Option<String>,
        due_date: Option<String>,
    },
    List {
        status: Option<StatusArg>,
        priority: Option<PriorityArg>,
        category: Option<String>,
        overdue: bool,
        sort: SortArg,
        limit: Option<usize>,
        search: Option<String>,
    },
    Show { id: String },
    Update {
        id: String,
        title: Option<String>,
        description: Option<String>,
        priority: Option<PriorityArg>,
        category: Option<String>,
        due_date: Option<String>,
    },
    Complete { id: Option<String> },
    Start { id: Option<String> },
    Cancel { id: Option<String> },
    Delete { id: Option<String>, force: bool },
    DeleteAll { force: bool },
    Stats,
    Clear { all: bool, force: bool },
    Import { file: String },
    Export { file: String },
}

/// A priority as given on the command line.
#[derive(Clone, Copy, Debug, PartialEq, Eq, Structural)]
pub enum PriorityArg {
    Low,
    Medium,
    High,
    Critical,
}

/// A status as given on the command line.
#[derive(Clone, Copy, Debug, PartialEq, Eq, Structural)]
pub enum StatusArg {
    Todo,
    InProgress,
    Done,
    Cancelled,
}

/// An order as given on the command line.
#[derive(Clone, Copy, Debug, PartialEq, Eq, Structural)]
pub enum SortArg {
    CreatedAsc,
    CreatedDesc,
    DueDateAsc,
    DueDateDesc,
    PriorityAsc,
    PriorityDesc,
    TitleAsc,
    TitleDesc,
}

impl From<PriorityArg> for Priority {
    fn from(arg: PriorityArg) -> (r: Priority) {
        match arg {
            PriorityArg::Low => Priority::Low,
            PriorityArg::Medium => Priority::Medium,
            PriorityArg::High => Priority::High,
            PriorityArg::Critical => Priority::Critical,
        }
    }
}

impl FromSpecImpl<PriorityArg> for Priority {
    open spec fn obeys_from_spec() -> bool {
        true
    }

    open spec fn from_spec(v: PriorityArg) -> Priority {
        match v {
            PriorityArg::Low => Priority::Low,
            PriorityArg::Medium => Priority::Medium,
            PriorityArg::High => Priority::High,
            PriorityArg::Critical => Priority::Critical,
        }
    }
}

impl From<StatusArg> for TaskStatus {
    fn from(arg: StatusArg) -> (r: TaskStatus) {
        match arg {
            StatusArg::Todo => TaskStatus::Todo,
            StatusArg::InProgress => TaskStatus::InProgress,
            StatusArg::Done => TaskStatus::Done,
            StatusArg::Cancelled => TaskStatus::Cancelled,
        }
    }
}

impl FromSpecImpl<StatusArg> for TaskStatus {
    open spec fn obeys_from_spec() -> bool {
        true
    }

    open spec fn from_spec(v: StatusArg) -> TaskStatus {
        match v {
            StatusArg::Todo => TaskStatus::Todo,
            StatusArg::InProgress => TaskStatus::InProgress,
            StatusArg::Done => TaskStatus::Done,
            StatusArg::Cancelled => TaskStatus::Cancelled,
        }
    }
}

impl From<SortArg> for TaskSort {
    fn from(arg: SortArg) -> (r: TaskSort) {
        match arg {
            SortArg::CreatedAsc => TaskSort::CreatedAsc,
            SortArg::CreatedDesc => TaskSort::CreatedDesc,
            SortArg::DueDateAsc => TaskSort::DueDateAsc,
            SortArg::DueDateDesc => TaskSort::DueDateDesc,
            SortArg::PriorityAsc => TaskSort::PriorityAsc,
            SortArg::PriorityDesc => TaskSort::PriorityDesc,
            SortArg::TitleAsc => TaskSort::TitleAsc,
            SortArg::TitleDesc => TaskSort::TitleDesc,
        }
    }
}

impl FromSpecImpl<SortArg> for TaskSort {
    open spec fn obeys_from_spec() -> bool {
        true
    }

    open spec fn from_spec(v: SortArg) -> TaskSort {
        match v {
            SortArg::CreatedAsc => TaskSort::CreatedAsc,
            SortArg::CreatedDesc => TaskSort::CreatedDesc,
            SortArg::DueDateAsc => TaskSort::DueDateAsc,
            SortArg::DueDateDesc => TaskSort::DueDateDesc,
            SortArg::PriorityAsc => TaskSort::PriorityAsc,
            SortArg::PriorityDesc => TaskSort::PriorityDesc,
            SortArg::TitleAsc => TaskSort::TitleAsc,
            SortArg::TitleDesc => TaskSort::TitleDesc,
        }
    }
}

impl Cli {
    /// The store's configuration: the file given, or `tasks.json`, saved
    /// after each command.
    pub fn manager_config(&self) -> (r: TaskManagerConfig)
        ensures
            match self.file {
                Some(f) => r.storage_path@ == f@,
                None => r.storage_path@ == "tasks.json"@,
            },
            r.auto_save,
    {
        let storage_path = match &self.file {
            Some(f) => f.clone(),
            None => "tasks.json".to_owned(),
        };
        TaskManagerConfig { storage_path, auto_save: true }
    }
}

/// What a text argument of `update` asks for an optional field: nothing
/// given keeps it, an empty text clears it, any other text sets it.
pub fn update_text_arg(arg: Option<String>) -> (r: UpdateValue<String>)
    ensures
        match arg {
            None => r is Keep,
            Some(s) => if s@.len() == 0 {
                r is Clear
            } else {
                r == UpdateValue::SetTo(s)
            },
        },
{
    match arg {
        None => UpdateValue::Keep,
        Some(s) => if s.as_str().is_empty() {
            UpdateValue::Clear
        } else {
            UpdateValue::SetTo(s)
        },
    }
}

/// What the due-date argument of `update` asks for: nothing given keeps
/// the date, an empty text clears it, any other text must be an RFC 3339
/// date-and-time, which it sets.
pub fn update_due_arg(arg: Option<String>) -> (r: Result<UpdateValue<Timestamp>, TaskError>)
    ensures
        match arg {
            None => r matches Ok(UpdateValue::Keep),
            Some(s) => if s@.len() == 0 {
                r matches Ok(UpdateValue::Clear)
            } else {
                match rfc3339_instant(s@) {
                    Some(p) => r matches Ok(UpdateValue::SetTo(t)) && t == (Timestamp {
                        secs: p.0,
                        nanos: p.1,
                    }),
                    None => r matches Err(TaskError::DateParseError(e)) && e@ == s@,
                }
            },
        },
{
    match arg {
        None => Ok(UpdateValue::Keep),
        Some(s) => if s.as_str().is_empty() {
            Ok(UpdateValue::Clear)
        } else {
            match parse_datetime(s.as_str()) {
                Ok(t) => Ok(UpdateValue::SetTo(t)),
                Err(e) => Err(e),
            }
        },
    }
}

/// The due date of `add`: nothing given or an empty text is no date; any
/// other text must be an RFC 3339 date-and-time.
pub fn due_date_arg(arg: Option<String>) -> (r: Result<Option<Timestamp>, TaskError>)
    ensures
        match arg {
            None => r == Ok::<Option<Timestamp>, TaskError>(None),
            Some(s) => if s@.len() == 0 {
                r == Ok::<Option<Timestamp>, TaskError>(None)
            } else {
                match rfc3339_instant(s@) {
                    Some(p) => r == Ok::<Option<Timestamp>, TaskError>(
                        Some(Timestamp { secs: p.0, nanos: p.1 }),
                    ),
                    None => r matches Err(TaskError::DateParseError(e)) && e@ == s@,
                }
            },
        },
{
    match arg {
        None => Ok(None),
        Some(s) => if s.as_str().is_empty() {
            Ok(None)
        } else {
            match parse_datetime(s.as_str()) {
                Ok(t) => Ok(Some(t)),
                Err(e) => Err(e),
            }
        },
    }
}

/// A prompt's answer once trimmed: refused if it is longer than 1000 bytes.
pub fn bounded_input(trimmed: &str) -> (r: Result<String, TaskError>)
    ensures
        encode_utf8(trimmed@).len() as usize > MAX_INPUT_LENGTH ==> (r matches Err(
            TaskError::ValidationError(m),
        ) && m@ == "Input too long"@),
        encode_utf8(trimmed@).len() as usize <= MAX_INPUT_LENGTH ==> (r matches Ok(s) && s@
            == trimmed@),
{
    if trimmed.len() > MAX_INPUT_LENGTH {
        return Err(TaskError::ValidationError("Input too long".to_owned()));
    }
    Ok(trimmed.to_owned())
}

/// A line typed at a prompt, without its surrounding white space; refused
/// if what remains is longer than 1000 bytes.
pub fn sanitize_input(input: &str) -> (r: Result<String, TaskError>)
    ensures
        encode_utf8(trimmed_of(input@)).len() as usize > MAX_INPUT_LENGTH ==> (r matches Err(
            TaskError::ValidationError(m),
        ) && m@ == "Input too long"@),
        encode_utf8(trimmed_of(input@)).len() as usize <= MAX_INPUT_LENGTH ==> (r matches Ok(s) && s@
            == trimmed_of(input@)),
{
    bounded_input(trim_text(input))
}

/// The answer agrees: `y` or `yes`, in any case of ASCII letters.
pub fn is_confirmation(input: &str) -> (r: bool)
    ensures
        r == (eq_ascii_folded(input@, "y"@) || eq_ascii_folded(input@, "yes"@)),
{
    same_text_ignoring_ascii_case(input, "y") || same_text_ignoring_ascii_case(input, "yes")
}

/// The outcome of picking a task from a numbered list.
#[derive(Clone, Copy, Debug, PartialEq, Eq, Structural)]
pub enum Selection {
    /// The user gave up.
    Cancelled,
    /// The task at this index of the list (counted from 0).
    Chosen(usize),
    /// The answer named no task of the list.
    Invalid,
}

/// Reads the answer to a numbered list of `count` tasks, numbered from 1:
/// `q` or `quit` (in any ASCII case) gives up, a number from 1 to `count`
/// picks that task, anything else is invalid.
pub fn parse_selection(input: &str, count: usize) -> (r: Selection)
    ensures
        eq_ascii_folded(input@, "q"@) || eq_ascii_folded(input@, "quit"@) ==> r == Selection::Cancelled,
        !(eq_ascii_folded(input@, "q"@) || eq_ascii_folded(input@, "quit"@)) ==> match usize_text(
            input@,
        ) {
            Some(n) => if 1 <= n <= count {
                r == Selection::Chosen((n - 1) as usize)
            } else {
                r == Selection::Invalid
            },
            None => r == Selection::Invalid,
        },
{
    if same_text_ignoring_ascii_case(input, "q") || same_text_ignoring_ascii_case(input, "quit") {
        return Selection::Cancelled;
    }
    match parse_usize(input) {
        Some(n) => if 1 <= n && n <= count {
            Selection::Chosen(n - 1)
        } else {
            Selection::Invalid
        },
        None => Selection::Invalid,
    }
}

/// Whether a file of `len` bytes is small enough to import.
pub fn import_size_allowed(len: u64) -> (r: bool)
    ensures
        r == (len <= MAX_IMPORT_SIZE),
{
    len <= MAX_IMPORT_SIZE
}

/// What `list` shows: the filters, of which the first given wins (search,
/// then overdue, status, priority, category), the order used when none is
/// given, and how many tasks at most.
pub struct ListQuery {
    pub status: Option<TaskStatus>,
    pub priority: Option<Priority>,
    pub category: Option<String>,
    pub overdue: bool,
    pub sort: TaskSort,
    pub limit: Option<usize>,
    pub search: Option<String>,
}

impl ListQuery {
    /// No filter is given, so the whole store is listed in `sort`.
    pub open spec fn unfiltered(&self) -> bool {
        &&& self.search is None
        &&& !self.overdue
        &&& self.status is None
        &&& self.priority is None
        &&& self.category is None
    }

    /// The entries of `m` that the query shows, overdue ones judged at `at`.
    pub open spec fn chosen(&self, m: Map<TaskId, Task>, at: Timestamp) -> Map<TaskId, Task> {
        match self.search {
            Some(q) => select(m, |t: Task| matches_query(t, lower_of(q@))),
            None => if self.overdue {
                overdue_in(m, at)
            } else {
                match self.status {
                    Some(s) => select(m, |t: Task| t.status == s),
                    None => match self.priority {
                        Some(p) => select(m, |t: Task| t.priority == p),
                        None => match self.category {
                            Some(c) => select(m, |t: Task| t.category matches Some(x) && x@ == c@),
                            None => m,
                        },
                    },
                }
            },
        }
    }

    /// `r` is what the query shows of `m` at `at`: a listing of the chosen
    /// tasks (sorted when no filter is given), cut to the limit.
    pub open spec fn shows(&self, r: Seq<Task>, m: Map<TaskId, Task>, at: Timestamp) -> bool {
        exists|full: Seq<Task>|
            #[trigger] lists_exactly(full, self.chosen(m, at)) && (self.unfiltered() ==> sorted_by(
                full,
                self.sort,
            )) && r == match self.limit {
                Some(n) => if n < full.len() {
                    full.take(n as int)
                } else {
                    full
                },
                None => full,
            }
    }
}

impl TaskManager {
    /// The tasks that `query` shows, overdue ones judged at `at`.
    pub fn list_tasks_at(&self, query: &ListQuery, at: Timestamp) -> (r: Vec<&Task>)
        requires
            self.wf(),
        ensures
            query.shows(r@.unref(), self@, at),
    {
        let mut full = match &query.search {
            Some(q) => self.search_tasks(q.as_str()),
            None => if query.overdue {
                self.get_overdue_tasks_at(at)
            } else {
                match query.status {
                    Some(s) => self.get_tasks_by_status(s),
                    None => match query.priority {
                        Some(p) => self.get_tasks_by_priority(p),
                        None => match &query.category {
                            Some(c) => self.get_tasks_by_category(c.as_str()),
                            None => self.get_sorted_tasks(query.sort),
                        },
                    },
                }
            },
        };
        let ghost listed = full@.unref();
        if let Some(n) = query.limit {
            if n < full.len() {
                full.truncate(n);
            }
        }
        assert(lists_exactly(listed, query.chosen(self@, at)));
        assert(full@.unref() =~= match query.limit {
            Some(n) => if n < listed.len() {
                listed.take(n as int)
            } else {
                listed
            },
            None => listed,
        });
        full
    }

    /// The tasks that `query` shows, overdue ones judged now.
    pub fn list_tasks(&self, query: &ListQuery) -> (r: Vec<&Task>)
        requires
            self.wf(),
        ensures
            exists|at: Timestamp| at.nanos < 1_000_000_000 && #[trigger] query.shows(r@.unref(), self@, at),
    {
        let at = now();
        self.list_tasks_at(query, at)
    }
}

} // verus!
