//! The task store: the authoritative collection of tasks, keyed by their
//! identifiers, with its mutations, queries and statistics.
//!
//! The tasks are held in a `Vec` whose identifiers are pairwise distinct and
//! whose tasks are all valid; its view is the map from identifier to task,
//! which is what every contract here speaks of. The order of the `Vec` is
//! not part of that view, so a listing of tasks comes in no promised order
//! unless it is sorted.

use vstd::prelude::*;
use crate::error::TaskError;
use crate::task::{
    check_fields, fields_valid, field_problems, fresh_task, joined, opt_str, random_task_id, text_of,
    Priority, Task, TaskId, TaskStatus, UpdateValue,
};
use crate::text::{
    contains_text, has_infix, lemma_lex_irreflexive, lemma_lex_total, lemma_lex_transitive, lex_less,
    lower_of, same_text, text_less, to_lower,
};
use crate::time::{now, Timestamp};

verus! {

/// Where the tasks are stored and whether they are saved after each command.
#[derive(Debug, Clone)]
pub struct TaskManagerConfig {
    pub storage_path: String,
    pub auto_save: bool,
}

impl Default for TaskManagerConfig {
    /// Storage in `tasks.json`, saved after each command.
    fn default() -> (r: TaskManagerConfig)
        ensures
            r.storage_path@ == "tasks.json"@,
            r.auto_save,
    {
        TaskManagerConfig { storage_path: "tasks.json".to_owned(), auto_save: true }
    }
}

/// The identifiers of the tasks in `s` are pairwise distinct.
pub open spec fn ids_unique(s: Seq<Task>) -> bool {
    forall|i: int, j: int|
        0 <= i < s.len() && 0 <= j < s.len() && i != j ==> #[trigger] s[i].id != #[trigger] s[j].id
}

/// The tasks of `s`, keyed by their identifiers.
pub open spec fn task_map(s: Seq<Task>) -> Map<TaskId, Task> {
    Map::new(
        |id: TaskId| exists|i: int| 0 <= i < s.len() && #[trigger] s[i].id == id,
        |id: TaskId| s[choose|i: int| 0 <= i < s.len() && #[trigger] s[i].id == id],
    )
}

/// The entries of `m` whose task satisfies `keep`.
pub open spec fn select(m: Map<TaskId, Task>, keep: spec_fn(Task) -> bool) -> Map<TaskId, Task> {
    Map::new(|id: TaskId| m.contains_key(id) && keep(m[id]), |id: TaskId| m[id])
}

/// The entries of `m` that are overdue at `at`.
pub open spec fn overdue_in(m: Map<TaskId, Task>, at: Timestamp) -> Map<TaskId, Task> {
    select(m, |t: Task| t.overdue_at(at))
}

/// `r` lists the tasks of `m`, each once, in some order.
pub open spec fn lists_exactly(r: Seq<Task>, m: Map<TaskId, Task>) -> bool {
    &&& forall|a: int, b: int|
        0 <= a < r.len() && 0 <= b < r.len() && a != b ==> #[trigger] r[a].id != #[trigger] r[b].id
    &&& forall|a: int| 0 <= a < r.len() ==> m.contains_key(#[trigger] r[a].id) && m[r[a].id] == r[a]
    &&& forall|id: TaskId|
        #[trigger] m.contains_key(id) ==> exists|a: int| 0 <= a < r.len() && #[trigger] r[a].id == id
}

/// The task at index `i` of `s` is the entry of its identifier.
proof fn lemma_view_at(s: Seq<Task>, i: int)
    requires
        ids_unique(s),
        0 <= i < s.len(),
    ensures
        task_map(s).contains_key(s[i].id),
        task_map(s)[s[i].id] == s[i],
{
    let id = s[i].id;
    assert(exists|k: int| 0 <= k < s.len() && #[trigger] s[k].id == id);
    let j = choose|k: int| 0 <= k < s.len() && #[trigger] s[k].id == id;
    assert(s[j].id == s[i].id);
}

/// A map that holds exactly the tasks of `s`, each under its identifier, is
/// the view of `s`.
proof fn lemma_view_of(s: Seq<Task>, m: Map<TaskId, Task>)
    requires
        ids_unique(s),
        forall|i: int| 0 <= i < s.len() ==> m.contains_key(#[trigger] s[i].id) && m[s[i].id] == s[i],
        forall|id: TaskId|
            #[trigger] m.contains_key(id) ==> exists|i: int| 0 <= i < s.len() && #[trigger] s[i].id == id,
    ensures
        task_map(s) == m,
{
    assert forall|id: TaskId| #[trigger] task_map(s).contains_key(id) <==> m.contains_key(id) by {
        if task_map(s).contains_key(id) {
            let i = choose|i: int| 0 <= i < s.len() && #[trigger] s[i].id == id;
            assert(m.contains_key(s[i].id));
        }
    }
    assert forall|id: TaskId| #[trigger] task_map(s).contains_key(id) implies task_map(s)[id] == m[id] by {
        let i = choose|i: int| 0 <= i < s.len() && #[trigger] s[i].id == id;
        lemma_view_at(s, i);
        assert(m.contains_key(s[i].id));
    }
    assert(task_map(s) =~= m);
}

/// The view of `s` has as many entries as `s` has tasks.
proof fn lemma_view_len(s: Seq<Task>)
    requires
        ids_unique(s),
    ensures
        task_map(s).dom().finite(),
        task_map(s).len() == s.len(),
    decreases s.len(),
{
    if s.len() == 0 {
        assert(task_map(s) =~= Map::empty());
    } else {
        let p = s.drop_last();
        let last = s.last();
        lemma_view_len(p);
        let m = task_map(p).insert(last.id, last);
        assert forall|i: int| 0 <= i < s.len() implies m.contains_key(#[trigger] s[i].id) && m[s[i].id]
            == s[i] by {
            if i < s.len() - 1 {
                assert(p[i] == s[i]);
                lemma_view_at(p, i);
            }
        }
        assert forall|id: TaskId| #[trigger] m.contains_key(id) implies exists|i: int|
            0 <= i < s.len() && #[trigger] s[i].id == id by {
            if id != last.id {
                let i = choose|i: int| 0 <= i < p.len() && #[trigger] p[i].id == id;
                assert(s[i] == p[i]);
            } else {
                assert(s[s.len() - 1].id == id);
            }
        }
        lemma_view_of(s, m);
        if task_map(p).contains_key(last.id) {
            let i = choose|i: int| 0 <= i < p.len() && #[trigger] p[i].id == last.id;
            assert(s[i] == p[i]);
            assert(s[s.len() - 1].id == last.id);
        }
    }
}

/// Appending a task with a new identifier adds its entry.
proof fn lemma_view_push(s: Seq<Task>, t: Task)
    requires
        ids_unique(s),
        !task_map(s).contains_key(t.id),
    ensures
        ids_unique(s.push(t)),
        task_map(s.push(t)) == task_map(s).insert(t.id, t),
{
    let s2 = s.push(t);
    assert forall|i: int| 0 <= i < s.len() implies #[trigger] s[i].id != t.id by {
        lemma_view_at(s, i);
    }
    assert forall|i: int, j: int|
        0 <= i < s2.len() && 0 <= j < s2.len() && i != j implies #[trigger] s2[i].id
        != #[trigger] s2[j].id by {
        if i < s.len() && j < s.len() {
            assert(s2[i] == s[i] && s2[j] == s[j]);
        } else if i < s.len() {
            assert(s2[i] == s[i]);
        } else if j < s.len() {
            assert(s2[j] == s[j]);
        }
    }
    let m = task_map(s).insert(t.id, t);
    assert forall|i: int| 0 <= i < s2.len() implies m.contains_key(#[trigger] s2[i].id) && m[s2[i].id]
        == s2[i] by {
        if i < s.len() {
            assert(s2[i] == s[i]);
            lemma_view_at(s, i);
        }
    }
    assert forall|id: TaskId| #[trigger] m.contains_key(id) implies exists|i: int|
        0 <= i < s2.len() && #[trigger] s2[i].id == id by {
        if id != t.id {
            let i = choose|i: int| 0 <= i < s.len() && #[trigger] s[i].id == id;
            assert(s2[i] == s[i]);
        } else {
            assert(s2[s.len() as int].id == id);
        }
    }
    lemma_view_of(s2, m);
}

/// Replacing the task at index `i` by one with the same identifier replaces
/// its entry.
proof fn lemma_view_update(s: Seq<Task>, i: int, t: Task)
    requires
        ids_unique(s),
        0 <= i < s.len(),
        t.id == s[i].id,
    ensures
        ids_unique(s.update(i, t)),
        task_map(s.update(i, t)) == task_map(s).insert(t.id, t),
{
    let s2 = s.update(i, t);
    assert forall|a: int, b: int|
        0 <= a < s2.len() && 0 <= b < s2.len() && a != b implies #[trigger] s2[a].id
        != #[trigger] s2[b].id by {
        assert(s2[a].id == s[a].id && s2[b].id == s[b].id);
    }
    let m = task_map(s).insert(t.id, t);
    assert forall|a: int| 0 <= a < s2.len() implies m.contains_key(#[trigger] s2[a].id) && m[s2[a].id]
        == s2[a] by {
        if a != i {
            lemma_view_at(s, a);
        }
    }
    assert forall|id: TaskId| #[trigger] m.contains_key(id) implies exists|a: int|
        0 <= a < s2.len() && #[trigger] s2[a].id == id by {
        if id != t.id {
            let a = choose|a: int| 0 <= a < s.len() && #[trigger] s[a].id == id;
            assert(s2[a] == s[a]);
        } else {
            assert(s2[i].id == id);
        }
    }
    lemma_view_of(s2, m);
}

/// Removing the task at index `i` removes its entry.
proof fn lemma_view_remove(s: Seq<Task>, i: int)
    requires
        ids_unique(s),
        0 <= i < s.len(),
    ensures
        ids_unique(s.remove(i)),
        task_map(s.remove(i)) == task_map(s).remove(s[i].id),
{
    let s2 = s.remove(i);
    let gone = s[i].id;
    assert forall|a: int, b: int|
        0 <= a < s2.len() && 0 <= b < s2.len() && a != b implies #[trigger] s2[a].id
        != #[trigger] s2[b].id by {
        let a0 = if a < i { a } else { a + 1 };
        let b0 = if b < i { b } else { b + 1 };
        assert(s2[a] == s[a0] && s2[b] == s[b0]);
    }
    let m = task_map(s).remove(gone);
    assert forall|a: int| 0 <= a < s2.len() implies m.contains_key(#[trigger] s2[a].id) && m[s2[a].id]
        == s2[a] by {
        let a0 = if a < i { a } else { a + 1 };
        assert(s2[a] == s[a0]);
        lemma_view_at(s, a0);
    }
    assert forall|id: TaskId| #[trigger] m.contains_key(id) implies exists|a: int|
        0 <= a < s2.len() && #[trigger] s2[a].id == id by {
        let a0 = choose|a: int| 0 <= a < s.len() && #[trigger] s[a].id == id;
        if a0 < i {
            assert(s2[a0] == s[a0]);
        } else {
            assert(a0 != i);
            assert(s2[a0 - 1] == s[a0]);
        }
    }
    lemma_view_of(s2, m);
}

/// The store of tasks.
pub struct TaskManager {
    tasks: Vec<Task>,
    config: TaskManagerConfig,
    dirty: bool,
}

impl View for TaskManager {
    type V = Map<TaskId, Task>;

    /// Each task of the store under its identifier.
    closed spec fn view(&self) -> Map<TaskId, Task> {
        task_map(self.tasks@)
    }
}

impl TaskManager {
    /// The store's invariant: identifiers are distinct and every task is valid.
    pub closed spec fn wf(&self) -> bool {
        &&& ids_unique(self.tasks@)
        &&& forall|i: int| 0 <= i < self.tasks@.len() ==> (#[trigger] self.tasks@[i]).valid()
    }

    /// Whether the store holds changes that have not been saved.
    pub closed spec fn unsaved(&self) -> bool {
        self.dirty
    }

    /// The configuration the store was made with.
    pub closed spec fn configuration(&self) -> TaskManagerConfig {
        self.config
    }

    /// Every entry of a well-formed store is a valid task kept under its own
    /// identifier, and there are finitely many.
    pub proof fn lemma_entries(&self)
        requires
            self.wf(),
        ensures
            self@.dom().finite(),
            forall|id: TaskId| #[trigger] self@.contains_key(id) ==> self@[id].id == id && self@[id].valid(),
    {
        lemma_view_len(self.tasks@);
        assert forall|id: TaskId| #[trigger] self@.contains_key(id) implies self@[id].id == id
            && self@[id].valid() by {
            let i = choose|i: int| 0 <= i < self.tasks@.len() && #[trigger] self.tasks@[i].id == id;
            lemma_view_at(self.tasks@, i);
        }
    }

    /// An empty store with the default configuration.
    pub fn new() -> (r: TaskManager)
        ensures
            r.wf(),
            r@ == Map::<TaskId, Task>::empty(),
            !r.unsaved(),
            r.configuration().storage_path@ == "tasks.json"@,
            r.configuration().auto_save,
    {
        TaskManager::with_config(TaskManagerConfig::default())
    }

    /// An empty store with the given configuration.
    pub fn with_config(config: TaskManagerConfig) -> (r: TaskManager)
        ensures
            r.wf(),
            r@ == Map::<TaskId, Task>::empty(),
            !r.unsaved(),
            r.configuration() == config,
    {
        let r = TaskManager { tasks: Vec::new(), config, dirty: false };
        assert(r@ =~= Map::<TaskId, Task>::empty());
        r
    }

    /// The configuration the store was made with.
    pub fn config(&self) -> (r: &TaskManagerConfig)
        ensures
            *r == self.configuration(),
    {
        &self.config
    }

    /// Whether the store holds changes that have not been saved.
    pub fn is_dirty(&self) -> (r: bool)
        ensures
            r == self.unsaved(),
    {
        self.dirty
    }

    /// The number of tasks in the store.
    pub fn len(&self) -> (r: usize)
        requires
            self.wf(),
        ensures
            r == self@.len(),
    {
        proof {
            lemma_view_len(self.tasks@);
        }
        self.tasks.len()
    }

    /// Whether the store holds no task.
    pub fn is_empty(&self) -> (r: bool)
        requires
            self.wf(),
        ensures
            r == (self@.len() == 0),
    {
        proof {
            lemma_view_len(self.tasks@);
        }
        self.tasks.len() == 0
    }

    /// The index in `tasks` of the task with identifier `id`.
    fn position(&self, id: TaskId) -> (r: Option<usize>)
        requires
            self.wf(),
        ensures
            match r {
                Some(i) => i < self.tasks@.len() && self.tasks@[i as int].id == id
                    && self@.contains_key(id) && self@[id] == self.tasks@[i as int],
                None => !self@.contains_key(id),
            },
    {
        let mut i: usize = 0;
        while i < self.tasks.len()
            invariant
                self.wf(),
                i <= self.tasks@.len(),
                forall|k: int| 0 <= k < i ==> (#[trigger] self.tasks@[k]).id != id,
            decreases self.tasks@.len() - i,
        {
            if self.tasks[i].id == id {
                proof {
                    lemma_view_at(self.tasks@, i as int);
                }
                return Some(i);
            }
            i += 1;
        }
        assert(!self@.contains_key(id)) by {
            if self@.contains_key(id) {
                let k = choose|k: int| 0 <= k < self.tasks@.len() && #[trigger] self.tasks@[k].id == id;
            }
        }
        None
    }

    /// The task with identifier `id`.
    pub fn get_task(&self, id: TaskId) -> (r: Result<&Task, TaskError>)
        requires
            self.wf(),
        ensures
            match r {
                Ok(t) => self@.contains_key(id) && *t == self@[id],
                Err(e) => !self@.contains_key(id) && e == TaskError::TaskNotFound(id),
            },
    {
        match self.position(id) {
            Some(i) => Ok(&self.tasks[i]),
            None => Err(TaskError::TaskNotFound(id)),
        }
    }
    /// Adds the task that `fresh_task` builds from these parts, after
    /// validating it. An invalid task, or an identifier already in the
    /// store, leaves the store as it was.
    pub fn insert_new(
        &mut self,
        id: TaskId,
        at: Timestamp,
        title: String,
        description: Option<String>,
        priority: Priority,
        category: Option<String>,
        due_date: Option<Timestamp>,
    ) -> (r: Result<TaskId, TaskError>)
        requires
            old(self).wf(),
        ensures
            final(self).wf(),
            ({
                let t = fresh_task(id, at, title, description, priority, category, due_date);
                if !t.valid() {
                    &&& r matches Err(TaskError::ValidationError(m)) && m@ == joined(t.problems())
                    &&& *final(self) == *old(self)
                } else if old(self)@.contains_key(id) {
                    &&& r == Err::<TaskId, TaskError>(TaskError::TaskAlreadyExists(id))
                    &&& *final(self) == *old(self)
                } else {
                    &&& r == Ok::<TaskId, TaskError>(id)
                    &&& final(self)@ == old(self)@.insert(id, t)
                    &&& final(self).unsaved()
                    &&& final(self).configuration() == old(self).configuration()
                }
            }),
    {
        let task = Task::from_parts(id, at, title, description, priority, category, due_date);
        if let Err(e) = task.validate() {
            return Err(e);
        }
        if self.position(id).is_some() {
            return Err(TaskError::TaskAlreadyExists(id));
        }
        proof {
            lemma_view_push(self.tasks@, task);
        }
        self.tasks.push(task);
        self.dirty = true;
        Ok(id)
    }

    /// Adds a task with a random identifier, created now, after validating
    /// it; priority `Medium` where none is given. A validation error comes
    /// exactly when the details break the rules. Valid details are added
    /// unless the drawn identifier is already taken: that collision of two
    /// random UUIDs, however unlikely, is reported as `TaskAlreadyExists`
    /// rather than overwriting the stored task. On any error the store is
    /// left as it was.
    pub fn add_task_detailed(
        &mut self,
        title: String,
        description: Option<String>,
        priority: Option<Priority>,
        category: Option<String>,
        due_date: Option<Timestamp>,
    ) -> (r: Result<TaskId, TaskError>)
        requires
            old(self).wf(),
        ensures
            final(self).wf(),
            final(self).configuration() == old(self).configuration(),
            !fields_valid(title@, text_of(description), text_of(category)) ==> (r matches Err(
                TaskError::ValidationError(m),
            ) && m@ == joined(field_problems(title@, text_of(description), text_of(category)))),
            r matches Err(TaskError::ValidationError(_)) ==> !fields_valid(
                title@,
                text_of(description),
                text_of(category),
            ),
            match r {
                Ok(id) => {
                    &&& fields_valid(title@, text_of(description), text_of(category))
                    &&& !old(self)@.contains_key(id)
                    &&& final(self)@ == old(self)@.insert(
                        id,
                        fresh_task(
                            id,
                            final(self)@[id].created_at,
                            title,
                            description,
                            match priority {
                                Some(p) => p,
                                None => Priority::Medium,
                            },
                            category,
                            due_date,
                        ),
                    )
                    &&& final(self).unsaved()
                },
                Err(e) => {
                    &&& *final(self) == *old(self)
                    &&& e is ValidationError || (e matches TaskError::TaskAlreadyExists(id)
                        && old(self)@.contains_key(id))
                },
            },
    {
        let id = random_task_id();
        let at = now();
        let priority = match priority {
            Some(p) => p,
            None => Priority::Medium,
        };
        self.insert_new(id, at, title, description, priority, category, due_date)
    }

    /// Adds a task with only a title, as `add_task_detailed` does: a valid
    /// title is added unless the drawn identifier is already taken.
    pub fn add_task(&mut self, title: String) -> (r: Result<TaskId, TaskError>)
        requires
            old(self).wf(),
        ensures
            final(self).wf(),
            final(self).configuration() == old(self).configuration(),
            !(1 <= title@.len() <= 200) ==> (r matches Err(TaskError::ValidationError(m)) && m@
                == joined(field_problems(title@, None, None))),
            r matches Err(TaskError::ValidationError(_)) ==> !(1 <= title@.len() <= 200),
            match r {
                Ok(id) => {
                    &&& 1 <= title@.len() <= 200
                    &&& !old(self)@.contains_key(id)
                    &&& final(self)@ == old(self)@.insert(
                        id,
                        fresh_task(
                            id,
                            final(self)@[id].created_at,
                            title,
                            None,
                            Priority::Medium,
                            None,
                            None,
                        ),
                    )
                    &&& final(self).unsaved()
                },
                Err(e) => {
                    &&& *final(self) == *old(self)
                    &&& e is ValidationError || (e matches TaskError::TaskAlreadyExists(id)
                        && old(self)@.contains_key(id))
                },
            },
    {
        self.add_task_detailed(title, None, None, None, None)
    }

    /// Removes the task with identifier `id` and hands it back.
    pub fn delete_task(&mut self, id: TaskId) -> (r: Result<Task, TaskError>)
        requires
            old(self).wf(),
        ensures
            final(self).wf(),
            match r {
                Ok(t) => {
                    &&& old(self)@.contains_key(id)
                    &&& t == old(self)@[id]
                    &&& final(self)@ == old(self)@.remove(id)
                    &&& final(self).unsaved()
                    &&& final(self).configuration() == old(self).configuration()
                },
                Err(e) => {
                    &&& !old(self)@.contains_key(id)
                    &&& e == TaskError::TaskNotFound(id)
                    &&& *final(self) == *old(self)
                },
            },
    {
        let i = match self.position(id) {
            Some(i) => i,
            None => return Err(TaskError::TaskNotFound(id)),
        };
        proof {
            lemma_view_remove(self.tasks@, i as int);
        }
        let t = self.tasks.remove(i);
        self.dirty = true;
        Ok(t)
    }

    /// Changes the fields of the task with identifier `id` at `at`, as
    /// `Task::update_at` does, if the changed task is valid; otherwise the
    /// store is left as it was.
    pub fn update_task_at(
        &mut self,
        id: TaskId,
        title: Option<String>,
        description: UpdateValue<String>,
        priority: Option<Priority>,
        category: UpdateValue<String>,
        due_date: UpdateValue<Timestamp>,
        at: Timestamp,
    ) -> (r: Result<(), TaskError>)
        requires
            old(self).wf(),
        ensures
            final(self).wf(),
            !old(self)@.contains_key(id) ==> r == Err::<(), TaskError>(TaskError::TaskNotFound(id))
                && *final(self) == *old(self),
            old(self)@.contains_key(id) ==> ({
                let changed = old(self)@[id].with_fields(
                    title,
                    description,
                    priority,
                    category,
                    due_date,
                );
                if changed.valid() {
                    &&& r is Ok
                    &&& final(self)@ == old(self)@.insert(
                        id,
                        old(self)@[id].updated(title, description, priority, category, due_date, at),
                    )
                    &&& final(self).unsaved()
                    &&& final(self).configuration() == old(self).configuration()
                } else {
                    &&& r matches Err(TaskError::ValidationError(m)) && m@ == joined(changed.problems())
                    &&& *final(self) == *old(self)
                }
            }),
    {
        let i = match self.position(id) {
            Some(i) => i,
            None => return Err(TaskError::TaskNotFound(id)),
        };
        let checked = {
            let current = &self.tasks[i];
            let new_title: &str = match &title {
                Some(t) => t.as_str(),
                None => current.title.as_str(),
            };
            let new_description: Option<&str> = match &description {
                UpdateValue::SetTo(d) => Some(d.as_str()),
                UpdateValue::Clear => None,
                UpdateValue::Keep => opt_str(&current.description),
            };
            let new_category: Option<&str> = match &category {
                UpdateValue::SetTo(c) => Some(c.as_str()),
                UpdateValue::Clear => None,
                UpdateValue::Keep => opt_str(&current.category),
            };
            check_fields(new_title, new_description, new_category)
        };
        if let Err(e) = checked {
            return Err(e);
        }
        let ghost before = self.tasks@;
        let mut t = self.tasks.remove(i);
        t.update_at(title, description, priority, category, due_date, at);
        self.tasks.insert(i, t);
        proof {
            assert(self.tasks@ =~= before.update(i as int, t));
            lemma_view_update(before, i as int, t);
        }
        self.dirty = true;
        Ok(())
    }

    /// Changes the fields of the task with identifier `id` now, as
    /// `update_task_at` does.
    pub fn update_task(
        &mut self,
        id: TaskId,
        title: Option<String>,
        description: UpdateValue<String>,
        priority: Option<Priority>,
        category: UpdateValue<String>,
        due_date: UpdateValue<Timestamp>,
    ) -> (r: Result<(), TaskError>)
        requires
            old(self).wf(),
        ensures
            final(self).wf(),
            !old(self)@.contains_key(id) ==> r == Err::<(), TaskError>(TaskError::TaskNotFound(id))
                && *final(self) == *old(self),
            old(self)@.contains_key(id) ==> ({
                let changed = old(self)@[id].with_fields(
                    title,
                    description,
                    priority,
                    category,
                    due_date,
                );
                if changed.valid() {
                    &&& r is Ok
                    &&& final(self)@ == old(self)@.insert(
                        id,
                        old(self)@[id].updated(
                            title,
                            description,
                            priority,
                            category,
                            due_date,
                            final(self)@[id].updated_at,
                        ),
                    )
                    &&& old(self)@[id].updated_at.not_after(final(self)@[id].updated_at)
                &&& final(self).unsaved()
                    &&& final(self).configuration() == old(self).configuration()
                } else {
                    &&& r matches Err(TaskError::ValidationError(m)) && m@ == joined(changed.problems())
                    &&& *final(self) == *old(self)
                }
            }),
    {
        let at = now();
        self.update_task_at(id, title, description, priority, category, due_date, at)
    }

    /// Marks the task with identifier `id` done at `at`; a task that is
    /// already done is refused with `OperationNotAllowed`.
    pub fn complete_task_at(&mut self, id: TaskId, at: Timestamp) -> (r: Result<(), TaskError>)
        requires
            old(self).wf(),
        ensures
            final(self).wf(),
            !old(self)@.contains_key(id) ==> r == Err::<(), TaskError>(TaskError::TaskNotFound(id))
                && *final(self) == *old(self),
            old(self)@.contains_key(id) && old(self)@[id].status == TaskStatus::Done ==> (r matches Err(
                TaskError::OperationNotAllowed(m),
            ) && m@ == "Task is already completed"@) && *final(self) == *old(self),
            old(self)@.contains_key(id) && old(self)@[id].status != TaskStatus::Done ==> {
                &&& r is Ok
                &&& final(self)@ == old(self)@.insert(id, old(self)@[id].done_at(at))
                &&& final(self).unsaved()
                &&& final(self).configuration() == old(self).configuration()
            },
    {
        let i = match self.position(id) {
            Some(i) => i,
            None => return Err(TaskError::TaskNotFound(id)),
        };
        if self.tasks[i].status == TaskStatus::Done {
            return Err(TaskError::OperationNotAllowed("Task is already completed".to_owned()));
        }
        let ghost before = self.tasks@;
        let mut t = self.tasks.remove(i);
        t.complete_at(at);
        self.tasks.insert(i, t);
        proof {
            assert(self.tasks@ =~= before.update(i as int, t));
            lemma_view_update(before, i as int, t);
        }
        self.dirty = true;
        Ok(())
    }

    /// Marks the task with identifier `id` done now, as `complete_task_at`
    /// does.
    pub fn complete_task(&mut self, id: TaskId) -> (r: Result<(), TaskError>)
        requires
            old(self).wf(),
        ensures
            final(self).wf(),
            !old(self)@.contains_key(id) ==> r == Err::<(), TaskError>(TaskError::TaskNotFound(id))
                && *final(self) == *old(self),
            old(self)@.contains_key(id) && old(self)@[id].status == TaskStatus::Done ==> (r matches Err(
                TaskError::OperationNotAllowed(m),
            ) && m@ == "Task is already completed"@) && *final(self) == *old(self),
            old(self)@.contains_key(id) && old(self)@[id].status != TaskStatus::Done ==> {
                &&& r is Ok
                &&& final(self)@ == old(self)@.insert(
                    id,
                    old(self)@[id].done_at(final(self)@[id].updated_at),
                )
                &&& old(self)@[id].updated_at.not_after(final(self)@[id].updated_at)
                &&& final(self).unsaved()
                &&& final(self).configuration() == old(self).configuration()
            },
    {
        let at = now();
        self.complete_task_at(id, at)
    }

    /// Marks the task with identifier `id` in progress at `at`, whatever
    /// its status was.
    pub fn start_task_at(&mut self, id: TaskId, at: Timestamp) -> (r: Result<(), TaskError>)
        requires
            old(self).wf(),
        ensures
            final(self).wf(),
            !old(self)@.contains_key(id) ==> r == Err::<(), TaskError>(TaskError::TaskNotFound(id))
                && *final(self) == *old(self),
            old(self)@.contains_key(id) ==> {
                &&& r is Ok
                &&& final(self)@ == old(self)@.insert(id, old(self)@[id].started_at(at))
                &&& final(self).unsaved()
                &&& final(self).configuration() == old(self).configuration()
            },
    {
        let i = match self.position(id) {
            Some(i) => i,
            None => return Err(TaskError::TaskNotFound(id)),
        };
        let ghost before = self.tasks@;
        let mut t = self.tasks.remove(i);
        t.start_at(at);
        self.tasks.insert(i, t);
        proof {
            assert(self.tasks@ =~= before.update(i as int, t));
            lemma_view_update(before, i as int, t);
        }
        self.dirty = true;
        Ok(())
    }

    /// Marks the task with identifier `id` in progress now.
    pub fn start_task(&mut self, id: TaskId) -> (r: Result<(), TaskError>)
        requires
            old(self).wf(),
        ensures
            final(self).wf(),
            !old(self)@.contains_key(id) ==> r == Err::<(), TaskError>(TaskError::TaskNotFound(id))
                && *final(self) == *old(self),
            old(self)@.contains_key(id) ==> {
                &&& r is Ok
                &&& final(self)@ == old(self)@.insert(
                    id,
                    old(self)@[id].started_at(final(self)@[id].updated_at),
                )
                &&& old(self)@[id].updated_at.not_after(final(self)@[id].updated_at)
                &&& final(self).unsaved()
                &&& final(self).configuration() == old(self).configuration()
            },
    {
        let at = now();
        self.start_task_at(id, at)
    }

    /// Marks the task with identifier `id` cancelled at `at`, whatever its
    /// status was.
    pub fn cancel_task_at(&mut self, id: TaskId, at: Timestamp) -> (r: Result<(), TaskError>)
        requires
            old(self).wf(),
        ensures
            final(self).wf(),
            !old(self)@.contains_key(id) ==> r == Err::<(), TaskError>(TaskError::TaskNotFound(id))
                && *final(self) == *old(self),
            old(self)@.contains_key(id) ==> {
                &&& r is Ok
                &&& final(self)@ == old(self)@.insert(id, old(self)@[id].cancelled_at(at))
                &&& final(self).unsaved()
                &&& final(self).configuration() == old(self).configuration()
            },
    {
        let i = match self.position(id) {
            Some(i) => i,
            None => return Err(TaskError::TaskNotFound(id)),
        };
        let ghost before = self.tasks@;
        let mut t = self.tasks.remove(i);
        t.cancel_at(at);
        self.tasks.insert(i, t);
        proof {
            assert(self.tasks@ =~= before.update(i as int, t));
            lemma_view_update(before, i as int, t);
        }
        self.dirty = true;
        Ok(())
    }

    /// Marks the task with identifier `id` cancelled now.
    pub fn cancel_task(&mut self, id: TaskId) -> (r: Result<(), TaskError>)
        requires
            old(self).wf(),
        ensures
            final(self).wf(),
            !old(self)@.contains_key(id) ==> r == Err::<(), TaskError>(TaskError::TaskNotFound(id))
                && *final(self) == *old(self),
            old(self)@.contains_key(id) ==> {
                &&& r is Ok
                &&& final(self)@ == old(self)@.insert(
                    id,
                    old(self)@[id].cancelled_at(final(self)@[id].updated_at),
                )
                &&& old(self)@[id].updated_at.not_after(final(self)@[id].updated_at)
                &&& final(self).unsaved()
                &&& final(self).configuration() == old(self).configuration()
            },
    {
        let at = now();
        self.cancel_task_at(id, at)
    }
}

/// `t` matches a search for `folded_query`, a lowercased query: its
/// lowercased title holds the query, or it has a description whose
/// lowercased text holds it.
pub open spec fn matches_query(t: Task, folded_query: Seq<char>) -> bool {
    ||| has_infix(lower_of(t.title@), folded_query)
    ||| (t.description matches Some(d) && has_infix(lower_of(d@), folded_query))
}

/// Whether a task matches a lowercased query, given its lowercased title and
/// lowercased description (if it has one).
pub fn matches_folded(folded_query: &str, folded_title: &str, folded_description: Option<&str>) -> (r:
    bool)
    ensures
        r == (has_infix(folded_title@, folded_query@) || (folded_description matches Some(d)
            && has_infix(d@, folded_query@))),
{
    if contains_text(folded_title, folded_query) {
        return true;
    }
    match folded_description {
        Some(d) => contains_text(d, folded_query),
        None => false,
    }
}

/// Which tasks a listing keeps.
enum Selector<'a> {
    All,
    Status(TaskStatus),
    Priority(Priority),
    Category(&'a str),
    OverdueAt(Timestamp),
    Matching(&'a str),
}

impl<'a> Selector<'a> {
    spec fn accepts(&self, t: Task) -> bool {
        match *self {
            Selector::All => true,
            Selector::Status(s) => t.status == s,
            Selector::Priority(p) => t.priority == p,
            Selector::Category(c) => t.category matches Some(x) && x@ == c@,
            Selector::OverdueAt(at) => t.overdue_at(at),
            Selector::Matching(q) => matches_query(t, q@),
        }
    }

    fn accepts_task(&self, t: &Task) -> (r: bool)
        ensures
            r == self.accepts(*t),
    {
        match self {
            Selector::All => true,
            Selector::Status(s) => t.status == *s,
            Selector::Priority(p) => t.priority == *p,
            Selector::Category(c) => match &t.category {
                Some(x) => same_text(x.as_str(), c),
                None => false,
            },
            Selector::OverdueAt(at) => t.is_overdue_at(*at),
            Selector::Matching(q) => {
                let title = to_lower(t.title.as_str());
                let description = match &t.description {
                    Some(d) => Some(to_lower(d.as_str())),
                    None => None,
                };
                matches_folded(q, title.as_str(), opt_str(&description))
            },
        }
    }
}

/// A listing that takes the tasks of `s` that satisfy `keep`, each once (at
/// the distinct indices `idx`), lists the entries of the view
/// of `s` that satisfy `keep`.
proof fn lemma_listing(s: Seq<Task>, r: Seq<Task>, idx: Seq<int>, keep: spec_fn(Task) -> bool)
    requires
        ids_unique(s),
        r.len() == idx.len(),
        forall|a: int|
            0 <= a < r.len() ==> 0 <= #[trigger] idx[a] < s.len() && r[a] == s[idx[a]] && keep(
                s[idx[a]],
            ),
        forall|a: int, b: int|
            0 <= a < r.len() && 0 <= b < r.len() && a != b ==> #[trigger] idx[a] != #[trigger] idx[b],
        forall|j: int|
            0 <= j < s.len() && keep(#[trigger] s[j]) ==> exists|a: int| 0 <= a < r.len() && idx[a] == j,
    ensures
        lists_exactly(r, select(task_map(s), keep)),
{
    let m = select(task_map(s), keep);
    assert forall|a: int, b: int|
        0 <= a < r.len() && 0 <= b < r.len() && a != b implies #[trigger] r[a].id != #[trigger] r[b].id by {
        assert(s[idx[a]].id != s[idx[b]].id);
    }
    assert forall|a: int| 0 <= a < r.len() implies m.contains_key(#[trigger] r[a].id) && m[r[a].id]
        == r[a] by {
        lemma_view_at(s, idx[a]);
    }
    assert forall|id: TaskId| #[trigger] m.contains_key(id) implies exists|a: int|
        0 <= a < r.len() && #[trigger] r[a].id == id by {
        let j = choose|j: int| 0 <= j < s.len() && #[trigger] s[j].id == id;
        lemma_view_at(s, j);
        assert(keep(s[j]));
        let a = choose|a: int| 0 <= a < r.len() && idx[a] == j;
        assert(r[a].id == id);
    }
}

impl TaskManager {
    /// The tasks that `sel` keeps, in the store's order.
    fn collect(&self, sel: &Selector) -> (r: Vec<&Task>)
        requires
            self.wf(),
        ensures
            lists_exactly(r@.unref(), select(self@, |t: Task| sel.accepts(t))),
    {
        let mut r: Vec<&Task> = Vec::new();
        let ghost mut idx: Seq<int> = Seq::empty();
        let mut i: usize = 0;
        while i < self.tasks.len()
            invariant
                self.wf(),
                i <= self.tasks@.len(),
                r@.len() == idx.len(),
                forall|a: int|
                    0 <= a < r@.len() ==> 0 <= #[trigger] idx[a] < i && *r@[a] == self.tasks@[idx[a]]
                        && sel.accepts(self.tasks@[idx[a]]),
                forall|a: int, b: int| 0 <= a < b < r@.len() ==> #[trigger] idx[a] < #[trigger] idx[b],
                forall|j: int|
                    0 <= j < i && sel.accepts(#[trigger] self.tasks@[j]) ==> exists|a: int|
                        0 <= a < r@.len() && idx[a] == j,
            decreases self.tasks@.len() - i,
        {
            let ghost idx0 = idx;
            let t = &self.tasks[i];
            if sel.accepts_task(t) {
                r.push(t);
                proof {
                    idx = idx.push(i as int);
                }
            }
            proof {
                assert forall|j: int|
                    0 <= j < i + 1 && sel.accepts(#[trigger] self.tasks@[j]) implies exists|a: int|
                    0 <= a < r@.len() && idx[a] == j by {
                    if j < i {
                        let a = choose|a: int| 0 <= a < idx0.len() && idx0[a] == j;
                        assert(idx[a] == j);
                    } else {
                        assert(idx[idx.len() - 1] == j);
                    }
                }
            }
            i += 1;
        }
        proof {
            assert forall|a: int, b: int|
                0 <= a < r@.len() && 0 <= b < r@.len() && a != b implies #[trigger] idx[a]
                != #[trigger] idx[b] by {
                if a < b {
                    assert(idx[a] < idx[b]);
                } else {
                    assert(idx[b] < idx[a]);
                }
            }
            lemma_listing(self.tasks@, r@.unref(), idx, |t: Task| sel.accepts(t));
        }
        r
    }

    /// All tasks, in no promised order.
    pub fn get_all_tasks(&self) -> (r: Vec<&Task>)
        requires
            self.wf(),
        ensures
            lists_exactly(r@.unref(), self@),
    {
        let r = self.collect(&Selector::All);
        assert(select(self@, |t: Task| Selector::All.accepts(t)) =~= self@);
        r
    }

    /// The tasks with the given status, in no promised order.
    pub fn get_tasks_by_status(&self, status: TaskStatus) -> (r: Vec<&Task>)
        requires
            self.wf(),
        ensures
            lists_exactly(r@.unref(), select(self@, |t: Task| t.status == status)),
    {
        let sel = Selector::Status(status);
        let r = self.collect(&sel);
        assert(select(self@, |t: Task| sel.accepts(t)) =~= select(self@, |t: Task| t.status == status));
        r
    }

    /// The tasks with the given priority, in no promised order.
    pub fn get_tasks_by_priority(&self, priority: Priority) -> (r: Vec<&Task>)
        requires
            self.wf(),
        ensures
            lists_exactly(r@.unref(), select(self@, |t: Task| t.priority == priority)),
    {
        let sel = Selector::Priority(priority);
        let r = self.collect(&sel);
        assert(select(self@, |t: Task| sel.accepts(t)) =~= select(
            self@,
            |t: Task| t.priority == priority,
        ));
        r
    }

    /// The tasks whose category is exactly `category`, in no promised order.
    pub fn get_tasks_by_category(&self, category: &str) -> (r: Vec<&Task>)
        requires
            self.wf(),
        ensures
            lists_exactly(
                r@.unref(),
                select(self@, |t: Task| t.category matches Some(c) && c@ == category@),
            ),
    {
        let sel = Selector::Category(category);
        let r = self.collect(&sel);
        assert(select(self@, |t: Task| sel.accepts(t)) =~= select(
            self@,
            |t: Task| t.category matches Some(c) && c@ == category@,
        ));
        r
    }

    /// The tasks that are overdue at `at`, in no promised order.
    pub fn get_overdue_tasks_at(&self, at: Timestamp) -> (r: Vec<&Task>)
        requires
            self.wf(),
        ensures
            lists_exactly(r@.unref(), overdue_in(self@, at)),
    {
        let sel = Selector::OverdueAt(at);
        let r = self.collect(&sel);
        assert(select(self@, |t: Task| sel.accepts(t)) =~= overdue_in(self@, at));
        r
    }

    /// The tasks that are overdue now, in no promised order.
    pub fn get_overdue_tasks(&self) -> (r: Vec<&Task>)
        requires
            self.wf(),
        ensures
            exists|at: Timestamp|
                at.nanos < 1_000_000_000 && #[trigger] lists_exactly(r@.unref(), overdue_in(self@, at)),
    {
        let at = now();
        self.get_overdue_tasks_at(at)
    }

    /// The tasks whose title or description holds `query`, compared in
    /// lowercase, in no promised order. The store is not changed.
    pub fn search_tasks(&self, query: &str) -> (r: Vec<&Task>)
        requires
            self.wf(),
        ensures
            lists_exactly(r@.unref(), select(self@, |t: Task| matches_query(t, lower_of(query@)))),
    {
        let folded = to_lower(query);
        let sel = Selector::Matching(folded.as_str());
        let r = self.collect(&sel);
        assert(select(self@, |t: Task| sel.accepts(t)) =~= select(
            self@,
            |t: Task| matches_query(t, lower_of(query@)),
        ));
        r
    }
}

/// The orders in which tasks can be listed.
#[derive(Clone, Copy, Debug, PartialEq, Eq, Structural)]
pub enum TaskSort {
    CreatedAsc,
    CreatedDesc,
    DueDateAsc,
    DueDateDesc,
    PriorityAsc,
    PriorityDesc,
    TitleAsc,
    TitleDesc,
}

/// Due dates in order: any date before no date, and two dates by time,
/// earliest first unless `descending`.
pub open spec fn due_before(a: Option<Timestamp>, b: Option<Timestamp>, descending: bool) -> bool {
    match (a, b) {
        (Some(x), Some(y)) => if descending {
            y.before(x)
        } else {
            x.before(y)
        },
        (Some(_), None) => true,
        _ => false,
    }
}

/// Task `a` comes strictly before task `b` in `order`. Tasks that neither
/// precedes are tied.
pub open spec fn sorts_before(order: TaskSort, a: Task, b: Task) -> bool {
    match order {
        TaskSort::CreatedAsc => a.created_at.before(b.created_at),
        TaskSort::CreatedDesc => b.created_at.before(a.created_at),
        TaskSort::DueDateAsc => due_before(a.due_date, b.due_date, false),
        TaskSort::DueDateDesc => due_before(a.due_date, b.due_date, true),
        TaskSort::PriorityAsc => a.priority.rank() < b.priority.rank(),
        TaskSort::PriorityDesc => b.priority.rank() < a.priority.rank(),
        TaskSort::TitleAsc => lex_less(a.title@, b.title@),
        TaskSort::TitleDesc => lex_less(b.title@, a.title@),
    }
}

/// No task of `r` comes strictly before one that stands ahead of it.
pub open spec fn sorted_by(r: Seq<Task>, order: TaskSort) -> bool {
    forall|i: int, j: int| 0 <= i < j < r.len() ==> !sorts_before(order, #[trigger] r[j], #[trigger] r[i])
}

/// Each order is a strict weak order: asymmetric, and its ties and
/// "after" chain.
proof fn lemma_order(order: TaskSort, a: Task, b: Task, c: Task)
    ensures
        sorts_before(order, a, b) ==> !sorts_before(order, b, a),
        !sorts_before(order, a, b) && !sorts_before(order, b, c) ==> !sorts_before(order, a, c),
{
    match order {
        TaskSort::TitleAsc | TaskSort::TitleDesc => {
            let (x, y, z) = (a.title@, b.title@, c.title@);
            lemma_lex_irreflexive(x);
            lemma_lex_total(x, y);
            lemma_lex_total(y, z);
            lemma_lex_total(x, z);
            if lex_less(x, y) && lex_less(y, x) {
                lemma_lex_transitive(x, y, x);
            }
            if lex_less(z, y) && lex_less(y, x) {
                lemma_lex_transitive(z, y, x);
            }
            if lex_less(x, y) && lex_less(y, z) {
                lemma_lex_transitive(x, y, z);
            }
            if lex_less(z, x) && lex_less(x, z) {
                lemma_lex_transitive(z, x, z);
            }
            if lex_less(y, x) && lex_less(x, z) {
                lemma_lex_transitive(y, x, z);
            }
            if lex_less(z, y) && lex_less(y, z) {
                lemma_lex_transitive(z, y, z);
            }
            if lex_less(x, z) && lex_less(z, y) {
                lemma_lex_transitive(x, z, y);
            }
            if lex_less(y, z) && lex_less(z, x) {
                lemma_lex_transitive(y, z, x);
            }
        },
        _ => {},
    }
}

/// Whether task `a` comes strictly before task `b` in `order`.
pub fn sorts_before_exec(order: TaskSort, a: &Task, b: &Task) -> (r: bool)
    ensures
        r == sorts_before(order, *a, *b),
{
    match order {
        TaskSort::CreatedAsc => a.created_at.is_before(&b.created_at),
        TaskSort::CreatedDesc => b.created_at.is_before(&a.created_at),
        TaskSort::DueDateAsc | TaskSort::DueDateDesc => match (a.due_date, b.due_date) {
            (Some(x), Some(y)) => if order == TaskSort::DueDateDesc {
                y.is_before(&x)
            } else {
                x.is_before(&y)
            },
            (Some(_), None) => true,
            _ => false,
        },
        TaskSort::PriorityAsc => a.priority.level() < b.priority.level(),
        TaskSort::PriorityDesc => b.priority.level() < a.priority.level(),
        TaskSort::TitleAsc => text_less(a.title.as_str(), b.title.as_str()),
        TaskSort::TitleDesc => text_less(b.title.as_str(), a.title.as_str()),
    }
}

/// Where `t` goes in the sorted listing `r`: after every task it does not
/// come before, ahead of the run of tasks it does come before.
fn insertion_point(order: TaskSort, t: &Task, r: &Vec<&Task>) -> (k: usize)
    ensures
        k <= r@.len(),
        k > 0 ==> !sorts_before(order, *t, *r@[k - 1]),
        forall|m: int| k <= m < r@.len() ==> sorts_before(order, *t, *#[trigger] r@[m]),
{
    let mut k = r.len();
    while k > 0 && sorts_before_exec(order, t, r[k - 1])
        invariant
            k <= r@.len(),
            forall|m: int| k <= m < r@.len() ==> sorts_before(order, *t, *#[trigger] r@[m]),
        decreases k,
    {
        k -= 1;
    }
    k
}

/// Some index of `idx` holds `j`.
spec fn covers(idx: Seq<int>, j: int) -> bool {
    exists|a: int| 0 <= a < idx.len() && idx[a] == j
}

impl TaskManager {
    /// All tasks, sorted in `sort_by`. Tied tasks keep no promised order.
    pub fn get_sorted_tasks(&self, sort_by: TaskSort) -> (r: Vec<&Task>)
        requires
            self.wf(),
        ensures
            lists_exactly(r@.unref(), self@),
            sorted_by(r@.unref(), sort_by),
    {
        let mut r: Vec<&Task> = Vec::new();
        let ghost mut idx: Seq<int> = Seq::empty();
        let mut i: usize = 0;
        while i < self.tasks.len()
            invariant
                self.wf(),
                i <= self.tasks@.len(),
                r@.len() == idx.len(),
                forall|a: int|
                    0 <= a < r@.len() ==> 0 <= #[trigger] idx[a] < i && *r@[a] == self.tasks@[idx[a]],
                forall|a: int, b: int|
                    0 <= a < r@.len() && 0 <= b < r@.len() && a != b ==> #[trigger] idx[a]
                        != #[trigger] idx[b],
                forall|j: int| 0 <= j < i ==> #[trigger] covers(idx, j),
                sorted_by(r@.unref(), sort_by),
            decreases self.tasks@.len() - i,
        {
            let t = &self.tasks[i];
            let k = insertion_point(sort_by, t, &r);
            let ghost r0 = r@.unref();
            let ghost idx0 = idx;
            r.insert(k, t);
            proof {
                idx = idx.insert(k as int, i as int);
                r0.insert_ensures(k as int, *t);
                idx0.insert_ensures(k as int, i as int);
                let r1 = r@.unref();
                assert(r1 =~= r0.insert(k as int, *t));
                assert forall|a: int, b: int| 0 <= a < b < r1.len() implies !sorts_before(
                    sort_by,
                    #[trigger] r1[b],
                    #[trigger] r1[a],
                ) by {
                    if b < k {
                    } else if b == k {
                        if a < k - 1 {
                            lemma_order(sort_by, *t, r0[k - 1], r0[a]);
                        }
                    } else if a < k {
                        assert(r1[b] == r0[b - 1]);
                    } else if a == k {
                        assert(r1[b] == r0[b - 1]);
                        lemma_order(sort_by, *t, r0[b - 1], *t);
                    } else {
                        assert(r1[a] == r0[a - 1] && r1[b] == r0[b - 1]);
                    }
                }
                assert forall|a: int| 0 <= a < r@.len() implies 0 <= #[trigger] idx[a] < i + 1
                    && *r@[a] == self.tasks@[idx[a]] by {
                    if a < k {
                        assert(r@[a] == r0[a]);
                    } else if a > k {
                        assert(r@[a] == r0[a - 1]);
                        assert(idx[a] == idx0[a - 1]);
                    }
                }
                assert forall|a: int, b: int|
                    0 <= a < r@.len() && 0 <= b < r@.len() && a != b implies #[trigger] idx[a]
                    != #[trigger] idx[b] by {
                    let a0 = if a < k { a } else { a - 1 };
                    let b0 = if b < k { b } else { b - 1 };
                    if a != k && b != k {
                        assert(idx[a] == idx0[a0] && idx[b] == idx0[b0]);
                    } else if a != k {
                        assert(idx[a] == idx0[a0]);
                    } else if b != k {
                        assert(idx[b] == idx0[b0]);
                    }
                }
                assert forall|j: int| 0 <= j < i + 1 implies #[trigger] covers(idx, j) by {
                    if j < i {
                        assert(covers(idx0, j));
                        let a0 = choose|a: int| 0 <= a < idx0.len() && #[trigger] idx0[a] == j;
                        if a0 < k {
                            assert(idx[a0] == j);
                        } else {
                            assert(idx[a0 + 1] == j);
                        }
                    } else {
                        assert(idx[k as int] == j);
                    }
                }
            }
            i += 1;
        }
        proof {
            let keep = |t: Task| true;
            assert forall|j: int| 0 <= j < self.tasks@.len() && keep(#[trigger] self.tasks@[j]) implies exists|
                a: int,
            | 0 <= a < r@.len() && idx[a] == j by {
                assert(covers(idx, j));
            }
            lemma_listing(self.tasks@, r@.unref(), idx, keep);
            assert(select(self@, keep) =~= self@);
        }
        r
    }
}

/// Counts of the tasks in a store.
#[derive(Clone, Copy, Debug, PartialEq, Eq, Structural)]
pub struct TaskStats {
    pub total: usize,
    pub completed: usize,
    pub in_progress: usize,
    pub overdue: usize,
}

/// A listing of `m` has as many tasks as `m` has entries.
proof fn lemma_listing_len(r: Seq<Task>, m: Map<TaskId, Task>)
    requires
        lists_exactly(r, m),
    ensures
        m.dom().finite(),
        m.len() == r.len(),
{
    assert forall|id: TaskId| #[trigger] m.contains_key(id) implies exists|i: int|
        0 <= i < r.len() && #[trigger] r[i].id == id by {
        let a = choose|a: int| 0 <= a < r.len() && #[trigger] r[a].id == id;
    }
    lemma_view_of(r, m);
    lemma_view_len(r);
}

/// The entries that satisfy `keep` and those that satisfy `skip`, its
/// opposite, make up `m`.
proof fn lemma_select_split(
    m: Map<TaskId, Task>,
    keep: spec_fn(Task) -> bool,
    skip: spec_fn(Task) -> bool,
)
    requires
        m.dom().finite(),
        forall|t: Task| #[trigger] skip(t) == !keep(t),
    ensures
        select(m, keep).dom().finite(),
        select(m, skip).dom().finite(),
        select(m, keep).len() + select(m, skip).len() == m.len(),
{
    let a = select(m, keep).dom();
    let b = select(m, skip).dom();
    vstd::set_lib::lemma_len_subset(a, m.dom());
    vstd::set_lib::lemma_len_subset(b, m.dom());
    assert(a.disjoint(b));
    vstd::set_lib::lemma_set_disjoint_lens(a, b);
    assert(a + b =~= m.dom());
}

/// The store after importing `incoming` into `m`, one task after another:
/// a task whose identifier is already there is skipped.
pub open spec fn merged(m: Map<TaskId, Task>, incoming: Seq<Task>) -> Map<TaskId, Task>
    decreases incoming.len(),
{
    if incoming.len() == 0 {
        m
    } else {
        let before = merged(m, incoming.drop_last());
        let t = incoming.last();
        if before.contains_key(t.id) {
            before
        } else {
            before.insert(t.id, t)
        }
    }
}

/// How many tasks of `incoming` an import into `m` adds.
pub open spec fn added(m: Map<TaskId, Task>, incoming: Seq<Task>) -> nat
    decreases incoming.len(),
{
    if incoming.len() == 0 {
        0
    } else {
        let before = merged(m, incoming.drop_last());
        if before.contains_key(incoming.last().id) {
            added(m, incoming.drop_last())
        } else {
            added(m, incoming.drop_last()) + 1
        }
    }
}

/// `k` is the first index of `s` whose task is not valid.
pub open spec fn first_invalid(s: Seq<Task>, k: int) -> bool {
    &&& 0 <= k < s.len()
    &&& !s[k].valid()
    &&& forall|j: int| 0 <= j < k ==> (#[trigger] s[j]).valid()
}

impl TaskManager {
    /// The number of tasks that `sel` keeps.
    fn count(&self, sel: &Selector) -> (r: usize)
        requires
            self.wf(),
        ensures
            select(self@, |t: Task| sel.accepts(t)).dom().finite(),
            r == select(self@, |t: Task| sel.accepts(t)).len(),
    {
        let listed = self.collect(sel);
        proof {
            lemma_listing_len(listed@.unref(), select(self@, |t: Task| sel.accepts(t)));
        }
        listed.len()
    }

    /// The counts of all tasks, of the done ones, of those in progress, and
    /// of those overdue at `at`.
    pub fn get_stats_at(&self, at: Timestamp) -> (r: TaskStats)
        requires
            self.wf(),
        ensures
            r.total == self@.len(),
            r.completed == select(self@, |t: Task| t.status == TaskStatus::Done).len(),
            r.in_progress == select(self@, |t: Task| t.status == TaskStatus::InProgress).len(),
            r.overdue == overdue_in(self@, at).len(),
    {
        let total = self.len();
        let done = Selector::Status(TaskStatus::Done);
        let completed = self.count(&done);
        let working = Selector::Status(TaskStatus::InProgress);
        let in_progress = self.count(&working);
        let late = Selector::OverdueAt(at);
        let overdue = self.count(&late);
        assert(select(self@, |t: Task| done.accepts(t)) =~= select(
            self@,
            |t: Task| t.status == TaskStatus::Done,
        ));
        assert(select(self@, |t: Task| working.accepts(t)) =~= select(
            self@,
            |t: Task| t.status == TaskStatus::InProgress,
        ));
        assert(select(self@, |t: Task| late.accepts(t)) =~= overdue_in(self@, at));
        TaskStats { total, completed, in_progress, overdue }
    }

    /// The counts of all tasks, of the done ones, of those in progress, and
    /// of those overdue now.
    pub fn get_stats(&self) -> (r: TaskStats)
        requires
            self.wf(),
        ensures
            r.total == self@.len(),
            r.completed == select(self@, |t: Task| t.status == TaskStatus::Done).len(),
            r.in_progress == select(self@, |t: Task| t.status == TaskStatus::InProgress).len(),
            exists|at: Timestamp| at.nanos < 1_000_000_000 && r.overdue == #[trigger] overdue_in(self@, at).len(),
    {
        let at = now();
        self.get_stats_at(at)
    }

    /// Removes every done task; returns how many were removed.
    pub fn clear_completed(&mut self) -> (r: usize)
        requires
            old(self).wf(),
        ensures
            final(self).wf(),
            final(self)@ == select(old(self)@, |t: Task| t.status != TaskStatus::Done),
            r == select(old(self)@, |t: Task| t.status == TaskStatus::Done).len(),
            final(self).unsaved(),
            final(self).configuration() == old(self).configuration(),
    {
        let ghost m0 = self@;
        let initial = self.tasks.len();
        proof {
            lemma_view_len(self.tasks@);
        }
        let mut removed: usize = 0;
        let mut i: usize = 0;
        while i < self.tasks.len()
            invariant
                self.wf(),
                i <= self.tasks@.len(),
                m0.dom().finite(),
                self.config == old(self).config,
                forall|k: int| 0 <= k < i ==> (#[trigger] self.tasks@[k]).status != TaskStatus::Done,
                forall|id: TaskId| #[trigger]
                    self@.contains_key(id) ==> m0.contains_key(id) && m0[id] == self@[id],
                forall|id: TaskId|
                    #[trigger] m0.contains_key(id) && m0[id].status != TaskStatus::Done
                        ==> self@.contains_key(id),
                removed + self.tasks@.len() == m0.len(),
                m0.len() == initial,
            decreases self.tasks@.len() - i,
        {
            if self.tasks[i].status == TaskStatus::Done {
                let ghost prev = self@;
                proof {
                    lemma_view_remove(self.tasks@, i as int);
                    lemma_view_at(self.tasks@, i as int);
                }
                self.tasks.remove(i);
                removed += 1;
                proof {
                    assert forall|id: TaskId| #[trigger]
                        self@.contains_key(id) implies m0.contains_key(id) && m0[id] == self@[id] by {
                        assert(prev.contains_key(id));
                    }
                }
            } else {
                i += 1;
            }
        }
        proof {
            let kept = select(m0, |t: Task| t.status != TaskStatus::Done);
            assert forall|id: TaskId| #[trigger] self@.contains_key(id) implies kept.contains_key(id) by {
                let k = choose|k: int| 0 <= k < self.tasks@.len() && #[trigger] self.tasks@[k].id == id;
                lemma_view_at(self.tasks@, k);
            }
            assert(self@ =~= kept);
            lemma_view_len(self.tasks@);
            lemma_select_split(
                m0,
                |t: Task| t.status != TaskStatus::Done,
                |t: Task| t.status == TaskStatus::Done,
            );
        }
        self.dirty = true;
        removed
    }

    /// Removes every task; returns how many there were.
    pub fn clear_all(&mut self) -> (r: usize)
        requires
            old(self).wf(),
        ensures
            final(self).wf(),
            final(self)@ == Map::<TaskId, Task>::empty(),
            r == old(self)@.len(),
            final(self).unsaved(),
            final(self).configuration() == old(self).configuration(),
    {
        proof {
            lemma_view_len(self.tasks@);
        }
        let count = self.tasks.len();
        self.tasks.clear();
        assert(self@ =~= Map::<TaskId, Task>::empty());
        self.dirty = true;
        count
    }

    /// Imports `tasks` in their order, skipping each whose identifier is
    /// already in the store (or came earlier in `tasks`); returns how many
    /// were added. All of `tasks` are validated first: if any is invalid,
    /// nothing is imported and the error describes the first invalid one.
    pub fn import_tasks(&mut self, tasks: Vec<Task>) -> (r: Result<usize, TaskError>)
        requires
            old(self).wf(),
        ensures
            final(self).wf(),
            final(self).configuration() == old(self).configuration(),
            (forall|j: int| 0 <= j < tasks@.len() ==> (#[trigger] tasks@[j]).valid()) ==> {
                &&& r == Ok::<usize, TaskError>(added(old(self)@, tasks@) as usize)
                &&& final(self)@ == merged(old(self)@, tasks@)
                &&& final(self).unsaved() == (old(self).unsaved() || added(old(self)@, tasks@) > 0)
            },
            forall|k: int| #[trigger] first_invalid(tasks@, k) ==> {
                &&& r matches Err(TaskError::ValidationError(m)) && m@ == joined(tasks@[k].problems())
                &&& *final(self) == *old(self)
            },
    {
        let mut k: usize = 0;
        while k < tasks.len()
            invariant
                *self == *old(self),
                old(self).wf(),
                k <= tasks@.len(),
                forall|j: int| 0 <= j < k ==> (#[trigger] tasks@[j]).valid(),
            decreases tasks@.len() - k,
        {
            if let Err(e) = tasks[k].validate() {
                assert(first_invalid(tasks@, k as int));
                assert forall|j: int| #[trigger] first_invalid(tasks@, j) implies j == k by {
                    if j < k {
                    } else if j > k {
                        assert(tasks@[k as int].valid());
                    }
                }
                return Err(e);
            }
            k += 1;
        }
        let ghost incoming = tasks@;
        let ghost m0 = self@;
        let mut rest = tasks;
        let mut count: usize = 0;
        let mut n: usize = 0;
        while rest.len() > 0
            invariant
                self.wf(),
                self.config == old(self).config,
                n + rest@.len() == incoming.len(),
                incoming.len() <= usize::MAX,
                rest@ == incoming.subrange(n as int, incoming.len() as int),
                forall|j: int| 0 <= j < incoming.len() ==> (#[trigger] incoming[j]).valid(),
                self@ == merged(m0, incoming.take(n as int)),
                count == added(m0, incoming.take(n as int)),
                count <= n,
                self.dirty == (old(self).dirty || count > 0),
            decreases rest@.len(),
        {
            let t = rest.remove(0);
            proof {
                assert(incoming.take(n + 1).drop_last() =~= incoming.take(n as int));
                assert(incoming.take(n + 1).last() == t);
            }
            if self.position(t.id).is_none() {
                proof {
                    lemma_view_push(self.tasks@, t);
                }
                self.tasks.push(t);
                count += 1;
                self.dirty = true;
            }
            n += 1;
        }
        assert(incoming.take(n as int) =~= incoming);
        Ok(count)
    }

    /// Replaces all tasks with `tasks`, as a load from storage does: a later
    /// task with an identifier seen before replaces the earlier one. All of
    /// `tasks` are validated first: if any is invalid, nothing changes.
    /// Afterwards the store holds no unsaved change.
    pub fn replace_all(&mut self, tasks: Vec<Task>) -> (r: Result<usize, TaskError>)
        requires
            old(self).wf(),
        ensures
            final(self).wf(),
            final(self).configuration() == old(self).configuration(),
            (forall|j: int| 0 <= j < tasks@.len() ==> (#[trigger] tasks@[j]).valid()) ==> {
                &&& r == Ok::<usize, TaskError>(final(self)@.len() as usize)
                &&& final(self)@.dom() == tasks@.map_values(|t: Task| t.id).to_set()
                &&& forall|id: TaskId| #[trigger] final(self)@.contains_key(id) ==> exists|j: int|
                    0 <= j < tasks@.len() && tasks@[j] == final(self)@[id] && forall|l: int|
                        j < l < tasks@.len() ==> (#[trigger] tasks@[l]).id != id
                &&& !final(self).unsaved()
            },
            forall|k: int| #[trigger] first_invalid(tasks@, k) ==> {
                &&& r matches Err(TaskError::ValidationError(m)) && m@ == joined(tasks@[k].problems())
                &&& *final(self) == *old(self)
            },
    {
        let mut k: usize = 0;
        while k < tasks.len()
            invariant
                *self == *old(self),
                old(self).wf(),
                k <= tasks@.len(),
                forall|j: int| 0 <= j < k ==> (#[trigger] tasks@[j]).valid(),
            decreases tasks@.len() - k,
        {
            if let Err(e) = tasks[k].validate() {
                assert(first_invalid(tasks@, k as int));
                assert forall|j: int| #[trigger] first_invalid(tasks@, j) implies j == k by {
                    if j < k {
                    } else if j > k {
                        assert(tasks@[k as int].valid());
                    }
                }
                return Err(e);
            }
            k += 1;
        }
        let ghost incoming = tasks@;
        let mut rest = tasks;
        self.tasks.clear();
        let mut n: usize = 0;
        while rest.len() > 0
            invariant
                self.wf(),
                self.config == old(self).config,
                n + rest@.len() == incoming.len(),
                incoming.len() <= usize::MAX,
                rest@ == incoming.subrange(n as int, incoming.len() as int),
                forall|j: int| 0 <= j < incoming.len() ==> (#[trigger] incoming[j]).valid(),
                self@.dom() == incoming.take(n as int).map_values(|t: Task| t.id).to_set(),
                forall|id: TaskId| #[trigger] self@.contains_key(id) ==> exists|j: int|
                    0 <= j < n && incoming[j] == self@[id] && forall|l: int|
                        j < l < n ==> (#[trigger] incoming[l]).id != id,
            decreases rest@.len(),
        {
            let t = rest.remove(0);
            let ghost prev = self@;
            let ghost s0 = self.tasks@;
            proof {
                assert(incoming[n as int] == t);
            }
            match self.position(t.id) {
                Some(i) => {
                    self.tasks.remove(i);
                    self.tasks.insert(i, t);
                    proof {
                        assert(self.tasks@ =~= s0.update(i as int, t));
                        lemma_view_update(s0, i as int, t);
                    }
                },
                None => {
                    proof {
                        lemma_view_push(self.tasks@, t);
                    }
                    self.tasks.push(t);
                },
            }
            proof {
                assert(self@.dom() =~= prev.dom().insert(t.id));
                assert(incoming.take(n + 1) =~= incoming.take(n as int).push(t));
                incoming.take(n as int).map_values(|t: Task| t.id).lemma_push_to_set_commute(t.id);
                assert(incoming.take(n + 1).map_values(|t: Task| t.id) =~= incoming.take(
                    n as int,
                ).map_values(|t: Task| t.id).push(t.id));
                assert forall|id: TaskId| #[trigger] self@.contains_key(id) implies exists|j: int|
                    0 <= j < n + 1 && incoming[j] == self@[id] && forall|l: int|
                        j < l < n + 1 ==> (#[trigger] incoming[l]).id != id by {
                    if id == t.id {
                        assert(incoming[n as int] == self@[id]);
                    } else {
                        assert(prev.contains_key(id));
                        let j = choose|j: int|
                            0 <= j < n && incoming[j] == prev[id] && forall|l: int|
                                j < l < n ==> (#[trigger] incoming[l]).id != id;
                        assert(incoming[j] == self@[id]);
                    }
                }
            }
            n += 1;
        }
        proof {
            assert(incoming.take(n as int) =~= incoming);
            lemma_view_len(self.tasks@);
        }
        self.dirty = false;
        Ok(self.tasks.len())
    }

    /// The tasks to write out if the store holds unsaved changes; nothing
    /// otherwise.
    pub fn tasks_to_save(&self) -> (r: Option<Vec<&Task>>)
        requires
            self.wf(),
        ensures
            self.unsaved() ==> (r matches Some(v) && lists_exactly(v@.unref(), self@)),
            !self.unsaved() ==> r is None,
    {
        if self.dirty {
            Some(self.get_all_tasks())
        } else {
            None
        }
    }

    /// Records that the store's tasks have been saved.
    pub fn mark_saved(&mut self)
        ensures
            final(self)@ == old(self)@,
            final(self).wf() == old(self).wf(),
            !final(self).unsaved(),
            final(self).configuration() == old(self).configuration(),
    {
        self.dirty = false;
    }
}

/// Importing tasks with distinct identifiers into an empty store adds them
/// all, each under its identifier.
proof fn lemma_merged_into_empty(s: Seq<Task>)
    requires
        ids_unique(s),
    ensures
        merged(Map::empty(), s) == task_map(s),
        added(Map::empty(), s) == s.len(),
    decreases s.len(),
{
    if s.len() == 0 {
        assert(task_map(s) =~= Map::<TaskId, Task>::empty());
    } else {
        let p = s.drop_last();
        let t = s.last();
        assert(ids_unique(p)) by {
            assert forall|i: int, j: int|
                0 <= i < p.len() && 0 <= j < p.len() && i != j implies #[trigger] p[i].id
                != #[trigger] p[j].id by {
                assert(p[i] == s[i] && p[j] == s[j]);
            }
        }
        lemma_merged_into_empty(p);
        if task_map(p).contains_key(t.id) {
            let i = choose|i: int| 0 <= i < p.len() && #[trigger] p[i].id == t.id;
            assert(s[i] == p[i]);
            assert(s[s.len() - 1] == t);
        }
        lemma_view_push(p, t);
        assert(p.push(t) =~= s);
    }
}

/// In a listing sorted by due date, earliest or latest first, every task
/// with a due date stands ahead of every task without one.
pub proof fn law_undated_tasks_last(r: Seq<Task>, order: TaskSort)
    requires
        order == TaskSort::DueDateAsc || order == TaskSort::DueDateDesc,
        sorted_by(r, order),
    ensures
        forall|i: int, j: int|
            0 <= i < r.len() && 0 <= j < r.len() && (#[trigger] r[i]).due_date is Some && (
            #[trigger] r[j]).due_date is None ==> i < j,
{
    assert forall|i: int, j: int|
        0 <= i < r.len() && 0 <= j < r.len() && (#[trigger] r[i]).due_date is Some && (
        #[trigger] r[j]).due_date is None implies i < j by {
        if j < i {
            assert(!sorts_before(order, r[i], r[j]));
        }
    }
}

/// Once the done tasks are cleared from a store, none of its tasks is done.
pub proof fn law_nothing_done_after_clear(before: Map<TaskId, Task>, after: Map<TaskId, Task>)
    requires
        after == select(before, |t: Task| t.status != TaskStatus::Done),
    ensures
        select(after, |t: Task| t.status == TaskStatus::Done).len() == 0,
{
    assert(select(after, |t: Task| t.status == TaskStatus::Done) =~= Map::<TaskId, Task>::empty());
}

/// A listing of a whole store, imported into an empty store, adds every
/// task and rebuilds the same store: every task is valid, no identifier
/// repeats, and the tasks come back under their own identifiers.
pub proof fn law_export_import_round_trip(store: &TaskManager, exported: Seq<Task>)
    requires
        store.wf(),
        lists_exactly(exported, store@),
    ensures
        forall|j: int| 0 <= j < exported.len() ==> (#[trigger] exported[j]).valid(),
        merged(Map::empty(), exported) == store@,
        added(Map::empty(), exported) == exported.len(),
{
    store.lemma_entries();
    lemma_merged_into_empty(exported);
    lemma_view_of(exported, store@);
    assert forall|j: int| 0 <= j < exported.len() implies (#[trigger] exported[j]).valid() by {
        assert(store@.contains_key(exported[j].id));
    }
}

} // verus!
