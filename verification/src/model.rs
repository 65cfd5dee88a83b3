//! Todo item and list options (filter, sort).

use vstd::prelude::*;

use crate::id::TodoId;
use crate::priority::Priority;
use crate::repeat::RepeatRule;

verus! {

/// A point in time: nanoseconds since the Unix epoch (negative before it).
#[derive(Clone, Copy, Debug, PartialEq, Eq, Hash, Structural)]
pub struct Timestamp {
    pub nanos: i128,
}

/// Nanoseconds a `Duration` can hold at most: `u64::MAX` seconds and 999 999 999 nanoseconds.
pub open spec fn max_duration_nanos() -> int {
    0x1_0000_0000_0000_0000int * 1_000_000_000int
}

/// `SystemTime::now().duration_since(UNIX_EPOCH)` as nanoseconds (`Duration::as_nanos`): `Ok`
/// with the time since the epoch, or `Err` with how long before the epoch it is
/// (`SystemTimeError::duration`). Which time it is is not stated: it is the clock's; both are
/// `Duration`s, so below [`max_duration_nanos`].
#[verifier::external_body]
fn clock_since_epoch() -> (r: Result<u128, u128>)
    ensures
        match r {
            Ok(n) => n < max_duration_nanos(),
            Err(n) => n < max_duration_nanos(),
        },
{
    match std::time::SystemTime::now().duration_since(std::time::UNIX_EPOCH) {
        Ok(d) => Ok(d.as_nanos()),
        Err(e) => Err(e.duration().as_nanos()),
    }
}

/// The current wall-clock time, before the epoch as a negative count.
pub(crate) fn now() -> (t: Timestamp) {
    match clock_since_epoch() {
        Ok(n) => Timestamp { nanos: n as i128 },
        Err(n) => Timestamp { nanos: -(n as i128) },
    }
}

/// A single todo item.
#[derive(Debug, PartialEq, Eq)]
pub struct Todo {
    pub id: TodoId,
    pub title: String,
    pub completed: bool,
    pub created_at: Timestamp,
    /// When the todo was marked completed; None if still open.
    pub completed_at: Option<Timestamp>,
    /// Optional longer description.
    pub description: Option<String>,
    /// Optional due date (ISO 8601 date, e.g. YYYY-MM-DD).
    pub due_date: Option<String>,
    /// Optional priority.
    pub priority: Option<Priority>,
    /// Tags for grouping/filtering.
    pub tags: Vec<String>,
    /// Optional repeat rule for recurring tasks.
    pub repeat_rule: Option<RepeatRule>,
    /// Optional end date for recurrence (YYYY-MM-DD); no next instance if next due > this.
    pub repeat_until: Option<String>,
    /// Optional remaining occurrences for recurrence; no next instance when this is 0 or 1 (1 = last).
    pub repeat_count: Option<u32>,
}

/// The mathematical value of a [`Todo`]: texts as character sequences.
pub struct TodoModel {
    pub id: u64,
    pub title: Seq<char>,
    pub completed: bool,
    pub created_at: i128,
    pub completed_at: Option<i128>,
    pub description: Option<Seq<char>>,
    pub due_date: Option<Seq<char>>,
    pub priority: Option<Priority>,
    pub tags: Seq<Seq<char>>,
    pub repeat_rule: Option<RepeatRule>,
    pub repeat_until: Option<Seq<char>>,
    pub repeat_count: Option<u32>,
}

pub open spec fn time_view(t: Option<Timestamp>) -> Option<i128> {
    match t {
        Some(x) => Some(x.nanos),
        None => None,
    }
}

impl View for Todo {
    type V = TodoModel;

    open spec fn view(&self) -> TodoModel {
        TodoModel {
            id: self.id@,
            title: self.title@,
            completed: self.completed,
            created_at: self.created_at.nanos,
            completed_at: time_view(self.completed_at),
            description: self.description.deep_view(),
            due_date: self.due_date.deep_view(),
            priority: self.priority,
            tags: self.tags.deep_view(),
            repeat_rule: self.repeat_rule,
            repeat_until: self.repeat_until.deep_view(),
            repeat_count: self.repeat_count,
        }
    }
}

/// A copy of a list of strings.
pub fn clone_strings(v: &Vec<String>) -> (r: Vec<String>)
    ensures
        r.deep_view() == v.deep_view(),
{
    let mut r: Vec<String> = Vec::new();
    let mut i: usize = 0;
    while i < v.len()
        invariant
            i <= v@.len(),
            r@.len() == i,
            forall|k: int| 0 <= k < i ==> #[trigger] r@[k]@ == v@[k]@,
        decreases v@.len() - i,
    {
        r.push(v[i].clone());
        i = i + 1;
    }
    assert(r.deep_view() =~= v.deep_view());
    r
}

/// A copy of an optional string.
pub fn clone_opt_string(s: &Option<String>) -> (r: Option<String>)
    ensures
        r.deep_view() == s.deep_view(),
{
    match s {
        Some(x) => Some(x.clone()),
        None => None,
    }
}

impl Todo {
    /// A copy of this todo.
    pub fn duplicate(&self) -> (r: Todo)
        ensures
            r@ == self@,
    {
        Todo {
            id: self.id,
            title: self.title.clone(),
            completed: self.completed,
            created_at: self.created_at,
            completed_at: self.completed_at,
            description: clone_opt_string(&self.description),
            due_date: clone_opt_string(&self.due_date),
            priority: self.priority,
            tags: clone_strings(&self.tags),
            repeat_rule: self.repeat_rule,
            repeat_until: clone_opt_string(&self.repeat_until),
            repeat_count: self.repeat_count,
        }
    }
}

impl Clone for Todo {
    fn clone(&self) -> (r: Todo)
        ensures
            r@ == self@,
    {
        self.duplicate()
    }
}

/// Partial update for a todo; only `Some` fields are applied.
#[derive(Default)]
pub struct TodoPatch {
    pub title: Option<String>,
    pub description: Option<String>,
    pub due_date: Option<String>,
    pub priority: Option<Priority>,
    pub tags: Option<Vec<String>>,
    pub repeat_rule: Option<RepeatRule>,
    pub repeat_until: Option<String>,
    pub repeat_count: Option<u32>,
    /// When true, the repeat rule is removed (after the other fields are applied).
    pub repeat_rule_clear: bool,
}

/// Filter criteria for listing todos.
#[derive(Default)]
pub struct ListFilter {
    /// If set, filter by completed status.
    pub status: Option<bool>,
    /// If set, only items with this priority.
    pub priority: Option<Priority>,
    /// If set, item must have at least one of these tags.
    pub tags_any: Option<Vec<String>>,
    /// If set, `due_date` must be <= this (YYYY-MM-DD).
    pub due_before: Option<String>,
    /// If set, `due_date` must be >= this (YYYY-MM-DD).
    pub due_after: Option<String>,
}

/// Sort order for listing.
#[derive(Clone, Copy, Debug, PartialEq, Eq, Structural)]
pub enum ListSort {
    CreatedAt,
    DueDate,
    Priority,
    Title,
}

impl Default for ListSort {
    fn default() -> (r: ListSort)
        ensures
            r == ListSort::CreatedAt,
    {
        ListSort::CreatedAt
    }
}

/// Options for list (filter + sort).
#[derive(Default)]
pub struct ListOptions {
    pub filter: Option<ListFilter>,
    pub sort: ListSort,
}

} // verus!
