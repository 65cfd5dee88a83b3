//! Facade for todo operations (create, list, complete, delete).

use vstd::prelude::*;

use crate::error::TodoError;
use crate::id::TodoId;
use crate::model::{now, ListOptions, ListSort, Todo, TodoModel, TodoPatch};
use crate::query::{
    compare_strings, filter_todos, lemma_listed_with, listed_with, matching, option_keeps, todo_before,
    select_matching, sort_todos, sorted_by,
};
use crate::store::{lists_in_creation_order, models, InMemoryStore, Store};
use crate::repeat::{next_due_defined, next_due_spec};
use crate::text::{
    lemma_trim_idempotent, lowered, seq_lt, string_of, trim, trim_lower, trim_str, Cmp,
};

verus! {

/// `m` is the todo `create` makes: id `id`, title `title`, open, nothing else set
/// (its creation time is whatever the clock read).
pub open spec fn fresh_todo(m: TodoModel, id: u64, title: Seq<char>) -> bool {
    &&& m.id == id
    &&& m.title == title
    &&& !m.completed
    &&& m.completed_at is None
    &&& m.description is None
    &&& m.due_date is None
    &&& m.priority is None
    &&& m.tags == Seq::<Seq<char>>::empty()
    &&& m.repeat_rule is None
    &&& m.repeat_until is None
    &&& m.repeat_count is None
}

/// `m` with its id replaced by `id`.
pub open spec fn with_id(m: TodoModel, id: u64) -> TodoModel {
    TodoModel { id, ..m }
}

/// `m` after applying `p` (the title already validated): only the `Some` fields change, and
/// `repeat_rule_clear` removes the repeat rule.
pub open spec fn patched(m: TodoModel, p: &TodoPatch) -> TodoModel {
    TodoModel {
        title: match p.title {
            Some(t) => trim(t@),
            None => m.title,
        },
        description: if p.description is Some {
            p.description.deep_view()
        } else {
            m.description
        },
        due_date: if p.due_date is Some {
            p.due_date.deep_view()
        } else {
            m.due_date
        },
        priority: if p.priority is Some {
            p.priority
        } else {
            m.priority
        },
        tags: match p.tags {
            Some(t) => t.deep_view(),
            None => m.tags,
        },
        repeat_rule: if p.repeat_rule_clear {
            None
        } else if p.repeat_rule is Some {
            p.repeat_rule
        } else {
            m.repeat_rule
        },
        repeat_until: if p.repeat_until is Some {
            p.repeat_until.deep_view()
        } else {
            m.repeat_until
        },
        repeat_count: if p.repeat_count is Some {
            p.repeat_count
        } else {
            m.repeat_count
        },
        ..m
    }
}

/// Completing `t` goes on to the recurrence step: a next instance is wanted, `t` repeats and
/// has a due date, and its remaining count is not down to its last occurrence (0 or 1).
pub open spec fn repeats_after(t: TodoModel, no_next: bool) -> bool {
    &&& !no_next
    &&& t.repeat_rule is Some
    &&& t.due_date is Some
    &&& t.repeat_count != Some(0u32)
    &&& t.repeat_count != Some(1u32)
}

/// The due date one recurrence step after `t`'s.
pub open spec fn next_due_of(t: TodoModel) -> Option<Seq<char>> {
    next_due_spec(t.repeat_rule->0, t.due_date->0)
}

/// Completing `t` creates its next instance: the step gives a date that is not past
/// `repeat_until`.
pub open spec fn makes_next(t: TodoModel, no_next: bool) -> bool {
    &&& repeats_after(t, no_next)
    &&& next_due_of(t) is Some
    &&& !(t.repeat_until matches Some(u) && seq_lt(u, next_due_of(t)->0))
}

/// `m` is `t` marked completed at some time.
pub open spec fn completed_from(t: TodoModel, m: TodoModel) -> bool {
    &&& m.completed_at is Some
    &&& m == TodoModel { completed: true, completed_at: m.completed_at, ..t }
}

/// `m` is the next instance of `t` under id `id`: open, due one step later, one occurrence
/// fewer to go, created at some time, the rest copied.
pub open spec fn next_instance(t: TodoModel, id: u64, m: TodoModel) -> bool {
    m == TodoModel {
        id,
        completed: false,
        created_at: m.created_at,
        completed_at: None,
        due_date: Some(next_due_of(t)->0),
        repeat_count: match t.repeat_count {
            Some(n) => Some((n - 1) as u32),
            None => None,
        },
        ..t
    }
}

/// `complete` can run on `t` without a panic: where it takes a recurrence step, the step is
/// defined, and where it creates a next instance, an id is left.
pub open spec fn complete_defined(t: TodoModel, no_next: bool, last_id: u64) -> bool {
    &&& repeats_after(t, no_next) ==> next_due_defined(t.repeat_rule->0, t.due_date->0)
    &&& makes_next(t, no_next) ==> last_id < u64::MAX
}

/// What `complete(id, no_next)` does to a list with todos `m0` and last id `l0`, leaving
/// `m1` and `l1` and returning `r`.
pub open spec fn complete_outcome(
    m0: Map<u64, TodoModel>,
    l0: u64,
    m1: Map<u64, TodoModel>,
    l1: u64,
    id: TodoId,
    no_next: bool,
    r: Result<(), TodoError>,
) -> bool {
    &&& r is Err <==> !m0.contains_key(id@)
    &&& r matches Err(e) ==> e == TodoError::NotFound(id) && m1 == m0 && l1 == l0
    &&& r is Ok ==> {
        let t = m0[id@];
        let n = (l0 + 1) as u64;
        &&& completed_from(t, m1[id@])
        &&& makes_next(t, no_next) ==> {
            &&& l1 == n
            &&& !m0.contains_key(n)
            &&& next_instance(t, n, m1[n])
            &&& m1 == m0.insert(id@, m1[id@]).insert(n, m1[n])
        }
        &&& !makes_next(t, no_next) ==> l1 == l0 && m1 == m0.insert(id@, m1[id@])
    }
}

/// The ids of the completed todos of `m`.
pub open spec fn completed_ids(m: Map<u64, TodoModel>) -> Set<u64> {
    m.dom().filter(|k: u64| m[k].completed)
}

/// The patch carries a title that is empty after trimming.
pub open spec fn patch_title_invalid(p: &TodoPatch) -> bool {
    p.title matches Some(t) && trim(t@).len() == 0
}

/// Validates title: after trim, must be non-empty.
fn validate_title(title: &str) -> (r: Result<String, TodoError>)
    ensures
        r is Err <==> trim(title@).len() == 0,
        r matches Err(e) ==> e == TodoError::InvalidInput,
        r matches Ok(s) ==> s@ == trim(title@),
{
    let t = trim_str(title);
    if t.len() == 0 {
        return Err(TodoError::InvalidInput);
    }
    Ok(string_of(&t))
}

/// Facade for todo operations. Holds a store (default: in-memory).
pub struct TodoList<S> {
    store: S,
}

impl TodoList<InMemoryStore> {
    /// Creates a new list with in-memory storage.
    pub fn new() -> (l: TodoList<InMemoryStore>)
        ensures
            l.wf(),
            l.todos() == Map::<u64, TodoModel>::empty(),
            l.last_id() == 0,
    {
        TodoList { store: InMemoryStore::new() }
    }
}

impl Default for TodoList<InMemoryStore> {
    fn default() -> (l: TodoList<InMemoryStore>)
        ensures
            l.wf(),
            l.todos() == Map::<u64, TodoModel>::empty(),
            l.last_id() == 0,
    {
        TodoList::new()
    }
}

impl<S: Store> TodoList<S> {
    /// The todos of the list, keyed by raw id.
    pub closed spec fn todos(&self) -> Map<u64, TodoModel> {
        self.store.todos()
    }

    /// The last id the list's store handed out.
    pub closed spec fn last_id(&self) -> u64 {
        self.store.last_id()
    }

    /// The list's store is consistent.
    pub closed spec fn wf(&self) -> bool {
        self.store.inv()
    }

    /// Every todo of a consistent list has an id already handed out, and is keyed by it.
    pub proof fn lemma_wf(&self)
        requires
            self.wf(),
        ensures
            self.todos().dom().finite(),
            forall|k: u64| #[trigger]
                self.todos().contains_key(k) ==> k <= self.last_id() && self.todos()[k].id == k,
    {
        self.store.lemma_inv();
    }

    /// Builds a list with the given store (e.g. for testing or custom backends).
    pub fn with_store(store: S) -> (l: TodoList<S>)
        requires
            store.inv(),
        ensures
            l.wf(),
            l.todos() == store.todos(),
            l.last_id() == store.last_id(),
    {
        TodoList { store }
    }

    /// Creates a todo with the given (trimmed) title and returns its id; `InvalidInput` when the
    /// title is empty or only whitespace.
    pub fn create(&mut self, title: &str) -> (r: Result<TodoId, TodoError>)
        requires
            old(self).wf(),
            trim(title@).len() > 0 ==> old(self).last_id() < u64::MAX,
        ensures
            final(self).wf(),
            r is Err <==> trim(title@).len() == 0,
            r matches Err(e) ==> e == TodoError::InvalidInput && final(self).todos() == old(
                self,
            ).todos() && final(self).last_id() == old(self).last_id(),
            r matches Ok(id) ==> {
                &&& id@ == old(self).last_id() + 1
                &&& final(self).last_id() == id@
                &&& !old(self).todos().contains_key(id@)
                &&& final(self).todos() == old(self).todos().insert(id@, final(self).todos()[id@])
                &&& fresh_todo(final(self).todos()[id@], id@, trim(title@))
            },
    {
        proof {
            self.store.lemma_inv();
        }
        let title = validate_title(title)?;
        let id = self.store.next_id();
        let todo = Todo {
            id,
            title,
            completed: false,
            created_at: now(),
            completed_at: None,
            description: None,
            due_date: None,
            priority: None,
            tags: Vec::new(),
            repeat_rule: None,
            repeat_until: None,
            repeat_count: None,
        };
        assert(todo.tags.deep_view() =~= Seq::<Seq<char>>::empty());
        self.store.insert(todo);
        Ok(id)
    }

    /// Inserts an existing todo's content with a new id (e.g. for import/merge).
    pub fn add_todo(&mut self, todo: &Todo) -> (id: TodoId)
        requires
            old(self).wf(),
            old(self).last_id() < u64::MAX,
        ensures
            final(self).wf(),
            id@ == old(self).last_id() + 1,
            final(self).last_id() == id@,
            !old(self).todos().contains_key(id@),
            final(self).todos() == old(self).todos().insert(id@, with_id(todo@, id@)),
    {
        proof {
            self.store.lemma_inv();
        }
        let id = self.store.next_id();
        let mut t = todo.duplicate();
        t.id = id;
        assert(t@ == with_id(todo@, id@));
        self.store.insert(t);
        id
    }

    /// Returns the todo with the given id, if it exists.
    pub fn get(&self, id: TodoId) -> (r: Option<Todo>)
        requires
            self.wf(),
        ensures
            match r {
                Some(t) => self.todos().contains_key(id@) && t@ == self.todos()[id@],
                None => !self.todos().contains_key(id@),
            },
    {
        self.store.get(id)
    }

    /// Returns all todos in creation order.
    pub fn list(&self) -> (v: Vec<Todo>)
        requires
            self.wf(),
        ensures
            lists_in_creation_order(models(v@), self.todos()),
    {
        self.store.list()
    }

    /// The todos that `options.filter` keeps, strictly ordered by `options.sort` (ties broken
    /// by id).
    pub fn list_with_options(&self, options: &ListOptions) -> (v: Vec<Todo>)
        requires
            self.wf(),
        ensures
            sorted_by(models(v@), options.sort),
            listed_with(models(v@), self.todos(), &options.filter),
    {
        let items = self.store.list();
        let kept = filter_todos(&items, &options.filter);
        proof {
            let im = models(items@);
            let km = models(kept@);
            let m = self.todos();
            let pred = |t: TodoModel| option_keeps(&options.filter, t);
            assert(km == im.filter(pred));
            assert forall|i: int| 0 <= i < km.len() implies m.contains_key(#[trigger] km[i].id)
                && m[km[i].id] == km[i] by {
                assert(km.contains(km[i]));
                im.lemma_filter_contains_rev(pred, km[i]);
                let j = choose|j: int| 0 <= j < im.len() && im[j] == km[i];
                assert(m.contains_key(im[j].id));
            }
            crate::store::lemma_creation_order_distinct(km, m);
        }
        let r = sort_todos(&kept, options.sort);
        proof {
            lemma_listed_with(models(items@), models(r@), self.todos(), &options.filter);
        }
        r
    }

    /// Updates the title of the todo with the given id. `InvalidInput` when the new title is
    /// empty after trimming (checked first), `NotFound` when there is no such todo.
    pub fn update_title(&mut self, id: TodoId, title: &str) -> (r: Result<(), TodoError>)
        requires
            old(self).wf(),
        ensures
            final(self).wf(),
            final(self).last_id() == old(self).last_id(),
            r matches Err(e) ==> final(self).todos() == old(self).todos(),
            r == Err::<(), TodoError>(TodoError::InvalidInput) <==> trim(title@).len() == 0,
            r == Err::<(), TodoError>(TodoError::NotFound(id)) <==> trim(title@).len() > 0
                && !old(self).todos().contains_key(id@),
            r is Ok <==> trim(title@).len() > 0 && old(self).todos().contains_key(id@),
            r is Ok ==> final(self).todos() == old(self).todos().insert(
                id@,
                TodoModel { title: trim(title@), ..old(self).todos()[id@] },
            ),
    {
        let t = validate_title(title)?;
        let ghost tv = t@;
        let patch = TodoPatch {
            title: Some(t),
            description: None,
            due_date: None,
            priority: None,
            tags: None,
            repeat_rule: None,
            repeat_until: None,
            repeat_count: None,
            repeat_rule_clear: false,
        };
        proof {
            lemma_trim_idempotent(title@);
        }
        assert(!patch_title_invalid(&patch));
        let r = self.update(id, patch);
        r
    }

    /// Applies a partial update to the todo with the given id: `NotFound` when there is no such
    /// todo, else `InvalidInput` when `patch.title` is empty after trimming.
    pub fn update(&mut self, id: TodoId, patch: TodoPatch) -> (r: Result<(), TodoError>)
        requires
            old(self).wf(),
        ensures
            final(self).wf(),
            final(self).last_id() == old(self).last_id(),
            r matches Err(e) ==> final(self).todos() == old(self).todos() && (e
                == TodoError::NotFound(id) || e == TodoError::InvalidInput),
            r == Err::<(), TodoError>(TodoError::NotFound(id)) <==> !old(
                self,
            ).todos().contains_key(id@),
            r == Err::<(), TodoError>(TodoError::InvalidInput) <==> old(self).todos().contains_key(
                id@,
            ) && patch_title_invalid(&patch),
            r is Ok ==> final(self).todos() == old(self).todos().insert(
                id@,
                patched(old(self).todos()[id@], &patch),
            ),
    {
        proof {
            self.store.lemma_inv();
        }
        let mut todo = match self.store.get(id) {
            Some(t) => t,
            None => return Err(TodoError::NotFound(id)),
        };
        let ghost m0 = todo@;
        let ghost p = patch;
        let TodoPatch {
            title,
            description,
            due_date,
            priority,
            tags,
            repeat_rule,
            repeat_until,
            repeat_count,
            repeat_rule_clear,
        } = patch;
        if let Some(t) = title {
            todo.title = validate_title(t.as_str())?;
        }
        if description.is_some() {
            todo.description = description;
        }
        if due_date.is_some() {
            todo.due_date = due_date;
        }
        if priority.is_some() {
            todo.priority = priority;
        }
        match tags {
            Some(t) => {
                todo.tags = t;
            },
            None => {},
        }
        if repeat_rule.is_some() {
            todo.repeat_rule = repeat_rule;
        }
        if repeat_until.is_some() {
            todo.repeat_until = repeat_until;
        }
        if repeat_count.is_some() {
            todo.repeat_count = repeat_count;
        }
        if repeat_rule_clear {
            todo.repeat_rule = None;
        }
        assert(todo@ == patched(m0, &p));
        assert(todo.id@ == id@);
        self.store.update(todo);
        Ok(())
    }

    /// Removes the todo with the given id; `NotFound` (and no change) when there is none.
    pub fn delete(&mut self, id: TodoId) -> (r: Result<(), TodoError>)
        requires
            old(self).wf(),
        ensures
            final(self).wf(),
            final(self).last_id() == old(self).last_id(),
            r is Err <==> !old(self).todos().contains_key(id@),
            r matches Err(e) ==> e == TodoError::NotFound(id) && final(self).todos() == old(
                self,
            ).todos(),
            r is Ok ==> final(self).todos() == old(self).todos().remove(id@),
    {
        if self.store.get(id).is_none() {
            return Err(TodoError::NotFound(id));
        }
        self.store.remove(id);
        Ok(())
    }

    /// The todos whose lowercased title, description or one of whose tags contains the
    /// trimmed, lowercased keyword, in creation order (all todos for an empty keyword).
    pub fn search(&self, keyword: &str) -> (v: Vec<Todo>)
        requires
            self.wf(),
        ensures
            lists_in_creation_order(models(v@), matching(self.todos(), lowered(trim(keyword@)))),
    {
        let k = trim_lower(keyword);
        let items = self.store.list();
        if k.len() == 0 {
            proof {
                assert(k@ =~= Seq::<char>::empty());
                crate::laws::lemma_empty_keyword_matches_all(self.todos());
            }
            return items;
        }
        select_matching(&items, &k, Ghost(self.todos()))
    }

    /// Counts: (total, incomplete, complete).
    pub fn stats(&self) -> (r: (usize, usize, usize))
        requires
            self.wf(),
        ensures
            r.0 == self.todos().len(),
            r.2 == completed_ids(self.todos()).len(),
            r.1 == r.0 - r.2,
    {
        let items = self.store.list();
        let ghost m = self.todos();
        let ghost im = models(items@);
        let ghost mut all: Set<u64> = Set::empty();
        let ghost mut done: Set<u64> = Set::empty();
        let mut complete: usize = 0;
        let mut i: usize = 0;
        while i < items.len()
            invariant
                i <= items@.len(),
                im == models(items@),
                lists_in_creation_order(im, m),
                all.finite(),
                done.finite(),
                all.len() == i,
                done.len() == complete,
                complete <= i,
                forall|id: u64| #[trigger] all.contains(id) <==> exists|j: int| 0 <= j < i && im[j].id == id,
                forall|id: u64| #[trigger] done.contains(id) <==> exists|j: int| 0 <= j < i && im[j].id == id && im[j].completed,
            decreases items@.len() - i,
        {
            let ghost x = im[i as int];
            assert(x == items@[i as int]@);
            proof {
                if all.contains(x.id) {
                    let j = choose|j: int| 0 <= j < i && im[j].id == x.id;
                    assert(todo_before(ListSort::CreatedAt, im[j], im[i as int]));
                    assert(m[im[j].id] == im[j]);
                    assert(m[im[i as int].id] == im[i as int]);
                }
            }
            if items[i].completed {
                complete = complete + 1;
                proof {
                    done = done.insert(x.id);
                }
            }
            proof {
                all = all.insert(x.id);
                assert forall|id: u64| #[trigger] all.contains(id) <==> exists|j: int| 0 <= j < i + 1 && im[j].id == id by {
                    if id == x.id {
                        assert(im[i as int].id == id);
                    }
                }
                assert forall|id: u64| #[trigger] done.contains(id) <==> exists|j: int| 0 <= j < i + 1 && im[j].id == id && im[j].completed by {
                    if id == x.id && x.completed {
                        assert(im[i as int].id == id);
                    }
                }
            }
            i = i + 1;
        }
        proof {
            assert forall|id: u64| #[trigger] all.contains(id) <==> m.dom().contains(id) by {
                if m.dom().contains(id) {
                    assert(m.contains_key(id));
                }
            }
            assert(all =~= m.dom());
            assert forall|id: u64| #[trigger] done.contains(id) <==> completed_ids(m).contains(id) by {
                if completed_ids(m).contains(id) {
                    assert(m.contains_key(id));
                    let j = choose|j: int| 0 <= j < im.len() && im[j].id == id;
                    assert(m[im[j].id] == im[j]);
                }
                if done.contains(id) {
                    let j = choose|j: int| 0 <= j < i && im[j].id == id && im[j].completed;
                    assert(m.contains_key(im[j].id) && m[im[j].id] == im[j]);
                }
            }
            assert(done =~= completed_ids(m));
        }
        let total = items.len();
        (total, total - complete, complete)
    }

    /// Marks the todo completed (stamping the time). If it repeats, has a due date, `no_next` is
    /// false and its count is not at its last occurrence, the next instance is created one step
    /// later, unless the step gives no date or passes `repeat_until`. `NotFound` when there is
    /// no such todo.
    pub fn complete(&mut self, id: TodoId, no_next: bool) -> (r: Result<(), TodoError>)
        requires
            old(self).wf(),
            old(self).todos().contains_key(id@) ==> complete_defined(
                old(self).todos()[id@],
                no_next,
                old(self).last_id(),
            ),
        ensures
            final(self).wf(),
            complete_outcome(
                old(self).todos(),
                old(self).last_id(),
                final(self).todos(),
                final(self).last_id(),
                id,
                no_next,
                r,
            ),
    {
        proof {
            self.store.lemma_inv();
        }
        let mut todo = match self.store.get(id) {
            Some(t) => t,
            None => return Err(TodoError::NotFound(id)),
        };
        let ghost t = todo@;
        let mut next = todo.duplicate();
        todo.completed = true;
        todo.completed_at = Some(now());
        let ghost done = todo@;
        assert(completed_from(t, done));
        self.store.update(todo);
        if no_next {
            return Ok(());
        }
        let rule = match next.repeat_rule {
            Some(rule) => rule,
            None => return Ok(()),
        };
        match next.repeat_count {
            Some(c) => {
                if c == 0 || c == 1 {
                    return Ok(());
                }
            },
            None => {},
        }
        let nd = match &next.due_date {
            None => return Ok(()),
            Some(from) => match rule.next_due_date(from.as_str()) {
                None => return Ok(()),
                Some(nd) => nd,
            },
        };
        if let Some(until) = &next.repeat_until {
            if let Cmp::Less = compare_strings(until, &nd) {
                return Ok(());
            }
        }
        assert(makes_next(t, no_next));
        let next_count = match next.repeat_count {
            Some(c) => c.checked_sub(1),
            None => None,
        };
        let next_id = self.store.next_id();
        next.id = next_id;
        next.completed = false;
        next.created_at = now();
        next.completed_at = None;
        next.due_date = Some(nd);
        next.repeat_count = next_count;
        assert(next_instance(t, next_id@, next@));
        self.store.insert(next);
        Ok(())
    }

    /// `complete`, run only where it cannot panic: `None` (and nothing changed) when the todo
    /// exists and its recurrence step leaves the calendar, or a next instance is due and no id
    /// is left for it.
    pub fn try_complete(&mut self, id: TodoId, no_next: bool) -> (r: Option<Result<(), TodoError>>)
        requires
            old(self).wf(),
        ensures
            final(self).wf(),
            r is None <==> old(self).todos().contains_key(id@) && !complete_defined(
                old(self).todos()[id@],
                no_next,
                old(self).last_id(),
            ),
            r is None ==> final(self).todos() == old(self).todos() && final(self).last_id() == old(
                self,
            ).last_id(),
            r matches Some(x) ==> complete_outcome(
                old(self).todos(),
                old(self).last_id(),
                final(self).todos(),
                final(self).last_id(),
                id,
                no_next,
                x,
            ),
    {
        if let Some(t) = self.get(id) {
            if !no_next {
                if let (Some(rule), Some(from)) = (t.repeat_rule, &t.due_date) {
                    let last = match t.repeat_count {
                        Some(c) => c == 0 || c == 1,
                        None => false,
                    };
                    if !last {
                        if !rule.step_defined_for(from.as_str()) {
                            return None;
                        }
                        if self.store.last_issued_id() == u64::MAX {
                            if let Some(nd) = rule.next_due_date(from.as_str()) {
                                let past = match &t.repeat_until {
                                    Some(u) => match compare_strings(u, &nd) {
                                        Cmp::Less => true,
                                        _ => false,
                                    },
                                    None => false,
                                };
                                if !past {
                                    return None;
                                }
                            }
                        }
                    }
                }
            }
        }
        Some(self.complete(id, no_next))
    }
}

} // verus!
