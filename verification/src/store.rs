//! Storage abstraction for todo items.

use std::collections::HashMap;

use vstd::prelude::*;
use vstd::std_specs::hash::spec_keys_iter;
use vstd::std_specs::iter::IteratorSpec;

use crate::id::TodoId;
use crate::model::{ListSort, Todo, TodoModel};
use crate::query::{distinct_ids, sort_todos, sorted_by, todo_before};

verus! {

broadcast use vstd::std_specs::hash::group_hash_axioms;

/// The models of a sequence of todos.
pub open spec fn models(v: Seq<Todo>) -> Seq<TodoModel> {
    v.map_values(|t: Todo| t@)
}

/// Every entry of `s` is the todo that `m` holds under its id, and every todo of `m` occurs in `s`.
pub open spec fn holds_exactly(s: Seq<TodoModel>, m: Map<u64, TodoModel>) -> bool {
    &&& forall|i: int|
        0 <= i < s.len() ==> m.contains_key(#[trigger] s[i].id) && m[s[i].id] == s[i]
    &&& forall|k: u64| #[trigger] m.contains_key(k) ==> exists|i: int| 0 <= i < s.len() && s[i].id == k
}

/// `s` holds exactly the todos of `m`, in creation order: by `created_at`, ties by id.
pub open spec fn lists_in_creation_order(s: Seq<TodoModel>, m: Map<u64, TodoModel>) -> bool {
    &&& sorted_by(s, ListSort::CreatedAt)
    &&& holds_exactly(s, m)
}

/// A listing ordered by creation whose entries are the todos of a map under their ids names
/// each id once.
pub proof fn lemma_creation_order_distinct(s: Seq<TodoModel>, m: Map<u64, TodoModel>)
    requires
        sorted_by(s, ListSort::CreatedAt),
        forall|i: int| 0 <= i < s.len() ==> m.contains_key(#[trigger] s[i].id) && m[s[i].id] == s[i],
    ensures
        distinct_ids(s),
{
    assert forall|i: int, j: int| 0 <= i < j < s.len() implies (#[trigger] s[i]).id != (#[trigger] s[j]).id by {
        assert(todo_before(ListSort::CreatedAt, s[i], s[j]));
        if s[i].id == s[j].id {
            assert(m[s[i].id] == s[i]);
            assert(m[s[j].id] == s[j]);
        }
    }
}

/// A permutation of a listing that holds exactly the todos of `m` holds exactly them too.
pub proof fn lemma_permutation_holds(im: Seq<TodoModel>, rm: Seq<TodoModel>, m: Map<u64, TodoModel>)
    requires
        holds_exactly(im, m),
        rm.to_multiset() == im.to_multiset(),
    ensures
        holds_exactly(rm, m),
{
    broadcast use vstd::seq_lib::group_to_multiset_ensures;

    assert forall|i: int| 0 <= i < rm.len() implies m.contains_key(#[trigger] rm[i].id) && m[rm[i].id]
        == rm[i] by {
        assert(rm.contains(rm[i]));
        vstd::seq_lib::to_multiset_contains(rm, rm[i]);
        vstd::seq_lib::to_multiset_contains(im, rm[i]);
        let j = choose|j: int| 0 <= j < im.len() && im[j] == rm[i];
        assert(m.contains_key(im[j].id));
    }
    assert forall|k: u64| #[trigger] m.contains_key(k) implies exists|i: int| 0 <= i < rm.len()
        && rm[i].id == k by {
        let j = choose|j: int| 0 <= j < im.len() && im[j].id == k;
        assert(im.contains(im[j]));
        vstd::seq_lib::to_multiset_contains(im, im[j]);
        vstd::seq_lib::to_multiset_contains(rm, im[j]);
        let i = choose|i: int| 0 <= i < rm.len() && rm[i] == im[j];
        assert(rm[i].id == k);
    }
}

/// Backing store for todo items. Implementations may be in-memory or persistent.
pub trait Store: Sized {
    /// The stored todos, keyed by raw id.
    spec fn todos(&self) -> Map<u64, TodoModel>;

    /// The last id handed out by `next_id` (0 before the first).
    spec fn last_id(&self) -> u64;

    /// The store's invariant.
    spec fn inv(&self) -> bool;

    /// Under the invariant, every key is an id already handed out and names its own todo.
    proof fn lemma_inv(&self)
        requires
            self.inv(),
        ensures
            self.todos().dom().finite(),
            forall|k: u64| #[trigger]
                self.todos().contains_key(k) ==> k <= self.last_id() && self.todos()[k].id == k,
    ;

    /// The last id handed out (0 before the first).
    fn last_issued_id(&self) -> (r: u64)
        requires
            self.inv(),
        ensures
            r == self.last_id(),
    ;

    /// Returns the next available id and advances the counter.
    fn next_id(&mut self) -> (id: TodoId)
        requires
            old(self).inv(),
            old(self).last_id() < u64::MAX,
        ensures
            final(self).inv(),
            final(self).todos() == old(self).todos(),
            final(self).last_id() == old(self).last_id() + 1,
            id@ == final(self).last_id(),
    ;

    /// Inserts a todo; the id must have been obtained from `next_id`.
    fn insert(&mut self, todo: Todo)
        requires
            old(self).inv(),
            todo.id@ <= old(self).last_id(),
        ensures
            final(self).inv(),
            final(self).todos() == old(self).todos().insert(todo.id@, todo@),
            final(self).last_id() == old(self).last_id(),
    ;

    /// Returns the todo with the given id, if any.
    fn get(&self, id: TodoId) -> (r: Option<Todo>)
        requires
            self.inv(),
        ensures
            match r {
                Some(t) => self.todos().contains_key(id@) && t@ == self.todos()[id@],
                None => !self.todos().contains_key(id@),
            },
    ;

    /// Returns all todos in creation order (by `created_at`, ties by id).
    fn list(&self) -> (v: Vec<Todo>)
        requires
            self.inv(),
        ensures
            lists_in_creation_order(models(v@), self.todos()),
    ;

    /// Updates an existing todo (e.g. after marking completed); unknown ids are ignored.
    fn update(&mut self, todo: Todo)
        requires
            old(self).inv(),
        ensures
            final(self).inv(),
            final(self).todos() == (if old(self).todos().contains_key(todo.id@) {
                old(self).todos().insert(todo.id@, todo@)
            } else {
                old(self).todos()
            }),
            final(self).last_id() == old(self).last_id(),
    ;

    /// Removes the todo with the given id.
    fn remove(&mut self, id: TodoId)
        requires
            old(self).inv(),
        ensures
            final(self).inv(),
            final(self).todos() == old(self).todos().remove(id@),
            final(self).last_id() == old(self).last_id(),
    ;
}

/// In-memory store using a map and a monotonic id counter.
pub struct InMemoryStore {
    next_id: u64,
    items: HashMap<u64, Todo>,
}

/// The map `from_todos` builds: later todos replace earlier ones with the same id.
pub open spec fn map_of(s: Seq<TodoModel>) -> Map<u64, TodoModel>
    decreases s.len(),
{
    if s.len() == 0 {
        Map::empty()
    } else {
        map_of(s.drop_last()).insert(s.last().id, s.last())
    }
}

/// The largest id in `s` (0 when empty).
pub open spec fn max_id(s: Seq<TodoModel>) -> u64
    decreases s.len(),
{
    if s.len() == 0 {
        0
    } else {
        let m = max_id(s.drop_last());
        if s.last().id > m {
            s.last().id
        } else {
            m
        }
    }
}

impl InMemoryStore {
    spec fn well_formed(self) -> bool {
        &&& self.items@.dom().finite()
        &&& forall|k: u64| #[trigger]
            self.items@.contains_key(k) ==> k <= self.next_id && self.items@[k]@.id == k
    }

    pub fn new() -> (s: InMemoryStore)
        ensures
            s.inv(),
            s.todos() == Map::<u64, TodoModel>::empty(),
            s.last_id() == 0,
    {
        let s = InMemoryStore { next_id: 0, items: HashMap::new() };
        assert(s.items@.map_values(|t: Todo| t@) =~= Map::<u64, TodoModel>::empty());
        s
    }

    /// Builds a store from existing todos (e.g. after loading from file). Next id will be
    /// max(existing ids) + 1; a later todo replaces an earlier one with the same id.
    pub fn from_todos(todos: Vec<Todo>) -> (s: InMemoryStore)
        ensures
            s.inv(),
            s.todos() == map_of(models(todos@)),
            s.last_id() == max_id(models(todos@)),
    {
        let mut next_id: u64 = 0;
        let mut items: HashMap<u64, Todo> = HashMap::new();
        let ghost ms = models(todos@);
        let mut i: usize = 0;
        assert(items@.map_values(|t: Todo| t@) =~= map_of(ms.take(0)));
        while i < todos.len()
            invariant
                i <= todos@.len(),
                ms == models(todos@),
                items@.dom().finite(),
                items@.map_values(|t: Todo| t@) == map_of(ms.take(i as int)),
                next_id == max_id(ms.take(i as int)),
                forall|k: u64| #[trigger] items@.contains_key(k) ==> k <= next_id && items@[k]@.id == k,
            decreases todos@.len() - i,
        {
            let t = todos[i].duplicate();
            let k = t.id.as_u64();
            assert(ms.take(i + 1).drop_last() =~= ms.take(i as int));
            assert(ms.take(i + 1).last() == t@);
            if k > next_id {
                next_id = k;
            }
            items.insert(k, t);
            assert(items@.map_values(|t: Todo| t@) =~= map_of(ms.take(i + 1)));
            i = i + 1;
        }
        assert(ms.take(i as int) =~= ms);
        InMemoryStore { next_id, items }
    }
}

impl Store for InMemoryStore {
    closed spec fn todos(&self) -> Map<u64, TodoModel> {
        self.items@.map_values(|t: Todo| t@)
    }

    closed spec fn last_id(&self) -> u64 {
        self.next_id
    }

    closed spec fn inv(&self) -> bool {
        self.well_formed()
    }

    proof fn lemma_inv(&self) {
        assert(self.todos().dom() =~= self.items@.dom());
    }

    fn last_issued_id(&self) -> (r: u64) {
        self.next_id
    }

    fn next_id(&mut self) -> (id: TodoId) {
        self.next_id = self.next_id + 1;
        match TodoId::from_raw(self.next_id) {
            Some(id) => id,
            None => {
                assert(false);
                TodoId::from_raw(1).unwrap()
            },
        }
    }

    fn insert(&mut self, todo: Todo) {
        let k = todo.id.as_u64();
        let ghost tm = todo@;
        self.items.insert(k, todo);
        assert(self.items@.map_values(|t: Todo| t@) =~= old(self).items@.map_values(
            |t: Todo| t@,
        ).insert(k, tm));
    }

    fn get(&self, id: TodoId) -> (r: Option<Todo>) {
        match self.items.get(&id.as_u64()) {
            Some(t) => Some(t.duplicate()),
            None => None,
        }
    }

    fn list(&self) -> (v: Vec<Todo>) {
        let byid = self.list_by_id();
        proof {
            let bm = models(byid@);
            assert forall|i: int, j: int| 0 <= i < j < bm.len() implies (#[trigger] bm[i]).id
                != (#[trigger] bm[j]).id by {
                assert(bm[i] == byid@[i]@);
                assert(bm[j] == byid@[j]@);
            }
        }
        let r = sort_todos(&byid, ListSort::CreatedAt);
        proof {
            lemma_permutation_holds(models(byid@), models(r@), self.todos());
        }
        r
    }

    fn update(&mut self, todo: Todo) {
        let k = todo.id.as_u64();
        if self.items.contains_key(&k) {
            self.insert(todo);
        }
    }

    fn remove(&mut self, id: TodoId) {
        let k = id.as_u64();
        self.items.remove(&k);
        assert(self.items@.map_values(|t: Todo| t@) =~= old(self).items@.map_values(
            |t: Todo| t@,
        ).remove(k));
    }
}

impl InMemoryStore {
    /// All todos in increasing id order.
    fn list_by_id(&self) -> (v: Vec<Todo>)
        requires
            self.well_formed(),
        ensures
            holds_exactly(models(v@), self.todos()),
            forall|a: int, b: int| 0 <= a < b < v@.len() ==> (#[trigger] v@[a])@.id < (#[trigger] v@[b])@.id,
    {
        let keys = self.sorted_keys();
        let mut v: Vec<Todo> = Vec::new();
        let mut i: usize = 0;
        while i < keys.len()
            invariant
                i <= keys@.len(),
                v@.len() == i,
                forall|a: int, b: int| 0 <= a < b < keys@.len() ==> keys@[a] < keys@[b],
                forall|a: int| 0 <= a < keys@.len() ==> self.items@.contains_key(#[trigger] keys@[a]),
                forall|k: u64| #[trigger] self.items@.contains_key(k) ==> keys@.contains(k),
                forall|a: int| 0 <= a < i ==> #[trigger] v@[a]@ == self.items@[keys@[a]]@,
                self.well_formed(),
            decreases keys@.len() - i,
        {
            let k = keys[i];
            match self.items.get(&k) {
                Some(t) => {
                    v.push(t.duplicate());
                },
                None => {
                    assert(false);
                },
            }
            i = i + 1;
        }
        proof {
            let s = models(v@);
            let m = self.todos();
            assert forall|a: int| 0 <= a < s.len() implies m.contains_key(#[trigger] s[a].id)
                && m[s[a].id] == s[a] by {
                assert(s[a] == v@[a]@);
                assert(self.items@.contains_key(keys@[a]));
            }
            assert forall|a: int, b: int| 0 <= a < b < s.len() implies s[a].id < s[b].id by {
                assert(s[a] == v@[a]@);
                assert(s[b] == v@[b]@);
                assert(self.items@.contains_key(keys@[a]));
                assert(self.items@.contains_key(keys@[b]));
            }
            assert forall|k: u64| #[trigger] m.contains_key(k) implies exists|a: int|
                0 <= a < s.len() && s[a].id == k by {
                assert(self.items@.contains_key(k));
                assert(keys@.contains(k));
                let a = choose|a: int| 0 <= a < keys@.len() && keys@[a] == k;
                assert(s[a] == v@[a]@);
            }
        }
        v
    }

    /// The keys of the map in increasing order.
    fn sorted_keys(&self) -> (keys: Vec<u64>)
        requires
            self.well_formed(),
        ensures
            forall|a: int, b: int| 0 <= a < b < keys@.len() ==> keys@[a] < keys@[b],
            forall|a: int| 0 <= a < keys@.len() ==> self.items@.contains_key(#[trigger] keys@[a]),
            forall|k: u64| #[trigger] self.items@.contains_key(k) ==> keys@.contains(k),
    {
        let mut keys: Vec<u64> = Vec::new();
        let ghost all = spec_keys_iter(&self.items).remaining();
        let ghost mut n: int = 0;
        for k in it: self.items.keys()
            invariant
                it.seq() == all,
                n == it.index(),
                forall|a: int, b: int| 0 <= a < b < keys@.len() ==> keys@[a] < keys@[b],
                forall|x: u64| #[trigger]
                    keys@.contains(x) <==> exists|j: int| 0 <= j < n && *all[j] == x,
        {
            assert(*k == *all[n]);
            insert_sorted(&mut keys, *k);
            proof {
                n = n + 1;
            }
        }
        proof {
            assert(all.unref().to_set() == self.items@.dom());
            assert forall|x: u64| #[trigger] self.items@.contains_key(x) implies keys@.contains(x) by {
                assert(all.unref().to_set().contains(x));
                let j = choose|j: int| 0 <= j < all.len() && all.unref()[j] == x;
                assert(*all[j] == x);
            }
            assert forall|a: int| 0 <= a < keys@.len() implies self.items@.contains_key(
                #[trigger] keys@[a],
            ) by {
                assert(keys@.contains(keys@[a]));
                let j = choose|j: int| 0 <= j < n && *all[j] == keys@[a];
                assert(all.unref()[j] == keys@[a]);
                assert(all.unref().to_set().contains(keys@[a]));
            }
        }
        keys
    }
}

/// Inserts `x` into the strictly increasing `v`, keeping it strictly increasing.
fn insert_sorted(v: &mut Vec<u64>, x: u64)
    requires
        forall|a: int, b: int| 0 <= a < b < old(v)@.len() ==> old(v)@[a] < old(v)@[b],
    ensures
        forall|a: int, b: int| 0 <= a < b < final(v)@.len() ==> final(v)@[a] < final(v)@[b],
        forall|y: u64| #[trigger] final(v)@.contains(y) <==> (old(v)@.contains(y) || y == x),
{
    let mut p: usize = 0;
    while p < v.len() && v[p] < x
        invariant
            p <= v@.len(),
            forall|a: int| 0 <= a < p ==> v@[a] < x,
            v@ == old(v)@,
        decreases v@.len() - p,
    {
        p = p + 1;
    }
    if p < v.len() && v[p] == x {
        return;
    }
    v.insert(p, x);
    proof {
        assert forall|y: u64| #[trigger] v@.contains(y) <==> (old(v)@.contains(y) || y == x) by {
            if v@.contains(y) {
                let a = choose|a: int| 0 <= a < v@.len() && v@[a] == y;
                if a < p {
                    assert(old(v)@[a] == y);
                } else if a > p {
                    assert(old(v)@[a - 1] == y);
                }
            }
            if old(v)@.contains(y) {
                let a = choose|a: int| 0 <= a < old(v)@.len() && old(v)@[a] == y;
                if a < p {
                    assert(v@[a] == y);
                } else {
                    assert(v@[a + 1] == y);
                }
            }
            if y == x {
                assert(v@[p as int] == x);
            }
        }
    }
}

} // verus!
