//! Filtering and ordering of todo listings.

use vstd::prelude::*;

use crate::model::{ListFilter, ListSort, Todo, TodoModel};
use crate::store::models;
use crate::priority::{priority_rank, Priority};
use crate::text::{
    chars_of, compare_chars, contains_chars, contains_seq, lemma_seq_lt_asymmetric,
    lemma_seq_lt_irreflexive, lemma_seq_lt_total, lemma_seq_lt_transitive, lowercase_chars, lowered,
    seq_eq, seq_lt, Cmp,
};

verus! {

/// Some tag of `a` is one of `b`.
pub open spec fn tags_intersect(a: Seq<Seq<char>>, b: Seq<Seq<char>>) -> bool {
    exists|i: int, j: int| 0 <= i < a.len() && 0 <= j < b.len() && a[i] == b[j]
}

/// The due-date bounds of `f` admit `t` (a bound excludes todos without a due date).
pub open spec fn due_ok(f: &ListFilter, t: TodoModel) -> bool {
    &&& (f.due_before matches Some(d) ==> (t.due_date matches Some(due) && !seq_lt(d@, due)))
    &&& (f.due_after matches Some(d) ==> (t.due_date matches Some(due) && !seq_lt(due, d@)))
}

/// `f` keeps `t`: each criterion that is set holds. An empty `tags_any` list sets no tag
/// condition; the due-date bounds apply whatever `tags_any` is.
pub open spec fn filter_keeps(f: &ListFilter, t: TodoModel) -> bool {
    &&& (f.status matches Some(s) ==> t.completed == s)
    &&& (f.priority matches Some(p) ==> t.priority == Some(p))
    &&& match f.tags_any {
        Some(tags) => tags@.len() > 0 ==> tags_intersect(t.tags, tags.deep_view()),
        None => true,
    }
    &&& due_ok(f, t)
}

/// An optional filter keeps `t` (no filter keeps everything).
pub open spec fn option_keeps(f: &Option<ListFilter>, t: TodoModel) -> bool {
    match f {
        Some(g) => filter_keeps(g, t),
        None => true,
    }
}

/// Order on optional texts: absent first, then lexicographic.
pub open spec fn opt_seq_lt(a: Option<Seq<char>>, b: Option<Seq<char>>) -> bool {
    match (a, b) {
        (None, Some(_)) => true,
        (Some(x), Some(y)) => seq_lt(x, y),
        _ => false,
    }
}

/// Sort rank of an optional priority (absent = 0).
pub open spec fn rank_of(p: Option<Priority>) -> int {
    match p {
        Some(q) => priority_rank(q) as int,
        None => 0,
    }
}

/// `a` comes before `b` in a listing sorted by `sort`; ties are broken by id.
pub open spec fn todo_before(sort: ListSort, a: TodoModel, b: TodoModel) -> bool {
    match sort {
        ListSort::CreatedAt => a.created_at < b.created_at || (a.created_at == b.created_at && a.id
            < b.id),
        ListSort::DueDate => opt_seq_lt(a.due_date, b.due_date) || (a.due_date == b.due_date
            && a.id < b.id),
        ListSort::Priority => rank_of(a.priority) < rank_of(b.priority) || (rank_of(a.priority)
            == rank_of(b.priority) && a.id < b.id),
        ListSort::Title => seq_lt(a.title, b.title) || (a.title == b.title && a.id < b.id),
    }
}

/// `s` is strictly ordered by `sort`.
pub open spec fn sorted_by(s: Seq<TodoModel>, sort: ListSort) -> bool {
    forall|i: int, j: int| 0 <= i < j < s.len() ==> todo_before(sort, #[trigger] s[i], #[trigger] s[j])
}

pub proof fn lemma_before_transitive(sort: ListSort, a: TodoModel, b: TodoModel, c: TodoModel)
    requires
        todo_before(sort, a, b),
        todo_before(sort, b, c),
    ensures
        todo_before(sort, a, c),
{
    match sort {
        ListSort::DueDate => {
            if a.due_date is Some && b.due_date is Some && c.due_date is Some {
                if seq_lt(a.due_date->0, b.due_date->0) && seq_lt(b.due_date->0, c.due_date->0) {
                    lemma_seq_lt_transitive(a.due_date->0, b.due_date->0, c.due_date->0);
                }
            }
        },
        ListSort::Title => {
            if seq_lt(a.title, b.title) && seq_lt(b.title, c.title) {
                lemma_seq_lt_transitive(a.title, b.title, c.title);
            }
        },
        _ => {},
    }
}

pub proof fn lemma_before_asymmetric(sort: ListSort, a: TodoModel, b: TodoModel)
    ensures
        todo_before(sort, a, b) ==> !todo_before(sort, b, a),
{
    match sort {
        ListSort::DueDate => {
            if a.due_date is Some && b.due_date is Some {
                lemma_seq_lt_asymmetric(a.due_date->0, b.due_date->0);
                lemma_seq_lt_irreflexive(a.due_date->0);
            }
        },
        ListSort::Title => {
            lemma_seq_lt_asymmetric(a.title, b.title);
            lemma_seq_lt_irreflexive(a.title);
        },
        _ => {},
    }
}

pub proof fn lemma_before_total(sort: ListSort, a: TodoModel, b: TodoModel)
    requires
        a.id != b.id,
    ensures
        todo_before(sort, a, b) || todo_before(sort, b, a),
{
    match sort {
        ListSort::DueDate => {
            if a.due_date is Some && b.due_date is Some {
                lemma_seq_lt_total(a.due_date->0, b.due_date->0);
            }
        },
        ListSort::Title => {
            lemma_seq_lt_total(a.title, b.title);
        },
        _ => {},
    }
}

fn rank_exec(p: Option<Priority>) -> (r: u8)
    ensures
        r as int == rank_of(p),
{
    match p {
        Some(q) => q.as_u8(),
        None => 0,
    }
}

/// Lexicographic comparison of two strings.
pub(crate) fn compare_strings(a: &String, b: &String) -> (r: Cmp)
    ensures
        r == Cmp::Less <==> seq_lt(a@, b@),
        r == Cmp::Greater <==> seq_lt(b@, a@),
        r == Cmp::Equal <==> a@ == b@,
{
    let av = chars_of(a.as_str());
    let bv = chars_of(b.as_str());
    compare_chars(&av, &bv)
}

/// `a` comes before `b` in a listing sorted by `sort`.
pub fn before(sort: ListSort, a: &Todo, b: &Todo) -> (r: bool)
    ensures
        r == todo_before(sort, a@, b@),
{
    let ida = a.id.as_u64();
    let idb = b.id.as_u64();
    match sort {
        ListSort::CreatedAt => a.created_at.nanos < b.created_at.nanos || (a.created_at.nanos
            == b.created_at.nanos && ida < idb),
        ListSort::DueDate => {
            let c = match (&a.due_date, &b.due_date) {
                (None, None) => Cmp::Equal,
                (None, Some(_)) => Cmp::Less,
                (Some(_), None) => Cmp::Greater,
                (Some(x), Some(y)) => compare_strings(x, y),
            };
            match c {
                Cmp::Less => true,
                Cmp::Greater => false,
                Cmp::Equal => ida < idb,
            }
        },
        ListSort::Priority => {
            let pa = rank_exec(a.priority);
            let pb = rank_exec(b.priority);
            pa < pb || (pa == pb && ida < idb)
        },
        ListSort::Title => match compare_strings(&a.title, &b.title) {
            Cmp::Less => true,
            Cmp::Greater => false,
            Cmp::Equal => ida < idb,
        },
    }
}

/// `tags` and `wanted` share a tag.
fn tags_overlap(tags: &Vec<String>, wanted: &Vec<String>) -> (r: bool)
    ensures
        r == tags_intersect(tags.deep_view(), wanted.deep_view()),
{
    let ghost a = tags.deep_view();
    let ghost b = wanted.deep_view();
    let mut i: usize = 0;
    while i < tags.len()
        invariant
            i <= tags@.len(),
            a == tags.deep_view(),
            b == wanted.deep_view(),
            forall|x: int, y: int| 0 <= x < i && 0 <= y < b.len() ==> a[x] != b[y],
        decreases tags@.len() - i,
    {
        let ti = chars_of(tags[i].as_str());
        let mut j: usize = 0;
        while j < wanted.len()
            invariant
                i < tags@.len(),
                j <= wanted@.len(),
                a == tags.deep_view(),
                b == wanted.deep_view(),
                ti@ == a[i as int],
                forall|y: int| 0 <= y < j ==> a[i as int] != b[y],
            decreases wanted@.len() - j,
        {
            let wj = chars_of(wanted[j].as_str());
            if seq_eq(&ti, &wj) {
                assert(a[i as int] == b[j as int]);
                return true;
            }
            j = j + 1;
        }
        i = i + 1;
    }
    false
}

fn due_ok_exec(f: &ListFilter, t: &Todo) -> (r: bool)
    ensures
        r == due_ok(f, t@),
{
    if let Some(d) = &f.due_before {
        match &t.due_date {
            Some(due) => {
                if let Cmp::Less = compare_strings(d, due) {
                    return false;
                }
            },
            None => {
                return false;
            },
        }
    }
    if let Some(d) = &f.due_after {
        match &t.due_date {
            Some(due) => {
                if let Cmp::Less = compare_strings(due, d) {
                    return false;
                }
            },
            None => {
                return false;
            },
        }
    }
    true
}

/// Whether the filter keeps the todo.
pub fn keeps(f: &ListFilter, t: &Todo) -> (r: bool)
    ensures
        r == filter_keeps(f, t@),
{
    if let Some(s) = f.status {
        if t.completed != s {
            return false;
        }
    }
    if let Some(p) = f.priority {
        match t.priority {
            Some(q) => {
                if q != p {
                    return false;
                }
            },
            None => {
                return false;
            },
        }
    }
    if let Some(tags) = &f.tags_any {
        if tags.len() > 0 && !tags_overlap(&t.tags, tags) {
            return false;
        }
    }
    due_ok_exec(f, t)
}

/// The ids of `s` are pairwise distinct.
pub open spec fn distinct_ids(s: Seq<TodoModel>) -> bool {
    forall|i: int, j: int| 0 <= i < j < s.len() ==> (#[trigger] s[i]).id != (#[trigger] s[j]).id
}

/// Inserts `x` into the sorted `r` at its place.
fn insert_by(r: &mut Vec<Todo>, x: Todo, sort: ListSort)
    requires
        sorted_by(models(old(r)@), sort),
        forall|a: int| 0 <= a < old(r)@.len() ==> (#[trigger] old(r)@[a])@.id != x@.id,
    ensures
        sorted_by(models(final(r)@), sort),
        models(final(r)@).to_multiset() == models(old(r)@).to_multiset().insert(x@),
{
    let ghost old_m = models(r@);
    let mut p: usize = 0;
    while p < r.len() && !before(sort, &x, &r[p])
        invariant
            p <= r@.len(),
            old_m == models(r@),
            forall|a: int| 0 <= a < p ==> !todo_before(sort, x@, #[trigger] r@[a]@),
        decreases r@.len() - p,
    {
        p = p + 1;
    }
    proof {
        assert forall|a: int| 0 <= a < p implies todo_before(sort, #[trigger] old_m[a], x@) by {
            assert(old_m[a] == r@[a]@);
            lemma_before_total(sort, old_m[a], x@);
        }
        assert forall|b: int| p <= b < old_m.len() implies todo_before(sort, x@, #[trigger] old_m[b]) by {
            assert(old_m[p as int] == r@[p as int]@);
            if b > p {
                assert(todo_before(sort, old_m[p as int], old_m[b]));
                lemma_before_transitive(sort, x@, old_m[p as int], old_m[b]);
            }
        }
    }
    let ghost xm = x@;
    r.insert(p, x);
    proof {
        let nm = models(r@);
        let im = old_m.insert(p as int, xm);
        old_m.insert_ensures(p as int, xm);
        assert(nm =~= im);
        vstd::seq_lib::to_multiset_insert(old_m, p as int, xm);
        assert forall|u: int, v: int| 0 <= u < v < nm.len() implies todo_before(sort, #[trigger] nm[u], #[trigger] nm[v]) by {
            if u < p && v > p {
                assert(nm[v] == old_m[v - 1]);
                lemma_before_transitive(sort, old_m[u], xm, old_m[v - 1]);
            } else if u < p && v < p {
            } else if u < p && v == p {
            } else if u == p {
                assert(nm[v] == old_m[v - 1]);
            } else {
                assert(nm[u] == old_m[u - 1]);
                assert(nm[v] == old_m[v - 1]);
            }
        }
    }
}

/// `items` (distinct ids) ordered by `sort`: a permutation of `items`, strictly sorted.
pub fn sort_todos(items: &Vec<Todo>, sort: ListSort) -> (r: Vec<Todo>)
    requires
        distinct_ids(models(items@)),
    ensures
        sorted_by(models(r@), sort),
        models(r@).to_multiset() == models(items@).to_multiset(),
{
    broadcast use vstd::seq_lib::group_to_multiset_ensures;

    let ghost im = models(items@);
    let mut r: Vec<Todo> = Vec::new();
    let mut i: usize = 0;
    while i < items.len()
        invariant
            i <= items@.len(),
            im == models(items@),
            distinct_ids(im),
            sorted_by(models(r@), sort),
            models(r@).to_multiset() == im.take(i as int).to_multiset(),
        decreases items@.len() - i,
    {
        let x = items[i].duplicate();
        assert(im[i as int] == x@);
        proof {
            assert forall|a: int| 0 <= a < r@.len() implies (#[trigger] r@[a])@.id != x@.id by {
                let rm = models(r@);
                assert(rm[a] == r@[a]@);
                assert(rm.contains(rm[a]));
                vstd::seq_lib::to_multiset_contains(rm, rm[a]);
                vstd::seq_lib::to_multiset_contains(im.take(i as int), rm[a]);
                assert(im.take(i as int).contains(rm[a]));
                let j = choose|j: int| 0 <= j < im.take(i as int).len() && im.take(i as int)[j] == rm[a];
                assert(im[j] == rm[a]);
                assert(im[i as int] == x@);
            }
        }
        insert_by(&mut r, x, sort);
        proof {
            assert(im.take(i as int + 1) =~= im.take(i as int).push(im[i as int]));
            vstd::seq_lib::to_multiset_build(im.take(i as int), im[i as int]);
        }
        i = i + 1;
    }
    proof {
        assert(im.take(i as int) =~= im);
    }
    r
}

/// The todos of `s` that the optional filter keeps, in order.
pub open spec fn kept_by(s: Seq<TodoModel>, f: &Option<ListFilter>) -> Seq<TodoModel> {
    s.filter(|t: TodoModel| option_keeps(f, t))
}

/// `s` holds exactly the todos of `m` that `f` keeps.
pub open spec fn listed_with(s: Seq<TodoModel>, m: Map<u64, TodoModel>, f: &Option<ListFilter>) -> bool {
    &&& forall|i: int|
        0 <= i < s.len() ==> m.contains_key(#[trigger] s[i].id) && m[s[i].id] == s[i] && option_keeps(f, s[i])
    &&& forall|k: u64| #[trigger]
        m.contains_key(k) && option_keeps(f, m[k]) ==> exists|i: int| 0 <= i < s.len() && s[i].id == k
}

/// Whether the optional filter keeps the todo.
pub fn keeps_opt(f: &Option<ListFilter>, t: &Todo) -> (r: bool)
    ensures
        r == option_keeps(f, t@),
{
    match f {
        Some(g) => keeps(g, t),
        None => true,
    }
}

/// The todos of `items` that `f` keeps, in their order.
pub fn filter_todos(items: &Vec<Todo>, f: &Option<ListFilter>) -> (r: Vec<Todo>)
    ensures
        models(r@) == kept_by(models(items@), f),
        sorted_by(models(items@), ListSort::CreatedAt) ==> sorted_by(models(r@), ListSort::CreatedAt),
{
    let ghost im = models(items@);
    let ghost pred = |t: TodoModel| option_keeps(f, t);
    let mut r: Vec<Todo> = Vec::new();
    let mut i: usize = 0;
    while i < items.len()
        invariant
            i <= items@.len(),
            im == models(items@),
            pred == (|t: TodoModel| option_keeps(f, t)),
            models(r@) == im.take(i as int).filter(pred),
            sorted_by(im, ListSort::CreatedAt) ==> sorted_by(models(r@), ListSort::CreatedAt),
            sorted_by(im, ListSort::CreatedAt) ==> forall|a: int, j: int|
                0 <= a < r@.len() && i <= j < im.len() ==> todo_before(ListSort::CreatedAt, (#[trigger] r@[a])@, #[trigger] im[j]),
        decreases items@.len() - i,
    {
        let ghost before_r = models(r@);
        proof {
            reveal(Seq::filter);
            assert(im.take(i as int + 1).drop_last() =~= im.take(i as int));
            assert(im.take(i as int + 1).last() == im[i as int]);
        }
        if keeps_opt(f, &items[i]) {
            let x = items[i].duplicate();
            r.push(x);
            proof {
                assert(models(r@) =~= before_r.push(im[i as int]));
            }
        } else {
            proof {
                assert(models(r@) =~= before_r);
            }
        }
        proof {
            if sorted_by(im, ListSort::CreatedAt) {
                let rm = models(r@);
                assert forall|u: int, v: int| 0 <= u < v < rm.len() implies todo_before(ListSort::CreatedAt, #[trigger] rm[u], #[trigger] rm[v]) by {
                    assert(rm[u] == r@[u]@);
                    assert(rm[v] == r@[v]@);
                    if v == rm.len() - 1 && rm.len() > before_r.len() {
                        assert(todo_before(ListSort::CreatedAt, r@[u]@, im[i as int]));
                    } else {
                        assert(before_r[u] == rm[u]);
                        assert(before_r[v] == rm[v]);
                    }
                }
                assert forall|a: int, j: int| 0 <= a < r@.len() && i + 1 <= j < im.len() implies todo_before(ListSort::CreatedAt, (#[trigger] r@[a])@, #[trigger] im[j]) by {
                    assert(todo_before(ListSort::CreatedAt, im[i as int], im[j]));
                }
            }
        }
        i = i + 1;
    }
    proof {
        assert(im.take(i as int) =~= im);
    }
    r
}

/// A permutation of the todos that `f` keeps out of a listing of exactly the todos of `m`
/// holds exactly the todos of `m` that `f` keeps.
pub proof fn lemma_listed_with(
    im: Seq<TodoModel>,
    rm: Seq<TodoModel>,
    m: Map<u64, TodoModel>,
    f: &Option<ListFilter>,
)
    requires
        crate::store::holds_exactly(im, m),
        rm.to_multiset() == kept_by(im, f).to_multiset(),
    ensures
        listed_with(rm, m, f),
{
    broadcast use vstd::seq_lib::group_to_multiset_ensures;

    let pred = |t: TodoModel| option_keeps(f, t);
    let km = kept_by(im, f);
    assert forall|i: int| 0 <= i < rm.len() implies m.contains_key(#[trigger] rm[i].id) && m[rm[i].id]
        == rm[i] && option_keeps(f, rm[i]) by {
        assert(rm.contains(rm[i]));
        vstd::seq_lib::to_multiset_contains(rm, rm[i]);
        vstd::seq_lib::to_multiset_contains(km, rm[i]);
        assert(km.contains(rm[i]));
        let a = choose|a: int| 0 <= a < km.len() && km[a] == rm[i];
        im.lemma_filter_pred(pred, a);
        im.lemma_filter_contains_rev(pred, rm[i]);
        let j = choose|j: int| 0 <= j < im.len() && im[j] == rm[i];
        assert(m.contains_key(im[j].id));
    }
    assert forall|k: u64| #[trigger] m.contains_key(k) && option_keeps(f, m[k]) implies exists|i: int|
        0 <= i < rm.len() && rm[i].id == k by {
        let j = choose|j: int| 0 <= j < im.len() && im[j].id == k;
        assert(m[im[j].id] == im[j]);
        im.lemma_filter_contains(pred, j);
        assert(km.contains(im[j]));
        vstd::seq_lib::to_multiset_contains(km, im[j]);
        vstd::seq_lib::to_multiset_contains(rm, im[j]);
        assert(rm.contains(im[j]));
        let i = choose|i: int| 0 <= i < rm.len() && rm[i] == im[j];
        assert(rm[i].id == k);
    }
}

/// The (lowercased) keyword `k` occurs in the lowercased title, description or one of the
/// tags of `t`.
pub open spec fn matches_keyword(t: TodoModel, k: Seq<char>) -> bool {
    ||| contains_seq(lowered(t.title), k)
    ||| (t.description matches Some(d) && contains_seq(lowered(d), k))
    ||| exists|i: int| 0 <= i < t.tags.len() && contains_seq(lowered(#[trigger] t.tags[i]), k)
}

/// The todos of `m` that match the keyword `k`.
pub open spec fn matching(m: Map<u64, TodoModel>, k: Seq<char>) -> Map<u64, TodoModel> {
    Map::new(|id: u64| m.contains_key(id) && matches_keyword(m[id], k), |id: u64| m[id])
}

fn lower_contains(s: &String, k: &Vec<char>) -> (r: bool)
    ensures
        r == contains_seq(lowered(s@), k@),
{
    let l = lowercase_chars(&chars_of(s.as_str()));
    contains_chars(&l, k)
}

/// Whether the todo matches the lowercased keyword `k`.
pub fn matches_keyword_exec(t: &Todo, k: &Vec<char>) -> (r: bool)
    ensures
        r == matches_keyword(t@, k@),
{
    if lower_contains(&t.title, k) {
        return true;
    }
    if let Some(d) = &t.description {
        if lower_contains(d, k) {
            return true;
        }
    }
    let ghost tags = t.tags.deep_view();
    let mut i: usize = 0;
    while i < t.tags.len()
        invariant
            i <= t.tags@.len(),
            tags == t.tags.deep_view(),
            forall|j: int| 0 <= j < i ==> !contains_seq(lowered(#[trigger] tags[j]), k@),
        decreases t.tags@.len() - i,
    {
        if lower_contains(&t.tags[i], k) {
            assert(tags[i as int] == t.tags@[i as int]@);
            assert(t@.tags == tags);
            assert(contains_seq(lowered(t@.tags[i as int]), k@));
            return true;
        }
        i = i + 1;
    }
    assert(t@.tags == tags);
    false
}

/// The todos of a creation-ordered listing of `m` that match `k`, in order.
pub fn select_matching(items: &Vec<Todo>, k: &Vec<char>, Ghost(m): Ghost<Map<u64, TodoModel>>) -> (r: Vec<Todo>)
    requires
        crate::store::lists_in_creation_order(models(items@), m),
    ensures
        crate::store::lists_in_creation_order(models(r@), matching(m, k@)),
{
    let ghost im = models(items@);
    let ghost sub = matching(m, k@);
    let mut r: Vec<Todo> = Vec::new();
    let mut i: usize = 0;
    while i < items.len()
        invariant
            i <= items@.len(),
            im == models(items@),
            sub == matching(m, k@),
            crate::store::lists_in_creation_order(im, m),
            forall|a: int, b: int| 0 <= a < b < r@.len() ==> todo_before(ListSort::CreatedAt, (#[trigger] r@[a])@, (#[trigger] r@[b])@),
            forall|a: int| 0 <= a < r@.len() ==> sub.contains_key(#[trigger] r@[a]@.id) && sub[r@[a]@.id] == r@[a]@,
            forall|a: int, j: int| 0 <= a < r@.len() && i <= j < im.len() ==> todo_before(ListSort::CreatedAt, (#[trigger] r@[a])@, #[trigger] im[j]),
            forall|j: int| 0 <= j < i && #[trigger] sub.contains_key(im[j].id) ==> exists|a: int| 0 <= a < r@.len() && r@[a]@.id == im[j].id,
        decreases items@.len() - i,
    {
        assert(im[i as int] == items@[i as int]@);
        assert(m.contains_key(im[i as int].id) && m[im[i as int].id] == im[i as int]);
        if matches_keyword_exec(&items[i], k) {
            let x = items[i].duplicate();
            let ghost old_r = r@;
            r.push(x);
            proof {
                assert(r@[r@.len() - 1]@ == im[i as int]);
                assert forall|a: int, b: int| 0 <= a < b < r@.len() implies todo_before(ListSort::CreatedAt, (#[trigger] r@[a])@, (#[trigger] r@[b])@) by {
                    if b < r@.len() - 1 {
                        assert(r@[a] == old_r[a]);
                        assert(r@[b] == old_r[b]);
                    } else {
                        assert(r@[a] == old_r[a]);
                    }
                }
                assert forall|a: int| 0 <= a < r@.len() implies sub.contains_key(#[trigger] r@[a]@.id) && sub[r@[a]@.id] == r@[a]@ by {
                    if a < r@.len() - 1 {
                        assert(r@[a] == old_r[a]);
                    }
                }
                assert forall|a: int, j: int| 0 <= a < r@.len() && i + 1 <= j < im.len() implies todo_before(ListSort::CreatedAt, (#[trigger] r@[a])@, #[trigger] im[j]) by {
                    if a < r@.len() - 1 {
                        assert(r@[a] == old_r[a]);
                        assert(todo_before(ListSort::CreatedAt, old_r[a]@, im[j]));
                    } else {
                        assert(todo_before(ListSort::CreatedAt, im[i as int], im[j]));
                    }
                }
                assert forall|j: int| 0 <= j < i + 1 && #[trigger] sub.contains_key(im[j].id) implies exists|a: int| 0 <= a < r@.len() && r@[a]@.id == im[j].id by {
                    if j < i {
                        let a = choose|a: int| 0 <= a < old_r.len() && old_r[a]@.id == im[j].id;
                        assert(r@[a] == old_r[a]);
                    } else {
                        assert(r@[r@.len() - 1]@.id == im[j].id);
                    }
                }
            }
        } else {
            proof {
                assert forall|j: int| 0 <= j < i + 1 && #[trigger] sub.contains_key(im[j].id) implies exists|a: int| 0 <= a < r@.len() && r@[a]@.id == im[j].id by {
                    if j == i {
                        assert(!sub.contains_key(im[j].id));
                    }
                }
            }
        }
        i = i + 1;
    }
    proof {
        let rm = models(r@);
        assert forall|u: int, v: int| 0 <= u < v < rm.len() implies todo_before(ListSort::CreatedAt, rm[u], rm[v]) by {
            assert(rm[u] == r@[u]@);
            assert(rm[v] == r@[v]@);
        }
        assert forall|a: int| 0 <= a < rm.len() implies sub.contains_key(#[trigger] rm[a].id) && sub[rm[a].id] == rm[a] by {
            assert(rm[a] == r@[a]@);
        }
        assert forall|id: u64| #[trigger] sub.contains_key(id) implies exists|a: int| 0 <= a < rm.len() && rm[a].id == id by {
            assert(m.contains_key(id));
            let j = choose|j: int| 0 <= j < im.len() && im[j].id == id;
            assert(sub.contains_key(im[j].id));
            let a = choose|a: int| 0 <= a < r@.len() && r@[a]@.id == im[j].id;
            assert(rm[a] == r@[a]@);
        }
    }
    r
}

} // verus!
