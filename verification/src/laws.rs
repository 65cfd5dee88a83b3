//! Properties of the todo operations that span several calls, stated over the models their
//! contracts use.

use vstd::prelude::*;

use crate::id::TodoId;
use crate::error::TodoError;
use crate::list::{complete_outcome, completed_from, makes_next, next_due_of, patched};
use crate::model::{TodoModel, TodoPatch};
use crate::priority::{parse_priority_spec, priority_text, Priority};
use crate::model::{ListFilter, ListSort};
use crate::query::{
    kept_by, listed_with, matches_keyword, matching, option_keeps, sorted_by,
    todo_before,
};
use crate::store::{holds_exactly, lists_in_creation_order};
use crate::text::{contains_seq, lemma_seq_lt_asymmetric, lemma_seq_lt_irreflexive, lemma_seq_lt_total, seq_lt};
use crate::repeat::{
    add_days, days_from_civil, next_day, parse_rule_spec, rule_text, step_date, valid_ymd, weekday_from_monday,
    RepeatRule,
};
use crate::text::{
    all_ascii, dec, lemma_ascii_lower_keeps, lemma_dec_digits, lemma_parse_dec, lemma_trim_keeps,
    lowered, occurs_at, starts_with, trim,
};

verus! {

/// Parsing the display text of a priority gives the priority back.
pub proof fn lemma_priority_text_parses(p: Priority)
    ensures
        parse_priority_spec(priority_text(p)) == Some(p),
{
    reveal_strlit("low");
    reveal_strlit("medium");
    reveal_strlit("high");
    reveal_strlit("1");
    reveal_strlit("2");
    reveal_strlit("3");
    let t = priority_text(p);
    lemma_trim_keeps(t);
    assert(all_ascii(t));
    lemma_ascii_lower_keeps(t);
}

/// Parsing the display text of a repeat rule gives the rule back.
pub proof fn lemma_rule_text_parses(r: RepeatRule)
    ensures
        parse_rule_spec(rule_text(r)) == Some(r),
{
    reveal_strlit("daily");
    reveal_strlit("weekly");
    reveal_strlit("monthly");
    reveal_strlit("yearly");
    reveal_strlit("weekdays");
    reveal_strlit("custom:");
    let t = rule_text(r);
    match r {
        RepeatRule::Custom(n) => {
            let d = dec(n as nat);
            lemma_dec_digits(n as nat);
            lemma_parse_dec(n);
            assert(t == "custom:"@ + d);
            assert(t[0] == 'c');
            assert(t.last() == d.last());
            assert(crate::text::is_digit(d[d.len() - 1]));
            lemma_trim_keeps(t);
            assert forall|i: int| 0 <= i < t.len() implies #[trigger] t[i] <= '\u{7f}' && !('A' <= t[i] <= 'Z') by {
                if i >= 7 {
                    assert(t[i] == d[i - 7]);
                    assert(crate::text::is_digit(d[i - 7]));
                }
            }
            lemma_ascii_lower_keeps(t);
            assert(lowered(trim(t)) == t);
            assert(t.subrange(0, 7) =~= "custom:"@);
            assert(starts_with(t, "custom:"@));
            assert(t.skip(7) =~= d);
            assert(t != "daily"@ && t != "weekly"@ && t != "monthly"@ && t != "yearly"@);
            assert(t != "weekdays"@) by {
                if t.len() == 8 {
                    assert(t[0] != "weekdays"@[0]);
                }
            }
        },
        _ => {
            lemma_trim_keeps(t);
            assert(all_ascii(t));
            lemma_ascii_lower_keeps(t);
        },
    }
}

/// Deleting the todo `create` (or `add_todo`) just added under a fresh id gives back the todos
/// as they were.
pub proof fn lemma_delete_undoes_create(m: Map<u64, TodoModel>, id: u64, t: TodoModel)
    requires
        !m.contains_key(id),
    ensures
        m.insert(id, t).remove(id) == m,
{
    assert(m.insert(id, t).remove(id) =~= m);
}

/// A patch that sets nothing leaves a todo as it was.
pub proof fn lemma_empty_patch_keeps(m: TodoModel, p: &TodoPatch)
    requires
        p.title is None,
        p.description is None,
        p.due_date is None,
        p.priority is None,
        p.tags is None,
        p.repeat_rule is None,
        p.repeat_until is None,
        p.repeat_count is None,
        !p.repeat_rule_clear,
    ensures
        patched(m, p) == m,
{
}

/// Completing never creates a next instance when `no_next` is set, or when the todo is at its
/// last occurrence (count 0 or 1), or has no repeat rule or no due date.
pub proof fn lemma_no_next_instance(t: TodoModel, no_next: bool)
    requires
        no_next || t.repeat_count == Some(0u32) || t.repeat_count == Some(1u32) || t.repeat_rule is None
            || t.due_date is None,
    ensures
        !makes_next(t, no_next),
{
}

/// A completed todo keeps everything but its status and completion time.
pub proof fn lemma_complete_keeps_content(t: TodoModel, m: TodoModel)
    requires
        completed_from(t, m),
    ensures
        m.completed,
        m.completed_at is Some,
        m.id == t.id && m.title == t.title && m.description == t.description && m.due_date
            == t.due_date && m.priority == t.priority && m.tags == t.tags && m.repeat_rule
            == t.repeat_rule && m.repeat_until == t.repeat_until && m.repeat_count == t.repeat_count
            && m.created_at == t.created_at,
{
}

/// An empty keyword matches every todo, so `search("")` lists them all.
pub proof fn lemma_empty_keyword_matches_all(m: Map<u64, TodoModel>)
    ensures
        matching(m, Seq::<char>::empty()) == m,
{
    assert forall|id: u64| m.contains_key(id) implies matches_keyword(m[id], Seq::<char>::empty()) by {
        assert(lowered(m[id].title).subrange(0, 0) =~= Seq::<char>::empty());
        assert(occurs_at(lowered(m[id].title), Seq::<char>::empty(), 0));
    }
    assert(matching(m, Seq::<char>::empty()) =~= m);
}

/// No todo comes before itself, whatever the sort.
pub proof fn lemma_before_irreflexive(sort: ListSort, t: TodoModel)
    ensures
        !todo_before(sort, t, t),
{
    lemma_seq_lt_irreflexive(t.title);
    if let Some(d) = t.due_date {
        lemma_seq_lt_irreflexive(d);
    }
}

/// A strictly sorted listing names no todo twice.
pub proof fn lemma_sorted_no_duplicates(s: Seq<TodoModel>, sort: ListSort)
    requires
        sorted_by(s, sort),
    ensures
        s.no_duplicates(),
{
    assert forall|i: int, j: int| 0 <= i < s.len() && 0 <= j < s.len() && i != j implies s[i] != s[j] by {
        lemma_before_irreflexive(sort, s[i]);
        if i < j {
            assert(todo_before(sort, s[i], s[j]));
        } else {
            assert(todo_before(sort, s[j], s[i]));
        }
    }
}

/// Keeping some entries of a sorted listing keeps it sorted.
pub proof fn lemma_filter_sorted(s: Seq<TodoModel>, pred: spec_fn(TodoModel) -> bool, sort: ListSort)
    requires
        sorted_by(s, sort),
    ensures
        sorted_by(s.filter(pred), sort),
    decreases s.len(),
{
    if s.len() > 0 {
        let init = s.drop_last();
        assert(init.push(s.last()) =~= s);
        assert(sorted_by(init, sort)) by {
            assert forall|i: int, j: int| 0 <= i < j < init.len() implies todo_before(sort, #[trigger] init[i], #[trigger] init[j]) by {
                assert(init[i] == s[i] && init[j] == s[j]);
            }
        }
        lemma_filter_sorted(init, pred, sort);
        init.lemma_filter_push(s.last(), pred);
        let sub = init.filter(pred);
        if pred(s.last()) {
            let f = sub.push(s.last());
            assert forall|i: int, j: int| 0 <= i < j < f.len() implies todo_before(sort, #[trigger] f[i], #[trigger] f[j]) by {
                if j == f.len() - 1 {
                    assert(f[i] == sub[i]);
                    assert(sub.contains(sub[i]));
                    init.lemma_filter_contains_rev(pred, sub[i]);
                    let k = choose|k: int| 0 <= k < init.len() && init[k] == sub[i];
                    assert(s[k] == init[k]);
                    assert(todo_before(sort, s[k], s[s.len() - 1]));
                } else {
                    assert(f[i] == sub[i] && f[j] == sub[j]);
                }
            }
        }
    }
}

/// Two listings ordered by creation time with the same entries are the same listing.
pub proof fn lemma_sorted_same_members_equal(a: Seq<TodoModel>, b: Seq<TodoModel>)
    requires
        sorted_by(a, ListSort::CreatedAt),
        sorted_by(b, ListSort::CreatedAt),
        forall|x: TodoModel| a.contains(x) <==> b.contains(x),
    ensures
        a == b,
    decreases a.len(),
{
    if a.len() == 0 {
        if b.len() > 0 {
            assert(b.contains(b[0]));
        }
        assert(a =~= b);
    } else {
        assert(a.contains(a[0]));
        assert(b.len() > 0);
        assert(b.contains(b[0]));
        let j = choose|j: int| 0 <= j < b.len() && b[j] == a[0];
        let i = choose|i: int| 0 <= i < a.len() && a[i] == b[0];
        if j > 0 {
            assert(todo_before(ListSort::CreatedAt, b[0], b[j]));
            if i > 0 {
                assert(todo_before(ListSort::CreatedAt, a[0], a[i]));
            }
        }
        assert(a[0] == b[0]);
        let a1 = a.drop_first();
        let b1 = b.drop_first();
        lemma_sorted_no_duplicates(a, ListSort::CreatedAt);
        lemma_sorted_no_duplicates(b, ListSort::CreatedAt);
        assert forall|x: TodoModel| a1.contains(x) <==> b1.contains(x) by {
            if a1.contains(x) {
                let k = choose|k: int| 0 <= k < a1.len() && a1[k] == x;
                assert(a[k + 1] == x);
                assert(b.contains(x));
                let l = choose|l: int| 0 <= l < b.len() && b[l] == x;
                assert(l != 0);
                assert(b1[l - 1] == x);
            }
            if b1.contains(x) {
                let k = choose|k: int| 0 <= k < b1.len() && b1[k] == x;
                assert(b[k + 1] == x);
                assert(a.contains(x));
                let l = choose|l: int| 0 <= l < a.len() && a[l] == x;
                assert(l != 0);
                assert(a1[l - 1] == x);
            }
        }
        assert(sorted_by(a1, ListSort::CreatedAt)) by {
            assert forall|u: int, v: int| 0 <= u < v < a1.len() implies todo_before(ListSort::CreatedAt, #[trigger] a1[u], #[trigger] a1[v]) by {
                assert(a1[u] == a[u + 1] && a1[v] == a[v + 1]);
            }
        }
        assert(sorted_by(b1, ListSort::CreatedAt)) by {
            assert forall|u: int, v: int| 0 <= u < v < b1.len() implies todo_before(ListSort::CreatedAt, #[trigger] b1[u], #[trigger] b1[v]) by {
                assert(b1[u] == b[u + 1] && b1[v] == b[v + 1]);
            }
        }
        lemma_sorted_same_members_equal(a1, b1);
        assert(a =~= seq![a[0]] + a1);
        assert(b =~= seq![b[0]] + b1);
    }
}

/// A listing that holds exactly the todos of `m` holds `x` exactly when `m` holds `x` under its id.
pub proof fn lemma_holds_contains(s: Seq<TodoModel>, m: Map<u64, TodoModel>, x: TodoModel)
    requires
        holds_exactly(s, m),
    ensures
        s.contains(x) <==> (m.contains_key(x.id) && m[x.id] == x),
{
    if m.contains_key(x.id) && m[x.id] == x {
        let i = choose|i: int| 0 <= i < s.len() && s[i].id == x.id;
        assert(s[i] == m[s[i].id]);
    }
}

/// The creation-ordered listing of a set of todos is unique: `list` on a list made
/// `with_store` gives what the store's own `list` gives, as both list the same map so.
pub proof fn lemma_creation_listing_unique(a: Seq<TodoModel>, b: Seq<TodoModel>, m: Map<u64, TodoModel>)
    requires
        lists_in_creation_order(a, m),
        lists_in_creation_order(b, m),
    ensures
        a == b,
{
    assert forall|x: TodoModel| a.contains(x) <==> b.contains(x) by {
        lemma_holds_contains(a, m, x);
        lemma_holds_contains(b, m, x);
    }
    lemma_sorted_same_members_equal(a, b);
}

/// `search` gives the listing of all todos (as `list` gives it) with the non-matching ones left
/// out, in the same order.
pub proof fn lemma_search_filters_list(all: Seq<TodoModel>, found: Seq<TodoModel>, m: Map<u64, TodoModel>, k: Seq<char>)
    requires
        lists_in_creation_order(all, m),
        lists_in_creation_order(found, matching(m, k)),
    ensures
        found == all.filter(|t: TodoModel| matches_keyword(t, k)),
{
    let pred = |t: TodoModel| matches_keyword(t, k);
    let f = all.filter(pred);
    lemma_filter_sorted(all, pred, ListSort::CreatedAt);
    assert forall|x: TodoModel| found.contains(x) <==> f.contains(x) by {
        lemma_holds_contains(found, matching(m, k), x);
        lemma_holds_contains(all, m, x);
        if f.contains(x) {
            all.lemma_filter_contains_rev(pred, x);
        }
        if all.contains(x) && pred(x) {
            let i = choose|i: int| 0 <= i < all.len() && all[i] == x;
            all.lemma_filter_contains(pred, i);
        }
    }
    lemma_sorted_same_members_equal(found, f);
}

/// Two listings that name no entry twice and hold the same entries are permutations of each
/// other.
pub proof fn lemma_same_members_permutation(a: Seq<TodoModel>, b: Seq<TodoModel>)
    requires
        a.no_duplicates(),
        b.no_duplicates(),
        forall|x: TodoModel| a.contains(x) <==> b.contains(x),
    ensures
        a.to_multiset() == b.to_multiset(),
{
    broadcast use vstd::seq_lib::group_to_multiset_ensures;

    a.lemma_multiset_has_no_duplicates();
    b.lemma_multiset_has_no_duplicates();
    assert forall|x: TodoModel| a.to_multiset().count(x) == b.to_multiset().count(x) by {
        vstd::seq_lib::to_multiset_contains(a, x);
        vstd::seq_lib::to_multiset_contains(b, x);
        if a.contains(x) {
            assert(a.to_multiset().contains(x));
            assert(b.to_multiset().contains(x));
        } else {
            assert(!a.to_multiset().contains(x));
            assert(!b.to_multiset().contains(x));
        }
    }
    assert(a.to_multiset() =~= b.to_multiset());
}

/// What `list_with_options` gives is a permutation of what `list` gives with the todos the
/// filter drops left out.
pub proof fn lemma_options_permute_list(
    all: Seq<TodoModel>,
    r: Seq<TodoModel>,
    m: Map<u64, TodoModel>,
    f: &Option<ListFilter>,
    sort: ListSort,
)
    requires
        lists_in_creation_order(all, m),
        sorted_by(r, sort),
        listed_with(r, m, f),
    ensures
        r.to_multiset() == kept_by(all, f).to_multiset(),
{
    let pred = |t: TodoModel| option_keeps(f, t);
    let kf = all.filter(pred);
    lemma_filter_sorted(all, pred, ListSort::CreatedAt);
    lemma_sorted_no_duplicates(kf, ListSort::CreatedAt);
    lemma_sorted_no_duplicates(r, sort);
    assert forall|x: TodoModel| r.contains(x) <==> kf.contains(x) by {
        lemma_holds_contains(all, m, x);
        if r.contains(x) {
            let i = choose|i: int| 0 <= i < r.len() && r[i] == x;
            assert(m.contains_key(r[i].id) && m[r[i].id] == r[i] && option_keeps(f, r[i]));
            let j = choose|j: int| 0 <= j < all.len() && all[j] == x;
            all.lemma_filter_contains(pred, j);
        }
        if kf.contains(x) {
            all.lemma_filter_contains_rev(pred, x);
            all.lemma_filter_pred(pred, choose|a: int| 0 <= a < kf.len() && kf[a] == x);
            assert(m.contains_key(x.id) && option_keeps(f, m[x.id]));
            let i = choose|i: int| 0 <= i < r.len() && r[i].id == x.id;
            assert(r[i] == m[r[i].id]);
        }
    }
    lemma_same_members_permutation(r, kf);
}

/// A creation-ordered listing of exactly the todos of a finite map has one entry per todo.
pub proof fn lemma_listing_counts_all(s: Seq<TodoModel>, m: Map<u64, TodoModel>)
    requires
        lists_in_creation_order(s, m),
        m.dom().finite(),
    ensures
        s.len() == m.len(),
{
    crate::store::lemma_creation_order_distinct(s, m);
    let ids = s.map_values(|t: TodoModel| t.id);
    assert(ids.no_duplicates()) by {
        assert forall|i: int, j: int| 0 <= i < ids.len() && 0 <= j < ids.len() && i != j implies ids[i] != ids[j] by {
            if i < j {
                assert(s[i].id != s[j].id);
            } else {
                assert(s[j].id != s[i].id);
            }
        }
    }
    ids.unique_seq_to_set();
    assert forall|k: u64| ids.to_set().contains(k) <==> m.dom().contains(k) by {
        if m.dom().contains(k) {
            let i = choose|i: int| 0 <= i < s.len() && s[i].id == k;
            assert(ids[i] == k);
        }
        if ids.to_set().contains(k) {
            assert(ids.contains(k));
            let i = choose|i: int| 0 <= i < ids.len() && ids[i] == k;
            assert(m.contains_key(s[i].id));
        }
    }
    assert(ids.to_set() =~= m.dom());
}

/// A list made `with_store` exposes exactly the store's contents: its listing is the store's
/// listing (both list the same todos by creation), with one entry per stored todo, which is
/// also the total `stats` reports.
pub proof fn lemma_with_store_exposes_store(
    from_list: Seq<TodoModel>,
    from_store: Seq<TodoModel>,
    m: Map<u64, TodoModel>,
)
    requires
        lists_in_creation_order(from_list, m),
        lists_in_creation_order(from_store, m),
        m.dom().finite(),
    ensures
        from_list == from_store,
        from_list.len() == m.len(),
{
    lemma_creation_listing_unique(from_list, from_store, m);
    lemma_listing_counts_all(from_list, m);
}

/// Completing (with `no_next` unset) a todo that has a repeat rule and a due date, whose
/// remaining count is unset or at least 2, and whose next step gives a date not past its
/// `repeat_until`, succeeds and creates its next instance under the next id: open, due one step
/// later, with one occurrence fewer to go; the list gains exactly that todo (an id is left, as
/// `complete` requires). Only the counts 0 and 1 are last occurrences.
pub proof fn lemma_complete_makes_next_instance(
    m0: Map<u64, TodoModel>,
    l0: u64,
    m1: Map<u64, TodoModel>,
    l1: u64,
    id: TodoId,
    r: Result<(), TodoError>,
)
    requires
        complete_outcome(m0, l0, m1, l1, id, false, r),
        l0 < u64::MAX,
        m0.contains_key(id@),
        m0[id@].repeat_rule is Some,
        m0[id@].due_date is Some,
        match m0[id@].repeat_count {
            Some(n) => n >= 2,
            None => true,
        },
        next_due_of(m0[id@]) is Some,
        match m0[id@].repeat_until {
            Some(u) => !seq_lt(u, next_due_of(m0[id@])->0),
            None => true,
        },
    ensures
        r is Ok,
        l1 == l0 + 1,
        !m0.contains_key(l1),
        m1.contains_key(l1),
        m1[l1].due_date == next_due_of(m0[id@]),
        !m1[l1].completed,
        m1[l1].completed_at is None,
        m1[l1].repeat_rule == m0[id@].repeat_rule,
        m1[l1].repeat_count == (match m0[id@].repeat_count {
            Some(n) => Some((n - 1) as u32),
            None => None,
        }),
        m1.dom() == m0.dom().insert(l1),
        m1[id@].completed,
{
    let t = m0[id@];
    assert(makes_next(t, false));
    assert(m1.dom() =~= m0.dom().insert(l1));
}

/// With a filter that sets only `due_before = d`, a todo with a due date `x` is kept exactly
/// when `x <= d` (lexicographically, so a todo due on `d` itself is kept); one without a due
/// date is dropped.
pub proof fn lemma_due_before_inclusive(f: ListFilter, t: TodoModel, d: Seq<char>)
    requires
        f.status is None,
        f.priority is None,
        f.tags_any is None,
        f.due_after is None,
        f.due_before matches Some(b) && b@ == d,
    ensures
        t.due_date is None ==> !option_keeps(&Some(f), t),
        t.due_date matches Some(x) ==> (option_keeps(&Some(f), t) <==> (x == d || seq_lt(x, d))),
{
    if let Some(x) = t.due_date {
        lemma_seq_lt_total(x, d);
        lemma_seq_lt_asymmetric(x, d);
        lemma_seq_lt_irreflexive(x);
    }
}

/// With a filter that sets only `due_after = d`, a todo with a due date `x` is kept exactly when
/// `x >= d` (so a todo due on `d` itself is kept); one without a due date is dropped.
pub proof fn lemma_due_after_inclusive(f: ListFilter, t: TodoModel, d: Seq<char>)
    requires
        f.status is None,
        f.priority is None,
        f.tags_any is None,
        f.due_before is None,
        f.due_after matches Some(b) && b@ == d,
    ensures
        t.due_date is None ==> !option_keeps(&Some(f), t),
        t.due_date matches Some(x) ==> (option_keeps(&Some(f), t) <==> (x == d || seq_lt(d, x))),
{
    if let Some(x) = t.due_date {
        lemma_seq_lt_total(x, d);
        lemma_seq_lt_asymmetric(x, d);
        lemma_seq_lt_irreflexive(x);
    }
}

/// A listing with a filter that sets only `due_before = d` names every todo of the list whose
/// due date is `d` or earlier.
pub proof fn lemma_due_before_lists(r: Seq<TodoModel>, m: Map<u64, TodoModel>, f: ListFilter, d: Seq<char>, k: u64)
    requires
        listed_with(r, m, &Some(f)),
        f.status is None,
        f.priority is None,
        f.tags_any is None,
        f.due_after is None,
        f.due_before matches Some(b) && b@ == d,
        m.contains_key(k),
        m[k].due_date matches Some(x) && (x == d || seq_lt(x, d)),
    ensures
        exists|i: int| 0 <= i < r.len() && r[i].id == k,
{
    lemma_due_before_inclusive(f, m[k], d);
}

/// A todo matches a keyword when any one of its tags, at whatever position, contains the
/// keyword once lowercased.
pub proof fn lemma_any_tag_matches(t: TodoModel, k: Seq<char>, i: int)
    requires
        0 <= i < t.tags.len(),
        contains_seq(lowered(t.tags[i]), k),
    ensures
        matches_keyword(t, k),
{
}

/// Whether a todo matches a keyword does not depend on the order of its tags.
pub proof fn lemma_keyword_ignores_tag_order(t: TodoModel, u: TodoModel, k: Seq<char>)
    requires
        u == (TodoModel { tags: u.tags, ..t }),
        forall|x: Seq<char>| t.tags.contains(x) <==> u.tags.contains(x),
    ensures
        matches_keyword(t, k) == matches_keyword(u, k),
{
    if matches_keyword(t, k) && !(contains_seq(lowered(t.title), k) || (t.description matches Some(d) && contains_seq(lowered(d), k))) {
        let i = choose|i: int| 0 <= i < t.tags.len() && contains_seq(lowered(#[trigger] t.tags[i]), k);
        assert(t.tags.contains(t.tags[i]));
        let j = choose|j: int| 0 <= j < u.tags.len() && u.tags[j] == t.tags[i];
        lemma_any_tag_matches(u, k, j);
    }
    if matches_keyword(u, k) && !(contains_seq(lowered(u.title), k) || (u.description matches Some(d) && contains_seq(lowered(d), k))) {
        let i = choose|i: int| 0 <= i < u.tags.len() && contains_seq(lowered(#[trigger] u.tags[i]), k);
        assert(u.tags.contains(u.tags[i]));
        let j = choose|j: int| 0 <= j < t.tags.len() && t.tags[j] == u.tags[i];
        lemma_any_tag_matches(t, k, j);
    }
}

/// `search` for `k` names every todo one of whose tags contains `k` once lowercased.
pub proof fn lemma_search_finds_tag(m: Map<u64, TodoModel>, k: Seq<char>, id: u64, i: int)
    requires
        m.contains_key(id),
        0 <= i < m[id].tags.len(),
        contains_seq(lowered(m[id].tags[i]), k),
    ensures
        matching(m, k).contains_key(id),
{
    lemma_any_tag_matches(m[id], k, i);
}

/// An update writes every field the patch sets, whatever the todo held there before, and
/// keeps the id, status and times.
pub proof fn lemma_patch_writes_fields(m: TodoModel, p: &TodoPatch)
    ensures
        p.title matches Some(t) ==> patched(m, p).title == trim(t@),
        p.description matches Some(s) ==> patched(m, p).description == Some(s@),
        p.due_date matches Some(s) ==> patched(m, p).due_date == Some(s@),
        p.priority matches Some(q) ==> patched(m, p).priority == Some(q),
        p.tags matches Some(v) ==> patched(m, p).tags == v.deep_view(),
        p.repeat_until matches Some(u) ==> patched(m, p).repeat_until == Some(u@),
        p.repeat_count matches Some(c) ==> patched(m, p).repeat_count == Some(c),
        p.repeat_rule matches Some(rr) ==> (!p.repeat_rule_clear ==> patched(m, p).repeat_rule == Some(rr)),
        p.repeat_rule_clear ==> patched(m, p).repeat_rule is None,
        patched(m, p).id == m.id,
        patched(m, p).completed == m.completed,
        patched(m, p).created_at == m.created_at,
        patched(m, p).completed_at == m.completed_at,
{
}

/// The next calendar day is one day later in the day count.
pub proof fn lemma_next_day_count(d: (int, int, int))
    requires
        valid_ymd(d),
        next_day(d) is Some,
    ensures
        days_from_civil(next_day(d)->0) == days_from_civil(d) + 1,
{
    let e = next_day(d)->0;
    if d.2 < crate::repeat::days_in_month(d.0, d.1) {
    } else if d.1 < 12 {
        if d.1 == 2 {
            let y = d.0 - 1;
            assert(days_from_civil(d) == (y / 400) * 146097 + (y - (y / 400) * 400) * 365 + (y - (y / 400) * 400) / 4 - (y - (y / 400) * 400) / 100 + 336 + d.2 - 719468);
            assert(days_from_civil(e) == (d.0 / 400) * 146097 + (d.0 - (d.0 / 400) * 400) * 365 + (d.0 - (d.0 / 400) * 400) / 4 - (d.0 - (d.0 / 400) * 400) / 100 - 719468);
            assert(days_from_civil(e) == days_from_civil(d) + 1) by (nonlinear_arith)
                requires
                    days_from_civil(d) == (y / 400) * 146097 + (y - (y / 400) * 400) * 365 + (y - (y / 400) * 400) / 4 - (y - (y / 400) * 400) / 100 + 336 + d.2 - 719468,
                    days_from_civil(e) == (d.0 / 400) * 146097 + (d.0 - (d.0 / 400) * 400) * 365 + (d.0 - (d.0 / 400) * 400) / 4 - (d.0 - (d.0 / 400) * 400) / 100 - 719468,
                    y == d.0 - 1,
                    d.2 == (if (d.0 % 4 == 0 && d.0 % 100 != 0) || d.0 % 400 == 0 { 29int } else { 28int }),
            ;
        }
    } else {
    }
}

/// Consecutive days run through the week: the day after is one weekday later, Sunday to Monday.
pub proof fn lemma_next_day_weekday(d: (int, int, int))
    requires
        valid_ymd(d),
        next_day(d) is Some,
    ensures
        weekday_from_monday(next_day(d)->0) == (weekday_from_monday(d) + 1) % 7,
{
    lemma_next_day_count(d);
}

/// The day after a calendar date is a calendar date.
pub proof fn lemma_next_day_valid(d: (int, int, int))
    requires
        valid_ymd(d),
        next_day(d) is Some,
    ensures
        valid_ymd(next_day(d)->0),
{
}

/// The `weekdays` rule steps to the first later day that is Monday to Friday: from Monday to
/// Thursday that is the next day, from Friday, Saturday or Sunday the following Monday (3, 2 or 1
/// days on), and the day reached is Monday to Friday.
pub proof fn lemma_weekdays_step(d: (int, int, int))
    requires
        valid_ymd(d),
    ensures
        weekday_from_monday(d) <= 3 ==> step_date(RepeatRule::Weekdays, d) == next_day(d),
        weekday_from_monday(d) == 4 ==> step_date(RepeatRule::Weekdays, d) == add_days(d, 3),
        weekday_from_monday(d) == 5 ==> step_date(RepeatRule::Weekdays, d) == add_days(d, 2),
        weekday_from_monday(d) == 6 ==> step_date(RepeatRule::Weekdays, d) == add_days(d, 1),
        step_date(RepeatRule::Weekdays, d) matches Some(e) ==> weekday_from_monday(e) < 5,
        weekday_from_monday(d) >= 4 ==> (step_date(RepeatRule::Weekdays, d) matches Some(e) ==> weekday_from_monday(e) == 0),
{
    let w = weekday_from_monday(d);
    assert(0 <= w < 7);
    match next_day(d) {
        None => {
            reveal_with_fuel(add_days, 2);
        },
        Some(e1) => {
            lemma_next_day_weekday(d);
            lemma_next_day_valid(d);
            if weekday_from_monday(e1) >= 5 {
                match next_day(e1) {
                    None => {
                        reveal_with_fuel(add_days, 3);
                    },
                    Some(e2) => {
                        lemma_next_day_weekday(e1);
                        lemma_next_day_valid(e1);
                        if weekday_from_monday(e2) >= 5 {
                            match next_day(e2) {
                                None => {
                                    reveal_with_fuel(add_days, 4);
                                },
                                Some(e3) => {
                                    lemma_next_day_weekday(e2);
                                    reveal_with_fuel(add_days, 4);
                                    reveal_with_fuel(crate::repeat::next_weekday_within, 4);
                                },
                            }
                        } else {
                            reveal_with_fuel(add_days, 3);
                            reveal_with_fuel(crate::repeat::next_weekday_within, 3);
                        }
                    },
                }
            } else {
                reveal_with_fuel(add_days, 2);
            }
        },
    }
}

} // verus!
