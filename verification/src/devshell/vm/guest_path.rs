//! Lexical guest path helpers: normalization of absolute Unix-style paths, the guest project
//! directory for a logical cwd, and the "under the mount" test.

use vstd::prelude::*;

use crate::text::{
    chars_of, copy_range, is_ws, lemma_trim_keeps, seq_eq, starts_with, starts_with_chars,
    string_of, strip_both, strip_end, strip_start, strip_tail, trim, trim_str,
};

verus! {

/// Number of leading characters of `s` before the first `/`.
pub open spec fn word_len(s: Seq<char>) -> nat
    decreases s.len(),
{
    if s.len() == 0 || s[0] == '/' {
        0
    } else {
        1 + word_len(s.drop_first())
    }
}

pub proof fn lemma_word_len_bound(s: Seq<char>)
    ensures
        word_len(s) <= s.len(),
        s.len() > 0 && s[0] != '/' ==> word_len(s) >= 1,
    decreases s.len(),
{
    if s.len() > 0 && s[0] != '/' {
        lemma_word_len_bound(s.drop_first());
    }
}

/// The non-empty pieces of `s` between `/` separators, in order
/// (`s.split('/').filter(|p| !p.is_empty())`).
pub open spec fn parts(s: Seq<char>) -> Seq<Seq<char>>
    decreases s.len(),
{
    if s.len() == 0 {
        Seq::empty()
    } else if s[0] == '/' {
        parts(s.drop_first())
    } else {
        proof {
            lemma_word_len_bound(s);
        }
        seq![s.take(word_len(s) as int)] + parts(s.skip(word_len(s) as int))
    }
}

/// One step of lexical normalization: `.` is dropped, `..` pops the last segment (if any),
/// anything else is pushed.
pub open spec fn step(stack: Seq<Seq<char>>, p: Seq<char>) -> Seq<Seq<char>> {
    if p == seq!['.'] {
        stack
    } else if p == seq!['.', '.'] {
        if stack.len() > 0 {
            stack.drop_last()
        } else {
            stack
        }
    } else {
        stack.push(p)
    }
}

/// `stack` after the steps for each of `ps`, in order.
pub open spec fn norm_stack(stack: Seq<Seq<char>>, ps: Seq<Seq<char>>) -> Seq<Seq<char>>
    decreases ps.len(),
{
    if ps.len() == 0 {
        stack
    } else {
        norm_stack(step(stack, ps[0]), ps.drop_first())
    }
}

/// `/a/b/c` for the segments `a`, `b`, `c` (empty for no segment).
pub open spec fn slash_join(st: Seq<Seq<char>>) -> Seq<char>
    decreases st.len(),
{
    if st.len() == 0 {
        Seq::empty()
    } else {
        seq!['/'] + st[0] + slash_join(st.drop_first())
    }
}

/// The segments of `path` after lexical normalization (trimmed first).
pub open spec fn normal_segments(path: Seq<char>) -> Seq<Seq<char>> {
    norm_stack(Seq::empty(), parts(trim(path)))
}

/// `normalize_guest_path`: the normalized absolute form of `path` (`/` when no segment is left).
pub open spec fn normalized(path: Seq<char>) -> Seq<char> {
    lexical_norm(trim(path))
}

/// Lexical normalization of `s` without trimming: `/` followed by the surviving segments.
pub open spec fn lexical_norm(s: Seq<char>) -> Seq<char> {
    let st = norm_stack(Seq::empty(), parts(s));
    if st.len() == 0 {
        seq!['/']
    } else {
        slash_join(st)
    }
}

pub proof fn lemma_word_len_at(s: Seq<char>, i: int, j: int)
    requires
        0 <= i <= j <= s.len(),
        forall|k: int| i <= k < j ==> s[k] != '/',
        j == s.len() || s[j] == '/',
    ensures
        word_len(s.skip(i)) == j - i,
    decreases j - i,
{
    if i < j {
        lemma_word_len_at(s, i + 1, j);
        assert(s.skip(i).drop_first() =~= s.skip(i + 1));
    } else {
        assert(s.skip(i).len() == 0 || s.skip(i)[0] == '/');
    }
}

proof fn lemma_slash_join_append(a: Seq<Seq<char>>, b: Seq<Seq<char>>)
    ensures
        slash_join(a + b) == slash_join(a) + slash_join(b),
    decreases a.len(),
{
    if a.len() == 0 {
        assert(a + b =~= b);
    } else {
        lemma_slash_join_append(a.drop_first(), b);
        assert((a + b).drop_first() =~= a.drop_first() + b);
    }
}

pub proof fn lemma_slash_join_push(a: Seq<Seq<char>>, x: Seq<char>)
    ensures
        slash_join(a.push(x)) == slash_join(a) + seq!['/'] + x,
{
    lemma_slash_join_append(a, seq![x]);
    assert(a.push(x) =~= a + seq![x]);
    assert(seq![x].drop_first() =~= Seq::<Seq<char>>::empty());
    assert(seq![x][0] == x);
    assert(slash_join(Seq::<Seq<char>>::empty()) == Seq::<char>::empty());
    assert(slash_join(seq![x]) == seq!['/'] + x + Seq::<char>::empty());
    assert(seq!['/'] + x + Seq::<char>::empty() =~= seq!['/'] + x);
}

/// The non-empty `/`-separated pieces of `v`, in order.
pub(crate) fn split_parts(v: &Vec<char>) -> (r: Vec<Vec<char>>)
    ensures
        r@.len() == parts(v@).len(),
        forall|x: int| 0 <= x < r@.len() ==> (#[trigger] r@[x])@ == parts(v@)[x],
{
    let ghost vs = v@;
    let mut r: Vec<Vec<char>> = Vec::new();
    let ghost mut model: Seq<Seq<char>> = Seq::empty();
    let mut i: usize = 0;
    assert(vs.skip(0) =~= vs);
    assert(Seq::<Seq<char>>::empty() + parts(vs) =~= parts(vs));
    while i < v.len()
        invariant
            i <= vs.len(),
            vs == v@,
            r@.len() == model.len(),
            forall|k: int| 0 <= k < model.len() ==> (#[trigger] r@[k])@ == model[k],
            parts(vs) == model + parts(vs.skip(i as int)),
        decreases vs.len() - i,
    {
        if v[i] == '/' {
            assert(vs.skip(i as int).drop_first() =~= vs.skip(i + 1));
            i = i + 1;
        } else {
            let mut j = i;
            while j < v.len() && v[j] != '/'
                invariant
                    i <= j <= vs.len(),
                    vs == v@,
                    forall|k: int| i <= k < j ==> vs[k] != '/',
                decreases vs.len() - j,
            {
                j = j + 1;
            }
            proof {
                lemma_word_len_at(vs, i as int, j as int);
                let s = vs.skip(i as int);
                assert(s.take(j - i) =~= vs.subrange(i as int, j as int));
                assert(s.skip(j - i) =~= vs.skip(j as int));
                assert(parts(s) == seq![vs.subrange(i as int, j as int)] + parts(vs.skip(j as int)));
            }
            let w = copy_range(v, i, j);
            let ghost wv = w@;
            r.push(w);
            proof {
                assert(model + parts(vs.skip(i as int)) =~= model.push(wv) + parts(vs.skip(j as int)));
                model = model.push(wv);
            }
            i = j;
        }
    }
    assert(vs.skip(i as int).len() == 0);
    assert(model + parts(vs.skip(i as int)) =~= model);
    r
}

/// `slash_join` of the first `n` segments.
pub(crate) fn join_first(segs: &Vec<Vec<char>>, n: usize, Ghost(model): Ghost<Seq<Seq<char>>>) -> (r: Vec<char>)
    requires
        n <= segs@.len() == model.len(),
        forall|x: int| 0 <= x < model.len() ==> (#[trigger] segs@[x])@ == model[x],
    ensures
        r@ == slash_join(model.take(n as int)),
{
    let mut out: Vec<char> = Vec::new();
    let mut k: usize = 0;
    assert(model.take(0) =~= Seq::<Seq<char>>::empty());
    while k < n
        invariant
            k <= n <= segs@.len() == model.len(),
            forall|x: int| 0 <= x < model.len() ==> (#[trigger] segs@[x])@ == model[x],
            out@ == slash_join(model.take(k as int)),
        decreases n - k,
    {
        proof {
            lemma_slash_join_push(model.take(k as int), model[k as int]);
            assert(model.take(k as int).push(model[k as int]) =~= model.take(k + 1));
        }
        out.push('/');
        let mut c: usize = 0;
        let ghost base = out@;
        while c < segs[k].len()
            invariant
                k < segs@.len() == model.len(),
                c <= segs@[k as int]@.len(),
                out@ == base + segs@[k as int]@.take(c as int),
            decreases segs@[k as int]@.len() - c,
        {
            out.push(segs[k][c]);
            c = c + 1;
            assert(out@ =~= base + segs@[k as int]@.take(c as int));
        }
        assert(segs@[k as int]@.take(c as int) =~= segs@[k as int]@);
        assert(segs@[k as int]@ == model[k as int]);
        k = k + 1;
    }
    out
}

/// Lexical normalization of the characters `t` (no trimming).
pub(crate) fn normalize_chars(t: &Vec<char>) -> (r: Vec<char>)
    ensures
        r@ == lexical_norm(t@),
{
    let ghost ts = t@;
    let mut stack: Vec<Vec<char>> = Vec::new();
    let ghost mut model: Seq<Seq<char>> = Seq::empty();
    let mut i: usize = 0;
    assert(ts.skip(0) =~= ts);
    while i < t.len()
        invariant
            i <= t@.len(),
            ts == t@,
            stack@.len() == model.len(),
            forall|k: int| 0 <= k < model.len() ==> (#[trigger] stack@[k])@ == model[k],
            norm_stack(Seq::empty(), parts(ts)) == norm_stack(model, parts(ts.skip(i as int))),
        decreases t@.len() - i,
    {
        if t[i] == '/' {
            assert(ts.skip(i as int).drop_first() =~= ts.skip(i + 1));
            i = i + 1;
        } else {
            let mut j = i;
            while j < t.len() && t[j] != '/'
                invariant
                    i <= j <= t@.len(),
                    ts == t@,
                    forall|k: int| i <= k < j ==> ts[k] != '/',
                decreases t@.len() - j,
            {
                j = j + 1;
            }
            proof {
                lemma_word_len_at(ts, i as int, j as int);
                let s = ts.skip(i as int);
                assert(s.take(j - i) =~= ts.subrange(i as int, j as int));
                assert(s.skip(j - i) =~= ts.skip(j as int));
                assert(parts(s) == seq![ts.subrange(i as int, j as int)] + parts(ts.skip(j as int)));
                assert((seq![ts.subrange(i as int, j as int)] + parts(ts.skip(j as int))).drop_first()
                    =~= parts(ts.skip(j as int)));
            }
            let w = copy_range(&t, i, j);
            let ghost before = model;
            if w.len() == 1 && w[0] == '.' {
                assert(w@ =~= seq!['.']);
            } else if w.len() == 2 && w[0] == '.' && w[1] == '.' {
                assert(w@ =~= seq!['.', '.']);
                if stack.len() > 0 {
                    stack.pop();
                    proof {
                        model = model.drop_last();
                    }
                }
            } else {
                assert(w@ != seq!['.']);
                assert(w@ != seq!['.', '.']);
                let ghost wv = w@;
                stack.push(w);
                proof {
                    model = model.push(wv);
                }
            }
            assert(model == step(before, ts.subrange(i as int, j as int)));
            i = j;
        }
    }
    assert(ts.skip(i as int).len() == 0);
    let mut out: Vec<char> = Vec::new();
    if stack.len() == 0 {
        out.push('/');
        assert(out@ =~= seq!['/']);
    } else {
        let mut k: usize = 0;
        assert(model.take(0) =~= Seq::<Seq<char>>::empty());
        while k < stack.len()
            invariant
                k <= stack@.len() == model.len(),
                forall|x: int| 0 <= x < model.len() ==> (#[trigger] stack@[x])@ == model[x],
                out@ == slash_join(model.take(k as int)),
            decreases stack@.len() - k,
        {
            proof {
                lemma_slash_join_push(model.take(k as int), model[k as int]);
                assert(model.take(k as int).push(model[k as int]) =~= model.take(k + 1));
            }
            out.push('/');
            let mut c: usize = 0;
            let ghost base = out@;
            while c < stack[k].len()
                invariant
                    k < stack@.len() == model.len(),
                    c <= stack@[k as int]@.len(),
                    out@ == base + stack@[k as int]@.take(c as int),
                decreases stack@[k as int]@.len() - c,
            {
                out.push(stack[k][c]);
                c = c + 1;
                assert(out@ =~= base + stack@[k as int]@.take(c as int));
            }
            assert(stack@[k as int]@.take(c as int) =~= stack@[k as int]@);
            assert(stack@[k as int]@ == model[k as int]);
            k = k + 1;
        }
        assert(model.take(k as int) =~= model);
    }
    out
}

/// Lexically normalize an absolute Unix-style path (no symlink resolution): trims it, drops empty
/// and `.` segments, resolves `..` (never above the root). Always `Some`.
pub fn normalize_guest_path(path: &str) -> (r: Option<String>)
    ensures
        r matches Some(s) && s@ == normalized(path@),
{
    let t = trim_str(path);
    let v = normalize_chars(&t);
    Some(string_of(&v))
}

/// The piece of `s` after its last `/` (all of `s` when it has none).
pub open spec fn last_piece(s: Seq<char>) -> Seq<char>
    decreases s.len(),
{
    if s.len() == 0 || s.last() == '/' {
        Seq::empty()
    } else {
        last_piece(s.drop_last()).push(s.last())
    }
}

/// `guest_project_dir_on_guest`: the mount without trailing `/`, plus the last segment of the
/// logical cwd (the mount alone for the root cwd).
pub open spec fn project_dir(mount: Seq<char>, cwd: Seq<char>) -> Seq<char> {
    let tr = strip_end(strip_start(cwd, Some('/')), Some('/'));
    let base = strip_end(mount, Some('/'));
    if tr.len() == 0 {
        base
    } else {
        base + seq!['/'] + last_piece(tr)
    }
}

/// `guest_path_is_under_mount`: after normalization, `path` is the mount or below it.
pub open spec fn under_mount(mount: Seq<char>, path: Seq<char>) -> bool {
    let m = strip_end(normalized(mount), Some('/'));
    let p = normalized(path);
    p == m || starts_with(p, m + seq!['/'])
}

/// `v[j..]` when `v[j - 1]` is the last `/` of `v` (or `j == 0` and there is none).
fn last_piece_start(v: &Vec<char>) -> (j: usize)
    ensures
        j <= v@.len(),
        last_piece(v@) == v@.subrange(j as int, v@.len() as int),
{
    let n = v.len();
    let mut j = n;
    assert(v@.take(n as int) =~= v@);
    assert(v@.subrange(n as int, n as int) =~= Seq::<char>::empty());
    while j > 0 && v[j - 1] != '/'
        invariant
            j <= n == v@.len(),
            last_piece(v@) == last_piece(v@.take(j as int)) + v@.subrange(j as int, n as int),
        decreases j,
    {
        let ghost t = v@.take(j as int);
        assert(t.drop_last() =~= v@.take(j - 1));
        assert(t.last() == v@[j - 1]);
        assert(v@.subrange(j - 1, n as int) =~= seq![v@[j - 1]] + v@.subrange(j as int, n as int));
        assert(last_piece(t) == last_piece(v@.take(j - 1)).push(v@[j - 1]));
        assert(last_piece(v@.take(j - 1)).push(v@[j - 1]) + v@.subrange(j as int, n as int)
            =~= last_piece(v@.take(j - 1)) + v@.subrange(j - 1, n as int));
        j = j - 1;
    }
    assert(last_piece(v@.take(j as int)) == Seq::<char>::empty());
    assert(Seq::<char>::empty() + v@.subrange(j as int, n as int) =~= v@.subrange(j as int, n as int));
    j
}

/// Guest directory for the current logical cwd: the guest mount plus the last segment of
/// `logical_cwd` (the mount itself for `/`).
pub fn guest_project_dir_on_guest(guest_mount: &str, logical_cwd: &str) -> (r: String)
    ensures
        r@ == project_dir(guest_mount@, logical_cwd@),
{
    let tr = strip_both(&chars_of(logical_cwd), Some('/'));
    let mut out = strip_tail(&chars_of(guest_mount), Some('/'));
    if tr.len() == 0 {
        return string_of(&out);
    }
    let j = last_piece_start(&tr);
    let ghost base = out@;
    out.push('/');
    let mut k = j;
    while k < tr.len()
        invariant
            j <= k <= tr@.len(),
            out@ == base + seq!['/'] + tr@.subrange(j as int, k as int),
        decreases tr@.len() - k,
    {
        out.push(tr[k]);
        k = k + 1;
        assert(out@ =~= base + seq!['/'] + tr@.subrange(j as int, k as int));
    }
    string_of(&out)
}

/// True if `path` is `mount` or a strict descendant (after normalization of both).
pub fn guest_path_is_under_mount(mount: &str, path: &str) -> (r: bool)
    ensures
        r == under_mount(mount@, path@),
{
    let m = match normalize_guest_path(mount) {
        Some(m) => m,
        None => return false,
    };
    let p = match normalize_guest_path(path) {
        Some(p) => p,
        None => return false,
    };
    let mut mv = strip_tail(&chars_of(m.as_str()), Some('/'));
    let pv = chars_of(p.as_str());
    if seq_eq(&pv, &mv) {
        return true;
    }
    let ghost m0 = mv@;
    mv.push('/');
    assert(mv@ =~= m0 + seq!['/']);
    starts_with_chars(&pv, &mv)
}

/// A segment of a normalized path: non-empty, without `/`, neither `.` nor `..`.
pub open spec fn good_segment(p: Seq<char>) -> bool {
    &&& p.len() > 0
    &&& forall|k: int| 0 <= k < p.len() ==> p[k] != '/'
    &&& p != seq!['.']
    &&& p != seq!['.', '.']
}

proof fn lemma_word_take(s: Seq<char>)
    ensures
        forall|k: int| 0 <= k < word_len(s) ==> s[k] != '/',
        word_len(s) < s.len() ==> s[word_len(s) as int] == '/',
    decreases s.len(),
{
    if s.len() > 0 && s[0] != '/' {
        lemma_word_take(s.drop_first());
        lemma_word_len_bound(s);
        assert forall|k: int| 0 <= k < word_len(s) implies s[k] != '/' by {
            if k > 0 {
                assert(s[k] == s.drop_first()[k - 1]);
            }
        }
        if word_len(s) < s.len() {
            assert(s[word_len(s) as int] == s.drop_first()[word_len(s.drop_first()) as int]);
        }
    }
}

pub proof fn lemma_parts_shape(s: Seq<char>)
    ensures
        forall|i: int| 0 <= i < parts(s).len() ==> (#[trigger] parts(s)[i]).len() > 0,
        forall|i: int, k: int|
            0 <= i < parts(s).len() && 0 <= k < parts(s)[i].len() ==> #[trigger] parts(s)[i][k]
                != '/',
    decreases s.len(),
{
    if s.len() == 0 {
        assert(parts(s).len() == 0);
    } else if s[0] == '/' {
        lemma_parts_shape(s.drop_first());
        assert(parts(s) == parts(s.drop_first()));
    } else {
        lemma_word_len_bound(s);
        lemma_word_take(s);
        let w = word_len(s) as int;
        lemma_parts_shape(s.skip(w));
        let ps = parts(s);
        let rest = parts(s.skip(w));
        assert(ps == seq![s.take(w)] + rest);
        assert forall|i: int| 0 <= i < ps.len() implies (#[trigger] ps[i]).len() > 0 by {
            if i > 0 {
                assert(ps[i] == rest[i - 1]);
            } else {
                assert(ps[i] == s.take(w));
            }
        }
        assert forall|i: int, k: int| 0 <= i < ps.len() && 0 <= k < ps[i].len() implies #[trigger] ps[i][k] != '/' by {
            if i > 0 {
                assert(ps[i] == rest[i - 1]);
                assert(rest[i - 1][k] != '/');
            } else {
                assert(ps[i] == s.take(w));
                assert(s.take(w)[k] == s[k]);
            }
        }
    }
}

pub proof fn lemma_norm_stack_good(stack: Seq<Seq<char>>, ps: Seq<Seq<char>>)
    requires
        forall|i: int| 0 <= i < stack.len() ==> good_segment(#[trigger] stack[i]),
        forall|i: int| 0 <= i < ps.len() ==> (#[trigger] ps[i]).len() > 0,
        forall|i: int, k: int| 0 <= i < ps.len() && 0 <= k < ps[i].len() ==> #[trigger] ps[i][k] != '/',
    ensures
        forall|i: int| 0 <= i < norm_stack(stack, ps).len() ==> good_segment(
            #[trigger] norm_stack(stack, ps)[i],
        ),
    decreases ps.len(),
{
    if ps.len() > 0 {
        let st2 = step(stack, ps[0]);
        assert forall|i: int| 0 <= i < st2.len() implies good_segment(#[trigger] st2[i]) by {
            if i < stack.len() {
                assert(st2[i] == stack[i]);
            } else {
                assert(st2[i] == ps[0]);
                assert forall|k: int| 0 <= k < ps[0].len() implies ps[0][k] != '/' by {
                    assert(ps[0][k] != '/');
                }
            }
        }
        let rest = ps.drop_first();
        assert forall|i: int| 0 <= i < rest.len() implies (#[trigger] rest[i]).len() > 0 by {
            assert(rest[i] == ps[i + 1]);
        }
        assert forall|i: int, k: int| 0 <= i < rest.len() && 0 <= k < rest[i].len() implies #[trigger] rest[i][k] != '/' by {
            assert(rest[i] == ps[i + 1]);
        }
        lemma_norm_stack_good(st2, rest);
        assert(norm_stack(stack, ps) == norm_stack(st2, rest));
    }
}

proof fn lemma_norm_stack_of_good(acc: Seq<Seq<char>>, st: Seq<Seq<char>>)
    requires
        forall|i: int| 0 <= i < st.len() ==> good_segment(#[trigger] st[i]),
    ensures
        norm_stack(acc, st) == acc + st,
    decreases st.len(),
{
    if st.len() == 0 {
        assert(acc + st =~= acc);
    } else {
        assert(good_segment(st[0]));
        let rest = st.drop_first();
        assert forall|i: int| 0 <= i < rest.len() implies good_segment(#[trigger] rest[i]) by {
            assert(rest[i] == st[i + 1]);
        }
        lemma_norm_stack_of_good(acc.push(st[0]), rest);
        assert(acc.push(st[0]) + rest =~= acc + st);
    }
}

pub proof fn lemma_parts_of_join(st: Seq<Seq<char>>)
    requires
        forall|i: int| 0 <= i < st.len() ==> good_segment(#[trigger] st[i]),
    ensures
        parts(slash_join(st)) == st,
    decreases st.len(),
{
    if st.len() > 0 {
        let x = st[0];
        let rest = st.drop_first();
        assert(good_segment(x));
        assert forall|i: int| 0 <= i < rest.len() implies good_segment(#[trigger] rest[i]) by {
            assert(rest[i] == st[i + 1]);
        }
        lemma_parts_of_join(rest);
        let j = slash_join(st);
        let tail = x + slash_join(rest);
        assert(j =~= seq!['/'] + tail);
        assert(j.drop_first() =~= tail);
        assert(parts(j) == parts(tail));
        let n = x.len() as int;
        assert(slash_join(rest).len() == 0 || slash_join(rest)[0] == '/');
        assert forall|k: int| 0 <= k < n implies tail[k] != '/' by {
            assert(tail[k] == x[k]);
        }
        if n < tail.len() {
            assert(tail[n] == slash_join(rest)[0]);
        }
        lemma_word_len_at(tail, 0, n);
        assert(tail.skip(0) =~= tail);
        assert(tail.take(n) =~= x);
        assert(tail.skip(n) =~= slash_join(rest));
        assert(parts(tail) == seq![x] + rest);
        assert(seq![x] + rest =~= st);
    }
}

/// Normalizing a normalized path changes nothing, unless that path ends in whitespace (which the
/// second pass trims away).
pub proof fn lemma_normalize_idempotent(p: Seq<char>)
    requires
        !is_ws(normalized(p).last()),
    ensures
        normalized(normalized(p)) == normalized(p),
{
    let st = normal_segments(p);
    let n = normalized(p);
    lemma_parts_shape(trim(p));
    lemma_norm_stack_good(Seq::empty(), parts(trim(p)));
    if st.len() == 0 {
        assert(trim(n) == n) by {
            lemma_trim_keeps(n);
        }
        assert(n.drop_first() =~= Seq::<char>::empty());
        assert(parts(n) == parts(Seq::<char>::empty()));
        assert(normal_segments(n).len() == 0);
    } else {
        assert(n =~= seq!['/'] + st[0] + slash_join(st.drop_first()));
        assert(n[0] == '/');
        lemma_trim_keeps(n);
        lemma_parts_of_join(st);
        lemma_norm_stack_of_good(Seq::empty(), st);
        assert(Seq::<Seq<char>>::empty() + st =~= st);
        assert(normal_segments(n) == st);
    }
}

proof fn lemma_slash_join_last(st: Seq<Seq<char>>)
    requires
        st.len() > 0,
        st.last().len() > 0,
    ensures
        slash_join(st).len() > 0,
        slash_join(st).last() == st.last().last(),
    decreases st.len(),
{
    let rest = st.drop_first();
    if rest.len() == 0 {
        assert(slash_join(rest) == Seq::<char>::empty());
        assert(slash_join(st) =~= seq!['/'] + st[0]);
    } else {
        assert(rest.last() == st.last());
        lemma_slash_join_last(rest);
        assert(slash_join(st) == seq!['/'] + st[0] + slash_join(rest));
    }
}

/// Every mount is under itself.
pub proof fn lemma_mount_under_itself(mount: Seq<char>)
    ensures
        under_mount(mount, mount),
{
    let st = normal_segments(mount);
    let n = normalized(mount);
    lemma_parts_shape(trim(mount));
    lemma_norm_stack_good(Seq::empty(), parts(trim(mount)));
    if st.len() == 0 {
        assert(n == seq!['/']);
        assert(strip_end(n.drop_last(), Some('/')) == Seq::<char>::empty());
        assert(strip_end(n, Some('/')) == Seq::<char>::empty());
        assert(n.subrange(0, 1) =~= Seq::<char>::empty() + seq!['/']);
    } else {
        assert(good_segment(st[st.len() - 1]));
        lemma_slash_join_last(st);
        assert(n == slash_join(st));
        let l = st.last();
        assert(l[l.len() - 1] != '/');
        assert(strip_end(n, Some('/')) == n);
    }
}

/// A normalized path is `/` alone, or `/`-separated segments each after a `/`, every segment
/// non-empty, free of `/` and neither `.` nor `..` (so it never ends in `/`).
pub proof fn lemma_normalized_form(p: Seq<char>)
    ensures
        normalized(p).len() > 0,
        normalized(p)[0] == '/',
        normal_segments(p).len() == 0 ==> normalized(p) == seq!['/'],
        normal_segments(p).len() > 0 ==> {
            &&& normalized(p) == slash_join(normal_segments(p))
            &&& forall|i: int| 0 <= i < normal_segments(p).len() ==> good_segment(#[trigger] normal_segments(p)[i])
            &&& normalized(p).last() != '/'
        },
{
    let st = normal_segments(p);
    lemma_parts_shape(trim(p));
    lemma_norm_stack_good(Seq::empty(), parts(trim(p)));
    if st.len() > 0 {
        assert(good_segment(st[st.len() - 1]));
        lemma_slash_join_last(st);
        let l = st.last();
        assert(l[l.len() - 1] != '/');
        assert(slash_join(st) =~= seq!['/'] + st[0] + slash_join(st.drop_first()));
    }
}

} // verus!
