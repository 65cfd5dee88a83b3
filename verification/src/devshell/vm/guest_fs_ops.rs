//! Guest filesystem operations ([`GuestFsOps`]) and the in-memory [`MockGuestFsOps`].

use vstd::prelude::*;

use super::guest_path::{
    guest_path_is_under_mount, join_first, lemma_norm_stack_good, lemma_parts_of_join,
    lemma_parts_shape, lemma_slash_join_push, lemma_word_len_at, normal_segments,
    lemma_normalize_idempotent, lemma_normalized_form, normalize_guest_path, normalized, parts,
    slash_join, split_parts, under_mount, word_len,
};
use super::session::VmError;
use crate::text::{
    chars_of, compare_chars, lemma_seq_lt_transitive, seq_eq, seq_lt, starts_with,
    starts_with_chars, string_of, trim, trim_str, Cmp,
};
use crate::text::{is_ws, lemma_trim_keeps};

verus! {

/// Errors from [`GuestFsOps`] (guest path / remote command).
#[derive(Debug)]
pub enum GuestFsError {
    /// Path escapes the workspace mount or is not absolute.
    InvalidPath(String),
    /// No such file or directory.
    NotFound(String),
    /// Expected a directory.
    NotADirectory(String),
    /// Expected a regular file.
    IsADirectory(String),
    /// Guest command failed (non-zero exit).
    GuestCommand { status: Option<i32>, stderr: String },
    /// VM / `limactl` failure.
    Vm(VmError),
    /// I/O or UTF-8 issues in the mock implementation.
    Internal(String),
}

/// The kind and text of a [`GuestFsError`].
pub enum FsErr {
    InvalidPath(Seq<char>),
    NotFound(Seq<char>),
    NotADirectory(Seq<char>),
    IsADirectory(Seq<char>),
    GuestCommand(Option<i32>, Seq<char>),
    Vm,
    Internal(Seq<char>),
}

impl View for GuestFsError {
    type V = FsErr;

    open spec fn view(&self) -> FsErr {
        match self {
            GuestFsError::InvalidPath(s) => FsErr::InvalidPath(s@),
            GuestFsError::NotFound(s) => FsErr::NotFound(s@),
            GuestFsError::NotADirectory(s) => FsErr::NotADirectory(s@),
            GuestFsError::IsADirectory(s) => FsErr::IsADirectory(s@),
            GuestFsError::GuestCommand { status, stderr } => FsErr::GuestCommand(*status, stderr@),
            GuestFsError::Vm(_) => FsErr::Vm,
            GuestFsError::Internal(s) => FsErr::Internal(s@),
        }
    }
}

/// Operations on the **guest** filesystem. Paths are guest absolute paths (e.g. `/workspace/foo`).
///
/// An implementation that is held to a model of the guest tree says so with
/// [`GuestFsOps::modelled`]; then each operation's result and the tree after it are exactly what
/// [`tree_read`], [`tree_write`], [`tree_mkdir`], [`tree_remove`] and [`child_names`] give on
/// [`GuestFsOps::tree`], the tree keyed by normalized path. The defaults model nothing, so an
/// implementation outside the verified code (which may fail any operation) promises nothing.
pub trait GuestFsOps {
    /// The operations are held to [`GuestFsOps::tree`].
    open spec fn modelled(&self) -> bool {
        false
    }

    /// The guest tree the operations act on: each normalized path to a file's bytes or a
    /// directory.
    open spec fn tree(&self) -> Map<Seq<char>, NodeView> {
        Map::empty()
    }

    /// List the names in `guest_path` (like `ls -1A`): modelled, the names directly below a
    /// directory, sorted, and `NotADirectory` for anything else.
    fn list_dir(&mut self, guest_path: &str) -> (r: Result<Vec<String>, GuestFsError>)
        ensures
            final(self).modelled() == old(self).modelled(),
            old(self).modelled() ==> final(self).tree() == old(self).tree(),
            old(self).modelled() ==> match r {
                Ok(v) => {
                    &&& is_dir(old(self).tree(), normalized(guest_path@))
                    &&& strictly_sorted(texts(v@))
                    &&& forall|nm: Seq<char>| texts(v@).contains(nm) <==> child_names(old(self).tree(), normalized(guest_path@)).contains(nm)
                },
                Err(e) => !is_dir(old(self).tree(), normalized(guest_path@)) && e@ == FsErr::NotADirectory(normalized(guest_path@)),
            },
    ;

    /// Read a file by guest path: modelled, exactly [`tree_read`].
    fn read_file(&mut self, guest_path: &str) -> (r: Result<Vec<u8>, GuestFsError>)
        ensures
            final(self).modelled() == old(self).modelled(),
            old(self).modelled() ==> final(self).tree() == old(self).tree(),
            old(self).modelled() ==> match r {
                Ok(b) => tree_read(old(self).tree(), guest_path@) == Ok::<Seq<u8>, FsErr>(b@),
                Err(e) => tree_read(old(self).tree(), guest_path@) == Err::<Seq<u8>, FsErr>(e@),
            },
    ;

    /// Write or replace a file (making its parent directory): modelled, exactly [`tree_write`].
    fn write_file(&mut self, guest_path: &str, data: &[u8]) -> (r: Result<(), GuestFsError>)
        ensures
            final(self).modelled() == old(self).modelled(),
            old(self).modelled() ==> tree_write(old(self).tree(), guest_path@, data@).1 == final(self).tree(),
            old(self).modelled() ==> match r {
                Ok(_) => tree_write(old(self).tree(), guest_path@, data@).0 is Ok,
                Err(e) => tree_write(old(self).tree(), guest_path@, data@).0 == Err::<(), FsErr>(e@),
            },
    ;

    /// Create a directory (and parents), like `mkdir -p`: modelled, exactly [`tree_mkdir`].
    fn mkdir(&mut self, guest_path: &str) -> (r: Result<(), GuestFsError>)
        ensures
            final(self).modelled() == old(self).modelled(),
            old(self).modelled() ==> tree_mkdir(old(self).tree(), guest_path@).1 == final(self).tree(),
            old(self).modelled() ==> match r {
                Ok(_) => tree_mkdir(old(self).tree(), guest_path@).0 is Ok,
                Err(e) => tree_mkdir(old(self).tree(), guest_path@).0 == Err::<(), FsErr>(e@),
            },
    ;

    /// Remove a file or directory tree: modelled, exactly [`tree_remove`].
    fn remove(&mut self, guest_path: &str) -> (r: Result<(), GuestFsError>)
        ensures
            final(self).modelled() == old(self).modelled(),
            old(self).modelled() ==> tree_remove(old(self).tree(), guest_path@).1 == final(self).tree(),
            old(self).modelled() ==> match r {
                Ok(_) => tree_remove(old(self).tree(), guest_path@).0 is Ok,
                Err(e) => tree_remove(old(self).tree(), guest_path@).0 == Err::<(), FsErr>(e@),
            },
    ;
}

/// The text `"path not under guest mount {mount}: {p}"`.
pub open spec fn not_under_text(mount: Seq<char>, p: Seq<char>) -> Seq<char> {
    "path not under guest mount "@ + mount + ": "@ + p
}

/// `p`, with leading whitespace taken off, starts with `/`.
pub open spec fn is_absolute(p: Seq<char>) -> bool {
    trim(p).len() > 0 && trim(p)[0] == '/'
}

/// What `validate_guest_path_under_mount` returns: `InvalidPath` (naming the path) when it is not
/// absolute, else the normalized path, or `InvalidPath` when that is not under the mount.
pub open spec fn validated(mount: Seq<char>, guest_path: Seq<char>) -> Result<Seq<char>, FsErr> {
    let p = normalized(guest_path);
    if !is_absolute(guest_path) {
        Err(FsErr::InvalidPath(guest_path))
    } else if under_mount(mount, p) {
        Ok(p)
    } else {
        Err(FsErr::InvalidPath(not_under_text(mount, p)))
    }
}

/// `a` followed by `b`.
fn append_chars(a: &mut Vec<char>, b: &Vec<char>)
    ensures
        final(a)@ == old(a)@ + b@,
{
    let mut i: usize = 0;
    let ghost a0 = a@;
    while i < b.len()
        invariant
            i <= b@.len(),
            a@ == a0 + b@.take(i as int),
        decreases b@.len() - i,
    {
        a.push(b[i]);
        i = i + 1;
        assert(a@ =~= a0 + b@.take(i as int));
    }
    assert(b@.take(i as int) =~= b@);
}

/// Validate that `guest_path` is absolute and under `mount`; returns the normalized path.
pub fn validate_guest_path_under_mount(mount: &str, guest_path: &str) -> (r: Result<String, GuestFsError>)
    ensures
        match r {
            Ok(s) => validated(mount@, guest_path@) == Ok::<Seq<char>, FsErr>(s@),
            Err(e) => validated(mount@, guest_path@) == Err::<Seq<char>, FsErr>(e@),
        },
{
    let t = trim_str(guest_path);
    if !(t.len() > 0 && t[0] == '/') {
        return Err(GuestFsError::InvalidPath(string_of(&chars_of(guest_path))));
    }
    let p = match normalize_guest_path(guest_path) {
        Some(p) => p,
        None => return Err(GuestFsError::InvalidPath(string_of(&chars_of(guest_path)))),
    };
    if !guest_path_is_under_mount(mount, p.as_str()) {
        let mut t = chars_of("path not under guest mount ");
        append_chars(&mut t, &chars_of(mount));
        append_chars(&mut t, &chars_of(": "));
        append_chars(&mut t, &chars_of(p.as_str()));
        return Err(GuestFsError::InvalidPath(string_of(&t)));
    }
    Ok(p)
}

/// A validated path is the normalized path and lies under the mount; validating it again gives
/// it back unchanged, unless it ends in whitespace (which the second pass trims away).
pub proof fn lemma_validated_contained_and_stable(mount: Seq<char>, p: Seq<char>)
    requires
        validated(mount, p) is Ok,
    ensures
        validated(mount, p) == Ok::<Seq<char>, FsErr>(normalized(p)),
        under_mount(mount, normalized(p)),
        !is_ws(normalized(p).last()) ==> validated(mount, normalized(p)) == validated(mount, p),
{
    let n = normalized(p);
    lemma_normalized_form(p);
    if !is_ws(n.last()) {
        lemma_trim_keeps(n);
        lemma_normalize_idempotent(p);
    }
}

/// A node of the mock guest tree.
pub enum NodeView {
    File(Seq<u8>),
    Dir,
}

enum MockNode {
    File(Vec<u8>),
    Dir,
}

impl View for MockNode {
    type V = NodeView;

    closed spec fn view(&self) -> NodeView {
        match self {
            MockNode::File(b) => NodeView::File(b@),
            MockNode::Dir => NodeView::Dir,
        }
    }
}

/// The entries of a node table as (path, node) pairs.
spec fn ents(nodes: Seq<(Vec<char>, MockNode)>) -> Seq<(Seq<char>, NodeView)> {
    nodes.map_values(|e: (Vec<char>, MockNode)| (e.0@, e.1@))
}

/// Some entry of `e` has path `k`.
pub open spec fn has_key(e: Seq<(Seq<char>, NodeView)>, k: Seq<char>) -> bool {
    exists|i: int| 0 <= i < e.len() && (#[trigger] e[i]).0 == k
}

/// No two entries of `e` share a path.
pub open spec fn unique_keys(e: Seq<(Seq<char>, NodeView)>) -> bool {
    forall|i: int, j: int| 0 <= i < j < e.len() ==> (#[trigger] e[i]).0 != (#[trigger] e[j]).0
}

/// The tree an entry table stands for.
pub open spec fn model_of(e: Seq<(Seq<char>, NodeView)>) -> Map<Seq<char>, NodeView> {
    Map::new(
        |k: Seq<char>| has_key(e, k),
        |k: Seq<char>| e[choose|i: int| 0 <= i < e.len() && (#[trigger] e[i]).0 == k].1,
    )
}

proof fn lemma_model_at(e: Seq<(Seq<char>, NodeView)>, i: int)
    requires
        unique_keys(e),
        0 <= i < e.len(),
    ensures
        model_of(e).contains_key(e[i].0),
        model_of(e)[e[i].0] == e[i].1,
{
    let k = e[i].0;
    assert(has_key(e, k));
    let j = choose|j: int| 0 <= j < e.len() && (#[trigger] e[j]).0 == k;
    if j != i {
        if j < i {
            assert(e[j].0 != e[i].0);
        } else {
            assert(e[i].0 != e[j].0);
        }
    }
}

fn copy_bytes(b: &[u8]) -> (r: Vec<u8>)
    ensures
        r@ == b@,
{
    let mut r: Vec<u8> = Vec::new();
    let mut i: usize = 0;
    while i < b.len()
        invariant
            i <= b@.len(),
            r@ == b@.take(i as int),
        decreases b@.len() - i,
    {
        r.push(b[i]);
        i = i + 1;
        assert(r@ =~= b@.take(i as int));
    }
    assert(b@.take(i as int) =~= b@);
    r
}

fn copy_chars(v: &Vec<char>) -> (r: Vec<char>)
    ensures
        r@ == v@,
{
    let r = crate::text::copy_range(v, 0, v.len());
    assert(v@.subrange(0, v@.len() as int) =~= v@);
    r
}

/// Index of the entry with path `k`, if any.
fn find_key(nodes: &Vec<(Vec<char>, MockNode)>, k: &Vec<char>) -> (r: Option<usize>)
    ensures
        match r {
            Some(i) => i < nodes@.len() && nodes@[i as int].0@ == k@,
            None => !has_key(ents(nodes@), k@),
        },
{
    let mut i: usize = 0;
    while i < nodes.len()
        invariant
            i <= nodes@.len(),
            forall|j: int| 0 <= j < i ==> (#[trigger] ents(nodes@)[j]).0 != k@,
        decreases nodes@.len() - i,
    {
        if seq_eq(&nodes[i].0, k) {
            return Some(i);
        }
        i = i + 1;
    }
    None
}

/// Sets the node at path `k` (replacing an entry with that path, else appending).
fn put(nodes: &mut Vec<(Vec<char>, MockNode)>, k: Vec<char>, n: MockNode)
    requires
        unique_keys(ents(old(nodes)@)),
    ensures
        unique_keys(ents(final(nodes)@)),
        model_of(ents(final(nodes)@)) == model_of(ents(old(nodes)@)).insert(k@, n@),
{
    let ghost e0 = ents(nodes@);
    let ghost kv = k@;
    let ghost nv = n@;
    match find_key(nodes, &k) {
        Some(i) => {
            nodes.set(i, (k, n));
            proof {
                let e1 = ents(nodes@);
                assert(e1 =~= e0.update(i as int, (kv, nv)));
                assert forall|a: int, b: int| 0 <= a < b < e1.len() implies (#[trigger] e1[a]).0 != (
                #[trigger] e1[b]).0 by {
                    assert(e0[a].0 != e0[b].0);
                }
                let m1 = model_of(e1);
                let m2 = model_of(e0).insert(kv, nv);
                assert forall|key: Seq<char>| m1.contains_key(key) <==> m2.contains_key(key) by {
                    if m1.contains_key(key) {
                        let j = choose|j: int| 0 <= j < e1.len() && (#[trigger] e1[j]).0 == key;
                        if j != i {
                            assert(e0[j].0 == key);
                        }
                    }
                    if m2.contains_key(key) && key != kv {
                        let j = choose|j: int| 0 <= j < e0.len() && (#[trigger] e0[j]).0 == key;
                        assert(e1[j].0 == key);
                    }
                    if key == kv {
                        assert(e1[i as int].0 == key);
                    }
                }
                assert forall|key: Seq<char>| #[trigger] m1.contains_key(key) implies m1[key] == m2[key] by {
                    let j = choose|j: int| 0 <= j < e1.len() && (#[trigger] e1[j]).0 == key;
                    lemma_model_at(e1, j);
                    if j != i {
                        assert(e1[j] == e0[j]);
                        if j < i {
                            assert(e1[j].0 != e1[i as int].0);
                        } else {
                            assert(e1[i as int].0 != e1[j].0);
                        }
                        assert(key != kv);
                        lemma_model_at(e0, j);
                    } else {
                        assert(key == kv);
                        assert(e1[j].1 == nv);
                    }
                }
                assert(m1 =~= m2);
            }
        },
        None => {
            nodes.push((k, n));
            proof {
                let e1 = ents(nodes@);
                assert(e1 =~= e0.push((kv, nv)));
                assert forall|a: int, b: int| 0 <= a < b < e1.len() implies (#[trigger] e1[a]).0 != (
                #[trigger] e1[b]).0 by {
                    if b == e0.len() {
                        assert(e1[a] == e0[a]);
                    } else {
                        assert(e0[a].0 != e0[b].0);
                    }
                }
                let m1 = model_of(e1);
                let m2 = model_of(e0).insert(kv, nv);
                assert forall|key: Seq<char>| m1.contains_key(key) <==> m2.contains_key(key) by {
                    if m1.contains_key(key) {
                        let j = choose|j: int| 0 <= j < e1.len() && (#[trigger] e1[j]).0 == key;
                        if j < e0.len() {
                            assert(e0[j].0 == key);
                        }
                    }
                    if m2.contains_key(key) && key != kv {
                        let j = choose|j: int| 0 <= j < e0.len() && (#[trigger] e0[j]).0 == key;
                        assert(e1[j].0 == key);
                    }
                    if key == kv {
                        assert(e1[e0.len() as int].0 == key);
                    }
                }
                assert forall|key: Seq<char>| #[trigger] m1.contains_key(key) implies m1[key] == m2[key] by {
                    let j = choose|j: int| 0 <= j < e1.len() && (#[trigger] e1[j]).0 == key;
                    lemma_model_at(e1, j);
                    assert(unique_keys(e1));
                    assert(m1[key] == e1[j].1);
                    if j < e0.len() {
                        assert(e1[j] == e0[j]);
                        assert(key != kv);
                        lemma_model_at(e0, j);
                        assert(m2[key] == model_of(e0)[key]);
                    } else {
                        assert(e1[j] == (kv, nv));
                        assert(key == kv);
                        assert(m2[key] == nv);
                        assert(e1[j].1 == nv);
                    }
                }
                assert(m1 =~= m2);
            }
        },
    }
}

/// What `read_file` returns on the tree `m`.
pub open spec fn tree_read(m: Map<Seq<char>, NodeView>, path: Seq<char>) -> Result<Seq<u8>, FsErr> {
    let k = normalized(path);
    if m.contains_key(k) {
        match m[k] {
            NodeView::File(b) => Ok(b),
            NodeView::Dir => Err(FsErr::IsADirectory(k)),
        }
    } else {
        Err(FsErr::NotFound(k))
    }
}

/// The `i`-th ancestor-or-self directory `mkdir` creates for `k`: `/s0/…/si`.
pub open spec fn prefix_at(k: Seq<char>, i: int) -> Seq<char> {
    slash_join(parts(k).take(i + 1))
}

/// `m` has a file at `p`.
pub open spec fn is_file(m: Map<Seq<char>, NodeView>, p: Seq<char>) -> bool {
    m.contains_key(p) && m[p] is File
}

/// `m` with directories added at the first `j` prefixes of `k` that it lacks.
pub open spec fn with_dirs(m: Map<Seq<char>, NodeView>, k: Seq<char>, j: int) -> Map<Seq<char>, NodeView> {
    Map::new(
        |p: Seq<char>| m.contains_key(p) || exists|i: int| 0 <= i < j && p == #[trigger] prefix_at(k, i),
        |p: Seq<char>| if m.contains_key(p) {
            m[p]
        } else {
            NodeView::Dir
        },
    )
}

/// The first index from `i` on whose prefix of `k` is a file (the number of segments if none).
pub open spec fn first_file_from(m: Map<Seq<char>, NodeView>, k: Seq<char>, i: int) -> int
    decreases parts(k).len() - i,
{
    if i >= parts(k).len() {
        parts(k).len() as int
    } else if is_file(m, prefix_at(k, i)) {
        i
    } else {
        first_file_from(m, k, i + 1)
    }
}

/// What `mkdir(path)` does to the tree `m`: the result and the tree after. A file in the way
/// stops it, keeping the directories already made.
pub open spec fn tree_mkdir(m: Map<Seq<char>, NodeView>, path: Seq<char>) -> (Result<(), FsErr>, Map<Seq<char>, NodeView>) {
    let k = normalized(path);
    if is_file(m, k) {
        (Err(FsErr::InvalidPath("mkdir: file exists at "@ + k)), m)
    } else if k == seq!['/'] {
        (Ok(()), if m.contains_key(k) { m } else { m.insert(k, NodeView::Dir) })
    } else {
        let j = first_file_from(m, k, 0);
        if j < parts(k).len() {
            (Err(FsErr::InvalidPath("mkdir: file in the way: "@ + prefix_at(k, j))), with_dirs(m, k, j))
        } else {
            (Ok(()), with_dirs(m, k, j))
        }
    }
}

proof fn lemma_prefix_grows(k: Seq<char>, x: int, i: int)
    requires
        0 <= x < i < parts(k).len(),
    ensures
        prefix_at(k, x).len() < prefix_at(k, i).len(),
    decreases i - x,
{
    let ps = parts(k);
    lemma_slash_join_push(ps.take(i), ps[i]);
    assert(ps.take(i).push(ps[i]) =~= ps.take(i + 1));
    if x < i - 1 {
        lemma_prefix_grows(k, x, i - 1);
    } else {
        assert(ps.take(i) =~= ps.take(x + 1));
    }
}

proof fn lemma_first_file_bound(m: Map<Seq<char>, NodeView>, k: Seq<char>, i: int)
    requires
        0 <= i,
    ensures
        first_file_from(m, k, i) <= parts(k).len(),
    decreases parts(k).len() - i,
{
    if i < parts(k).len() && !is_file(m, prefix_at(k, i)) {
        lemma_first_file_bound(m, k, i + 1);
    }
}

proof fn lemma_first_file(m: Map<Seq<char>, NodeView>, k: Seq<char>, a: int, i: int)
    requires
        0 <= a <= i <= parts(k).len(),
        forall|x: int| a <= x < i ==> !is_file(m, #[trigger] prefix_at(k, x)),
        i == parts(k).len() || is_file(m, prefix_at(k, i)),
    ensures
        first_file_from(m, k, a) == i,
    decreases i - a,
{
    if a < i {
        lemma_first_file(m, k, a + 1, i);
    }
}

/// `Path::parent` of the normalized path `k`: none for the root, `/` for a top-level entry.
pub open spec fn parent_of(k: Seq<char>) -> Option<Seq<char>> {
    if parts(k).len() == 0 {
        None
    } else if parts(k).len() == 1 {
        Some(seq!['/'])
    } else {
        Some(slash_join(parts(k).drop_last()))
    }
}

/// What making the parent directory of `k` does (nothing when it exists or is the root).
pub open spec fn tree_ensure_parent(m: Map<Seq<char>, NodeView>, k: Seq<char>) -> (Result<(), FsErr>, Map<Seq<char>, NodeView>) {
    match parent_of(k) {
        None => (Ok(()), m),
        Some(p) => if p == seq!['/'] {
            (Ok(()), m)
        } else if m.contains_key(normalized(p)) {
            (Ok(()), m)
        } else {
            tree_mkdir(m, normalized(p))
        },
    }
}

/// What `write_file(path, data)` does to the tree `m`.
pub open spec fn tree_write(m: Map<Seq<char>, NodeView>, path: Seq<char>, data: Seq<u8>) -> (Result<(), FsErr>, Map<Seq<char>, NodeView>) {
    let k = normalized(path);
    let (r1, m1) = tree_ensure_parent(m, k);
    if r1 is Err {
        (r1, m1)
    } else if m1.contains_key(k) && m1[k] is Dir {
        (Err(FsErr::IsADirectory(k)), m1)
    } else {
        (Ok(()), m1.insert(k, NodeView::File(data)))
    }
}

/// `key` is `k` or lies below it (every key lies below the root `/`).
pub open spec fn in_subtree(k: Seq<char>, key: Seq<char>) -> bool {
    k == seq!['/'] || key == k || starts_with(key, k + seq!['/'])
}

/// `m` without `k` and everything below it.
pub open spec fn without_subtree(m: Map<Seq<char>, NodeView>, k: Seq<char>) -> Map<Seq<char>, NodeView> {
    Map::new(|key: Seq<char>| m.contains_key(key) && !in_subtree(k, key), |key: Seq<char>| m[key])
}

/// What `remove(path)` does to the tree `m`: the whole subtree goes.
pub open spec fn tree_remove(m: Map<Seq<char>, NodeView>, path: Seq<char>) -> (Result<(), FsErr>, Map<Seq<char>, NodeView>) {
    let k = normalized(path);
    if !m.contains_key(k) {
        (Err(FsErr::NotFound(k)), m)
    } else {
        (Ok(()), without_subtree(m, k))
    }
}

/// The piece of `r` before its first `/` (`r.split('/').next()`).
pub open spec fn first_piece(r: Seq<char>) -> Seq<char> {
    r.take(word_len(r) as int)
}

/// What a child path of `d` starts with: `d/` (just `/` for the root).
pub open spec fn dir_prefix(d: Seq<char>) -> Seq<char> {
    if d == seq!['/'] {
        d
    } else {
        d + seq!['/']
    }
}

/// The name `key` contributes to a listing of `d`: its first segment below `d`.
pub open spec fn child_name_of(d: Seq<char>, key: Seq<char>) -> Option<Seq<char>> {
    let pre = dir_prefix(d);
    let nm = first_piece(key.skip(pre.len() as int));
    if key != d && starts_with(key, pre) && nm.len() > 0 {
        Some(nm)
    } else {
        None
    }
}

/// The names listed for the directory `d` of the tree `m`.
pub open spec fn child_names(m: Map<Seq<char>, NodeView>, d: Seq<char>) -> Set<Seq<char>> {
    Set::new(|nm: Seq<char>| exists|key: Seq<char>| #[trigger] m.contains_key(key) && child_name_of(d, key) == Some(nm))
}

/// `m` has a directory at `d`.
pub open spec fn is_dir(m: Map<Seq<char>, NodeView>, d: Seq<char>) -> bool {
    m.contains_key(d) && m[d] is Dir
}

/// `v` is in strictly increasing (lexicographic) order.
pub open spec fn strictly_sorted(v: Seq<Seq<char>>) -> bool {
    forall|a: int, b: int| 0 <= a < b < v.len() ==> seq_lt(#[trigger] v[a], #[trigger] v[b])
}

/// The texts of a list of strings.
pub open spec fn texts(v: Seq<String>) -> Seq<Seq<char>> {
    v.map_values(|s: String| s@)
}

spec fn char_views(v: Seq<Vec<char>>) -> Seq<Seq<char>> {
    v.map_values(|c: Vec<char>| c@)
}

/// Inserts `x` into the sorted `v` unless it is already there.
fn insert_name(v: &mut Vec<Vec<char>>, x: Vec<char>)
    requires
        strictly_sorted(char_views(old(v)@)),
    ensures
        strictly_sorted(char_views(final(v)@)),
        forall|nm: Seq<char>| char_views(final(v)@).contains(nm) <==> (char_views(old(v)@).contains(nm) || nm == x@),
{
    let ghost v0 = char_views(v@);
    let mut p: usize = 0;
    while p < v.len() && compare_chars(&v[p], &x) == Cmp::Less
        invariant
            p <= v@.len(),
            v0 == char_views(v@),
            forall|a: int| 0 <= a < p ==> seq_lt(#[trigger] v0[a], x@),
        decreases v@.len() - p,
    {
        p = p + 1;
    }
    if p < v.len() {
        if compare_chars(&v[p], &x) == Cmp::Equal {
            assert(v0[p as int] == x@);
            return;
        }
        assert(seq_lt(x@, v0[p as int]));
    }
    let ghost xv = x@;
    v.insert(p, x);
    proof {
        let v1 = char_views(v@);
        assert(v1 =~= v0.insert(p as int, xv));
        v0.insert_ensures(p as int, xv);
        assert forall|a: int, b: int| 0 <= a < b < v1.len() implies seq_lt(#[trigger] v1[a], #[trigger] v1[b]) by {
            if a < p && b == p {
            } else if a < p && b > p {
                assert(v1[b] == v0[b - 1]);
                if b - 1 > p {
                    assert(seq_lt(v0[p as int], v0[b - 1]));
                    lemma_seq_lt_transitive(xv, v0[p as int], v0[b - 1]);
                }
                lemma_seq_lt_transitive(v0[a], xv, v0[b - 1]);
            } else if a == p {
                assert(v1[b] == v0[b - 1]);
                if b - 1 > p {
                    assert(seq_lt(v0[p as int], v0[b - 1]));
                    lemma_seq_lt_transitive(xv, v0[p as int], v0[b - 1]);
                }
            } else if a < p {
                assert(seq_lt(v0[a], v0[b]));
            } else {
                assert(v1[a] == v0[a - 1]);
                assert(v1[b] == v0[b - 1]);
                assert(seq_lt(v0[a - 1], v0[b - 1]));
            }
        }
        assert forall|nm: Seq<char>| v1.contains(nm) <==> (v0.contains(nm) || nm == xv) by {
            if v1.contains(nm) {
                let a = choose|a: int| 0 <= a < v1.len() && v1[a] == nm;
                if a < p {
                    assert(v0[a] == nm);
                } else if a > p {
                    assert(v0[a - 1] == nm);
                }
            }
            if v0.contains(nm) {
                let a = choose|a: int| 0 <= a < v0.len() && v0[a] == nm;
                if a < p {
                    assert(v1[a] == nm);
                } else {
                    assert(v1[a + 1] == nm);
                }
            }
            if nm == xv {
                assert(v1[p as int] == nm);
            }
        }
    }
}

/// In-memory [`GuestFsOps`] for tests (no VM): a table of normalized paths to files and
/// directories.
pub struct MockGuestFsOps {
    nodes: Vec<(Vec<char>, MockNode)>,
}

impl View for MockGuestFsOps {
    type V = Map<Seq<char>, NodeView>;

    closed spec fn view(&self) -> Map<Seq<char>, NodeView> {
        model_of(ents(self.nodes@))
    }
}

impl MockGuestFsOps {
    #[verifier::type_invariant]
    closed spec fn keys_unique(&self) -> bool {
        unique_keys(ents(self.nodes@))
    }

    /// An empty tree.
    pub fn new() -> (r: MockGuestFsOps)
        ensures
            r@ == Map::<Seq<char>, NodeView>::empty(),
    {
        let r = MockGuestFsOps { nodes: Vec::new() };
        assert(r@ =~= Map::<Seq<char>, NodeView>::empty());
        r
    }

    fn norm_key(path: &str) -> (k: Vec<char>)
        ensures
            k@ == normalized(path@),
    {
        match normalize_guest_path(path) {
            Some(s) => chars_of(s.as_str()),
            None => chars_of(path),
        }
    }

    fn do_mkdir(&mut self, path: &str) -> (r: Result<(), GuestFsError>)
        ensures
            tree_mkdir(old(self)@, path@).1 == final(self)@,
            match r {
                Ok(_) => tree_mkdir(old(self)@, path@).0 is Ok,
                Err(e) => tree_mkdir(old(self)@, path@).0 == Err::<(), FsErr>(e@),
            },
    {
        proof {
            use_type_invariant(&*self);
        }
        let ghost m0 = self@;
        let k = Self::norm_key(path);
        if let Some(i) = find_key(&self.nodes, &k) {
            proof {
                lemma_model_at(ents(self.nodes@), i as int);
            }
            if let MockNode::File(_) = &self.nodes[i].1 {
                let mut t = chars_of("mkdir: file exists at ");
                append_chars(&mut t, &k);
                return Err(GuestFsError::InvalidPath(string_of(&t)));
            }
        }
        let mut nodes: Vec<(Vec<char>, MockNode)> = Vec::new();
        std::mem::swap(&mut nodes, &mut self.nodes);
        assert(model_of(ents(nodes@)) == m0);
        if k.len() == 1 && k[0] == '/' {
            assert(k@ =~= seq!['/']);
            match find_key(&nodes, &k) {
                None => {
                    let kk = copy_chars(&k);
                    put(&mut nodes, kk, MockNode::Dir);
                },
                Some(idx) => {
                    proof {
                        lemma_model_at(ents(nodes@), idx as int);
                    }
                },
            }
            self.nodes = nodes;
            return Ok(());
        }
        assert(k@ != seq!['/']);
        let segs = split_parts(&k);
        let ghost ps = parts(k@);
        let ghost n = ps.len() as int;
        let mut cur: Vec<char> = Vec::new();
        let mut i: usize = 0;
        assert(ps.take(0) =~= Seq::<Seq<char>>::empty());
        assert(with_dirs(m0, k@, 0) =~= m0);
        while i < segs.len()
            invariant
                i <= segs@.len() == n,
                ps == parts(k@),
                n == ps.len(),
                k@ == normalized(path@),
                k@ != seq!['/'],
                m0 == old(self)@,
                forall|x: int| 0 <= x < n ==> (#[trigger] segs@[x])@ == ps[x],
                unique_keys(ents(nodes@)),
                model_of(ents(nodes@)) == with_dirs(m0, k@, i as int),
                cur@ == slash_join(ps.take(i as int)),
                forall|x: int| 0 <= x < i ==> !is_file(m0, #[trigger] prefix_at(k@, x)),
                !is_file(m0, k@),
            decreases n - i,
        {
            proof {
                lemma_slash_join_push(ps.take(i as int), ps[i as int]);
                assert(ps.take(i as int).push(ps[i as int]) =~= ps.take(i + 1));
            }
            cur.push('/');
            append_chars(&mut cur, &segs[i]);
            assert(cur@ == prefix_at(k@, i as int));
            let ghost p = cur@;
            let ghost before = model_of(ents(nodes@));
            proof {
                assert forall|x: int| 0 <= x < i implies #[trigger] prefix_at(k@, x) != p by {
                    lemma_prefix_grows(k@, x, i as int);
                }
                assert(before.contains_key(p) == m0.contains_key(p));
                if m0.contains_key(p) {
                    assert(before[p] == m0[p]);
                }
            }
            match find_key(&nodes, &cur) {
                Some(idx) => {
                    proof {
                        lemma_model_at(ents(nodes@), idx as int);
                    }
                    if let MockNode::File(_) = &nodes[idx].1 {
                        proof {
                            lemma_first_file(m0, k@, 0, i as int);
                        }
                        self.nodes = nodes;
                        let mut t = chars_of("mkdir: file in the way: ");
                        append_chars(&mut t, &cur);
                        return Err(GuestFsError::InvalidPath(string_of(&t)));
                    }
                    proof {
                        assert(with_dirs(m0, k@, i + 1) =~= before);
                    }
                },
                None => {
                    let c2 = copy_chars(&cur);
                    put(&mut nodes, c2, MockNode::Dir);
                    proof {
                        assert(with_dirs(m0, k@, i + 1) =~= before.insert(p, NodeView::Dir));
                    }
                },
            }
            i = i + 1;
        }
        proof {
            lemma_first_file(m0, k@, 0, n);
        }
        self.nodes = nodes;
        Ok(())
    }

    fn write_key(&mut self, path: &str, data: &[u8]) -> (r: Result<(), GuestFsError>)
        ensures
            tree_write(old(self)@, path@, data@).1 == final(self)@,
            match r {
                Ok(_) => tree_write(old(self)@, path@, data@).0 is Ok,
                Err(e) => tree_write(old(self)@, path@, data@).0 == Err::<(), FsErr>(e@),
            },
    {
        let ghost m0 = self@;
        let k = Self::norm_key(path);
        let segs = split_parts(&k);
        if segs.len() >= 2 {
            let parent = join_first(&segs, segs.len() - 1, Ghost(parts(k@)));
            let ghost st = parts(k@);
            proof {
                assert(st.take(segs.len() - 1) =~= st.drop_last());
                lemma_parts_shape(k@);
                assert(st[0].len() > 0);
                assert(parent@ == seq!['/'] + st.drop_last()[0] + slash_join(st.drop_last().drop_first()));
                assert(parent@.len() >= 2);
                assert(parent@ != seq!['/']);
                assert(parent_of(k@) == Some(parent@));
            }
            let ps = string_of(&parent);
            let pk = Self::norm_key(ps.as_str());
            proof {
                use_type_invariant(&*self);
            }
            match find_key(&self.nodes, &pk) {
                None => {
                    let pks = string_of(&pk);
                    assert(!m0.contains_key(pk@));
                    assert(tree_ensure_parent(m0, k@) == tree_mkdir(m0, pks@));
                    match self.do_mkdir(pks.as_str()) {
                        Ok(_) => {},
                        Err(e) => return Err(e),
                    }
                },
                Some(idx) => {
                    proof {
                        lemma_model_at(ents(self.nodes@), idx as int);
                    }
                },
            }
        } else {
            assert(parts(k@).len() == segs@.len());
        }
        let ghost m1 = self@;
        assert(tree_ensure_parent(m0, k@) == (Ok::<(), FsErr>(()), m1));
        proof {
            use_type_invariant(&*self);
        }
        if let Some(i) = find_key(&self.nodes, &k) {
            proof {
                lemma_model_at(ents(self.nodes@), i as int);
            }
            if let MockNode::Dir = &self.nodes[i].1 {
                return Err(GuestFsError::IsADirectory(string_of(&k)));
            }
        }
        let mut nodes: Vec<(Vec<char>, MockNode)> = Vec::new();
        std::mem::swap(&mut nodes, &mut self.nodes);
        put(&mut nodes, k, MockNode::File(copy_bytes(data)));
        self.nodes = nodes;
        Ok(())
    }

    fn remove_key(&mut self, path: &str) -> (r: Result<(), GuestFsError>)
        ensures
            tree_remove(old(self)@, path@).1 == final(self)@,
            match r {
                Ok(_) => tree_remove(old(self)@, path@).0 is Ok,
                Err(e) => tree_remove(old(self)@, path@).0 == Err::<(), FsErr>(e@),
            },
    {
        proof {
            use_type_invariant(&*self);
        }
        let ghost m0 = self@;
        let k = Self::norm_key(path);
        match find_key(&self.nodes, &k) {
            None => return Err(GuestFsError::NotFound(string_of(&k))),
            Some(i) => {
                proof {
                    lemma_model_at(ents(self.nodes@), i as int);
                }
            },
        }
        let is_root = k.len() == 1 && k[0] == '/';
        assert(is_root == (k@ == seq!['/'])) by {
            if k@.len() == 1 && k@[0] == '/' {
                assert(k@ =~= seq!['/']);
            }
        }
        let mut ks = copy_chars(&k);
        ks.push('/');
        assert(ks@ =~= k@ + seq!['/']);
        let mut old_nodes: Vec<(Vec<char>, MockNode)> = Vec::new();
        std::mem::swap(&mut old_nodes, &mut self.nodes);
        let ghost e0 = ents(old_nodes@);
        assert(model_of(e0) == m0);
        let mut kept: Vec<(Vec<char>, MockNode)> = Vec::new();
        let ghost mut idx: Seq<int> = Seq::empty();
        let mut i: usize = 0;
        while i < old_nodes.len()
            invariant
                i <= old_nodes@.len(),
                e0 == ents(old_nodes@),
                unique_keys(e0),
                ks@ == k@ + seq!['/'],
                is_root == (k@ == seq!['/']),
                kept@.len() == idx.len(),
                forall|a: int| 0 <= a < idx.len() ==> 0 <= #[trigger] idx[a] < i && ents(kept@)[a] == e0[idx[a]],
                forall|a: int, b: int| 0 <= a < b < idx.len() ==> #[trigger] idx[a] < #[trigger] idx[b],
                forall|a: int| 0 <= a < idx.len() ==> !in_subtree(k@, (#[trigger] ents(kept@)[a]).0),
                forall|j: int| 0 <= j < i && !in_subtree(k@, (#[trigger] e0[j]).0) ==> exists|a: int| 0 <= a < idx.len() && idx[a] == j,
            decreases old_nodes@.len() - i,
        {
            let drop = is_root || seq_eq(&old_nodes[i].0, &k) || starts_with_chars(&old_nodes[i].0, &ks);
            assert(drop == in_subtree(k@, e0[i as int].0));
            if !drop {
                let key = copy_chars(&old_nodes[i].0);
                let node = match &old_nodes[i].1 {
                    MockNode::File(b) => MockNode::File(copy_bytes(b.as_slice())),
                    MockNode::Dir => MockNode::Dir,
                };
                let ghost before = ents(kept@);
                let ghost idx0 = idx;
                kept.push((key, node));
                proof {
                    assert(ents(kept@) =~= before.push(e0[i as int]));
                    idx = idx.push(i as int);
                    assert forall|a: int| 0 <= a < idx0.len() implies idx[a] == idx0[a] by {}
                    assert forall|j: int| 0 <= j < i + 1 && !in_subtree(k@, (#[trigger] e0[j]).0) implies exists|a: int| 0 <= a < idx.len() && idx[a] == j by {
                        if j == i {
                            assert(idx[idx.len() - 1] == j);
                        } else {
                            let a = choose|a: int| 0 <= a < idx0.len() && idx0[a] == j;
                            assert(idx[a] == j);
                        }
                    }
                }
            }
            i = i + 1;
        }
        proof {
            let e1 = ents(kept@);
            assert forall|a: int, b: int| 0 <= a < b < e1.len() implies (#[trigger] e1[a]).0 != (#[trigger] e1[b]).0 by {
                assert(idx[a] < idx[b]);
            }
            let m1 = model_of(e1);
            let m2 = tree_remove(m0, path@).1;
            assert forall|key: Seq<char>| m1.contains_key(key) <==> m2.contains_key(key) by {
                if m1.contains_key(key) {
                    let a = choose|a: int| 0 <= a < e1.len() && (#[trigger] e1[a]).0 == key;
                    assert(e0[idx[a]].0 == key);
                    assert(has_key(e0, key));
                }
                if m2.contains_key(key) {
                    let j = choose|j: int| 0 <= j < e0.len() && (#[trigger] e0[j]).0 == key;
                    let a = choose|a: int| 0 <= a < idx.len() && idx[a] == j;
                    assert(e1[a].0 == key);
                }
            }
            assert forall|key: Seq<char>| #[trigger] m1.contains_key(key) implies m1[key] == m2[key] by {
                let a = choose|a: int| 0 <= a < e1.len() && (#[trigger] e1[a]).0 == key;
                lemma_model_at(e1, a);
                lemma_model_at(e0, idx[a]);
            }
            assert(m1 =~= m2);
        }
        self.nodes = kept;
        Ok(())
    }

    fn list_key(&self, path: &str) -> (r: Result<Vec<String>, GuestFsError>)
        ensures
            match r {
                Ok(v) => {
                    &&& is_dir(self@, normalized(path@))
                    &&& strictly_sorted(texts(v@))
                    &&& forall|nm: Seq<char>| texts(v@).contains(nm) <==> child_names(self@, normalized(path@)).contains(nm)
                },
                Err(e) => !is_dir(self@, normalized(path@)) && e@ == FsErr::NotADirectory(normalized(path@)),
            },
    {
        proof {
            use_type_invariant(self);
        }
        let ghost m = self@;
        let ghost e = ents(self.nodes@);
        let d = Self::norm_key(path);
        match find_key(&self.nodes, &d) {
            Some(i) => {
                proof {
                    lemma_model_at(e, i as int);
                }
                if let MockNode::File(_) = &self.nodes[i].1 {
                    return Err(GuestFsError::NotADirectory(string_of(&d)));
                }
            },
            None => return Err(GuestFsError::NotADirectory(string_of(&d))),
        }
        let mut prefix = copy_chars(&d);
        if !(d.len() == 1 && d[0] == '/') {
            prefix.push('/');
            assert(prefix@ =~= d@ + seq!['/']);
        } else {
            assert(d@ =~= seq!['/']);
        }
        assert(prefix@ == dir_prefix(d@));
        let mut names: Vec<Vec<char>> = Vec::new();
        let mut i: usize = 0;
        while i < self.nodes.len()
            invariant
                i <= self.nodes@.len(),
                e == ents(self.nodes@),
                prefix@ == dir_prefix(d@),
                strictly_sorted(char_views(names@)),
                forall|nm: Seq<char>| char_views(names@).contains(nm) <==> exists|j: int| 0 <= j < i && child_name_of(d@, (#[trigger] e[j]).0) == Some(nm),
            decreases self.nodes@.len() - i,
        {
            let key = &self.nodes[i].0;
            assert(key@ == e[i as int].0);
            let ghost cn = child_name_of(d@, key@);
            if !seq_eq(key, &d) && starts_with_chars(key, &prefix) {
                let rest = crate::text::copy_range(key, prefix.len(), key.len());
                let mut w: usize = 0;
                while w < rest.len() && rest[w] != '/'
                    invariant
                        w <= rest@.len(),
                        forall|x: int| 0 <= x < w ==> rest@[x] != '/',
                    decreases rest@.len() - w,
                {
                    w = w + 1;
                }
                proof {
                    lemma_word_len_at(rest@, 0, w as int);
                    assert(rest@.skip(0) =~= rest@);
                    assert(rest@ =~= key@.skip(prefix@.len() as int));
                }
                let piece = crate::text::copy_range(&rest, 0, w);
                assert(piece@ =~= first_piece(rest@));
                if piece.len() > 0 {
                    let ghost before = char_views(names@);
                    insert_name(&mut names, piece);
                    proof {
                        assert(cn == Some(first_piece(rest@)));
                        assert forall|nm: Seq<char>| char_views(names@).contains(nm) <==> exists|j: int| 0 <= j < i + 1 && child_name_of(d@, (#[trigger] e[j]).0) == Some(nm) by {
                            if nm == first_piece(rest@) {
                                assert(child_name_of(d@, e[i as int].0) == Some(nm));
                            }
                            if exists|j: int| 0 <= j < i + 1 && child_name_of(d@, (#[trigger] e[j]).0) == Some(nm) {
                                let j = choose|j: int| 0 <= j < i + 1 && child_name_of(d@, (#[trigger] e[j]).0) == Some(nm);
                                if j < i {
                                    assert(before.contains(nm));
                                }
                            }
                        }
                    }
                } else {
                    proof {
                        assert(cn is None);
                        assert forall|nm: Seq<char>| char_views(names@).contains(nm) <==> exists|j: int| 0 <= j < i + 1 && child_name_of(d@, (#[trigger] e[j]).0) == Some(nm) by {
                            if exists|j: int| 0 <= j < i + 1 && child_name_of(d@, (#[trigger] e[j]).0) == Some(nm) {
                                let j = choose|j: int| 0 <= j < i + 1 && child_name_of(d@, (#[trigger] e[j]).0) == Some(nm);
                                assert(j < i);
                            }
                        }
                    }
                }
            } else {
                proof {
                    assert(cn is None);
                    assert forall|nm: Seq<char>| char_views(names@).contains(nm) <==> exists|j: int| 0 <= j < i + 1 && child_name_of(d@, (#[trigger] e[j]).0) == Some(nm) by {
                        if exists|j: int| 0 <= j < i + 1 && child_name_of(d@, (#[trigger] e[j]).0) == Some(nm) {
                            let j = choose|j: int| 0 <= j < i + 1 && child_name_of(d@, (#[trigger] e[j]).0) == Some(nm);
                            assert(j < i);
                        }
                    }
                }
            }
            i = i + 1;
        }
        let mut out: Vec<String> = Vec::new();
        let mut k: usize = 0;
        while k < names.len()
            invariant
                k <= names@.len(),
                texts(out@) == char_views(names@).take(k as int),
            decreases names@.len() - k,
        {
            let ghost o0 = out@;
            let sk = string_of(&names[k]);
            out.push(sk);
            assert(out@ =~= o0.push(sk));
            assert(texts(out@) =~= texts(o0).push(names@[k as int]@));
            k = k + 1;
            assert(texts(out@) =~= char_views(names@).take(k as int));
        }
        proof {
            assert(char_views(names@).take(k as int) =~= char_views(names@));
            assert forall|nm: Seq<char>| child_names(m, d@).contains(nm) <==> exists|j: int| 0 <= j < e.len() && child_name_of(d@, (#[trigger] e[j]).0) == Some(nm) by {
                if child_names(m, d@).contains(nm) {
                    let key = choose|key: Seq<char>| #[trigger] m.contains_key(key) && child_name_of(d@, key) == Some(nm);
                    let j = choose|j: int| 0 <= j < e.len() && (#[trigger] e[j]).0 == key;
                    assert(child_name_of(d@, e[j].0) == Some(nm));
                }
                if exists|j: int| 0 <= j < e.len() && child_name_of(d@, (#[trigger] e[j]).0) == Some(nm) {
                    let j = choose|j: int| 0 <= j < e.len() && child_name_of(d@, (#[trigger] e[j]).0) == Some(nm);
                    lemma_model_at(e, j);
                    assert(m.contains_key(e[j].0));
                }
            }
        }
        Ok(out)
    }

    fn read_key(&self, path: &str) -> (r: Result<Vec<u8>, GuestFsError>)
        ensures
            match r {
                Ok(b) => tree_read(self@, path@) == Ok::<Seq<u8>, FsErr>(b@),
                Err(e) => tree_read(self@, path@) == Err::<Seq<u8>, FsErr>(e@),
            },
    {
        proof {
            use_type_invariant(self);
        }
        let k = Self::norm_key(path);
        match find_key(&self.nodes, &k) {
            Some(i) => {
                proof {
                    lemma_model_at(ents(self.nodes@), i as int);
                }
                match &self.nodes[i].1 {
                    MockNode::File(b) => Ok(copy_bytes(b.as_slice())),
                    MockNode::Dir => Err(GuestFsError::IsADirectory(string_of(&k))),
                }
            },
            None => Err(GuestFsError::NotFound(string_of(&k))),
        }
    }
}

impl GuestFsOps for MockGuestFsOps {
    open spec fn modelled(&self) -> bool {
        true
    }

    open spec fn tree(&self) -> Map<Seq<char>, NodeView> {
        self@
    }

    /// Sorted names directly below the directory; `NotADirectory` unless it is one.
    fn list_dir(&mut self, guest_path: &str) -> (r: Result<Vec<String>, GuestFsError>)
        ensures
            final(self)@ == old(self)@,
            match r {
                Ok(v) => {
                    &&& is_dir(old(self)@, normalized(guest_path@))
                    &&& strictly_sorted(texts(v@))
                    &&& forall|nm: Seq<char>| texts(v@).contains(nm) <==> child_names(old(self)@, normalized(guest_path@)).contains(nm)
                },
                Err(e) => !is_dir(old(self)@, normalized(guest_path@)) && e@ == FsErr::NotADirectory(normalized(guest_path@)),
            },
    {
        self.list_key(guest_path)
    }

    /// The file's bytes; `IsADirectory` or `NotFound` otherwise.
    fn read_file(&mut self, guest_path: &str) -> (r: Result<Vec<u8>, GuestFsError>)
        ensures
            final(self)@ == old(self)@,
            match r {
                Ok(b) => tree_read(old(self)@, guest_path@) == Ok::<Seq<u8>, FsErr>(b@),
                Err(e) => tree_read(old(self)@, guest_path@) == Err::<Seq<u8>, FsErr>(e@),
            },
    {
        self.read_key(guest_path)
    }

    /// Makes the parent directory if missing, then stores the file (`IsADirectory` over a
    /// directory).
    fn write_file(&mut self, guest_path: &str, data: &[u8]) -> (r: Result<(), GuestFsError>)
        ensures
            tree_write(old(self)@, guest_path@, data@).1 == final(self)@,
            match r {
                Ok(_) => tree_write(old(self)@, guest_path@, data@).0 is Ok,
                Err(e) => tree_write(old(self)@, guest_path@, data@).0 == Err::<(), FsErr>(e@),
            },
    {
        self.write_key(guest_path, data)
    }

    /// `mkdir -p`: every missing ancestor-or-self becomes a directory; a file in the way stops it.
    fn mkdir(&mut self, guest_path: &str) -> (r: Result<(), GuestFsError>)
        ensures
            tree_mkdir(old(self)@, guest_path@).1 == final(self)@,
            match r {
                Ok(_) => tree_mkdir(old(self)@, guest_path@).0 is Ok,
                Err(e) => tree_mkdir(old(self)@, guest_path@).0 == Err::<(), FsErr>(e@),
            },
    {
        self.do_mkdir(guest_path)
    }

    /// Removes the entry and everything below it; `NotFound` when there is no entry.
    fn remove(&mut self, guest_path: &str) -> (r: Result<(), GuestFsError>)
        ensures
            tree_remove(old(self)@, guest_path@).1 == final(self)@,
            match r {
                Ok(_) => tree_remove(old(self)@, guest_path@).0 is Ok,
                Err(e) => tree_remove(old(self)@, guest_path@).0 == Err::<(), FsErr>(e@),
            },
    {
        self.remove_key(guest_path)
    }
}

/// A file that was written is read back with the bytes written.
pub proof fn lemma_read_after_write(m: Map<Seq<char>, NodeView>, path: Seq<char>, data: Seq<u8>)
    requires
        tree_write(m, path, data).0 is Ok,
    ensures
        tree_read(tree_write(m, path, data).1, path) == Ok::<Seq<u8>, FsErr>(data),
{
}

/// A successful remove leaves everything at or below the path reading as not found (every path
/// when it is the root) and every other path reading as before.
pub proof fn lemma_remove_subtree(m: Map<Seq<char>, NodeView>, path: Seq<char>, q: Seq<char>)
    requires
        tree_remove(m, path).0 is Ok,
    ensures
        in_subtree(normalized(path), normalized(q)) ==> tree_read(tree_remove(m, path).1, q)
            == Err::<Seq<u8>, FsErr>(FsErr::NotFound(normalized(q))),
        !in_subtree(normalized(path), normalized(q)) ==> tree_read(tree_remove(m, path).1, q)
            == tree_read(m, q),
{
}

/// After a successful remove the path reads as not found.
pub proof fn lemma_read_after_remove(m: Map<Seq<char>, NodeView>, path: Seq<char>)
    requires
        tree_remove(m, path).0 is Ok,
    ensures
        tree_read(tree_remove(m, path).1, path) == Err::<Seq<u8>, FsErr>(FsErr::NotFound(normalized(path))),
{
}

/// After a successful `mkdir` the path is a directory.
pub proof fn lemma_mkdir_makes_dir(m: Map<Seq<char>, NodeView>, path: Seq<char>)
    requires
        tree_mkdir(m, path).0 is Ok,
    ensures
        is_dir(tree_mkdir(m, path).1, normalized(path)),
{
    let k = normalized(path);
    if k != seq!['/'] {
        let st = normal_segments(path);
        lemma_parts_shape(trim(path));
        lemma_norm_stack_good(Seq::empty(), parts(trim(path)));
        assert(st.len() > 0);
        lemma_parts_of_join(st);
        assert(parts(k) == st);
        assert(st.take(st.len() as int) =~= st);
        assert(prefix_at(k, st.len() - 1) == k);
        let m1 = tree_mkdir(m, path).1;
        lemma_first_file_bound(m, k, 0);
        assert(m1 == with_dirs(m, k, st.len() as int));
        assert(m1.contains_key(k));
    }
}

} // verus!
