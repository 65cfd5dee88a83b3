//! Heuristic checks for the Lima γ setup: light `lima.yaml` text checks, guest probe output,
//! shell quoting and the location of `lima.yaml`.

use vstd::prelude::*;

use super::config::{falsy, is_falsy, opt_view};
use super::guest_path::{parts, split_parts};
use crate::text::{
    chars_of, contains_chars, contains_seq, find_first, is_ws, is_ws_char, occurs_at, seq_eq,
    seq_eq_str, string_of, strip_both, strip_end, strip_start, strip_tail, trim, trim_str,
};

verus! {

/// The value text after `mountPoint:` in a trimmed line `t` (first occurrence), without
/// surrounding whitespace, one layer of `"` and `'` quotes, and trailing `/`.
pub open spec fn mount_value(t: Seq<char>, p: int) -> Seq<char> {
    let rest = trim(t.skip(p + 11));
    let a = strip_end(strip_start(rest, Some('"')), Some('"'));
    let b = strip_end(strip_start(a, Some('\'')), Some('\''));
    strip_end(b, Some('/'))
}

/// The trimmed line `t` has a `mountPoint:` entry whose value is `gm`.
pub open spec fn line_mounts(t: Seq<char>, gm: Seq<char>) -> bool {
    exists|p: int|
        #![trigger occurs_at(t, "mountPoint:"@, p)]
        occurs_at(t, "mountPoint:"@, p) && (forall|q: int| 0 <= q < p ==> !occurs_at(t, "mountPoint:"@, q))
            && mount_value(t, p) == gm
}

/// `content[i..j]` is a line: it starts the text or follows a `\n`, and runs to the next `\n`
/// or the end.
pub open spec fn is_line(content: Seq<char>, i: int, j: int) -> bool {
    &&& 0 <= i <= j <= content.len()
    &&& i == 0 || content[i - 1] == '\n'
    &&& j == content.len() || content[j] == '\n'
    &&& forall|k: int| i <= k < j ==> content[k] != '\n'
}

/// `yaml_has_mount_point`: some line (trimmed) has a `mountPoint:` entry for the guest mount
/// (trailing `/` ignored on both sides).
pub open spec fn has_mount_point(content: Seq<char>, guest_mount: Seq<char>) -> bool {
    exists|i: int, j: int|
        #[trigger] is_line(content, i, j) && line_mounts(
            trim(content.subrange(i, j)),
            strip_end(guest_mount, Some('/')),
        )
}

fn mount_value_of(t: &Vec<char>, p: usize) -> (r: Vec<char>)
    requires
        p + 11 <= t.len(),
    ensures
        r@ == mount_value(t@, p as int),
{
    let rest0 = crate::text::copy_range(t, p + 11, t.len());
    assert(rest0@ =~= t@.skip(p + 11));
    let rest = strip_both(&rest0, None);
    let a = strip_both(&rest, Some('"'));
    let b = strip_both(&a, Some('\''));
    strip_tail(&b, Some('/'))
}

/// Whether the trimmed line `t` mounts `gm`.
fn line_mounts_exec(t: &Vec<char>, gm: &Vec<char>) -> (r: bool)
    ensures
        r == line_mounts(t@, gm@),
{
    let needle = chars_of("mountPoint:");
    proof {
        reveal_strlit("mountPoint:");
    }
    match find_first(t, &needle) {
        None => {
            assert(!contains_seq(t@, "mountPoint:"@));
            false
        },
        Some(p) => {
            assert(needle@.len() == 11);
            let v = mount_value_of(t, p);
            let r = seq_eq(&v, gm);
            proof {
                if line_mounts(t@, gm@) {
                    let p2 = choose|p2: int|
                        #![trigger occurs_at(t@, "mountPoint:"@, p2)]
                        occurs_at(t@, "mountPoint:"@, p2) && (forall|q: int| 0 <= q < p2 ==> !occurs_at(t@, "mountPoint:"@, q))
                            && mount_value(t@, p2) == gm@;
                    if p2 < p {
                    } else if p2 > p {
                        assert(!occurs_at(t@, "mountPoint:"@, p as int));
                    }
                }
            }
            r
        },
    }
}

/// True if `lima.yaml` text contains a `mountPoint:` line for `guest_mount`.
pub fn yaml_has_mount_point(content: &str, guest_mount: &str) -> (r: bool)
    ensures
        r == has_mount_point(content@, guest_mount@),
{
    let c = chars_of(content);
    let gm = strip_tail(&chars_of(guest_mount), Some('/'));
    let n = c.len();
    let mut start: usize = 0;
    loop
        invariant
            c@ == content@,
            n == c@.len(),
            start <= n,
            start == 0 || c@[start - 1] == '\n',
            gm@ == strip_end(guest_mount@, Some('/')),
            forall|i: int, j: int| #[trigger] is_line(c@, i, j) && i < start ==> !line_mounts(trim(c@.subrange(i, j)), gm@),
        decreases n - start,
    {
        let mut j = start;
        while j < n && c[j] != '\n'
            invariant
                start <= j <= n == c@.len(),
                forall|k: int| start <= k < j ==> c@[k] != '\n',
            decreases n - j,
        {
            j = j + 1;
        }
        assert(is_line(c@, start as int, j as int));
        let line = crate::text::copy_range(&c, start, j);
        let t = strip_both(&line, None);
        if line_mounts_exec(&t, &gm) {
            return true;
        }
        proof {
            assert forall|i: int, k: int| #[trigger] is_line(c@, i, k) && i < j + 1 implies !line_mounts(trim(c@.subrange(i, k)), gm@) by {
                if i >= start {
                    if i > start {
                        assert(c@[i - 1] == '\n');
                    }
                    assert(i == start);
                    if k < j {
                        assert(c@[k] == '\n');
                    }
                    if k > j {
                        assert(c@[j as int] == '\n');
                    }
                }
            }
        }
        if j == n {
            return false;
        }
        start = j + 1;
    }
}

/// The yaml mentions both host toolchain mounts (`host-rustup` and `host-cargo`).
pub fn yaml_mentions_host_toolchain_mounts(content: &str) -> (r: bool)
    ensures
        r == (contains_seq(content@, "host-rustup"@) && contains_seq(content@, "host-cargo"@)),
{
    let c = chars_of(content);
    contains_chars(&c, &chars_of("host-rustup")) && contains_chars(&c, &chars_of("host-cargo"))
}

/// The yaml sets `RUSTUP_HOME:` and `CARGO_HOME:`.
pub fn yaml_has_rust_env(content: &str) -> (r: bool)
    ensures
        r == (contains_seq(content@, "RUSTUP_HOME:"@) && contains_seq(content@, "CARGO_HOME:"@)),
{
    let c = chars_of(content);
    contains_chars(&c, &chars_of("RUSTUP_HOME:")) && contains_chars(&c, &chars_of("CARGO_HOME:"))
}

/// `Path::file_name` of a Unix path: its last component unless that is `..`; `.` components
/// do not count.
pub open spec fn file_name(p: Seq<char>) -> Option<Seq<char>> {
    let q = parts(p).filter(|s: Seq<char>| s != seq!['.']);
    if q.len() == 0 || q.last() == seq!['.', '.'] {
        None
    } else {
        Some(q.last())
    }
}

/// The yaml mentions the workspace staging path: `vm-workspace`, the staging directory's name
/// or its full path.
pub open spec fn mentions_staging(content: Seq<char>, workspace_parent: Seq<char>) -> bool {
    contains_seq(content, "vm-workspace"@) || (file_name(workspace_parent) matches Some(n)
        && contains_seq(content, n)) || contains_seq(content, workspace_parent)
}

/// Heuristic: the yaml mentions the devshell workspace staging path.
pub fn yaml_mentions_workspace_staging(content: &str, workspace_parent: &str) -> (r: bool)
    ensures
        r == mentions_staging(content@, workspace_parent@),
{
    let c = chars_of(content);
    if contains_chars(&c, &chars_of("vm-workspace")) {
        return true;
    }
    let segs = split_parts(&chars_of(workspace_parent));
    let ghost ps = parts(workspace_parent@);
    let ghost pred = |s: Seq<char>| s != seq!['.'];
    let mut last: Option<usize> = None;
    let mut i: usize = 0;
    while i < segs.len()
        invariant
            i <= segs@.len() == ps.len(),
            ps == parts(workspace_parent@),
            pred == (|s: Seq<char>| s != seq!['.']),
            forall|x: int| 0 <= x < ps.len() ==> (#[trigger] segs@[x])@ == ps[x],
            match last {
                None => ps.take(i as int).filter(pred).len() == 0,
                Some(l) => l < i && ps.take(i as int).filter(pred).len() > 0 && ps.take(i as int).filter(pred).last() == ps[l as int],
            },
        decreases segs@.len() - i,
    {
        proof {
            reveal(Seq::filter);
            assert(ps.take(i + 1).drop_last() =~= ps.take(i as int));
            assert(ps.take(i + 1).last() == ps[i as int]);
        }
        if !(segs[i].len() == 1 && segs[i][0] == '.') {
            assert(segs@[i as int]@ != seq!['.']);
            last = Some(i);
        } else {
            assert(segs@[i as int]@ =~= seq!['.']);
        }
        i = i + 1;
    }
    assert(ps.take(i as int) =~= ps);
    if let Some(l) = last {
        let name = &segs[l];
        if !(name.len() == 2 && name[0] == '.' && name[1] == '.') {
            assert(name@ != seq!['.', '.']);
            if contains_chars(&c, name) {
                return true;
            }
        } else {
            assert(name@ =~= seq!['.', '.']);
        }
    }
    contains_chars(&c, &chars_of(workspace_parent))
}

/// The guest probe result: workspace mount, project directory, `cargo` on `PATH`.
#[derive(Debug, Clone, Copy, PartialEq, Eq, Structural)]
pub struct GuestProbe {
    pub guest_mount_exists: bool,
    pub project_dir_exists: bool,
    pub cargo_in_path: bool,
}

/// Number of leading non-whitespace characters of `s`.
pub open spec fn token_len(s: Seq<char>) -> nat
    decreases s.len(),
{
    if s.len() == 0 || is_ws(s[0]) {
        0
    } else {
        1 + token_len(s.drop_first())
    }
}

pub proof fn lemma_token_len_bound(s: Seq<char>)
    ensures
        token_len(s) <= s.len(),
        s.len() > 0 && !is_ws(s[0]) ==> token_len(s) >= 1,
    decreases s.len(),
{
    if s.len() > 0 && !is_ws(s[0]) {
        lemma_token_len_bound(s.drop_first());
    }
}

/// `str::split_whitespace`: the maximal runs of non-whitespace characters.
pub open spec fn ws_tokens(s: Seq<char>) -> Seq<Seq<char>>
    decreases s.len(),
{
    if s.len() == 0 {
        Seq::empty()
    } else if is_ws(s[0]) {
        ws_tokens(s.drop_first())
    } else {
        proof {
            lemma_token_len_bound(s);
        }
        seq![s.take(token_len(s) as int)] + ws_tokens(s.skip(token_len(s) as int))
    }
}

proof fn lemma_token_len_at(s: Seq<char>, i: int, j: int)
    requires
        0 <= i <= j <= s.len(),
        forall|k: int| i <= k < j ==> !is_ws(s[k]),
        j == s.len() || is_ws(s[j]),
    ensures
        token_len(s.skip(i)) == j - i,
    decreases j - i,
{
    if i < j {
        lemma_token_len_at(s, i + 1, j);
        assert(s.skip(i).drop_first() =~= s.skip(i + 1));
    } else {
        assert(s.skip(i).len() == 0 || is_ws(s.skip(i)[0]));
    }
}

/// The probe reading of a script's output `w p c`: each flag is set when its token is `1`;
/// fewer than three tokens give nothing.
pub open spec fn probe_of(out: Seq<char>) -> Option<GuestProbe> {
    let ts = ws_tokens(out);
    if ts.len() < 3 {
        None
    } else {
        Some(
            GuestProbe {
                guest_mount_exists: ts[0] == "1"@,
                project_dir_exists: ts[1] == "1"@,
                cargo_in_path: ts[2] == "1"@,
            },
        )
    }
}

/// Reads the probe script's output (`"w p c"`, each `0` or `1`).
pub fn parse_probe_output(out: &str) -> (r: Option<GuestProbe>)
    ensures
        r == probe_of(out@),
{
    let v = chars_of(out);
    let ghost vs = v@;
    let mut toks: Vec<Vec<char>> = Vec::new();
    let ghost mut model: Seq<Seq<char>> = Seq::empty();
    let mut i: usize = 0;
    assert(vs.skip(0) =~= vs);
    assert(Seq::<Seq<char>>::empty() + ws_tokens(vs) =~= ws_tokens(vs));
    while i < v.len()
        invariant
            i <= vs.len(),
            vs == v@,
            toks@.len() == model.len(),
            forall|k: int| 0 <= k < model.len() ==> (#[trigger] toks@[k])@ == model[k],
            ws_tokens(vs) == model + ws_tokens(vs.skip(i as int)),
        decreases vs.len() - i,
    {
        if is_ws_char(v[i]) {
            assert(vs.skip(i as int).drop_first() =~= vs.skip(i + 1));
            i = i + 1;
        } else {
            let mut j = i;
            while j < v.len() && !is_ws_char(v[j])
                invariant
                    i <= j <= vs.len(),
                    vs == v@,
                    forall|k: int| i <= k < j ==> !is_ws(vs[k]),
                decreases vs.len() - j,
            {
                j = j + 1;
            }
            proof {
                lemma_token_len_at(vs, i as int, j as int);
                let s = vs.skip(i as int);
                assert(s.take(j - i) =~= vs.subrange(i as int, j as int));
                assert(s.skip(j - i) =~= vs.skip(j as int));
                assert(ws_tokens(s) == seq![vs.subrange(i as int, j as int)] + ws_tokens(vs.skip(j as int)));
            }
            let w = crate::text::copy_range(&v, i, j);
            let ghost wv = w@;
            toks.push(w);
            proof {
                assert(model + ws_tokens(vs.skip(i as int)) =~= model.push(wv) + ws_tokens(vs.skip(j as int)));
                model = model.push(wv);
            }
            i = j;
        }
    }
    assert(vs.skip(i as int).len() == 0);
    assert(model + ws_tokens(vs.skip(i as int)) =~= model);
    if toks.len() < 3 {
        return None;
    }
    Some(GuestProbe {
        guest_mount_exists: seq_eq_str(&toks[0], "1"),
        project_dir_exists: seq_eq_str(&toks[1], "1"),
        cargo_in_path: seq_eq_str(&toks[2], "1"),
    })
}

/// A character of the shell-safe set: ASCII alphanumeric or one of `/._-+:@`.
pub open spec fn sh_safe(c: char) -> bool {
    ('a' <= c <= 'z') || ('A' <= c <= 'Z') || ('0' <= c <= '9') || c == '/' || c == '.' || c == '_'
        || c == '-' || c == '+' || c == ':' || c == '@'
}

/// `s` with each `'` replaced by `rep`.
pub open spec fn replace_quote(s: Seq<char>, rep: Seq<char>) -> Seq<char>
    decreases s.len(),
{
    if s.len() == 0 {
        Seq::empty()
    } else {
        replace_quote(s.drop_last(), rep) + (if s.last() == '\'' {
            rep
        } else {
            seq![s.last()]
        })
    }
}

/// `'` + `s` with each `'` replaced by `rep` + `'`.
fn single_quoted(s: &Vec<char>, rep: &Vec<char>) -> (r: String)
    ensures
        r@ == seq!['\''] + replace_quote(s@, rep@) + seq!['\''],
{
    let mut out: Vec<char> = Vec::new();
    out.push('\'');
    let mut i: usize = 0;
    assert(s@.take(0) =~= Seq::<char>::empty());
    assert(out@ =~= seq!['\''] + replace_quote(s@.take(0), rep@));
    while i < s.len()
        invariant
            i <= s@.len(),
            out@ == seq!['\''] + replace_quote(s@.take(i as int), rep@),
        decreases s@.len() - i,
    {
        let ghost o0 = out@;
        assert(s@.take(i + 1).drop_last() =~= s@.take(i as int));
        assert(s@.take(i + 1).last() == s@[i as int]);
        if s[i] == '\'' {
            let mut k: usize = 0;
            while k < rep.len()
                invariant
                    k <= rep@.len(),
                    out@ == o0 + rep@.take(k as int),
                decreases rep@.len() - k,
            {
                out.push(rep[k]);
                k = k + 1;
                assert(out@ =~= o0 + rep@.take(k as int));
            }
            assert(rep@.take(k as int) =~= rep@);
        } else {
            out.push(s[i]);
        }
        i = i + 1;
        assert(out@ =~= seq!['\''] + replace_quote(s@.take(i as int), rep@));
    }
    assert(s@.take(i as int) =~= s@);
    out.push('\'');
    string_of(&out)
}

/// `sh_word`: `None` for an empty path; the path itself when every character is shell-safe;
/// otherwise single-quoted with each `'` written `'\''`.
pub open spec fn sh_word_spec(path: Seq<char>) -> Option<Seq<char>> {
    if path.len() == 0 {
        None
    } else if forall|i: int| 0 <= i < path.len() ==> sh_safe(#[trigger] path[i]) {
        Some(path)
    } else {
        Some(seq!['\''] + replace_quote(path, seq!['\'', '\\', '\'', '\'']) + seq!['\''])
    }
}

/// Shell-embed a path: the safe subset unquoted, anything else single-quoted with escapes.
pub fn sh_word(path: &str) -> (r: Option<String>)
    ensures
        match r {
            Some(s) => sh_word_spec(path@) == Some(s@),
            None => sh_word_spec(path@) is None,
        },
{
    let v = chars_of(path);
    if v.len() == 0 {
        return None;
    }
    let mut i: usize = 0;
    while i < v.len()
        invariant
            i <= v@.len(),
            v@ == path@,
            forall|k: int| 0 <= k < i ==> sh_safe(#[trigger] v@[k]),
        decreases v@.len() - i,
    {
        let c = v[i];
        let ok = ('a' <= c && c <= 'z') || ('A' <= c && c <= 'Z') || ('0' <= c && c <= '9') || c
            == '/' || c == '.' || c == '_' || c == '-' || c == '+' || c == ':' || c == '@';
        if !ok {
            assert(!sh_safe(v@[i as int]));
            assert(v@[i as int] == path@[i as int]);
            assert(!sh_safe(path@[i as int]));
            let mut rep: Vec<char> = Vec::new();
            rep.push('\'');
            rep.push('\\');
            rep.push('\'');
            rep.push('\'');
            assert(rep@ =~= seq!['\'', '\\', '\'', '\'']);
            return Some(single_quoted(&v, &rep));
        }
        i = i + 1;
    }
    Some(string_of(&v))
}

/// Single-quoted POSIX shell word: `'` + the text with each `'` written `'"'"'` + `'`.
pub fn bash_single_quoted(s: &str) -> (r: String)
    ensures
        r@ == seq!['\''] + replace_quote(s@, seq!['\'', '"', '\'', '"', '\'']) + seq!['\''],
{
    let mut rep: Vec<char> = Vec::new();
    rep.push('\'');
    rep.push('"');
    rep.push('\'');
    rep.push('"');
    rep.push('\'');
    assert(rep@ =~= seq!['\'', '"', '\'', '"', '\'']);
    single_quoted(&chars_of(s), &rep)
}

/// `PathBuf::join` on Unix path text: an absolute `p` replaces `base`; otherwise `p` follows
/// `base` with one `/` between them (none after an empty base or one ending in `/`).
pub open spec fn path_join(base: Seq<char>, p: Seq<char>) -> Seq<char> {
    if p.len() > 0 && p[0] == '/' {
        p
    } else if base.len() == 0 || base.last() == '/' {
        base + p
    } else {
        base + seq!['/'] + p
    }
}

fn join_path(base: &Vec<char>, p: &Vec<char>) -> (r: Vec<char>)
    ensures
        r@ == path_join(base@, p@),
{
    if p.len() > 0 && p[0] == '/' {
        return crate::text::copy_range(p, 0, p.len());
    }
    let mut out = crate::text::copy_range(base, 0, base.len());
    if !(base.len() == 0 || base[base.len() - 1] == '/') {
        out.push('/');
    }
    let mut i: usize = 0;
    let ghost o0 = out@;
    while i < p.len()
        invariant
            i <= p@.len(),
            out@ == o0 + p@.take(i as int),
        decreases p@.len() - i,
    {
        out.push(p[i]);
        i = i + 1;
        assert(out@ =~= o0 + p@.take(i as int));
    }
    assert(p@.take(i as int) =~= p@);
    assert(base@.subrange(0, base@.len() as int) =~= base@);
    assert(p@.subrange(0, p@.len() as int) =~= p@);
    out
}

/// `PathBuf::join` on path text.
pub fn join_path_str(base: &str, p: &str) -> (r: String)
    ensures
        r@ == path_join(base@, p@),
{
    string_of(&join_path(&chars_of(base), &chars_of(p)))
}

/// The Lima home directory from the raw `LIMA_HOME` and `HOME` values: `LIMA_HOME` (trimmed)
/// when non-empty, else `HOME/.lima`, else `.lima`.
pub open spec fn lima_home_spec(lima_home: Option<Seq<char>>, home: Option<Seq<char>>) -> Seq<char> {
    match lima_home {
        Some(h) if trim(h).len() > 0 => trim(h),
        _ => match home {
            Some(h) if trim(h).len() > 0 => path_join(trim(h), ".lima"@),
            _ => ".lima"@,
        },
    }
}

/// The Lima home directory from the raw environment values.
pub fn lima_home_from_values(lima_home: Option<&str>, home: Option<&str>) -> (r: String)
    ensures
        r@ == lima_home_spec(opt_view(lima_home), opt_view(home)),
{
    if let Some(h) = lima_home {
        let t = trim_str(h);
        if t.len() > 0 {
            return string_of(&t);
        }
    }
    if let Some(h) = home {
        let t = trim_str(h);
        if t.len() > 0 {
            return string_of(&join_path(&t, &chars_of(".lima")));
        }
    }
    string_of(&chars_of(".lima"))
}

/// `<lima_home>/<instance>/lima.yaml`.
pub fn lima_yaml_path(lima_home: &str, instance: &str) -> (r: String)
    ensures
        r@ == path_join(path_join(lima_home@, instance@), "lima.yaml"@),
{
    let a = join_path(&chars_of(lima_home), &chars_of(instance));
    string_of(&join_path(&a, &chars_of("lima.yaml")))
}

/// Whether Lima hints are shown for a raw `DEVSHELL_VM_LIMA_HINTS` value: unset shows them; an
/// empty (trimmed) or "no" value silences them.
pub fn hints_enabled_from_value(raw: Option<&str>) -> (r: bool)
    ensures
        r == match opt_view(raw) {
            None => true,
            Some(s) => !(trim(s).len() == 0 || is_falsy(s)),
        },
{
    match raw {
        None => true,
        Some(s) => {
            let t = trim_str(s);
            !(t.len() == 0 || falsy(s))
        },
    }
}

/// The Lima host log reports that KVM cannot be used.
pub open spec fn kvm_denied(log: Seq<char>) -> bool {
    contains_seq(log, "Could not access KVM kernel module"@) || contains_seq(log, "failed to initialize kvm"@)
}

/// Whether the Lima host log (`ha.stderr.log`) reports KVM permission problems.
pub fn log_mentions_kvm_denied(log: &str) -> (r: bool)
    ensures
        r == kvm_denied(log@),
{
    let c = chars_of(log);
    contains_chars(&c, &chars_of("Could not access KVM kernel module")) || contains_chars(
        &c,
        &chars_of("failed to initialize kvm"),
    )
}

/// A hint printed after `limactl start` fails.
#[derive(Debug, Clone, Copy, PartialEq, Eq, Structural)]
pub enum StartHint {
    /// The host log mentions KVM permission problems.
    KvmDenied,
    /// The instance has no `lima.yaml` yet.
    NoYaml,
    /// The host log mentions a missing template.
    MissingTemplate,
}

/// The hints after a failed `limactl start`, in order: KVM (when the log says so), a missing
/// `lima.yaml`, a missing template (when the log mentions `template` and `not found`).
pub open spec fn start_hints(log: Option<Seq<char>>, yaml_exists: bool) -> Seq<StartHint> {
    let a = match log {
        Some(l) if kvm_denied(l) => seq![StartHint::KvmDenied],
        _ => Seq::empty(),
    };
    let b = if !yaml_exists {
        a.push(StartHint::NoYaml)
    } else {
        a
    };
    match log {
        Some(l) if contains_seq(l, "template"@) && contains_seq(l, "not found"@) => b.push(StartHint::MissingTemplate),
        _ => b,
    }
}

/// Which hints to print after `limactl start` failed, from the host log (if readable) and
/// whether `lima.yaml` exists.
pub fn start_failure_hints(log: Option<&str>, yaml_exists: bool) -> (r: Vec<StartHint>)
    ensures
        r@ == start_hints(opt_view(log), yaml_exists),
{
    let mut v: Vec<StartHint> = Vec::new();
    if let Some(l) = log {
        if log_mentions_kvm_denied(l) {
            v.push(StartHint::KvmDenied);
        }
    }
    if !yaml_exists {
        v.push(StartHint::NoYaml);
    }
    if let Some(l) = log {
        let c = chars_of(l);
        if contains_chars(&c, &chars_of("template")) && contains_chars(&c, &chars_of("not found")) {
            v.push(StartHint::MissingTemplate);
        }
    }
    proof {
        let ghost a = match opt_view(log) {
            Some(l) if kvm_denied(l) => seq![StartHint::KvmDenied],
            _ => Seq::<StartHint>::empty(),
        };
        assert(a.push(StartHint::NoYaml) =~= a + seq![StartHint::NoYaml]);
    }
    assert(v@ =~= start_hints(opt_view(log), yaml_exists));
    v
}

/// A warning printed when the guest looks misconfigured after the VM is up.
#[derive(Debug, Clone, Copy, PartialEq, Eq, Structural)]
pub enum GuestWarning {
    /// The guest probe could not run.
    ProbeFailed,
    /// The guest workspace mount is missing.
    MountMissing,
    /// `lima.yaml` has no `mountPoint:` line for the mount.
    YamlLacksMountPoint,
    /// The guest project directory is missing.
    ProjectDirMissing,
    /// `cargo` is missing although the yaml mounts the host toolchain.
    CargoMissingDespiteMounts,
    /// `cargo` is missing.
    CargoMissing,
}

/// The warnings after the VM is up, in order, from the probe result and the yaml text.
pub open spec fn guest_warnings(probe: Option<GuestProbe>, yaml: Seq<char>, guest_mount: Seq<char>) -> Seq<GuestWarning> {
    match probe {
        None => seq![GuestWarning::ProbeFailed],
        Some(p) => {
            let a = if !p.guest_mount_exists {
                seq![GuestWarning::MountMissing]
            } else if !has_mount_point(yaml, guest_mount) {
                seq![GuestWarning::YamlLacksMountPoint]
            } else {
                Seq::empty()
            };
            let b = if p.guest_mount_exists && !p.project_dir_exists {
                a.push(GuestWarning::ProjectDirMissing)
            } else {
                a
            };
            if !p.cargo_in_path {
                if contains_seq(yaml, "host-rustup"@) && contains_seq(yaml, "host-cargo"@)
                    && contains_seq(yaml, "RUSTUP_HOME:"@) && contains_seq(yaml, "CARGO_HOME:"@) {
                    b.push(GuestWarning::CargoMissingDespiteMounts)
                } else {
                    b.push(GuestWarning::CargoMissing)
                }
            } else {
                b
            }
        },
    }
}

/// Which warnings to print for a misconfigured guest.
pub fn guest_misconfiguration_warnings(probe: Option<GuestProbe>, yaml: &str, guest_mount: &str) -> (r: Vec<GuestWarning>)
    ensures
        r@ == guest_warnings(probe, yaml@, guest_mount@),
{
    let mut v: Vec<GuestWarning> = Vec::new();
    let p = match probe {
        None => {
            v.push(GuestWarning::ProbeFailed);
            assert(v@ =~= seq![GuestWarning::ProbeFailed]);
            return v;
        },
        Some(p) => p,
    };
    if !p.guest_mount_exists {
        v.push(GuestWarning::MountMissing);
    } else if !yaml_has_mount_point(yaml, guest_mount) {
        v.push(GuestWarning::YamlLacksMountPoint);
    }
    if p.guest_mount_exists && !p.project_dir_exists {
        v.push(GuestWarning::ProjectDirMissing);
    }
    if !p.cargo_in_path {
        if yaml_mentions_host_toolchain_mounts(yaml) && yaml_has_rust_env(yaml) {
            v.push(GuestWarning::CargoMissingDespiteMounts);
        } else {
            v.push(GuestWarning::CargoMissing);
        }
    }
    assert(v@ =~= guest_warnings(probe, yaml@, guest_mount@));
    v
}

/// A hint printed after `cargo`/`rustup` failed inside the guest.
#[derive(Debug, Clone, Copy, PartialEq, Eq, Structural)]
pub enum ToolHint {
    /// The host log mentions KVM permission problems.
    KvmDenied,
    /// The instance has no `lima.yaml`.
    NoYaml,
    /// The guest workspace mount is missing.
    MountMissing,
    /// The guest project directory is missing.
    ProjectDirMissing,
    /// `cargo`/`rustup` is not on the guest `PATH`.
    ToolNotOnPath,
    /// The guest could not be probed.
    ProbeFailed,
    /// `lima.yaml` should have a `mountPoint:` line for the mount.
    YamlLacksMountPoint,
    /// Mount the host toolchain (`host-rustup` / `host-cargo`).
    SuggestToolchainMounts,
    /// Pointer to the full guide.
    Guide,
}

/// The hints after `program` exited with `code` inside the guest, in order; none unless the
/// program is `cargo` or `rustup`. Without `lima.yaml` only the KVM hint (if any) and that fact
/// are given.
pub open spec fn tool_hints(
    program: Seq<char>,
    code: Option<i32>,
    kvm: bool,
    yaml_exists: bool,
    yaml: Seq<char>,
    guest_mount: Seq<char>,
    probe: Option<GuestProbe>,
) -> Seq<ToolHint> {
    if program != "cargo"@ && program != "rustup"@ {
        Seq::empty()
    } else {
        let a = if kvm {
            seq![ToolHint::KvmDenied]
        } else {
            Seq::empty()
        };
        if !yaml_exists {
            a.push(ToolHint::NoYaml)
        } else {
            let b = match probe {
                Some(p) => {
                    let b1 = if !p.guest_mount_exists {
                        a.push(ToolHint::MountMissing)
                    } else {
                        a
                    };
                    let b2 = if p.guest_mount_exists && !p.project_dir_exists {
                        b1.push(ToolHint::ProjectDirMissing)
                    } else {
                        b1
                    };
                    if code == Some(127i32) || !p.cargo_in_path {
                        b2.push(ToolHint::ToolNotOnPath)
                    } else {
                        b2
                    }
                },
                None => a.push(ToolHint::ProbeFailed),
            };
            let c = if !has_mount_point(yaml, guest_mount) {
                b.push(ToolHint::YamlLacksMountPoint)
            } else {
                b
            };
            let d = if (code == Some(127i32) || code == Some(126i32)) && !(contains_seq(yaml, "host-rustup"@)
                && contains_seq(yaml, "host-cargo"@)) {
                c.push(ToolHint::SuggestToolchainMounts)
            } else {
                c
            };
            d.push(ToolHint::Guide)
        }
    }
}

/// Which hints to print after a guest `cargo`/`rustup` failure.
pub fn tool_failure_hints(
    program: &str,
    code: Option<i32>,
    kvm: bool,
    yaml_exists: bool,
    yaml: &str,
    guest_mount: &str,
    probe: Option<GuestProbe>,
) -> (r: Vec<ToolHint>)
    ensures
        r@ == tool_hints(program@, code, kvm, yaml_exists, yaml@, guest_mount@, probe),
{
    let mut v: Vec<ToolHint> = Vec::new();
    let pv = chars_of(program);
    if !seq_eq_str(&pv, "cargo") && !seq_eq_str(&pv, "rustup") {
        assert(v@ =~= Seq::<ToolHint>::empty());
        return v;
    }
    if kvm {
        v.push(ToolHint::KvmDenied);
    }
    let ghost a = v@;
    if !yaml_exists {
        v.push(ToolHint::NoYaml);
        return v;
    }
    match probe {
        Some(p) => {
            if !p.guest_mount_exists {
                v.push(ToolHint::MountMissing);
            }
            if p.guest_mount_exists && !p.project_dir_exists {
                v.push(ToolHint::ProjectDirMissing);
            }
            let missing = match code {
                Some(c) => c == 127,
                None => false,
            };
            if missing || !p.cargo_in_path {
                v.push(ToolHint::ToolNotOnPath);
            }
        },
        None => {
            v.push(ToolHint::ProbeFailed);
        },
    }
    if !yaml_has_mount_point(yaml, guest_mount) {
        v.push(ToolHint::YamlLacksMountPoint);
    }
    let not_found = match code {
        Some(c) => c == 127 || c == 126,
        None => false,
    };
    if not_found && !yaml_mentions_host_toolchain_mounts(yaml) {
        v.push(ToolHint::SuggestToolchainMounts);
    }
    v.push(ToolHint::Guide);
    assert(kvm ==> a =~= seq![ToolHint::KvmDenied]);
    assert(!kvm ==> a =~= Seq::<ToolHint>::empty());
    v
}

/// The guest `--workdir` and `bash -lc` body of an interactive Lima shell: the workdir is the
/// guest project directory (else the mount); the body prepends the guest `todo` release
/// directory to `PATH` when given, enters the project (linking it as `$HOME/<host_dir>` and its
/// `.todo.json` when a link name is given) and ends with `exec bash -l`.
pub open spec fn shell_body(guest_proj: Option<Seq<char>>, release: Option<Seq<char>>, host_dir: Option<Seq<char>>) -> Seq<char> {
    let q = |t: Seq<char>| seq!['\''] + replace_quote(t, seq!['\'', '"', '\'', '"', '\'']) + seq!['\''];
    let a = match release {
        Some(p) => "export PATH="@ + q(p) + ":$PATH; "@,
        None => Seq::empty(),
    };
    let b = match guest_proj {
        Some(gp) => match host_dir {
            Some(hd) => a + "export GUEST_PROJ="@ + q(gp) + "; export HD="@ + q(hd)
                + "; if [ -d \"$GUEST_PROJ\" ]; then cd \"$GUEST_PROJ\" || true; ln -sfn \"$GUEST_PROJ\" \"$HOME/$HD\" 2>/dev/null || true; ln -sf \"$HOME/$HD/.todo.json\" \"$HOME/.todo.json\" 2>/dev/null || true; fi; "@,
            None => a + "export GUEST_PROJ="@ + q(gp) + "; if [ -d \"$GUEST_PROJ\" ]; then cd \"$GUEST_PROJ\" || true; fi; "@,
        },
        None => a,
    };
    b + "exec bash -l"@
}

fn push_str(v: &mut Vec<char>, s: &str)
    ensures
        final(v)@ == old(v)@ + s@,
{
    let t = chars_of(s);
    let mut i: usize = 0;
    let ghost v0 = v@;
    while i < t.len()
        invariant
            i <= t@.len(),
            t@ == s@,
            v@ == v0 + t@.take(i as int),
        decreases t@.len() - i,
    {
        v.push(t[i]);
        i = i + 1;
        assert(v@ =~= v0 + t@.take(i as int));
    }
    assert(t@.take(i as int) =~= t@);
}

/// The workdir and shell body for an interactive Lima shell (see [`shell_body`]).
pub fn lima_shell_workdir_and_inner(
    guest_mount: &str,
    guest_proj: Option<&str>,
    release: Option<&str>,
    host_dir: Option<&str>,
) -> (r: (String, String))
    ensures
        r.0@ == (match guest_proj {
            Some(gp) => gp@,
            None => guest_mount@,
        }),
        r.1@ == shell_body(opt_view(guest_proj), opt_view(release), opt_view(host_dir)),
{
    let workdir = match guest_proj {
        Some(gp) => string_of(&chars_of(gp)),
        None => string_of(&chars_of(guest_mount)),
    };
    let mut inner: Vec<char> = Vec::new();
    if let Some(p) = release {
        push_str(&mut inner, "export PATH=");
        push_str(&mut inner, bash_single_quoted(p).as_str());
        push_str(&mut inner, ":$PATH; ");
    }
    if let Some(gp) = guest_proj {
        match host_dir {
            Some(hd) => {
                push_str(&mut inner, "export GUEST_PROJ=");
                push_str(&mut inner, bash_single_quoted(gp).as_str());
                push_str(&mut inner, "; export HD=");
                push_str(&mut inner, bash_single_quoted(hd).as_str());
                push_str(
                    &mut inner,
                    "; if [ -d \"$GUEST_PROJ\" ]; then cd \"$GUEST_PROJ\" || true; ln -sfn \"$GUEST_PROJ\" \"$HOME/$HD\" 2>/dev/null || true; ln -sf \"$HOME/$HD/.todo.json\" \"$HOME/.todo.json\" 2>/dev/null || true; fi; ",
                );
            },
            None => {
                push_str(&mut inner, "export GUEST_PROJ=");
                push_str(&mut inner, bash_single_quoted(gp).as_str());
                push_str(&mut inner, "; if [ -d \"$GUEST_PROJ\" ]; then cd \"$GUEST_PROJ\" || true; fi; ");
            },
        }
    }
    push_str(&mut inner, "exec bash -l");
    (workdir, string_of(&inner))
}

} // verus!
