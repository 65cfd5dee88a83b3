//! Windows host paths as seen from the Podman machine VM (`/mnt/<drive>/…`).

use vstd::prelude::*;

use crate::text::{ascii_lower, ascii_lower_char, chars_of, string_of, strip_start};

verus! {

/// `s` without any leading repetitions of the verbatim prefix `\\?\`.
pub open spec fn strip_verbatim(s: Seq<char>) -> Seq<char>
    decreases s.len(),
{
    if s.len() >= 4 && s[0] == '\\' && s[1] == '\\' && s[2] == '?' && s[3] == '\\' {
        strip_verbatim(s.skip(4))
    } else {
        s
    }
}

/// `s` with every `\` written `/`.
pub open spec fn forward_slashes(s: Seq<char>) -> Seq<char> {
    Seq::new(s.len(), |i: int| if s[i] == '\\' {
        '/'
    } else {
        s[i]
    })
}

/// The VM path of a Windows host path `C:\a\b` (verbatim prefix dropped, `\` as `/`):
/// `/mnt/c/a/b`; `None` unless it starts with an ASCII drive letter and `:`.
pub open spec fn vm_mnt_path(host: Seq<char>) -> Option<Seq<char>> {
    let n = forward_slashes(strip_verbatim(host));
    if n.len() >= 2 && n[0] <= '\u{7f}' && n[1] == ':' {
        Some("/mnt/"@ + seq![ascii_lower(n[0])] + seq!['/'] + strip_start(n.skip(2), Some('/')))
    } else {
        None
    }
}

/// Maps a Windows host path to its `/mnt/<drive>/…` path inside the Podman machine.
pub fn windows_host_path_to_vm_mnt(host: &str) -> (r: Option<String>)
    ensures
        match r {
            Some(s) => vm_mnt_path(host@) == Some(s@),
            None => vm_mnt_path(host@) is None,
        },
{
    let v = chars_of(host);
    let mut i: usize = 0;
    assert(v@.skip(0) =~= v@);
    while v.len() - i >= 4 && v[i] == '\\' && v[i + 1] == '\\' && v[i + 2] == '?' && v[i + 3] == '\\'
        invariant
            i <= v@.len(),
            strip_verbatim(v@) == strip_verbatim(v@.skip(i as int)),
        decreases v@.len() - i,
    {
        assert(v@.skip(i as int).skip(4) =~= v@.skip(i + 4));
        i = i + 4;
    }
    let ghost s = v@.skip(i as int);
    assert(strip_verbatim(s) == s);
    let mut n: Vec<char> = Vec::new();
    let mut k = i;
    while k < v.len()
        invariant
            i <= k <= v@.len(),
            s == v@.skip(i as int),
            n@ == forward_slashes(s).take(k - i),
        decreases v@.len() - k,
    {
        if v[k] == '\\' {
            n.push('/');
        } else {
            n.push(v[k]);
        }
        k = k + 1;
        assert(n@ =~= forward_slashes(s).take(k - i));
    }
    assert(forward_slashes(s).take(k - i) =~= forward_slashes(s));
    if !(n.len() >= 2 && n[0] <= '\u{7f}' && n[1] == ':') {
        return None;
    }
    let mut out = chars_of("/mnt/");
    out.push(ascii_lower_char(n[0]));
    out.push('/');
    let mut j: usize = 2;
    while j < n.len() && n[j] == '/'
        invariant
            2 <= j <= n@.len(),
            strip_start(n@.skip(2), Some('/')) == strip_start(n@.skip(j as int), Some('/')),
        decreases n@.len() - j,
    {
        assert(n@.skip(j as int).drop_first() =~= n@.skip(j + 1));
        j = j + 1;
    }
    assert(strip_start(n@.skip(j as int), Some('/')) == n@.skip(j as int));
    let ghost o0 = out@;
    let mut t = j;
    while t < n.len()
        invariant
            j <= t <= n@.len(),
            out@ == o0 + n@.subrange(j as int, t as int),
        decreases n@.len() - t,
    {
        out.push(n[t]);
        t = t + 1;
        assert(out@ =~= o0 + n@.subrange(j as int, t as int));
    }
    assert(n@.subrange(j as int, t as int) =~= n@.skip(j as int));
    Some(string_of(&out))
}

} // verus!
