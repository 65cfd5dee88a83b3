//! Mode P workspace: logical paths mapped onto the guest mount, file operations through a
//! [`GuestFsOps`].

use vstd::prelude::*;

use crate::devshell::vm::guest_fs_ops::{
    child_names, is_dir, strictly_sorted, texts, tree_mkdir, tree_read, tree_remove, tree_write, FsErr,
    GuestFsError, GuestFsOps, NodeView,
};
use crate::devshell::vm::guest_path::{
    guest_path_is_under_mount, guest_project_dir_on_guest, lexical_norm, normalize_chars,
    normalize_guest_path, normalized, project_dir, under_mount,
};
use crate::devshell::vm::{GammaSession, VmError};
use crate::text::{chars_of, seq_eq, starts_with, starts_with_chars, string_of};

verus! {

/// Unified error for workspace operations.
#[derive(Debug)]
pub enum WorkspaceBackendError {
    Guest(GuestFsError),
    Vm(VmError),
    /// Logical path is not under the current logical cwd project subtree.
    PathOutsideWorkspace,
    /// The in-memory backend does not map to guest paths.
    ModeSOnly,
    /// Not implemented for this backend.
    Unsupported(&'static str),
}

/// The absolute logical path `path` names from the directory `cwd`: `path` itself when absolute,
/// else `cwd/path`, lexically normalized.
pub open spec fn resolved(cwd: Seq<char>, path: Seq<char>) -> Seq<char> {
    if path.len() > 0 && path[0] == '/' {
        lexical_norm(path)
    } else {
        lexical_norm(cwd + seq!['/'] + path)
    }
}

/// `a` followed by `b`.
fn extend(a: &mut Vec<char>, b: &Vec<char>)
    ensures
        final(a)@ == old(a)@ + b@,
{
    let mut i: usize = 0;
    let ghost a0 = a@;
    while i < b.len()
        invariant
            i <= b@.len(),
            a@ == a0 + b@.take(i as int),
        decreases b@.len() - i,
    {
        a.push(b[i]);
        i = i + 1;
        assert(a@ =~= a0 + b@.take(i as int));
    }
    assert(b@.take(i as int) =~= b@);
}

/// Resolves `path` against the logical directory `cwd` (lexical; no file system access).
pub fn resolve_path_with_cwd(cwd: &str, path: &str) -> (r: String)
    ensures
        r@ == resolved(cwd@, path@),
{
    let p = chars_of(path);
    if p.len() > 0 && p[0] == '/' {
        let n = normalize_chars(&p);
        return string_of(&n);
    }
    let mut j = chars_of(cwd);
    j.push('/');
    extend(&mut j, &p);
    assert(j@ =~= cwd@ + seq!['/'] + path@);
    let n = normalize_chars(&j);
    string_of(&n)
}

/// Where the logical path `lp` lands in the guest, for the logical cwd `cwd` and the guest
/// mount `mount`: its position below the cwd, re-rooted at the guest project directory and
/// normalized; `None` (outside the workspace) when it is not below the cwd or leaves the mount.
pub open spec fn to_guest(mount: Seq<char>, cwd: Seq<char>, lp: Seq<char>) -> Option<Seq<char>> {
    let abs_cwd = resolved(seq!['/'], cwd);
    let abs_path = resolved(cwd, lp);
    let prefix = if abs_cwd.len() > 0 && abs_cwd.last() == '/' {
        abs_cwd
    } else {
        abs_cwd + seq!['/']
    };
    let root = project_dir(mount, cwd);
    if abs_path != abs_cwd && !starts_with(abs_path, prefix) {
        None
    } else if !under_mount(mount, root) {
        None
    } else {
        let rel = if abs_path == abs_cwd {
            Seq::<char>::empty()
        } else {
            abs_path.skip(prefix.len() as int)
        };
        let g = normalized(if rel.len() == 0 {
            root
        } else {
            root + seq!['/'] + rel
        });
        if under_mount(mount, g) {
            Some(g)
        } else {
            None
        }
    }
}

/// A logical path never maps outside the guest mount.
pub proof fn lemma_guest_path_under_mount(mount: Seq<char>, cwd: Seq<char>, lp: Seq<char>)
    requires
        to_guest(mount, cwd, lp) is Some,
    ensures
        under_mount(mount, to_guest(mount, cwd, lp)->0),
{
}

/// Map a logical absolute path to a guest path (project root = `guest_project_dir_on_guest`);
/// `PathOutsideWorkspace` when it is not under the project root implied by `logical_cwd`, or
/// when the mapped path leaves the guest mount.
pub fn logical_path_to_guest(guest_mount: &str, logical_cwd: &str, logical_path: &str) -> (r: Result<String, WorkspaceBackendError>)
    ensures
        match r {
            Ok(g) => to_guest(guest_mount@, logical_cwd@, logical_path@) == Some(g@),
            Err(e) => to_guest(guest_mount@, logical_cwd@, logical_path@) is None && e
                == WorkspaceBackendError::PathOutsideWorkspace,
        },
{
    let abs_cwd = chars_of(resolve_path_with_cwd("/", logical_cwd).as_str());
    proof {
        reveal_strlit("/");
        assert("/"@ =~= seq!['/']);
    }
    let abs_path = chars_of(resolve_path_with_cwd(logical_cwd, logical_path).as_str());
    let mut prefix = crate::text::copy_range(&abs_cwd, 0, abs_cwd.len());
    assert(prefix@ =~= abs_cwd@);
    if !(abs_cwd.len() > 0 && abs_cwd[abs_cwd.len() - 1] == '/') {
        prefix.push('/');
        assert(prefix@ =~= abs_cwd@ + seq!['/']);
    }
    let same = seq_eq(&abs_path, &abs_cwd);
    if !same && !starts_with_chars(&abs_path, &prefix) {
        return Err(WorkspaceBackendError::PathOutsideWorkspace);
    }
    let rel = if same {
        Vec::new()
    } else {
        crate::text::copy_range(&abs_path, prefix.len(), abs_path.len())
    };
    assert(same ==> rel@ =~= Seq::<char>::empty());
    assert(!same ==> rel@ =~= abs_path@.skip(prefix@.len() as int));
    let guest_root = guest_project_dir_on_guest(guest_mount, logical_cwd);
    if !guest_path_is_under_mount(guest_mount, guest_root.as_str()) {
        return Err(WorkspaceBackendError::PathOutsideWorkspace);
    }
    let mut gp = chars_of(guest_root.as_str());
    if rel.len() > 0 {
        gp.push('/');
        extend(&mut gp, &rel);
        assert(gp@ =~= guest_root@ + seq!['/'] + rel@);
    }
    let gps = string_of(&gp);
    let g = match normalize_guest_path(gps.as_str()) {
        Some(g) => g,
        None => return Err(WorkspaceBackendError::PathOutsideWorkspace),
    };
    if !guest_path_is_under_mount(guest_mount, g.as_str()) {
        return Err(WorkspaceBackendError::PathOutsideWorkspace);
    }
    Ok(g)
}

/// Map a logical path to a guest absolute path for a γ session (its mount) and the VFS cwd.
pub fn logical_to_guest_abs(g: &GammaSession, vfs_cwd: &str, logical_path: &str) -> (r: Result<String, WorkspaceBackendError>)
    ensures
        match r {
            Ok(p) => to_guest(g.mount(), vfs_cwd@, logical_path@) == Some(p@),
            Err(e) => to_guest(g.mount(), vfs_cwd@, logical_path@) is None && e
                == WorkspaceBackendError::PathOutsideWorkspace,
        },
{
    logical_path_to_guest(g.guest_mount(), vfs_cwd, logical_path)
}

/// Mode P workspace: a [`GuestFsOps`], the guest mount and the logical cwd. Every operation maps
/// its logical path with [`logical_path_to_guest`] and hands the guest path to the ops.
pub struct GuestPrimaryBackend<O: GuestFsOps> {
    ops: Box<O>,
    guest_mount: String,
    logical_cwd: String,
}

impl<O: GuestFsOps> GuestPrimaryBackend<O> {
    /// The guest mount (e.g. `/workspace`).
    pub closed spec fn mount(&self) -> Seq<char> {
        self.guest_mount@
    }

    /// The logical current directory.
    pub closed spec fn cwd(&self) -> Seq<char> {
        self.logical_cwd@
    }

    /// The guest tree of the ops.
    pub closed spec fn tree(&self) -> Map<Seq<char>, NodeView> {
        self.ops.tree()
    }

    /// The ops are held to their tree (see [`GuestFsOps::modelled`]).
    pub closed spec fn modelled(&self) -> bool {
        self.ops.modelled()
    }

    /// A backend over `ops` with the given guest mount and logical cwd.
    pub fn new(guest_mount: String, logical_cwd: String, ops: Box<O>) -> (r: Self)
        ensures
            r.mount() == guest_mount@,
            r.cwd() == logical_cwd@,
            r.tree() == ops.tree(),
            r.modelled() == ops.modelled(),
    {
        GuestPrimaryBackend { ops, guest_mount, logical_cwd }
    }

    /// The guest mount.
    pub fn guest_mount(&self) -> (r: &str)
        ensures
            r@ == self.mount(),
    {
        self.guest_mount.as_str()
    }

    /// The logical cwd.
    pub fn logical_cwd(&self) -> (r: String)
        ensures
            r@ == self.cwd(),
    {
        string_of(&chars_of(self.logical_cwd.as_str()))
    }

    /// Moves the logical cwd to `path` resolved against it (always succeeds).
    pub fn set_logical_cwd(&mut self, path: &str) -> (r: Result<(), WorkspaceBackendError>)
        ensures
            r is Ok,
            final(self).cwd() == resolved(old(self).cwd(), path@),
            final(self).mount() == old(self).mount(),
    {
        self.logical_cwd = resolve_path_with_cwd(self.logical_cwd.as_str(), path);
        Ok(())
    }

    /// The guest path `path` maps to.
    pub fn try_resolve_guest_path(&self, logical_path: &str) -> (r: Result<String, WorkspaceBackendError>)
        ensures
            match r {
                Ok(g) => to_guest(self.mount(), self.cwd(), logical_path@) == Some(g@),
                Err(e) => to_guest(self.mount(), self.cwd(), logical_path@) is None && e
                    == WorkspaceBackendError::PathOutsideWorkspace,
            },
    {
        logical_path_to_guest(self.guest_mount.as_str(), self.logical_cwd.as_str(), logical_path)
    }

    /// Reads the file `path` maps to; `PathOutsideWorkspace` (before any guest access) when it
    /// maps outside the workspace. Over modelled ops: exactly the read of the mapped guest path.
    pub fn read_file(&mut self, path: &str) -> (r: Result<Vec<u8>, WorkspaceBackendError>)
        ensures
            final(self).mount() == old(self).mount(),
            final(self).cwd() == old(self).cwd(),
            final(self).modelled() == old(self).modelled(),
            to_guest(old(self).mount(), old(self).cwd(), path@) is None ==> (r matches Err(
                WorkspaceBackendError::PathOutsideWorkspace,
            )) && final(self).tree() == old(self).tree(),
            to_guest(old(self).mount(), old(self).cwd(), path@) is Some ==> r is Ok || r matches Err(
                WorkspaceBackendError::Guest(_),
            ),
            old(self).modelled() ==> (to_guest(old(self).mount(), old(self).cwd(), path@) matches Some(g) ==> {
                &&& final(self).tree() == old(self).tree()
                &&& match r {
                    Ok(b) => tree_read(old(self).tree(), g) == Ok::<Seq<u8>, FsErr>(b@),
                    Err(WorkspaceBackendError::Guest(e)) => tree_read(old(self).tree(), g) == Err::<Seq<u8>, FsErr>(e@),
                    Err(_) => false,
                }
            }),
    {
        let g = logical_path_to_guest(self.guest_mount.as_str(), self.logical_cwd.as_str(), path)?;
        match self.ops.read_file(g.as_str()) {
            Ok(b) => Ok(b),
            Err(e) => Err(WorkspaceBackendError::Guest(e)),
        }
    }

    /// Writes the file `path` maps to. Over modelled ops: exactly the write of the mapped guest
    /// path.
    pub fn write_file(&mut self, path: &str, data: &[u8]) -> (r: Result<(), WorkspaceBackendError>)
        ensures
            final(self).mount() == old(self).mount(),
            final(self).cwd() == old(self).cwd(),
            final(self).modelled() == old(self).modelled(),
            to_guest(old(self).mount(), old(self).cwd(), path@) is None ==> (r matches Err(
                WorkspaceBackendError::PathOutsideWorkspace,
            )) && final(self).tree() == old(self).tree(),
            to_guest(old(self).mount(), old(self).cwd(), path@) is Some ==> r is Ok || r matches Err(
                WorkspaceBackendError::Guest(_),
            ),
            old(self).modelled() ==> (to_guest(old(self).mount(), old(self).cwd(), path@) matches Some(g) ==> {
                &&& tree_write(old(self).tree(), g, data@).1 == final(self).tree()
                &&& match r {
                    Ok(_) => tree_write(old(self).tree(), g, data@).0 is Ok,
                    Err(WorkspaceBackendError::Guest(e)) => tree_write(old(self).tree(), g, data@).0 == Err::<(), FsErr>(e@),
                    Err(_) => false,
                }
            }),
    {
        let g = logical_path_to_guest(self.guest_mount.as_str(), self.logical_cwd.as_str(), path)?;
        match self.ops.write_file(g.as_str(), data) {
            Ok(()) => Ok(()),
            Err(e) => Err(WorkspaceBackendError::Guest(e)),
        }
    }

    /// Lists the directory `path` maps to. Over modelled ops: exactly the listing of the mapped
    /// guest path.
    pub fn list_dir(&mut self, path: &str) -> (r: Result<Vec<String>, WorkspaceBackendError>)
        ensures
            final(self).mount() == old(self).mount(),
            final(self).cwd() == old(self).cwd(),
            final(self).modelled() == old(self).modelled(),
            to_guest(old(self).mount(), old(self).cwd(), path@) is None ==> (r matches Err(
                WorkspaceBackendError::PathOutsideWorkspace,
            )) && final(self).tree() == old(self).tree(),
            to_guest(old(self).mount(), old(self).cwd(), path@) is Some ==> r is Ok || r matches Err(
                WorkspaceBackendError::Guest(_),
            ),
            old(self).modelled() ==> (to_guest(old(self).mount(), old(self).cwd(), path@) matches Some(g) ==> {
                &&& final(self).tree() == old(self).tree()
                &&& match r {
                    Ok(v) => {
                        &&& is_dir(old(self).tree(), normalized(g))
                        &&& strictly_sorted(texts(v@))
                        &&& forall|nm: Seq<char>| texts(v@).contains(nm) <==> child_names(old(self).tree(), normalized(g)).contains(nm)
                    },
                    Err(WorkspaceBackendError::Guest(e)) => !is_dir(old(self).tree(), normalized(g)) && e@
                        == FsErr::NotADirectory(normalized(g)),
                    Err(_) => false,
                }
            }),
    {
        let g = logical_path_to_guest(self.guest_mount.as_str(), self.logical_cwd.as_str(), path)?;
        match self.ops.list_dir(g.as_str()) {
            Ok(v) => Ok(v),
            Err(e) => Err(WorkspaceBackendError::Guest(e)),
        }
    }

    /// Creates the directory `path` maps to (and its parents). Over modelled ops: exactly the
    /// `mkdir` of the mapped guest path.
    pub fn mkdir(&mut self, path: &str) -> (r: Result<(), WorkspaceBackendError>)
        ensures
            final(self).mount() == old(self).mount(),
            final(self).cwd() == old(self).cwd(),
            final(self).modelled() == old(self).modelled(),
            to_guest(old(self).mount(), old(self).cwd(), path@) is None ==> (r matches Err(
                WorkspaceBackendError::PathOutsideWorkspace,
            )) && final(self).tree() == old(self).tree(),
            to_guest(old(self).mount(), old(self).cwd(), path@) is Some ==> r is Ok || r matches Err(
                WorkspaceBackendError::Guest(_),
            ),
            old(self).modelled() ==> (to_guest(old(self).mount(), old(self).cwd(), path@) matches Some(g) ==> {
                &&& tree_mkdir(old(self).tree(), g).1 == final(self).tree()
                &&& match r {
                    Ok(_) => tree_mkdir(old(self).tree(), g).0 is Ok,
                    Err(WorkspaceBackendError::Guest(e)) => tree_mkdir(old(self).tree(), g).0 == Err::<(), FsErr>(e@),
                    Err(_) => false,
                }
            }),
    {
        let g = logical_path_to_guest(self.guest_mount.as_str(), self.logical_cwd.as_str(), path)?;
        match self.ops.mkdir(g.as_str()) {
            Ok(()) => Ok(()),
            Err(e) => Err(WorkspaceBackendError::Guest(e)),
        }
    }

    /// Removes the entry `path` maps to. Over modelled ops: exactly the removal of the mapped
    /// guest path.
    pub fn remove(&mut self, path: &str) -> (r: Result<(), WorkspaceBackendError>)
        ensures
            final(self).mount() == old(self).mount(),
            final(self).cwd() == old(self).cwd(),
            final(self).modelled() == old(self).modelled(),
            to_guest(old(self).mount(), old(self).cwd(), path@) is None ==> (r matches Err(
                WorkspaceBackendError::PathOutsideWorkspace,
            )) && final(self).tree() == old(self).tree(),
            to_guest(old(self).mount(), old(self).cwd(), path@) is Some ==> r is Ok || r matches Err(
                WorkspaceBackendError::Guest(_),
            ),
            old(self).modelled() ==> (to_guest(old(self).mount(), old(self).cwd(), path@) matches Some(g) ==> {
                &&& tree_remove(old(self).tree(), g).1 == final(self).tree()
                &&& match r {
                    Ok(_) => tree_remove(old(self).tree(), g).0 is Ok,
                    Err(WorkspaceBackendError::Guest(e)) => tree_remove(old(self).tree(), g).0 == Err::<(), FsErr>(e@),
                    Err(_) => false,
                }
            }),
    {
        let g = logical_path_to_guest(self.guest_mount.as_str(), self.logical_cwd.as_str(), path)?;
        match self.ops.remove(g.as_str()) {
            Ok(()) => Ok(()),
            Err(e) => Err(WorkspaceBackendError::Guest(e)),
        }
    }

    /// Whether `path` names a file or directory, decided by [`exists_from_outcomes`] from a read
    /// of the mapped guest path and, when that read finds nothing, a listing of it. Over
    /// modelled ops: `Ok` of whether the tree holds the mapped path.
    pub fn path_exists(&mut self, path: &str) -> (r: Result<bool, WorkspaceBackendError>)
        ensures
            final(self).mount() == old(self).mount(),
            final(self).cwd() == old(self).cwd(),
            final(self).modelled() == old(self).modelled(),
            to_guest(old(self).mount(), old(self).cwd(), path@) is None ==> (r matches Err(
                WorkspaceBackendError::PathOutsideWorkspace,
            )) && final(self).tree() == old(self).tree(),
            to_guest(old(self).mount(), old(self).cwd(), path@) is Some ==> r is Ok || r matches Err(
                WorkspaceBackendError::Guest(_),
            ),
            old(self).modelled() ==> (to_guest(old(self).mount(), old(self).cwd(), path@) matches Some(g) ==> {
                &&& final(self).tree() == old(self).tree()
                &&& r == Ok::<bool, WorkspaceBackendError>(old(self).tree().contains_key(normalized(g)))
            }),
    {
        let g = logical_path_to_guest(self.guest_mount.as_str(), self.logical_cwd.as_str(), path)?;
        let read = self.ops.read_file(g.as_str());
        let list = match &read {
            Err(GuestFsError::NotFound(_)) => Some(self.ops.list_dir(g.as_str())),
            _ => None,
        };
        exists_from_outcomes(read, list)
    }
}

/// Whether a path exists, from what a read of it gave and, when that found nothing, what a
/// listing of it gave: a read that succeeds or meets a directory, or a listing that succeeds,
/// says yes; a listing that finds nothing or no directory says no; any other guest error is
/// returned.
pub fn exists_from_outcomes(
    read: Result<Vec<u8>, GuestFsError>,
    list: Option<Result<Vec<String>, GuestFsError>>,
) -> (r: Result<bool, WorkspaceBackendError>)
    requires
        read matches Err(GuestFsError::NotFound(_)) ==> list is Some,
    ensures
        match read {
            Ok(_) => r == Ok::<bool, WorkspaceBackendError>(true),
            Err(GuestFsError::IsADirectory(_)) => r == Ok::<bool, WorkspaceBackendError>(true),
            Err(GuestFsError::NotFound(_)) => match list {
                Some(Ok(_)) => r == Ok::<bool, WorkspaceBackendError>(true),
                Some(Err(GuestFsError::NotFound(_))) => r == Ok::<bool, WorkspaceBackendError>(false),
                Some(Err(GuestFsError::NotADirectory(_))) => r == Ok::<bool, WorkspaceBackendError>(false),
                Some(Err(e)) => r == Err::<bool, WorkspaceBackendError>(WorkspaceBackendError::Guest(e)),
                None => false,
            },
            Err(e) => r == Err::<bool, WorkspaceBackendError>(WorkspaceBackendError::Guest(e)),
        },
{
    match read {
        Ok(_) => Ok(true),
        Err(GuestFsError::IsADirectory(_)) => Ok(true),
        Err(GuestFsError::NotFound(_)) => match list {
            Some(Ok(_)) => Ok(true),
            Some(Err(GuestFsError::NotFound(_))) => Ok(false),
            Some(Err(GuestFsError::NotADirectory(_))) => Ok(false),
            Some(Err(e)) => Err(WorkspaceBackendError::Guest(e)),
            None => Ok(false),
        },
        Err(e) => Err(WorkspaceBackendError::Guest(e)),
    }
}

/// Through the backend, a write of a logical path that succeeded and a later read of the same
/// path (same mount and cwd, nothing in between) that succeeded give back the bytes written.
pub proof fn lemma_backend_read_after_write(
    mount: Seq<char>,
    cwd: Seq<char>,
    path: Seq<char>,
    before: Map<Seq<char>, NodeView>,
    after: Map<Seq<char>, NodeView>,
    data: Seq<u8>,
    read: Seq<u8>,
)
    requires
        to_guest(mount, cwd, path) is Some,
        tree_write(before, to_guest(mount, cwd, path)->0, data) == (Ok::<(), FsErr>(()), after),
        tree_read(after, to_guest(mount, cwd, path)->0) == Ok::<Seq<u8>, FsErr>(read),
    ensures
        read == data,
{
    crate::devshell::vm::guest_fs_ops::lemma_read_after_write(before, to_guest(mount, cwd, path)->0, data);
}

} // verus!
