//! VM sessions: the host temp sandbox or Lima γ, chosen from the configuration.

use vstd::prelude::*;

use super::config::{
    effective_mode, falsy, host_sandbox_backend, is_falsy, opt_view, VmConfig, WorkspaceMode,
};
use super::guest_path::{guest_project_dir_on_guest, project_dir};
use super::lima_diagnostics::{join_path_str, path_join};
use crate::text::{chars_of, eq_ignore_ascii_case, eq_ignore_case_str, string_of, trim, trim_str};

verus! {

/// Errors from VM session operations.
#[derive(Debug)]
pub enum VmError {
    /// Backend not implemented on this OS or not wired yet.
    BackendNotImplemented(&'static str),
    /// Lima / `limactl` or γ orchestration failure (message for stderr).
    Lima(String),
    /// β IPC / `devshell-vm` protocol failure.
    Ipc(String),
}

impl VmError {
    /// The message text (`vm backend not implemented: …` for a missing backend, else the
    /// message itself).
    pub fn to_display_string(&self) -> (r: String)
        ensures
            r@ == match self {
                VmError::BackendNotImplemented(s) => "vm backend not implemented: "@ + s@,
                VmError::Lima(s) => s@,
                VmError::Ipc(s) => s@,
            },
    {
        match self {
            VmError::BackendNotImplemented(s) => {
                let mut v = chars_of("vm backend not implemented: ");
                let t = chars_of(s);
                let mut i: usize = 0;
                let ghost v0 = v@;
                while i < t.len()
                    invariant
                        i <= t@.len(),
                        v@ == v0 + t@.take(i as int),
                    decreases t@.len() - i,
                {
                    v.push(t[i]);
                    i = i + 1;
                    assert(v@ =~= v0 + t@.take(i as int));
                }
                assert(t@.take(i as int) =~= t@);
                string_of(&v)
            },
            VmError::Lima(s) => string_of(&chars_of(s.as_str())),
            VmError::Ipc(s) => string_of(&chars_of(s.as_str())),
        }
    }
}

/// Runs `rustup`/`cargo` via a temp directory export (no persistent VM).
#[derive(Debug, Default, Clone, Copy)]
pub struct HostSandboxSession;

impl HostSandboxSession {
    pub fn new() -> (r: HostSandboxSession) {
        HostSandboxSession
    }
}

/// What the environment says about a Lima γ session, gathered by the caller: the resolved
/// `limactl` (if any), the host workspace root, the raw `DEVSHELL_VM_GUEST_WORKSPACE` value and
/// the requested workspace mode.
pub struct GammaEnv {
    pub limactl: Option<String>,
    pub workspace_parent: String,
    pub guest_workspace: Option<String>,
    pub requested_mode: WorkspaceMode,
}

/// Lima-backed session settings: instance, host workspace root and its guest mount, `limactl`,
/// and whether the in-memory VFS is synced around rust tools (Mode S) or the guest is primary.
#[derive(Debug)]
pub struct GammaSession {
    lima_instance: String,
    workspace_parent: String,
    guest_mount: String,
    limactl: String,
    sync_vfs_with_workspace: bool,
}

/// The message for a missing `limactl`.
pub open spec fn limactl_missing_text() -> Seq<char> {
    "limactl not found in PATH; install Lima (https://lima-vm.io/) or set DEVSHELL_VM_LIMACTL"@
}

/// The guest mount for a raw `DEVSHELL_VM_GUEST_WORKSPACE` value: trimmed, or `/workspace` when
/// unset or empty.
pub open spec fn guest_mount_spec(raw: Option<String>) -> Seq<char> {
    match raw {
        Some(s) if trim(s@).len() > 0 => trim(s@),
        _ => "/workspace"@,
    }
}

impl GammaSession {
    pub closed spec fn instance(&self) -> Seq<char> {
        self.lima_instance@
    }

    pub closed spec fn parent(&self) -> Seq<char> {
        self.workspace_parent@
    }

    pub closed spec fn mount(&self) -> Seq<char> {
        self.guest_mount@
    }

    pub closed spec fn limactl_text(&self) -> Seq<char> {
        self.limactl@
    }

    pub closed spec fn syncs(&self) -> bool {
        self.sync_vfs_with_workspace
    }

    /// A γ session for `config` (the VM is not started): `Lima` error when `limactl` was not
    /// found; the guest mount defaults to `/workspace`; the VFS is synced unless the effective
    /// workspace mode is `Guest`.
    pub fn new(config: &VmConfig, env: GammaEnv) -> (r: Result<GammaSession, VmError>)
        ensures
            match r {
                Ok(g) => {
                    &&& env.limactl matches Some(l) && g.limactl_text() == l@
                    &&& g.instance() == config.lima_instance@
                    &&& g.parent() == env.workspace_parent@
                    &&& g.mount() == guest_mount_spec(env.guest_workspace)
                    &&& g.syncs() == (effective_mode(config.enabled, config.backend@, env.requested_mode)
                        == WorkspaceMode::Sync)
                },
                Err(e) => env.limactl is None && (e matches VmError::Lima(m) && m@ == limactl_missing_text()),
            },
    {
        let GammaEnv { limactl, workspace_parent, guest_workspace, requested_mode } = env;
        let limactl = match limactl {
            Some(l) => l,
            None => {
                return Err(
                    VmError::Lima(
                        string_of(
                            &chars_of(
                                "limactl not found in PATH; install Lima (https://lima-vm.io/) or set DEVSHELL_VM_LIMACTL",
                            ),
                        ),
                    ),
                );
            },
        };
        let guest_mount = match &guest_workspace {
            Some(s) => {
                let t = trim_str(s.as_str());
                if t.len() > 0 {
                    string_of(&t)
                } else {
                    string_of(&chars_of("/workspace"))
                }
            },
            None => string_of(&chars_of("/workspace")),
        };
        let sync_vfs_with_workspace = match config.workspace_mode_effective(requested_mode) {
            WorkspaceMode::Sync => true,
            WorkspaceMode::Guest => false,
        };
        Ok(GammaSession {
            lima_instance: string_of(&chars_of(config.lima_instance.as_str())),
            workspace_parent,
            guest_mount,
            limactl,
            sync_vfs_with_workspace,
        })
    }

    /// Whether this session push/pulls the in-memory VFS around rust tools (Mode S); `false` is
    /// guest-primary.
    pub fn syncs_vfs_with_host_workspace(&self) -> (r: bool)
        ensures
            r == self.syncs(),
    {
        self.sync_vfs_with_workspace
    }

    /// Guest mount point (e.g. `/workspace`).
    pub fn guest_mount(&self) -> (r: &str)
        ensures
            r@ == self.mount(),
    {
        self.guest_mount.as_str()
    }

    /// Host workspace root.
    pub fn workspace_parent(&self) -> (r: &str)
        ensures
            r@ == self.parent(),
    {
        self.workspace_parent.as_str()
    }

    /// Path to `limactl`.
    pub fn limactl_path(&self) -> (r: &str)
        ensures
            r@ == self.limactl_text(),
    {
        self.limactl.as_str()
    }

    /// Lima instance name.
    pub fn lima_instance_name(&self) -> (r: &str)
        ensures
            r@ == self.instance(),
    {
        self.lima_instance.as_str()
    }

    /// Guest directory for the VFS cwd (mount + last path segment).
    pub fn guest_dir_for_cwd(&self, vfs_cwd: &str) -> (r: String)
        ensures
            r@ == project_dir(self.mount(), vfs_cwd@),
    {
        guest_project_dir_on_guest(self.guest_mount.as_str(), vfs_cwd)
    }
}

/// The backend a configuration selects.
#[derive(Debug, Clone, Copy, PartialEq, Eq, Structural)]
pub enum BackendChoice {
    /// The host temp sandbox.
    Host,
    /// Lima γ.
    Lima,
}

/// The message for `beta` in a build without the β session.
pub open spec fn beta_message() -> Seq<char> {
    "DEVSHELL_VM_BACKEND=beta requires building xtask-todo-lib with `--features beta-vm`"@
}

/// The message for `lima` on a host that is not Unix.
pub open spec fn lima_not_unix_message() -> Seq<char> {
    "lima backend is only supported on Linux and macOS"@
}

/// The message for a backend that is none of the known ones.
pub open spec fn unknown_backend_message() -> Seq<char> {
    "unknown DEVSHELL_VM_BACKEND (try host, auto, lima, or beta); see docs/devshell-vm-gamma.md"@
}

/// Which backend `config` selects on a host that is (`unix_host`) or is not Unix: the host
/// sandbox when the VM is off or the backend is `host`/`auto`/empty, Lima for `lima` (ASCII case
/// ignored) on Unix; otherwise the `BackendNotImplemented` message: for `beta` (this build has
/// no β), for `lima` off Unix, and for anything else.
pub open spec fn choice_of(config: &VmConfig, unix_host: bool) -> Result<BackendChoice, Seq<char>> {
    if !config.enabled || host_sandbox_backend(config.backend@) {
        Ok(BackendChoice::Host)
    } else if eq_ignore_ascii_case(config.backend@, "beta"@) {
        Err(beta_message())
    } else if eq_ignore_ascii_case(config.backend@, "lima"@) {
        if unix_host {
            Ok(BackendChoice::Lima)
        } else {
            Err(lima_not_unix_message())
        }
    } else {
        Err(unknown_backend_message())
    }
}

/// The backend `config` selects (see [`choice_of`]).
pub fn backend_choice(config: &VmConfig, unix_host: bool) -> (r: Result<BackendChoice, VmError>)
    ensures
        match r {
            Ok(c) => choice_of(config, unix_host) == Ok::<BackendChoice, Seq<char>>(c),
            Err(e) => e matches VmError::BackendNotImplemented(m) && choice_of(config, unix_host)
                == Err::<BackendChoice, Seq<char>>(m@),
        },
{
    if !config.enabled {
        return Ok(BackendChoice::Host);
    }
    if config.use_host_sandbox() {
        return Ok(BackendChoice::Host);
    }
    let b = chars_of(config.backend.as_str());
    if eq_ignore_case_str(&b, "beta") {
        return Err(
            VmError::BackendNotImplemented(
                "DEVSHELL_VM_BACKEND=beta requires building xtask-todo-lib with `--features beta-vm`",
            ),
        );
    }
    if eq_ignore_case_str(&b, "lima") {
        if unix_host {
            return Ok(BackendChoice::Lima);
        }
        return Err(VmError::BackendNotImplemented("lima backend is only supported on Linux and macOS"));
    }
    Err(
        VmError::BackendNotImplemented(
            "unknown DEVSHELL_VM_BACKEND (try host, auto, lima, or beta); see docs/devshell-vm-gamma.md",
        ),
    )
}

/// Active VM / sandbox backend for one REPL or script run.
#[derive(Debug)]
pub enum SessionHolder {
    Host(HostSandboxSession),
    /// γ: Lima + host workspace sync.
    Gamma(GammaSession),
}

impl SessionHolder {
    /// The session `config` selects on a host that is (`unix_host`) or is not Unix: the host
    /// sandbox, or a γ session built from `env` (which fails when `limactl` was not found);
    /// `BackendNotImplemented` with the message of [`choice_of`] for `beta`, for `lima` off Unix
    /// and for an unknown backend.
    pub fn try_from_config(config: &VmConfig, env: GammaEnv, unix_host: bool) -> (r: Result<SessionHolder, VmError>)
        ensures
            match r {
                Ok(SessionHolder::Host(_)) => choice_of(config, unix_host) == Ok::<BackendChoice, Seq<char>>(BackendChoice::Host),
                Ok(SessionHolder::Gamma(g)) => choice_of(config, unix_host) == Ok::<BackendChoice, Seq<char>>(BackendChoice::Lima)
                    && env.limactl is Some
                    && g.syncs() == (effective_mode(config.enabled, config.backend@, env.requested_mode)
                    == WorkspaceMode::Sync),
                Err(e) => (e matches VmError::BackendNotImplemented(m) && choice_of(config, unix_host)
                    == Err::<BackendChoice, Seq<char>>(m@)) || (choice_of(config, unix_host)
                    == Ok::<BackendChoice, Seq<char>>(BackendChoice::Lima) && env.limactl is None
                    && (e matches VmError::Lima(m) && m@ == limactl_missing_text())),
            },
    {
        match backend_choice(config, unix_host) {
            Ok(BackendChoice::Host) => Ok(SessionHolder::Host(HostSandboxSession::new())),
            Ok(BackendChoice::Lima) => match GammaSession::new(config, env) {
                Ok(g) => Ok(SessionHolder::Gamma(g)),
                Err(e) => Err(e),
            },
            Err(e) => Err(e),
        }
    }

    /// Host sandbox only.
    pub fn new_host() -> (r: SessionHolder)
        ensures
            r is Host,
    {
        SessionHolder::Host(HostSandboxSession::new())
    }

    /// A γ session in guest-primary mode (no VFS sync).
    pub open spec fn guest_primary(&self) -> bool {
        self matches SessionHolder::Gamma(g) && !g.syncs()
    }

    /// `true` when a VM session runs in guest-primary mode.
    pub fn is_guest_primary(&self) -> (r: bool)
        ensures
            r == self.guest_primary(),
    {
        match self {
            SessionHolder::Gamma(g) => !g.syncs_vfs_with_host_workspace(),
            SessionHolder::Host(_) => false,
        }
    }

    /// `true` when γ runs in guest-primary mode.
    pub fn is_guest_primary_gamma(&self) -> (r: bool)
        ensures
            r == self.guest_primary(),
    {
        self.is_guest_primary()
    }

    /// `true` when using the host temp sandbox.
    pub fn is_host_only(&self) -> (r: bool)
        ensures
            r == self is Host,
    {
        match self {
            SessionHolder::Host(_) => true,
            SessionHolder::Gamma(_) => false,
        }
    }

    /// The γ session when it is guest-primary, for direct guest file operations.
    pub fn guest_primary_gamma_mut(&mut self) -> (r: Option<&mut GammaSession>)
        ensures
            match r {
                Some(g) => old(self).guest_primary() && *old(self) == SessionHolder::Gamma(*g)
                    && *final(self) == SessionHolder::Gamma(*final(g)),
                None => !old(self).guest_primary() && *final(self) == *old(self),
            },
    {
        match self {
            SessionHolder::Gamma(g) => if !g.syncs_vfs_with_host_workspace() {
                Some(g)
            } else {
                None
            },
            SessionHolder::Host(_) => None,
        }
    }

    /// A guest-primary session's γ session (whose guest file operations run through `limactl`)
    /// with its guest mount, owned so it does not borrow the session; `None` for the host
    /// sandbox or a synced session. The session is only lent out.
    pub fn guest_primary_fs_ops_mut(&mut self) -> (r: Option<(&mut GammaSession, String)>)
        ensures
            match r {
                Some((g, m)) => old(self).guest_primary() && *old(self) == SessionHolder::Gamma(*g)
                    && m@ == g.mount() && *final(self) == SessionHolder::Gamma(*final(g)),
                None => !old(self).guest_primary() && *final(self) == *old(self),
            },
    {
        match self {
            SessionHolder::Gamma(g) => if !g.syncs_vfs_with_host_workspace() {
                let mount = string_of(&chars_of(g.guest_mount()));
                Some((g, mount))
            } else {
                None
            },
            SessionHolder::Host(_) => None,
        }
    }

    /// The guest mount of a guest-primary session (the mount guest file operations resolve
    /// logical paths against).
    pub fn guest_primary_mount(&self) -> (r: Option<String>)
        ensures
            match r {
                Some(m) => self.guest_primary() && (self matches SessionHolder::Gamma(g) && m@ == g.mount()),
                None => !self.guest_primary(),
            },
    {
        match self {
            SessionHolder::Gamma(g) => if !g.syncs_vfs_with_host_workspace() {
                Some(string_of(&chars_of(g.guest_mount())))
            } else {
                None
            },
            SessionHolder::Host(_) => None,
        }
    }
}

/// A host-only session is never guest-primary, so it has no guest-primary γ session and no
/// guest-primary mount; only a γ session can be guest-primary.
pub proof fn lemma_host_only_not_guest_primary(s: SessionHolder)
    ensures
        s is Host ==> !s.guest_primary(),
        s.guest_primary() ==> s is Gamma,
{
}

/// A `[A-Za-z0-9_-]` character.
pub open spec fn instance_char_kept(c: char) -> bool {
    ('a' <= c <= 'z') || ('A' <= c <= 'Z') || ('0' <= c <= '9') || c == '-' || c == '_'
}

/// `name` with every character outside `[A-Za-z0-9_-]` replaced by `_`.
pub open spec fn sanitized(name: Seq<char>) -> Seq<char> {
    Seq::new(name.len(), |i: int| if instance_char_kept(name[i]) {
        name[i]
    } else {
        '_'
    })
}

/// The Lima instance name as one safe path segment.
pub fn sanitize_instance_segment(name: &str) -> (r: String)
    ensures
        r@ == sanitized(name@),
{
    let v = chars_of(name);
    let mut out: Vec<char> = Vec::new();
    let mut i: usize = 0;
    while i < v.len()
        invariant
            i <= v@.len(),
            out@ == sanitized(v@).take(i as int),
        decreases v@.len() - i,
    {
        let c = v[i];
        let keep = ('a' <= c && c <= 'z') || ('A' <= c && c <= 'Z') || ('0' <= c && c <= '9') || c
            == '-' || c == '_';
        if keep {
            out.push(c);
        } else {
            out.push('_');
        }
        i = i + 1;
        assert(out@ =~= sanitized(v@).take(i as int));
    }
    assert(sanitized(v@).take(i as int) =~= sanitized(v@));
    string_of(&out)
}

/// The host workspace root used when no override applies:
/// `<export_parent>/vm-workspace/<sanitized instance>`.
pub fn workspace_parent_fallback(export_parent: &str, instance: &str) -> (r: String)
    ensures
        r@ == path_join(path_join(export_parent@, "vm-workspace"@), sanitized(instance@)),
{
    let a = join_path_str(export_parent, "vm-workspace");
    let seg = sanitize_instance_segment(instance);
    join_path_str(a.as_str(), seg.as_str())
}

/// Guest working directory for the VFS cwd (mount + last path segment).
pub fn guest_dir_for_vfs_cwd(guest_mount: &str, vfs_cwd: &str) -> (r: String)
    ensures
        r@ == project_dir(guest_mount@, vfs_cwd@),
{
    guest_project_dir_on_guest(guest_mount, vfs_cwd)
}

/// Guest directory for the VFS cwd (same rule as [`guest_dir_for_vfs_cwd`]).
pub fn guest_dir_for_cwd_inner(guest_mount: &str, vfs_cwd: &str) -> (r: String)
    ensures
        r@ == project_dir(guest_mount@, vfs_cwd@),
{
    guest_project_dir_on_guest(guest_mount, vfs_cwd)
}

/// The Cargo workspace root named by `cargo metadata` output `stdout`: the `workspace_root`
/// string of the JSON object it parses to, if it parses and has one.
pub uninterp spec fn metadata_workspace_root(stdout: Seq<u8>) -> Option<Seq<char>>;

/// Parses `stdout` with `serde_json::from_slice` into a `serde_json::Value` and takes its
/// `workspace_root` member when that is a string. Trusted: the result is that member's text,
/// `None` when parsing fails or the member is missing or not a string; what serde_json parses
/// is named, not stated.
#[verifier::external_body]
fn workspace_root_from_metadata(stdout: &[u8]) -> (r: Option<String>)
    ensures
        match r {
            Some(s) => metadata_workspace_root(stdout@) == Some(s@),
            None => metadata_workspace_root(stdout@) is None,
        },
{
    match serde_json::from_slice::<serde_json::Value>(stdout) {
        Ok(v) => match v.get("workspace_root") {
            Some(x) => match x.as_str() {
                Some(s) => Some(s.to_string()),
                None => None,
            },
            None => None,
        },
        Err(_) => None,
    }
}

/// The Cargo target directory named by `cargo metadata` output `stdout`: the `target_directory`
/// string of the JSON object it parses to, if it parses and has one.
pub uninterp spec fn metadata_target_directory(stdout: Seq<u8>) -> Option<Seq<char>>;

/// Parses `stdout` with `serde_json::from_slice` into a `serde_json::Value` and takes its
/// `target_directory` member when that is a string. Trusted: the result is that member's text,
/// `None` when parsing fails or the member is missing or not a string; what serde_json parses
/// is named, not stated.
#[verifier::external_body]
fn target_directory_from_metadata(stdout: &[u8]) -> (r: Option<String>)
    ensures
        match r {
            Some(s) => metadata_target_directory(stdout@) == Some(s@),
            None => metadata_target_directory(stdout@) is None,
        },
{
    match serde_json::from_slice::<serde_json::Value>(stdout) {
        Ok(v) => match v.get("target_directory") {
            Some(x) => match x.as_str() {
                Some(s) => Some(s.to_string()),
                None => None,
            },
            None => None,
        },
        Err(_) => None,
    }
}

/// The workspace root and target directory that `cargo metadata` output names, when it names
/// both.
pub open spec fn metadata_root_and_target(stdout: Seq<u8>) -> Option<(Seq<char>, Seq<char>)> {
    match (metadata_workspace_root(stdout), metadata_target_directory(stdout)) {
        (Some(w), Some(t)) => Some((w, t)),
        _ => None,
    }
}

/// The Cargo workspace root and target directory from the output of `cargo metadata
/// --format-version 1 --no-deps`; `None` unless it parses and names both as strings.
pub fn cargo_metadata_workspace_and_target(stdout: &[u8]) -> (r: Option<(String, String)>)
    ensures
        match r {
            Some((w, t)) => metadata_root_and_target(stdout@) == Some((w@, t@)),
            None => metadata_root_and_target(stdout@) is None,
        },
{
    let w = match workspace_root_from_metadata(stdout) {
        Some(w) => w,
        None => return None,
    };
    match target_directory_from_metadata(stdout) {
        Some(t) => Some((w, t)),
        None => None,
    }
}

/// The override text: the trimmed `DEVSHELL_VM_WORKSPACE_PARENT` value when it is not blank.
pub open spec fn parent_override(raw: Option<Seq<char>>) -> Option<Seq<char>> {
    match raw {
        Some(p) => if trim(p).len() > 0 {
            Some(trim(p))
        } else {
            None
        },
        None => None,
    }
}

/// Whether the Cargo workspace root is wanted: `DEVSHELL_VM_WORKSPACE_USE_CARGO_ROOT` unset, blank
/// or not falsy.
pub open spec fn wants_cargo_root(raw: Option<Seq<char>>) -> bool {
    match raw {
        Some(s) => !is_falsy(s),
        None => true,
    }
}

/// The host workspace root and whether it is the Cargo workspace root (which the caller
/// canonicalizes): the override, else the Cargo root `root` when wanted and known, else the
/// cache layout.
pub open spec fn parent_choice(
    parent_override_raw: Option<Seq<char>>,
    use_cargo_root: Option<Seq<char>>,
    root: Option<Seq<char>>,
    export_parent: Seq<char>,
    instance: Seq<char>,
) -> (Seq<char>, bool) {
    match parent_override(parent_override_raw) {
        Some(p) => (p, false),
        None => if wants_cargo_root(use_cargo_root) && root is Some {
            (root->0, true)
        } else {
            (path_join(path_join(export_parent, "vm-workspace"@), sanitized(instance)), false)
        },
    }
}

/// Whether the `cargo metadata` output matters: no override is set and the Cargo workspace root
/// is wanted.
pub fn workspace_parent_needs_metadata(parent_override_raw: Option<&str>, use_cargo_root: Option<&str>) -> (r: bool)
    ensures
        r == (parent_override(opt_view(parent_override_raw)) is None && wants_cargo_root(opt_view(use_cargo_root))),
{
    if let Some(p) = parent_override_raw {
        let t = trim_str(p);
        if t.len() > 0 {
            return false;
        }
    }
    match use_cargo_root {
        Some(s) => !falsy(s),
        None => true,
    }
}

/// The host workspace root shared with the VM, given the Cargo workspace root `root` (if known),
/// and whether it is that root.
pub fn workspace_parent_from_root(
    parent_override_raw: Option<&str>,
    use_cargo_root: Option<&str>,
    root: Option<&str>,
    export_parent: &str,
    instance: &str,
) -> (r: (String, bool))
    ensures
        (r.0@, r.1) == parent_choice(opt_view(parent_override_raw), opt_view(use_cargo_root), opt_view(root), export_parent@, instance@),
{
    if let Some(p) = parent_override_raw {
        let t = trim_str(p);
        if t.len() > 0 {
            return (string_of(&t), false);
        }
    }
    let want = match use_cargo_root {
        Some(s) => !falsy(s),
        None => true,
    };
    if want {
        if let Some(w) = root {
            return (string_of(&chars_of(w)), true);
        }
    }
    (workspace_parent_fallback(export_parent, instance), false)
}

/// The host workspace root shared with the VM, given the raw `cargo metadata` output (when it
/// was run and succeeded): the override, else the Cargo workspace root it names (when it names
/// both that and the target directory) when wanted, else the cache layout. The flag says the Cargo root was taken.
pub fn workspace_parent_choice(
    parent_override_raw: Option<&str>,
    use_cargo_root: Option<&str>,
    metadata_stdout: Option<&[u8]>,
    export_parent: &str,
    instance: &str,
) -> (r: (String, bool))
    ensures
        (r.0@, r.1) == parent_choice(
            opt_view(parent_override_raw),
            opt_view(use_cargo_root),
            match metadata_stdout {
                Some(b) => match metadata_root_and_target(b@) {
                    Some((w, _)) => Some(w),
                    None => None,
                },
                None => None,
            },
            export_parent@,
            instance@,
        ),
{
    let meta = match metadata_stdout {
        Some(b) => cargo_metadata_workspace_and_target(b),
        None => None,
    };
    let root_str: Option<&str> = match &meta {
        Some((w, _)) => Some(w.as_str()),
        None => None,
    };
    workspace_parent_from_root(parent_override_raw, use_cargo_root, root_str, export_parent, instance)
}

} // verus!
