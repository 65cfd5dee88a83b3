//! Configuration for optional devshell VM execution (`DEVSHELL_VM`, backend, Lima instance), as
//! decided from the raw environment values.

use vstd::prelude::*;

use crate::text::{
    ascii_lower_seq, chars_of, eq_ignore_ascii_case, eq_ignore_case_str, parse_u64_chars,
    parse_u64_spec, seq_eq_str, string_of, to_ascii_lower, trim, trim_str,
};

verus! {

/// How the devshell workspace is backed: memory VFS + push/pull (`Sync`) vs guest-primary
/// (`Guest`).
#[derive(Debug, Clone, Copy, PartialEq, Eq, Structural)]
pub enum WorkspaceMode {
    /// Mode S: in-memory VFS authority; `cargo`/`rustup` sync with the guest.
    Sync,
    /// Mode P: the guest mount is the source of truth for the project tree.
    Guest,
}

/// Parsed VM-related environment.
#[derive(Debug, Clone, PartialEq, Eq)]
pub struct VmConfig {
    /// `DEVSHELL_VM` enabled.
    pub enabled: bool,
    /// Raw backend string (trimmed).
    pub backend: String,
    /// Eager VM/session start when the REPL opens (vs lazy on first `rustup`/`cargo`).
    pub eager_start: bool,
    /// Lima instance name.
    pub lima_instance: String,
}

/// `s` (trimmed) is `1`, `true`, `yes` or `on` (the words in any ASCII case).
pub open spec fn is_truthy(s: Seq<char>) -> bool {
    let t = trim(s);
    t == "1"@ || eq_ignore_ascii_case(t, "true"@) || eq_ignore_ascii_case(t, "yes"@)
        || eq_ignore_ascii_case(t, "on"@)
}

/// `s` (trimmed) is `0`, `false`, `no` or `off` (the words in any ASCII case).
pub open spec fn is_falsy(s: Seq<char>) -> bool {
    let t = trim(s);
    t == "0"@ || eq_ignore_ascii_case(t, "false"@) || eq_ignore_ascii_case(t, "no"@)
        || eq_ignore_ascii_case(t, "off"@)
}

/// Whether `s` is a "yes" value.
pub fn truthy(s: &str) -> (r: bool)
    ensures
        r == is_truthy(s@),
{
    let t = trim_str(s);
    seq_eq_str(&t, "1") || eq_ignore_case_str(&t, "true") || eq_ignore_case_str(&t, "yes")
        || eq_ignore_case_str(&t, "on")
}

/// `s` (trimmed) is `1`, `true` or `yes` (the words in any ASCII case).
pub open spec fn is_yes(s: Seq<char>) -> bool {
    let t = trim(s);
    t == "1"@ || eq_ignore_ascii_case(t, "true"@) || eq_ignore_ascii_case(t, "yes"@)
}

/// Whether an optional switch value (`DEVSHELL_VM_INTERNAL_REPL`, …) is set to a yes word.
pub fn yes_value(raw: Option<&str>) -> (r: bool)
    ensures
        r == (raw matches Some(s) && is_yes(s@)),
{
    match raw {
        Some(s) => {
            let t = trim_str(s);
            seq_eq_str(&t, "1") || eq_ignore_case_str(&t, "true") || eq_ignore_case_str(&t, "yes")
        },
        None => false,
    }
}

/// Whether `s` is a "no" value.
pub fn falsy(s: &str) -> (r: bool)
    ensures
        r == is_falsy(s@),
{
    let t = trim_str(s);
    seq_eq_str(&t, "0") || eq_ignore_case_str(&t, "false") || eq_ignore_case_str(&t, "no")
        || eq_ignore_case_str(&t, "off")
}

/// The requested workspace mode for a raw `DEVSHELL_VM_WORKSPACE_MODE` value: `Guest` for
/// `guest` (trimmed, any ASCII case), else `Sync`.
pub open spec fn requested_mode(raw: Option<Seq<char>>) -> WorkspaceMode {
    match raw {
        Some(s) => if eq_ignore_ascii_case(trim(s), "guest"@) {
            WorkspaceMode::Guest
        } else {
            WorkspaceMode::Sync
        },
        None => WorkspaceMode::Sync,
    }
}

/// Optional text as characters.
pub open spec fn opt_view(raw: Option<&str>) -> Option<Seq<char>> {
    match raw {
        Some(s) => Some(s@),
        None => None,
    }
}

/// The workspace mode a `DEVSHELL_VM_WORKSPACE_MODE` value (if set) requests.
pub fn workspace_mode_from_value(raw: Option<&str>) -> (r: WorkspaceMode)
    ensures
        r == requested_mode(opt_view(raw)),
{
    match raw {
        Some(s) => {
            let t = trim_str(s);
            if eq_ignore_case_str(&t, "guest") {
                WorkspaceMode::Guest
            } else {
                WorkspaceMode::Sync
            }
        },
        None => WorkspaceMode::Sync,
    }
}

/// The `exec` timeout a `DEVSHELL_VM_EXEC_TIMEOUT_MS` value gives: a positive integer of
/// milliseconds (after trimming), else none.
pub open spec fn exec_timeout_spec(raw: Option<Seq<char>>) -> Option<u64> {
    match raw {
        Some(s) => match parse_u64_spec(trim(s)) {
            Some(ms) => if ms > 0 {
                Some(ms)
            } else {
                None
            },
            None => None,
        },
        None => None,
    }
}

/// Milliseconds for the β `exec` timeout from a raw value, `None` if unset, invalid or zero.
pub fn exec_timeout_ms_from_value(raw: Option<&str>) -> (r: Option<u64>)
    ensures
        r == exec_timeout_spec(opt_view(raw)),
{
    match raw {
        Some(s) => {
            let t = trim_str(s);
            match parse_u64_chars(&t) {
                Some(ms) => if ms > 0 {
                    Some(ms)
                } else {
                    None
                },
                None => None,
            }
        },
        None => None,
    }
}

/// Whether a `DEVSHELL_VM` value enables the VM: unset enables; empty (after trimming) or a
/// "no" value disables; otherwise a "yes" value enables.
pub open spec fn vm_enabled_spec(raw: Option<Seq<char>>) -> bool {
    match raw {
        None => true,
        Some(s) => if trim(s).len() == 0 {
            false
        } else if is_falsy(s) {
            false
        } else {
            is_truthy(s)
        },
    }
}

pub fn vm_enabled_from_value(raw: Option<&str>) -> (r: bool)
    ensures
        r == vm_enabled_spec(opt_view(raw)),
{
    match raw {
        None => true,
        Some(s) => {
            let t = trim_str(s);
            if t.len() == 0 {
                false
            } else if falsy(s) {
                false
            } else {
                truthy(s)
            }
        },
    }
}

/// A raw value trimmed, or `default` when unset or empty after trimming.
pub open spec fn trimmed_or(raw: Option<Seq<char>>, default: Seq<char>) -> Seq<char> {
    match raw {
        Some(s) => if trim(s).len() > 0 {
            trim(s)
        } else {
            default
        },
        None => default,
    }
}

fn trimmed_or_default(raw: Option<&str>, default: &str) -> (r: String)
    ensures
        r@ == trimmed_or(opt_view(raw), default@),
{
    match raw {
        Some(s) => {
            let t = trim_str(s);
            if t.len() > 0 {
                return string_of(&t);
            }
        },
        None => {},
    }
    string_of(&chars_of(default))
}

/// The backend used when `DEVSHELL_VM_BACKEND` is unset: `lima` (Unix hosts).
pub fn default_backend_for_release() -> (r: String)
    ensures
        r@ == "lima"@,
{
    string_of(&chars_of("lima"))
}

/// The normalized backend selects the host sandbox: `host`, `auto` or empty (ASCII case ignored).
pub open spec fn host_sandbox_backend(backend: Seq<char>) -> bool {
    let b = ascii_lower_seq(backend);
    b == "host"@ || b == "auto"@ || b.len() == 0
}

/// The normalized backend is `lima` or `beta` (ASCII case ignored).
pub open spec fn guest_capable_backend(backend: Seq<char>) -> bool {
    let b = ascii_lower_seq(backend);
    b == "lima"@ || b == "beta"@
}

/// The mode in effect: `Guest` only when it is requested, the VM is enabled, the backend is not
/// the host sandbox and is `lima` or `beta`; `Sync` otherwise.
pub open spec fn effective_mode(enabled: bool, backend: Seq<char>, requested: WorkspaceMode) -> WorkspaceMode {
    if requested == WorkspaceMode::Sync {
        WorkspaceMode::Sync
    } else if !enabled || host_sandbox_backend(backend) {
        WorkspaceMode::Sync
    } else if guest_capable_backend(backend) {
        WorkspaceMode::Guest
    } else {
        WorkspaceMode::Sync
    }
}

impl VmConfig {
    /// A configuration from the raw values of `DEVSHELL_VM`, `DEVSHELL_VM_BACKEND`,
    /// `DEVSHELL_VM_EAGER` and `DEVSHELL_VM_LIMA_INSTANCE` (each `None` when unset), with
    /// `default_backend` for an unset or empty backend.
    pub fn from_values(
        vm: Option<&str>,
        backend: Option<&str>,
        eager: Option<&str>,
        lima_instance: Option<&str>,
        default_backend: &str,
    ) -> (c: VmConfig)
        ensures
            c.enabled == vm_enabled_spec(opt_view(vm)),
            c.backend@ == trimmed_or(opt_view(backend), default_backend@),
            c.eager_start == (eager matches Some(s) && is_truthy(s@)),
            c.lima_instance@ == trimmed_or(opt_view(lima_instance), "devshell-rust"@),
    {
        let enabled = vm_enabled_from_value(vm);
        let backend = trimmed_or_default(backend, default_backend);
        let eager_start = match eager {
            Some(s) => truthy(s),
            None => false,
        };
        let lima_instance = trimmed_or_default(lima_instance, "devshell-rust");
        VmConfig { enabled, backend, eager_start, lima_instance }
    }

    /// Config with VM mode off.
    pub fn disabled() -> (c: VmConfig)
        ensures
            !c.enabled,
            c.backend@ == Seq::<char>::empty(),
            !c.eager_start,
            c.lima_instance@ == Seq::<char>::empty(),
    {
        VmConfig {
            enabled: false,
            backend: String::new(),
            eager_start: false,
            lima_instance: String::new(),
        }
    }

    /// `host`, `auto` (or an empty backend) use the host temp sandbox.
    pub fn use_host_sandbox(&self) -> (r: bool)
        ensures
            r == host_sandbox_backend(self.backend@),
    {
        let b = to_ascii_lower(&chars_of(self.backend.as_str()));
        seq_eq_str(&b, "host") || seq_eq_str(&b, "auto") || b.len() == 0
    }

    /// The workspace mode in effect for the `requested` one (see [`effective_mode`]).
    pub fn workspace_mode_effective(&self, requested: WorkspaceMode) -> (r: WorkspaceMode)
        ensures
            r == effective_mode(self.enabled, self.backend@, requested),
    {
        if let WorkspaceMode::Sync = requested {
            return WorkspaceMode::Sync;
        }
        if !self.enabled || self.use_host_sandbox() {
            return WorkspaceMode::Sync;
        }
        let b = to_ascii_lower(&chars_of(self.backend.as_str()));
        if seq_eq_str(&b, "lima") || seq_eq_str(&b, "beta") {
            WorkspaceMode::Guest
        } else {
            WorkspaceMode::Sync
        }
    }
}

} // verus!
