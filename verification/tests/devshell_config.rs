use xtask_todo_lib::devshell::vm::{
    exec_timeout_ms_from_value, falsy, truthy, vm_enabled_from_value, workspace_mode_from_value,
    GammaEnv, SessionHolder, VmConfig, VmError, WorkspaceMode,
};

fn no_lima() -> GammaEnv {
    GammaEnv {
        limactl: None,
        workspace_parent: "/tmp/ws".to_string(),
        guest_workspace: None,
        requested_mode: WorkspaceMode::Sync,
    }
}

#[test]
fn config_use_host_sandbox_lima_false() {
    let mut c = VmConfig::disabled();
    c.backend = "lima".to_string();
    assert!(!c.use_host_sandbox());
}

#[test]
fn tests_use_host_sandbox_lima_false() {
    let mut c = VmConfig::disabled();
    c.backend = "lima".to_string();
    assert!(!c.use_host_sandbox());
}

#[test]
fn config_try_from_config_beta_requires_feature_flag() {
    let mut c = VmConfig::disabled();
    c.enabled = true;
    c.backend = "beta".to_string();
    c.lima_instance = "devshell-rust".to_string();
    let r = SessionHolder::try_from_config(&c, no_lima(), true);
    let Err(VmError::BackendNotImplemented(msg)) = r else {
        panic!("expected BackendNotImplemented, got {r:?}");
    };
    assert!(
        msg.contains("beta-vm"),
        "message should mention beta-vm: {msg}"
    );
}

#[test]
fn tests_try_from_config_beta_requires_feature_flag() {
    let mut c = VmConfig::disabled();
    c.enabled = true;
    c.backend = "beta".to_string();
    c.lima_instance = "devshell-rust".to_string();
    let r = SessionHolder::try_from_config(&c, no_lima(), true);
    let Err(VmError::BackendNotImplemented(msg)) = r else {
        panic!("expected BackendNotImplemented, got {r:?}");
    };
    assert!(
        msg.contains("beta-vm"),
        "message should mention beta-vm: {msg}"
    );
}

#[test]
fn config_try_from_config_beta_errors_without_beta_vm_feature() {
    let mut c = VmConfig::disabled();
    c.enabled = true;
    c.backend = "beta".to_string();
    c.lima_instance = "devshell-rust".to_string();
    let r = SessionHolder::try_from_config(&c, no_lima(), true);
    assert!(matches!(r, Err(VmError::BackendNotImplemented(_))));
}

#[test]
fn tests_try_from_config_beta_errors_without_beta_vm_feature() {
    let mut c = VmConfig::disabled();
    c.enabled = true;
    c.backend = "beta".to_string();
    c.lima_instance = "devshell-rust".to_string();
    let r = SessionHolder::try_from_config(&c, no_lima(), true);
    assert!(matches!(r, Err(VmError::BackendNotImplemented(_))));
}

#[test]
fn try_from_config_vm_off_returns_host_session() {
    let cfg = VmConfig {
        enabled: false,
        backend: "lima".to_string(),
        eager_start: false,
        lima_instance: "devshell-rust".to_string(),
    };
    let session = SessionHolder::try_from_config(&cfg, no_lima(), true).expect("vm off should not fail");
    assert!(matches!(session, SessionHolder::Host(_)));
}

#[test]
fn try_from_config_host_like_backends_return_host_session() {
    for backend in ["host", "auto", ""] {
        let cfg = VmConfig {
            enabled: true,
            backend: backend.to_string(),
            eager_start: false,
            lima_instance: "devshell-rust".to_string(),
        };
        let session = SessionHolder::try_from_config(&cfg, no_lima(), true)
            .expect("host-like backend should not fail");
        assert!(
            matches!(session, SessionHolder::Host(_)),
            "backend={backend:?} should resolve to host session"
        );
    }
}

#[test]
fn try_from_config_lima_without_limactl_is_lima_error() {
    let mut c = VmConfig::disabled();
    c.enabled = true;
    c.backend = "LIMA".to_string();
    c.lima_instance = "devshell-rust".to_string();
    let r = SessionHolder::try_from_config(&c, no_lima(), true);
    match r {
        Err(VmError::Lima(m)) => assert!(m.contains("limactl not found")),
        other => panic!("expected Lima error, got {other:?}"),
    }
}

#[test]
fn try_from_config_lima_with_limactl_builds_gamma() {
    let mut c = VmConfig::disabled();
    c.enabled = true;
    c.backend = "lima".to_string();
    c.lima_instance = "my.vm".to_string();
    let env = GammaEnv {
        limactl: Some("/usr/bin/limactl".to_string()),
        workspace_parent: "/home/u/ws".to_string(),
        guest_workspace: Some("  /work  ".to_string()),
        requested_mode: WorkspaceMode::Guest,
    };
    let r = SessionHolder::try_from_config(&c, env, true).unwrap();
    assert!(r.is_guest_primary());
    assert!(!r.is_host_only());
    match &r {
        SessionHolder::Gamma(g) => {
            assert_eq!(g.guest_mount(), "/work");
            assert_eq!(g.lima_instance_name(), "my.vm");
            assert_eq!(g.limactl_path(), "/usr/bin/limactl");
            assert_eq!(g.workspace_parent(), "/home/u/ws");
            assert!(!g.syncs_vfs_with_host_workspace());
        }
        SessionHolder::Host(_) => panic!("expected gamma"),
    }
    assert_eq!(r.guest_primary_mount().as_deref(), Some("/work"));
    let mut r = r;
    assert_eq!(r.guest_primary_gamma_mut().map(|g| g.guest_mount().to_string()).as_deref(), Some("/work"));
    assert!(SessionHolder::new_host().guest_primary_gamma_mut().is_none());
}

#[test]
fn unknown_backend_is_not_implemented() {
    let mut c = VmConfig::disabled();
    c.enabled = true;
    c.backend = "qemu".to_string();
    let r = SessionHolder::try_from_config(&c, no_lima(), true);
    assert!(matches!(r, Err(VmError::BackendNotImplemented(_))));
}

#[test]
fn new_host_is_host_only() {
    let s = SessionHolder::new_host();
    assert!(s.is_host_only());
    assert!(!s.is_guest_primary());
    assert!(!s.is_guest_primary_gamma());
    assert!(s.guest_primary_mount().is_none());
}

#[test]
fn truthy_and_falsy_words() {
    assert!(truthy(" TRUE "));
    assert!(truthy("1"));
    assert!(truthy("On"));
    assert!(!truthy("2"));
    assert!(falsy("off"));
    assert!(falsy(" No"));
    assert!(!falsy("yes"));
}

#[test]
fn workspace_mode_value_guest_any_case() {
    assert_eq!(workspace_mode_from_value(None), WorkspaceMode::Sync);
    assert_eq!(workspace_mode_from_value(Some("guest")), WorkspaceMode::Guest);
    assert_eq!(workspace_mode_from_value(Some(" GUEST ")), WorkspaceMode::Guest);
    assert_eq!(workspace_mode_from_value(Some("sync")), WorkspaceMode::Sync);
}

#[test]
fn exec_timeout_values() {
    assert_eq!(exec_timeout_ms_from_value(None), None);
    assert_eq!(exec_timeout_ms_from_value(Some(" 600000 ")), Some(600_000));
    assert_eq!(exec_timeout_ms_from_value(Some("0")), None);
    assert_eq!(exec_timeout_ms_from_value(Some("not_a_number")), None);
    assert_eq!(exec_timeout_ms_from_value(Some("18446744073709551616")), None);
}

#[test]
fn vm_enabled_values() {
    assert!(vm_enabled_from_value(None));
    assert!(!vm_enabled_from_value(Some("  ")));
    assert!(!vm_enabled_from_value(Some("off")));
    assert!(vm_enabled_from_value(Some("on")));
    assert!(!vm_enabled_from_value(Some("maybe")));
}

#[test]
fn from_values_defaults_and_trimming() {
    let c = VmConfig::from_values(Some("1"), None, Some("yes"), Some("  "), "lima");
    assert!(c.enabled);
    assert_eq!(c.backend, "lima");
    assert!(c.eager_start);
    assert_eq!(c.lima_instance, "devshell-rust");
    let c2 = VmConfig::from_values(Some("on"), Some(" host "), None, Some(" vm1 "), "lima");
    assert_eq!(c2.backend, "host");
    assert!(!c2.eager_start);
    assert_eq!(c2.lima_instance, "vm1");
    assert!(c2.use_host_sandbox());
}

#[test]
fn workspace_mode_effective_cases() {
    let mut c = VmConfig::disabled();
    c.enabled = true;
    c.backend = "host".to_string();
    assert_eq!(c.workspace_mode_effective(WorkspaceMode::Guest), WorkspaceMode::Sync);
    c.enabled = false;
    c.backend = "lima".to_string();
    assert_eq!(c.workspace_mode_effective(WorkspaceMode::Guest), WorkspaceMode::Sync);
    c.enabled = true;
    assert_eq!(c.workspace_mode_effective(WorkspaceMode::Guest), WorkspaceMode::Guest);
    assert_eq!(c.workspace_mode_effective(WorkspaceMode::Sync), WorkspaceMode::Sync);
    c.backend = "Beta".to_string();
    assert_eq!(c.workspace_mode_effective(WorkspaceMode::Guest), WorkspaceMode::Guest);
}

#[test]
fn vm_error_texts_and_yes_values() {
    assert_eq!(
        VmError::BackendNotImplemented("x").to_display_string(),
        "vm backend not implemented: x"
    );
    assert_eq!(VmError::Lima("boom".to_string()).to_display_string(), "boom");
    assert!(xtask_todo_lib::devshell::vm::yes_value(Some(" YES ")));
    assert!(!xtask_todo_lib::devshell::vm::yes_value(Some("on")));
    assert!(!xtask_todo_lib::devshell::vm::yes_value(None));
}
