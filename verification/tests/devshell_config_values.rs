use xtask_todo_lib::devshell::vm::{
    exec_timeout_ms_from_value, workspace_mode_from_value, GammaEnv, GammaSession, VmConfig,
    WorkspaceMode,
};

#[test]
fn config_workspace_mode_effective_guest_plus_host_sandbox_forces_sync() {
    let requested = workspace_mode_from_value(Some("guest"));
    let mut c = VmConfig::disabled();
    c.enabled = true;
    c.backend = "host".to_string();
    assert_eq!(c.workspace_mode_effective(requested), WorkspaceMode::Sync);
}

#[test]
fn config_workspace_mode_effective_guest_vm_off_forces_sync() {
    let requested = workspace_mode_from_value(Some("guest"));
    let mut c = VmConfig::disabled();
    c.enabled = false;
    c.backend = "lima".to_string();
    assert_eq!(c.workspace_mode_effective(requested), WorkspaceMode::Sync);
}

#[test]
fn config_workspace_mode_effective_guest_lima_enabled() {
    let requested = workspace_mode_from_value(Some("guest"));
    let mut c = VmConfig::disabled();
    c.enabled = true;
    c.backend = "lima".to_string();
    assert_eq!(c.workspace_mode_effective(requested), WorkspaceMode::Guest);
}

#[test]
fn config_workspace_mode_effective_sync_env_ignores_backend() {
    let requested = workspace_mode_from_value(Some("sync"));
    let mut c = VmConfig::disabled();
    c.enabled = true;
    c.backend = "lima".to_string();
    assert_eq!(c.workspace_mode_effective(requested), WorkspaceMode::Sync);
}

#[test]
fn config_workspace_mode_from_env_unset_defaults_sync() {
    assert_eq!(workspace_mode_from_value(None), WorkspaceMode::Sync);
}

#[test]
fn config_workspace_mode_from_env_guest() {
    assert_eq!(workspace_mode_from_value(Some("guest")), WorkspaceMode::Guest);
    assert_eq!(workspace_mode_from_value(Some("GUEST")), WorkspaceMode::Guest);
}

#[test]
fn config_from_env_devshell_vm_on() {
    let c = VmConfig::from_values(Some("on"), None, None, None, "auto");
    assert!(c.enabled);
    assert_eq!(c.backend, "auto");
}

#[test]
fn config_from_env_explicit_off_disables_vm() {
    let c = VmConfig::from_values(Some("off"), None, None, None, "auto");
    assert!(!c.enabled);
}

#[test]
fn tests_workspace_mode_effective_guest_plus_host_sandbox_forces_sync() {
    let requested = workspace_mode_from_value(Some("guest"));
    let mut c = VmConfig::disabled();
    c.enabled = true;
    c.backend = "host".to_string();
    assert_eq!(c.workspace_mode_effective(requested), WorkspaceMode::Sync);
}

#[test]
fn tests_workspace_mode_effective_guest_vm_off_forces_sync() {
    let requested = workspace_mode_from_value(Some("guest"));
    let mut c = VmConfig::disabled();
    c.enabled = false;
    c.backend = "lima".to_string();
    assert_eq!(c.workspace_mode_effective(requested), WorkspaceMode::Sync);
}

#[test]
fn tests_workspace_mode_effective_guest_lima_enabled() {
    let requested = workspace_mode_from_value(Some("guest"));
    let mut c = VmConfig::disabled();
    c.enabled = true;
    c.backend = "lima".to_string();
    assert_eq!(c.workspace_mode_effective(requested), WorkspaceMode::Guest);
}

#[test]
fn tests_workspace_mode_effective_sync_env_ignores_backend() {
    let requested = workspace_mode_from_value(Some("sync"));
    let mut c = VmConfig::disabled();
    c.enabled = true;
    c.backend = "lima".to_string();
    assert_eq!(c.workspace_mode_effective(requested), WorkspaceMode::Sync);
}

#[test]
fn tests_workspace_mode_from_env_unset_defaults_sync() {
    assert_eq!(workspace_mode_from_value(None), WorkspaceMode::Sync);
}

#[test]
fn tests_workspace_mode_from_env_guest() {
    assert_eq!(workspace_mode_from_value(Some("guest")), WorkspaceMode::Guest);
    assert_eq!(workspace_mode_from_value(Some("GUEST")), WorkspaceMode::Guest);
}

#[test]
fn tests_from_env_devshell_vm_on() {
    let c = VmConfig::from_values(Some("on"), None, None, None, "auto");
    assert!(c.enabled);
    assert_eq!(c.backend, "auto");
}

#[test]
fn tests_from_env_explicit_off_disables_vm() {
    let c = VmConfig::from_values(Some("off"), None, None, None, "auto");
    assert!(!c.enabled);
}

#[test]
fn exec_timeout_ms_from_env_unset_is_none() {
    assert_eq!(exec_timeout_ms_from_value(None), None);
}

#[test]
fn exec_timeout_ms_from_env_positive() {
    assert_eq!(exec_timeout_ms_from_value(Some(" 600000 ")), Some(600_000));
}

#[test]
fn exec_timeout_ms_from_env_zero_or_invalid_is_none() {
    assert_eq!(exec_timeout_ms_from_value(Some("0")), None);
    assert_eq!(exec_timeout_ms_from_value(Some("not_a_number")), None);
}

#[test]
fn session_gamma_gamma_session_sync_flag_follows_workspace_mode() {
    let c = VmConfig::from_values(Some("1"), Some("lima"), None, None, "auto");
    let env = |mode: &str| GammaEnv {
        limactl: Some("/usr/local/bin/limactl".to_string()),
        workspace_parent: "/tmp/ws".to_string(),
        guest_workspace: None,
        requested_mode: workspace_mode_from_value(Some(mode)),
    };
    let g = GammaSession::new(&c, env("guest")).expect("gamma");
    assert!(
        !g.syncs_vfs_with_host_workspace(),
        "guest mode should skip VFS sync"
    );
    let g2 = GammaSession::new(&c, env("sync")).expect("gamma");
    assert!(g2.syncs_vfs_with_host_workspace());
    assert_eq!(g2.guest_mount(), "/workspace");
    assert_eq!(g2.lima_instance_name(), "devshell-rust");
}

#[test]
fn tests_gamma_session_sync_flag_follows_workspace_mode() {
    let c = VmConfig::from_values(Some("1"), Some("lima"), None, None, "auto");
    let env = |mode: &str| GammaEnv {
        limactl: Some("/usr/local/bin/limactl".to_string()),
        workspace_parent: "/tmp/ws".to_string(),
        guest_workspace: None,
        requested_mode: workspace_mode_from_value(Some(mode)),
    };
    let g = GammaSession::new(&c, env("guest")).expect("gamma");
    assert!(
        !g.syncs_vfs_with_host_workspace(),
        "guest mode should skip VFS sync"
    );
    let g2 = GammaSession::new(&c, env("sync")).expect("gamma");
    assert!(g2.syncs_vfs_with_host_workspace());
    assert_eq!(g2.guest_mount(), "/workspace");
    assert_eq!(g2.lima_instance_name(), "devshell-rust");
}
