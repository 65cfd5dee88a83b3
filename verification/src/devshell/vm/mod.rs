//! Optional devshell VM execution: configuration, guest paths and file operations, sessions.

pub mod bootstrap;
pub mod config;
pub mod guest_fs_ops;
pub mod guest_path;
pub mod lima_diagnostics;
pub mod podman_machine;
pub mod session;

pub use config::{
    default_backend_for_release, exec_timeout_ms_from_value, falsy, truthy, vm_enabled_from_value,
    workspace_mode_from_value, yes_value, VmConfig, WorkspaceMode,
};
pub use guest_fs_ops::{
    validate_guest_path_under_mount, FsErr, GuestFsError, GuestFsOps, MockGuestFsOps,
};
pub use guest_path::{guest_path_is_under_mount, guest_project_dir_on_guest, normalize_guest_path};
pub use lima_diagnostics::{
    bash_single_quoted, guest_misconfiguration_warnings, hints_enabled_from_value,
    lima_home_from_values, lima_shell_workdir_and_inner, lima_yaml_path, log_mentions_kvm_denied,
    parse_probe_output, sh_word, start_failure_hints, tool_failure_hints, yaml_has_mount_point,
    yaml_has_rust_env, yaml_mentions_host_toolchain_mounts, yaml_mentions_workspace_staging,
    GuestProbe, GuestWarning, StartHint, ToolHint,
};
pub use podman_machine::windows_host_path_to_vm_mnt;
pub use session::{
    backend_choice, guest_dir_for_cwd_inner, guest_dir_for_vfs_cwd, sanitize_instance_segment,
    cargo_metadata_workspace_and_target, workspace_parent_choice, workspace_parent_fallback, workspace_parent_from_root,
    workspace_parent_needs_metadata, BackendChoice, GammaEnv, GammaSession, HostSandboxSession,
    SessionHolder, VmError,
};
