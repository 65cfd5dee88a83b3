use xtask_todo_lib::devshell::vm::lima_diagnostics::{
    guest_misconfiguration_warnings, lima_shell_workdir_and_inner, start_failure_hints,
    tool_failure_hints, GuestWarning, StartHint, ToolHint,
};
use xtask_todo_lib::devshell::vm::{
    bash_single_quoted, guest_dir_for_cwd_inner, guest_dir_for_vfs_cwd, hints_enabled_from_value,
    lima_home_from_values, lima_yaml_path, parse_probe_output, sanitize_instance_segment, sh_word,
    windows_host_path_to_vm_mnt, workspace_parent_fallback, yaml_has_mount_point,
    yaml_has_rust_env, yaml_mentions_host_toolchain_mounts, yaml_mentions_workspace_staging,
    GuestProbe,
};

#[test]
fn yaml_has_mount_point_detects_workspace() {
    let y = "mounts:\n  - location: \"~\"\n  - location: \"~/.cache/foo\"\n    mountPoint: /workspace\n    writable: true\n";
    assert!(yaml_has_mount_point(y, "/workspace"));
    assert!(!yaml_has_mount_point(y, "/work"));
}

#[test]
fn yaml_has_rust_env_detects() {
    let y = "env:\n  RUSTUP_HOME: /host-rustup\n  CARGO_HOME: /host-cargo\n";
    assert!(yaml_has_rust_env(y));
}

#[test]
fn yaml_mentions_workspace_staging_paths() {
    let p = "/home/x/.cache/cargo-devshell-exports/vm-workspace/devshell-rust";
    let y = "location: /home/x/.cache/cargo-devshell-exports/vm-workspace/devshell-rust\n";
    assert!(yaml_mentions_workspace_staging(y, p));
}

#[test]
fn wraps_plain_path() {
    assert_eq!(
        bash_single_quoted("/workspace/p/target/release"),
        "'/workspace/p/target/release'"
    );
}

#[test]
fn session_gamma_guest_dir_for_cwd_root() {
    assert_eq!(guest_dir_for_cwd_inner("/workspace", "/"), "/workspace");
}

#[test]
fn session_gamma_guest_dir_for_cwd_nested() {
    assert_eq!(
        guest_dir_for_cwd_inner("/workspace", "/projects/hello"),
        "/workspace/hello"
    );
}

#[test]
fn session_gamma_sanitize_instance_replaces_dots() {
    assert_eq!(sanitize_instance_segment("a.b"), "a_b");
}

#[test]
fn tests_guest_dir_for_cwd_root() {
    assert_eq!(guest_dir_for_cwd_inner("/workspace", "/"), "/workspace");
}

#[test]
fn tests_guest_dir_for_cwd_nested() {
    assert_eq!(
        guest_dir_for_cwd_inner("/workspace", "/projects/hello"),
        "/workspace/hello"
    );
}

#[test]
fn tests_sanitize_instance_replaces_dots() {
    assert_eq!(sanitize_instance_segment("a.b"), "a_b");
}

#[test]
fn mount_point_variants() {
    assert!(yaml_has_mount_point("  mountPoint: \"/workspace/\"\r\n", "/workspace"));
    assert!(yaml_has_mount_point("- mountPoint: '/workspace'", "/workspace/"));
    assert!(!yaml_has_mount_point("mountPoint /workspace", "/workspace"));
    assert!(!yaml_has_mount_point("", "/workspace"));
}

#[test]
fn toolchain_mounts_need_both() {
    assert!(yaml_mentions_host_toolchain_mounts("a host-rustup b host-cargo"));
    assert!(!yaml_mentions_host_toolchain_mounts("host-rustup only"));
    assert!(!yaml_has_rust_env("RUSTUP_HOME: x"));
}

#[test]
fn staging_by_name_or_path() {
    assert!(yaml_mentions_workspace_staging("x ws1 y", "/tmp/ws1/"));
    assert!(!yaml_mentions_workspace_staging("nothing", "/tmp/ws1/.."));
    assert!(yaml_mentions_workspace_staging("see /tmp/a/..", "/tmp/a/.."));
}

#[test]
fn sh_word_quotes_unsafe() {
    assert_eq!(sh_word(""), None);
    assert_eq!(sh_word("/work_space/a-b.c").as_deref(), Some("/work_space/a-b.c"));
    assert_eq!(sh_word("a b").as_deref(), Some("'a b'"));
    assert_eq!(sh_word("it's").as_deref(), Some("'it'\\''s'"));
    assert_eq!(bash_single_quoted("a'b"), "'a'\"'\"'b'");
}

#[test]
fn probe_output_parsing() {
    assert_eq!(
        parse_probe_output("1 0 1\n"),
        Some(GuestProbe { guest_mount_exists: true, project_dir_exists: false, cargo_in_path: true })
    );
    assert_eq!(parse_probe_output("1 1"), None);
    assert_eq!(
        parse_probe_output("  0\t1  01 extra"),
        Some(GuestProbe { guest_mount_exists: false, project_dir_exists: true, cargo_in_path: false })
    );
}

#[test]
fn lima_paths() {
    assert_eq!(lima_home_from_values(Some(" /opt/lima "), Some("/home/u")), "/opt/lima");
    assert_eq!(lima_home_from_values(Some(""), Some("/home/u")), "/home/u/.lima");
    assert_eq!(lima_home_from_values(None, None), ".lima");
    assert_eq!(lima_yaml_path("/home/u/.lima", "devshell-rust"), "/home/u/.lima/devshell-rust/lima.yaml");
    assert_eq!(lima_yaml_path("/home/u/.lima/", "vm"), "/home/u/.lima/vm/lima.yaml");
    assert_eq!(workspace_parent_fallback("/cache/exports", "my.instance"), "/cache/exports/vm-workspace/my_instance");
    assert!(hints_enabled_from_value(None));
    assert!(!hints_enabled_from_value(Some("0")));
    assert!(!hints_enabled_from_value(Some(" ")));
    assert!(hints_enabled_from_value(Some("yes")));
}

#[test]
fn guest_dir_for_vfs_cwd_is_leaf() {
    assert_eq!(guest_dir_for_vfs_cwd("/workspace", "/a/b/c"), "/workspace/c");
}

#[test]
fn windows_paths_map_to_mnt() {
    assert_eq!(windows_host_path_to_vm_mnt(r"C:\Users\me\ws").as_deref(), Some("/mnt/c/Users/me/ws"));
    assert_eq!(windows_host_path_to_vm_mnt(r"\\?\D:\x").as_deref(), Some("/mnt/d/x"));
    assert_eq!(windows_host_path_to_vm_mnt("/unix/path"), None);
    assert_eq!(windows_host_path_to_vm_mnt("C"), None);
}

#[test]
fn hint_selection() {
    assert_eq!(start_failure_hints(Some("failed to initialize kvm; template x not found"), false),
        vec![StartHint::KvmDenied, StartHint::NoYaml, StartHint::MissingTemplate]);
    assert_eq!(start_failure_hints(None, true), vec![]);
    let probe = GuestProbe { guest_mount_exists: true, project_dir_exists: false, cargo_in_path: false };
    assert_eq!(guest_misconfiguration_warnings(Some(probe), "mountPoint: /workspace", "/workspace"),
        vec![GuestWarning::ProjectDirMissing, GuestWarning::CargoMissing]);
    assert_eq!(guest_misconfiguration_warnings(None, "", "/workspace"), vec![GuestWarning::ProbeFailed]);
    assert_eq!(tool_failure_hints("ls", Some(1), false, true, "", "/w", None), vec![]);
    assert_eq!(tool_failure_hints("cargo", Some(127), true, true, "", "/w", Some(probe)),
        vec![ToolHint::KvmDenied, ToolHint::ProjectDirMissing, ToolHint::ToolNotOnPath,
             ToolHint::YamlLacksMountPoint, ToolHint::SuggestToolchainMounts, ToolHint::Guide]);
    assert_eq!(tool_failure_hints("rustup", None, false, false, "", "/w", None), vec![ToolHint::NoYaml]);
}

#[test]
fn shell_inner_text() {
    let (w, inner) = lima_shell_workdir_and_inner("/workspace", None, None, None);
    assert_eq!(w, "/workspace");
    assert_eq!(inner, "exec bash -l");
    let (w2, inner2) = lima_shell_workdir_and_inner("/workspace", Some("/workspace/p"), Some("/workspace/p/target/release"), None);
    assert_eq!(w2, "/workspace/p");
    assert_eq!(inner2, "export PATH='/workspace/p/target/release':$PATH; export GUEST_PROJ='/workspace/p'; if [ -d \"$GUEST_PROJ\" ]; then cd \"$GUEST_PROJ\" || true; fi; exec bash -l");
}
