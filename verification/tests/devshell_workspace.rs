use xtask_todo_lib::devshell::vm::MockGuestFsOps;
use xtask_todo_lib::devshell::workspace::{
    logical_path_to_guest, resolve_path_with_cwd, GuestPrimaryBackend, WorkspaceBackendError,
};

#[test]
fn logical_path_to_guest_under_cwd() {
    let g = logical_path_to_guest("/workspace", "/projects/hello", "/projects/hello/src/a.rs")
        .unwrap();
    assert_eq!(g, "/workspace/hello/src/a.rs");
}

#[test]
fn logical_path_to_guest_rejects_escape() {
    assert!(logical_path_to_guest("/workspace", "/projects/hello", "/etc/passwd").is_err());
}

#[test]
fn guest_primary_backend_mock_resolves_and_writes() {
    let mut b = GuestPrimaryBackend::new(
        "/workspace".to_string(),
        "/projects/foo".to_string(),
        Box::new(MockGuestFsOps::new()),
    );
    b.write_file("/projects/foo/x.txt", b"hi").unwrap();
    assert_eq!(b.read_file("/projects/foo/x.txt").unwrap(), b"hi");
    assert_eq!(
        b.try_resolve_guest_path("/projects/foo/x.txt").unwrap(),
        "/workspace/foo/x.txt"
    );
}

#[test]
fn relative_paths_resolve_against_cwd() {
    assert_eq!(resolve_path_with_cwd("/a/b", "c/../d"), "/a/b/d");
    assert_eq!(resolve_path_with_cwd("/a/b", "/x/./y"), "/x/y");
    assert_eq!(resolve_path_with_cwd("/a", ".."), "/");
    assert_eq!(
        logical_path_to_guest("/workspace", "/projects/hello", "src/main.rs").unwrap(),
        "/workspace/hello/src/main.rs"
    );
    assert_eq!(
        logical_path_to_guest("/workspace", "/projects/hello", ".").unwrap(),
        "/workspace/hello"
    );
}

#[test]
fn backend_outside_workspace_and_exists() {
    let mut b = GuestPrimaryBackend::new(
        "/workspace".to_string(),
        "/projects/foo".to_string(),
        Box::new(MockGuestFsOps::new()),
    );
    assert!(matches!(
        b.read_file("/etc/passwd"),
        Err(WorkspaceBackendError::PathOutsideWorkspace)
    ));
    assert!(!b.path_exists("/projects/foo/none").unwrap());
    b.mkdir("/projects/foo/dir").unwrap();
    assert!(b.path_exists("/projects/foo/dir").unwrap());
    b.write_file("/projects/foo/dir/f", b"z").unwrap();
    assert!(b.path_exists("/projects/foo/dir/f").unwrap());
    assert_eq!(b.list_dir("/projects/foo/dir").unwrap(), vec!["f".to_string()]);
    b.remove("/projects/foo/dir").unwrap();
    assert!(!b.path_exists("/projects/foo/dir/f").unwrap());
    b.set_logical_cwd("../bar").unwrap();
    assert_eq!(b.logical_cwd(), "/projects/bar");
    assert_eq!(b.guest_mount(), "/workspace");
}
