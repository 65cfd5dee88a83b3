use xtask_todo_lib::devshell::vm::{
    guest_path_is_under_mount, guest_project_dir_on_guest, normalize_guest_path,
    validate_guest_path_under_mount, GuestFsError, GuestFsOps, MockGuestFsOps,
};

#[test]
fn normalize_guest_path_dotdot() {
    assert_eq!(normalize_guest_path("/a/b/../c").as_deref(), Some("/a/c"));
    assert_eq!(normalize_guest_path("/").as_deref(), Some("/"));
}

#[test]
fn under_mount() {
    assert!(guest_path_is_under_mount("/workspace", "/workspace/foo"));
    assert!(!guest_path_is_under_mount("/workspace", "/etc/passwd"));
    assert!(!guest_path_is_under_mount(
        "/workspace",
        "/workspace/../etc/passwd"
    ));
}

#[test]
fn mock_mkdir_write_list_read_remove() {
    let mut m = MockGuestFsOps::new();
    m.mkdir("/workspace/p").unwrap();
    m.write_file("/workspace/p/a.txt", b"hi").unwrap();
    let names = m.list_dir("/workspace/p").unwrap();
    assert!(names.contains(&"a.txt".to_string()));
    assert_eq!(m.read_file("/workspace/p/a.txt").unwrap(), b"hi");
    m.remove("/workspace/p").unwrap();
    assert!(m.read_file("/workspace/p/a.txt").is_err());
}

#[test]
fn normalize_is_idempotent_on_examples() {
    for p in ["/a/./b//c/..", "  /x/../../y ", "rel/p", "/", "", "/a/b/"] {
        let once = normalize_guest_path(p).unwrap();
        let twice = normalize_guest_path(&once).unwrap();
        assert_eq!(once, twice);
    }
    assert_eq!(normalize_guest_path("  /x/../../y ").as_deref(), Some("/y"));
    assert_eq!(normalize_guest_path("rel/p").as_deref(), Some("/rel/p"));
    assert_eq!(normalize_guest_path("").as_deref(), Some("/"));
}

#[test]
fn project_dir_examples() {
    assert_eq!(guest_project_dir_on_guest("/workspace/", "/projects/hello/"), "/workspace/hello");
    assert_eq!(guest_project_dir_on_guest("/workspace", "///"), "/workspace");
    assert_eq!(guest_project_dir_on_guest("/w", "single"), "/w/single");
}

#[test]
fn root_mount_contains_everything() {
    assert!(guest_path_is_under_mount("/", "/etc"));
    assert!(guest_path_is_under_mount("/workspace/", "/workspace"));
    assert!(!guest_path_is_under_mount("/workspace", "/workspacex"));
}

#[test]
fn validate_rejects_outside_and_normalizes_inside() {
    assert_eq!(
        validate_guest_path_under_mount("/workspace", "/workspace/a/../b").unwrap(),
        "/workspace/b"
    );
    match validate_guest_path_under_mount("/workspace", "/etc/x") {
        Err(GuestFsError::InvalidPath(m)) => {
            assert_eq!(m, "path not under guest mount /workspace: /etc/x")
        }
        other => panic!("unexpected {other:?}"),
    }
}

#[test]
fn mock_errors_and_listing_order() {
    let mut m = MockGuestFsOps::new();
    assert!(matches!(m.read_file("/nope"), Err(GuestFsError::NotFound(p)) if p == "/nope"));
    m.mkdir("/d").unwrap();
    assert!(matches!(m.read_file("/d"), Err(GuestFsError::IsADirectory(p)) if p == "/d"));
    m.write_file("/d/b", b"1").unwrap();
    m.write_file("/d/a", b"2").unwrap();
    m.mkdir("/d/c/e").unwrap();
    assert_eq!(m.list_dir("/d").unwrap(), vec!["a".to_string(), "b".to_string(), "c".to_string()]);
    assert!(matches!(m.list_dir("/d/a"), Err(GuestFsError::NotADirectory(_))));
    assert!(matches!(m.write_file("/d", b"x"), Err(GuestFsError::IsADirectory(_))));
    match m.mkdir("/d/a/x") {
        Err(GuestFsError::InvalidPath(s)) => assert_eq!(s, "mkdir: file in the way: /d/a"),
        other => panic!("unexpected {other:?}"),
    }
    match m.mkdir("/d/a") {
        Err(GuestFsError::InvalidPath(s)) => assert_eq!(s, "mkdir: file exists at /d/a"),
        other => panic!("unexpected {other:?}"),
    }
    assert!(matches!(m.remove("/zz"), Err(GuestFsError::NotFound(_))));
    m.remove("/d/c").unwrap();
    assert_eq!(m.list_dir("/d").unwrap(), vec!["a".to_string(), "b".to_string()]);
}

#[test]
fn mock_write_creates_parent_and_overwrites() {
    let mut m = MockGuestFsOps::new();
    m.write_file("/p/q/r.txt", b"one").unwrap();
    assert_eq!(m.list_dir("/p").unwrap(), vec!["q".to_string()]);
    m.write_file("/p/q/r.txt", b"two").unwrap();
    assert_eq!(m.read_file("/p/./q/../q/r.txt").unwrap(), b"two");
    m.mkdir("/").unwrap();
    assert_eq!(m.list_dir("/").unwrap(), vec!["p".to_string()]);
}
