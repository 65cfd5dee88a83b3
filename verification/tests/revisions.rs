use xtask_todo_lib::devshell::vm::bootstrap::{
    build_essential_step, sidecar_step, todo_hint_step, BuildEssentialAction, BuildEssentialEvent,
    BuildEssentialState, HintAction, HintState, ProbeEvent, SidecarAction, SidecarEvent,
    SidecarState,
};
use xtask_todo_lib::devshell::vm::{
    backend_choice, cargo_metadata_workspace_and_target, validate_guest_path_under_mount, workspace_parent_choice,
    workspace_parent_from_root, workspace_parent_needs_metadata, BackendChoice, GammaEnv,
    GuestFsError, GuestFsOps, MockGuestFsOps, SessionHolder, VmConfig, VmError, WorkspaceMode,
};
use xtask_todo_lib::devshell::workspace::backend::GuestPrimaryBackend;
use xtask_todo_lib::devshell::workspace::{exists_from_outcomes, WorkspaceBackendError};
use xtask_todo_lib::{
    InMemoryStore, ListFilter, ListOptions, ListSort, RepeatRule, Timestamp, Todo, TodoId,
    TodoList,
};

fn todo_at(id: u64, title: &str, secs: i128, due: Option<&str>) -> Todo {
    Todo {
        id: TodoId::from_raw(id).unwrap(),
        title: title.to_string(),
        completed: false,
        created_at: Timestamp { nanos: secs * 1_000_000_000 },
        completed_at: None,
        description: None,
        due_date: due.map(str::to_string),
        priority: None,
        tags: vec![],
        repeat_rule: None,
        repeat_until: None,
        repeat_count: None,
    }
}

#[test]
fn empty_tags_any_still_applies_due_bounds() {
    let list = TodoList::with_store(InMemoryStore::from_todos(vec![
        todo_at(1, "no due", 0, None),
        todo_at(2, "with due", 0, Some("2025-06-01")),
    ]));
    let r = list.list_with_options(&ListOptions {
        filter: Some(ListFilter {
            tags_any: Some(vec![]),
            due_before: Some("2025-07-01".into()),
            ..ListFilter::default()
        }),
        sort: ListSort::CreatedAt,
    });
    assert_eq!(r.len(), 1);
    assert_eq!(r[0].title, "with due");
}

#[test]
fn store_lists_in_creation_order() {
    let s = InMemoryStore::from_todos(vec![todo_at(1, "later", 10, None), todo_at(2, "earlier", 0, None)]);
    let list = TodoList::with_store(s);
    let ids: Vec<u64> = list.list().iter().map(|t| t.id.as_u64()).collect();
    assert_eq!(ids, vec![2, 1]);
    let found: Vec<u64> = list.search("").iter().map(|t| t.id.as_u64()).collect();
    assert_eq!(found, vec![2, 1]);
}

#[test]
fn creation_order_ties_by_id() {
    let s = InMemoryStore::from_todos(vec![todo_at(3, "c", 5, None), todo_at(1, "a", 5, None), todo_at(2, "b", 1, None)]);
    let ids: Vec<u64> = TodoList::with_store(s).list().iter().map(|t| t.id.as_u64()).collect();
    assert_eq!(ids, vec![2, 1, 3]);
}

#[test]
fn try_complete_at_last_id_without_next_instance() {
    let mut list = TodoList::with_store(InMemoryStore::from_todos(vec![todo_at(u64::MAX, "last", 0, None)]));
    let id = TodoId::from_raw(u64::MAX).unwrap();
    assert_eq!(list.try_complete(id, false), Some(Ok(())));
    assert!(list.get(id).unwrap().completed);
}

#[test]
fn try_complete_at_last_id_refuses_next_instance() {
    let mut t = todo_at(u64::MAX, "daily", 0, Some("2025-01-01"));
    t.repeat_rule = Some(RepeatRule::Daily);
    let mut list = TodoList::with_store(InMemoryStore::from_todos(vec![t]));
    let id = TodoId::from_raw(u64::MAX).unwrap();
    assert_eq!(list.try_complete(id, false), None);
    assert!(!list.get(id).unwrap().completed);
    assert_eq!(list.try_complete(id, true), Some(Ok(())));
}

#[test]
fn relative_guest_path_is_invalid() {
    let r = validate_guest_path_under_mount("/workspace", "workspace/foo");
    assert!(matches!(r, Err(GuestFsError::InvalidPath(ref p)) if p == "workspace/foo"));
    assert_eq!(validate_guest_path_under_mount("/workspace", "  /workspace/foo").unwrap(), "/workspace/foo");
}

#[test]
fn removing_root_clears_tree() {
    let mut m = MockGuestFsOps::new();
    m.mkdir("/").unwrap();
    m.write_file("/workspace/p/a.txt", b"x").unwrap();
    m.remove("/").unwrap();
    assert!(matches!(m.read_file("/workspace/p/a.txt"), Err(GuestFsError::NotFound(_))));
    assert!(matches!(m.list_dir("/workspace"), Err(GuestFsError::NotADirectory(_))));
}

#[test]
fn backend_reads_what_it_wrote() {
    let mut b = GuestPrimaryBackend::new(
        "/workspace".to_string(),
        "/projects/foo".to_string(),
        Box::new(MockGuestFsOps::new()),
    );
    b.write_file("/projects/foo/x.txt", b"hi").unwrap();
    assert_eq!(b.read_file("x.txt").unwrap(), b"hi".to_vec());
    assert_eq!(b.try_resolve_guest_path("x.txt").unwrap(), "/workspace/foo/x.txt");
    b.remove("/projects/foo/x.txt").unwrap();
    assert!(b.read_file("/projects/foo/x.txt").is_err());
}

fn lima_config() -> VmConfig {
    let mut c = VmConfig::disabled();
    c.enabled = true;
    c.backend = "lima".to_string();
    c.lima_instance = "devshell-rust".to_string();
    c
}

#[test]
fn try_from_config_lima_errors_on_non_unix() {
    let c = lima_config();
    let env = GammaEnv {
        limactl: Some("/usr/bin/limactl".into()),
        workspace_parent: "/w".into(),
        guest_workspace: None,
        requested_mode: WorkspaceMode::Sync,
    };
    let r = SessionHolder::try_from_config(&c, env, false);
    assert!(matches!(r, Err(VmError::BackendNotImplemented(_))));
    assert!(matches!(backend_choice(&c, true), Ok(BackendChoice::Lima)));
}

#[test]
fn beta_message_names_feature() {
    let mut c = lima_config();
    c.backend = "BETA".to_string();
    match backend_choice(&c, true) {
        Err(VmError::BackendNotImplemented(msg)) => assert!(msg.contains("beta-vm")),
        _ => panic!("expected BackendNotImplemented"),
    }
}

#[test]
fn workspace_parent_legacy_cache_when_cargo_disabled() {
    assert!(!workspace_parent_needs_metadata(None, Some("0")));
    let (p, from_cargo) = workspace_parent_choice(None, Some("0"), None, "/cache", "my.instance");
    assert!(p.contains("vm-workspace") && p.contains("my_instance"), "{p}");
    assert!(!from_cargo);
}

#[test]
fn workspace_parent_override_and_cargo_root() {
    assert!(!workspace_parent_needs_metadata(Some(" /ws "), None));
    assert_eq!(workspace_parent_choice(Some(" /ws "), None, None, "/c", "i"), ("/ws".to_string(), false));
    assert!(workspace_parent_needs_metadata(Some("  "), Some("yes")));
    let json = br#"{"packages":[],"workspace_root":"/home/me/repo","target_directory":"/t"}"#;
    assert_eq!(
        workspace_parent_choice(Some("  "), None, Some(&json[..]), "/c", "i"),
        ("/home/me/repo".to_string(), true)
    );
    assert_eq!(workspace_parent_choice(None, None, Some(&b"not json"[..]), "/c", "i"), ("/c/vm-workspace/i".to_string(), false));
    assert_eq!(workspace_parent_from_root(None, Some("off"), Some("/r"), "/c", "i"), ("/c/vm-workspace/i".to_string(), false));
    assert_eq!(workspace_parent_from_root(None, Some("1"), Some("/r"), "/c", "i"), ("/r".to_string(), true));
}

#[test]
fn recurrence_step_on_dates() {
    assert_eq!(RepeatRule::Monthly.step_ymd(2025, 1, 31), Some((2025, 2, 28)));
    assert_eq!(RepeatRule::Daily.step_ymd(2024, 2, 28), Some((2024, 2, 29)));
    assert_eq!(RepeatRule::Yearly.step_ymd(2024, 2, 29), None);
    assert_eq!(RepeatRule::Weekdays.step_ymd(2025, 6, 6), Some((2025, 6, 9)));
    assert_eq!(RepeatRule::Custom(10).step_ymd(2025, 12, 25), Some((2026, 1, 4)));
    assert_eq!(RepeatRule::Daily.step_ymd(2025, 2, 30), None);
}

#[test]
fn build_essential_sequence() {
    assert_eq!(build_essential_step(BuildEssentialState::Idle, BuildEssentialEvent::Begin { enabled: false }), (BuildEssentialState::Done, BuildEssentialAction::Nothing));
    assert_eq!(build_essential_step(BuildEssentialState::Idle, BuildEssentialEvent::Begin { enabled: true }), (BuildEssentialState::ProbingGcc, BuildEssentialAction::ProbeGcc));
    assert_eq!(build_essential_step(BuildEssentialState::ProbingGcc, BuildEssentialEvent::GccProbe(true)), (BuildEssentialState::Done, BuildEssentialAction::Nothing));
    assert_eq!(build_essential_step(BuildEssentialState::ProbingGcc, BuildEssentialEvent::GccProbe(false)), (BuildEssentialState::ProbingApt, BuildEssentialAction::AnnounceAndProbeApt));
    assert_eq!(build_essential_step(BuildEssentialState::ProbingApt, BuildEssentialEvent::AptProbe(false)), (BuildEssentialState::Done, BuildEssentialAction::ReportNoApt));
    assert_eq!(build_essential_step(BuildEssentialState::ProbingApt, BuildEssentialEvent::AptProbe(true)), (BuildEssentialState::Installing, BuildEssentialAction::RunInstall));
    assert_eq!(build_essential_step(BuildEssentialState::Installing, BuildEssentialEvent::InstallFinished(false)), (BuildEssentialState::Done, BuildEssentialAction::ReportInstallFailed));
    assert_eq!(build_essential_step(BuildEssentialState::Done, BuildEssentialEvent::Begin { enabled: true }), (BuildEssentialState::Done, BuildEssentialAction::Nothing));
}

#[test]
fn todo_hint_sequence() {
    assert_eq!(todo_hint_step(HintState::Idle, ProbeEvent::Begin { enabled: true }), (HintState::ProbingTodo, HintAction::ProbeTodo));
    assert_eq!(todo_hint_step(HintState::ProbingTodo, ProbeEvent::TodoProbe(true)), (HintState::Done, HintAction::Nothing));
    assert_eq!(todo_hint_step(HintState::ProbingTodo, ProbeEvent::TodoProbe(false)), (HintState::ReadingMetadata, HintAction::ReportMissing));
    let e = ProbeEvent::Metadata {
        metadata_ok: true,
        host_has_todo: true,
        release_dir_mapped: false,
        guest_workspace_mapped: true,
        auto_build: true,
    };
    assert_eq!(
        todo_hint_step(HintState::ReadingMetadata, e),
        (
            HintState::Building,
            HintAction::Advise {
                checkout_hints: false,
                host_build_hint: true,
                outside_mount_hints: true,
                guest_build_hint: true,
                run_build: true,
            }
        )
    );
    assert_eq!(todo_hint_step(HintState::Building, ProbeEvent::BuildFinished(true)), (HintState::Done, HintAction::ReportBuilt));
}

#[test]
fn sidecar_sequence() {
    let mut s = SidecarState::Start;
    let steps = [
        (SidecarEvent::Begin { skip_bootstrap: false }, SidecarAction::ProbePort),
        (SidecarEvent::Reachable(false), SidecarAction::ProbePodman),
        (SidecarEvent::PodmanVersion(false), SidecarAction::TryInstallPodman),
        (SidecarEvent::InstallAttempted, SidecarAction::ProbePodman),
        (SidecarEvent::PodmanVersion(true), SidecarAction::StartEngine),
        (SidecarEvent::EngineStarted, SidecarAction::FindRepo),
        (SidecarEvent::RepoFound(true), SidecarAction::CheckImage),
        (SidecarEvent::ImageExists(false), SidecarAction::BuildImage),
        (SidecarEvent::BuildFinished(true), SidecarAction::RunContainer),
        (SidecarEvent::RunFinished(true), SidecarAction::WaitForPort),
        (SidecarEvent::WaitFinished(false), SidecarAction::FailWait),
    ];
    for (e, want) in steps {
        let (n, a) = sidecar_step(s, e);
        assert_eq!(a, want);
        s = n;
    }
    assert_eq!(s, SidecarState::Finished);
    let (_, a) = sidecar_step(SidecarState::CheckingPodman { install_tried: true }, SidecarEvent::PodmanVersion(false));
    assert_eq!(a, SidecarAction::FailNoPodman);
}

#[test]
fn exists_decided_from_outcomes() {
    assert!(matches!(exists_from_outcomes(Ok(vec![1]), None), Ok(true)));
    assert!(matches!(exists_from_outcomes(Err(GuestFsError::IsADirectory("/d".into())), None), Ok(true)));
    assert!(matches!(
        exists_from_outcomes(Err(GuestFsError::NotFound("/x".into())), Some(Ok(vec![]))),
        Ok(true)
    ));
    assert!(matches!(
        exists_from_outcomes(Err(GuestFsError::NotFound("/x".into())), Some(Err(GuestFsError::NotFound("/x".into())))),
        Ok(false)
    ));
    assert!(matches!(
        exists_from_outcomes(Err(GuestFsError::NotFound("/x".into())), Some(Err(GuestFsError::NotADirectory("/x".into())))),
        Ok(false)
    ));
    assert!(matches!(
        exists_from_outcomes(Err(GuestFsError::NotFound("/x".into())), Some(Err(GuestFsError::Internal("boom".into())))),
        Err(WorkspaceBackendError::Guest(GuestFsError::Internal(ref m))) if m == "boom"
    ));
    assert!(matches!(
        exists_from_outcomes(Err(GuestFsError::InvalidPath("p".into())), None),
        Err(WorkspaceBackendError::Guest(GuestFsError::InvalidPath(_)))
    ));
}

#[test]
fn backend_path_exists_over_mock() {
    let mut b = GuestPrimaryBackend::new("/workspace".to_string(), "/projects/foo".to_string(), Box::new(MockGuestFsOps::new()));
    assert!(!b.path_exists("a.txt").unwrap());
    b.write_file("d/a.txt", b"1").unwrap();
    assert!(b.path_exists("d/a.txt").unwrap());
    assert!(b.path_exists("d").unwrap());
    assert!(!b.path_exists("d/b.txt").unwrap());
    assert!(b.path_exists("/elsewhere/x").is_err());
}

#[test]
fn lima_without_limactl_names_it() {
    let c = lima_config();
    let env = GammaEnv { limactl: None, workspace_parent: "/w".into(), guest_workspace: None, requested_mode: WorkspaceMode::Sync };
    match SessionHolder::try_from_config(&c, env, true) {
        Err(VmError::Lima(m)) => assert!(m.contains("limactl not found in PATH")),
        _ => panic!("expected Lima error"),
    }
}

#[test]
fn list_and_search_orders_agree() {
    let list = TodoList::with_store(InMemoryStore::from_todos(vec![
        todo_at(1, "Buy milk", 30, None),
        todo_at(2, "CamelCase Title", 10, None),
        todo_at(3, "buy bread", 20, None),
    ]));
    let all: Vec<u64> = list.list().iter().map(|t| t.id.as_u64()).collect();
    assert_eq!(all, vec![2, 3, 1]);
    let found: Vec<u64> = list.search(" BUY ").iter().map(|t| t.id.as_u64()).collect();
    assert_eq!(found, vec![3, 1]);
    assert_eq!(list.search("camelcase").len(), 1);
}

#[test]
fn creation_before_epoch_sorts_first() {
    let s = InMemoryStore::from_todos(vec![todo_at(1, "now", 0, None), todo_at(2, "old", -5, None)]);
    let ids: Vec<u64> = TodoList::with_store(s).list().iter().map(|t| t.id.as_u64()).collect();
    assert_eq!(ids, vec![2, 1]);
}

#[test]
fn metadata_needs_root_and_target() {
    let both = br#"{"workspace_root":"/r","target_directory":"/r/target"}"#;
    assert_eq!(
        cargo_metadata_workspace_and_target(both),
        Some(("/r".to_string(), "/r/target".to_string()))
    );
    let root_only = br#"{"workspace_root":"/r"}"#;
    assert_eq!(cargo_metadata_workspace_and_target(root_only), None);
    assert_eq!(cargo_metadata_workspace_and_target(br#"{"workspace_root":"/r","target_directory":3}"#), None);
    assert_eq!(cargo_metadata_workspace_and_target(b"[1,2"), None);
    assert_eq!(
        workspace_parent_choice(None, None, Some(&root_only[..]), "/c", "i"),
        ("/c/vm-workspace/i".to_string(), false)
    );
}

#[test]
fn guest_primary_fs_ops_only_for_unsynced_gamma() {
    let mut host = SessionHolder::new_host();
    assert!(host.guest_primary_fs_ops_mut().is_none());
    let mut c = lima_config();
    c.lima_instance = "dev".to_string();
    let env = |mode: WorkspaceMode| GammaEnv {
        limactl: Some("/usr/bin/limactl".into()),
        workspace_parent: "/w".into(),
        guest_workspace: Some(" /ws ".into()),
        requested_mode: mode,
    };
    let mut guest = SessionHolder::try_from_config(&c, env(WorkspaceMode::Guest), true).unwrap();
    assert!(guest.is_guest_primary());
    match guest.guest_primary_fs_ops_mut() {
        Some((g, m)) => {
            assert_eq!(m, "/ws");
            assert_eq!(g.guest_mount(), "/ws");
        }
        None => panic!("expected the guest-primary session"),
    }
    let mut synced = SessionHolder::try_from_config(&c, env(WorkspaceMode::Sync), true).unwrap();
    assert!(synced.guest_primary_fs_ops_mut().is_none());
}
