use xtask_todo_lib::{InMemoryStore, ListFilter, ListOptions, ListSort, RepeatRule, Timestamp, Todo, TodoId, TodoList, TodoPatch};

#[test]
fn list_create_inserts_into_store() {
    let mut list = TodoList::new();
    let id = list.create("task").unwrap();
    assert!(id.as_u64() >= 1);
}

#[test]
fn list_list_with_options_sort_title() {
    let now = Timestamp { nanos: 1_700_000_000_000_000_000 };
    let todos = vec![
        Todo {
            id: TodoId::from_raw(1).unwrap(),
            title: "z".into(),
            completed: false,
            created_at: now,
            completed_at: None,
            description: None,
            due_date: None,
            priority: None,
            tags: vec![],
            repeat_rule: None,
            repeat_until: None,
            repeat_count: None,
        },
        Todo {
            id: TodoId::from_raw(2).unwrap(),
            title: "a".into(),
            completed: false,
            created_at: now,
            completed_at: None,
            description: None,
            due_date: None,
            priority: None,
            tags: vec![],
            repeat_rule: None,
            repeat_until: None,
            repeat_count: None,
        },
    ];
    let list = TodoList::with_store(InMemoryStore::from_todos(todos));
    let by_title = list.list_with_options(&ListOptions {
        filter: None,
        sort: ListSort::Title,
    });
    assert_eq!(by_title[0].title, "a");
}

#[test]
fn list_list_with_options_filter_due_after() {
    let now = Timestamp { nanos: 1_700_000_000_000_000_000 };
    let todos = vec![
        Todo {
            id: TodoId::from_raw(1).unwrap(),
            title: "early".into(),
            completed: false,
            created_at: now,
            completed_at: None,
            description: None,
            due_date: Some("2025-06-01".into()),
            priority: None,
            tags: vec![],
            repeat_rule: None,
            repeat_until: None,
            repeat_count: None,
        },
        Todo {
            id: TodoId::from_raw(2).unwrap(),
            title: "late".into(),
            completed: false,
            created_at: now,
            completed_at: None,
            description: None,
            due_date: Some("2025-07-01".into()),
            priority: None,
            tags: vec![],
            repeat_rule: None,
            repeat_until: None,
            repeat_count: None,
        },
    ];
    let list = TodoList::with_store(InMemoryStore::from_todos(todos));
    let filtered = list.list_with_options(&ListOptions {
        filter: Some(ListFilter {
            due_after: Some("2025-06-15".into()),
            ..ListFilter::default()
        }),
        sort: ListSort::CreatedAt,
    });
    assert_eq!(filtered.len(), 1);
    assert_eq!(filtered[0].title, "late");
}

#[test]
fn list_update_title_and_patch_repeat_clear() {
    let mut list = TodoList::new();
    let id = list.create("t").unwrap();
    list.update_title(id, "updated").unwrap();
    assert_eq!(list.get(id).unwrap().title, "updated");
    list.update(
        id,
        TodoPatch {
            repeat_rule: Some(RepeatRule::Daily),
            repeat_until: Some("2025-12-31".into()),
            ..TodoPatch::default()
        },
    )
    .unwrap();
    list.update(
        id,
        TodoPatch {
            repeat_rule_clear: true,
            ..TodoPatch::default()
        },
    )
    .unwrap();
    assert!(list.get(id).unwrap().repeat_rule.is_none());
}

#[test]
fn list_search_matches_description_and_tags() {
    let mut list = TodoList::new();
    let _ = list.create("x").unwrap();
    let id2 = list.create("y").unwrap();
    list.update(
        id2,
        TodoPatch {
            description: Some("secret".into()),
            tags: Some(vec!["tag".into()]),
            ..TodoPatch::default()
        },
    )
    .unwrap();
    let by_desc = list.search("secret");
    assert_eq!(by_desc.len(), 1);
    let by_tag = list.search("tag");
    assert_eq!(by_tag.len(), 1);
}
