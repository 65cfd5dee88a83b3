use xtask_todo_lib::{InMemoryStore, Timestamp, Todo, TodoId, TodoList};

#[test]
fn from_todos_empty() {
    let store = InMemoryStore::from_todos(vec![]);
    let mut list = TodoList::with_store(store);
    let id = list.create("first").unwrap();
    assert_eq!(id.as_u64(), 1);
    assert_eq!(list.list().len(), 1);
}

#[test]
fn from_todos_with_existing() {
    let created_at = Timestamp { nanos: 1_700_000_000_000_000_000 };
    let id1 = TodoId::from_raw(1).unwrap();
    let id2 = TodoId::from_raw(2).unwrap();
    let todos = vec![
        Todo {
            id: id1,
            title: "a".into(),
            completed: false,
            created_at,
            completed_at: None,
            description: None,
            due_date: None,
            priority: None,
            tags: Vec::new(),
            repeat_rule: None,
            repeat_until: None,
            repeat_count: None,
        },
        Todo {
            id: id2,
            title: "b".into(),
            completed: true,
            created_at,
            completed_at: Some(created_at),
            description: None,
            due_date: None,
            priority: None,
            tags: Vec::new(),
            repeat_rule: None,
            repeat_until: None,
            repeat_count: None,
        },
    ];
    let store = InMemoryStore::from_todos(todos);
    let mut list = TodoList::with_store(store);
    let id3 = list.create("c").unwrap();
    assert_eq!(id3.as_u64(), 3);
    let items = list.list();
    assert_eq!(items.len(), 3);
    assert_eq!(items[0].title, "a");
    assert_eq!(items[1].title, "b");
    assert_eq!(items[2].title, "c");
}
