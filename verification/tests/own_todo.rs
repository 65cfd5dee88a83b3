use xtask_todo_lib::{
    InMemoryStore, ListFilter, ListOptions, ListSort, Priority, RepeatRule, Timestamp, Todo,
    TodoError, TodoId, TodoList, TodoPatch,
};

fn todo(id: u64, title: &str) -> Todo {
    Todo {
        id: TodoId::from_raw(id).unwrap(),
        title: title.to_string(),
        completed: false,
        created_at: Timestamp { nanos: 5 },
        completed_at: None,
        description: None,
        due_date: None,
        priority: None,
        tags: vec![],
        repeat_rule: None,
        repeat_until: None,
        repeat_count: None,
    }
}

#[test]
fn next_due_dates_for_each_rule() {
    assert_eq!(RepeatRule::Daily.next_due_date(" 2024-02-28 ").as_deref(), Some("2024-02-29"));
    assert_eq!(RepeatRule::Daily.next_due_date("2024-12-31").as_deref(), Some("2025-01-01"));
    assert_eq!(RepeatRule::Monthly.next_due_date("2025-01-31").as_deref(), Some("2025-02-28"));
    assert_eq!(RepeatRule::Monthly.next_due_date("2025-12-05").as_deref(), Some("2026-01-05"));
    assert_eq!(RepeatRule::Yearly.next_due_date("2024-02-29"), None);
    assert_eq!(RepeatRule::Weekdays.next_due_date("2025-01-17").as_deref(), Some("2025-01-20"));
    assert_eq!(RepeatRule::Weekdays.next_due_date("2025-01-20").as_deref(), Some("2025-01-21"));
    assert_eq!(RepeatRule::Custom(0).next_due_date("2025-01-15").as_deref(), Some("2025-01-15"));
    assert_eq!(RepeatRule::Weekly.next_due_date("2025-13-01"), None);
    assert!(RepeatRule::Custom(3).step_defined_for("not a date"));
    assert!(!RepeatRule::Custom(2_147_483_648).step_defined_for("2025-01-15"));
}

#[test]
fn rule_and_priority_texts_round_trip() {
    for r in [
        RepeatRule::Daily,
        RepeatRule::Weekly,
        RepeatRule::Monthly,
        RepeatRule::Yearly,
        RepeatRule::Weekdays,
        RepeatRule::Custom(0),
        RepeatRule::Custom(4_294_967_295),
    ] {
        assert_eq!(r.to_display_string().parse::<RepeatRule>(), Ok(r));
    }
    for p in [Priority::Low, Priority::Medium, Priority::High] {
        assert_eq!(p.to_display_string().parse::<Priority>(), Ok(p));
    }
    assert_eq!(" HIGH ".parse::<Priority>(), Ok(Priority::High));
    assert_eq!("Custom:7".parse::<RepeatRule>(), Ok(RepeatRule::Custom(7)));
    assert!("custom:4294967296".parse::<RepeatRule>().is_err());
    assert!("613566757w".parse::<RepeatRule>().is_err());
    assert_eq!("+2D".parse::<RepeatRule>(), Ok(RepeatRule::Custom(2)));
}

#[test]
fn search_lowercases_unicode() {
    let mut a = todo(1, "ÄPFEL kaufen");
    a.tags = vec!["Obst".to_string()];
    let list = TodoList::with_store(InMemoryStore::from_todos(vec![a, todo(2, "milk")]));
    assert_eq!(list.search("äpfel").len(), 1);
    assert_eq!(list.search("  ÄPFEL  ").len(), 1);
    assert_eq!(list.search("obst")[0].id.as_u64(), 1);
    assert_eq!(list.search("zzz").len(), 0);
}

#[test]
fn complete_counts_down_and_respects_until() {
    let mut t = todo(1, "r");
    t.due_date = Some("2025-01-10".to_string());
    t.repeat_rule = Some(RepeatRule::Weekly);
    t.repeat_count = Some(3);
    t.repeat_until = Some("2025-01-17".to_string());
    let mut list = TodoList::with_store(InMemoryStore::from_todos(vec![t]));
    list.complete(TodoId::from_raw(1).unwrap(), false).unwrap();
    let items = list.list();
    assert_eq!(items.len(), 2);
    assert_eq!(items[1].id.as_u64(), 2);
    assert_eq!(items[1].due_date.as_deref(), Some("2025-01-17"));
    assert_eq!(items[1].repeat_count, Some(2));
    assert!(items[1].completed_at.is_none());
    list.complete(TodoId::from_raw(2).unwrap(), false).unwrap();
    assert_eq!(list.list().len(), 2);
}

#[test]
fn try_complete_refuses_out_of_range_step() {
    let mut t = todo(1, "far");
    t.due_date = Some("2025-01-15".to_string());
    t.repeat_rule = Some(RepeatRule::Custom(2_147_483_648));
    let mut list = TodoList::with_store(InMemoryStore::from_todos(vec![t]));
    assert!(list.try_complete(TodoId::from_raw(1).unwrap(), false).is_none());
    assert!(!list.list()[0].completed);
    assert_eq!(list.try_complete(TodoId::from_raw(1).unwrap(), true), Some(Ok(())));
    assert!(list.list()[0].completed);
    assert_eq!(
        list.try_complete(TodoId::from_raw(9).unwrap(), false),
        Some(Err(TodoError::NotFound(TodoId::from_raw(9).unwrap())))
    );
}

#[test]
fn list_with_options_ties_and_filters() {
    let mut a = todo(1, "same");
    a.priority = Some(Priority::High);
    a.tags = vec!["x".to_string()];
    let mut b = todo(2, "same");
    b.tags = vec!["y".to_string()];
    let mut c = todo(3, "aaa");
    c.priority = Some(Priority::Low);
    c.completed = true;
    let list = TodoList::with_store(InMemoryStore::from_todos(vec![a, b, c]));
    let by_title = list.list_with_options(&ListOptions { filter: None, sort: ListSort::Title });
    let ids: Vec<u64> = by_title.iter().map(|t| t.id.as_u64()).collect();
    assert_eq!(ids, vec![3, 1, 2]);
    let by_priority = list.list_with_options(&ListOptions { filter: None, sort: ListSort::Priority });
    let ids: Vec<u64> = by_priority.iter().map(|t| t.id.as_u64()).collect();
    assert_eq!(ids, vec![2, 3, 1]);
    let open_x = list.list_with_options(&ListOptions {
        filter: Some(ListFilter {
            status: Some(false),
            tags_any: Some(vec!["x".to_string(), "z".to_string()]),
            ..ListFilter::default()
        }),
        sort: ListSort::CreatedAt,
    });
    assert_eq!(open_x.len(), 1);
    assert_eq!(open_x[0].id.as_u64(), 1);
}

#[test]
fn stats_on_empty_and_update_errors() {
    let mut list = TodoList::new();
    assert_eq!(list.stats(), (0, 0, 0));
    let missing = TodoId::from_raw(4).unwrap();
    assert_eq!(list.update(missing, TodoPatch::default()), Err(TodoError::NotFound(missing)));
    let id = list.create("x").unwrap();
    assert_eq!(
        list.update(id, TodoPatch { title: Some("  ".to_string()), ..TodoPatch::default() }),
        Err(TodoError::InvalidInput)
    );
    assert_eq!(list.update_title(missing, " "), Err(TodoError::InvalidInput));
    assert_eq!(list.update_title(missing, "t"), Err(TodoError::NotFound(missing)));
    assert_eq!(list.delete(missing), Err(TodoError::NotFound(missing)));
    assert_eq!(list.create(" \t\n"), Err(TodoError::InvalidInput));
}

#[test]
fn delete_undoes_create() {
    let mut list = TodoList::with_store(InMemoryStore::from_todos(vec![todo(1, "keep")]));
    let before = list.list();
    let id = list.create("temp").unwrap();
    list.delete(id).unwrap();
    assert_eq!(list.list(), before);
}

#[test]
fn ids_and_texts() {
    assert_eq!(TodoId::from_raw(u64::MAX).unwrap().to_display_string(), "18446744073709551615");
    assert_eq!(TodoId::from_raw(7).unwrap().as_u64(), 7);
    assert_eq!(RepeatRule::Custom(12).to_display_string(), "custom:12");
}
