use task_manager::task_manager::{StoreError, TaskManager, TaskPriority, TaskStatus};

const PATH: &str = "persist_tasks.json";

fn entry_text(id: u32, title: &str, created_at: &str, priority: &str) -> String {
    format!(
        "  \"{}\": {{\n    \"id\": {},\n    \"title\": \"{}\",\n    \"description\": \"\",\n    \"status\": \"Todo\",\n    \"created_at\": \"{}\",\n    \"priority\": \"{}\"\n  }}",
        id, id, title, created_at, priority
    )
}

#[test]
fn create_on_empty_store_assigns_id_one_and_snapshots_todo() {
    let mut store = TaskManager::new(PATH);

    let id = store.add_task_with_timestamp(
        "Buy milk".to_string(),
        "2 liters".to_string(),
        TaskPriority::Low,
        "2024-01-01 00:00:00".to_string(),
    );

    assert_eq!(id, 1);
    let expected = "{\n  \"1\": {\n    \"id\": 1,\n    \"title\": \"Buy milk\",\n    \"description\": \"2 liters\",\n    \"status\": \"Todo\",\n    \"created_at\": \"2024-01-01 00:00:00\",\n    \"priority\": \"Low\"\n  }\n}";
    assert_eq!(store.to_json(), expected);
}

#[test]
fn empty_store_snapshots_to_empty_object() {
    let store = TaskManager::new(PATH);
    assert_eq!(store.to_json(), "{}");
}

#[test]
fn empty_snapshot_loads_to_empty_store() {
    let loaded = TaskManager::from_json(PATH, "{}").unwrap();
    assert_eq!(loaded.len(), 0);

    let mut loaded = loaded;
    let id = loaded.add_task("First".to_string(), "".to_string(), TaskPriority::Low);
    assert_eq!(id, 1);
}

#[test]
fn snapshot_round_trip_preserves_tasks_and_counter() {
    let mut store = TaskManager::new(PATH);
    store.add_task_with_timestamp(
        "Task 1".to_string(),
        "Description 1".to_string(),
        TaskPriority::High,
        "2024-01-01 08:30:00".to_string(),
    );
    store.add_task_with_timestamp(
        "Task 2".to_string(),
        "Description 2".to_string(),
        TaskPriority::Low,
        "2024-01-02 09:45:10".to_string(),
    );

    let text = store.to_json();
    let mut reloaded = TaskManager::from_json(PATH, text.as_str()).unwrap();

    assert_eq!(reloaded.len(), 2);
    let first = reloaded.get_task(1).unwrap();
    assert_eq!(first.title, "Task 1");
    assert_eq!(first.description, "Description 1");
    assert_eq!(first.status, TaskStatus::Todo);
    assert_eq!(first.priority, TaskPriority::High);
    assert_eq!(first.created_at, "2024-01-01 08:30:00");
    let second = reloaded.get_task(2).unwrap();
    assert_eq!(second.title, "Task 2");
    assert_eq!(second.priority, TaskPriority::Low);

    // the snapshot re-persists byte for byte
    assert_eq!(reloaded.to_json(), text);

    // next_id is recomputed as max(id) + 1
    let next = reloaded.add_task("Task 3".to_string(), "".to_string(), TaskPriority::Medium);
    assert_eq!(next, 3);
}

#[test]
fn round_trip_preserves_escaped_text() {
    let mut store = TaskManager::new(PATH);
    store.add_task_with_timestamp(
        "say \"hi\"\\now".to_string(),
        "line one\nline two\ttabbed\u{1}".to_string(),
        TaskPriority::Medium,
        "2024-06-01 12:00:00".to_string(),
    );

    let text = store.to_json();
    let reloaded = TaskManager::from_json(PATH, text.as_str()).unwrap();

    let task = reloaded.get_task(1).unwrap();
    assert_eq!(task.title, "say \"hi\"\\now");
    assert_eq!(task.description, "line one\nline two\ttabbed\u{1}");
    assert!(text.contains("\\\"hi\\\""));
    assert!(text.contains("\\n"));
    assert!(text.contains("\\u0001"));
}

#[test]
fn load_tasks_with_invalid_json() {
    let result = TaskManager::from_json("test_tasks.json", "invalid json");

    assert!(result.is_err());
    match result {
        Err(e) => assert_eq!(e, StoreError::Corrupt),
        Ok(_) => panic!("loading corrupt text must fail"),
    }
}

#[test]
fn corrupt_or_mismatched_text_is_rejected() {
    assert!(TaskManager::from_json(PATH, "").is_err());
    assert!(TaskManager::from_json(PATH, "null").is_err());
    assert!(TaskManager::from_json(PATH, "[]").is_err());
    assert!(TaskManager::from_json(PATH, "{ }").is_err());
    assert!(TaskManager::from_json(PATH, "{\"1\": 2}").is_err());
    assert!(TaskManager::from_json(PATH, "{\n  \"1\": {\n    \"id\": 1\n  }\n}").is_err());
}

#[test]
fn duplicate_ids_in_snapshot_are_rejected() {
    let e = entry_text(1, "A", "2024-01-01 00:00:00", "Low");
    let text = format!("{{\n{},\n{}\n}}", e, e);
    assert!(TaskManager::from_json(PATH, text.as_str()).is_err());
}

#[test]
fn zero_id_in_snapshot_is_rejected() {
    let e = entry_text(0, "A", "2024-01-01 00:00:00", "Low");
    let text = format!("{{\n{}\n}}", e);
    assert!(TaskManager::from_json(PATH, text.as_str()).is_err());
}

#[test]
fn key_and_id_mismatch_is_rejected() {
    let good = entry_text(2, "A", "2024-01-01 00:00:00", "Low");
    let text = format!("{{\n{}\n}}", good);
    // sanity: the well-formed entry loads
    assert!(TaskManager::from_json(PATH, text.as_str()).is_ok());

    let bad = text.replacen("\"2\"", "\"7\"", 1);
    assert!(TaskManager::from_json(PATH, bad.as_str()).is_err());
}

#[test]
fn loaded_counter_sits_above_largest_id() {
    let a = entry_text(3, "A", "2024-01-01 00:00:00", "Low");
    let b = entry_text(9, "B", "2024-01-01 00:00:00", "High");
    let text = format!("{{\n{},\n{}\n}}", a, b);

    let mut store = TaskManager::from_json(PATH, text.as_str()).unwrap();
    let next = store.add_task("C".to_string(), "".to_string(), TaskPriority::Low);
    assert_eq!(next, 10);
}

#[test]
fn file_path_is_kept() {
    let store = TaskManager::new("somewhere/else.json");
    assert_eq!(store.file_path(), "somewhere/else.json");

    let loaded = TaskManager::from_json("loaded.json", "{}").unwrap();
    assert_eq!(loaded.file_path(), "loaded.json");
}
