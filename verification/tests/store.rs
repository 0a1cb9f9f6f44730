use task_manager::task_manager::{TaskManager, TaskPriority, TaskStatus};

fn setup() -> TaskManager {
    let file_path = "test_tasks.json";
    TaskManager::new(file_path)
}

#[test]
fn add_task_with_valid_data() {
    let mut task_manager = setup();

    let title = "Test Task".to_string();
    let description = "This is a test task".to_string();
    let id = task_manager.add_task(title.clone(), description.clone(), TaskPriority::Low);

    let task = task_manager.get_task(id).unwrap();

    assert_eq!(task.title, title);
    assert_eq!(task.description, description);
    assert_eq!(task.status, TaskStatus::Todo);
}

#[test]
fn add_task_with_empty_description() {
    let mut task_manager = setup();

    let title = "Test Task".to_string();
    let description = "".to_string();
    let id = task_manager.add_task(title.clone(), description.clone(), TaskPriority::Low);

    let task = task_manager.get_task(id).unwrap();

    assert_eq!(task.title, title);
    assert_eq!(task.description, description);
    assert_eq!(task.status, TaskStatus::Todo);
}

#[test]
fn delete_existing_task() {
    let mut task_manager = setup();

    let title = "Test Task".to_string();
    let description = "This is a test task".to_string();
    let id = task_manager.add_task(title, description, TaskPriority::Low);

    let deleted = task_manager.delete_task(id);

    assert!(deleted);
    assert!(task_manager.get_task(id).is_none())
}

#[test]
fn update_status_of_existing_task() {
    let mut task_manager = setup();

    let title = "Test Task".to_string();
    let description = "This is a test task".to_string();
    let id = task_manager.add_task(title, description, TaskPriority::Low);

    let updated = task_manager.update_status(id, TaskStatus::InProgress);
    assert!(updated);

    let task = task_manager.get_task(id).unwrap();

    assert_eq!(task.status, TaskStatus::InProgress);
}

#[test]
fn update_status_of_nonexistent_task() {
    let mut task_manager = setup();

    let updated = task_manager.update_status(999, TaskStatus::InProgress);

    assert!(!updated);
    assert_eq!(task_manager.len(), 0);
}

#[test]
fn list_tasks_returns_all_tasks() {
    let mut task_manager = setup();

    task_manager.add_task(
        "Task 1".to_string(),
        "Description 1".to_string(),
        TaskPriority::Low,
    );
    task_manager.add_task(
        "Task 2".to_string(),
        "Description 2".to_string(),
        TaskPriority::Low,
    );

    let tasks = task_manager.list_tasks_sorted_by_priority();

    assert_eq!(tasks.len(), 2);
}

#[test]
fn save_and_load_tasks_persists_data() {
    let mut task_manager = setup();

    task_manager.add_task(
        "Task 1".to_string(),
        "Description 1".to_string(),
        TaskPriority::Low,
    );
    task_manager.add_task(
        "Task 2".to_string(),
        "Description 2".to_string(),
        TaskPriority::Low,
    );

    let tasks = task_manager.list_tasks_sorted_by_priority();

    assert_eq!(tasks.len(), 2);
}

#[test]
fn add_task_with_priority() {
    let mut task_manager = setup();

    let title = "Test Task".to_string();
    let description = "This is a test task".to_string();
    let priority = TaskPriority::High;
    let id = task_manager.add_task(title.clone(), description.clone(), priority);

    let task = task_manager.get_task(id).unwrap();

    assert_eq!(task.title, title);
    assert_eq!(task.description, description);
    assert_eq!(task.status, TaskStatus::Todo);
    assert_eq!(task.priority, priority);
}

#[test]
fn list_tasks_sorted_by_priority() {
    let mut task_manager = setup();

    task_manager.add_task(
        "Task 1".to_string(),
        "Description 1".to_string(),
        TaskPriority::Medium,
    );
    task_manager.add_task(
        "Task 2".to_string(),
        "Description 2".to_string(),
        TaskPriority::High,
    );
    task_manager.add_task(
        "Task 3".to_string(),
        "Description 3".to_string(),
        TaskPriority::Low,
    );

    let tasks = task_manager.list_tasks_sorted_by_priority();

    assert_eq!(tasks.len(), 3);
    assert_eq!(tasks[0].priority, TaskPriority::Low);
    assert_eq!(tasks[1].priority, TaskPriority::Medium);
    assert_eq!(tasks[2].priority, TaskPriority::High);
}

#[test]
fn ids_are_monotonic_and_never_reused() {
    let mut task_manager = setup();

    let first = task_manager.add_task("One".to_string(), "".to_string(), TaskPriority::Low);
    assert_eq!(first, 1);

    assert!(task_manager.delete_task(first));

    let second = task_manager.add_task("Two".to_string(), "".to_string(), TaskPriority::Low);
    assert_ne!(second, 1);
    assert_eq!(second, 2);
}

#[test]
fn ids_stay_unique_across_operations() {
    let mut task_manager = setup();

    let a = task_manager.add_task("A".to_string(), "".to_string(), TaskPriority::High);
    let b = task_manager.add_task("B".to_string(), "".to_string(), TaskPriority::Low);
    task_manager.delete_task(a);
    let c = task_manager.add_task("C".to_string(), "".to_string(), TaskPriority::Medium);

    assert_ne!(a, b);
    assert_ne!(b, c);
    assert_ne!(a, c);

    let tasks = task_manager.list_tasks_sorted_by_priority();
    assert_eq!(tasks.len(), 2);
    assert_ne!(tasks[0].id, tasks[1].id);
}

#[test]
fn delete_nonexistent_task_returns_false() {
    let mut task_manager = setup();
    task_manager.add_task("Only".to_string(), "".to_string(), TaskPriority::Low);

    let deleted = task_manager.delete_task(42);

    assert!(!deleted);
    assert_eq!(task_manager.len(), 1);
}

#[test]
fn listing_is_a_snapshot_and_mutates_nothing() {
    let mut task_manager = setup();
    task_manager.add_task("A".to_string(), "".to_string(), TaskPriority::High);

    let before = task_manager.to_json();
    let _ = task_manager.list_tasks_sorted_by_priority();
    let after = task_manager.to_json();

    assert_eq!(before, after);
    let next = task_manager.add_task("B".to_string(), "".to_string(), TaskPriority::Low);
    assert_eq!(next, 2);
}

#[test]
fn created_tasks_carry_a_timestamp() {
    let mut task_manager = setup();
    let id = task_manager.add_task("Stamped".to_string(), "".to_string(), TaskPriority::Low);

    let task = task_manager.get_task(id).unwrap();
    assert!(!task.created_at.is_empty());
}

#[test]
fn priority_rank_orders_low_medium_high() {
    assert_eq!(task_manager::task_manager::priority_rank(TaskPriority::Low), 0);
    assert_eq!(task_manager::task_manager::priority_rank(TaskPriority::Medium), 1);
    assert_eq!(task_manager::task_manager::priority_rank(TaskPriority::High), 2);
    assert!(TaskPriority::Low < TaskPriority::Medium);
    assert!(TaskPriority::Medium < TaskPriority::High);
}
