use task_manager::error::TaskError;
use task_manager::task::{parse_datetime, Priority, Task, TaskId, TaskStatus, UpdateValue};
use task_manager::time::Timestamp;

fn instant(t: chrono::DateTime<chrono::Utc>) -> Timestamp {
    Timestamp { secs: t.timestamp(), nanos: t.timestamp_subsec_nanos() }
}

fn at(secs: i64) -> Timestamp {
    Timestamp { secs, nanos: 0 }
}

#[test]
fn test_task_creation() {
    let task = Task::new("Test Task".to_string());
    assert_eq!(task.title, "Test Task");
    assert_eq!(task.status, TaskStatus::Todo);
    assert_eq!(task.priority, Priority::Medium);
    assert!(task.description.is_none());
    assert!(task.category.is_none());
    assert!(task.due_date.is_none());
    assert!(task.completed_at.is_none());
}

#[test]
fn task_test_task_completion() {
    let mut task = Task::new("Test Task".to_string());
    let before_complete = task.updated_at;

    task.complete();

    assert_eq!(task.status, TaskStatus::Done);
    assert!(task.completed_at.is_some());
    assert!(task.updated_at >= before_complete);
}

#[test]
fn test_task_update_with_enum() {
    let mut task = Task::new("Original".to_string());
    task.description = Some("Original desc".to_string());
    task.category = Some("Work".to_string());

    task.update(
        Some("Updated".to_string()),
        UpdateValue::SetTo("New desc".to_string()),
        Some(Priority::High),
        UpdateValue::Clear,
        UpdateValue::Keep,
    );

    assert_eq!(task.title, "Updated");
    assert_eq!(task.description, Some("New desc".to_string()));
    assert_eq!(task.priority, Priority::High);
    assert!(task.category.is_none());
}

#[test]
fn test_task_is_overdue() {
    let past_date = instant(chrono::Utc::now() - chrono::Duration::hours(1));
    let future_date = instant(chrono::Utc::now() + chrono::Duration::hours(1));

    let overdue_task =
        Task::with_details("Overdue".to_string(), None, Priority::High, None, Some(past_date));

    let upcoming_task =
        Task::with_details("Upcoming".to_string(), None, Priority::High, None, Some(future_date));

    assert!(overdue_task.is_overdue());
    assert!(!upcoming_task.is_overdue());
}

#[test]
fn overdue_rules_at_a_given_time() {
    let mut t = Task::from_parts(TaskId(1), at(100), "t".to_string(), None, Priority::Low, None, None);
    assert!(!t.is_overdue_at(at(1_000_000)));
    t.due_date = Some(at(500));
    assert!(t.is_overdue_at(at(501)));
    assert!(!t.is_overdue_at(at(500)));
    assert!(!t.is_overdue_at(at(499)));
    t.cancel_at(at(200));
    assert!(t.is_overdue_at(at(501)));
    t.complete_at(at(300));
    assert!(!t.is_overdue_at(at(501)));
    t.due_date = Some(Timestamp { secs: 500, nanos: 10 });
    t.start_at(at(301));
    assert!(t.is_overdue_at(Timestamp { secs: 500, nanos: 11 }));
    assert!(!t.is_overdue_at(Timestamp { secs: 500, nanos: 10 }));
}

#[test]
fn transitions_stamp_the_time_and_keep_completion() {
    let mut t = Task::from_parts(TaskId(7), at(100), "t".to_string(), None, Priority::Low, None, None);
    t.complete_at(at(150));
    assert_eq!(t.status, TaskStatus::Done);
    assert_eq!(t.completed_at, Some(at(150)));
    assert_eq!(t.updated_at, at(150));
    t.start_at(at(160));
    assert_eq!(t.status, TaskStatus::InProgress);
    assert_eq!(t.completed_at, Some(at(150)));
    assert_eq!(t.updated_at, at(160));
    t.cancel_at(at(50));
    assert_eq!(t.status, TaskStatus::Cancelled);
    assert_eq!(t.updated_at, at(160));
    assert_eq!(t.created_at, at(100));
    t.start_at(at(170));
    assert_eq!(t.updated_at, at(170));
}

#[test]
fn update_at_applies_each_directive() {
    let mut t = Task::from_parts(
        TaskId(3),
        at(10),
        "a".to_string(),
        Some("d".to_string()),
        Priority::Low,
        Some("c".to_string()),
        Some(at(99)),
    );
    t.update_at(None, UpdateValue::Keep, None, UpdateValue::SetTo("x".to_string()), UpdateValue::Clear, at(20));
    assert_eq!(t.title, "a");
    assert_eq!(t.description, Some("d".to_string()));
    assert_eq!(t.priority, Priority::Low);
    assert_eq!(t.category, Some("x".to_string()));
    assert_eq!(t.due_date, None);
    assert_eq!(t.updated_at, at(20));
}

#[test]
fn validation_counts_characters_not_bytes() {
    let t = Task::from_parts(TaskId(1), at(0), "\u{e9}".repeat(200), None, Priority::Low, None, None);
    assert!(t.validate().is_ok());
    let t = Task::from_parts(TaskId(1), at(0), "a".repeat(201), None, Priority::Low, None, None);
    assert!(matches!(t.validate(), Err(TaskError::ValidationError(_))));
}

#[test]
fn validation_lists_every_broken_rule() {
    let t = Task::from_parts(
        TaskId(1),
        at(0),
        String::new(),
        Some("d".repeat(2001)),
        Priority::Low,
        Some("c".repeat(51)),
        None,
    );
    match t.validate() {
        Err(TaskError::ValidationError(m)) => assert_eq!(
            m,
            "title: Title must be between 1-200 characters; description: Description must not exceed 2000 characters; category: Category must not exceed 50 characters"
        ),
        other => panic!("unexpected {:?}", other),
    }
    let t = Task::from_parts(TaskId(1), at(0), "ok".to_string(), Some("d".repeat(2000)), Priority::Low, Some("c".repeat(51)), None);
    match t.validate() {
        Err(TaskError::ValidationError(m)) => assert_eq!(m, "category: Category must not exceed 50 characters"),
        other => panic!("unexpected {:?}", other),
    }
    let t = Task::from_parts(TaskId(1), at(0), "ok".to_string(), Some("d".repeat(2000)), Priority::Low, Some("c".repeat(50)), None);
    assert!(t.validate().is_ok());
}

#[test]
fn parse_datetime_reads_rfc3339() {
    let t = parse_datetime("2024-01-01T12:00:00Z").unwrap();
    assert_eq!(t, Timestamp { secs: 1704110400, nanos: 0 });
    let t = parse_datetime("2024-01-01T13:00:00.5+01:00").unwrap();
    assert_eq!(t, Timestamp { secs: 1704110400, nanos: 500_000_000 });
    match parse_datetime("tomorrow") {
        Err(TaskError::DateParseError(s)) => assert_eq!(s, "tomorrow"),
        other => panic!("unexpected {:?}", other),
    }
}

#[test]
fn labels_and_levels() {
    let mut t = Task::new("x".to_string());
    assert_eq!(t.status_display(), "\u{1F4CB} TODO");
    assert_eq!(t.priority_display(), "\u{1F7E1} MEDIUM");
    t.priority = Priority::Critical;
    t.status = TaskStatus::Cancelled;
    assert_eq!(t.status_display(), "\u{274C} CANCELLED");
    assert_eq!(t.priority_display(), "\u{1F534} CRITICAL");
    assert_eq!(Priority::Low.level(), 1);
    assert_eq!(Priority::Critical.level(), 4);
    assert!(Priority::Low < Priority::Medium && Priority::High < Priority::Critical);
}

#[test]
fn new_tasks_get_fresh_ids_and_the_clock() {
    let a = Task::new("a".to_string());
    let b = Task::default();
    assert_ne!(a.id, b.id);
    assert_eq!(b.title, "");
    assert!(b.validate().is_err());
    assert!(a.created_at.nanos < 1_000_000_000);
    assert!(a.created_at.secs > 1_600_000_000);
    assert_eq!(a.created_at, a.updated_at);
}

#[test]
fn error_kinds() {
    assert!(TaskError::TaskNotFound(TaskId(1)).is_not_found());
    assert!(!TaskError::ValidationError(String::new()).is_not_found());
    assert!(TaskError::ValidationError(String::new()).is_validation_error());
    assert_eq!(TaskError::TaskNotFound(TaskId(1)).category(), "not_found");
    assert_eq!(TaskError::JsonError(String::new()).category(), "serialization");
    assert_eq!(TaskError::InvalidStatus(String::new()).category(), "validation");
    assert_eq!(TaskError::TaskAlreadyExists(TaskId(2)).category(), "conflict");
    assert_eq!(TaskError::OperationNotAllowed(String::new()).category(), "authorization");
}
