use task_manager::error::TaskError;
use task_manager::manager::{TaskManager, TaskManagerConfig, TaskSort, TaskStats};
use task_manager::task::{Priority, Task, TaskId, TaskStatus, UpdateValue};
use task_manager::time::Timestamp;

fn at(secs: i64) -> Timestamp {
    Timestamp { secs, nanos: 0 }
}

fn completion_rate(stats: &TaskStats) -> f64 {
    if stats.total > 0 {
        (stats.completed as f64 / stats.total as f64) * 100.0
    } else {
        0.0
    }
}

fn task(id: u128, title: &str) -> Task {
    Task::from_parts(TaskId(id), at(id as i64), title.to_string(), None, Priority::Medium, None, None)
}

#[test]
fn test_task_manager_creation() {
    let manager = TaskManager::new();
    assert!(manager.is_empty());
    assert!(!manager.is_dirty());
}

#[test]
fn test_add_and_retrieve_task() {
    let mut manager = TaskManager::new();
    let id = manager.add_task("Test Task".to_string()).unwrap();

    let task = manager.get_task(id).unwrap();
    assert_eq!(task.title, "Test Task");
    assert_eq!(task.status, TaskStatus::Todo);
}

#[test]
fn manager_test_task_completion() {
    let mut manager = TaskManager::new();
    let id = manager.add_task("Test Task".to_string()).unwrap();

    manager.complete_task(id).unwrap();
    let task = manager.get_task(id).unwrap();
    assert_eq!(task.status, TaskStatus::Done);
    assert!(task.completed_at.is_some());
}

#[test]
fn test_search_tasks() {
    let mut manager = TaskManager::new();
    manager.add_task("Buy groceries".to_string()).unwrap();
    manager.add_task("Clean house".to_string()).unwrap();
    manager.add_task("Write code".to_string()).unwrap();

    let results: Vec<_> = manager.search_tasks("house");
    assert_eq!(results.len(), 1);
    assert_eq!(results[0].title, "Clean house");
}

#[test]
fn test_task_statistics() {
    let mut manager = TaskManager::new();
    manager.add_task("Task 1".to_string()).unwrap();
    let id2 = manager.add_task("Task 2".to_string()).unwrap();

    manager.complete_task(id2).unwrap();

    let stats = manager.get_stats();
    assert_eq!(stats.total, 2);
    assert_eq!(stats.completed, 1);
    assert_eq!(completion_rate(&stats), 50.0);
}

#[test]
fn add_checks_title_length_and_keeps_store_on_failure() {
    let mut manager = TaskManager::new();
    for n in [1usize, 2, 100, 199, 200] {
        assert!(manager.add_task("t".repeat(n)).is_ok());
    }
    assert_eq!(manager.len(), 5);
    for n in [0usize, 201, 500] {
        match manager.add_task("t".repeat(n)) {
            Err(TaskError::ValidationError(m)) => {
                assert_eq!(m, "title: Title must be between 1-200 characters")
            }
            other => panic!("unexpected {:?}", other),
        }
    }
    assert_eq!(manager.len(), 5);
}

#[test]
fn insert_new_refuses_a_taken_id() {
    let mut manager = TaskManager::new();
    let id = manager.insert_new(TaskId(9), at(1), "a".to_string(), None, Priority::Low, None, None).unwrap();
    assert_eq!(id, TaskId(9));
    match manager.insert_new(TaskId(9), at(2), "b".to_string(), None, Priority::Low, None, None) {
        Err(TaskError::TaskAlreadyExists(i)) => assert_eq!(i, TaskId(9)),
        other => panic!("unexpected {:?}", other),
    }
    assert_eq!(manager.len(), 1);
    assert_eq!(manager.get_task(TaskId(9)).unwrap().title, "a");
}

#[test]
fn buy_milk_example() {
    let mut manager = TaskManager::new();
    let x = manager
        .add_task_detailed("Buy milk".to_string(), None, Some(Priority::High), None, None)
        .unwrap();
    assert_eq!(manager.get_task(x).unwrap().status, TaskStatus::Todo);
    assert_eq!(manager.get_task(x).unwrap().priority, Priority::High);
    manager.complete_task(x).unwrap();
    assert_eq!(manager.get_task(x).unwrap().status, TaskStatus::Done);
    assert!(manager.get_task(x).unwrap().completed_at.is_some());
    let stats = manager.get_stats();
    assert_eq!(stats.total, 1);
    assert_eq!(stats.completed, 1);
    assert_eq!(stats.in_progress, 0);
    assert_eq!(completion_rate(&stats), 100.0);
}

#[test]
fn completing_a_done_task_is_refused() {
    let mut manager = TaskManager::new();
    manager.insert_new(TaskId(1), at(1), "a".to_string(), None, Priority::Low, None, None).unwrap();
    manager.complete_task_at(TaskId(1), at(5)).unwrap();
    match manager.complete_task_at(TaskId(1), at(9)) {
        Err(TaskError::OperationNotAllowed(m)) => assert_eq!(m, "Task is already completed"),
        other => panic!("unexpected {:?}", other),
    }
    let t = manager.get_task(TaskId(1)).unwrap();
    assert_eq!(t.status, TaskStatus::Done);
    assert_eq!(t.completed_at, Some(at(5)));
}

#[test]
fn clearing_a_category_leaves_the_rest() {
    let mut manager = TaskManager::new();
    let x = manager
        .add_task_detailed(
            "Errand".to_string(),
            Some("by bike".to_string()),
            Some(Priority::Low),
            Some("errands".to_string()),
            None,
        )
        .unwrap();
    manager.update_task(x, None, UpdateValue::Keep, None, UpdateValue::Clear, UpdateValue::Keep).unwrap();
    let t = manager.get_task(x).unwrap();
    assert_eq!(t.category, None);
    assert_eq!(t.title, "Errand");
    assert_eq!(t.priority, Priority::Low);
    assert_eq!(t.description, Some("by bike".to_string()));
}

#[test]
fn invalid_update_is_not_kept() {
    let mut manager = TaskManager::new();
    manager.insert_new(TaskId(1), at(1), "a".to_string(), None, Priority::Low, None, None).unwrap();
    let r = manager.update_task_at(
        TaskId(1),
        Some(String::new()),
        UpdateValue::SetTo("new".to_string()),
        Some(Priority::High),
        UpdateValue::Keep,
        UpdateValue::Keep,
        at(5),
    );
    assert!(matches!(r, Err(TaskError::ValidationError(_))));
    let t = manager.get_task(TaskId(1)).unwrap();
    assert_eq!(t.title, "a");
    assert_eq!(t.description, None);
    assert_eq!(t.priority, Priority::Low);
    assert_eq!(t.updated_at, at(1));
    manager
        .update_task_at(TaskId(1), Some("b".to_string()), UpdateValue::Keep, None, UpdateValue::Keep, UpdateValue::SetTo(at(50)), at(6))
        .unwrap();
    let t = manager.get_task(TaskId(1)).unwrap();
    assert_eq!(t.title, "b");
    assert_eq!(t.due_date, Some(at(50)));
    assert_eq!(t.updated_at, at(6));
}

#[test]
fn missing_ids_are_reported() {
    let mut manager = TaskManager::new();
    let gone = TaskId(42);
    assert_eq!(manager.get_task(gone).unwrap_err(), TaskError::TaskNotFound(gone));
    assert_eq!(manager.delete_task(gone).unwrap_err(), TaskError::TaskNotFound(gone));
    assert_eq!(manager.complete_task(gone).unwrap_err(), TaskError::TaskNotFound(gone));
    assert_eq!(manager.start_task(gone).unwrap_err(), TaskError::TaskNotFound(gone));
    assert_eq!(manager.cancel_task(gone).unwrap_err(), TaskError::TaskNotFound(gone));
    assert_eq!(
        manager
            .update_task(gone, None, UpdateValue::Keep, None, UpdateValue::Keep, UpdateValue::Keep)
            .unwrap_err(),
        TaskError::TaskNotFound(gone)
    );
    assert!(!manager.is_dirty());
}

#[test]
fn delete_hands_back_the_task() {
    let mut manager = TaskManager::new();
    manager.import_tasks(vec![task(1, "a"), task(2, "b"), task(3, "c")]).unwrap();
    let t = manager.delete_task(TaskId(2)).unwrap();
    assert_eq!(t.title, "b");
    assert_eq!(manager.len(), 2);
    assert!(manager.get_task(TaskId(2)).is_err());
    assert_eq!(manager.get_task(TaskId(3)).unwrap().title, "c");
}

#[test]
fn start_and_cancel() {
    let mut manager = TaskManager::new();
    manager.import_tasks(vec![task(1, "a")]).unwrap();
    manager.start_task_at(TaskId(1), at(10)).unwrap();
    assert_eq!(manager.get_task(TaskId(1)).unwrap().status, TaskStatus::InProgress);
    manager.cancel_task_at(TaskId(1), at(11)).unwrap();
    assert_eq!(manager.get_task(TaskId(1)).unwrap().status, TaskStatus::Cancelled);
    assert_eq!(manager.get_task(TaskId(1)).unwrap().updated_at, at(11));
    assert_eq!(manager.get_stats_at(at(0)).in_progress, 0);
}

fn titles(v: &[&Task]) -> Vec<String> {
    v.iter().map(|t| t.title.clone()).collect()
}

#[test]
fn sorting_by_each_criterion() {
    let mut manager = TaskManager::new();
    let mut a = task(1, "banana");
    a.priority = Priority::Low;
    a.due_date = Some(at(300));
    let mut b = task(2, "apple");
    b.priority = Priority::Critical;
    let mut c = task(3, "cherry");
    c.priority = Priority::High;
    c.due_date = Some(at(100));
    let mut d = task(4, "Zebra");
    d.due_date = Some(at(200));
    manager.import_tasks(vec![a, b, c, d]).unwrap();
    assert_eq!(titles(&manager.get_sorted_tasks(TaskSort::CreatedAsc)), ["banana", "apple", "cherry", "Zebra"]);
    assert_eq!(titles(&manager.get_sorted_tasks(TaskSort::CreatedDesc)), ["Zebra", "cherry", "apple", "banana"]);
    assert_eq!(titles(&manager.get_sorted_tasks(TaskSort::DueDateAsc)), ["cherry", "Zebra", "banana", "apple"]);
    assert_eq!(titles(&manager.get_sorted_tasks(TaskSort::DueDateDesc)), ["banana", "Zebra", "cherry", "apple"]);
    assert_eq!(titles(&manager.get_sorted_tasks(TaskSort::PriorityAsc)), ["banana", "Zebra", "cherry", "apple"]);
    assert_eq!(titles(&manager.get_sorted_tasks(TaskSort::PriorityDesc)), ["apple", "cherry", "Zebra", "banana"]);
    assert_eq!(titles(&manager.get_sorted_tasks(TaskSort::TitleAsc)), ["Zebra", "apple", "banana", "cherry"]);
    assert_eq!(titles(&manager.get_sorted_tasks(TaskSort::TitleDesc)), ["cherry", "banana", "apple", "Zebra"]);
}

#[test]
fn undated_tasks_sort_last_both_ways() {
    let mut manager = TaskManager::new();
    let mut tasks = Vec::new();
    for i in 0..6u128 {
        let mut t = task(i + 1, "t");
        if i % 2 == 0 {
            t.due_date = Some(at(1000 - i as i64));
        }
        tasks.push(t);
    }
    manager.import_tasks(tasks).unwrap();
    for order in [TaskSort::DueDateAsc, TaskSort::DueDateDesc] {
        let sorted = manager.get_sorted_tasks(order);
        let flags: Vec<bool> = sorted.iter().map(|t| t.due_date.is_some()).collect();
        assert_eq!(flags, [true, true, true, false, false, false]);
    }
}

#[test]
fn filters_by_status_priority_category_and_overdue() {
    let mut manager = TaskManager::new();
    let mut a = task(1, "a");
    a.category = Some("work".to_string());
    a.due_date = Some(at(50));
    let mut b = task(2, "b");
    b.category = Some("Work".to_string());
    b.priority = Priority::High;
    b.status = TaskStatus::Done;
    b.due_date = Some(at(50));
    let c = task(3, "c");
    manager.import_tasks(vec![a, b, c]).unwrap();
    assert_eq!(titles(&manager.get_tasks_by_category("work")), ["a"]);
    assert_eq!(titles(&manager.get_tasks_by_priority(Priority::High)), ["b"]);
    assert_eq!(titles(&manager.get_tasks_by_status(TaskStatus::Todo)).len(), 2);
    assert_eq!(titles(&manager.get_overdue_tasks_at(at(60))), ["a"]);
    assert!(manager.get_overdue_tasks_at(at(50)).is_empty());
    assert_eq!(manager.get_all_tasks().len(), 3);
    assert_eq!(manager.get_overdue_tasks().len(), 1);
    let stats = manager.get_stats_at(at(60));
    assert_eq!(stats, TaskStats { total: 3, completed: 1, in_progress: 0, overdue: 1 });
}

#[test]
fn search_ignores_case_and_reads_descriptions() {
    let mut manager = TaskManager::new();
    let mut a = task(1, "Clean HOUSE");
    a.description = Some("weekly".to_string());
    let mut b = task(2, "Shopping");
    b.description = Some("Milk for the house".to_string());
    let c = task(3, "Code");
    manager.import_tasks(vec![a, b, c]).unwrap();
    manager.mark_saved();
    let mut found = titles(&manager.search_tasks("HoUsE"));
    found.sort();
    assert_eq!(found, ["Clean HOUSE", "Shopping"]);
    assert_eq!(titles(&manager.search_tasks("WEEK")), ["Clean HOUSE"]);
    assert!(manager.search_tasks("garden").is_empty());
    assert_eq!(manager.search_tasks("").len(), 3);
    assert_eq!(manager.len(), 3);
    assert!(!manager.is_dirty());
}

#[test]
fn clear_completed_removes_exactly_the_done_tasks() {
    let mut manager = TaskManager::new();
    let mut tasks = Vec::new();
    for i in 0..5u128 {
        let mut t = task(i + 1, "t");
        if i != 2 {
            t.status = if i % 2 == 0 { TaskStatus::Done } else { TaskStatus::InProgress };
        }
        tasks.push(t);
    }
    manager.import_tasks(tasks).unwrap();
    assert_eq!(manager.clear_completed(), 2);
    assert_eq!(manager.len(), 3);
    let stats = manager.get_stats();
    assert_eq!(stats.completed, 0);
    assert_eq!(stats.in_progress, 2);
    assert_eq!(manager.clear_completed(), 0);
    assert_eq!(manager.clear_all(), 3);
    assert!(manager.is_empty());
    assert_eq!(completion_rate(&manager.get_stats()), 0.0);
}

#[test]
fn import_skips_duplicates_and_keeps_the_stored_task() {
    let mut manager = TaskManager::new();
    manager.import_tasks(vec![task(1, "original")]).unwrap();
    manager.mark_saved();
    let dup = task(1, "replacement");
    let new = task(2, "new");
    assert_eq!(manager.import_tasks(vec![dup, new]).unwrap(), 1);
    assert_eq!(manager.len(), 2);
    assert_eq!(manager.get_task(TaskId(1)).unwrap().title, "original");
    assert!(manager.is_dirty());
    manager.mark_saved();
    assert_eq!(manager.import_tasks(vec![task(2, "again")]).unwrap(), 0);
    assert!(!manager.is_dirty());
    assert_eq!(manager.import_tasks(vec![task(5, "x"), task(5, "y")]).unwrap(), 1);
    assert_eq!(manager.get_task(TaskId(5)).unwrap().title, "x");
}

#[test]
fn import_is_all_or_nothing() {
    let mut manager = TaskManager::new();
    let r = manager.import_tasks(vec![task(1, "fine"), task(2, ""), task(3, "fine too")]);
    assert!(matches!(r, Err(TaskError::ValidationError(_))));
    assert!(manager.is_empty());
    assert!(!manager.is_dirty());
}

#[test]
fn export_then_import_rebuilds_the_store() {
    let mut source = TaskManager::new();
    source.add_task_detailed("one".to_string(), Some("d".to_string()), Some(Priority::Critical), Some("c".to_string()), Some(at(5))).unwrap();
    let two = source.add_task("two".to_string()).unwrap();
    source.complete_task(two).unwrap();
    let exported: Vec<Task> = source.get_all_tasks().into_iter().cloned().collect();
    let mut target = TaskManager::new();
    assert_eq!(target.import_tasks(exported.clone()).unwrap(), 2);
    for t in &exported {
        assert_eq!(target.get_task(t.id).unwrap(), t);
    }
    assert_eq!(target.len(), source.len());
}

#[test]
fn load_replaces_everything_and_is_clean() {
    let mut manager = TaskManager::with_config(TaskManagerConfig { storage_path: "x.json".to_string(), auto_save: false });
    manager.import_tasks(vec![task(9, "old")]).unwrap();
    assert!(manager.tasks_to_save().is_some());
    assert_eq!(manager.replace_all(vec![task(1, "a"), task(2, "b"), task(1, "a again")]).unwrap(), 2);
    assert!(!manager.is_dirty());
    assert!(manager.tasks_to_save().is_none());
    assert!(manager.get_task(TaskId(9)).is_err());
    assert_eq!(manager.get_task(TaskId(1)).unwrap().title, "a again");
    assert!(manager.replace_all(vec![task(3, "")]).is_err());
    assert_eq!(manager.len(), 2);
    assert_eq!(manager.config().storage_path, "x.json");
    assert!(!manager.config().auto_save);
}

#[test]
fn default_configuration() {
    let c = TaskManagerConfig::default();
    assert_eq!(c.storage_path, "tasks.json");
    assert!(c.auto_save);
    assert_eq!(TaskManager::new().config().storage_path, "tasks.json");
}
