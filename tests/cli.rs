use task_manager::cli::{
    due_date_arg, import_size_allowed, is_confirmation, parse_selection, sanitize_input, update_due_arg,
    update_text_arg, Cli, Commands, ListQuery, PriorityArg, Selection, SortArg, StatusArg,
};
use task_manager::error::TaskError;
use task_manager::manager::{TaskManager, TaskSort};
use task_manager::task::{Priority, Task, TaskId, TaskStatus, UpdateValue};
use task_manager::time::Timestamp;

fn at(secs: i64) -> Timestamp {
    Timestamp { secs, nanos: 0 }
}

#[test]
fn argument_enums_convert() {
    assert_eq!(Priority::from(PriorityArg::Low), Priority::Low);
    assert_eq!(Priority::from(PriorityArg::Critical), Priority::Critical);
    assert_eq!(TaskStatus::from(StatusArg::InProgress), TaskStatus::InProgress);
    assert_eq!(TaskStatus::from(StatusArg::Cancelled), TaskStatus::Cancelled);
    assert_eq!(TaskSort::from(SortArg::DueDateDesc), TaskSort::DueDateDesc);
    assert_eq!(TaskSort::from(SortArg::TitleAsc), TaskSort::TitleAsc);
}

#[test]
fn update_arguments_become_directives() {
    assert!(matches!(update_text_arg(None), UpdateValue::Keep));
    assert!(matches!(update_text_arg(Some(String::new())), UpdateValue::Clear));
    match update_text_arg(Some("x".to_string())) {
        UpdateValue::SetTo(s) => assert_eq!(s, "x"),
        _ => panic!("expected a value"),
    }
    assert!(matches!(update_due_arg(None), Ok(UpdateValue::Keep)));
    assert!(matches!(update_due_arg(Some(String::new())), Ok(UpdateValue::Clear)));
    match update_due_arg(Some("1970-01-01T00:01:40Z".to_string())) {
        Ok(UpdateValue::SetTo(t)) => assert_eq!(t, at(100)),
        _ => panic!("expected a date"),
    }
    assert!(matches!(update_due_arg(Some("soon".to_string())), Err(TaskError::DateParseError(_))));
}

#[test]
fn due_date_argument_of_add() {
    assert_eq!(due_date_arg(None), Ok(None));
    assert_eq!(due_date_arg(Some(String::new())), Ok(None));
    assert_eq!(due_date_arg(Some("1970-01-01T00:00:10Z".to_string())), Ok(Some(at(10))));
    assert_eq!(
        due_date_arg(Some("2024-13-01T00:00:00Z".to_string())),
        Err(TaskError::DateParseError("2024-13-01T00:00:00Z".to_string()))
    );
}

#[test]
fn prompt_input_is_trimmed_and_bounded() {
    assert_eq!(sanitize_input("  yes \n").unwrap(), "yes");
    assert_eq!(sanitize_input(&format!("  {}  ", "a".repeat(1000))).unwrap().len(), 1000);
    assert_eq!(
        sanitize_input(&"a".repeat(1001)),
        Err(TaskError::ValidationError("Input too long".to_string()))
    );
    assert_eq!(
        sanitize_input(&"\u{e9}".repeat(501)),
        Err(TaskError::ValidationError("Input too long".to_string()))
    );
}

#[test]
fn confirmation_answers() {
    assert!(is_confirmation("y"));
    assert!(is_confirmation("YES"));
    assert!(is_confirmation("Yes"));
    assert!(!is_confirmation("no"));
    assert!(!is_confirmation(""));
    assert!(!is_confirmation("yess"));
}

#[test]
fn numbered_selection() {
    assert_eq!(parse_selection("q", 3), Selection::Cancelled);
    assert_eq!(parse_selection("QUIT", 3), Selection::Cancelled);
    assert_eq!(parse_selection("1", 3), Selection::Chosen(0));
    assert_eq!(parse_selection("+3", 3), Selection::Chosen(2));
    assert_eq!(parse_selection("4", 3), Selection::Invalid);
    assert_eq!(parse_selection("0", 3), Selection::Invalid);
    assert_eq!(parse_selection("-1", 3), Selection::Invalid);
    assert_eq!(parse_selection("two", 3), Selection::Invalid);
    assert_eq!(parse_selection("", 3), Selection::Invalid);
}

#[test]
fn import_size_limit() {
    assert!(import_size_allowed(0));
    assert!(import_size_allowed(10 * 1024 * 1024));
    assert!(!import_size_allowed(10 * 1024 * 1024 + 1));
}

#[test]
fn storage_path_from_the_command_line() {
    let cli = Cli { command: Commands::Stats, verbose: false, file: None };
    assert_eq!(cli.manager_config().storage_path, "tasks.json");
    assert!(cli.manager_config().auto_save);
    let cli = Cli { command: Commands::Show { id: "x".to_string() }, verbose: true, file: Some("my.json".to_string()) };
    assert_eq!(cli.manager_config().storage_path, "my.json");
}

fn query() -> ListQuery {
    ListQuery {
        status: None,
        priority: None,
        category: None,
        overdue: false,
        sort: TaskSort::TitleAsc,
        limit: None,
        search: None,
    }
}

fn titles(v: &[&Task]) -> Vec<String> {
    v.iter().map(|t| t.title.clone()).collect()
}

#[test]
fn listing_follows_filters_sort_and_limit() {
    let mut manager = TaskManager::new();
    let mut tasks = Vec::new();
    for (i, name) in ["d", "b", "a", "c"].iter().enumerate() {
        let mut t = Task::from_parts(TaskId(i as u128 + 1), at(i as i64), name.to_string(), None, Priority::Low, None, None);
        if i == 1 {
            t.status = TaskStatus::Done;
            t.priority = Priority::High;
            t.category = Some("home".to_string());
            t.due_date = Some(at(5));
        }
        if i == 3 {
            t.due_date = Some(at(5));
        }
        tasks.push(t);
    }
    manager.import_tasks(tasks).unwrap();
    assert_eq!(titles(&manager.list_tasks_at(&query(), at(0))), ["a", "b", "c", "d"]);
    let mut q = query();
    q.limit = Some(2);
    assert_eq!(titles(&manager.list_tasks_at(&q, at(0))), ["a", "b"]);
    q.limit = Some(10);
    assert_eq!(manager.list_tasks_at(&q, at(0)).len(), 4);
    let mut q = query();
    q.status = Some(TaskStatus::Done);
    assert_eq!(titles(&manager.list_tasks_at(&q, at(0))), ["b"]);
    let mut q = query();
    q.priority = Some(Priority::High);
    assert_eq!(titles(&manager.list_tasks_at(&q, at(0))), ["b"]);
    let mut q = query();
    q.category = Some("home".to_string());
    assert_eq!(titles(&manager.list_tasks_at(&q, at(0))), ["b"]);
    let mut q = query();
    q.overdue = true;
    q.status = Some(TaskStatus::Done);
    assert_eq!(titles(&manager.list_tasks_at(&q, at(10))), ["c"]);
    let mut q = query();
    q.search = Some("A".to_string());
    q.overdue = true;
    assert_eq!(titles(&manager.list_tasks(&q)), ["a"]);
}
