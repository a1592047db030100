use torudo::nav::AppState;
use torudo::nav::UiAction;
use torudo::record::Item;

fn item(
    priority: Option<char>,
    description: &str,
    projects: &[&str],
    contexts: &[&str],
    id: &str,
    line_number: usize,
) -> Item {
    Item {
        completed: false,
        priority,
        creation_date: None,
        completion_date: None,
        description: description.to_string(),
        projects: projects.iter().map(|s| s.to_string()).collect(),
        contexts: contexts.iter().map(|s| s.to_string()).collect(),
        id: Some(id.to_string()),
        line_number,
    }
}

fn create_test_todos() -> Vec<Item> {
    vec![
        item(Some('A'), "Task 1", &["work"], &["office"], "task-1", 1),
        item(Some('B'), "Task 2", &["personal"], &["home"], "task-2", 2),
        item(None, "Task 3", &[], &[], "task-3", 3),
        item(Some('C'), "Task 4", &["work", "urgent"], &[], "task-4", 4),
    ]
}

#[test]
fn test_app_state_new() {
    let todos = create_test_todos();
    let state = AppState::new(todos);

    assert_eq!(state.todos.len(), 4);
    assert_eq!(state.current_column, 0);
    assert_eq!(state.selected_in_column, 0);

    // four columns: "No Project", "personal", "urgent", "work" (sorted)
    assert_eq!(state.project_names.len(), 4);
    let expected: Vec<String> =
        vec!["No Project".to_string(), "personal".to_string(), "urgent".to_string(), "work".to_string()];
    assert_eq!(state.project_names, expected);

    assert_eq!(state.grouped_todos.get("work").unwrap().len(), 2);
    assert_eq!(state.grouped_todos.get("personal").unwrap().len(), 1);
    assert_eq!(state.grouped_todos.get("No Project").unwrap().len(), 1);
    assert_eq!(state.grouped_todos.get("urgent").unwrap().len(), 1);
}

#[test]
fn test_get_current_todo_id() {
    let todos = create_test_todos();
    let state = AppState::new(todos);

    // the first column ("No Project") holds task-3
    assert_eq!(state.get_current_todo_id(), Some("task-3".to_string()));
}

#[test]
fn test_handle_navigation_key_vertical() {
    let todos = vec![
        item(Some('A'), "Task 1", &["work"], &[], "task-1", 1),
        item(Some('B'), "Task 2", &["work"], &[], "task-2", 2),
    ];

    let mut state = AppState::new(todos);

    assert_eq!(state.selected_in_column, 0);
    assert_eq!(state.get_current_todo_id(), Some("task-1".to_string()));

    state.handle_navigation_key('j', 0);
    assert_eq!(state.selected_in_column, 1);
    assert_eq!(state.get_current_todo_id(), Some("task-2".to_string()));

    state.handle_navigation_key('j', 0);
    assert_eq!(state.selected_in_column, 1);

    state.handle_navigation_key('k', 0);
    assert_eq!(state.selected_in_column, 0);
    assert_eq!(state.get_current_todo_id(), Some("task-1".to_string()));

    state.handle_navigation_key('k', 0);
    assert_eq!(state.selected_in_column, 0);
}

#[test]
fn test_handle_navigation_key_horizontal() {
    let todos = create_test_todos();
    let mut state = AppState::new(todos);

    assert_eq!(state.current_column, 0);
    assert_eq!(state.project_names[state.current_column], "No Project");

    state.handle_navigation_key('l', 0);
    assert_eq!(state.current_column, 1);
    assert_eq!(state.selected_in_column, 0);
    assert_eq!(state.project_names[state.current_column], "personal");

    state.handle_navigation_key('l', 0);
    assert_eq!(state.current_column, 2);
    assert_eq!(state.project_names[state.current_column], "urgent");

    state.handle_navigation_key('h', 0);
    assert_eq!(state.current_column, 1);
    assert_eq!(state.selected_in_column, 0);
    assert_eq!(state.project_names[state.current_column], "personal");
}

#[test]
fn test_handle_navigation_key_boundaries() {
    let todos = create_test_todos();
    let mut state = AppState::new(todos);

    assert_eq!(state.current_column, 0);
    state.handle_navigation_key('h', 0);
    assert_eq!(state.current_column, 0);

    state.current_column = state.project_names.len() - 1;
    let last_column = state.current_column;

    state.handle_navigation_key('l', 0);
    assert_eq!(state.current_column, last_column);
}

#[test]
fn test_update_derived_state_column_bounds() {
    let todos = create_test_todos();
    let mut state = AppState::new(todos);

    state.current_column = 999;
    state.selected_in_column = 999;

    state.update_derived_state();

    assert!(state.current_column < state.project_names.len());
    let name = state.project_names[state.current_column].clone();
    assert!(state.selected_in_column < state.grouped_todos.get(&name).unwrap().len());
}

#[test]
fn test_send_initial_vim_command() {
    let todos = create_test_todos();
    let state = AppState::new(todos);

    let action = state.send_initial_vim_command();
    assert!(matches!(action, UiAction::Focus(_)));

    let empty_state = AppState::new(vec![]);
    let action = empty_state.send_initial_vim_command();
    assert!(matches!(action, UiAction::Nothing));
}

#[test]
fn test_update_derived_state_empty_records() {
    let mut state = AppState::new(vec![]);
    state.current_column = 999;
    let action = state.update_derived_state();
    assert_eq!(state.current_column, 0);
    assert!(matches!(action, UiAction::Nothing));
}

#[test]
fn test_monitor_column_navigation() {
    let todos = vec![item(None, "Task", &["work"], &[], "t-1", 1)];
    let mut state = AppState::new(todos);
    state.set_claude_sessions_enabled(true);

    // one project column plus the monitor column
    let action = state.handle_navigation_key('l', 3);
    assert!(matches!(action, UiAction::EnterMonitor));
    assert!(state.is_on_claude_column());
    assert_eq!(state.claude_selected_index, 0);

    // row moves on the monitor column move the session selection
    state.preview.activate(9);
    let action = state.handle_navigation_key('j', 3);
    assert!(matches!(action, UiAction::PushPreview));
    assert_eq!(state.claude_selected_index, 1);

    // leaving the monitor column tears the preview down and refocuses
    let action = state.handle_navigation_key('h', 3);
    assert!(matches!(action, UiAction::Focus(_)));
    assert!(!state.is_on_claude_column());
    assert_eq!(state.preview.channel(), None);
}
