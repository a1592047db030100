use torudo::watch::EventHandler;
use torudo::watch::WatchEvent;
use torudo::watch::WatchEventKind;
use torudo::preview::Preview;
use torudo::preview::SessionStatus;
use torudo::nav::AppState;
use torudo::nav::UiAction;
use torudo::record::Item;

fn modify_event(name: &str) -> WatchEvent {
    WatchEvent { name: name.to_string(), kind: WatchEventKind::Modify }
}

#[test]
fn debounce_two_events_close_together_one_reload() {
    let mut h = EventHandler::new();
    let events = vec![modify_event("todo.txt")];
    let first = h.handle_file_watcher_events(&events, "todo.txt", 1000);
    let second = h.handle_file_watcher_events(&events, "todo.txt", 1050);
    assert!(first);
    assert!(!second);
}

#[test]
fn debounce_two_events_far_apart_two_reloads() {
    let mut h = EventHandler::new();
    let events = vec![modify_event("todo.txt")];
    let first = h.handle_file_watcher_events(&events, "todo.txt", 1000);
    let second = h.handle_file_watcher_events(&events, "todo.txt", 1300);
    assert!(first);
    assert!(second);
}

#[test]
fn watcher_ignores_other_files_and_other_kinds() {
    let mut h = EventHandler::new();
    let other_file = vec![modify_event("done.txt")];
    assert!(!h.handle_file_watcher_events(&other_file, "todo.txt", 500));
    let other_kind =
        vec![WatchEvent { name: "todo.txt".to_string(), kind: WatchEventKind::Other }];
    assert!(!h.handle_file_watcher_events(&other_kind, "todo.txt", 600));
}

#[test]
fn deferred_reload_happens_on_a_later_tick() {
    let mut h = EventHandler::new();
    let events = vec![modify_event("todo.txt")];
    assert!(h.handle_file_watcher_events(&events, "todo.txt", 1000));
    // within the window: deferred, not dropped
    assert!(!h.handle_file_watcher_events(&events, "todo.txt", 1100));
    // a quiet tick after the window performs the deferred reload
    let none: Vec<WatchEvent> = Vec::new();
    assert!(h.handle_file_watcher_events(&none, "todo.txt", 1250));
}

#[test]
fn preview_throttle_working_session() {
    let mut p = Preview::Inactive;
    p.activate(7);
    assert_eq!(p.channel(), Some(7));
    let first = p.tick(SessionStatus::Working, 10_000);
    let second = p.tick(SessionStatus::Working, 10_500);
    assert!(first);
    assert!(!second);
    // a tick past the interval pushes again
    assert!(p.tick(SessionStatus::Working, 12_000));
}

#[test]
fn preview_throttle_idle_session_never_pushes() {
    let mut p = Preview::Inactive;
    p.activate(7);
    assert!(!p.tick(SessionStatus::Idle, 10_000));
    assert!(!p.tick(SessionStatus::Idle, 10_500));
    assert!(!p.tick(SessionStatus::WaitingForApproval, 20_000));
}

#[test]
fn preview_inactive_never_pushes() {
    let mut p = Preview::Inactive;
    assert!(!p.tick(SessionStatus::Working, 10_000));
    assert_eq!(p.channel(), None);
}

#[test]
fn keyboard_dispatch() {
    let h = EventHandler::new();
    let todos = vec![Item {
        completed: false,
        priority: None,
        creation_date: None,
        completion_date: None,
        description: "Task".to_string(),
        projects: vec![],
        contexts: vec![],
        id: Some("t-1".to_string()),
        line_number: 1,
    }];
    let mut state = AppState::new(todos);

    let (quit, action) = h.handle_keyboard_event(Some('q'), &mut state, 0);
    assert!(quit);
    assert!(matches!(action, UiAction::Nothing));

    let (quit, action) = h.handle_keyboard_event(Some('x'), &mut state, 0);
    assert!(!quit);
    assert!(matches!(action, UiAction::Complete));

    let (quit, action) = h.handle_keyboard_event(Some('r'), &mut state, 0);
    assert!(!quit);
    assert!(matches!(action, UiAction::Reload));

    // 's' only acts on the monitor column
    let (_, action) = h.handle_keyboard_event(Some('s'), &mut state, 0);
    assert!(matches!(action, UiAction::Nothing));

    let (quit, action) = h.handle_keyboard_event(Some('z'), &mut state, 0);
    assert!(!quit);
    assert!(matches!(action, UiAction::Nothing));

    let (quit, _) = h.handle_keyboard_event(None, &mut state, 0);
    assert!(!quit);
}

#[test]
fn complete_and_reload_through_the_state() {
    let todos = torudo::load::load_todos("(A) finish me +work id:b\nkeep me +work id:a");
    let mut state = AppState::new(todos);
    assert_eq!(state.get_current_todo_id(), Some("b".to_string()));

    let (new_todo, new_done, _action) = state
        .handle_complete_todo("(A) finish me +work id:b\nkeep me +work id:a", "")
        .expect("the selected record exists in the file");
    assert_eq!(new_todo, "keep me +work id:a");
    assert!(new_done.starts_with("x "));
    assert!(new_done.contains("(A)"));
    assert!(new_done.contains("id:b"));
    // the grid reloaded from the rewritten content
    assert_eq!(state.todos.len(), 1);
    assert_eq!(state.get_current_todo_id(), Some("a".to_string()));
}

#[test]
fn manual_reload_assigns_identifiers() {
    let mut state = AppState::new(vec![]);
    let (rewritten, _action) = state.handle_reload("no id yet +work\nhas one +work id:e-1");
    let rewritten = rewritten.expect("one line lacks an identifier");
    assert_eq!(state.todos.len(), 2);
    assert!(state.todos.iter().all(|t| t.id.is_some()));
    assert!(rewritten.starts_with("no id yet +work id:"));
}
