use torudo::mutate::add_missing_ids;
use torudo::mutate::mark_complete_content;
use torudo::mutate::append_todo;
use torudo::record::Item;
use torudo::date::Date;

#[test]
fn add_missing_ids_assigns_to_lines_without_one() {
    let content = "task one\ntask two id:keep-7\n\nthird task";
    let rewritten = add_missing_ids(content).expect("two lines lack an identifier");
    let lines: Vec<&str> = rewritten.lines().collect();
    assert_eq!(lines.len(), 4);
    assert!(lines[0].starts_with("task one id:"));
    assert_eq!(lines[1], "task two id:keep-7");
    assert_eq!(lines[2], "");
    assert!(lines[3].starts_with("third task id:"));
    let it = Item::parse(lines[0], 1);
    let id = it.id.expect("assigned identifier parses back");
    assert_eq!(id.len(), 36);
}

#[test]
fn add_missing_ids_is_idempotent() {
    let content = "task one\ntask two id:keep-7";
    let once = add_missing_ids(content).expect("one line lacks an identifier");
    // the second pass finds nothing to add and leaves the file untouched
    assert!(add_missing_ids(&once).is_none());
}

#[test]
fn add_missing_ids_no_op_when_all_have_ids() {
    assert!(add_missing_ids("a id:1\nb id:2").is_none());
    assert!(add_missing_ids("").is_none());
    assert!(add_missing_ids("\n\n").is_none());
}

#[test]
fn mark_complete_moves_priority_after_marker() {
    let today = Date { year: 2026, month: 3, day: 14 };
    let (new_todo, new_done) =
        mark_complete_content("(A) 2024-01-10 Call Mom +family id:x", "", "x", &today)
            .expect("the identifier matches");
    assert_eq!(new_todo, "");
    assert_eq!(new_done, "x (A) 2026-03-14 2024-01-10 Call Mom +family id:x\n");
}

#[test]
fn mark_complete_keeps_other_lines_and_appends_to_done() {
    let today = Date { year: 2026, month: 1, day: 2 };
    let todo = "keep me id:a\nfinish me id:b\nalso keep id:c";
    let done = "x 2025-12-31 older entry";
    let (new_todo, new_done) =
        mark_complete_content(todo, done, "b", &today).expect("the identifier matches");
    assert_eq!(new_todo, "keep me id:a\nalso keep id:c");
    // one newline closes the old content, one blank line separates, one
    // newline closes the appended record
    assert_eq!(new_done, "x 2025-12-31 older entry\n\nx 2026-01-02 finish me id:b\n");
}

#[test]
fn mark_complete_separates_from_a_closed_done_store() {
    let today = Date { year: 2026, month: 1, day: 2 };
    let (_, new_done) = mark_complete_content("finish me id:b", "x old entry\n", "b", &today)
        .expect("the identifier matches");
    assert_eq!(new_done, "x old entry\n\nx 2026-01-02 finish me id:b\n");
}

#[test]
fn mark_complete_unknown_id_is_a_silent_no_op() {
    let today = Date { year: 2026, month: 1, day: 2 };
    assert!(mark_complete_content("a id:1", "", "nope", &today).is_none());
}

#[test]
fn mark_complete_already_completed_moves_line_verbatim() {
    let today = Date { year: 2026, month: 1, day: 2 };
    let (new_todo, new_done) =
        mark_complete_content("x 2025-05-05 old one id:z", "", "z", &today)
            .expect("the identifier matches");
    assert_eq!(new_todo, "");
    assert_eq!(new_done, "x 2025-05-05 old one id:z\n");
}

#[test]
fn append_todo_builds_a_tagged_identified_line() {
    let (content, item) = append_todo("existing id:1", "Ship the release", "work", Some('A'));
    let lines: Vec<&str> = content.lines().collect();
    assert_eq!(lines.len(), 2);
    assert_eq!(lines[0], "existing id:1");
    assert!(lines[1].starts_with("(A) Ship the release +work id:"));
    assert_eq!(item.description, "Ship the release");
    assert_eq!(item.priority, Some('A'));
    assert_eq!(item.projects, vec!["work".to_string()]);
    assert!(item.id.is_some());
    assert_eq!(item.line_number, 2);
}

#[test]
fn append_todo_into_empty_content() {
    let (content, item) = append_todo("", "First", "inbox", None);
    assert!(content.starts_with("First +inbox id:"));
    assert_eq!(item.priority, None);
    assert_eq!(item.line_number, 1);
}

#[test]
fn mark_complete_today_uses_a_real_date() {
    let (new_todo, new_done) =
        torudo::mutate::mark_complete("only one id:solo", "", "solo").expect("the id matches");
    assert_eq!(new_todo, "");
    assert!(new_done.starts_with("x "));
    // the completion token parses back as a calendar date
    let done_item = Item::parse(new_done.trim_end(), 1);
    assert!(done_item.completed);
    assert!(done_item.completion_date.is_some());
    assert!(torudo::mutate::mark_complete("only one id:solo", "", "absent").is_none());
}

#[test]
fn register_plan_appends_and_returns_the_record() {
    let params = torudo::mcp::RegisterPlanParams {
        description: "Implement authentication".to_string(),
        plan: "# Auth Plan".to_string(),
        project: "myapp".to_string(),
        priority: Some("A".to_string()),
    };
    let (content, item) = torudo::mcp::register_plan("", &params);
    assert!(content.contains("Implement authentication"));
    assert!(content.contains("+myapp"));
    assert!(content.contains("(A)"));
    assert_eq!(item.description, "Implement authentication");
    assert_eq!(item.priority, Some('A'));
    assert_eq!(item.projects, vec!["myapp".to_string()]);
    assert!(item.id.is_some());
    // a lower-case priority parameter is not a priority
    let params2 = torudo::mcp::RegisterPlanParams {
        description: "d".to_string(),
        plan: String::new(),
        project: "p".to_string(),
        priority: Some("a".to_string()),
    };
    let (_, item2) = torudo::mcp::register_plan("", &params2);
    assert_eq!(item2.priority, None);
}

#[test]
fn add_ids_assigns_the_given_identifiers_in_order() {
    let ids = vec!["aaa-1".to_string(), "bbb-2".to_string()];
    let rewritten =
        torudo::mutate::add_ids("one\nhas id:keep\n\ntwo", &ids).expect("two lines need one");
    assert_eq!(rewritten, "one id:aaa-1\nhas id:keep\n\ntwo id:bbb-2");
    // distinct given identifiers leave every line with a distinct identifier
    let lines: Vec<&str> = rewritten.lines().collect();
    let a = Item::parse(lines[0], 1).id.unwrap();
    let b = Item::parse(lines[1], 2).id.unwrap();
    let c = Item::parse(lines[3], 4).id.unwrap();
    assert_ne!(a, b);
    assert_ne!(a, c);
    assert_ne!(b, c);
    // nothing to assign: the content is left untouched
    let none: Vec<String> = Vec::new();
    assert!(torudo::mutate::add_ids("a id:1\nb id:2", &none).is_none());
}
