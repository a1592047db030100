use torudo::record::Item;
use torudo::date::Date;
use torudo::date::parse_date;
use torudo::date::format_date;
use torudo::load::load_todos;

#[test]
fn parse_full_line() {
    let it = Item::parse("(A) 2024-01-10 Call Mom +family @phone id:abc-1", 3);
    assert!(!it.completed);
    assert_eq!(it.priority, Some('A'));
    assert_eq!(it.creation_date, Some(Date { year: 2024, month: 1, day: 10 }));
    assert_eq!(it.completion_date, None);
    assert_eq!(it.description, "Call Mom");
    assert_eq!(it.projects, vec!["family".to_string()]);
    assert_eq!(it.contexts, vec!["phone".to_string()]);
    assert_eq!(it.id, Some("abc-1".to_string()));
    assert_eq!(it.line_number, 3);
}

#[test]
fn parse_completed_line() {
    let it = Item::parse("x 2024-03-01 2024-01-10 Pay rent +home id:r-9", 1);
    assert!(it.completed);
    assert_eq!(it.completion_date, Some(Date { year: 2024, month: 3, day: 1 }));
    assert_eq!(it.creation_date, Some(Date { year: 2024, month: 1, day: 10 }));
    assert_eq!(it.priority, None);
    assert_eq!(it.description, "Pay rent");
}

#[test]
fn parse_priority_is_skipped_after_marker() {
    // priority is only recognized on records without the completion marker
    let it = Item::parse("x (A) Call Mom", 1);
    assert!(it.completed);
    assert_eq!(it.priority, None);
    assert_eq!(it.description, "(A) Call Mom");
}

#[test]
fn parse_rejects_malformed_fields() {
    let it = Item::parse("(a) 2024-13-01 2024-02-30 words only", 1);
    assert_eq!(it.priority, None);
    assert_eq!(it.creation_date, None);
    assert_eq!(it.description, "(a) 2024-13-01 2024-02-30 words only");
}

#[test]
fn serialize_reconstructs_canonical_line() {
    let line = "(B) 2024-01-10 Call Mom +family @phone id:abc-1";
    let it = Item::parse(line, 1);
    assert_eq!(it.serialize(), line);
}

#[test]
fn round_trip_parse_serialize_parse() {
    let lines = [
        "(A) 2024-01-10 Call Mom +family @phone id:abc-1",
        "x 2024-03-01 2024-01-10 Pay rent +home id:r-9",
        "plain words only",
        "+tagonly id:z",
        "x 2024-02-29 leap day",
        "",
    ];
    for line in lines.iter() {
        let first = Item::parse(line, 1);
        let second = Item::parse(&first.serialize(), 1);
        assert_eq!(second.completed, first.completed);
        assert_eq!(second.priority, first.priority);
        assert_eq!(second.creation_date, first.creation_date);
        assert_eq!(second.completion_date, first.completion_date);
        assert_eq!(second.description, first.description);
        assert_eq!(second.projects, first.projects);
        assert_eq!(second.contexts, first.contexts);
        assert_eq!(second.id, first.id);
    }
}

#[test]
fn load_orders_by_priority_then_line() {
    let todos = load_todos("(B) t2\n(A) t1\nt3");
    assert_eq!(todos.len(), 3);
    assert_eq!(todos[0].description, "t1");
    assert_eq!(todos[0].priority, Some('A'));
    assert_eq!(todos[1].description, "t2");
    assert_eq!(todos[1].priority, Some('B'));
    assert_eq!(todos[2].description, "t3");
    assert_eq!(todos[2].priority, None);
}

#[test]
fn load_skips_blank_lines_and_numbers_the_rest() {
    let todos = load_todos("first\n\n   \nsecond\n");
    assert_eq!(todos.len(), 2);
    assert_eq!(todos[0].description, "first");
    assert_eq!(todos[0].line_number, 1);
    assert_eq!(todos[1].description, "second");
    assert_eq!(todos[1].line_number, 4);
}

#[test]
fn date_parsing_checks_the_calendar() {
    assert_eq!(parse_date("2024-02-29"), Some(Date { year: 2024, month: 2, day: 29 }));
    assert_eq!(parse_date("2023-02-29"), None);
    assert_eq!(parse_date("1900-02-29"), None);
    assert_eq!(parse_date("2000-02-29"), Some(Date { year: 2000, month: 2, day: 29 }));
    assert_eq!(parse_date("2024-00-10"), None);
    assert_eq!(parse_date("2024-04-31"), None);
    assert_eq!(parse_date("2024-1-10"), None);
    assert_eq!(parse_date("20x4-01-10"), None);
}

#[test]
fn date_formats_zero_padded() {
    assert_eq!(format_date(&Date { year: 987, month: 4, day: 5 }), "0987-04-05");
    assert_eq!(format_date(&Date { year: 2024, month: 12, day: 31 }), "2024-12-31");
}

#[test]
fn load_keeps_file_order_within_a_priority_class() {
    let todos = load_todos("(A) second id:2\n(A) first is later in class\nnone-1\nnone-2");
    assert_eq!(todos[0].id, Some("2".to_string()));
    assert_eq!(todos[1].description, "first is later in class");
    assert_eq!(todos[2].description, "none-1");
    assert_eq!(todos[3].description, "none-2");
}
