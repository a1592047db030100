use torudo::ui_support::format_elapsed;
use torudo::ui_support::state_label;
use torudo::preview::SessionStatus;

#[test]
fn test_format_elapsed_seconds() {
    let result = format_elapsed(0);
    assert_eq!(result, "0s");
}

#[test]
fn test_format_elapsed_minutes() {
    assert_eq!(format_elapsed(120), "2m");
}

#[test]
fn test_format_elapsed_hours() {
    assert_eq!(format_elapsed(7200), "2h");
}

#[test]
fn test_format_elapsed_boundary_59s() {
    assert_eq!(format_elapsed(59), "59s");
}

#[test]
fn test_format_elapsed_boundary_60s() {
    assert_eq!(format_elapsed(60), "1m");
}

#[test]
fn test_format_elapsed_boundary_3599s() {
    assert_eq!(format_elapsed(3599), "59m");
}

#[test]
fn test_format_elapsed_boundary_3600s() {
    assert_eq!(format_elapsed(3600), "1h");
}

#[test]
fn test_state_label() {
    assert_eq!(state_label(&SessionStatus::Working), "Running");
    assert_eq!(state_label(&SessionStatus::WaitingForApproval), "Approval");
    assert_eq!(state_label(&SessionStatus::Idle), "Idle");
}
