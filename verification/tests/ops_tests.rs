use log_manager::entry::{compose_entry, compose_entry_now, is_end_marker};
use log_manager::get_file_path;
use log_manager::ops::{delete_content, join_logs, restore_content, LogError};

#[test]
fn delete_removes_chosen_entry_in_order() {
    let content = "Log: Alice\nDate: 2024-01-01\n\nLog: Bob\nDate: 2024-01-02\n\nLog: Carol\nDate: 2024-01-03\n";
    let result = delete_content(content, 2).unwrap();
    assert_eq!(
        result,
        "Log: Alice\nDate: 2024-01-01\n\n\nLog: Carol\nDate: 2024-01-03\n"
    );
    let remaining = log_manager::parser::parse_logs(&result);
    assert_eq!(remaining.len(), 2);
    assert!(remaining[0].contains("Alice"));
    assert!(remaining[1].contains("Carol"));
    assert!(!result.contains("Bob"));
}

#[test]
fn delete_last_entry_leaves_the_other() {
    let content = "Log: Alice\n- x\n\nLog: Bob\n- y\n";
    let result = delete_content(content, 2).unwrap();
    assert_eq!(result, "Log: Alice\n- x\n\n");
}

#[test]
fn delete_out_of_range_index_reports_invalid_index() {
    let content = "Log: Alice\n- x\n\nLog: Bob\n- y\n";
    assert_eq!(delete_content(content, 0), Err(LogError::InvalidIndex));
    assert_eq!(delete_content(content, 3), Err(LogError::InvalidIndex));
}

#[test]
fn delete_blank_content_reports_no_logs() {
    assert_eq!(delete_content("  \n", 1), Err(LogError::NoLogs));
}

#[test]
fn restore_without_backup_reports_no_backup() {
    assert_eq!(restore_content(None), Err(LogError::NoBackup));
}

#[test]
fn restore_returns_backup_content_unchanged() {
    let snapshot = "Log: Alice\n- x\n".to_string();
    assert_eq!(restore_content(Some(snapshot.clone())), Ok(snapshot));
}

#[test]
fn join_separates_entries_with_one_newline() {
    let logs = vec!["Log: A\n- x\n".to_string(), "Log: B\n- y\n".to_string()];
    assert_eq!(join_logs(&logs), "Log: A\n- x\n\nLog: B\n- y\n");
    assert_eq!(join_logs(&vec![]), "");
    assert_eq!(join_logs(&vec!["one\n".to_string()]), "one\n");
}

#[test]
fn compose_builds_the_entry_exactly() {
    let sections = vec![
        vec!["learn rust".to_string(), "write tests".to_string()],
        vec![],
        vec!["time".to_string()],
        vec![],
        vec![],
    ];
    let entry = compose_entry("Alice", "2024-01-01 10:00:00", &sections);
    assert_eq!(
        entry,
        "\nLog: Alice\nDate: 2024-01-01 10:00:00\nGoals for the Week:\n- learn rust\n- write tests\n\nProgress:\n\nChallenges:\n- time\n\nFeedback from Mentor:\n\nNext Steps:\n\n"
    );
}

#[test]
fn compose_now_stamps_a_date_line() {
    let sections = vec![vec![], vec![], vec![], vec![], vec![]];
    let entry = compose_entry_now("Bob", &sections);
    assert!(entry.starts_with("\nLog: Bob\nDate: "));
    assert!(entry.contains("Goals for the Week:\n"));
    assert!(entry.ends_with("Next Steps:\n\n"));
    let date_line = entry.lines().nth(2).unwrap();
    assert_eq!(date_line.len(), "Date: 2024-01-01 10:00:00".len());
}

#[test]
fn end_marker_matches_any_letter_case() {
    assert!(is_end_marker("END"));
    assert!(is_end_marker("end"));
    assert!(is_end_marker("EnD"));
    assert!(!is_end_marker("ENDS"));
    assert!(!is_end_marker("en"));
    assert!(!is_end_marker(""));
    assert!(!is_end_marker(" END"));
}

#[test]
fn file_path_joins_directory_and_name() {
    assert_eq!(
        get_file_path("/home/u/.log_manager", "logs.txt"),
        "/home/u/.log_manager/logs.txt"
    );
    assert_eq!(get_file_path(".", "logs_backup.txt"), "./logs_backup.txt");
}
