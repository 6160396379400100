use log_manager::editor::update_section;
use log_manager::ops::{edit_content, LogError};

#[test]
fn update_replaces_existing_section_body() {
    let entry = "Log: Alice\nDate: 2024-01-01\nGoals for the Week:\n- learn rust\n\n";
    let updated = update_section(entry, "goals", "- learn go\n");
    assert_eq!(
        updated,
        "Log: Alice\nDate: 2024-01-01\nGoals for the Week:\n- learn go\n\n"
    );
}

#[test]
fn update_appends_missing_section() {
    let entry = "Log: Alice\nDate: 2024-01-01\n";
    let updated = update_section(entry, "progress", "- shipped it\n");
    assert_eq!(
        updated,
        "Log: Alice\nDate: 2024-01-01\n\nProgress:\n- shipped it\n"
    );
}

#[test]
fn update_unknown_keyword_returns_entry_unchanged() {
    let entry = "Log: Alice\nGoals for the Week:\n- x\n";
    let updated = update_section(entry, "mystery", "- y\n");
    assert_eq!(updated, entry);
}

#[test]
fn update_stops_at_uppercase_boundary_line() {
    let entry = "Log: A\nGoals for the Week:\n- x\nNotes here\nProgress:\n- y\n";
    let updated = update_section(entry, "goals", "- z\n");
    assert_eq!(
        updated,
        "Log: A\nGoals for the Week:\n- z\nNotes here\nProgress:\n- y\n"
    );
}

#[test]
fn update_replaces_each_named_section() {
    let entry = "Log: A\nGoals for the Week:\n- g\n\nProgress:\n- p\n\nChallenges:\n- c\n\nFeedback from Mentor:\n- f\n\nNext Steps:\n- n\n\n";
    let updated = update_section(entry, "challenges", "- harder\n");
    assert_eq!(
        updated,
        "Log: A\nGoals for the Week:\n- g\n\nProgress:\n- p\n\nChallenges:\n- harder\n\nFeedback from Mentor:\n- f\n\nNext Steps:\n- n\n\n"
    );
    let updated = update_section(entry, "next steps", "- done\n");
    assert_eq!(
        updated,
        "Log: A\nGoals for the Week:\n- g\n\nProgress:\n- p\n\nChallenges:\n- c\n\nFeedback from Mentor:\n- f\n\nNext Steps:\n- done\n\n"
    );
}

#[test]
fn edit_first_entry_leaves_second_untouched() {
    let content = "Log: Alice\nDate: 2024-01-01\nGoals for the Week:\n- learn rust\n\nLog: Bob\nDate: 2024-01-02\n";
    let result = edit_content(content, 1, "goals", "- learn go\n").unwrap();
    assert_eq!(
        result,
        "Log: Alice\nDate: 2024-01-01\nGoals for the Week:\n- learn go\n\n\nLog: Bob\nDate: 2024-01-02\n"
    );
    let reparsed = log_manager::parser::parse_logs(&result);
    assert_eq!(reparsed.len(), 2);
    assert_eq!(reparsed[1], "Log: Bob\nDate: 2024-01-02\n");
    assert!(reparsed[0].contains("Goals for the Week:\n- learn go\n"));
    assert!(!reparsed[0].contains("learn rust"));
}

#[test]
fn edit_blank_content_reports_no_logs() {
    assert_eq!(
        edit_content("   \n", 1, "goals", "- x\n"),
        Err(LogError::NoLogs)
    );
}

#[test]
fn edit_out_of_range_index_reports_invalid_index() {
    let content = "Log: Alice\n- x\n";
    assert_eq!(
        edit_content(content, 0, "goals", "- y\n"),
        Err(LogError::InvalidIndex)
    );
    assert_eq!(
        edit_content(content, 2, "goals", "- y\n"),
        Err(LogError::InvalidIndex)
    );
}

#[test]
fn edit_unknown_section_reports_invalid_section() {
    let content = "Log: Alice\n- x\n";
    assert_eq!(
        edit_content(content, 1, "summary", "- y\n"),
        Err(LogError::InvalidSection)
    );
}
