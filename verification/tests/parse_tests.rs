use log_manager::parser::parse_logs;

#[test]
fn parse_empty_yields_no_entries() {
    let logs = parse_logs("");
    assert_eq!(logs.len(), 0);
}

#[test]
fn parse_whitespace_only_yields_no_entries() {
    let logs = parse_logs("   \n");
    assert_eq!(logs.len(), 0);
    let logs = parse_logs(" \t \n  \n");
    assert_eq!(logs.len(), 0);
}

#[test]
fn parse_splits_at_header_lines() {
    let content = "Log: Alice\nDate: 2024-01-01\nGoals for the Week:\n- learn rust\n\nLog: Bob\nDate: 2024-01-02\n";
    let logs = parse_logs(content);
    assert_eq!(logs.len(), 2);
    assert_eq!(
        logs[0],
        "Log: Alice\nDate: 2024-01-01\nGoals for the Week:\n- learn rust\n\n"
    );
    assert_eq!(logs[1], "Log: Bob\nDate: 2024-01-02\n");
}

#[test]
fn parse_round_trip_by_concatenation() {
    let content = "Log: Alice\nDate: 2024-01-01\nGoals for the Week:\n- learn rust\n\nLog: Bob\nDate: 2024-01-02\n";
    let logs = parse_logs(content);
    let rejoined: String = logs.concat();
    assert_eq!(rejoined, content);
}

#[test]
fn parse_is_idempotent_on_rejoined_entries() {
    let content = "old scribble\nLog: Alice\n- learn rust\nLog: Bob\n- review\n\nLog: Carol";
    let logs = parse_logs(content);
    let rejoined: String = logs.concat();
    let logs_again = parse_logs(&rejoined);
    assert_eq!(logs, logs_again);
}

#[test]
fn parse_keeps_leading_text_with_first_entry() {
    let logs = parse_logs("stray note\nLog: Alice\n- x\n");
    assert_eq!(logs.len(), 1);
    assert_eq!(logs[0], "stray note\nLog: Alice\n- x\n");
}

#[test]
fn parse_terminates_a_final_unfinished_line() {
    let logs = parse_logs("Log: Alice\n- x");
    assert_eq!(logs.len(), 1);
    assert_eq!(logs[0], "Log: Alice\n- x\n");
}

#[test]
fn parse_single_entry_without_header_kept_when_not_blank() {
    let logs = parse_logs("just some text\n");
    assert_eq!(logs.len(), 1);
    assert_eq!(logs[0], "just some text\n");
}
