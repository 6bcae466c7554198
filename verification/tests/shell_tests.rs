use nekocode::shell::{
    exit_marker, no_active_shell, parse_shell_id, stdin_payload, timed_out, ShellConfig, ShellOutput,
    MAX_BUFFERED_OUTPUT_BYTES, MAX_BUFFERED_OUTPUT_LINES,
};
use nekocode::message::ToolError;

#[test]
fn program_defaults_to_bash() {
    assert_eq!(ShellConfig::default().program(), "bash");
    let cfg = ShellConfig { shell: Some("zsh".into()), ..ShellConfig::default() };
    assert_eq!(cfg.program(), "zsh");
}

#[test]
fn output_is_read_once_in_order() {
    let mut out = ShellOutput::new();
    out.push_line("a".into());
    out.push_line("b".into());
    let (text, truncated) = out.take_unread();
    assert_eq!(text, "a\nb");
    assert!(!truncated);
    assert_eq!(out.take_unread(), (String::new(), false));
}

#[test]
fn oldest_lines_are_dropped_past_the_line_limit() {
    let mut out = ShellOutput::new();
    for i in 0..(MAX_BUFFERED_OUTPUT_LINES + 2) {
        out.push_line(format!("{i}"));
    }
    assert_eq!(out.lines.len(), MAX_BUFFERED_OUTPUT_LINES);
    assert_eq!(out.lines.front().map(String::as_str), Some("2"));
    let (_, truncated) = out.take_unread();
    assert!(truncated);
}

#[test]
fn a_line_over_the_byte_limit_is_dropped() {
    let mut out = ShellOutput::new();
    out.push_line("keep".into());
    out.push_line("x".repeat(MAX_BUFFERED_OUTPUT_BYTES + 1));
    assert!(out.lines.is_empty());
    assert_eq!(out.buffered_bytes, 0);
    assert!(out.truncated);
}

#[test]
fn exit_markers() {
    assert_eq!(exit_marker(Some(Some(0))), "[exit_code=0]");
    assert_eq!(exit_marker(Some(Some(2))), "[exit_code=2]");
    assert_eq!(exit_marker(Some(None)), "[exit_code=-1]");
    assert_eq!(exit_marker(None), "[terminated]");
}

#[test]
fn stdin_gets_one_line_end() {
    assert_eq!(stdin_payload("ls"), "ls\n");
    assert_eq!(stdin_payload("ls\n"), "ls\n");
}

#[test]
fn shell_id_parameter() {
    let params: serde_json::Value = serde_json::from_str("{\"shell_id\": 3}").unwrap();
    assert_eq!(parse_shell_id(&params).unwrap(), 3);
    let params: serde_json::Value = serde_json::from_str("{\"shell_id\": 4294967296}").unwrap();
    assert!(matches!(parse_shell_id(&params), Err(ToolError::InvalidParameters(_))));
    assert!(matches!(parse_shell_id(&serde_json::Value::Null), Err(ToolError::InvalidParameters(_))));
    assert!(matches!(no_active_shell(5), ToolError::InvalidParameters(ref m) if m == "No active shell with shell_id 5"));
    assert!(matches!(timed_out(3), ToolError::ExecutionError(ref m) if m == "command timed out after 3s"));
}

#[test]
fn finished_shells_forget_the_oldest_past_the_limit() {
    let mut finished = nekocode::shell::FinishedShells::new();
    for id in 0..nekocode::shell::MAX_COMPLETED_SHELLS as u32 {
        assert_eq!(finished.record(id), None);
    }
    assert_eq!(finished.record(1000), Some(0));
    assert_eq!(finished.record(1001), Some(1));
    assert_eq!(finished.ids.len(), nekocode::shell::MAX_COMPLETED_SHELLS);
    assert_eq!(finished.ids.back(), Some(&1001));
    assert_eq!(finished.ids.front(), Some(&2));
}
