use strata::tools::fs::{EntryKind, FsConfig, Probe, Resolved};
use strata::tools::shell::{
    command_report, format_output, format_timed_out, next_wait_action, truncate_stream, WaitAction,
    WaitEvent,
};
use strata::tools::{RunCommand, MAX_OUTPUT_BYTES};
use strata::{JsonValue, ToolError};

fn obj(pairs: Vec<(&str, JsonValue)>) -> JsonValue {
    JsonValue::object(pairs.into_iter().map(|(k, v)| JsonValue::entry(k, v)).collect())
}

fn s(text: &str) -> JsonValue {
    JsonValue::string(text)
}

fn workspace() -> FsConfig {
    FsConfig::new(
        "/tmp/shell_ws",
        Probe::Found {
            canonical: "/tmp/shell_ws".into(),
            kind: EntryKind::Dir,
        },
    )
    .expect("config")
}

#[test]
fn schema_has_run_command_name() {
    let schema = RunCommand::new(workspace()).schema();
    assert_eq!(schema.name, "run_command");
    assert_eq!(
        schema.parameters.get("required"),
        Some(&JsonValue::array(vec![s("command")]))
    );
}

#[test]
fn empty_command_rejected() {
    let err = RunCommand::parse_args(&obj(vec![("command", s("   "))])).unwrap_err();
    assert!(matches!(err, ToolError::InvalidArgs(_)));
}

#[test]
fn command_and_cwd_are_trimmed_with_default() {
    let a = RunCommand::parse_args(&obj(vec![("command", s("  echo hello "))])).unwrap();
    assert_eq!(a.command, "echo hello");
    assert_eq!(a.cwd, ".");
    let a = RunCommand::parse_args(&obj(vec![("command", s("ls")), ("cwd", s(" sub "))])).unwrap();
    assert_eq!(a.cwd, "sub");
    let a = RunCommand::parse_args(&obj(vec![("command", s("ls")), ("cwd", s("  "))])).unwrap();
    assert_eq!(a.cwd, ".");
    let err = RunCommand::parse_args(&obj(vec![])).unwrap_err();
    assert_eq!(err.to_string(), "invalid arguments: missing or empty required field: command");
}

#[test]
fn cwd_escape_rejected() {
    let config = workspace();
    let a = RunCommand::parse_args(&obj(vec![("command", s("echo x")), ("cwd", s("../outside"))])).unwrap();
    let err = config.resolve_lexical(&a.cwd).unwrap_err();
    assert!(matches!(err, ToolError::InvalidArgs(_)));
}

#[test]
fn cwd_not_directory() {
    let target = Resolved {
        path: "/tmp/shell_ws/file.txt".into(),
        kind: Some(EntryKind::File),
    };
    let err = RunCommand::check_cwd("file.txt", &target).unwrap_err();
    assert_eq!(err.to_string(), "tool execution failed: not a directory: file.txt");
    let dir = Resolved {
        path: "/tmp/shell_ws".into(),
        kind: Some(EntryKind::Dir),
    };
    assert!(RunCommand::check_cwd(".", &dir).is_ok());
}

#[test]
fn truncate_stream_adds_notice() {
    let big = vec![b'x'; MAX_OUTPUT_BYTES + 10];
    let text = truncate_stream(&big, MAX_OUTPUT_BYTES);
    assert!(text.contains("[truncated at"));
    assert!(text.len() <= MAX_OUTPUT_BYTES + 64);
}

#[test]
fn truncate_stream_reads_leniently() {
    assert_eq!(truncate_stream(b"hello", 10), "hello");
    assert_eq!(truncate_stream(b"hello", 3), "hel\n[truncated at 3 bytes]");
    assert_eq!(truncate_stream(&[0x61, 0xff], 10), "a\u{fffd}");
}

#[test]
fn output_lists_exit_code_and_streams() {
    assert_eq!(
        format_output(Some(0), "hello\n", ""),
        "exit_code: 0\nstdout:\nhello\n\nstderr:\n"
    );
    assert_eq!(format_output(Some(-2), "", "err"), "exit_code: -2\nstdout:\n\nstderr:\nerr");
    assert_eq!(format_output(None, "", ""), "exit_code: null\nstdout:\n\nstderr:\n");
    assert_eq!(
        format_timed_out(b"partial", b""),
        "exit_code: null\ntimed_out: true\nstdout:\npartial\nstderr:\n"
    );
}

#[test]
fn waiting_collects_kills_or_sleeps() {
    assert!(matches!(next_wait_action(WaitEvent::Exited), WaitAction::Collect));
    assert!(matches!(
        next_wait_action(WaitEvent::Running { elapsed_ms: 119_999 }),
        WaitAction::Sleep
    ));
    assert!(matches!(
        next_wait_action(WaitEvent::Running { elapsed_ms: 120_000 }),
        WaitAction::KillAndCollect
    ));
    match next_wait_action(WaitEvent::Failed("no child".into())) {
        WaitAction::Fail(e) => assert_eq!(e.to_string(), "tool execution failed: wait failed: no child"),
        other => panic!("unexpected {:?}", other),
    }
}

#[test]
fn report_of_a_finished_or_killed_command() {
    assert_eq!(
        command_report(false, Some(1), b"", b"boom"),
        "exit_code: 1\nstdout:\n\nstderr:\nboom"
    );
    assert_eq!(
        command_report(true, None, b"x", b"y"),
        "exit_code: null\ntimed_out: true\nstdout:\nx\nstderr:\ny"
    );
}
