use strata::run::{take_reply, Step};
use strata::tools::fs::{EntryKind, FsConfig, ListDir, Probe, ReadFile, WriteFile};
use strata::tools::fs_steps::{PathAction, PathEvent, PathState};
use strata::tools::fs_write::{FsAction, FsEvent, WriteState};
use strata::tools::RunCommand;
use strata::{
    CompletionResponse, ContentBlock, JsonToolCall, JsonValue, Message, NoopTracer, ProviderError,
    Session, StrataError,
};

fn obj(pairs: Vec<(&str, JsonValue)>) -> JsonValue {
    JsonValue::object(pairs.into_iter().map(|(k, v)| JsonValue::entry(k, v)).collect())
}

fn s(text: &str) -> JsonValue {
    JsonValue::string(text)
}

fn workspace() -> FsConfig {
    FsConfig::new("/tmp/ws", Probe::Found { canonical: "/tmp/ws".into(), kind: EntryKind::Dir })
        .expect("config")
}

fn found(path: &str, kind: EntryKind) -> FsEvent {
    FsEvent::Probed(Probe::Found { canonical: path.into(), kind })
}

fn probe_path(action: &FsAction) -> String {
    match action {
        FsAction::Probe(p) => p.clone(),
        other => panic!("expected a probe, got {other:?}"),
    }
}

fn finish(action: FsAction) -> Result<String, String> {
    match action {
        FsAction::Finish(r) => r.map_err(|e| e.to_string()),
        other => panic!("expected the end, got {other:?}"),
    }
}

// ---- take_reply ----

#[test]
fn take_reply_keeps_the_provider_error_and_the_session() {
    let mut session = Session::with_history(vec![Message::user("ping")]);
    let step = take_reply(
        &mut session,
        &JsonToolCall,
        &NoopTracer,
        0,
        7,
        Err(ProviderError::Network("connection reset".into())),
    );
    match step {
        Step::Stop(Err(StrataError::Provider(ProviderError::Network(m)))) => {
            assert_eq!(m, "connection reset")
        },
        _ => panic!("expected the provider error"),
    }
    assert_eq!(session.history.len(), 1);
    assert_eq!(session.turn, 0);
}

#[test]
fn take_reply_answers_with_the_text_of_a_plain_reply() {
    let mut session = Session::with_history(vec![Message::user("hi")]);
    let reply = CompletionResponse {
        message: Message::assistant(vec![ContentBlock::Text("hello".into())]),
        usage: None,
    };
    match take_reply(&mut session, &JsonToolCall, &NoopTracer, 0, 1, Ok(reply)) {
        Step::Stop(Ok(text)) => assert_eq!(text, "hello"),
        _ => panic!("expected the answer"),
    }
    assert_eq!(session.history.len(), 2);
}

#[test]
fn take_reply_hands_over_the_tool_calls() {
    let mut session = Session::new();
    let reply = CompletionResponse {
        message: Message::assistant(vec![ContentBlock::ToolCall {
            id: "call_1".into(),
            name: "calculator".into(),
            args: obj(vec![("expression", s("1+2"))]),
        }]),
        usage: None,
    };
    match take_reply(&mut session, &JsonToolCall, &NoopTracer, 0, 1, Ok(reply)) {
        Step::Act(actions) => {
            assert_eq!(actions.len(), 1);
            assert_eq!(actions[0].id, "call_1");
            assert_eq!(actions[0].name, "calculator");
        },
        _ => panic!("expected actions"),
    }
    assert_eq!(session.history.len(), 1);
}

// ---- write_file steps ----

#[test]
fn write_steps_over_an_existing_parent() {
    let tool = WriteFile::new(workspace());
    let args = obj(vec![("path", s("out.txt")), ("content", s("v2"))]);
    let (state, action) = tool.start_write(&args);
    assert_eq!(probe_path(&action), "/tmp/ws/out.txt");
    let (state, action) = tool.write_step(state, FsEvent::Probed(Probe::Missing));
    assert_eq!(probe_path(&action), "/tmp/ws");
    let (state, action) = tool.write_step(state, found("/tmp/ws", EntryKind::Dir));
    match &action {
        FsAction::Write(p, c) => {
            assert_eq!(p, "/tmp/ws/out.txt");
            assert_eq!(c, "v2");
        },
        other => panic!("expected a write, got {other:?}"),
    }
    let (state, action) = tool.write_step(state, FsEvent::Done);
    assert!(matches!(state, WriteState::Over));
    assert_eq!(finish(action).unwrap(), "written 2 bytes to out.txt");
}

#[test]
fn write_steps_refuse_a_parent_that_leads_out_before_anything_is_created() {
    let tool = WriteFile::new(workspace());
    let args = obj(vec![("path", s("link/x.txt")), ("content", s("x")), ("create_dirs", JsonValue::Bool(true))]);
    let (state, action) = tool.start_write(&args);
    assert_eq!(probe_path(&action), "/tmp/ws/link/x.txt");
    let (state, action) = tool.write_step(state, FsEvent::Probed(Probe::Missing));
    assert_eq!(probe_path(&action), "/tmp/ws/link");
    let (_, action) = tool.write_step(state, found("/etc", EntryKind::Dir));
    assert_eq!(finish(action).unwrap_err(), "invalid arguments: path outside workspace");
}

#[test]
fn write_steps_create_missing_parents_under_an_ancestor_inside() {
    let tool = WriteFile::new(workspace());
    let args = obj(vec![("path", s("a/b/c.txt")), ("content", s("hi")), ("create_dirs", JsonValue::Bool(true))]);
    let (state, _) = tool.start_write(&args);
    let (state, action) = tool.write_step(state, FsEvent::Probed(Probe::Missing));
    assert_eq!(probe_path(&action), "/tmp/ws/a/b");
    let (state, action) = tool.write_step(state, FsEvent::Probed(Probe::Missing));
    assert_eq!(probe_path(&action), "/tmp/ws/a");
    let (state, action) = tool.write_step(state, FsEvent::Probed(Probe::Missing));
    assert_eq!(probe_path(&action), "/tmp/ws");
    let (state, action) = tool.write_step(state, found("/tmp/ws", EntryKind::Dir));
    match &action {
        FsAction::CreateDirs(p) => assert_eq!(p, "/tmp/ws/a/b"),
        other => panic!("expected a creation, got {other:?}"),
    }
    let (state, action) = tool.write_step(state, FsEvent::Done);
    assert_eq!(probe_path(&action), "/tmp/ws/a/b");
    let (state, action) = tool.write_step(state, found("/tmp/ws/a/b", EntryKind::Dir));
    assert!(matches!(action, FsAction::Write(..)));
    let (_, action) = tool.write_step(state, FsEvent::Done);
    assert_eq!(finish(action).unwrap(), "written 2 bytes to a/b/c.txt");
}

#[test]
fn write_steps_refuse_an_ancestor_that_leads_out() {
    let tool = WriteFile::new(workspace());
    let args = obj(vec![("path", s("link/new/x.txt")), ("content", s("x")), ("create_dirs", JsonValue::Bool(true))]);
    let (state, _) = tool.start_write(&args);
    let (state, _) = tool.write_step(state, FsEvent::Probed(Probe::Missing));
    let (state, action) = tool.write_step(state, FsEvent::Probed(Probe::Missing));
    assert_eq!(probe_path(&action), "/tmp/ws/link");
    let (_, action) = tool.write_step(state, found("/outside", EntryKind::Dir));
    assert_eq!(finish(action).unwrap_err(), "invalid arguments: path outside workspace");
}

#[test]
fn write_steps_without_create_dirs_need_the_parent() {
    let tool = WriteFile::new(workspace());
    let args = obj(vec![("path", s("a/b/c.txt")), ("content", s("hi"))]);
    let (state, _) = tool.start_write(&args);
    let (state, _) = tool.write_step(state, FsEvent::Probed(Probe::Missing));
    let (_, action) = tool.write_step(state, FsEvent::Probed(Probe::Missing));
    assert_eq!(
        finish(action).unwrap_err(),
        "tool execution failed: parent directory does not exist: /tmp/ws/a/b"
    );
}

#[test]
fn write_steps_refuse_bad_arguments_and_directories() {
    let tool = WriteFile::new(workspace());
    let (state, action) = tool.start_write(&obj(vec![("path", s("a"))]));
    assert!(matches!(state, WriteState::Over));
    assert_eq!(finish(action).unwrap_err(), "invalid arguments: missing required field: content");
    let (_, action) = tool.start_write(&obj(vec![("path", s("../x")), ("content", s("x"))]));
    assert_eq!(finish(action).unwrap_err(), "invalid arguments: path outside workspace");
    let (state, _) = tool.start_write(&obj(vec![("path", s("d")), ("content", s("x"))]));
    let (_, action) = tool.write_step(state, found("/tmp/ws/d", EntryKind::Dir));
    assert_eq!(finish(action).unwrap_err(), "tool execution failed: is a directory: d");
}

#[test]
fn write_steps_report_a_failed_write() {
    let tool = WriteFile::new(workspace());
    let (state, _) = tool.start_write(&obj(vec![("path", s("f.txt")), ("content", s("x"))]));
    let (state, _) = tool.write_step(state, FsEvent::Probed(Probe::Missing));
    let (state, _) = tool.write_step(state, found("/tmp/ws", EntryKind::Dir));
    let (_, action) = tool.write_step(state, FsEvent::Failed("disk full".into()));
    assert_eq!(finish(action).unwrap_err(), "tool execution failed: disk full");
}

// ---- read_file and list_dir steps ----

fn path_finish(action: PathAction) -> Result<String, String> {
    match action {
        PathAction::Finish(r) => r.map_err(|e| e.to_string()),
        other => panic!("expected the end, got {other:?}"),
    }
}

#[test]
fn read_steps_read_a_file_inside() {
    let tool = ReadFile::new(workspace());
    let (state, action) = tool.start_read(&obj(vec![("path", s("hello.txt"))]));
    assert!(matches!(&action, PathAction::Probe(p) if p == "/tmp/ws/hello.txt"));
    let (state, action) = tool.read_step(
        state,
        PathEvent::Probed(Probe::Found { canonical: "/tmp/ws/hello.txt".into(), kind: EntryKind::File }),
    );
    assert!(matches!(&action, PathAction::Read(p) if p == "/tmp/ws/hello.txt"));
    let (state, action) = tool.read_step(state, PathEvent::Bytes(b"world".to_vec()));
    assert!(matches!(state, PathState::Over));
    assert_eq!(path_finish(action).unwrap(), "world");
}

#[test]
fn read_steps_refuse_missing_files_and_links_out() {
    let tool = ReadFile::new(workspace());
    let (state, _) = tool.start_read(&obj(vec![("path", s("missing.txt"))]));
    let (_, action) = tool.read_step(state, PathEvent::Probed(Probe::Missing));
    assert_eq!(path_finish(action).unwrap_err(), "tool execution failed: file not found: missing.txt");
    let (state, _) = tool.start_read(&obj(vec![("path", s("link"))]));
    let (_, action) = tool.read_step(
        state,
        PathEvent::Probed(Probe::Found { canonical: "/etc/passwd".into(), kind: EntryKind::File }),
    );
    assert_eq!(path_finish(action).unwrap_err(), "invalid arguments: path outside workspace");
    let (_, action) = tool.start_read(&obj(vec![]));
    assert_eq!(path_finish(action).unwrap_err(), "invalid arguments: missing required field: path");
}

#[test]
fn list_steps_list_a_directory_inside() {
    let tool = ListDir::new(workspace());
    let (state, _) = tool.start_list(&obj(vec![("path", s("."))]));
    let (state, action) = tool.list_step(
        state,
        PathEvent::Probed(Probe::Found { canonical: "/tmp/ws".into(), kind: EntryKind::Dir }),
    );
    assert!(matches!(&action, PathAction::List(p) if p == "/tmp/ws"));
    let (_, action) = tool.list_step(
        state,
        PathEvent::Listing(vec![("b.txt".into(), false), ("a".into(), true)]),
    );
    assert_eq!(path_finish(action).unwrap(), "a/\nb.txt");
}

#[test]
fn list_steps_refuse_a_file() {
    let tool = ListDir::new(workspace());
    let (state, _) = tool.start_list(&obj(vec![("path", s("f.txt"))]));
    let (_, action) = tool.list_step(
        state,
        PathEvent::Probed(Probe::Found { canonical: "/tmp/ws/f.txt".into(), kind: EntryKind::File }),
    );
    assert_eq!(path_finish(action).unwrap_err(), "tool execution failed: not a directory: f.txt");
}

// ---- run_command's working directory ----

#[test]
fn run_steps_settle_the_working_directory() {
    let tool = RunCommand::new(workspace());
    let (call, candidate) = tool.start_run(&obj(vec![("command", s("ls")), ("cwd", s("sub"))])).unwrap();
    assert_eq!(candidate, "/tmp/ws/sub");
    let cwd = tool
        .settle_cwd(&call, candidate, Probe::Found { canonical: "/tmp/ws/sub".into(), kind: EntryKind::Dir })
        .unwrap();
    assert_eq!(cwd, "/tmp/ws/sub");
    let (call, candidate) = tool.start_run(&obj(vec![("command", s("ls")), ("cwd", s("f"))])).unwrap();
    let err = tool.settle_cwd(&call, candidate, Probe::Missing).unwrap_err();
    assert_eq!(err.to_string(), "tool execution failed: not a directory: f");
    let err = tool.start_run(&obj(vec![("command", s("ls")), ("cwd", s("../outside"))])).unwrap_err();
    assert_eq!(err.to_string(), "invalid arguments: path outside workspace");
}

#[test]
fn workspace_root_must_be_absolute() {
    let err = FsConfig::new("ws", Probe::Found { canonical: "ws".into(), kind: EntryKind::Dir }).unwrap_err();
    assert_eq!(err.to_string(), "tool execution failed: workspace root is not an absolute path: ws");
    assert_eq!(workspace().root(), "/tmp/ws");
}
