use std::cell::RefCell;

use strata::run::{build_request, DEFAULT_MAX_TOKENS};
use strata::tools::calculator::{compile, Op, Program};
use strata::{
    run, Calculator, CompletionRequest, CompletionResponse, ContentBlock, JsonToolCall, JsonValue,
    LoopError, Message, Provider, ProviderError, Role, Session, StrataError, TokenUsage, Tool,
    ToolError, ToolRegistry, ToolSchema, TraceEvent, Tracer,
};

// ---- fixtures ----

fn obj(pairs: Vec<(&str, JsonValue)>) -> JsonValue {
    JsonValue::object(pairs.into_iter().map(|(k, v)| JsonValue::entry(k, v)).collect())
}

fn expr(e: &str) -> JsonValue {
    obj(vec![("expression", JsonValue::string(e))])
}

/// Runs a compiled program in `f64` arithmetic, as the calculator tool does.
fn evaluate(program: Program) -> Result<String, ToolError> {
    let mut stack: Vec<f64> = Vec::new();
    for op in program.ops {
        match op {
            Op::Number(text) => match text.parse::<f64>() {
                Ok(v) => stack.push(v),
                Err(_) => return Err(ToolError::InvalidArgs(format!("invalid number: {text}"))),
            },
            Op::Neg => {
                let v = stack.pop().unwrap();
                stack.push(-v);
            }
            Op::Add | Op::Sub | Op::Mul | Op::Div => {
                let b = stack.pop().unwrap();
                let a = stack.pop().unwrap();
                let v = match op {
                    Op::Add => a + b,
                    Op::Sub => a - b,
                    Op::Mul => a * b,
                    _ => {
                        if b == 0.0 {
                            return Err(ToolError::ExecutionFailed("division by zero".into()));
                        }
                        a / b
                    }
                };
                stack.push(v);
            }
        }
    }
    if let Some(e) = program.error {
        return Err(e);
    }
    let value = stack.pop().unwrap();
    if !value.is_finite() {
        return Err(ToolError::ExecutionFailed(
            "result is not a finite number (overflow?)".into(),
        ));
    }
    if value.fract() == 0.0 && value.abs() <= 9_007_199_254_740_992.0 {
        return Ok(format!("{}", value.trunc() as i64));
    }
    Ok(format!("{value}"))
}

struct CalcTool;

impl Tool for CalcTool {
    fn schema(&self) -> ToolSchema {
        Calculator.schema()
    }

    fn execute(&self, args: JsonValue) -> Result<String, ToolError> {
        evaluate(Calculator.compile(&args)?)
    }
}

fn calculator_registry() -> ToolRegistry<Box<dyn Tool>> {
    let mut tools: ToolRegistry<Box<dyn Tool>> = ToolRegistry::new();
    tools.register(Box::new(CalcTool));
    tools
}

fn no_tools() -> ToolRegistry<Box<dyn Tool>> {
    ToolRegistry::new()
}

enum MockStep {
    Reply(CompletionResponse),
    Fail(ProviderError),
}

impl MockStep {
    fn clone_step(&self) -> MockStep {
        match self {
            MockStep::Reply(resp) => MockStep::Reply(resp.clone()),
            MockStep::Fail(e) => MockStep::Fail(e.clone()),
        }
    }
}

struct MockProvider {
    script: RefCell<Vec<MockStep>>,
    repeat: bool,
    call_count: RefCell<u32>,
    recorded_requests: RefCell<Vec<CompletionRequest>>,
}

impl MockProvider {
    fn new(steps: Vec<MockStep>) -> Self {
        Self {
            script: RefCell::new(steps),
            repeat: false,
            call_count: RefCell::new(0),
            recorded_requests: RefCell::new(Vec::new()),
        }
    }

    fn repeating(step: MockStep) -> Self {
        Self {
            script: RefCell::new(vec![step]),
            repeat: true,
            call_count: RefCell::new(0),
            recorded_requests: RefCell::new(Vec::new()),
        }
    }

    fn calls(&self) -> u32 {
        *self.call_count.borrow()
    }
}

impl Provider for MockProvider {
    fn complete(&self, req: CompletionRequest) -> Result<CompletionResponse, ProviderError> {
        *self.call_count.borrow_mut() += 1;
        self.recorded_requests.borrow_mut().push(req);
        let step = if self.repeat {
            match self.script.borrow().last() {
                Some(s) => s.clone_step(),
                None => return Err(ProviderError::InvalidResponse("mock script empty".into())),
            }
        } else {
            let mut script = self.script.borrow_mut();
            if script.is_empty() {
                return Err(ProviderError::InvalidResponse("mock script exhausted".into()));
            }
            script.remove(0)
        };
        match step {
            MockStep::Reply(resp) => Ok(resp),
            MockStep::Fail(err) => Err(err),
        }
    }
}

struct RecordingTracer(RefCell<Vec<TraceEvent>>);

impl Tracer for RecordingTracer {
    fn on_event(&self, event: TraceEvent) {
        self.0.borrow_mut().push(event);
    }
}

fn tracer() -> RecordingTracer {
    RecordingTracer(RefCell::new(Vec::new()))
}

fn ok_text(text: &str) -> MockStep {
    MockStep::Reply(CompletionResponse {
        message: Message::assistant(vec![ContentBlock::Text(text.into())]),
        usage: None,
    })
}

fn ok_message(message: Message) -> MockStep {
    MockStep::Reply(CompletionResponse { message, usage: None })
}

fn ok_tool(name: &str, id: &str, args: JsonValue) -> MockStep {
    ok_message(Message::assistant(vec![ContentBlock::ToolCall {
        id: id.into(),
        name: name.into(),
        args,
    }]))
}

fn repeating_calculator_add_one() -> MockProvider {
    MockProvider::repeating(ok_tool("calculator", "call_repeat", expr("1+1")))
}

fn error_tool_results(session: &Session) -> Vec<&ContentBlock> {
    session
        .history
        .iter()
        .flat_map(|m| m.content.iter())
        .filter(|b| matches!(b, ContentBlock::ToolResult { is_error: true, .. }))
        .collect()
}

fn ok_tool_results(session: &Session) -> Vec<&str> {
    session
        .history
        .iter()
        .flat_map(|m| m.content.iter())
        .filter_map(|b| match b {
            ContentBlock::ToolResult { content, is_error, .. } if !is_error => Some(content.as_str()),
            _ => None,
        })
        .collect()
}

fn turn_end_count(events: &[TraceEvent]) -> usize {
    events.iter().filter(|e| matches!(e, TraceEvent::TurnEnd { .. })).count()
}

fn calc(e: &str) -> Result<String, ToolError> {
    CalcTool.execute(expr(e))
}

// ---- the request of a turn ----

#[test]
fn build_request_assembles_session_and_tools() {
    let session = Session::with_history(vec![Message::user("hi")]);
    let tools = no_tools();
    let req = build_request(&session, &tools);

    assert_eq!(req.messages.len(), 1);
    assert!(req.tools.is_empty());
    assert_eq!(req.max_tokens, DEFAULT_MAX_TOKENS);
    assert_eq!(req.temperature, None);
}

// ---- the loop ----

#[test]
fn plain_text_termination_emits_trace_and_returns_answer() {
    let mut session = Session::with_history(vec![Message::user("ping")]);
    let provider = MockProvider::new(vec![ok_text("hello")]);
    let t = tracer();
    let answer = run(&mut session, &provider, &no_tools(), &JsonToolCall, &t, 4).expect("run");
    assert_eq!(answer, "hello");
    assert_eq!(session.history.len(), 2);
    let events = t.0.borrow();
    assert_eq!(events.len(), 3);
    assert!(matches!(events[0], TraceEvent::TurnStart { turn: 0 }));
    assert!(matches!(events[1], TraceEvent::ProviderCall { turn: 0, .. }));
    assert!(matches!(events[2], TraceEvent::TurnEnd { turn: 0 }));
}

#[test]
fn plain_text_terminates_with_answer_and_trace() {
    let mut session = Session::with_history(vec![Message::user("ping")]);
    let provider = MockProvider::new(vec![ok_text("hello")]);
    let t = tracer();
    let answer = run(&mut session, &provider, &no_tools(), &JsonToolCall, &t, 4).expect("run");
    assert_eq!(answer, "hello");
    assert_eq!(session.history.len(), 2);
    let events = t.0.borrow();
    assert_eq!(events.len(), 3);
    assert!(matches!(events[0], TraceEvent::TurnStart { turn: 0 }));
    assert!(matches!(
        events[1],
        TraceEvent::ProviderCall {
            turn: 0,
            duration_ms: _,
            usage: None,
        }
    ));
    assert!(matches!(events[2], TraceEvent::TurnEnd { turn: 0 }));
}

#[test]
fn tool_loop_success_two_turns() {
    let mut session = Session::with_history(vec![Message::user("算 1+2")]);
    let provider = MockProvider::new(vec![
        ok_tool("calculator", "call_1", expr("1+2")),
        ok_text("答案是 3"),
    ]);
    let answer =
        run(&mut session, &provider, &calculator_registry(), &JsonToolCall, &tracer(), 4).expect("run");
    assert_eq!(answer, "答案是 3");
    assert_eq!(session.history.len(), 4);
    assert_eq!(session.turn, 1);
}

#[test]
fn tool_loop_two_turns_full_cycle() {
    let mut session = Session::with_history(vec![Message::user("算 1+2")]);
    let provider = MockProvider::new(vec![
        ok_tool("calculator", "call_1", expr("1+2")),
        ok_text("答案是 3"),
    ]);
    let t = tracer();
    let answer =
        run(&mut session, &provider, &calculator_registry(), &JsonToolCall, &t, 4).expect("run");
    assert_eq!(answer, "答案是 3");
    assert_eq!(session.history.len(), 4);
    assert_eq!(session.turn, 1);
    assert_eq!(turn_end_count(&t.0.borrow()), 2);
}

fn assert_tool_events(events: &[TraceEvent]) {
    assert!(events.iter().any(|e| matches!(
        e,
        TraceEvent::ToolCall { turn: 0, id, name } if id == "call_1" && name == "calculator"
    )));
    assert!(events.iter().any(|e| matches!(
        e,
        TraceEvent::ToolResult { turn: 0, id, name, is_error: false }
            if id == "call_1" && name == "calculator"
    )));
}

#[test]
fn tool_loop_emits_tool_trace_events() {
    let mut session = Session::with_history(vec![Message::user("算 1+2")]);
    let provider = MockProvider::new(vec![ok_tool("calculator", "call_1", expr("1+2")), ok_text("done")]);
    let t = tracer();
    run(&mut session, &provider, &calculator_registry(), &JsonToolCall, &t, 4).expect("run");
    assert_tool_events(&t.0.borrow());
}

#[test]
fn tool_trace_events_emitted() {
    let mut session = Session::with_history(vec![Message::user("算 1+2")]);
    let provider = MockProvider::new(vec![ok_tool("calculator", "call_1", expr("1+2")), ok_text("done")]);
    let t = tracer();
    run(&mut session, &provider, &calculator_registry(), &JsonToolCall, &t, 4).expect("run");
    assert_tool_events(&t.0.borrow());
}

#[test]
fn second_provider_request_includes_tool_result() {
    let mut session = Session::with_history(vec![Message::user("算 1+2")]);
    let provider = MockProvider::new(vec![
        ok_tool("calculator", "call_1", expr("1+2")),
        ok_text("答案是 3"),
    ]);
    run(&mut session, &provider, &calculator_registry(), &JsonToolCall, &tracer(), 4).expect("run");
    assert_eq!(provider.calls(), 2);
    let requests = provider.recorded_requests.borrow();
    assert_eq!(requests.len(), 2);
    let second = &requests[1];
    assert!(second.messages.iter().any(|m| {
        m.role == Role::Tool
            && m.content.iter().any(|b| matches!(
                b,
                ContentBlock::ToolResult { content, is_error: false, .. } if content == "3"
            ))
    }));
    assert_eq!(second.tools.len(), 1);
    assert_eq!(second.tools[0].name, "calculator");
}

fn two_calcs() -> MockProvider {
    MockProvider::new(vec![
        ok_message(Message::assistant(vec![
            ContentBlock::ToolCall {
                id: "call_1".into(),
                name: "calculator".into(),
                args: expr("1+1"),
            },
            ContentBlock::ToolCall {
                id: "call_2".into(),
                name: "calculator".into(),
                args: expr("2*3"),
            },
        ])),
        ok_text("done"),
    ])
}

#[test]
fn multiple_tool_calls_in_one_turn() {
    let mut session = Session::with_history(vec![Message::user("two calcs")]);
    run(&mut session, &two_calcs(), &calculator_registry(), &JsonToolCall, &tracer(), 4).expect("run");
    assert_eq!(session.turn, 1);
    assert_eq!(ok_tool_results(&session), vec!["2", "6"]);
}

#[test]
fn multiple_tool_calls_one_round() {
    let mut session = Session::with_history(vec![Message::user("two calcs")]);
    run(&mut session, &two_calcs(), &calculator_registry(), &JsonToolCall, &tracer(), 4).expect("run");
    assert_eq!(session.turn, 1);
    assert_eq!(ok_tool_results(&session), vec!["2", "6"]);
}

#[test]
fn unknown_tool_backfills_error_and_continues() {
    let mut session = Session::with_history(vec![Message::user("call missing")]);
    let provider = MockProvider::new(vec![ok_tool("missing_tool", "call_1", obj(vec![])), ok_text("ok")]);
    let answer = run(&mut session, &provider, &no_tools(), &JsonToolCall, &tracer(), 4).expect("run");
    assert_eq!(answer, "ok");
    let tool_msg = session.history.iter().find(|m| {
        m.content.iter().any(|b| matches!(b, ContentBlock::ToolResult { is_error: true, .. }))
    });
    assert!(tool_msg.is_some());
}

#[test]
fn unknown_tool_backfills_and_recovers() {
    let mut session = Session::with_history(vec![Message::user("call missing")]);
    let provider = MockProvider::new(vec![ok_tool("missing_tool", "call_1", obj(vec![])), ok_text("ok")]);
    let answer = run(&mut session, &provider, &no_tools(), &JsonToolCall, &tracer(), 4).expect("run");
    assert_eq!(answer, "ok");
    assert!(!error_tool_results(&session).is_empty());
    assert!(matches!(
        error_tool_results(&session)[0],
        ContentBlock::ToolResult { content, .. } if content == "unknown tool: missing_tool"
    ));
}

#[test]
fn tool_invalid_args_backfills_error() {
    let mut session = Session::with_history(vec![Message::user("bad args")]);
    let provider = MockProvider::new(vec![ok_tool("calculator", "call_1", obj(vec![])), ok_text("recovered")]);
    let answer =
        run(&mut session, &provider, &calculator_registry(), &JsonToolCall, &tracer(), 4).expect("run");
    assert_eq!(answer, "recovered");
    let has_error_result = session.history.iter().any(|m| {
        m.content.iter().any(|b| matches!(b, ContentBlock::ToolResult { is_error: true, .. }))
    });
    assert!(has_error_result);
}

#[test]
fn invalid_tool_args_backfill() {
    let mut session = Session::with_history(vec![Message::user("bad args")]);
    let provider = MockProvider::new(vec![ok_tool("calculator", "call_1", obj(vec![])), ok_text("recovered")]);
    let answer =
        run(&mut session, &provider, &calculator_registry(), &JsonToolCall, &tracer(), 4).expect("run");
    assert_eq!(answer, "recovered");
    assert_eq!(error_tool_results(&session).len(), 1);
}

fn division_by_zero_run() -> (String, Session) {
    let mut session = Session::with_history(vec![Message::user("divide")]);
    let provider = MockProvider::new(vec![ok_tool("calculator", "call_1", expr("1/0")), ok_text("recovered")]);
    let answer =
        run(&mut session, &provider, &calculator_registry(), &JsonToolCall, &tracer(), 4).expect("run");
    (answer, session)
}

#[test]
fn tool_execution_failed_backfills_and_continues() {
    let (answer, session) = division_by_zero_run();
    assert_eq!(answer, "recovered");
    assert!(error_tool_results(&session).iter().any(|b| matches!(
        b,
        ContentBlock::ToolResult { content, .. } if content.contains("division by zero")
    )));
}

#[test]
fn tool_execution_error_backfill() {
    let (answer, session) = division_by_zero_run();
    assert_eq!(answer, "recovered");
    assert!(error_tool_results(&session).iter().any(|b| matches!(
        b,
        ContentBlock::ToolResult { content, .. } if content.contains("division by zero")
    )));
}

fn non_object_run(args: JsonValue) -> (String, Session) {
    let mut session = Session::with_history(vec![Message::user("bad args")]);
    let provider = MockProvider::new(vec![ok_tool("calculator", "call_1", args), ok_text("recovered")]);
    let answer =
        run(&mut session, &provider, &calculator_registry(), &JsonToolCall, &tracer(), 4).expect("run");
    (answer, session)
}

#[test]
fn non_object_string_args_backfills_parse_error() {
    let (answer, session) = non_object_run(JsonValue::String("{bad".into()));
    assert_eq!(answer, "recovered");
    let errors = error_tool_results(&session);
    assert_eq!(errors.len(), 1);
    assert!(matches!(
        errors[0],
        ContentBlock::ToolResult { content, .. } if content.contains("must be a JSON object")
    ));
}

#[test]
fn parse_errors_backfill_non_object_args() {
    let (answer, session) = non_object_run(JsonValue::String("{bad".into()));
    assert_eq!(answer, "recovered");
    let errors = error_tool_results(&session);
    assert_eq!(errors.len(), 1);
    assert!(matches!(
        errors[0],
        ContentBlock::ToolResult { content, .. }
            if content == "invalid tool call: tool arguments must be a JSON object, got: \"{bad\""
    ));
}

#[test]
fn non_object_scalar_args_backfills_and_does_not_panic() {
    let (answer, session) = non_object_run(JsonValue::Number("42".into()));
    assert_eq!(answer, "recovered");
    assert_eq!(error_tool_results(&session).len(), 1);
}

#[test]
fn parse_errors_backfill_scalar_args() {
    let (_, session) = non_object_run(JsonValue::Number("42".into()));
    assert_eq!(error_tool_results(&session).len(), 1);
}

fn empty_id_run() -> (String, Session) {
    let mut session = Session::with_history(vec![Message::user("no id")]);
    let provider = MockProvider::new(vec![
        ok_message(Message::assistant(vec![ContentBlock::ToolCall {
            id: String::new(),
            name: "calculator".into(),
            args: expr("1+1"),
        }])),
        ok_text("ok"),
    ]);
    let answer =
        run(&mut session, &provider, &calculator_registry(), &JsonToolCall, &tracer(), 4).expect("run");
    (answer, session)
}

#[test]
fn run_empty_tool_call_id_backfills_and_continues() {
    let (answer, session) = empty_id_run();
    assert_eq!(answer, "ok");
    let errors = error_tool_results(&session);
    assert_eq!(errors.len(), 1);
    assert!(matches!(errors[0], ContentBlock::ToolResult { id, .. } if id == "parse_error_0_0"));
}

#[test]
fn loop_semantics_empty_tool_call_id_backfills_and_continues() {
    let (answer, session) = empty_id_run();
    assert_eq!(answer, "ok");
    assert!(matches!(
        error_tool_results(&session)[0],
        ContentBlock::ToolResult { id, .. } if id == "parse_error_0_0"
    ));
}

fn empty_name_run() -> (String, Session) {
    let mut session = Session::with_history(vec![Message::user("no name")]);
    let provider = MockProvider::new(vec![
        ok_message(Message::assistant(vec![ContentBlock::ToolCall {
            id: "call_1".into(),
            name: String::new(),
            args: obj(vec![]),
        }])),
        ok_text("ok"),
    ]);
    let answer = run(&mut session, &provider, &no_tools(), &JsonToolCall, &tracer(), 4).expect("run");
    (answer, session)
}

#[test]
fn run_empty_tool_name_backfills_and_continues() {
    let (answer, session) = empty_name_run();
    assert_eq!(answer, "ok");
    assert!(error_tool_results(&session).iter().any(|b| matches!(
        b,
        ContentBlock::ToolResult { content, .. } if content.contains("missing tool name")
    )));
}

#[test]
fn loop_semantics_empty_tool_name_backfills_and_continues() {
    let (answer, session) = empty_name_run();
    assert_eq!(answer, "ok");
    assert!(error_tool_results(&session).iter().any(|b| matches!(
        b,
        ContentBlock::ToolResult { content, .. } if content.contains("missing tool name")
    )));
}

fn mixed_run() -> Session {
    let mut session = Session::with_history(vec![Message::user("mixed")]);
    let provider = MockProvider::new(vec![
        ok_message(Message::assistant(vec![
            ContentBlock::ToolCall {
                id: "call_bad".into(),
                name: "calculator".into(),
                args: JsonValue::String("not json".into()),
            },
            ContentBlock::ToolCall {
                id: "call_ok".into(),
                name: "calculator".into(),
                args: expr("1+1"),
            },
        ])),
        ok_text("done"),
    ]);
    run(&mut session, &provider, &calculator_registry(), &JsonToolCall, &tracer(), 4).expect("run");
    session
}

#[test]
fn run_parse_and_tool_errors_same_turn() {
    let session = mixed_run();
    assert_eq!(ok_tool_results(&session), vec!["2"]);
    assert_eq!(error_tool_results(&session).len(), 1);
}

#[test]
fn loop_semantics_parse_and_tool_errors_same_turn() {
    let session = mixed_run();
    assert_eq!(ok_tool_results(&session), vec!["2"]);
    assert_eq!(error_tool_results(&session).len(), 1);
}

#[test]
fn max_turns_zero_fails_immediately() {
    let mut session = Session::with_history(vec![Message::user("go")]);
    let provider = MockProvider::new(vec![ok_text("never")]);
    let err = run(&mut session, &provider, &no_tools(), &JsonToolCall, &tracer(), 0).expect_err("run");
    assert!(matches!(
        err,
        StrataError::Loop(LoopError::MaxTurns { max_turns: 0, partial: None })
    ));
    assert_eq!(provider.calls(), 0);
    assert_eq!(session.history.len(), 1);
}

#[test]
fn max_turns_zero_no_provider_call() {
    let mut session = Session::with_history(vec![Message::user("go")]);
    let provider = MockProvider::new(vec![ok_text("never")]);
    let err = run(&mut session, &provider, &no_tools(), &JsonToolCall, &tracer(), 0).expect_err("run");
    assert!(matches!(
        err,
        StrataError::Loop(LoopError::MaxTurns { max_turns: 0, partial: None })
    ));
    assert_eq!(provider.calls(), 0);
}

#[test]
fn run_max_turns_stops_infinite_tool_loop() {
    let mut session = Session::with_history(vec![Message::user("loop")]);
    let err = run(
        &mut session,
        &repeating_calculator_add_one(),
        &calculator_registry(),
        &JsonToolCall,
        &tracer(),
        2,
    )
    .expect_err("run");
    assert!(matches!(
        err,
        StrataError::Loop(LoopError::MaxTurns { max_turns: 2, partial: None })
    ));
    assert_eq!(session.turn, 2);
    assert!(session.history.len() > 1);
}

#[test]
fn loop_semantics_max_turns_stops_infinite_tool_loop() {
    let mut session = Session::with_history(vec![Message::user("loop")]);
    let err = run(
        &mut session,
        &repeating_calculator_add_one(),
        &calculator_registry(),
        &JsonToolCall,
        &tracer(),
        2,
    )
    .expect_err("run");
    assert!(matches!(
        err,
        StrataError::Loop(LoopError::MaxTurns { max_turns: 2, partial: None })
    ));
    assert_eq!(session.turn, 2);
}

fn partial_run() -> (StrataError, u32, u32) {
    let mut session = Session::with_history(vec![Message::user("calc")]);
    let provider = MockProvider::new(vec![ok_message(Message::assistant(vec![
        ContentBlock::Text("step1".into()),
        ContentBlock::ToolCall {
            id: "call_1".into(),
            name: "calculator".into(),
            args: expr("1+1"),
        },
    ]))]);
    let err = run(&mut session, &provider, &calculator_registry(), &JsonToolCall, &tracer(), 1)
        .expect_err("run");
    (err, provider.calls(), session.turn)
}

#[test]
fn run_max_turns_partial_from_last_assistant_text() {
    let (err, calls, turn) = partial_run();
    assert!(matches!(
        err,
        StrataError::Loop(LoopError::MaxTurns { max_turns: 1, partial: Some(ref text) }) if text == "step1"
    ));
    assert_eq!(calls, 1);
    assert_eq!(turn, 1);
}

#[test]
fn loop_semantics_max_turns_partial_from_last_assistant_text() {
    let (err, calls, _) = partial_run();
    assert!(matches!(
        err,
        StrataError::Loop(LoopError::MaxTurns { max_turns: 1, partial: Some(ref text) }) if text == "step1"
    ));
    assert_eq!(calls, 1);
}

fn max_turns_trace() -> Vec<TraceEvent> {
    let t = tracer();
    let _ = run(
        &mut Session::with_history(vec![Message::user("go")]),
        &repeating_calculator_add_one(),
        &no_tools(),
        &JsonToolCall,
        &t,
        0,
    );
    let events = t.0.borrow().clone();
    events
}

#[test]
fn run_max_turns_emits_error_trace() {
    let events = max_turns_trace();
    assert!(events.iter().any(|e| matches!(
        e,
        TraceEvent::Error { turn: Some(0), message, .. } if message == "max turns exceeded (0)"
    )));
}

#[test]
fn loop_semantics_max_turns_emits_error_trace() {
    let events = max_turns_trace();
    assert!(events.iter().any(|e| matches!(
        e,
        TraceEvent::Error { turn: Some(0), message, duration_ms: None } if message == "max turns exceeded (0)"
    )));
}

#[test]
fn provider_failure_traced_with_duration() {
    let t = tracer();
    let err = run(
        &mut Session::with_history(vec![Message::user("ping")]),
        &MockProvider::new(vec![MockStep::Fail(ProviderError::Network("connection reset".into()))]),
        &no_tools(),
        &JsonToolCall,
        &t,
        4,
    )
    .expect_err("run");
    assert!(matches!(err, StrataError::Provider(_)));
    assert!(t.0.borrow().iter().any(|e| matches!(
        e,
        TraceEvent::Error { turn: Some(0), message, duration_ms: Some(_) } if message.contains("connection reset")
    )));
    assert!(!t.0.borrow().iter().any(|e| matches!(e, TraceEvent::ProviderCall { .. })));
}

#[test]
fn provider_usage_in_trace() {
    let t = tracer();
    run(
        &mut Session::with_history(vec![Message::user("ping")]),
        &MockProvider::new(vec![MockStep::Reply(CompletionResponse {
            message: Message::assistant(vec![ContentBlock::Text("ok".into())]),
            usage: Some(TokenUsage {
                prompt_tokens: 10,
                completion_tokens: 5,
                total_tokens: 15,
            }),
        })]),
        &no_tools(),
        &JsonToolCall,
        &t,
        4,
    )
    .expect("run");
    assert!(t.0.borrow().iter().any(|e| matches!(
        e,
        TraceEvent::ProviderCall {
            turn: 0,
            duration_ms: _,
            usage: Some(TokenUsage { prompt_tokens: 10, completion_tokens: 5, total_tokens: 15 }),
        }
    )));
}

#[test]
fn mock_script_exhausted_returns_provider_error() {
    let provider = MockProvider::new(vec![ok_text("once")]);
    run(
        &mut Session::with_history(vec![Message::user("q")]),
        &provider,
        &no_tools(),
        &JsonToolCall,
        &tracer(),
        4,
    )
    .expect("first run");
    let err = run(
        &mut Session::with_history(vec![Message::user("q2")]),
        &provider,
        &no_tools(),
        &JsonToolCall,
        &tracer(),
        4,
    )
    .expect_err("second run");
    assert!(matches!(err, StrataError::Provider(_)));
    assert!(err.to_string().contains("mock script exhausted"));
}

#[test]
fn history_before_the_run_is_kept() {
    let mut session = Session::with_history(vec![Message::system("sys"), Message::user("q")]);
    let before = session.clone();
    run(&mut session, &two_calcs(), &calculator_registry(), &JsonToolCall, &tracer(), 4).expect("run");
    assert_eq!(&session.history[..2], &before.history[..]);
    assert_eq!(session.history.len(), 2 + 1 + 2 + 1);
    assert_eq!(session.history.last().unwrap().text(), "done");
}

// ---- the calculator ----

#[test]
fn schema_has_calculator_name() {
    let schema = Calculator.schema();
    assert_eq!(schema.name, "calculator");
    assert_eq!(
        schema.parameters.get("required"),
        Some(&JsonValue::array(vec![JsonValue::string("expression")]))
    );
}

#[test]
fn execute_simple_addition() {
    assert_eq!(calc("1+2").expect("ok"), "3");
}

#[test]
fn execute_precedence() {
    assert_eq!(calc("1+2*3").expect("ok"), "7");
}

#[test]
fn execute_parentheses() {
    assert_eq!(calc("(1+2)*3").expect("ok"), "9");
}

#[test]
fn execute_float() {
    assert_eq!(calc("10/4").expect("ok"), "2.5");
}

#[test]
fn execute_unary_minus() {
    assert_eq!(calc("-3+5").expect("ok"), "2");
}

#[test]
fn missing_expression() {
    let err = CalcTool.execute(obj(vec![])).unwrap_err();
    assert!(matches!(err, ToolError::InvalidArgs(_)));
}

#[test]
fn invalid_characters() {
    let err = calc("1;drop").unwrap_err();
    assert!(matches!(err, ToolError::InvalidArgs(_)));
    assert_eq!(err.to_string(), "invalid arguments: invalid character in expression: ';'");
}

#[test]
fn divide_by_zero() {
    let err = calc("1/0").unwrap_err();
    assert!(matches!(err, ToolError::ExecutionFailed(_)));
}

#[test]
fn divide_by_tiny_but_nonzero() {
    assert_eq!(calc("1/0.0000000000000001").expect("ok"), "10000000000000000");
}

#[test]
fn large_result_uses_float_formatting() {
    assert_eq!(calc("99999999999999999999+1").expect("ok"), "100000000000000000000");
}

#[test]
fn overflow_is_execution_error() {
    let huge = "9".repeat(309);
    let err = calc(&huge).unwrap_err();
    assert!(matches!(err, ToolError::ExecutionFailed(_)));
}

#[test]
fn calculator_register_in_registry() {
    let registry = calculator_registry();
    assert!(registry.get("calculator").is_some());
    let out = registry.get("calculator").unwrap().execute(expr("2*3")).expect("execute");
    assert_eq!(out, "6");
}

#[test]
fn compile_emits_postfix_ops() {
    let p = compile("1 + 2*3");
    assert!(p.error.is_none());
    let ops: Vec<String> = p.ops.iter().map(|o| format!("{:?}", o)).collect();
    assert_eq!(
        ops,
        vec!["Number(\"1\")", "Number(\"2\")", "Number(\"3\")", "Mul", "Add"]
    );
    let p = compile("-(4)");
    let ops: Vec<String> = p.ops.iter().map(|o| format!("{:?}", o)).collect();
    assert_eq!(ops, vec!["Number(\"4\")", "Neg"]);
}

#[test]
fn syntax_errors_come_after_the_ops_before_them() {
    assert_eq!(calc("1/0+)").unwrap_err().to_string(), "tool execution failed: division by zero");
    assert_eq!(calc("1+)").unwrap_err().to_string(), "invalid arguments: expected number or '('");
    assert_eq!(calc("(1+2").unwrap_err().to_string(), "invalid arguments: missing closing parenthesis");
    assert_eq!(calc("1 2").unwrap_err().to_string(), "invalid arguments: unexpected trailing characters");
    assert_eq!(calc(".").unwrap_err().to_string(), "invalid arguments: invalid number");
    assert_eq!(calc("   ").unwrap_err().to_string(), "invalid arguments: empty expression");
    assert_eq!(calc("1..2").unwrap_err().to_string(), "invalid arguments: unexpected trailing characters");
    assert_eq!(calc(" +.5 * -2 ").unwrap(), "-1");
}

#[test]
fn fully_parenthesised_expression_compiles_to_its_postfix_ops() {
    let p = compile("(1+(2*-3))");
    assert!(p.error.is_none());
    let ops: Vec<String> = p.ops.iter().map(|o| format!("{:?}", o)).collect();
    assert_eq!(
        ops,
        vec!["Number(\"1\")", "Number(\"2\")", "Number(\"3\")", "Neg", "Mul", "Add"]
    );
    assert_eq!(calc("(1+(2*-3))").unwrap(), "-5");
    assert_eq!(calc("((8/2)-(1*3))").unwrap(), "1");
}

#[test]
fn each_round_adds_the_reply_then_one_report_per_action() {
    let mut session = Session::with_history(vec![Message::user("go")]);
    let provider = MockProvider::new(vec![
        ok_message(Message::assistant(vec![
            ContentBlock::ToolCall {
                id: String::new(),
                name: "calculator".into(),
                args: expr("1+1"),
            },
            ContentBlock::ToolCall {
                id: "b".into(),
                name: "nope".into(),
                args: obj(vec![]),
            },
        ])),
        ok_tool("calculator", "c", expr("2+2")),
        ok_text("fin"),
    ]);
    run(&mut session, &provider, &calculator_registry(), &JsonToolCall, &tracer(), 5).expect("run");
    assert_eq!(session.turn, 2);
    let roles: Vec<Role> = session.history.iter().map(|m| m.role).collect();
    assert_eq!(
        roles,
        vec![Role::User, Role::Assistant, Role::Tool, Role::Tool, Role::Assistant, Role::Tool, Role::Assistant]
    );
    let ids: Vec<&str> = session
        .history
        .iter()
        .flat_map(|m| m.content.iter())
        .filter_map(|b| match b {
            ContentBlock::ToolResult { id, .. } => Some(id.as_str()),
            _ => None,
        })
        .collect();
    assert_eq!(ids, vec!["parse_error_0_0", "b", "c"]);
}
