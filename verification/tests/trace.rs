use std::cell::RefCell;

use strata::{NoopTracer, TokenUsage, TraceEvent, Tracer};

struct PrintTracer;

impl Tracer for PrintTracer {
    fn on_event(&self, event: TraceEvent) {
        println!("{}", event.to_string());
    }
}

struct Collect(RefCell<Vec<String>>);

impl Tracer for Collect {
    fn on_event(&self, event: TraceEvent) {
        self.0.borrow_mut().push(event.to_string());
    }
}

#[test]
fn trace_event_display_format() {
    assert_eq!(
        TraceEvent::TurnStart { turn: 0 }.to_string(),
        "[strata] turn=0 event=turn_start"
    );
    assert_eq!(
        TraceEvent::ProviderCall {
            turn: 0,
            duration_ms: 842,
            usage: Some(TokenUsage {
                prompt_tokens: 120,
                completion_tokens: 45,
                total_tokens: 165,
            }),
        }
        .to_string(),
        "[strata] turn=0 event=provider_call duration_ms=842 prompt_tokens=120 completion_tokens=45 total_tokens=165"
    );
    assert_eq!(
        TraceEvent::ProviderCall {
            turn: 1,
            duration_ms: 12,
            usage: None,
        }
        .to_string(),
        "[strata] turn=1 event=provider_call duration_ms=12"
    );
    assert_eq!(
        TraceEvent::ToolCall {
            turn: 1,
            id: "call_1".into(),
            name: "calculator".into(),
        }
        .to_string(),
        "[strata] turn=1 event=tool_call name=calculator id=call_1"
    );
    assert_eq!(
        TraceEvent::Error {
            turn: Some(2),
            message: "network error: timeout".into(),
            duration_ms: Some(30_001),
        }
        .to_string(),
        "[strata] turn=2 event=error message=network error: timeout duration_ms=30001"
    );
    assert_eq!(
        TraceEvent::Error {
            turn: None,
            message: "max turns exceeded (10)".into(),
            duration_ms: None,
        }
        .to_string(),
        "[strata] event=error message=max turns exceeded (10)"
    );
}

#[test]
fn tracers_are_object_safe() {
    let events = [
        TraceEvent::TurnStart { turn: 0 },
        TraceEvent::ProviderCall {
            turn: 0,
            duration_ms: 1,
            usage: None,
        },
        TraceEvent::ToolCall {
            turn: 0,
            id: "c".into(),
            name: "t".into(),
        },
        TraceEvent::ToolResult {
            turn: 0,
            id: "c".into(),
            name: "t".into(),
            is_error: false,
        },
        TraceEvent::TurnEnd { turn: 0 },
        TraceEvent::Error {
            turn: Some(0),
            message: "oops".into(),
            duration_ms: None,
        },
    ];

    let console: &dyn Tracer = &PrintTracer;
    let noop: &dyn Tracer = &NoopTracer;
    for event in events {
        console.on_event(event.clone());
        noop.on_event(event);
    }
}

#[test]
fn tool_result_and_turn_end_lines() {
    let c = Collect(RefCell::new(Vec::new()));
    c.on_event(TraceEvent::ToolResult {
        turn: 3,
        id: "call_9".into(),
        name: "read_file".into(),
        is_error: true,
    });
    c.on_event(TraceEvent::TurnEnd { turn: 3 });
    let lines = c.0.borrow();
    assert_eq!(
        lines[0],
        "[strata] turn=3 event=tool_result name=read_file id=call_9 is_error=true"
    );
    assert_eq!(lines[1], "[strata] turn=3 event=turn_end");
}
