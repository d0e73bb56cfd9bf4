use strata::{LoopError, ParseError, ProviderError, StrataError, ToolError};

#[test]
fn provider_error_display() {
    let err = ProviderError::Network("connection reset".into());
    assert_eq!(err.to_string(), "network error: connection reset");

    let err = ProviderError::InvalidResponse("missing choices".into());
    assert_eq!(err.to_string(), "invalid provider response: missing choices");
}

#[test]
fn loop_error_display() {
    let err = LoopError::MaxTurns {
        max_turns: 10,
        partial: None,
    };
    assert_eq!(err.to_string(), "max turns exceeded (10)");
}

#[test]
fn parse_and_tool_errors_are_backfill_only() {
    let parse = ParseError::InvalidJson("trailing comma".into());
    assert_eq!(parse.to_string(), "invalid JSON: trailing comma");

    let tool = ToolError::Unknown {
        name: "calculator".into(),
    };
    assert_eq!(tool.to_string(), "unknown tool: calculator");
}

#[test]
fn strata_error_from_provider_and_loop() {
    let provider: StrataError = ProviderError::Auth("invalid api key".into()).into();
    assert!(matches!(provider, StrataError::Provider(_)));

    let loop_err: StrataError = LoopError::MaxTurns {
        max_turns: 5,
        partial: Some("partial".into()),
    }
    .into();
    assert!(matches!(loop_err, StrataError::Loop(_)));
}

#[test]
fn every_error_message_is_prefixed_by_its_kind() {
    assert_eq!(
        ProviderError::Auth("bad key".into()).to_string(),
        "authentication failed: bad key"
    );
    assert_eq!(ProviderError::RateLimit("slow down".into()).to_string(), "rate limited: slow down");
    assert_eq!(
        ParseError::InvalidToolCall("missing tool name".into()).to_string(),
        "invalid tool call: missing tool name"
    );
    assert_eq!(ToolError::InvalidArgs("x".into()).to_string(), "invalid arguments: x");
    assert_eq!(
        ToolError::ExecutionFailed("boom".into()).to_string(),
        "tool execution failed: boom"
    );
}

#[test]
fn strata_error_shows_the_wrapped_message_without_partial() {
    let err: StrataError = LoopError::MaxTurns {
        max_turns: 3,
        partial: Some("half done".into()),
    }
    .into();
    assert_eq!(err.to_string(), "max turns exceeded (3)");
    let err: StrataError = ProviderError::Network("timeout".into()).into();
    assert_eq!(err.to_string(), "network error: timeout");
}
