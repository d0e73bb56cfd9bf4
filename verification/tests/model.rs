use strata::{
    Action, ActionBackend, CompletionRequest, CompletionResponse, ContentBlock, JsonToolCall,
    JsonValue, Message, ParseError, Provider, ProviderError, Role, Session, Tool, ToolError,
    ToolRegistry, ToolSchema,
};

fn obj(pairs: Vec<(&str, JsonValue)>) -> JsonValue {
    JsonValue::object(pairs.into_iter().map(|(k, v)| JsonValue::entry(k, v)).collect())
}

fn num(text: &str) -> JsonValue {
    JsonValue::Number(text.to_string())
}

fn s(text: &str) -> JsonValue {
    JsonValue::string(text)
}

// ---- actions ----

#[test]
fn action_new_and_equality() {
    let a = Action::new("call_1", "calculator", obj(vec![("x", num("1"))]));
    let b = Action::new("call_1", "calculator", obj(vec![("x", num("1"))]));
    assert_eq!(a, b);
    assert_eq!(a.id, "call_1");
    assert_eq!(a.name, "calculator");
}

#[test]
fn extracts_single_tool_call() {
    let backend = JsonToolCall;
    let msg = Message::assistant(vec![ContentBlock::ToolCall {
        id: "call_1".into(),
        name: "calculator".into(),
        args: obj(vec![("expression", s("1+2"))]),
    }]);
    let actions = backend.parse_actions(&msg);
    assert_eq!(
        actions,
        vec![Action::new("call_1", "calculator", obj(vec![("expression", s("1+2"))]))]
    );
}

#[test]
fn text_only_returns_empty() {
    let backend = JsonToolCall;
    let msg = Message::assistant(vec![ContentBlock::Text("done".into())]);
    assert!(backend.parse_actions(&msg).is_empty());
}

#[test]
fn mixed_text_and_tool_call_extracts_tool_call() {
    let backend = JsonToolCall;
    let msg = Message::assistant(vec![
        ContentBlock::Text("let me calculate".into()),
        ContentBlock::ToolCall {
            id: "call_1".into(),
            name: "calculator".into(),
            args: obj(vec![]),
        },
    ]);
    assert_eq!(backend.parse_actions(&msg).len(), 1);
}

#[test]
fn multiple_tool_calls_preserve_order() {
    let backend = JsonToolCall;
    let msg = Message::assistant(vec![
        ContentBlock::ToolCall {
            id: "call_1".into(),
            name: "a".into(),
            args: obj(vec![]),
        },
        ContentBlock::ToolCall {
            id: "call_2".into(),
            name: "b".into(),
            args: obj(vec![("x", num("1"))]),
        },
    ]);
    let actions = backend.parse_actions(&msg);
    assert_eq!(actions.len(), 2);
    assert_eq!(actions[0].name, "a");
    assert_eq!(actions[1].name, "b");
}

#[test]
fn non_assistant_returns_empty() {
    let backend = JsonToolCall;
    let msg = Message {
        role: Role::User,
        content: vec![ContentBlock::ToolCall {
            id: "call_1".into(),
            name: "calculator".into(),
            args: obj(vec![]),
        }],
    };
    assert!(backend.parse_actions(&msg).is_empty());
}

#[test]
fn empty_content_returns_empty() {
    let backend = JsonToolCall;
    let msg = Message::assistant(vec![]);
    assert!(backend.parse_actions(&msg).is_empty());
}

#[test]
fn validate_rejects_malformed_tool_calls() {
    let empty_id = Action::new("", "calculator", obj(vec![]));
    assert!(matches!(empty_id.validate(), Err(ParseError::InvalidToolCall(_))));

    let empty_name = Action::new("call_1", "", obj(vec![]));
    assert!(matches!(empty_name.validate(), Err(ParseError::InvalidToolCall(_))));

    let string_args = Action::new("call_1", "calculator", JsonValue::String("{bad".into()));
    assert!(matches!(string_args.validate(), Err(ParseError::InvalidToolCall(_))));

    let ok = Action::new("call_1", "calculator", obj(vec![("x", num("1"))]));
    assert!(ok.validate().is_ok());
}

#[test]
fn validate_rejects_non_object_args() {
    for bad in [
        num("42"),
        JsonValue::Bool(true),
        JsonValue::array(vec![num("1"), num("2"), num("3")]),
    ] {
        let action = Action::new("call_1", "calculator", bad);
        assert!(matches!(action.validate(), Err(ParseError::InvalidToolCall(_))));
    }

    assert!(Action::new("call_1", "t", obj(vec![])).validate().is_ok());
    assert!(Action::new("call_1", "t", JsonValue::Null).validate().is_ok());
}

#[test]
fn validate_messages_name_the_problem() {
    match Action::new("call_1", "t", num("42")).validate() {
        Err(ParseError::InvalidToolCall(m)) => {
            assert_eq!(m, "tool arguments must be a JSON object, got: 42")
        }
        other => panic!("unexpected {:?}", other),
    }
    match Action::new("call_1", "t", JsonValue::String("{bad".into())).validate() {
        Err(ParseError::InvalidToolCall(m)) => {
            assert_eq!(m, "tool arguments must be a JSON object, got: \"{bad\"")
        }
        other => panic!("unexpected {:?}", other),
    }
    match Action::new("", "t", obj(vec![])).validate() {
        Err(ParseError::InvalidToolCall(m)) => assert_eq!(m, "missing tool call id"),
        other => panic!("unexpected {:?}", other),
    }
}

#[test]
fn json_tool_call_is_object_safe() {
    let backend: &dyn ActionBackend = &JsonToolCall;
    let msg = Message::assistant(vec![ContentBlock::ToolCall {
        id: "call_1".into(),
        name: "calculator".into(),
        args: obj(vec![]),
    }]);
    assert_eq!(backend.parse_actions(&msg).len(), 1);

    let default_backend = <JsonToolCall as Default>::default();
    assert_eq!(default_backend, JsonToolCall);
    assert_eq!(default_backend.parse_actions(&msg).len(), 1);
}

// ---- messages ----

#[test]
fn text_joins_multiple_blocks_with_newline() {
    let message = Message::assistant(vec![
        ContentBlock::Text("first".into()),
        ContentBlock::ToolCall {
            id: "call_1".into(),
            name: "noop".into(),
            args: obj(vec![]),
        },
        ContentBlock::Text("second".into()),
    ]);
    assert_eq!(message.text(), "first\nsecond");
}

#[test]
fn convenience_constructors_and_queries() {
    let user = Message::user("hi");
    assert_eq!(user.role, Role::User);
    assert_eq!(user.text(), "hi");
    assert!(!user.has_tool_calls());

    let assistant = Message::assistant(vec![
        ContentBlock::Text("preamble".into()),
        ContentBlock::ToolCall {
            id: "call_1".into(),
            name: "calculator".into(),
            args: obj(vec![]),
        },
    ]);
    assert_eq!(assistant.text(), "preamble");
    assert!(assistant.has_tool_calls());

    let tool = Message::tool(ContentBlock::ToolResult {
        id: "call_1".into(),
        content: "42".into(),
        is_error: false,
    });
    assert_eq!(tool.role, Role::Tool);
    assert_eq!(tool.text(), "");
    assert!(!tool.has_tool_calls());
}

#[test]
fn messages_compare_by_content_and_clone_equal() {
    let a = Message::assistant(vec![
        ContentBlock::Text("我来算一下。".into()),
        ContentBlock::ToolCall {
            id: "call_abc".into(),
            name: "calculator".into(),
            args: obj(vec![("expression", s("1+2"))]),
        },
    ]);
    let b = a.clone();
    assert_eq!(a, b);
    assert_ne!(a, Message::assistant(vec![ContentBlock::Text("我来算一下。".into())]));
    assert_eq!(Message::system("s").role, Role::System);
}

// ---- session ----

#[test]
fn new_session_starts_empty_at_turn_zero() {
    let session = Session::new();
    assert!(session.is_empty());
    assert_eq!(session.turn, 0);
    assert_eq!(Session::default().turn, 0);
}

#[test]
fn with_history_and_push_preserves_order() {
    let mut session = Session::with_history(vec![Message::system("you are helpful")]);
    session.push(Message::user("hi"));
    assert_eq!(session.history.len(), 2);
    assert_eq!(session.history[0].role, Role::System);
    assert_eq!(session.history[1].text(), "hi");
}

#[test]
fn last_assistant_text_skips_tool_only_and_empty() {
    let session = Session::with_history(vec![
        Message::user("q"),
        Message::assistant(vec![ContentBlock::Text("first".into())]),
        Message::assistant(vec![ContentBlock::ToolCall {
            id: "call_1".into(),
            name: "calculator".into(),
            args: obj(vec![("expression", s("1+1"))]),
        }]),
    ]);
    assert_eq!(session.last_assistant_text(), None);

    let session = Session::with_history(vec![
        Message::user("q"),
        Message::assistant(vec![
            ContentBlock::Text("step1".into()),
            ContentBlock::ToolCall {
                id: "call_1".into(),
                name: "calculator".into(),
                args: obj(vec![("expression", s("1+1"))]),
            },
        ]),
    ]);
    assert_eq!(session.last_assistant_text(), Some("step1".into()));
}

#[test]
fn last_assistant_text_looks_past_tool_results() {
    let mut session = Session::with_history(vec![
        Message::user("q"),
        Message::assistant(vec![ContentBlock::Text("thinking".into())]),
    ]);
    session.push(Message::tool(ContentBlock::ToolResult {
        id: "call_1".into(),
        content: "2".into(),
        is_error: false,
    }));
    assert_eq!(session.last_assistant_text(), Some("thinking".into()));
    assert_eq!(Session::new().last_assistant_text(), None);
}

#[test]
fn session_clone_is_equal() {
    let session = Session {
        history: vec![
            Message::user("question"),
            Message::assistant(vec![ContentBlock::Text("answer".into())]),
        ],
        turn: 3,
    };
    let copy = session.clone();
    assert_eq!(session, copy);
    assert_eq!(copy.turn, 3);
}

// ---- tools ----

struct StubTool {
    name: &'static str,
}

impl Tool for StubTool {
    fn schema(&self) -> ToolSchema {
        ToolSchema {
            name: self.name.into(),
            description: "stub".into(),
            parameters: obj(vec![
                ("type", s("object")),
                ("properties", obj(vec![("value", obj(vec![("type", s("string"))]))])),
            ]),
        }
    }

    fn execute(&self, args: JsonValue) -> Result<String, ToolError> {
        match args.get_str("value") {
            Some("ok") => Ok("done".into()),
            Some("fail") => Err(ToolError::ExecutionFailed("boom".into())),
            _ => Err(ToolError::InvalidArgs("missing or invalid value".into())),
        }
    }
}

#[test]
fn register_and_get() {
    let mut registry: ToolRegistry<Box<dyn Tool>> = ToolRegistry::new();
    registry.register(Box::new(StubTool { name: "alpha" }));
    assert!(registry.get("alpha").is_some());
    assert!(registry.get("missing").is_none());
}

#[test]
fn schemas_collects_all_tools() {
    let mut registry: ToolRegistry<Box<dyn Tool>> = ToolRegistry::new();
    registry.register(Box::new(StubTool { name: "a" }));
    registry.register(Box::new(StubTool { name: "b" }));
    let names: Vec<_> = registry.schemas().into_iter().map(|s| s.name).collect();
    assert_eq!(registry.len(), 2);
    assert!(names.contains(&"a".to_string()));
    assert!(names.contains(&"b".to_string()));
}

#[test]
fn execute_success_and_errors() {
    let tool = StubTool { name: "stub" };
    let ok = tool.execute(obj(vec![("value", s("ok"))])).expect("ok");
    assert_eq!(ok, "done");

    let bad = tool.execute(obj(vec![])).unwrap_err();
    assert_eq!(bad.to_string(), "invalid arguments: missing or invalid value");

    let fail = tool.execute(obj(vec![("value", s("fail"))])).unwrap_err();
    assert_eq!(fail.to_string(), "tool execution failed: boom");
}

#[test]
fn duplicate_name_overwrites() {
    let mut registry: ToolRegistry<Box<dyn Tool>> = ToolRegistry::new();
    registry.register(Box::new(StubTool { name: "same" }));
    registry.register(Box::new(StubTool { name: "same" }));
    assert_eq!(registry.len(), 1);
    assert!(registry.get("same").is_some());
}

#[test]
fn registered_tool_runs_through_the_registry() {
    let mut registry: ToolRegistry<Box<dyn Tool>> = ToolRegistry::default();
    assert!(registry.is_empty());
    registry.register_named("renamed".into(), Box::new(StubTool { name: "stub" }));
    let tool = registry.get("renamed").expect("registered");
    assert_eq!(tool.execute(obj(vec![("value", s("ok"))])).unwrap(), "done");
    assert!(registry.get("stub").is_none());
}

// ---- provider ----

struct EchoProvider;

impl Provider for EchoProvider {
    fn complete(&self, _req: CompletionRequest) -> Result<CompletionResponse, ProviderError> {
        Ok(CompletionResponse {
            message: Message::assistant(vec![ContentBlock::Text("ok".into())]),
            usage: None,
        })
    }
}

#[test]
fn completion_request_constructs_with_defaults() {
    let req = CompletionRequest::new(vec![Message::user("hi")], 256);
    assert_eq!(req.messages.len(), 1);
    assert!(req.tools.is_empty());
    assert_eq!(req.max_tokens, 256);
    assert_eq!(req.temperature, None);
}

#[test]
fn tool_schema_holds_json_parameters() {
    let schema = ToolSchema {
        name: "calculator".into(),
        description: "Evaluate arithmetic.".into(),
        parameters: obj(vec![
            ("type", s("object")),
            ("properties", obj(vec![("expression", obj(vec![("type", s("string"))]))])),
        ]),
    };
    assert_eq!(schema.parameters.get_str("type"), Some("object"));
}

#[test]
fn provider_trait_is_object_safe() {
    let provider: &dyn Provider = &EchoProvider;
    let resp = provider
        .complete(CompletionRequest::new(vec![Message::user("ping")], 64))
        .expect("echo");
    assert_eq!(resp.message.text(), "ok");
}

// ---- json ----

#[test]
fn json_lookup_takes_the_last_matching_field() {
    let v = obj(vec![("a", s("x")), ("a", s("y")), ("flag", JsonValue::Bool(true))]);
    assert_eq!(v.get_str("a"), Some("y"));
    assert_eq!(v.get_bool("flag"), Some(true));
    assert_eq!(v.get_bool("a"), None);
    assert_eq!(s("a").get_str("a"), None);
}

#[test]
fn json_text_round_trips_through_serde_json() {
    let v = obj(vec![("expression", s("1+2")), ("n", num("3"))]);
    let text = strata::json::json_to_string(&v);
    assert_eq!(text, "{\"expression\":\"1+2\",\"n\":3}");
    let back = strata::json::parse_json(&text).expect("parses");
    assert_eq!(back.get_str("expression"), Some("1+2"));
    assert!(strata::json::parse_json("{bad").is_none());
}
