use strata::providers::deepseek::{
    decode_assistant_message, encode_message, encode_messages, finish_response,
    parse_thinking_flag, role_to_api, status_error, truncate_body, ApiFunctionCall, ApiMessage,
    ApiToolCall, DEFAULT_API_BASE, DEFAULT_MODEL,
};
use strata::{
    CompletionRequest, ContentBlock, DeepSeekProvider, JsonValue, Message, ProviderError, Role,
    TokenUsage, ToolSchema,
};

fn provider_with_base(base: &str) -> DeepSeekProvider {
    DeepSeekProvider::from_settings(Some("k".into()), Some(base.into()), None, None).expect("key set")
}

#[test]
fn defaults_match_official_docs() {
    assert_eq!(DEFAULT_API_BASE, "https://api.deepseek.com");
    assert_eq!(DEFAULT_MODEL, "deepseek-v4-flash");
}

#[test]
fn chat_url_strips_trailing_slash_and_v1() {
    let cases = [
        "https://api.deepseek.com",
        "https://api.deepseek.com/",
        "https://api.deepseek.com/v1",
        "https://api.deepseek.com/v1/",
    ];
    for base in cases {
        let provider = provider_with_base(base);
        assert_eq!(
            provider.chat_url(),
            "https://api.deepseek.com/v1/chat/completions",
            "base={base}"
        );
    }
}

#[test]
fn encode_user_message() {
    let api = encode_message(&Message::user("hello")).expect("encode");
    assert_eq!(api.role, "user");
    assert_eq!(api.content.as_deref(), Some("hello"));
}

#[test]
fn decode_text_response() {
    let msg = decode_assistant_message(ApiMessage {
        role: "assistant".into(),
        content: Some("hi there".into()),
        tool_calls: None,
        tool_call_id: None,
    })
    .expect("decode");
    assert_eq!(msg.text(), "hi there");
    assert!(!msg.has_tool_calls());
}

#[test]
fn decode_tool_calls_response() {
    let msg = decode_assistant_message(ApiMessage {
        role: "assistant".into(),
        content: None,
        tool_calls: Some(vec![ApiToolCall {
            id: "call_1".into(),
            kind: "function".into(),
            function: ApiFunctionCall {
                name: "calculator".into(),
                arguments: r#"{"expression":"1+2"}"#.into(),
            },
        }]),
        tool_call_id: None,
    })
    .expect("decode");
    assert!(msg.has_tool_calls());
    match &msg.content[0] {
        ContentBlock::ToolCall { id, name, args } => {
            assert_eq!(id, "call_1");
            assert_eq!(name, "calculator");
            assert_eq!(args.get_str("expression"), Some("1+2"));
        }
        other => panic!("unexpected {:?}", other),
    }
}

#[test]
fn decode_keeps_unparsable_arguments_as_a_string() {
    let msg = decode_assistant_message(ApiMessage {
        role: "assistant".into(),
        content: Some(String::new()),
        tool_calls: Some(vec![ApiToolCall {
            id: "c".into(),
            kind: "function".into(),
            function: ApiFunctionCall {
                name: "t".into(),
                arguments: "{bad".into(),
            },
        }]),
        tool_call_id: None,
    })
    .unwrap();
    assert_eq!(msg.content.len(), 1);
    assert!(matches!(&msg.content[0], ContentBlock::ToolCall { args: JsonValue::String(a), .. } if a == "{bad"));
}

#[test]
fn decode_refuses_wrong_role_and_empty_reply() {
    let err = decode_assistant_message(ApiMessage {
        role: "user".into(),
        content: Some("x".into()),
        tool_calls: None,
        tool_call_id: None,
    })
    .unwrap_err();
    assert_eq!(err.to_string(), "invalid provider response: expected assistant message, got user");
    let err = decode_assistant_message(ApiMessage {
        role: "assistant".into(),
        content: None,
        tool_calls: Some(vec![]),
        tool_call_id: None,
    })
    .unwrap_err();
    assert_eq!(
        err.to_string(),
        "invalid provider response: assistant message has no content or tool_calls"
    );
}

#[test]
fn encode_covers_each_role() {
    let err = encode_message(&Message::system("")).unwrap_err();
    assert_eq!(err.to_string(), "invalid provider response: empty text for System message");
    let api = encode_message(&Message::assistant(vec![
        ContentBlock::Text("calling".into()),
        ContentBlock::ToolCall {
            id: "call_1".into(),
            name: "calculator".into(),
            args: JsonValue::object(vec![JsonValue::entry("expression", JsonValue::string("1+2"))]),
        },
    ]))
    .unwrap();
    assert_eq!(api.role, "assistant");
    assert_eq!(api.content.as_deref(), Some("calling"));
    let calls = api.tool_calls.unwrap();
    assert_eq!(calls[0].kind, "function");
    assert_eq!(calls[0].function.arguments, r#"{"expression":"1+2"}"#);
    let api = encode_message(&Message::tool(ContentBlock::ToolResult {
        id: "call_1".into(),
        content: "3".into(),
        is_error: false,
    }))
    .unwrap();
    assert_eq!(api.role, "tool");
    assert_eq!(api.tool_call_id.as_deref(), Some("call_1"));
    assert_eq!(api.content.as_deref(), Some("3"));
    let err = encode_message(&Message::tool(ContentBlock::Text("x".into()))).unwrap_err();
    assert_eq!(err.to_string(), "invalid provider response: tool message must contain ToolResult");
    let all = encode_messages(&vec![Message::user("a"), Message::user("")]).unwrap_err();
    assert_eq!(all.to_string(), "invalid provider response: empty text for User message");
    assert_eq!(role_to_api(Role::System), "system");
}

#[test]
fn http_status_classification() {
    assert!(status_error(200, "{}", None).is_none());
    assert!(matches!(status_error(401, "nope", None), Some(ProviderError::Auth(m)) if m == "nope"));
    assert!(matches!(
        status_error(403, "body", Some("invalid api key".into())),
        Some(ProviderError::Auth(m)) if m == "invalid api key"
    ));
    assert!(matches!(status_error(429, "busy", None), Some(ProviderError::RateLimit(m)) if m == "busy"));
    assert!(matches!(
        status_error(500, "oops", None),
        Some(ProviderError::Network(m)) if m == "HTTP 500: oops"
    ));
    assert_eq!(truncate_body(&"x".repeat(600), 512), format!("{}…", "x".repeat(512)));
    assert_eq!(truncate_body("short", 512), "short");
}

#[test]
fn finish_takes_the_first_choice() {
    let err = finish_response(vec![], None).unwrap_err();
    assert_eq!(err.to_string(), "invalid provider response: missing choices");
    let usage = TokenUsage {
        prompt_tokens: 1,
        completion_tokens: 2,
        total_tokens: 3,
    };
    let resp = finish_response(
        vec![ApiMessage {
            role: "assistant".into(),
            content: Some("final answer".into()),
            tool_calls: None,
            tool_call_id: None,
        }],
        Some(usage),
    )
    .unwrap();
    assert_eq!(resp.message.text(), "final answer");
    assert_eq!(resp.usage, Some(usage));
}

#[test]
fn settings_and_thinking_flag() {
    assert!(parse_thinking_flag(" TRUE "));
    assert!(parse_thinking_flag("1"));
    assert!(parse_thinking_flag("Enabled"));
    assert!(parse_thinking_flag("on"));
    assert!(!parse_thinking_flag("yes"));
    let err = DeepSeekProvider::from_settings(None, None, None, None).unwrap_err();
    assert_eq!(err.to_string(), "authentication failed: DEEPSEEK_API_KEY not set");
    let p = DeepSeekProvider::from_settings(Some("k".into()), None, Some("m".into()), Some("on".into()))
        .unwrap();
    assert_eq!(p.base_url(), DEFAULT_API_BASE);
    assert_eq!(p.model(), "m");
    assert!(p.thinking());
    let p = DeepSeekProvider::new("key".into());
    assert_eq!(p.api_key(), "key");
    assert_eq!(p.model(), DEFAULT_MODEL);
    assert!(!p.thinking());
}

#[test]
fn chat_body_carries_model_tools_and_thinking() {
    let p = DeepSeekProvider::from_settings(Some("k".into()), None, None, Some("true".into())).unwrap();
    let mut req = CompletionRequest::new(vec![Message::user("hi")], 128);
    req.tools.push(ToolSchema {
        name: "calculator".into(),
        description: "d".into(),
        parameters: JsonValue::object(vec![]),
    });
    let body = p.chat_body(&req).unwrap();
    assert_eq!(body.model, DEFAULT_MODEL);
    assert_eq!(body.max_tokens, 128);
    assert_eq!(body.messages.len(), 1);
    assert_eq!(body.tools.as_ref().unwrap()[0].function.name, "calculator");
    assert_eq!(body.thinking.as_ref().unwrap().kind, "enabled");
    assert_eq!(body.reasoning_effort.as_deref(), Some("high"));
    let plain = DeepSeekProvider::new("k".into());
    let body = plain.chat_body(&CompletionRequest::new(vec![Message::user("hi")], 8)).unwrap();
    assert!(body.tools.is_none());
    assert_eq!(body.thinking.unwrap().kind, "disabled");
    assert!(body.reasoning_effort.is_none());
}

#[test]
fn encoding_keeps_every_message_in_order() {
    let history = vec![
        Message::user("算 1+2"),
        Message::assistant(vec![ContentBlock::ToolCall {
            id: "call_1".into(),
            name: "calculator".into(),
            args: JsonValue::object(vec![JsonValue::entry("expression", JsonValue::string("1+2"))]),
        }]),
        Message::tool(ContentBlock::ToolResult {
            id: "call_1".into(),
            content: "3".into(),
            is_error: false,
        }),
    ];
    let api = encode_messages(&history).unwrap();
    let roles: Vec<&str> = api.iter().map(|m| m.role.as_str()).collect();
    assert_eq!(roles, vec!["user", "assistant", "tool"]);
    assert_eq!(api[1].content, None);
    assert_eq!(api[1].tool_calls.as_ref().unwrap()[0].id, "call_1");
    assert_eq!(api[2].tool_call_id.as_deref(), Some("call_1"));
}
