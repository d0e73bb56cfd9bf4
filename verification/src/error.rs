//! Error taxonomy.
//!
//! - Raised to the caller: [`ProviderError`] and [`LoopError`], wrapped in [`StrataError`].
//! - Never raised: [`ParseError`] and [`ToolError`]; the loop turns them into
//!   tool results in the conversation so the model can correct itself.

use vstd::prelude::*;

use crate::text::{decimal, decimal_text};

verus! {

/// Provider failures: network, authentication, rate limiting, malformed responses.
#[derive(Debug, Clone)]
pub enum ProviderError {
    Network(String),
    Auth(String),
    RateLimit(String),
    InvalidResponse(String),
}

/// Runaway-loop protection.
#[derive(Debug, Clone)]
pub enum LoopError {
    MaxTurns {
        max_turns: u32,
        /// Last assistant plain text before termination, if any.
        partial: Option<String>,
    },
}

/// Malformed model output or action; fed back into the conversation.
#[derive(Debug, Clone)]
pub enum ParseError {
    InvalidJson(String),
    InvalidToolCall(String),
}

/// Tool execution failures; fed back as an error tool result.
#[derive(Debug, Clone)]
pub enum ToolError {
    Unknown { name: String },
    InvalidArgs(String),
    ExecutionFailed(String),
}

/// The errors the caller sees: provider and loop errors only.
#[derive(Debug, Clone)]
pub enum StrataError {
    Provider(ProviderError),
    Loop(LoopError),
}

/// Model of a [`ToolError`]: its variant and the text it holds.
pub enum ToolErrorModel {
    Unknown(Seq<char>),
    InvalidArgs(Seq<char>),
    ExecutionFailed(Seq<char>),
}

impl View for ToolError {
    type V = ToolErrorModel;

    open spec fn view(&self) -> ToolErrorModel {
        match self {
            ToolError::Unknown { name } => ToolErrorModel::Unknown(name@),
            ToolError::InvalidArgs(m) => ToolErrorModel::InvalidArgs(m@),
            ToolError::ExecutionFailed(m) => ToolErrorModel::ExecutionFailed(m@),
        }
    }
}

/// The message of a provider error.
pub open spec fn provider_error_text(e: ProviderError) -> Seq<char> {
    match e {
        ProviderError::Network(m) => "network error: "@ + m@,
        ProviderError::Auth(m) => "authentication failed: "@ + m@,
        ProviderError::RateLimit(m) => "rate limited: "@ + m@,
        ProviderError::InvalidResponse(m) => "invalid provider response: "@ + m@,
    }
}

/// The message of a loop error (it leaves out the partial text).
pub open spec fn loop_error_text(e: LoopError) -> Seq<char> {
    match e {
        LoopError::MaxTurns { max_turns, .. } => "max turns exceeded ("@ + decimal_text(
            max_turns as nat,
        ) + ")"@,
    }
}

/// The message of a parse error.
pub open spec fn parse_error_text(e: ParseError) -> Seq<char> {
    match e {
        ParseError::InvalidJson(m) => "invalid JSON: "@ + m@,
        ParseError::InvalidToolCall(m) => "invalid tool call: "@ + m@,
    }
}

/// The message of a tool error.
pub open spec fn tool_error_text(e: ToolError) -> Seq<char> {
    match e {
        ToolError::Unknown { name } => "unknown tool: "@ + name@,
        ToolError::InvalidArgs(m) => "invalid arguments: "@ + m@,
        ToolError::ExecutionFailed(m) => "tool execution failed: "@ + m@,
    }
}

/// The message of a caller-facing error: that of the error it wraps.
pub open spec fn strata_error_text(e: StrataError) -> Seq<char> {
    match e {
        StrataError::Provider(p) => provider_error_text(p),
        StrataError::Loop(l) => loop_error_text(l),
    }
}

/// Whether `e` is the invalid-arguments error with message `m`.
pub open spec fn is_invalid_args(e: ToolError, m: Seq<char>) -> bool {
    e matches ToolError::InvalidArgs(x) && x@ == m
}

/// Whether `e` is the execution-failure error with message `m`.
pub open spec fn is_failure(e: ToolError, m: Seq<char>) -> bool {
    e matches ToolError::ExecutionFailed(x) && x@ == m
}

/// `prefix` followed by `rest`.
pub fn prefixed(prefix: &str, rest: &str) -> (r: String)
    ensures
        r@ == prefix@ + rest@,
{
    let mut r = String::from_str(prefix);
    r.append(rest);
    r
}

impl ProviderError {
    /// The human-readable message.
    pub fn to_string(&self) -> (r: String)
        ensures
            r@ == provider_error_text(*self),
    {
        match self {
            ProviderError::Network(m) => prefixed("network error: ", m.as_str()),
            ProviderError::Auth(m) => prefixed("authentication failed: ", m.as_str()),
            ProviderError::RateLimit(m) => prefixed("rate limited: ", m.as_str()),
            ProviderError::InvalidResponse(m) => prefixed("invalid provider response: ", m.as_str()),
        }
    }
}

impl LoopError {
    /// The human-readable summary; the partial text is not part of it.
    pub fn to_string(&self) -> (r: String)
        ensures
            r@ == loop_error_text(*self),
    {
        match self {
            LoopError::MaxTurns { max_turns, .. } => {
                let mut r = String::from_str("max turns exceeded (");
                let n = decimal(*max_turns as u64);
                r.append(n.as_str());
                r.append(")");
                r
            },
        }
    }
}

impl ParseError {
    /// The human-readable message.
    pub fn to_string(&self) -> (r: String)
        ensures
            r@ == parse_error_text(*self),
    {
        match self {
            ParseError::InvalidJson(m) => prefixed("invalid JSON: ", m.as_str()),
            ParseError::InvalidToolCall(m) => prefixed("invalid tool call: ", m.as_str()),
        }
    }
}

impl ToolError {
    /// The human-readable message.
    pub fn to_string(&self) -> (r: String)
        ensures
            r@ == tool_error_text(*self),
    {
        match self {
            ToolError::Unknown { name } => prefixed("unknown tool: ", name.as_str()),
            ToolError::InvalidArgs(m) => prefixed("invalid arguments: ", m.as_str()),
            ToolError::ExecutionFailed(m) => prefixed("tool execution failed: ", m.as_str()),
        }
    }
}

impl StrataError {
    /// The message of the wrapped error.
    pub fn to_string(&self) -> (r: String)
        ensures
            r@ == strata_error_text(*self),
    {
        match self {
            StrataError::Provider(p) => p.to_string(),
            StrataError::Loop(l) => l.to_string(),
        }
    }
}

impl From<ProviderError> for StrataError {
    fn from(e: ProviderError) -> (r: Self) {
        StrataError::Provider(e)
    }
}

impl vstd::std_specs::convert::FromSpecImpl<ProviderError> for StrataError {
    open spec fn obeys_from_spec() -> bool {
        true
    }

    open spec fn from_spec(v: ProviderError) -> StrataError {
        StrataError::Provider(v)
    }
}

impl From<LoopError> for StrataError {
    fn from(e: LoopError) -> (r: Self) {
        StrataError::Loop(e)
    }
}

impl vstd::std_specs::convert::FromSpecImpl<LoopError> for StrataError {
    open spec fn obeys_from_spec() -> bool {
        true
    }

    open spec fn from_spec(v: LoopError) -> StrataError {
        StrataError::Loop(v)
    }
}

} // verus!
