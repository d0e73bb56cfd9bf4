//! Structured trace events of the agent loop, and the tracer boundary.

use vstd::prelude::*;

use crate::provider::TokenUsage;
use crate::text::{decimal_text, push_decimal};

verus! {

/// A structured event of the agent loop.
#[derive(Debug, Clone, PartialEq)]
pub enum TraceEvent {
    TurnStart { turn: u32 },
    ProviderCall { turn: u32, duration_ms: u64, usage: Option<TokenUsage> },
    ToolCall { turn: u32, id: String, name: String },
    ToolResult { turn: u32, id: String, name: String, is_error: bool },
    TurnEnd { turn: u32 },
    Error {
        /// `None` for errors outside a turn; `Some` keeps the failing turn.
        turn: Option<u32>,
        message: String,
        /// Set when the error follows a failed provider call.
        duration_ms: Option<u64>,
    },
}

/// `"true"` or `"false"`.
pub open spec fn bool_text(b: bool) -> Seq<char> {
    if b {
        "true"@
    } else {
        "false"@
    }
}

/// The one-line rendering of an event.
pub open spec fn trace_text(e: TraceEvent) -> Seq<char> {
    match e {
        TraceEvent::TurnStart { turn } => "[strata] turn="@ + decimal_text(turn as nat)
            + " event=turn_start"@,
        TraceEvent::ProviderCall { turn, duration_ms, usage } => "[strata] turn="@ + decimal_text(
            turn as nat,
        ) + " event=provider_call duration_ms="@ + decimal_text(duration_ms as nat) + (match usage {
            Some(u) => " prompt_tokens="@ + decimal_text(u.prompt_tokens as nat)
                + " completion_tokens="@ + decimal_text(u.completion_tokens as nat)
                + " total_tokens="@ + decimal_text(u.total_tokens as nat),
            None => Seq::empty(),
        }),
        TraceEvent::ToolCall { turn, id, name } => "[strata] turn="@ + decimal_text(turn as nat)
            + " event=tool_call name="@ + name@ + " id="@ + id@,
        TraceEvent::ToolResult { turn, id, name, is_error } => "[strata] turn="@ + decimal_text(
            turn as nat,
        ) + " event=tool_result name="@ + name@ + " id="@ + id@ + " is_error="@ + bool_text(
            is_error,
        ),
        TraceEvent::TurnEnd { turn } => "[strata] turn="@ + decimal_text(turn as nat)
            + " event=turn_end"@,
        TraceEvent::Error { turn, message, duration_ms } => (match turn {
            Some(t) => "[strata] turn="@ + decimal_text(t as nat) + " event=error message="@
                + message@,
            None => "[strata] event=error message="@ + message@,
        }) + (match duration_ms {
            Some(ms) => " duration_ms="@ + decimal_text(ms as nat),
            None => Seq::empty(),
        }),
    }
}

fn push_str(s: &mut String, t: &str)
    ensures
        final(s)@ == old(s)@ + t@,
{
    s.append(t);
}

fn turn_prefix(turn: u32) -> (s: String)
    ensures
        s@ == "[strata] turn="@ + decimal_text(turn as nat),
{
    let mut s = String::from_str("[strata] turn=");
    push_decimal(&mut s, turn as u64);
    s
}

impl TraceEvent {
    /// The one-line human-readable rendering of the event.
    ///
    /// The error message is written as it is, unquoted, and the duration always
    /// comes last.
    pub fn to_string(&self) -> (r: String)
        ensures
            r@ == trace_text(*self),
    {
        match self {
            TraceEvent::TurnStart { turn } => {
                let mut s = turn_prefix(*turn);
                push_str(&mut s, " event=turn_start");
                s
            },
            TraceEvent::ProviderCall { turn, duration_ms, usage } => {
                let mut s = turn_prefix(*turn);
                push_str(&mut s, " event=provider_call duration_ms=");
                push_decimal(&mut s, *duration_ms);
                match usage {
                    Some(u) => {
                        push_str(&mut s, " prompt_tokens=");
                        push_decimal(&mut s, u.prompt_tokens as u64);
                        push_str(&mut s, " completion_tokens=");
                        push_decimal(&mut s, u.completion_tokens as u64);
                        push_str(&mut s, " total_tokens=");
                        push_decimal(&mut s, u.total_tokens as u64);
                    },
                    None => {},
                }
                assert(s@ =~= trace_text(*self));
                s
            },
            TraceEvent::ToolCall { turn, id, name } => {
                let mut s = turn_prefix(*turn);
                push_str(&mut s, " event=tool_call name=");
                push_str(&mut s, name.as_str());
                push_str(&mut s, " id=");
                push_str(&mut s, id.as_str());
                assert(s@ =~= trace_text(*self));
                s
            },
            TraceEvent::ToolResult { turn, id, name, is_error } => {
                let mut s = turn_prefix(*turn);
                push_str(&mut s, " event=tool_result name=");
                push_str(&mut s, name.as_str());
                push_str(&mut s, " id=");
                push_str(&mut s, id.as_str());
                push_str(&mut s, " is_error=");
                if *is_error {
                    push_str(&mut s, "true");
                } else {
                    push_str(&mut s, "false");
                }
                assert(s@ =~= trace_text(*self));
                s
            },
            TraceEvent::TurnEnd { turn } => {
                let mut s = turn_prefix(*turn);
                push_str(&mut s, " event=turn_end");
                s
            },
            TraceEvent::Error { turn, message, duration_ms } => {
                let mut s = match turn {
                    Some(t) => {
                        let mut s = turn_prefix(*t);
                        push_str(&mut s, " event=error message=");
                        s
                    },
                    None => String::from_str("[strata] event=error message="),
                };
                push_str(&mut s, message.as_str());
                match duration_ms {
                    Some(ms) => {
                        push_str(&mut s, " duration_ms=");
                        push_decimal(&mut s, *ms);
                    },
                    None => {},
                }
                assert(s@ =~= trace_text(*self));
                s
            },
        }
    }
}

/// Observes structured loop events without affecting control flow.
pub trait Tracer {
    fn on_event(&self, event: TraceEvent);
}

/// A tracer that records nothing.
#[derive(Debug, Default, Clone, Copy, PartialEq, Eq, Structural)]
pub struct NoopTracer;

impl Tracer for NoopTracer {
    fn on_event(&self, event: TraceEvent) {
    }
}

} // verus!
