//! Strata: a small, model-agnostic agent runtime kernel.

pub mod json;

pub use json::{Json, JsonValue};
pub mod text;
pub mod message;

pub use message::{ContentBlock, Message, Role};
pub mod error;

pub use error::{LoopError, ParseError, ProviderError, StrataError, ToolError};
pub mod action;

pub use action::{Action, ActionBackend, JsonToolCall};
pub mod tool;

pub use tool::{Tool, ToolRegistry, ToolSchema};
pub mod provider;
pub mod providers;
pub mod session;

pub use provider::{CompletionRequest, CompletionResponse, Provider, Temperature, TokenUsage};
pub use providers::DeepSeekProvider;
pub use session::Session;
pub mod trace;

pub use trace::{NoopTracer, TraceEvent, Tracer};
pub mod run;
pub mod tools;

pub use tools::Calculator;

pub use run::run;
