//! The provider boundary and the completion request and response types.
//!
//! Authentication, wire formats and native tool-call encodings live in the
//! provider implementations; nothing here names a particular provider.

use vstd::prelude::*;

use crate::error::ProviderError;
use crate::message::{messages_view, Message, MessageModel};
use crate::tool::{schemas_view, ToolSchema, ToolSchemaModel};

verus! {

/// Token counts a provider reports for one call.
#[derive(Debug, Clone, Copy, PartialEq, Eq, Structural)]
pub struct TokenUsage {
    pub prompt_tokens: u32,
    pub completion_tokens: u32,
    pub total_tokens: u32,
}

/// A sampling temperature, held as the bit pattern of an IEEE-754 `f32`
/// (`f32::to_bits`); the kernel only passes it through to providers.
#[derive(Debug, Clone, Copy, PartialEq, Eq, Structural)]
pub struct Temperature {
    pub bits: u32,
}

/// A provider-neutral completion request.
#[derive(Debug)]
pub struct CompletionRequest {
    pub messages: Vec<Message>,
    pub tools: Vec<ToolSchema>,
    pub max_tokens: u32,
    pub temperature: Option<Temperature>,
}

/// Model of a [`CompletionRequest`].
pub struct CompletionRequestModel {
    pub messages: Seq<MessageModel>,
    pub tools: Seq<ToolSchemaModel>,
    pub max_tokens: u32,
    pub temperature: Option<Temperature>,
}

impl View for CompletionRequest {
    type V = CompletionRequestModel;

    open spec fn view(&self) -> CompletionRequestModel {
        CompletionRequestModel {
            messages: messages_view(self.messages@),
            tools: schemas_view(self.tools@),
            max_tokens: self.max_tokens,
            temperature: self.temperature,
        }
    }
}

impl CompletionRequest {
    /// A request with no tools and no temperature.
    pub fn new(messages: Vec<Message>, max_tokens: u32) -> (r: CompletionRequest)
        ensures
            r@.messages == messages_view(messages@),
            r@.tools == Seq::<ToolSchemaModel>::empty(),
            r@.max_tokens == max_tokens,
            r@.temperature is None,
    {
        let r = CompletionRequest { messages, tools: Vec::new(), max_tokens, temperature: None };
        assert(r@.tools =~= Seq::<ToolSchemaModel>::empty());
        r
    }
}

/// A provider-neutral completion: one assistant turn, and token usage when the
/// provider reports it.
#[derive(Debug)]
pub struct CompletionResponse {
    pub message: Message,
    pub usage: Option<TokenUsage>,
}

impl Clone for CompletionResponse {
    fn clone(&self) -> (r: Self)
        ensures
            r.message@ == self.message@,
            r.usage == self.usage,
    {
        CompletionResponse { message: self.message.duplicate(), usage: self.usage }
    }
}

/// Model of a [`CompletionResponse`].
pub struct CompletionResponseModel {
    pub message: MessageModel,
    pub usage: Option<TokenUsage>,
}

impl View for CompletionResponse {
    type V = CompletionResponseModel;

    open spec fn view(&self) -> CompletionResponseModel {
        CompletionResponseModel { message: self.message@, usage: self.usage }
    }
}

/// The model of what a provider call gave back.
pub open spec fn outcome_view(r: Result<CompletionResponse, ProviderError>) -> Result<
    CompletionResponseModel,
    ProviderError,
> {
    match r {
        Ok(resp) => Ok(resp@),
        Err(e) => Err(e),
    }
}

/// The model boundary. Implementations translate to and from their API formats.
///
/// A provider says, by its own `may_complete`, which outcomes it may give for a
/// request; any outcome, unless it says more.
pub trait Provider {
    /// Whether `r` is an outcome this provider may give for the request `req`.
    open spec fn may_complete(
        &self,
        req: CompletionRequestModel,
        r: Result<CompletionResponseModel, ProviderError>,
    ) -> bool {
        true
    }

    fn complete(&self, req: CompletionRequest) -> (r: Result<CompletionResponse, ProviderError>)
        ensures
            self.may_complete(req@, outcome_view(r)),
    ;
}

} // verus!
