//! The data that lifecycle hooks see and may change.
use vstd::prelude::*;

use crate::types::{Message, ProviderRequest, ProviderResponse};

verus! {

/// Wire protocol selected by a built-in HTTP provider.
#[derive(Clone, Copy, Debug, PartialEq, Eq, Structural)]
pub enum ProviderApi {
    AnthropicMessages,
    OpenAiChatCompletions,
    OpenAiResponses,
}

/// The normalized request at the beginning of an agent turn.
#[derive(Clone, Debug, PartialEq, Eq)]
pub struct TurnStartContext {
    pub turn: usize,
    pub request: ProviderRequest,
}

/// A complete provider response before it enters agent state.
#[derive(Clone, Debug, PartialEq, Eq)]
pub struct LlmResponseContext {
    pub turn: usize,
    pub response: ProviderResponse,
}

/// What a complete turn produced, before the next turn starts.
#[derive(Clone, Debug, PartialEq, Eq)]
pub struct TurnEndContext {
    pub turn: usize,
    pub message: Message,
    pub tool_results: Vec<Message>,
}

} // verus!
