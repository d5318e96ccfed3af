//! Provider-neutral conversation data: messages, content, tool calls and
//! token accounting.
//!
//! JSON payloads that the library only carries (tool arguments, provider
//! replay state, tool-result metadata) are held as their serialized text.
use vstd::prelude::*;

use crate::text::{owned, string_eq};

verus! {

broadcast use vstd::string::group_string_axioms;

/// Author of a message.
#[derive(Clone, Copy, Debug, PartialEq, Eq, Hash, Structural)]
pub enum Role {
    System,
    User,
    Assistant,
    Tool,
}

/// Reasoning effort requested from a model.
#[derive(Clone, Copy, Debug, PartialEq, Eq, Hash, Structural)]
pub enum ReasoningEffort {
    Disabled,
    Minimal,
    Low,
    Medium,
    High,
    XHigh,
    Max,
}

/// How closely a model should look at an image.
#[derive(Clone, Copy, Debug, PartialEq, Eq, Structural)]
pub enum ImageDetail {
    Auto,
    Low,
    High,
}

/// The wire name of an image detail.
pub open spec fn detail_text(d: ImageDetail) -> Seq<char> {
    match d {
        ImageDetail::Auto => "auto"@,
        ImageDetail::Low => "low"@,
        ImageDetail::High => "high"@,
    }
}

impl ImageDetail {
    /// The wire name of this detail.
    pub fn as_str(self) -> (r: &'static str)
        ensures
            r@ == detail_text(self),
    {
        match self {
            ImageDetail::Auto => "auto",
            ImageDetail::Low => "low",
            ImageDetail::High => "high",
        }
    }
}

/// The view of a requested detail: its wire name, empty when none was
/// requested.
pub open spec fn opt_detail_text(d: Option<ImageDetail>) -> Seq<char> {
    match d {
        Some(x) => detail_text(x),
        None => Seq::empty(),
    }
}

/// A referenced image, with the detail requested for it, if any.
#[derive(Clone, Debug, PartialEq, Eq)]
pub struct ImageUrl {
    pub url: String,
    pub detail: Option<ImageDetail>,
}

/// An attached document.
#[derive(Clone, Debug, PartialEq, Eq)]
pub struct Document {
    pub filename: String,
    pub mime_type: String,
    pub data: String,
}

/// One block of multimodal content.
#[derive(Clone, Debug, PartialEq, Eq)]
pub enum ContentPart {
    Text { text: String },
    ImageUrl { image_url: ImageUrl },
    Document { document: Document },
}

/// Message content: plain text or a list of parts.
#[derive(Clone, Debug, PartialEq, Eq)]
pub enum Content {
    Text(String),
    Parts(Vec<ContentPart>),
}

/// A tool invocation requested by the model; `arguments` is JSON text.
#[derive(Clone, Debug, PartialEq, Eq)]
pub struct ToolCall {
    pub id: String,
    pub name: String,
    pub arguments: String,
}

/// One message of a conversation.
#[derive(Clone, Debug, PartialEq, Eq)]
pub struct Message {
    pub role: Role,
    pub content: Option<Content>,
    pub tool_calls: Vec<ToolCall>,
    pub tool_call_id: Option<String>,
    pub is_error: bool,
    /// Opaque provider replay state.
    pub provider_state: Option<crate::json::Json>,
    /// Machine-readable tool-result data (JSON text).
    pub tool_result_metadata: Option<String>,
}

/// A tool advertised to the model; `parameters` is a JSON schema as text.
#[derive(Clone, Debug, PartialEq, Eq)]
pub struct ToolDefinition {
    pub name: String,
    pub description: String,
    pub parameters: String,
}

/// An incremental piece of assistant output.
#[derive(Clone, Debug, PartialEq, Eq)]
pub enum AssistantDelta {
    Text { delta: String },
    Reasoning { delta: String },
    ToolCall {
        index: usize,
        id: Option<String>,
        name: Option<String>,
        arguments_delta: String,
    },
}

pub ghost enum AssistantDeltaView {
    Text(Seq<char>),
    Reasoning(Seq<char>),
    ToolCall { index: usize, id: Option<Seq<char>>, name: Option<Seq<char>>, arguments: Seq<char> },
}

impl View for AssistantDelta {
    type V = AssistantDeltaView;

    open spec fn view(&self) -> AssistantDeltaView {
        match self {
            AssistantDelta::Text { delta } => AssistantDeltaView::Text(delta@),
            AssistantDelta::Reasoning { delta } => AssistantDeltaView::Reasoning(delta@),
            AssistantDelta::ToolCall { index, id, name, arguments_delta } => AssistantDeltaView::ToolCall {
                index: *index,
                id: opt_str_view(*id),
                name: opt_str_view(*name),
                arguments: arguments_delta@,
            },
        }
    }
}

pub open spec fn deltas_view(d: Seq<AssistantDelta>) -> Seq<AssistantDeltaView> {
    d.map_values(|x: AssistantDelta| x@)
}

/// How the tool calls of one model response are run.
#[derive(Clone, Copy, Debug, PartialEq, Eq, Structural)]
pub enum ToolExecutionMode {
    /// One call after another, in order.
    Sequential,
    /// Concurrency-safe calls in bounded waves.
    Parallel,
}

/// Token accounting reported by a provider.
#[derive(Clone, Copy, Debug, PartialEq, Eq, Structural)]
pub struct TokenUsage {
    pub input_tokens: u64,
    pub output_tokens: u64,
    pub total_tokens: u64,
    pub cached_input_tokens: u64,
}

/// How much of the model context window is in use.
#[derive(Clone, Copy, Debug, PartialEq, Eq, Structural)]
pub struct ContextUsage {
    pub max_tokens: u64,
    pub used_tokens: u64,
    pub remaining_tokens: u64,
}

/// Generation settings for one request.
#[derive(Clone, Debug, PartialEq, Eq)]
pub struct GenerationConfig {
    /// A per-request model override.
    pub model: Option<String>,
    pub max_tokens: Option<u32>,
    pub reasoning_effort: Option<ReasoningEffort>,
}

/// A normalized request to a model provider.
#[derive(Clone, Debug, PartialEq, Eq)]
pub struct ProviderRequest {
    pub messages: Vec<Message>,
    pub tools: Vec<ToolDefinition>,
    pub config: GenerationConfig,
}

/// The assistant part of a complete provider response.
#[derive(Clone, Debug, PartialEq, Eq)]
pub struct AssistantMessage {
    pub content: Option<Content>,
    /// Reasoning text the model exposed, when it did.
    pub reasoning: Option<String>,
    pub tool_calls: Vec<ToolCall>,
    pub provider_state: Option<crate::json::Json>,
}

/// A complete provider response.
#[derive(Clone, Debug, PartialEq, Eq)]
pub struct ProviderResponse {
    pub message: AssistantMessage,
    pub usage: Option<TokenUsage>,
}

/// The directory a session is bound to.
#[derive(Clone, Debug, PartialEq, Eq)]
pub struct Workspace {
    pub root: String,
}

/// Execution mode of an agent.
#[derive(Clone, Copy, Debug, PartialEq, Eq, Structural)]
pub enum AgentMode {
    Default,
    Plan,
}

pub ghost struct ContentPartView {
    pub kind: int,
    pub text: Seq<char>,
    pub extra: Seq<char>,
    pub data: Seq<char>,
}

pub ghost enum ContentView {
    Text(Seq<char>),
    Parts(Seq<ContentPartView>),
}

pub ghost struct ToolCallView {
    pub id: Seq<char>,
    pub name: Seq<char>,
    pub arguments: Seq<char>,
}

pub ghost struct MessageView {
    pub role: Role,
    pub content: Option<ContentView>,
    pub tool_calls: Seq<ToolCallView>,
    pub tool_call_id: Option<Seq<char>>,
    pub is_error: bool,
    pub provider_state: Option<crate::json::JsonView>,
    pub tool_result_metadata: Option<Seq<char>>,
}

pub open spec fn opt_str_view(o: Option<String>) -> Option<Seq<char>> {
    match o {
        Some(s) => Some(s@),
        None => None,
    }
}

/// The view of an image part that points at `url`.
pub open spec fn image_part_view(url: Seq<char>) -> ContentPartView {
    ContentPartView { kind: 1, text: url, extra: Seq::empty(), data: Seq::empty() }
}

pub open spec fn parts_view(p: Seq<ContentPart>) -> Seq<ContentPartView> {
    p.map_values(|x: ContentPart| x@)
}

pub open spec fn tool_calls_view(c: Seq<ToolCall>) -> Seq<ToolCallView> {
    c.map_values(|x: ToolCall| x@)
}

pub ghost struct ToolDefinitionView {
    pub name: Seq<char>,
    pub description: Seq<char>,
    pub parameters: Seq<char>,
}

impl View for ToolDefinition {
    type V = ToolDefinitionView;

    open spec fn view(&self) -> ToolDefinitionView {
        ToolDefinitionView {
            name: self.name@,
            description: self.description@,
            parameters: self.parameters@,
        }
    }
}

impl ToolDefinition {
    /// A copy of this definition.
    pub fn duplicate(&self) -> (r: Self)
        ensures
            r@ == self@,
    {
        ToolDefinition {
            name: self.name.clone(),
            description: self.description.clone(),
            parameters: self.parameters.clone(),
        }
    }
}

pub open spec fn definitions_view(d: Seq<ToolDefinition>) -> Seq<ToolDefinitionView> {
    d.map_values(|x: ToolDefinition| x@)
}

impl View for ContentPart {
    type V = ContentPartView;

    open spec fn view(&self) -> ContentPartView {
        match self {
            ContentPart::Text { text } => ContentPartView {
                kind: 0,
                text: text@,
                extra: Seq::empty(),
                data: Seq::empty(),
            },
            ContentPart::ImageUrl { image_url } => ContentPartView {
                kind: 1,
                text: image_url.url@,
                extra: opt_detail_text(image_url.detail),
                data: Seq::empty(),
            },
            ContentPart::Document { document } => ContentPartView {
                kind: 2,
                text: document.filename@,
                extra: document.mime_type@,
                data: document.data@,
            },
        }
    }
}

impl View for Content {
    type V = ContentView;

    open spec fn view(&self) -> ContentView {
        match self {
            Content::Text(t) => ContentView::Text(t@),
            Content::Parts(p) => ContentView::Parts(parts_view(p@)),
        }
    }
}

impl View for ToolCall {
    type V = ToolCallView;

    open spec fn view(&self) -> ToolCallView {
        ToolCallView { id: self.id@, name: self.name@, arguments: self.arguments@ }
    }
}

pub open spec fn opt_content_view(o: Option<Content>) -> Option<ContentView> {
    match o {
        Some(c) => Some(c@),
        None => None,
    }
}

impl View for Message {
    type V = MessageView;

    open spec fn view(&self) -> MessageView {
        MessageView {
            role: self.role,
            content: opt_content_view(self.content),
            tool_calls: tool_calls_view(self.tool_calls@),
            tool_call_id: opt_str_view(self.tool_call_id),
            is_error: self.is_error,
            provider_state: crate::json::opt_json_view(self.provider_state),
            tool_result_metadata: opt_str_view(self.tool_result_metadata),
        }
    }
}

/// The view of a message of `role` holding only the text `text`.
pub open spec fn text_message(role: Role, text: Seq<char>) -> MessageView {
    MessageView {
        role,
        content: Some(ContentView::Text(text)),
        tool_calls: Seq::empty(),
        tool_call_id: None,
        is_error: false,
        provider_state: None,
        tool_result_metadata: None,
    }
}

/// The identifiers of the tool calls of `m`, in order.
pub open spec fn call_ids(m: Message) -> Seq<Seq<char>> {
    m.tool_calls@.map_values(|c: ToolCall| c.id@)
}

pub open spec fn messages_view(ms: Seq<Message>) -> Seq<MessageView> {
    ms.map_values(|m: Message| m@)
}

impl TokenUsage {
    /// Usage whose total is the saturating sum of input and output tokens.
    pub fn new(input_tokens: u64, output_tokens: u64, cached_input_tokens: u64) -> (r: Self)
        ensures
            r.input_tokens == input_tokens,
            r.output_tokens == output_tokens,
            r.total_tokens == if input_tokens + output_tokens > u64::MAX {
                u64::MAX as int
            } else {
                input_tokens + output_tokens
            },
            r.cached_input_tokens == cached_input_tokens,
    {
        TokenUsage {
            input_tokens,
            output_tokens,
            total_tokens: input_tokens.saturating_add(output_tokens),
            cached_input_tokens,
        }
    }

    /// Usage with an explicitly reported total.
    pub fn with_total(
        input_tokens: u64,
        output_tokens: u64,
        total_tokens: u64,
        cached_input_tokens: u64,
    ) -> (r: Self)
        ensures
            r == (TokenUsage { input_tokens, output_tokens, total_tokens, cached_input_tokens }),
    {
        TokenUsage { input_tokens, output_tokens, total_tokens, cached_input_tokens }
    }

    /// All counters zero.
    pub fn zero() -> (r: Self)
        ensures
            r == (TokenUsage {
                input_tokens: 0,
                output_tokens: 0,
                total_tokens: 0,
                cached_input_tokens: 0,
            }),
    {
        TokenUsage { input_tokens: 0, output_tokens: 0, total_tokens: 0, cached_input_tokens: 0 }
    }
}

impl Default for TokenUsage {
    fn default() -> (r: Self)
        ensures
            r == (TokenUsage {
                input_tokens: 0,
                output_tokens: 0,
                total_tokens: 0,
                cached_input_tokens: 0,
            }),
    {
        TokenUsage::zero()
    }
}

impl Default for GenerationConfig {
    fn default() -> (r: Self)
        ensures
            r.model is None,
            r.max_tokens is None,
            r.reasoning_effort is None,
    {
        GenerationConfig { model: None, max_tokens: None, reasoning_effort: None }
    }
}

impl GenerationConfig {
    /// Two configurations hold the same settings.
    pub open spec fn same_as(self, other: GenerationConfig) -> bool {
        &&& opt_str_view(self.model) == opt_str_view(other.model)
        &&& self.max_tokens == other.max_tokens
        &&& self.reasoning_effort == other.reasoning_effort
    }

    /// A copy of these settings.
    pub fn duplicate(&self) -> (r: Self)
        ensures
            r.same_as(*self),
    {
        GenerationConfig {
            model: copy_opt_str(&self.model),
            max_tokens: self.max_tokens,
            reasoning_effort: self.reasoning_effort,
        }
    }
}

impl Default for ToolExecutionMode {
    fn default() -> (r: Self)
        ensures
            r == ToolExecutionMode::Parallel,
    {
        ToolExecutionMode::Parallel
    }
}

/// The tool effects an agent mode permits: everything but plan coordination
/// by default; only observation, agent-local coordination and planning while
/// planning.
pub open spec fn mode_allows(mode: AgentMode, effect: crate::tool::ToolEffect) -> bool {
    match mode {
        AgentMode::Default => effect != crate::tool::ToolEffect::PlanOnly,
        AgentMode::Plan => effect == crate::tool::ToolEffect::ReadOnly || effect
            == crate::tool::ToolEffect::Internal || effect == crate::tool::ToolEffect::PlanOnly,
    }
}

impl AgentMode {
    pub fn allows(self, effect: crate::tool::ToolEffect) -> (r: bool)
        ensures
            r == mode_allows(self, effect),
    {
        match self {
            AgentMode::Default => match effect {
                crate::tool::ToolEffect::PlanOnly => false,
                _ => true,
            },
            AgentMode::Plan => match effect {
                crate::tool::ToolEffect::ReadOnly | crate::tool::ToolEffect::Internal
                | crate::tool::ToolEffect::PlanOnly => true,
                _ => false,
            },
        }
    }
}

/// `a + b`, saturating at `u64::MAX`.
pub open spec fn sat_add(a: u64, b: u64) -> u64 {
    if a + b > u64::MAX {
        u64::MAX
    } else {
        (a + b) as u64
    }
}

/// The field-wise saturating sum of two usages.
pub open spec fn usage_sum(a: TokenUsage, b: TokenUsage) -> TokenUsage {
    TokenUsage {
        input_tokens: sat_add(a.input_tokens, b.input_tokens),
        output_tokens: sat_add(a.output_tokens, b.output_tokens),
        total_tokens: sat_add(a.total_tokens, b.total_tokens),
        cached_input_tokens: sat_add(a.cached_input_tokens, b.cached_input_tokens),
    }
}

impl TokenUsage {
    /// Adds `other` to these counters, saturating each.
    pub fn plus(self, other: TokenUsage) -> (r: Self)
        ensures
            r == usage_sum(self, other),
    {
        TokenUsage {
            input_tokens: self.input_tokens.saturating_add(other.input_tokens),
            output_tokens: self.output_tokens.saturating_add(other.output_tokens),
            total_tokens: self.total_tokens.saturating_add(other.total_tokens),
            cached_input_tokens: self.cached_input_tokens.saturating_add(other.cached_input_tokens),
        }
    }
}

/// The context window in use after a response with `usage`: its total
/// tokens, and what is left of `max_tokens`.
pub open spec fn usage_in_window(max_tokens: u64, usage: TokenUsage) -> ContextUsage {
    ContextUsage {
        max_tokens,
        used_tokens: usage.total_tokens,
        remaining_tokens: if usage.total_tokens <= max_tokens {
            (max_tokens - usage.total_tokens) as u64
        } else {
            0
        },
    }
}

impl ContextUsage {
    pub fn from_usage(max_tokens: u64, usage: TokenUsage) -> (r: Self)
        ensures
            r == usage_in_window(max_tokens, usage),
    {
        ContextUsage {
            max_tokens,
            used_tokens: usage.total_tokens,
            remaining_tokens: max_tokens.saturating_sub(usage.total_tokens),
        }
    }
}

impl Default for AgentMode {
    fn default() -> (r: Self)
        ensures
            r == AgentMode::Default,
    {
        AgentMode::Default
    }
}

impl ContentPart {
    pub fn text(text: &str) -> (r: Self)
        ensures
            r matches ContentPart::Text { text: t } && t@ == text@,
    {
        ContentPart::Text { text: owned(text) }
    }

    pub fn image(image_url: ImageUrl) -> (r: Self)
        ensures
            r == (ContentPart::ImageUrl { image_url }),
    {
        ContentPart::ImageUrl { image_url }
    }

    pub fn document(document: Document) -> (r: Self)
        ensures
            r == (ContentPart::Document { document }),
    {
        ContentPart::Document { document }
    }
}

impl Content {
    pub fn text(text: &str) -> (r: Self)
        ensures
            r matches Content::Text(t) && t@ == text@,
    {
        Content::Text(owned(text))
    }

    pub fn parts(parts: Vec<ContentPart>) -> (r: Self)
        ensures
            r == Content::Parts(parts),
    {
        Content::Parts(parts)
    }
}

impl Message {
    fn with_role(role: Role, content: Option<Content>) -> (m: Self)
        ensures
            m.role == role,
            m.content == content,
            m.tool_calls@.len() == 0,
            m.tool_call_id is None,
            !m.is_error,
            m.provider_state is None,
            m.tool_result_metadata is None,
    {
        Message {
            role,
            content,
            tool_calls: Vec::new(),
            tool_call_id: None,
            is_error: false,
            provider_state: None,
            tool_result_metadata: None,
        }
    }

    /// A system message with text content.
    pub fn system(text: &str) -> (m: Self)
        ensures
            m.role == Role::System,
            m.content matches Some(Content::Text(t)) && t@ == text@,
            m@ == text_message(Role::System, text@),
            m.tool_calls@.len() == 0,
            m.tool_call_id is None,
            !m.is_error,
            m.provider_state is None,
            m.tool_result_metadata is None,
    {
        let m = Message::with_role(Role::System, Some(Content::text(text)));
        assert(tool_calls_view(m.tool_calls@) =~= Seq::empty());
        m
    }

    /// A user message with text content.
    pub fn user(text: &str) -> (m: Self)
        ensures
            m.role == Role::User,
            m.content matches Some(Content::Text(t)) && t@ == text@,
            m@ == text_message(Role::User, text@),
            m.tool_calls@.len() == 0,
            m.tool_call_id is None,
            !m.is_error,
            m.provider_state is None,
            m.tool_result_metadata is None,
    {
        let m = Message::with_role(Role::User, Some(Content::text(text)));
        assert(tool_calls_view(m.tool_calls@) =~= Seq::empty());
        m
    }

    /// A user message with the given content.
    pub fn user_content(content: Content) -> (m: Self)
        ensures
            m.role == Role::User,
            m.content == Some(content),
            m.tool_calls@.len() == 0,
            m.tool_call_id is None,
            !m.is_error,
            m.provider_state is None,
            m.tool_result_metadata is None,
    {
        Message::with_role(Role::User, Some(content))
    }

    /// A tool result answering `call_id` with rich content and metadata.
    pub fn tool_result_content(
        call_id: String,
        content: Content,
        is_error: bool,
        metadata: Option<String>,
    ) -> (m: Self)
        ensures
            m.role == Role::Tool,
            m.content == Some(content),
            m.tool_calls@.len() == 0,
            m.tool_call_id == Some(call_id),
            m.is_error == is_error,
            m.provider_state is None,
            m.tool_result_metadata == metadata,
    {
        Message {
            role: Role::Tool,
            content: Some(content),
            tool_calls: Vec::new(),
            tool_call_id: Some(call_id),
            is_error,
            provider_state: None,
            tool_result_metadata: metadata,
        }
    }

    /// The text of a message whose content is plain text.
    pub fn text_content(&self) -> (r: Option<&str>)
        ensures
            match self.content {
                Some(Content::Text(t)) => r matches Some(s) && s@ == t@,
                _ => r is None,
            },
    {
        match &self.content {
            Some(Content::Text(t)) => Some(t.as_str()),
            _ => None,
        }
    }

    /// A user message with multimodal content.
    pub fn user_parts(parts: Vec<ContentPart>) -> (m: Self)
        ensures
            m.role == Role::User,
            m.content == Some(Content::Parts(parts)),
            m.tool_calls@.len() == 0,
            m.tool_call_id is None,
            !m.is_error,
            m.provider_state is None,
            m.tool_result_metadata is None,
    {
        Message::with_role(Role::User, Some(Content::Parts(parts)))
    }

    /// An assistant message.
    pub fn assistant(content: Option<Content>, tool_calls: Vec<ToolCall>) -> (m: Self)
        ensures
            m.role == Role::Assistant,
            m.content == content,
            m.tool_calls == tool_calls,
            m.tool_call_id is None,
            !m.is_error,
            m.provider_state is None,
            m.tool_result_metadata is None,
    {
        Message {
            role: Role::Assistant,
            content,
            tool_calls,
            tool_call_id: None,
            is_error: false,
            provider_state: None,
            tool_result_metadata: None,
        }
    }

    /// A tool result with text content answering the call `call_id`.
    pub fn tool_result(call_id: &str, text: &str, is_error: bool) -> (m: Self)
        ensures
            m.role == Role::Tool,
            m.content matches Some(Content::Text(t)) && t@ == text@,
            m.tool_calls@.len() == 0,
            m.tool_call_id matches Some(id) && id@ == call_id@,
            m.is_error == is_error,
            m.provider_state is None,
            m.tool_result_metadata is None,
    {
        Message {
            role: Role::Tool,
            content: Some(Content::text(text)),
            tool_calls: Vec::new(),
            tool_call_id: Some(owned(call_id)),
            is_error,
            provider_state: None,
            tool_result_metadata: None,
        }
    }
}

impl AssistantMessage {
    /// This response as a message of the conversation.
    pub fn into_message(self) -> (m: Message)
        ensures
            m.role == Role::Assistant,
            m.content == self.content,
            m.tool_calls == self.tool_calls,
            m.tool_call_id is None,
            !m.is_error,
            m.provider_state == self.provider_state,
            m.tool_result_metadata is None,
    {
        Message {
            role: Role::Assistant,
            content: self.content,
            tool_calls: self.tool_calls,
            tool_call_id: None,
            is_error: false,
            provider_state: self.provider_state,
            tool_result_metadata: None,
        }
    }
}

impl ToolCall {
    pub fn new(id: &str, name: &str, arguments: &str) -> (c: Self)
        ensures
            c.id@ == id@,
            c.name@ == name@,
            c.arguments@ == arguments@,
    {
        ToolCall { id: owned(id), name: owned(name), arguments: owned(arguments) }
    }
}

impl ImageUrl {
    /// An image at `url`, with no detail requested.
    pub fn new(url: &str) -> (r: Self)
        ensures
            r.url@ == url@,
            r.detail is None,
    {
        ImageUrl { url: owned(url), detail: None }
    }

    /// This image with `detail` requested.
    pub fn with_detail(self, detail: ImageDetail) -> (r: Self)
        ensures
            r.url == self.url,
            r.detail == Some(detail),
    {
        ImageUrl { detail: Some(detail), ..self }
    }
}

impl Workspace {
    pub fn new(root: &str) -> (r: Self)
        ensures
            r.root@ == root@,
    {
        Workspace { root: owned(root) }
    }

    /// A copy of this workspace.
    pub fn duplicate(&self) -> (r: Self)
        ensures
            r == *self,
    {
        Workspace { root: self.root.clone() }
    }
}

/// Compares two optional strings by their characters.
pub fn opt_str_eq(a: &Option<String>, b: &Option<String>) -> (r: bool)
    ensures
        r == (opt_str_view(*a) == opt_str_view(*b)),
{
    match (a, b) {
        (Some(x), Some(y)) => string_eq(x, y),
        (None, None) => true,
        _ => false,
    }
}

pub fn content_part_eq(a: &ContentPart, b: &ContentPart) -> (r: bool)
    ensures
        r == (a@ == b@),
{
    match (a, b) {
        (ContentPart::Text { text: x }, ContentPart::Text { text: y }) => string_eq(x, y),
        (ContentPart::ImageUrl { image_url: x }, ContentPart::ImageUrl { image_url: y }) => {
            let same_detail = match (x.detail, y.detail) {
                (None, None) => true,
                (Some(d), Some(e)) => d == e,
                _ => false,
            };
            proof {
                reveal_strlit("auto");
                reveal_strlit("low");
                reveal_strlit("high");
                assert(same_detail == (opt_detail_text(x.detail) == opt_detail_text(y.detail))) by {
                    if opt_detail_text(x.detail) == opt_detail_text(y.detail) {
                        assert(opt_detail_text(x.detail).len() == opt_detail_text(y.detail).len());
                        if opt_detail_text(x.detail).len() == 4 {
                            assert(opt_detail_text(x.detail)[0] == opt_detail_text(y.detail)[0]);
                        }
                    }
                }
            }
            string_eq(&x.url, &y.url) && same_detail
        },
        (ContentPart::Document { document: x }, ContentPart::Document { document: y }) => string_eq(
            &x.filename,
            &y.filename,
        ) && string_eq(&x.mime_type, &y.mime_type) && string_eq(&x.data, &y.data),
        _ => false,
    }
}

pub fn content_eq(a: &Content, b: &Content) -> (r: bool)
    ensures
        r == (a@ == b@),
{
    match (a, b) {
        (Content::Text(x), Content::Text(y)) => string_eq(x, y),
        (Content::Parts(x), Content::Parts(y)) => {
            if x.len() != y.len() {
                assert(parts_view(x@).len() != parts_view(y@).len());
                return false;
            }
            let ghost xv = parts_view(x@);
            let ghost yv = parts_view(y@);
            let mut i: usize = 0;
            while i < x.len()
                invariant
                    x.len() == y.len(),
                    i <= x.len(),
                    xv == parts_view(x@),
                    yv == parts_view(y@),
                    a@ == ContentView::Parts(xv),
                    b@ == ContentView::Parts(yv),
                    forall|j: int| 0 <= j < i ==> xv[j] == yv[j],
                decreases x.len() - i,
            {
                if !content_part_eq(&x[i], &y[i]) {
                    assert(xv[i as int] != yv[i as int]);
                    return false;
                }
                i += 1;
            }
            assert(xv =~= yv);
            true
        },
        _ => false,
    }
}

pub fn opt_content_eq(a: &Option<Content>, b: &Option<Content>) -> (r: bool)
    ensures
        r == (opt_content_view(*a) == opt_content_view(*b)),
{
    match (a, b) {
        (Some(x), Some(y)) => content_eq(x, y),
        (None, None) => true,
        _ => false,
    }
}

pub fn tool_call_eq(a: &ToolCall, b: &ToolCall) -> (r: bool)
    ensures
        r == (a@ == b@),
{
    string_eq(&a.id, &b.id) && string_eq(&a.name, &b.name) && string_eq(&a.arguments, &b.arguments)
}

/// Compares two messages by their views.
pub fn message_eq(a: &Message, b: &Message) -> (r: bool)
    ensures
        r == (a@ == b@),
{
    if a.role != b.role || a.is_error != b.is_error {
        return false;
    }
    if !opt_content_eq(&a.content, &b.content) || !opt_str_eq(&a.tool_call_id, &b.tool_call_id)
        || !crate::json::opt_json_eq(&a.provider_state, &b.provider_state) || !opt_str_eq(
        &a.tool_result_metadata,
        &b.tool_result_metadata,
    ) {
        return false;
    }
    let ghost xv = tool_calls_view(a.tool_calls@);
    let ghost yv = tool_calls_view(b.tool_calls@);
    if a.tool_calls.len() != b.tool_calls.len() {
        assert(xv.len() != yv.len());
        return false;
    }
    let mut i: usize = 0;
    while i < a.tool_calls.len()
        invariant
            a.tool_calls.len() == b.tool_calls.len(),
            i <= a.tool_calls.len(),
            xv == tool_calls_view(a.tool_calls@),
            yv == tool_calls_view(b.tool_calls@),
            forall|j: int| 0 <= j < i ==> xv[j] == yv[j],
        decreases a.tool_calls.len() - i,
    {
        if !tool_call_eq(&a.tool_calls[i], &b.tool_calls[i]) {
            assert(xv[i as int] != yv[i as int]);
            return false;
        }
        i += 1;
    }
    assert(xv =~= yv);
    true
}

/// A copy of an optional string.
pub fn copy_opt_str(o: &Option<String>) -> (r: Option<String>)
    ensures
        r == *o,
{
    match o {
        Some(s) => Some(s.clone()),
        None => None,
    }
}

impl ContentPart {
    /// A copy of this part.
    pub fn duplicate(&self) -> (r: Self)
        ensures
            r == *self,
    {
        match self {
            ContentPart::Text { text } => ContentPart::Text { text: text.clone() },
            ContentPart::ImageUrl { image_url } => ContentPart::ImageUrl {
                image_url: ImageUrl { url: image_url.url.clone(), detail: image_url.detail },
            },
            ContentPart::Document { document } => ContentPart::Document {
                document: Document {
                    filename: document.filename.clone(),
                    mime_type: document.mime_type.clone(),
                    data: document.data.clone(),
                },
            },
        }
    }
}

/// A copy of a list of parts.
pub fn copy_parts(parts: &Vec<ContentPart>) -> (r: Vec<ContentPart>)
    ensures
        r@ == parts@,
{
    let mut r: Vec<ContentPart> = Vec::new();
    let mut i: usize = 0;
    while i < parts.len()
        invariant
            i <= parts.len(),
            r@ == parts@.take(i as int),
        decreases parts.len() - i,
    {
        r.push(parts[i].duplicate());
        i += 1;
        assert(r@ == parts@.take(i as int));
    }
    assert(parts@.take(parts.len() as int) == parts@);
    r
}

impl Content {
    /// A copy of this content.
    pub fn duplicate(&self) -> (r: Self)
        ensures
            r@ == self@,
    {
        match self {
            Content::Text(t) => Content::Text(t.clone()),
            Content::Parts(p) => Content::Parts(copy_parts(p)),
        }
    }

    /// The text of text content; `None` for multimodal parts.
    pub fn into_text(self) -> (r: Option<String>)
        ensures
            match self {
                Content::Text(t) => r == Some(t),
                Content::Parts(_) => r is None,
            },
    {
        match self {
            Content::Text(t) => Some(t),
            Content::Parts(_) => None,
        }
    }
}

/// A copy of optional content.
pub fn copy_opt_content(o: &Option<Content>) -> (r: Option<Content>)
    ensures
        opt_content_view(r) == opt_content_view(*o),
{
    match o {
        Some(c) => Some(c.duplicate()),
        None => None,
    }
}

impl ToolCall {
    /// A copy of this call.
    pub fn duplicate(&self) -> (r: Self)
        ensures
            r == *self,
    {
        ToolCall { id: self.id.clone(), name: self.name.clone(), arguments: self.arguments.clone() }
    }
}

/// A copy of a list of tool calls.
pub fn copy_tool_calls(calls: &Vec<ToolCall>) -> (r: Vec<ToolCall>)
    ensures
        r@ == calls@,
{
    let mut r: Vec<ToolCall> = Vec::new();
    let mut i: usize = 0;
    while i < calls.len()
        invariant
            i <= calls.len(),
            r@ == calls@.take(i as int),
        decreases calls.len() - i,
    {
        r.push(calls[i].duplicate());
        i += 1;
        assert(r@ == calls@.take(i as int));
    }
    assert(calls@.take(calls.len() as int) == calls@);
    r
}

impl Message {
    /// A copy of this message.
    pub fn duplicate(&self) -> (r: Self)
        ensures
            r@ == self@,
    {
        Message {
            role: self.role,
            content: copy_opt_content(&self.content),
            tool_calls: copy_tool_calls(&self.tool_calls),
            tool_call_id: copy_opt_str(&self.tool_call_id),
            is_error: self.is_error,
            provider_state: crate::json::copy_opt_json(&self.provider_state),
            tool_result_metadata: copy_opt_str(&self.tool_result_metadata),
        }
    }
}

/// A copy of `messages[from..to]`.
pub fn copy_messages(messages: &Vec<Message>, from: usize, to: usize) -> (r: Vec<Message>)
    requires
        from <= to <= messages.len(),
    ensures
        r@.len() == to - from,
        forall|k: int| 0 <= k < r@.len() ==> (#[trigger] r@[k])@ == messages@[from + k]@,
{
    let mut r: Vec<Message> = Vec::new();
    let mut i: usize = from;
    while i < to
        invariant
            from <= i <= to <= messages.len(),
            r@.len() == i - from,
            forall|k: int| 0 <= k < r@.len() ==> (#[trigger] r@[k])@ == messages@[from + k]@,
        decreases to - i,
    {
        r.push(messages[i].duplicate());
        i += 1;
    }
    r
}

} // verus!
