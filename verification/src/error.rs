//! Error values shared across the library.
use vstd::prelude::*;

use crate::text::{
    ascii_lower_seq, chars_of, contains_chars, contains_seq, lower_ascii_chars, owned, push_char,
    push_chars,
};
use crate::time::TimeSpan;

verus! {

broadcast use vstd::string::group_string_axioms;

/// A lifecycle hook failed.
#[derive(Clone, Debug, PartialEq, Eq)]
pub struct HookError {
    message: String,
}

impl HookError {
    pub fn new(message: String) -> (r: Self)
        ensures
            r.spec_message() == message@,
    {
        HookError { message }
    }

    pub closed spec fn spec_message(&self) -> Seq<char> {
        self.message@
    }

    /// The error text.
    pub fn message(&self) -> (r: &str)
        ensures
            r@ == self.spec_message(),
    {
        self.message.as_str()
    }
}

/// A context-compaction strategy failed.
#[derive(Clone, Debug, PartialEq, Eq)]
pub struct ContextCompactionError {
    message: String,
}

impl ContextCompactionError {
    pub fn new(message: String) -> (r: Self)
        ensures
            r.spec_message() == message@,
    {
        ContextCompactionError { message }
    }

    pub closed spec fn spec_message(&self) -> Seq<char> {
        self.message@
    }

    /// The error text.
    pub fn message(&self) -> (r: &str)
        ensures
            r@ == self.spec_message(),
    {
        self.message.as_str()
    }
}

/// A tool invocation failed.
#[derive(Clone, Debug, PartialEq, Eq)]
pub struct ToolError {
    message: String,
}

impl ToolError {
    pub fn new(message: String) -> (r: Self)
        ensures
            r.spec_message() == message@,
    {
        ToolError { message }
    }

    pub closed spec fn spec_message(&self) -> Seq<char> {
        self.message@
    }

    /// The error text.
    pub fn message(&self) -> (r: &str)
        ensures
            r@ == self.spec_message(),
    {
        self.message.as_str()
    }
}

/// Failures of the MCP client.
#[derive(Clone, Debug, PartialEq, Eq)]
pub enum McpError {
    Spawn(String),
    ConnectTimeout { timeout: TimeSpan },
    Initialize { message: String },
    MissingServerInfo,
    RequestTimeout { operation: String, timeout: TimeSpan },
    Request { operation: String, message: String },
    InvalidHttpHeader { name: String, message: String },
    DuplicateToolName(String),
    Close(String),
    NoReconnectSpec,
    ToolSetChanged { server: String, previous: usize, current: usize },
}

/// A tool call whose streamed arguments could not be parsed as JSON.
#[derive(Clone, Debug, PartialEq, Eq)]
pub struct InvalidToolCallDetails {
    /// Provider-issued tool call id needed for tool-result pairing.
    pub id: String,
    pub name: String,
    pub parse_error: String,
    /// Truncated malformed payload kept for diagnostics and model feedback.
    pub raw_arguments: String,
    pub provider_state: Option<crate::json::Json>,
}

/// Failures of a model provider.
#[derive(Clone, Debug, PartialEq, Eq)]
pub enum ProviderError {
    MissingApiKey,
    InvalidConfiguration(String),
    InvalidRequest(String),
    /// An HTTP transport failure, with its description.
    Http(String),
    RequestTimeout { timeout: TimeSpan },
    Stream(String),
    StreamIdleTimeout { timeout: TimeSpan },
    Api { status: u16, body: String },
    ContextLengthExceeded { message: String },
    InvalidResponse(String),
    InvalidToolArguments(InvalidToolCallDetails),
    Hook(HookError),
}

pub const MAX_RAW_ARGUMENT_SNIPPET_CHARS: usize = 500;

/// The phrases that mark a context-window rejection.
pub open spec fn context_length_phrases() -> Seq<Seq<char>> {
    seq![
        "context_length_exceeded"@,
        "context_window_exceeded"@,
        "context length exceeded"@,
        "maximum context length"@,
        "context window exceeded"@,
        "exceeds the context window"@,
        "exceeded the context window"@,
        "prompt is too long"@,
        "prompt_too_long"@,
        "input is too long"@,
        "input_too_long"@,
        "input tokens exceed"@,
        "too many tokens for"@,
    ]
}

/// `message`, compared without ASCII case, names a context-window rejection.
pub open spec fn is_context_length_message(message: Seq<char>) -> bool {
    exists|i: int|
        0 <= i < context_length_phrases().len() && contains_seq(
            ascii_lower_seq(message),
            #[trigger] context_length_phrases()[i],
        )
}

fn lower_contains(lower: &Vec<char>, phrase: &str) -> (r: bool)
    ensures
        r == contains_seq(lower@, phrase@),
{
    let p = chars_of(phrase);
    contains_chars(lower, &p)
}

/// Returns whether `message` names a context-window rejection.
pub fn looks_like_context_length_error(message: &str) -> (r: bool)
    ensures
        r == is_context_length_message(message@),
{
    let chars = chars_of(message);
    let lower = lower_ascii_chars(&chars);
    let ghost l = lower@;
    let ghost ps = context_length_phrases();
    let r = lower_contains(&lower, "context_length_exceeded") || lower_contains(
        &lower,
        "context_window_exceeded",
    ) || lower_contains(&lower, "context length exceeded") || lower_contains(
        &lower,
        "maximum context length",
    ) || lower_contains(&lower, "context window exceeded") || lower_contains(
        &lower,
        "exceeds the context window",
    ) || lower_contains(&lower, "exceeded the context window") || lower_contains(
        &lower,
        "prompt is too long",
    ) || lower_contains(&lower, "prompt_too_long") || lower_contains(&lower, "input is too long")
        || lower_contains(&lower, "input_too_long") || lower_contains(&lower, "input tokens exceed")
        || lower_contains(&lower, "too many tokens for");
    proof {
        if r {
            if contains_seq(l, ps[0]) {
                assert(0 <= 0 < ps.len() && contains_seq(l, ps[0]));
            } else if contains_seq(l, ps[1]) {
                assert(contains_seq(l, ps[1]));
            } else if contains_seq(l, ps[2]) {
                assert(contains_seq(l, ps[2]));
            } else if contains_seq(l, ps[3]) {
                assert(contains_seq(l, ps[3]));
            } else if contains_seq(l, ps[4]) {
                assert(contains_seq(l, ps[4]));
            } else if contains_seq(l, ps[5]) {
                assert(contains_seq(l, ps[5]));
            } else if contains_seq(l, ps[6]) {
                assert(contains_seq(l, ps[6]));
            } else if contains_seq(l, ps[7]) {
                assert(contains_seq(l, ps[7]));
            } else if contains_seq(l, ps[8]) {
                assert(contains_seq(l, ps[8]));
            } else if contains_seq(l, ps[9]) {
                assert(contains_seq(l, ps[9]));
            } else if contains_seq(l, ps[10]) {
                assert(contains_seq(l, ps[10]));
            } else if contains_seq(l, ps[11]) {
                assert(contains_seq(l, ps[11]));
            } else {
                assert(contains_seq(l, ps[12]));
            }
        } else {
            assert forall|i: int| 0 <= i < ps.len() implies !contains_seq(l, #[trigger] ps[i]) by {
                if i == 0 {
                } else if i == 1 {
                } else if i == 2 {
                } else if i == 3 {
                } else if i == 4 {
                } else if i == 5 {
                } else if i == 6 {
                } else if i == 7 {
                } else if i == 8 {
                } else if i == 9 {
                } else if i == 10 {
                } else if i == 11 {
                } else {
                }
            }
        }
    }
    r
}

/// The diagnostic snippet kept of a malformed tool-argument payload: the
/// payload itself when it has at most 500 characters, otherwise its first
/// 499 characters and an ellipsis.
pub open spec fn raw_argument_snippet(raw: Seq<char>) -> Seq<char> {
    if raw.len() <= MAX_RAW_ARGUMENT_SNIPPET_CHARS {
        raw
    } else {
        raw.take(MAX_RAW_ARGUMENT_SNIPPET_CHARS - 1).push('…')
    }
}

pub fn truncate_raw_arguments(raw_arguments: &str) -> (r: String)
    ensures
        r@ == raw_argument_snippet(raw_arguments@),
{
    let chars = chars_of(raw_arguments);
    if chars.len() <= MAX_RAW_ARGUMENT_SNIPPET_CHARS {
        return owned(raw_arguments);
    }
    let mut truncated = String::new();
    push_chars(&mut truncated, &chars, 0, MAX_RAW_ARGUMENT_SNIPPET_CHARS - 1);
    push_char(&mut truncated, '…');
    truncated
}

impl ProviderError {
    /// The typed context-window rejection, or an API, request, stream or
    /// response error whose text names one.
    pub open spec fn spec_is_context_length_exceeded(&self) -> bool {
        match self {
            ProviderError::ContextLengthExceeded { .. } => true,
            ProviderError::Api { body, .. } => is_context_length_message(body@),
            ProviderError::InvalidRequest(body) => is_context_length_message(body@),
            ProviderError::Stream(body) => is_context_length_message(body@),
            ProviderError::InvalidResponse(body) => is_context_length_message(body@),
            _ => false,
        }
    }

    pub fn context_length_exceeded(message: String) -> (r: Self)
        ensures
            r matches ProviderError::ContextLengthExceeded { message: m } && m@ == message@,
    {
        ProviderError::ContextLengthExceeded { message }
    }

    /// Whether this error represents a provider context-window rejection:
    /// the typed variant, or an API, request, stream or response error whose
    /// text names one.
    pub fn is_context_length_exceeded(&self) -> (r: bool)
        ensures
            r == self.spec_is_context_length_exceeded(),
    {
        match self {
            ProviderError::ContextLengthExceeded { .. } => true,
            ProviderError::Api { body, .. } => looks_like_context_length_error(body.as_str()),
            ProviderError::InvalidRequest(body) => looks_like_context_length_error(body.as_str()),
            ProviderError::Stream(body) => looks_like_context_length_error(body.as_str()),
            ProviderError::InvalidResponse(body) => looks_like_context_length_error(body.as_str()),
            _ => false,
        }
    }

    /// Classifies an unsuccessful HTTP response: a context-window rejection
    /// when its body says so (reported as `HTTP <status>: <body>`), an API
    /// error otherwise.
    pub fn from_api_response(status: u16, body: String) -> (r: Self)
        ensures
            is_context_length_message(body@) ==> (r matches ProviderError::ContextLengthExceeded {
                message: m,
            } && m@ == "HTTP "@ + crate::text::decimal(status as nat) + ": "@ + body@),
            !is_context_length_message(body@) ==> (r matches ProviderError::Api { status: s, body: b }
                && s == status && b == body),
    {
        if looks_like_context_length_error(body.as_str()) {
            let mut m = crate::text::owned("HTTP ");
            crate::text::push_decimal(&mut m, status as u64);
            crate::text::push_str(&mut m, ": ");
            crate::text::push_str(&mut m, body.as_str());
            ProviderError::context_length_exceeded(m)
        } else {
            ProviderError::Api { status, body }
        }
    }

    /// Classifies an error reported in a stream: a context-window rejection
    /// or an invalid response.
    pub fn from_stream_response_error(message: String) -> (r: Self)
        ensures
            is_context_length_message(message@) ==> (r matches ProviderError::ContextLengthExceeded {
                message: m,
            } && m@ == message@),
            !is_context_length_message(message@) ==> (r matches ProviderError::InvalidResponse(m)
                && m@ == message@),
    {
        if looks_like_context_length_error(message.as_str()) {
            ProviderError::context_length_exceeded(message)
        } else {
            ProviderError::InvalidResponse(message)
        }
    }

    /// An [`ProviderError::InvalidToolArguments`] whose payload is cut to a
    /// bounded snippet.
    pub fn invalid_tool_arguments(
        id: String,
        name: String,
        raw_arguments: &str,
        parse_error: String,
        provider_state: Option<crate::json::Json>,
    ) -> (r: Self)
        ensures
            r matches ProviderError::InvalidToolArguments(d) && d.id == id && d.name == name
                && d.parse_error == parse_error && d.raw_arguments@ == raw_argument_snippet(
                raw_arguments@,
            ) && d.provider_state == provider_state,
    {
        ProviderError::InvalidToolArguments(
            InvalidToolCallDetails {
                id,
                name,
                parse_error,
                raw_arguments: truncate_raw_arguments(raw_arguments),
                provider_state,
            },
        )
    }
}


/// The text of a span as `std::time::Duration` shows it.
pub open spec fn span_text(t: TimeSpan) -> Seq<char> {
    crate::time::duration_debug_text(
        (t.spec_nanos() / crate::time::NANOS_PER_SEC as nat) as u64,
        (t.spec_nanos() % crate::time::NANOS_PER_SEC as nat) as u32,
    )
}

fn span_string(t: TimeSpan) -> (r: String)
    ensures
        r@ == span_text(t),
{
    crate::time::duration_debug(t.as_secs(), t.subsec_nanos())
}

/// The message a provider error shows; an API failure shows its numeric
/// status.
pub open spec fn provider_error_text(e: ProviderError) -> Seq<char> {
    match e {
        ProviderError::MissingApiKey => "API key is empty"@,
        ProviderError::InvalidConfiguration(m) => "invalid provider configuration: "@ + m@,
        ProviderError::InvalidRequest(m) => "request cannot be represented by this provider: "@ + m@,
        ProviderError::Http(m) => "provider HTTP request failed: "@ + m@,
        ProviderError::RequestTimeout { timeout } => "provider HTTP request timed out after "@
            + span_text(timeout),
        ProviderError::Stream(m) => "provider stream failed: "@ + m@,
        ProviderError::StreamIdleTimeout { timeout } => "provider stream was idle for "@ + span_text(
            timeout,
        ),
        ProviderError::Api { status, body } => "provider API returned "@ + crate::text::decimal(
            status as nat,
        ) + ": "@ + body@,
        ProviderError::ContextLengthExceeded { message } => "provider context length exceeded: "@
            + message@,
        ProviderError::InvalidResponse(m) => "invalid provider response: "@ + m@,
        ProviderError::InvalidToolArguments(d) => "invalid tool arguments for `"@ + d.name@ + "`: "@
            + d.parse_error@,
        ProviderError::Hook(h) => "provider hook failed: "@ + h.spec_message(),
    }
}

impl ProviderError {
    /// The message this error shows.
    pub fn describe(&self) -> (r: String)
        ensures
            r@ == provider_error_text(*self),
    {
        let mut out = String::new();
        match self {
            ProviderError::MissingApiKey => crate::text::push_str(&mut out, "API key is empty"),
            ProviderError::InvalidConfiguration(m) => {
                crate::text::push_str(&mut out, "invalid provider configuration: ");
                crate::text::push_str(&mut out, m.as_str());
            },
            ProviderError::InvalidRequest(m) => {
                crate::text::push_str(&mut out, "request cannot be represented by this provider: ");
                crate::text::push_str(&mut out, m.as_str());
            },
            ProviderError::Http(m) => {
                crate::text::push_str(&mut out, "provider HTTP request failed: ");
                crate::text::push_str(&mut out, m.as_str());
            },
            ProviderError::RequestTimeout { timeout } => {
                crate::text::push_str(&mut out, "provider HTTP request timed out after ");
                let t = span_string(*timeout);
                crate::text::push_str(&mut out, t.as_str());
            },
            ProviderError::Stream(m) => {
                crate::text::push_str(&mut out, "provider stream failed: ");
                crate::text::push_str(&mut out, m.as_str());
            },
            ProviderError::StreamIdleTimeout { timeout } => {
                crate::text::push_str(&mut out, "provider stream was idle for ");
                let t = span_string(*timeout);
                crate::text::push_str(&mut out, t.as_str());
            },
            ProviderError::Api { status, body } => {
                crate::text::push_str(&mut out, "provider API returned ");
                crate::text::push_decimal(&mut out, *status as u64);
                crate::text::push_str(&mut out, ": ");
                crate::text::push_str(&mut out, body.as_str());
            },
            ProviderError::ContextLengthExceeded { message } => {
                crate::text::push_str(&mut out, "provider context length exceeded: ");
                crate::text::push_str(&mut out, message.as_str());
            },
            ProviderError::InvalidResponse(m) => {
                crate::text::push_str(&mut out, "invalid provider response: ");
                crate::text::push_str(&mut out, m.as_str());
            },
            ProviderError::InvalidToolArguments(d) => {
                crate::text::push_str(&mut out, "invalid tool arguments for `");
                crate::text::push_str(&mut out, d.name.as_str());
                crate::text::push_str(&mut out, "`: ");
                crate::text::push_str(&mut out, d.parse_error.as_str());
            },
            ProviderError::Hook(h) => {
                crate::text::push_str(&mut out, "provider hook failed: ");
                crate::text::push_str(&mut out, h.message());
            },
        }
        out
    }
}

} // verus!
