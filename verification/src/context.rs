//! Context compaction: when the transcript is summarized, what the summary
//! request holds, and how the summary replaces the transcript.
use vstd::prelude::*;

use crate::error::{ContextCompactionError, ProviderError};
use crate::text::{
    all_ws, byte_len, chars_of, find_in_rest, first_match, occurs_at, owned, push_str, string_of,
    trim, trim_bounds, utf8_len,
};
use crate::types::{
    parts_view, Content, ContentPart, ContentPartView, ContentView, ContextUsage, GenerationConfig,
    copy_messages, text_message, Message, MessageView, ProviderRequest, ProviderResponse, ReasoningEffort, Role,
    TokenUsage,
};

verus! {

broadcast use vstd::string::group_string_axioms;

/// Maximum output budget of the default full-conversation summarizer.
pub const DEFAULT_CONTEXT_COMPACTION_MAX_SUMMARY_TOKENS: u32 = 20_000;

/// Headroom retained after reserving the summarizer's output budget.
pub const DEFAULT_CONTEXT_COMPACTION_BUFFER_TOKENS: u64 = 13_000;

/// Maximum number of prompt-too-long truncation retries for the summary call.
pub const DEFAULT_CONTEXT_COMPACTION_MAX_RETRIES: usize = 3;

/// The system message that marks where a compacted transcript begins.
pub const DEFAULT_CONTEXT_COMPACTION_BOUNDARY_MESSAGE: &'static str = "Conversation compacted";

pub const SUMMARY_SYSTEM_PROMPT: &'static str =
    "You are a helpful AI assistant tasked with summarizing conversations.";

pub const COMPACT_RETRY_MARKER: &'static str =
    "[earlier conversation truncated while recovering the compaction request]";

pub const ADDITIONAL_INSTRUCTIONS_HEADER: &'static str =
    "\n\nAdditional compaction instructions:\n";

pub const CONTINUATION_PREFIX: &'static str =
    "This session is being continued from an earlier conversation that reached its context limit. The summary below is the durable context for the earlier conversation.\n\n";

pub const CONTINUATION_SUFFIX: &'static str =
    "\n\nContinue from where the conversation stopped. Do not ask the user to repeat information, do not recap or acknowledge this summary, and do not preface the continuation. Resume the latest task directly as if the context boundary had not occurred.";

pub const SUMMARY_HEADING: &'static str = "Summary:\n";

pub const BASE_COMPACT_PROMPT: &'static str =
    "CRITICAL: Respond with TEXT ONLY. Do not call tools.

Create a detailed summary of the conversation so far. Preserve the user's explicit requests, the work already performed, and every detail needed to continue without access to the original history.

Before the final summary, use an <analysis> block as private drafting space. Then provide the durable result in a <summary> block. The <analysis> block will be removed before the result is retained.

The <summary> must cover:
1. Primary request and intent.
2. Important technical concepts, constraints, and architectural decisions.
3. Files and code sections examined, created, or modified, including important signatures and snippets when necessary.
4. Errors encountered, their causes, and fixes.
5. Problems solved and unresolved investigations.
6. Every user-authored message that is not a tool result.
7. Pending tasks and explicit acceptance criteria.
8. The work in progress immediately before compaction.
9. The next step that directly continues the latest request.

Be chronological, precise, and technically complete. Pay special attention to corrections or preferences stated by the user.

REMINDER: output plain text only: one <analysis> block followed by one <summary> block. Tool calls will make the compaction fail.";

/// Why context compaction was activated.
#[derive(Clone, Debug, PartialEq, Eq)]
pub enum ContextCompactionTrigger {
    /// Usage is being evaluated before a model request.
    Automatic { usage: ContextUsage },
    /// Compaction was explicitly requested, with optional extra instructions.
    Manual { instructions: Option<String> },
    /// The provider rejected a request because the context window was
    /// exceeded before any assistant output.
    ContextLengthExceeded { error: String },
}

impl ContextCompactionTrigger {
    /// Every trigger but a manual request is automatic.
    pub fn is_automatic(&self) -> (r: bool)
        ensures
            r == !(self is Manual),
    {
        match self {
            ContextCompactionTrigger::Manual { .. } => false,
            _ => true,
        }
    }

    /// The instructions of a manual request.
    pub fn instructions(&self) -> (r: Option<&str>)
        ensures
            match (r, self) {
                (Some(t), ContextCompactionTrigger::Manual { instructions: Some(i) }) => t@ == i@,
                (None, ContextCompactionTrigger::Manual { instructions: None }) => true,
                (None, ContextCompactionTrigger::Automatic { .. }) => true,
                (None, ContextCompactionTrigger::ContextLengthExceeded { .. }) => true,
                _ => false,
            },
    {
        match self {
            ContextCompactionTrigger::Manual { instructions } => match instructions {
                Some(i) => Some(i.as_str()),
                None => None,
            },
            _ => None,
        }
    }
}

/// The input of a compaction: a snapshot of the transcript and its limits.
#[derive(Clone, Debug)]
pub struct ContextCompactionRequest {
    pub trigger: ContextCompactionTrigger,
    pub system_prompt: String,
    pub messages: Vec<Message>,
    pub max_context_tokens: Option<u64>,
    pub generation_config: GenerationConfig,
}

impl ContextCompactionRequest {
    /// The usage that triggered an automatic compaction.
    pub fn context_usage(&self) -> (r: Option<ContextUsage>)
        ensures
            match self.trigger {
                ContextCompactionTrigger::Automatic { usage } => r == Some(usage),
                _ => r is None,
            },
    {
        match &self.trigger {
            ContextCompactionTrigger::Automatic { usage } => Some(*usage),
            _ => None,
        }
    }
}

/// A generated, not yet applied transcript replacement.
#[derive(Clone, Debug, PartialEq)]
pub struct ContextCompactionPlan {
    pub messages: Vec<Message>,
    pub summary: String,
    pub usage: Option<TokenUsage>,
    pub estimated_context_tokens: u64,
}

/// The result of an applied compaction.
#[derive(Clone, Debug, PartialEq)]
pub struct ContextCompactionOutcome {
    pub compactor: String,
    pub trigger: ContextCompactionTrigger,
    pub before_message_count: usize,
    pub after_message_count: usize,
    pub changed_from: usize,
    pub replacement: Vec<Message>,
    pub summary: String,
    pub usage: Option<TokenUsage>,
    pub estimated_context_tokens: u64,
}

/// The outcome of a cancellable, explicitly requested compaction.
#[derive(Clone, Debug, PartialEq)]
pub enum ContextCompactionRunOutcome {
    Completed(ContextCompactionOutcome),
    Stopped,
}

pub open spec fn clamp_u32(v: u32, lo: u32, hi: u32) -> u32 {
    if v < lo {
        lo
    } else if v > hi {
        hi
    } else {
        v
    }
}

pub open spec fn sat_sub(a: u64, b: u64) -> u64 {
    if a >= b {
        (a - b) as u64
    } else {
        0
    }
}

/// The output tokens reserved for the summary: the requested maximum, or
/// the summary budget when none is set, clamped to `1..=budget`.
pub open spec fn summary_reserve(max_output_tokens: Option<u32>, budget: u32) -> u32 {
    let wanted = match max_output_tokens {
        Some(t) => t,
        None => budget,
    };
    clamp_u32(wanted, 1, budget)
}

/// The usage at which automatic compaction starts: the context window less
/// the summary reserve and the buffer, saturating at zero.
pub open spec fn compaction_threshold(
    max_context_tokens: u64,
    max_output_tokens: Option<u32>,
    budget: u32,
    buffer: u64,
) -> u64 {
    sat_sub(sat_sub(max_context_tokens, summary_reserve(max_output_tokens, budget) as u64), buffer)
}

fn clamp_u32_exec(v: u32, lo: u32, hi: u32) -> (r: u32)
    ensures
        r == clamp_u32(v, lo, hi),
{
    if v < lo {
        lo
    } else if v > hi {
        hi
    } else {
        v
    }
}

fn reserve_exec(max_output_tokens: Option<u32>, budget: u32) -> (r: u32)
    ensures
        r == summary_reserve(max_output_tokens, budget),
{
    let wanted = match max_output_tokens {
        Some(t) => t,
        None => budget,
    };
    clamp_u32_exec(wanted, 1, budget)
}

/// The default automatic compaction threshold: it reserves up to 20k
/// tokens for the summary response and keeps a 13k-token buffer.
pub fn default_context_compaction_threshold(max_context_tokens: u64, max_output_tokens: Option<
    u32,
>) -> (r: u64)
    ensures
        r == compaction_threshold(
            max_context_tokens,
            max_output_tokens,
            DEFAULT_CONTEXT_COMPACTION_MAX_SUMMARY_TOKENS,
            DEFAULT_CONTEXT_COMPACTION_BUFFER_TOKENS,
        ),
{
    let reserve = reserve_exec(max_output_tokens, DEFAULT_CONTEXT_COMPACTION_MAX_SUMMARY_TOKENS);
    max_context_tokens.saturating_sub(reserve as u64).saturating_sub(
        DEFAULT_CONTEXT_COMPACTION_BUFFER_TOKENS,
    )
}

/// The default full-conversation compaction strategy.
#[derive(Clone, Debug)]
pub struct DefaultContextCompactor {
    max_summary_tokens: u32,
    auto_compact_buffer_tokens: u64,
    max_compact_retries: usize,
}

impl DefaultContextCompactor {
    /// The output budget of the summary request (always at least one).
    pub closed spec fn spec_max_summary_tokens(&self) -> u32 {
        self.max_summary_tokens
    }

    pub closed spec fn spec_buffer_tokens(&self) -> u64 {
        self.auto_compact_buffer_tokens
    }

    pub closed spec fn spec_max_retries(&self) -> nat {
        self.max_compact_retries as nat
    }

    /// A compactor with the default budget, buffer and retries.
    pub fn new() -> (r: Self)
        ensures
            r.spec_max_summary_tokens() == DEFAULT_CONTEXT_COMPACTION_MAX_SUMMARY_TOKENS,
            r.spec_buffer_tokens() == DEFAULT_CONTEXT_COMPACTION_BUFFER_TOKENS,
            r.spec_max_retries() == DEFAULT_CONTEXT_COMPACTION_MAX_RETRIES,
    {
        DefaultContextCompactor {
            max_summary_tokens: DEFAULT_CONTEXT_COMPACTION_MAX_SUMMARY_TOKENS,
            auto_compact_buffer_tokens: DEFAULT_CONTEXT_COMPACTION_BUFFER_TOKENS,
            max_compact_retries: DEFAULT_CONTEXT_COMPACTION_MAX_RETRIES,
        }
    }

    /// Sets the summary output budget; zero is raised to one.
    pub fn max_summary_tokens(self, max_summary_tokens: u32) -> (r: Self)
        ensures
            r.spec_max_summary_tokens() == if max_summary_tokens >= 1 {
                max_summary_tokens
            } else {
                1
            },
            r.spec_buffer_tokens() == self.spec_buffer_tokens(),
            r.spec_max_retries() == self.spec_max_retries(),
    {
        let budget = if max_summary_tokens >= 1 {
            max_summary_tokens
        } else {
            1
        };
        DefaultContextCompactor {
            max_summary_tokens: budget,
            auto_compact_buffer_tokens: self.auto_compact_buffer_tokens,
            max_compact_retries: self.max_compact_retries,
        }
    }

    pub fn auto_compact_buffer_tokens(self, buffer_tokens: u64) -> (r: Self)
        ensures
            r.spec_max_summary_tokens() == self.spec_max_summary_tokens(),
            r.spec_buffer_tokens() == buffer_tokens,
            r.spec_max_retries() == self.spec_max_retries(),
    {
        DefaultContextCompactor {
            max_summary_tokens: self.max_summary_tokens,
            auto_compact_buffer_tokens: buffer_tokens,
            max_compact_retries: self.max_compact_retries,
        }
    }

    pub fn max_compact_retries(self, max_retries: usize) -> (r: Self)
        ensures
            r.spec_max_summary_tokens() == self.spec_max_summary_tokens(),
            r.spec_buffer_tokens() == self.spec_buffer_tokens(),
            r.spec_max_retries() == max_retries,
    {
        DefaultContextCompactor {
            max_summary_tokens: self.max_summary_tokens,
            auto_compact_buffer_tokens: self.auto_compact_buffer_tokens,
            max_compact_retries: max_retries,
        }
    }

    /// The stable name of this strategy.
    pub fn name(&self) -> (r: &'static str)
        ensures
            r@ == "default"@,
    {
        "default"
    }

    /// The automatic threshold for a request: `None` without a known
    /// context window.
    pub open spec fn spec_threshold(&self, request: ContextCompactionRequest) -> Option<u64> {
        match request.max_context_tokens {
            Some(max) => Some(
                compaction_threshold(
                    max,
                    request.generation_config.max_tokens,
                    self.spec_max_summary_tokens(),
                    self.spec_buffer_tokens(),
                ),
            ),
            None => None,
        }
    }

    pub fn auto_compact_threshold(&self, request: &ContextCompactionRequest) -> (r: Option<u64>)
        ensures
            r == self.spec_threshold(*request),
    {
        match request.max_context_tokens {
            Some(max) => {
                let reserve = reserve_exec(
                    request.generation_config.max_tokens,
                    self.max_summary_tokens,
                );
                Some(
                    max.saturating_sub(reserve as u64).saturating_sub(
                        self.auto_compact_buffer_tokens,
                    ),
                )
            },
            None => None,
        }
    }

    /// Whether a request needs compaction: never for an empty transcript;
    /// always when requested or after a context-window rejection; for an
    /// automatic check, when usage reached the threshold.
    pub fn should_compact(&self, request: &ContextCompactionRequest) -> (r: bool)
        ensures
            r == (request.messages@.len() > 0 && match request.trigger {
                ContextCompactionTrigger::Automatic { usage } => match self.spec_threshold(
                    *request,
                ) {
                    Some(t) => usage.used_tokens >= t,
                    None => false,
                },
                _ => true,
            }),
    {
        if request.messages.len() == 0 {
            return false;
        }
        match &request.trigger {
            ContextCompactionTrigger::Automatic { usage } => match self.auto_compact_threshold(
                request,
            ) {
                Some(t) => usage.used_tokens >= t,
                None => false,
            },
            _ => true,
        }
    }

    /// The prompt sent to the summarizer: the base prompt, followed by the
    /// trimmed manual instructions when there are any.
    pub fn prompt(&self, request: &ContextCompactionRequest) -> (r: String)
        ensures
            r@ == compaction_prompt(
                match request.trigger {
                    ContextCompactionTrigger::Manual { instructions: Some(i) } => Some(i@),
                    _ => None,
                },
            ),
    {
        let mut prompt = owned(BASE_COMPACT_PROMPT);
        match request.trigger.instructions() {
            Some(i) => {
                let v = chars_of(i);
                let (a, b) = trim_bounds(&v);
                if a < b {
                    push_str(&mut prompt, ADDITIONAL_INSTRUCTIONS_HEADER);
                    let t = string_of(&v, a, b);
                    push_str(&mut prompt, t.as_str());
                }
            },
            None => {},
        }
        prompt
    }
}

impl Default for DefaultContextCompactor {
    fn default() -> (r: Self)
        ensures
            r.spec_max_summary_tokens() == DEFAULT_CONTEXT_COMPACTION_MAX_SUMMARY_TOKENS,
            r.spec_buffer_tokens() == DEFAULT_CONTEXT_COMPACTION_BUFFER_TOKENS,
            r.spec_max_retries() == DEFAULT_CONTEXT_COMPACTION_MAX_RETRIES,
    {
        DefaultContextCompactor::new()
    }
}

/// The summarizer prompt for optional manual instructions.
pub open spec fn compaction_prompt(instructions: Option<Seq<char>>) -> Seq<char> {
    match instructions {
        Some(i) => if trim(i).len() > 0 {
            BASE_COMPACT_PROMPT@ + ADDITIONAL_INSTRUCTIONS_HEADER@ + trim(i)
        } else {
            BASE_COMPACT_PROMPT@
        },
        None => BASE_COMPACT_PROMPT@,
    }
}

/// The user message that carries the summary into the new transcript; an
/// automatic compaction also asks the model to resume without a recap.
pub open spec fn continuation_text(summary: Seq<char>, suppress_follow_up_questions: bool) -> Seq<
    char,
> {
    if suppress_follow_up_questions {
        CONTINUATION_PREFIX@ + summary + CONTINUATION_SUFFIX@
    } else {
        CONTINUATION_PREFIX@ + summary
    }
}

pub fn continuation_summary(summary: &str, suppress_follow_up_questions: bool) -> (r: String)
    ensures
        r@ == continuation_text(summary@, suppress_follow_up_questions),
{
    let mut message = owned(CONTINUATION_PREFIX);
    push_str(&mut message, summary);
    if suppress_follow_up_questions {
        push_str(&mut message, CONTINUATION_SUFFIX);
    }
    message
}

/// `<tag>`.
pub open spec fn open_tag(tag: Seq<char>) -> Seq<char> {
    seq!['<'] + tag + seq!['>']
}

/// `</tag>`.
pub open spec fn close_tag(tag: Seq<char>) -> Seq<char> {
    seq!['<', '/'] + tag + seq!['>']
}

/// `value` without its first `<tag>...</tag>` section; unchanged when the
/// opening tag or a closing tag after it is missing.
pub open spec fn without_tagged_section(value: Seq<char>, tag: Seq<char>) -> Seq<char> {
    let open = open_tag(tag);
    let close = close_tag(tag);
    match first_match(value, open) {
        Some(start) => match first_match(value.skip(start + open.len()), close) {
            Some(rel) => value.take(start) + value.skip(start + open.len() + rel + close.len()),
            None => value,
        },
        None => value,
    }
}

/// The text between the first `<tag>` and the first `</tag>` after it.
pub open spec fn tagged_section_spec(value: Seq<char>, tag: Seq<char>) -> Option<Seq<char>> {
    let open = open_tag(tag);
    let close = close_tag(tag);
    match first_match(value, open) {
        Some(start) => match first_match(value.skip(start + open.len()), close) {
            Some(rel) => Some(value.subrange(start + open.len(), start + open.len() + rel)),
            None => None,
        },
        None => None,
    }
}

fn tag_chars(tag: &str, closing: bool) -> (r: Vec<char>)
    ensures
        r@ == if closing {
            close_tag(tag@)
        } else {
            open_tag(tag@)
        },
{
    let mut r: Vec<char> = Vec::new();
    r.push('<');
    if closing {
        r.push('/');
    }
    let t = chars_of(tag);
    let mut i: usize = 0;
    while i < t.len()
        invariant
            i <= t.len(),
            t@ == tag@,
            r@ == (if closing {
                seq!['<', '/']
            } else {
                seq!['<']
            }) + t@.take(i as int),
        decreases t.len() - i,
    {
        r.push(t[i]);
        i += 1;
        assert(t@.take(i as int) == t@.take(i - 1).push(t@[i - 1]));
    }
    r.push('>');
    assert(t@.take(t.len() as int) == t@);
    r
}

/// Removes the first `<tag>...</tag>` section of `value`.
pub fn remove_tagged_section(value: &str, tag: &str) -> (r: String)
    ensures
        r@ == without_tagged_section(value@, tag@),
{
    let v = chars_of(value);
    let open = tag_chars(tag, false);
    let close = tag_chars(tag, true);
    let start = match find_in_rest(&v, &open, 0) {
        Some(s) => s,
        None => {
            proof {
                assert(v@.skip(0) == v@);
            }
            return owned(value);
        },
    };
    proof {
        assert(v@.skip(0) == v@);
        assert(occurs_at(v@, open@, start as int));
        assert(start + open@.len() <= v@.len());
        assert(v@.len() == v.len());
    }
    let after = start + open.len();
    let rel = match find_in_rest(&v, &close, after) {
        Some(e) => e,
        None => {
            return owned(value);
        },
    };
    let end = rel + close.len();
    let mut r = string_of(&v, 0, start);
    let tail = string_of(&v, end, v.len());
    push_str(&mut r, tail.as_str());
    proof {
        assert(v@.subrange(0, start as int) == v@.take(start as int));
        assert(v@.subrange(end as int, v.len() as int) == v@.skip(end as int));
    }
    r
}

/// The text between the first `<tag>` of `value` and the next `</tag>`.
pub fn tagged_section(value: &str, tag: &str) -> (r: Option<String>)
    ensures
        match (r, tagged_section_spec(value@, tag@)) {
            (Some(s), Some(t)) => s@ == t,
            (None, None) => true,
            _ => false,
        },
{
    let v = chars_of(value);
    let open = tag_chars(tag, false);
    let close = tag_chars(tag, true);
    proof {
        assert(v@.skip(0) == v@);
    }
    let start = match find_in_rest(&v, &open, 0) {
        Some(s) => s,
        None => {
            return None;
        },
    };
    proof {
        assert(occurs_at(v@, open@, start as int));
        assert(v@.len() == v.len());
    }
    let after = start + open.len();
    match find_in_rest(&v, &close, after) {
        Some(end) => Some(string_of(&v, after, end)),
        None => None,
    }
}

/// The retained summary of a raw summarizer reply: the drafting section is
/// dropped; the `<summary>` section, when present, is kept under a heading,
/// otherwise the whole remaining text; either way trimmed.
pub open spec fn compact_summary_text(raw: Seq<char>) -> Seq<char> {
    let without = without_tagged_section(raw, "analysis"@);
    match tagged_section_spec(without, "summary"@) {
        Some(s) => SUMMARY_HEADING@ + trim(s),
        None => trim(without),
    }
}

fn trimmed(value: &str) -> (r: String)
    ensures
        r@ == trim(value@),
{
    let v = chars_of(value);
    let (a, b) = trim_bounds(&v);
    string_of(&v, a, b)
}

pub fn format_compact_summary(raw: &str) -> (r: String)
    ensures
        r@ == compact_summary_text(raw@),
{
    let without = remove_tagged_section(raw, "analysis");
    match tagged_section(without.as_str(), "summary") {
        Some(s) => {
            let mut r = owned(SUMMARY_HEADING);
            let t = trimmed(s.as_str());
            push_str(&mut r, t.as_str());
            r
        },
        None => trimmed(without.as_str()),
    }
}

/// A text part's view.
pub open spec fn text_part_view(text: Seq<char>) -> ContentPartView {
    ContentPartView { kind: 0, text, extra: Seq::empty(), data: Seq::empty() }
}

/// A part as the summarizer sees it: text is kept, images and documents
/// become the placeholders `[image]` and `[document]`.
pub open spec fn sanitized_part(p: ContentPartView) -> ContentPartView {
    if p.kind == 0 {
        p
    } else if p.kind == 1 {
        text_part_view("[image]"@)
    } else {
        text_part_view("[document]"@)
    }
}

pub open spec fn sanitized_content(c: Option<ContentView>) -> Option<ContentView> {
    match c {
        Some(ContentView::Text(t)) => Some(ContentView::Text(t)),
        Some(ContentView::Parts(p)) => Some(
            ContentView::Parts(p.map_values(|x: ContentPartView| sanitized_part(x))),
        ),
        None => None,
    }
}

/// A message as the summarizer sees it: media replaced by placeholders,
/// provider replay state and tool-result metadata removed.
pub open spec fn sanitized_message(m: MessageView) -> MessageView {
    MessageView {
        content: sanitized_content(m.content),
        provider_state: None,
        tool_result_metadata: None,
        ..m
    }
}

fn sanitize_part(part: ContentPart) -> (r: ContentPart)
    ensures
        r@ == sanitized_part(part@),
{
    match part {
        ContentPart::Text { text } => ContentPart::Text { text },
        ContentPart::ImageUrl { .. } => {
            let r = ContentPart::text("[image]");
            proof {
                reveal_strlit("[image]");
            }
            r
        },
        ContentPart::Document { .. } => {
            let r = ContentPart::text("[document]");
            r
        },
    }
}

/// Prepares a message for the summary request.
pub fn sanitize_message_for_compaction(message: Message) -> (r: Message)
    ensures
        r@ == sanitized_message(message@),
{
    let Message { role, content, tool_calls, tool_call_id, is_error, .. } = message;
    let content = match content {
        Some(Content::Text(t)) => Some(Content::Text(t)),
        Some(Content::Parts(parts)) => {
            let mut out: Vec<ContentPart> = Vec::new();
            let ghost original = parts@;
            let n = parts.len();
            let mut k: usize = 0;
            while k < n
                invariant
                    n == original.len(),
                    k <= n,
                    parts@ == original,
                    out@.len() == k,
                    forall|j: int| 0 <= j < k ==> (#[trigger] out@[j])@ == sanitized_part(
                        original[j]@,
                    ),
                decreases n - k,
            {
                let p = parts[k].duplicate();
                out.push(sanitize_part(p));
                k += 1;
            }
            proof {
                assert(parts_view(out@) =~= parts_view(original).map_values(
                    |x: ContentPartView| sanitized_part(x),
                ));
            }
            Some(Content::Parts(out))
        },
        None => None,
    };
    Message {
        role,
        content,
        tool_calls,
        tool_call_id,
        is_error,
        provider_state: None,
        tool_result_metadata: None,
    }
}

/// The number of tool results still owed after one more message, or `None`
/// when the message breaks the assistant / tool-result protocol.
pub open spec fn owed_after(owed: nat, m: Message) -> Option<nat> {
    match m.role {
        Role::Assistant => if owed != 0 {
            None
        } else {
            Some(m.tool_calls@.len())
        },
        Role::Tool => if owed == 0 {
            None
        } else {
            Some((owed - 1) as nat)
        },
        _ => if owed != 0 {
            None
        } else {
            Some(0)
        },
    }
}

/// The tool results owed after the first `n` messages.
pub open spec fn owed_results(ms: Seq<Message>, n: nat) -> Option<nat>
    decreases n,
{
    if n == 0 {
        Some(0)
    } else {
        match owed_results(ms, (n - 1) as nat) {
            Some(owed) => owed_after(owed, ms[n - 1]),
            None => None,
        }
    }
}

/// Cutting before message `c` drops only complete protocol groups and keeps
/// at least one message.
pub open spec fn is_safe_cut(ms: Seq<Message>, c: int) -> bool {
    1 <= c < ms.len() && owed_results(ms, c as nat) == Some(0nat)
}

/// The first safe cut at or after `c`.
pub open spec fn first_safe_cut_from(ms: Seq<Message>, c: int) -> Option<int>
    decreases ms.len() - c,
{
    if c >= ms.len() || c < 0 {
        None
    } else if is_safe_cut(ms, c) {
        Some(c)
    } else {
        first_safe_cut_from(ms, c + 1)
    }
}

/// The last safe cut before `c`.
pub open spec fn last_safe_cut_below(ms: Seq<Message>, c: int) -> Option<int>
    decreases c,
{
    if c <= 0 {
        None
    } else if is_safe_cut(ms, c - 1) {
        Some(c - 1)
    } else {
        last_safe_cut_below(ms, c - 1)
    }
}

/// About a fifth of the transcript, and at least one message.
pub open spec fn truncation_target(len: nat) -> int {
    let fifth = if len % 5 == 0 {
        len / 5
    } else {
        len / 5 + 1
    };
    if fifth >= 1 {
        fifth as int
    } else {
        1
    }
}

/// Where a too-long summary request is cut: the first safe cut that drops
/// about a fifth of it, else the last safe cut; none for fewer than two
/// messages or a transcript that breaks the tool protocol.
pub open spec fn truncation_cut(ms: Seq<Message>) -> Option<int> {
    if ms.len() < 2 || owed_results(ms, ms.len()) is None {
        None
    } else {
        match first_safe_cut_from(ms, truncation_target(ms.len())) {
            Some(c) => Some(c),
            None => last_safe_cut_below(ms, truncation_target(ms.len())),
        }
    }
}

proof fn lemma_owed_prefix(ms: Seq<Message>, a: nat, b: nat)
    requires
        a <= b,
        owed_results(ms, b) is Some,
    ensures
        owed_results(ms, a) is Some,
    decreases b,
{
    if a < b {
        lemma_owed_prefix(ms, a, (b - 1) as nat);
    }
}

proof fn lemma_first_safe_cut_none(ms: Seq<Message>, c: int)
    requires
        0 <= c,
        forall|k: int| c <= k < ms.len() ==> !#[trigger] is_safe_cut(ms, k),
    ensures
        first_safe_cut_from(ms, c) is None,
    decreases ms.len() - c,
{
    if c < ms.len() {
        lemma_first_safe_cut_none(ms, c + 1);
    }
}

proof fn lemma_first_safe_cut_found(ms: Seq<Message>, c: int, f: int)
    requires
        0 <= c <= f,
        is_safe_cut(ms, f),
        forall|k: int| c <= k < f ==> !#[trigger] is_safe_cut(ms, k),
    ensures
        first_safe_cut_from(ms, c) == Some(f),
    decreases f - c,
{
    if c < f {
        lemma_first_safe_cut_found(ms, c + 1, f);
    }
}

proof fn lemma_last_safe_cut_found(ms: Seq<Message>, c: int, f: int)
    requires
        f < c,
        is_safe_cut(ms, f),
        forall|k: int| f < k < c ==> !#[trigger] is_safe_cut(ms, k),
    ensures
        last_safe_cut_below(ms, c) == Some(f),
    decreases c,
{
    if c - 1 > f {
        lemma_last_safe_cut_found(ms, c - 1, f);
    }
}

proof fn lemma_last_safe_cut_none(ms: Seq<Message>, c: int)
    requires
        forall|k: int| 0 <= k < c ==> !#[trigger] is_safe_cut(ms, k),
    ensures
        last_safe_cut_below(ms, c) is None,
    decreases c,
{
    if c > 0 {
        lemma_last_safe_cut_none(ms, c - 1);
    }
}

/// The tool results owed after each prefix of `messages`, or `None` when the
/// transcript breaks the tool protocol.
fn owed_table(messages: &Vec<Message>) -> (r: Option<Vec<usize>>)
    ensures
        match r {
            Some(t) => owed_results(messages@, messages@.len()) is Some && t@.len()
                == messages@.len() + 1 && forall|c: int|
                0 <= c <= messages@.len() ==> owed_results(messages@, c as nat) == Some(
                    #[trigger] t@[c] as nat,
                ),
            None => owed_results(messages@, messages@.len()) is None,
        },
{
    let mut table: Vec<usize> = Vec::new();
    table.push(0);
    let mut i: usize = 0;
    while i < messages.len()
        invariant
            i <= messages@.len(),
            table@.len() == i + 1,
            forall|c: int| 0 <= c <= i ==> owed_results(messages@, c as nat) == Some(
                #[trigger] table@[c] as nat,
            ),
        decreases messages.len() - i,
    {
        let owed = table[i];
        let m = &messages[i];
        let next: usize = match m.role {
            Role::Assistant => {
                if owed != 0 {
                    proof {
                        assert(owed_results(messages@, (i + 1) as nat) is None);
                        lemma_none_persists(messages@, (i + 1) as nat, messages@.len());
                    }
                    return None;
                }
                m.tool_calls.len()
            },
            Role::Tool => {
                if owed == 0 {
                    proof {
                        assert(owed_results(messages@, (i + 1) as nat) is None);
                        lemma_none_persists(messages@, (i + 1) as nat, messages@.len());
                    }
                    return None;
                }
                owed - 1
            },
            _ => {
                if owed != 0 {
                    proof {
                        assert(owed_results(messages@, (i + 1) as nat) is None);
                        lemma_none_persists(messages@, (i + 1) as nat, messages@.len());
                    }
                    return None;
                }
                0
            },
        };
        proof {
            assert(owed_results(messages@, (i + 1) as nat) == Some(next as nat));
        }
        table.push(next);
        i += 1;
    }
    assert(owed_results(messages@, messages@.len()) == Some(table@[messages@.len() as int] as nat));
    Some(table)
}

/// The first index in `from..to` whose entry is zero.
fn first_zero(table: &Vec<usize>, from: usize, to: usize) -> (r: Option<usize>)
    requires
        from <= to <= table@.len(),
    ensures
        match r {
            Some(c) => from <= c < to && table@[c as int] == 0 && forall|k: int|
                from <= k < c ==> #[trigger] table@[k] != 0,
            None => forall|k: int| from <= k < to ==> #[trigger] table@[k] != 0,
        },
{
    let mut c = from;
    while c < to
        invariant
            from <= c <= to <= table@.len(),
            forall|k: int| from <= k < c ==> #[trigger] table@[k] != 0,
        decreases to - c,
    {
        if table[c] == 0 {
            return Some(c);
        }
        c += 1;
    }
    None
}

/// The last index in `from..to` whose entry is zero.
fn last_zero(table: &Vec<usize>, from: usize, to: usize) -> (r: Option<usize>)
    requires
        from <= to <= table@.len(),
    ensures
        match r {
            Some(c) => from <= c < to && table@[c as int] == 0 && forall|k: int|
                c < k < to ==> #[trigger] table@[k] != 0,
            None => forall|k: int| from <= k < to ==> #[trigger] table@[k] != 0,
        },
{
    let mut d = to;
    while d > from
        invariant
            from <= d <= to <= table@.len(),
            forall|k: int| d <= k < to ==> #[trigger] table@[k] != 0,
        decreases d,
    {
        if table[d - 1] == 0 {
            return Some(d - 1);
        }
        d -= 1;
    }
    None
}

proof fn lemma_none_persists(ms: Seq<Message>, a: nat, b: nat)
    requires
        a <= b,
        owed_results(ms, a) is None,
    ensures
        owed_results(ms, b) is None,
    decreases b,
{
    if a < b {
        lemma_none_persists(ms, a, (b - 1) as nat);
    }
}

/// `v` is `ms` from message `cut` on, led by a marker user message when
/// that part starts with an assistant turn.
pub open spec fn is_truncation_of(v: Seq<Message>, ms: Seq<Message>, cut: int) -> bool {
    let lead: int = if ms[cut].role == Role::Assistant {
        1
    } else {
        0
    };
    &&& v.len() == ms.len() - cut + lead
    &&& lead == 1 ==> v[0]@ == text_message(Role::User, COMPACT_RETRY_MARKER@)
    &&& forall|k: int| 0 <= k < ms.len() - cut ==> (#[trigger] v[k + lead])@ == ms[cut + k]@
}

/// The shortened summary input after the provider rejected it as too long:
/// the oldest complete protocol groups are dropped (see `truncation_cut`),
/// and a marker user message leads when the kept part starts with an
/// assistant turn.
pub fn truncate_oldest_safe_prefix(messages: &Vec<Message>) -> (r: Option<Vec<Message>>)
    ensures
        match (r, truncation_cut(messages@)) {
            (Some(v), Some(cut)) => is_truncation_of(v@, messages@, cut),
            (None, None) => true,
            _ => false,
        },
{
    let len = messages.len();
    if len < 2 {
        return None;
    }
    let table = match owed_table(messages) {
        Some(t) => t,
        None => {
            return None;
        },
    };
    let fifth = if len % 5 == 0 {
        len / 5
    } else {
        len / 5 + 1
    };
    let target = if fifth >= 1 {
        fifth
    } else {
        1
    };
    let ghost ms = messages@;
    assert forall|k: int| 0 <= k <= len implies #[trigger] is_safe_cut(ms, k) == (1 <= k < len
        && table@[k] == 0) by {
        assert(owed_results(ms, k as nat) == Some(table@[k] as nat));
    }
    let cut = match first_zero(&table, target, len) {
        Some(f) => {
            proof {
                assert(is_safe_cut(ms, f as int));
                assert forall|k: int| target <= k < f implies !#[trigger] is_safe_cut(ms, k) by {
                    assert(table@[k] != 0);
                }
                lemma_first_safe_cut_found(ms, target as int, f as int);
            }
            f
        },
        None => {
            proof {
                assert forall|k: int| target <= k < ms.len() implies !#[trigger] is_safe_cut(
                    ms,
                    k,
                ) by {
                    assert(table@[k] != 0);
                }
                lemma_first_safe_cut_none(ms, target as int);
            }
            match last_zero(&table, 1, target) {
                Some(l) => {
                    proof {
                        assert(is_safe_cut(ms, l as int));
                        assert forall|k: int| l < k < target implies !#[trigger] is_safe_cut(
                            ms,
                            k,
                        ) by {
                            assert(table@[k] != 0);
                        }
                        lemma_last_safe_cut_found(ms, target as int, l as int);
                    }
                    l
                },
                None => {
                    proof {
                        assert forall|k: int| 0 <= k < target implies !#[trigger] is_safe_cut(
                            ms,
                            k,
                        ) by {
                            if k >= 1 {
                                assert(table@[k] != 0);
                            }
                        }
                        lemma_last_safe_cut_none(ms, target as int);
                    }
                    return None;
                },
            }
        },
    };
    let kept = copy_messages(messages, cut, len);
    if messages[cut].role == Role::Assistant {
        let mut out: Vec<Message> = Vec::new();
        out.push(Message::user(COMPACT_RETRY_MARKER));
        let mut k: usize = 0;
        let mut rest = kept;
        while k < rest.len()
            invariant
                k <= rest@.len(),
                rest@.len() == len - cut,
                out@.len() == k + 1,
                out@[0]@ == text_message(Role::User, COMPACT_RETRY_MARKER@),
                forall|j: int| 0 <= j < rest@.len() ==> (#[trigger] rest@[j])@ == ms[cut + j]@,
                forall|j: int| 0 <= j < k ==> (#[trigger] out@[j + 1])@ == ms[cut + j]@,
            decreases rest.len() - k,
        {
            out.push(rest[k].duplicate());
            k += 1;
        }
        Some(out)
    } else {
        Some(kept)
    }
}

/// Whether `cut` is where `truncation_cut` cuts: a safe cut that drops at
/// least one complete protocol group.
pub proof fn lemma_truncation_cut_is_safe(ms: Seq<Message>)
    ensures
        truncation_cut(ms) matches Some(c) ==> is_safe_cut(ms, c) && 1 <= c < ms.len(),
{
    if truncation_cut(ms) is Some {
        let t = truncation_target(ms.len());
        lemma_first_safe_cut_is_safe(ms, t);
        lemma_last_safe_cut_is_safe(ms, t);
    }
}

proof fn lemma_first_safe_cut_is_safe(ms: Seq<Message>, c: int)
    ensures
        first_safe_cut_from(ms, c) matches Some(f) ==> is_safe_cut(ms, f),
    decreases ms.len() - c,
{
    if 0 <= c < ms.len() && !is_safe_cut(ms, c) {
        lemma_first_safe_cut_is_safe(ms, c + 1);
    }
}

proof fn lemma_last_safe_cut_is_safe(ms: Seq<Message>, c: int)
    ensures
        last_safe_cut_below(ms, c) matches Some(f) ==> is_safe_cut(ms, f),
    decreases c,
{
    if c > 0 && !is_safe_cut(ms, c - 1) {
        lemma_last_safe_cut_is_safe(ms, c - 1);
    }
}

/// The request sent to the summarizer: its system prompt, the transcript,
/// then the compaction prompt as a user message; no tools, reasoning
/// disabled, and the output limited to the summary budget.
pub fn summary_request(
    generation_config: &GenerationConfig,
    messages: &Vec<Message>,
    prompt: &str,
    max_summary_tokens: u32,
) -> (r: ProviderRequest)
    ensures
        r.config.reasoning_effort == Some(ReasoningEffort::Disabled),
        r.config.max_tokens == Some(
            summary_reserve(generation_config.max_tokens, max_summary_tokens),
        ),
        crate::types::opt_str_view(r.config.model) == crate::types::opt_str_view(generation_config.model),
        r.tools@.len() == 0,
        r.messages@.len() == messages@.len() + 2,
        r.messages@[0]@ == text_message(Role::System, SUMMARY_SYSTEM_PROMPT@),
        forall|k: int| 0 <= k < messages@.len() ==> (#[trigger] r.messages@[k + 1])@ == messages@[k]@,
        r.messages@[messages@.len() as int + 1]@ == text_message(Role::User, prompt@),
{
    let mut all: Vec<Message> = Vec::new();
    all.push(Message::system(SUMMARY_SYSTEM_PROMPT));
    let mut k: usize = 0;
    while k < messages.len()
        invariant
            k <= messages@.len(),
            all@.len() == k + 1,
            all@[0]@ == text_message(Role::System, SUMMARY_SYSTEM_PROMPT@),
            forall|j: int| 0 <= j < k ==> (#[trigger] all@[j + 1])@ == messages@[j]@,
        decreases messages.len() - k,
    {
        all.push(messages[k].duplicate());
        k += 1;
    }
    all.push(Message::user(prompt));
    let config = GenerationConfig {
        model: crate::types::copy_opt_str(&generation_config.model),
        max_tokens: Some(reserve_exec(generation_config.max_tokens, max_summary_tokens)),
        reasoning_effort: Some(ReasoningEffort::Disabled),
    };
    ProviderRequest { messages: all, tools: Vec::new(), config }
}

/// The number of bytes that `serde_json` writes for an empty list of tool
/// calls (`[]`).
pub const EMPTY_TOOL_CALLS_JSON_BYTES: usize = 2;

/// `n`, saturated at `u64::MAX`.
pub open spec fn sat(n: nat) -> nat {
    if n > u64::MAX {
        u64::MAX as nat
    } else {
        n
    }
}

/// The bytes a part contributes to the token estimate: its text, a fixed
/// charge for an image, a document's data up to 200,000 bytes.
pub open spec fn part_bytes(p: ContentPartView) -> nat {
    if p.kind == 0 {
        utf8_len(p.text)
    } else if p.kind == 1 {
        6_400
    } else if utf8_len(p.data) <= 200_000 {
        utf8_len(p.data)
    } else {
        200_000
    }
}

pub open spec fn parts_bytes(ps: Seq<ContentPartView>) -> nat
    decreases ps.len(),
{
    if ps.len() == 0 {
        0
    } else {
        sat(parts_bytes(ps.drop_last()) + part_bytes(ps.last()))
    }
}

pub open spec fn content_bytes(c: Option<ContentView>) -> nat {
    match c {
        Some(ContentView::Text(t)) => sat(utf8_len(t)),
        Some(ContentView::Parts(ps)) => parts_bytes(ps),
        None => 0,
    }
}

/// About four bytes per token, plus four tokens of framing.
pub open spec fn message_tokens(content: nat, tool_bytes: nat) -> nat {
    let total = sat(content + tool_bytes);
    let quarter = if total % 4 == 0 {
        total / 4
    } else {
        total / 4 + 1
    };
    sat(quarter + 4)
}

/// The estimated tokens of a transcript, given the JSON length of each
/// message's tool calls.
pub open spec fn messages_tokens(ms: Seq<MessageView>, tool_bytes: Seq<usize>) -> nat
    decreases ms.len(),
{
    if ms.len() == 0 {
        0
    } else {
        sat(
            messages_tokens(ms.drop_last(), tool_bytes.drop_last()) + message_tokens(
                content_bytes(ms.last().content),
                tool_bytes.last() as nat,
            ),
        )
    }
}

fn sat_add(a: u64, b: u64) -> (r: u64)
    ensures
        r == sat(a as nat + b as nat),
{
    a.saturating_add(b)
}

fn content_byte_count(content: &Option<Content>) -> (r: u64)
    ensures
        r == content_bytes(crate::types::opt_content_view(*content)),
{
    match content {
        Some(Content::Text(t)) => {
            let n = byte_len(t.as_str());
            if n as u128 > u64::MAX as u128 {
                u64::MAX
            } else {
                n as u64
            }
        },
        Some(Content::Parts(parts)) => {
            let ghost pv = parts_view(parts@);
            let mut total: u64 = 0;
            let mut i: usize = 0;
            while i < parts.len()
                invariant
                    i <= parts@.len(),
                    pv == parts_view(parts@),
                    total == parts_bytes(pv.take(i as int)),
                decreases parts.len() - i,
            {
                let b: u64 = match &parts[i] {
                    ContentPart::Text { text } => {
                        let n = byte_len(text.as_str());
                        n as u64
                    },
                    ContentPart::ImageUrl { .. } => 6_400,
                    ContentPart::Document { document } => {
                        let n = byte_len(document.data.as_str());
                        if n <= 200_000 {
                            n as u64
                        } else {
                            200_000
                        }
                    },
                };
                proof {
                    assert(pv.take(i + 1).drop_last() == pv.take(i as int));
                    assert(pv.take(i + 1).last() == pv[i as int]);
                    assert(b == part_bytes(pv[i as int]));
                }
                total = sat_add(total, b);
                i += 1;
            }
            assert(pv.take(parts@.len() as int) == pv);
            total
        },
        None => 0,
    }
}

/// The estimated token count of one message with `tool_bytes` bytes of
/// serialized tool calls.
pub fn estimate_message_tokens(message: &Message, tool_bytes: usize) -> (r: u64)
    ensures
        r == message_tokens(content_bytes(message@.content), tool_bytes as nat),
{
    let content = content_byte_count(&message.content);
    let tool: u64 = if tool_bytes as u128 > u64::MAX as u128 {
        u64::MAX
    } else {
        tool_bytes as u64
    };
    let total = sat_add(content, tool);
    let quarter = if total % 4 == 0 {
        total / 4
    } else {
        total / 4 + 1
    };
    sat_add(quarter, 4)
}

/// The estimated token count of a transcript; `tool_bytes[i]` is the length
/// of the JSON serialization of the tool calls of `messages[i]`.
pub fn estimate_messages_tokens(messages: &Vec<Message>, tool_bytes: &Vec<usize>) -> (r: u64)
    requires
        tool_bytes@.len() == messages@.len(),
    ensures
        r == messages_tokens(crate::types::messages_view(messages@), tool_bytes@),
{
    let ghost mv = crate::types::messages_view(messages@);
    let mut total: u64 = 0;
    let mut i: usize = 0;
    while i < messages.len()
        invariant
            i <= messages@.len(),
            tool_bytes@.len() == messages@.len(),
            mv == crate::types::messages_view(messages@),
            total == messages_tokens(mv.take(i as int), tool_bytes@.take(i as int)),
        decreases messages.len() - i,
    {
        let t = estimate_message_tokens(&messages[i], tool_bytes[i]);
        proof {
            assert(mv.take(i + 1).drop_last() == mv.take(i as int));
            assert(tool_bytes@.take(i + 1).drop_last() == tool_bytes@.take(i as int));
            assert(mv.take(i + 1).last() == messages@[i as int]@);
        }
        total = sat_add(total, t);
        i += 1;
    }
    assert(mv.take(messages@.len() as int) == mv);
    assert(tool_bytes@.take(messages@.len() as int) == tool_bytes@);
    total
}

pub const NOT_ENOUGH_MESSAGES: &'static str = "not enough messages to compact";

pub const STILL_TOO_LONG_PREFIX: &'static str =
    "compaction request still exceeds the context window and no complete older message group can be removed: ";

pub const SUMMARY_REQUEST_FAILED_PREFIX: &'static str = "conversation summary request failed: ";

pub const SUMMARY_CALLED_TOOL: &'static str =
    "conversation summary response attempted to call a tool";

pub const SUMMARY_WITHOUT_TEXT: &'static str = "conversation summary response contained no text";

pub const SUMMARY_EMPTY: &'static str =
    "conversation summary was empty after removing drafting content";

fn error_with(prefix: &str, detail: &str) -> (r: ContextCompactionError)
    ensures
        r.spec_message() == prefix@ + detail@,
{
    let mut m = owned(prefix);
    push_str(&mut m, detail);
    ContextCompactionError::new(m)
}

/// The transcript that the first summary request carries: every message of
/// the request, sanitized; an error for an empty transcript.
pub fn compaction_input(request: &ContextCompactionRequest) -> (r: Result<
    Vec<Message>,
    ContextCompactionError,
>)
    ensures
        match r {
            Ok(v) => request.messages@.len() > 0 && v@.len() == request.messages@.len() && forall|
                k: int,
            |
                0 <= k < v@.len() ==> (#[trigger] v@[k])@ == sanitized_message(
                    request.messages@[k]@,
                ),
            Err(e) => request.messages@.len() == 0 && e.spec_message() == NOT_ENOUGH_MESSAGES@,
        },
{
    if request.messages.len() == 0 {
        return Err(ContextCompactionError::new(owned(NOT_ENOUGH_MESSAGES)));
    }
    let mut v: Vec<Message> = Vec::new();
    let mut k: usize = 0;
    while k < request.messages.len()
        invariant
            k <= request.messages@.len(),
            v@.len() == k,
            forall|j: int| 0 <= j < k ==> (#[trigger] v@[j])@ == sanitized_message(
                request.messages@[j]@,
            ),
        decreases request.messages.len() - k,
    {
        let m = request.messages[k].duplicate();
        let s = sanitize_message_for_compaction(m);
        v.push(s);
        k += 1;
    }
    Ok(v)
}

impl DefaultContextCompactor {
    /// The summary request for the current summarizer input.
    pub fn request_summary(&self, request: &ContextCompactionRequest, messages: &Vec<Message>, prompt: &str) -> (r: ProviderRequest)
        ensures
            r.config.reasoning_effort == Some(ReasoningEffort::Disabled),
            r.config.max_tokens == Some(
                summary_reserve(request.generation_config.max_tokens, self.spec_max_summary_tokens()),
            ),
            r.tools@.len() == 0,
            r.messages@.len() == messages@.len() + 2,
            r.messages@[0]@ == text_message(Role::System, SUMMARY_SYSTEM_PROMPT@),
            forall|k: int| 0 <= k < messages@.len() ==> (#[trigger] r.messages@[k + 1])@ == messages@[k]@,
            r.messages@[messages@.len() as int + 1]@ == text_message(Role::User, prompt@),
    {
        summary_request(&request.generation_config, messages, prompt, self.max_summary_tokens)
    }

    /// What follows a failed summary request made after `retries`
    /// truncations: when the provider reported a context-window rejection and
    /// retries remain, the shortened input (or an error when nothing can be
    /// dropped); otherwise an error. `error_text` is the provider error's
    /// display text.
    pub fn after_summary_error(
        &self,
        messages: &Vec<Message>,
        retries: usize,
        error: &ProviderError,
        error_text: &str,
    ) -> (r: Result<Vec<Message>, ContextCompactionError>)
        ensures
            error.spec_is_context_length_exceeded() && retries < self.spec_max_retries() ==> match (
                r,
                truncation_cut(messages@),
            ) {
                (Ok(v), Some(cut)) => is_truncation_of(v@, messages@, cut),
                (Err(e), None) => e.spec_message() == STILL_TOO_LONG_PREFIX@ + error_text@,
                _ => false,
            },
            !(error.spec_is_context_length_exceeded() && retries < self.spec_max_retries()) ==> (r matches Err(e)
                && e.spec_message() == SUMMARY_REQUEST_FAILED_PREFIX@ + error_text@),
    {
        if error.is_context_length_exceeded() && retries < self.max_compact_retries {
            match truncate_oldest_safe_prefix(messages) {
                Some(v) => Ok(v),
                None => Err(error_with(STILL_TOO_LONG_PREFIX, error_text)),
            }
        } else {
            Err(error_with(SUMMARY_REQUEST_FAILED_PREFIX, error_text))
        }
    }
}

/// Only an automatic compaction asks the model to resume without a recap:
/// whatever the summary, the continuation message of a compaction that was
/// not requested by hand is the continuation prefix, the summary and the
/// resume instruction, and that of a manual compaction is the prefix and
/// the summary with nothing after it.
pub proof fn lemma_only_automatic_compaction_asks_to_resume(
    summary: Seq<char>,
    trigger: ContextCompactionTrigger,
)
    ensures
        replacement_views(summary, !(trigger is Manual)).len() == 2,
        !(trigger is Manual) ==> replacement_views(summary, !(trigger is Manual))[1] == text_message(
            Role::User,
            CONTINUATION_PREFIX@ + summary + CONTINUATION_SUFFIX@,
        ),
        trigger is Manual ==> replacement_views(summary, !(trigger is Manual))[1] == text_message(
            Role::User,
            CONTINUATION_PREFIX@ + summary,
        ),
{
}

/// The replacement transcript for `summary`: the compaction boundary, then
/// the continuation message.
pub open spec fn replacement_views(summary: Seq<char>, automatic: bool) -> Seq<MessageView> {
    seq![
        text_message(Role::System, DEFAULT_CONTEXT_COMPACTION_BOUNDARY_MESSAGE@),
        text_message(Role::User, continuation_text(summary, automatic)),
    ]
}

/// Turns the summarizer's response into a replacement plan: a response
/// that calls tools, has no non-blank text, or whose summary is empty once
/// the drafting section is removed, is an error.
pub fn finish_compaction(response: ProviderResponse, trigger: &ContextCompactionTrigger) -> (r: Result<
    ContextCompactionPlan,
    ContextCompactionError,
>)
    ensures
        response.message.tool_calls@.len() > 0 ==> (r matches Err(e) && e.spec_message()
            == SUMMARY_CALLED_TOOL@),
        response.message.tool_calls@.len() == 0 ==> match response.message.content {
            Some(Content::Text(raw)) => if all_ws(raw@) {
                r matches Err(e) && e.spec_message() == SUMMARY_WITHOUT_TEXT@
            } else if compact_summary_text(raw@).len() == 0 {
                r matches Err(e) && e.spec_message() == SUMMARY_EMPTY@
            } else {
                r matches Ok(plan) && plan.summary@ == compact_summary_text(raw@) && plan.usage
                    == response.usage && crate::types::messages_view(plan.messages@)
                    == replacement_views(compact_summary_text(raw@), !(trigger is Manual))
                    && plan.estimated_context_tokens == messages_tokens(
                    replacement_views(compact_summary_text(raw@), !(trigger is Manual)),
                    seq![EMPTY_TOOL_CALLS_JSON_BYTES, EMPTY_TOOL_CALLS_JSON_BYTES],
                )
            },
            _ => r matches Err(e) && e.spec_message() == SUMMARY_WITHOUT_TEXT@,
        },
{
    if response.message.tool_calls.len() > 0 {
        return Err(ContextCompactionError::new(owned(SUMMARY_CALLED_TOOL)));
    }
    let raw = match response.message.content {
        Some(c) => c.into_text(),
        None => None,
    };
    let raw = match raw {
        Some(t) => {
            if crate::text::is_blank(t.as_str()) {
                return Err(ContextCompactionError::new(owned(SUMMARY_WITHOUT_TEXT)));
            }
            t
        },
        None => {
            return Err(ContextCompactionError::new(owned(SUMMARY_WITHOUT_TEXT)));
        },
    };
    let summary = format_compact_summary(raw.as_str());
    let summary_chars = chars_of(summary.as_str());
    if summary_chars.len() == 0 {
        return Err(ContextCompactionError::new(owned(SUMMARY_EMPTY)));
    }
    let continuation = continuation_summary(summary.as_str(), trigger.is_automatic());
    let mut replacement: Vec<Message> = Vec::new();
    replacement.push(Message::system(DEFAULT_CONTEXT_COMPACTION_BOUNDARY_MESSAGE));
    replacement.push(Message::user(continuation.as_str()));
    let mut tool_bytes: Vec<usize> = Vec::new();
    tool_bytes.push(EMPTY_TOOL_CALLS_JSON_BYTES);
    tool_bytes.push(EMPTY_TOOL_CALLS_JSON_BYTES);
    let estimated = estimate_messages_tokens(&replacement, &tool_bytes);
    proof {
        assert(crate::types::messages_view(replacement@) =~= replacement_views(
            summary@,
            !(*trigger is Manual),
        ));
        assert(tool_bytes@ =~= seq![EMPTY_TOOL_CALLS_JSON_BYTES, EMPTY_TOOL_CALLS_JSON_BYTES]);
    }
    Ok(
        ContextCompactionPlan {
            messages: replacement,
            summary,
            usage: response.usage,
            estimated_context_tokens: estimated,
        },
    )
}

} // verus!
