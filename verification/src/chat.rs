//! The OpenAI Chat Completions adapter's stream accumulation: streamed
//! chunks become assistant deltas and, at the end, one response.
use vstd::prelude::*;

use crate::error::ProviderError;
use crate::text::{all_ws, debug_str, debug_string, is_blank, owned, push_str};
use crate::json::{fields_view, items_view, json_view, push_field, push_item, Json, JsonView};
use crate::types::{
    deltas_view, opt_str_view, AssistantDelta, AssistantDeltaView, AssistantMessage, Content,
    ContentPart, ContentPartView, ContentView, Message, MessageView, ProviderRequest,
    ProviderResponse, ReasoningEffort, Role, TokenUsage, ToolCall, ToolCallView, ToolDefinition,
    ToolDefinitionView,
};

verus! {

broadcast use vstd::string::group_string_axioms;

/// One streamed tool-call fragment.
#[derive(Clone, Debug, PartialEq, Eq)]
pub struct ChatToolDelta {
    pub index: Option<u64>,
    pub id: Option<String>,
    pub name: Option<String>,
    pub arguments: Option<String>,
}

/// One streamed choice: the fields of its `delta` that the adapter reads.
#[derive(Clone, Debug, PartialEq, Eq)]
pub struct ChatChoiceDelta {
    pub finish_reason: Option<String>,
    pub content: Option<String>,
    pub reasoning: Option<String>,
    pub reasoning_content: Option<String>,
    /// The items of `reasoning_details`, each as JSON text, when that field
    /// is an array.
    pub reasoning_details: Option<Vec<String>>,
    pub tool_calls: Vec<ChatToolDelta>,
}

/// The usage object of a chunk.
#[derive(Clone, Copy, Debug, PartialEq, Eq, Structural)]
pub struct ChatUsageReport {
    pub prompt_tokens: u64,
    pub completion_tokens: u64,
    pub total_tokens: Option<u64>,
    pub cached_tokens: Option<u64>,
}

/// One streamed chunk.
#[derive(Clone, Debug, PartialEq, Eq)]
pub struct ChatChunk {
    pub usage: Option<ChatUsageReport>,
    pub choices: Vec<ChatChoiceDelta>,
}

/// The usage a report describes: the reported total, or the saturating sum
/// of prompt and completion tokens when none is reported.
pub open spec fn chat_usage(u: ChatUsageReport) -> TokenUsage {
    TokenUsage {
        input_tokens: u.prompt_tokens,
        output_tokens: u.completion_tokens,
        total_tokens: match u.total_tokens {
            Some(t) => t,
            None => crate::types::sat_add(u.prompt_tokens, u.completion_tokens),
        },
        cached_input_tokens: match u.cached_tokens {
            Some(c) => c,
            None => 0,
        },
    }
}

pub fn normalize_chat_usage(usage: ChatUsageReport) -> (r: TokenUsage)
    ensures
        r == chat_usage(usage),
{
    TokenUsage::with_total(
        usage.prompt_tokens,
        usage.completion_tokens,
        match usage.total_tokens {
            Some(t) => t,
            None => usage.prompt_tokens.saturating_add(usage.completion_tokens),
        },
        match usage.cached_tokens {
            Some(c) => c,
            None => 0,
        },
    )
}

/// A tool call being assembled.
#[derive(Clone, Debug, PartialEq, Eq)]
pub struct PendingToolCall {
    pub index: u64,
    pub id: String,
    pub name: String,
    pub arguments: String,
}

pub ghost struct PendingView {
    pub index: u64,
    pub id: Seq<char>,
    pub name: Seq<char>,
    pub arguments: Seq<char>,
}

impl View for PendingToolCall {
    type V = PendingView;

    open spec fn view(&self) -> PendingView {
        PendingView { index: self.index, id: self.id@, name: self.name@, arguments: self.arguments@ }
    }
}

pub open spec fn pending_view(ts: Seq<PendingToolCall>) -> Seq<PendingView> {
    ts.map_values(|t: PendingToolCall| t@)
}

/// What the stream has accumulated.
pub ghost struct ChatStreamView {
    pub text: Seq<char>,
    /// Tool calls in increasing index order.
    pub tools: Seq<PendingView>,
    pub reasoning: Option<Seq<char>>,
    pub reasoning_content: Option<Seq<char>>,
    pub reasoning_details: Option<Seq<Seq<char>>>,
    pub usage: Option<TokenUsage>,
    pub saw_normal_finish_reason: bool,
}

/// The text of an optional fragment, empty when absent.
pub open spec fn fragment(o: Option<String>) -> Seq<char> {
    match o {
        Some(s) => s@,
        None => Seq::empty(),
    }
}

/// A finish reason that ends a response normally.
pub open spec fn normal_finish(reason: Option<String>) -> bool {
    match reason {
        Some(r) => r@ == "stop"@ || r@ == "tool_calls"@ || r@ == "function_call"@,
        None => false,
    }
}

/// Where the tool call with `index` stands, or would be inserted, in `ts`.
pub open spec fn insert_pos(ts: Seq<PendingView>, index: u64) -> nat
    decreases ts.len(),
{
    if ts.len() == 0 || ts[0].index >= index {
        0
    } else {
        1 + insert_pos(ts.drop_first(), index)
    }
}

/// Tool calls in strictly increasing index order.
pub open spec fn sorted_tools(ts: Seq<PendingView>) -> bool {
    forall|i: int, j: int| 0 <= i < j < ts.len() ==> (#[trigger] ts[i]).index < (#[trigger] ts[j]).index
}

/// The index a fragment belongs to (zero when absent).
pub open spec fn delta_index(d: ChatToolDelta) -> u64 {
    match d.index {
        Some(i) => i,
        None => 0,
    }
}

/// `ts` with the fragment `d` appended to the call it belongs to, or a new
/// call started for it.
pub open spec fn upsert_tool(ts: Seq<PendingView>, d: ChatToolDelta) -> Seq<PendingView> {
    let index = delta_index(d);
    let p = insert_pos(ts, index) as int;
    if p < ts.len() && ts[p].index == index {
        ts.update(
            p,
            PendingView {
                index,
                id: ts[p].id + fragment(d.id),
                name: ts[p].name + fragment(d.name),
                arguments: ts[p].arguments + fragment(d.arguments),
            },
        )
    } else {
        ts.insert(
            p,
            PendingView {
                index,
                id: fragment(d.id),
                name: fragment(d.name),
                arguments: fragment(d.arguments),
            },
        )
    }
}

/// The tool calls after the fragments `ds`, in order.
pub open spec fn upsert_all(ts: Seq<PendingView>, ds: Seq<ChatToolDelta>) -> Seq<PendingView>
    decreases ds.len(),
{
    if ds.len() == 0 {
        ts
    } else {
        upsert_tool(upsert_all(ts, ds.drop_last()), ds.last())
    }
}

/// The delta that forwards a tool-call fragment.
pub open spec fn tool_delta_view(d: ChatToolDelta) -> AssistantDeltaView {
    AssistantDeltaView::ToolCall {
        index: delta_index(d) as usize,
        id: opt_str_view(d.id),
        name: opt_str_view(d.name),
        arguments: fragment(d.arguments),
    }
}

/// A non-empty fragment appended to an optional accumulated text.
pub open spec fn append_reasoning(acc: Option<Seq<char>>, f: Option<String>) -> Option<Seq<char>> {
    match f {
        Some(s) => if s@.len() > 0 {
            Some(
                match acc {
                    Some(a) => a,
                    None => Seq::empty(),
                } + s@,
            )
        } else {
            acc
        },
        None => acc,
    }
}

/// The state after one choice, and the deltas it yields: a text delta for
/// non-empty content, then one delta per tool-call fragment.
pub open spec fn choice_step(s: ChatStreamView, c: ChatChoiceDelta) -> (ChatStreamView, Seq<AssistantDeltaView>) {
    let text_delta = match c.content {
        Some(t) => if t@.len() > 0 {
            seq![AssistantDeltaView::Text(t@)]
        } else {
            Seq::empty()
        },
        None => Seq::empty(),
    };
    (
        ChatStreamView {
            text: s.text + match c.content {
                Some(t) => t@,
                None => Seq::empty(),
            },
            tools: upsert_all(s.tools, c.tool_calls@),
            reasoning: append_reasoning(s.reasoning, c.reasoning),
            reasoning_content: append_reasoning(s.reasoning_content, c.reasoning_content),
            reasoning_details: match c.reasoning_details {
                Some(items) => Some(
                    match s.reasoning_details {
                        Some(d) => d,
                        None => Seq::empty(),
                    } + crate::skill_args::string_views(items@),
                ),
                None => s.reasoning_details,
            },
            usage: s.usage,
            saw_normal_finish_reason: s.saw_normal_finish_reason || normal_finish(c.finish_reason),
        },
        text_delta + c.tool_calls@.map_values(|d: ChatToolDelta| tool_delta_view(d)),
    )
}

/// The state after the choices `cs`, and the deltas they yield, in order.
pub open spec fn choices_step(s: ChatStreamView, cs: Seq<ChatChoiceDelta>) -> (ChatStreamView, Seq<AssistantDeltaView>)
    decreases cs.len(),
{
    if cs.len() == 0 {
        (s, Seq::empty())
    } else {
        let (s1, d1) = choices_step(s, cs.drop_last());
        let (s2, d2) = choice_step(s1, cs.last());
        (s2, d1 + d2)
    }
}

/// The state after a chunk, and the deltas it yields: its usage replaces
/// the last one; then its choices, in order.
pub open spec fn chunk_step(s: ChatStreamView, chunk: ChatChunk) -> (ChatStreamView, Seq<AssistantDeltaView>) {
    let s0 = match chunk.usage {
        Some(u) => ChatStreamView { usage: Some(chat_usage(u)), ..s },
        None => s,
    };
    choices_step(s0, chunk.choices@)
}

/// The accumulated state of a Chat Completions stream.
#[derive(Debug)]
pub struct ChatStreamState {
    text: String,
    tools: Vec<PendingToolCall>,
    reasoning: Option<String>,
    reasoning_content: Option<String>,
    reasoning_details: Option<Vec<String>>,
    usage: Option<TokenUsage>,
    saw_normal_finish_reason: bool,
}

impl View for ChatStreamState {
    type V = ChatStreamView;

    closed spec fn view(&self) -> ChatStreamView {
        ChatStreamView {
            text: self.text@,
            tools: pending_view(self.tools@),
            reasoning: opt_str_view(self.reasoning),
            reasoning_content: opt_str_view(self.reasoning_content),
            reasoning_details: match self.reasoning_details {
                Some(v) => Some(crate::skill_args::string_views(v@)),
                None => None,
            },
            usage: self.usage,
            saw_normal_finish_reason: self.saw_normal_finish_reason,
        }
    }
}

pub proof fn lemma_insert_pos(ts: Seq<PendingView>, index: u64)
    requires
        sorted_tools(ts),
    ensures
        insert_pos(ts, index) <= ts.len(),
        forall|k: int| 0 <= k < insert_pos(ts, index) ==> (#[trigger] ts[k]).index < index,
        insert_pos(ts, index) < ts.len() ==> ts[insert_pos(ts, index) as int].index >= index,
    decreases ts.len(),
{
    if ts.len() > 0 && ts[0].index < index {
        lemma_insert_pos(ts.drop_first(), index);
        assert forall|k: int| 0 <= k < insert_pos(ts, index) implies (#[trigger] ts[k]).index
            < index by {
            if k > 0 {
                assert(ts[k] == ts.drop_first()[k - 1]);
            }
        }
        if insert_pos(ts, index) < ts.len() {
            assert(ts[insert_pos(ts, index) as int] == ts.drop_first()[insert_pos(
                ts.drop_first(),
                index,
            ) as int]);
        }
    }
}

pub proof fn lemma_insert_pos_exact(ts: Seq<PendingView>, index: u64, p: int)
    requires
        0 <= p <= ts.len(),
        forall|k: int| 0 <= k < p ==> (#[trigger] ts[k]).index < index,
        p < ts.len() ==> ts[p].index >= index,
    ensures
        insert_pos(ts, index) == p,
    decreases p,
{
    if p > 0 {
        assert(ts[0].index < index);
        assert forall|k: int| 0 <= k < p - 1 implies (#[trigger] ts.drop_first()[k]).index
            < index by {
            assert(ts.drop_first()[k] == ts[k + 1]);
        }
        if p - 1 < ts.drop_first().len() {
            assert(ts.drop_first()[p - 1] == ts[p]);
        }
        lemma_insert_pos_exact(ts.drop_first(), index, p - 1);
    }
}

fn fragment_string(o: &Option<String>) -> (r: String)
    ensures
        r@ == fragment(*o),
{
    match o {
        Some(s) => s.clone(),
        None => String::new(),
    }
}

impl ChatStreamState {
    /// The state before any chunk.
    pub fn new() -> (r: Self)
        ensures
            r@ == (ChatStreamView {
                text: Seq::empty(),
                tools: Seq::empty(),
                reasoning: None,
                reasoning_content: None,
                reasoning_details: None,
                usage: None,
                saw_normal_finish_reason: false,
            }),
    {
        let r = ChatStreamState {
            text: String::new(),
            tools: Vec::new(),
            reasoning: None,
            reasoning_content: None,
            reasoning_details: None,
            usage: None,
            saw_normal_finish_reason: false,
        };
        proof {
            assert(pending_view(r.tools@) =~= Seq::empty());
        }
        r
    }

    /// Whether a choice finished normally.
    pub fn saw_normal_finish_reason(&self) -> (r: bool)
        ensures
            r == self@.saw_normal_finish_reason,
    {
        self.saw_normal_finish_reason
    }

    #[verifier::type_invariant]
    spec fn inv(self) -> bool {
        sorted_tools(pending_view(self.tools@))
    }

    fn upsert(tools: &mut Vec<PendingToolCall>, d: &ChatToolDelta)
        requires
            sorted_tools(pending_view(old(tools)@)),
        ensures
            sorted_tools(pending_view(final(tools)@)),
            pending_view(final(tools)@) == upsert_tool(pending_view(old(tools)@), *d),
    {
        let ghost ts = pending_view(tools@);
        let index = match d.index {
            Some(i) => i,
            None => 0,
        };
        let mut p: usize = 0;
        while p < tools.len() && tools[p].index < index
            invariant
                p <= tools@.len(),
                ts == pending_view(tools@),
                forall|k: int| 0 <= k < p ==> (#[trigger] ts[k]).index < index,
            decreases tools.len() - p,
        {
            p += 1;
        }
        proof {
            if p < ts.len() {
                assert(ts[p as int].index >= index);
            }
            lemma_insert_pos_exact(ts, index, p as int);
        }
        if p < tools.len() && tools[p].index == index {
            let mut t = PendingToolCall {
                index: 0,
                id: String::new(),
                name: String::new(),
                arguments: String::new(),
            };
            std::mem::swap(&mut t, &mut tools[p]);
            let PendingToolCall { index: i, id, name, arguments } = t;
            let mut id = id;
            let mut name = name;
            let mut arguments = arguments;
            match &d.id {
                Some(v) => push_str(&mut id, v.as_str()),
                None => {},
            }
            match &d.name {
                Some(v) => push_str(&mut name, v.as_str()),
                None => {},
            }
            match &d.arguments {
                Some(v) => push_str(&mut arguments, v.as_str()),
                None => {},
            }
            tools.set(p, PendingToolCall { index: i, id, name, arguments });
            proof {
                let u = upsert_tool(ts, *d);
                assert(pending_view(tools@) =~= u);
            }
        } else {
            tools.insert(
                p,
                PendingToolCall {
                    index,
                    id: fragment_string(&d.id),
                    name: fragment_string(&d.name),
                    arguments: fragment_string(&d.arguments),
                },
            );
            proof {
                let u = upsert_tool(ts, *d);
                assert(pending_view(tools@) =~= u);
                let n = pending_view(tools@);
                assert forall|i: int, j: int| 0 <= i < j < n.len() implies (#[trigger] n[i]).index
                    < (#[trigger] n[j]).index by {
                    if j < p {
                        assert(n[i] == ts[i] && n[j] == ts[j]);
                    } else if j == p {
                        assert(n[i] == ts[i]);
                    } else if i < p {
                        assert(n[i] == ts[i] && n[j] == ts[j - 1]);
                        if p < ts.len() {
                            assert(ts[p as int].index >= index);
                            assert(ts[p as int].index != index);
                        }
                    } else if i == p {
                        assert(n[j] == ts[j - 1]);
                        assert(ts[p as int].index > index);
                    } else {
                        assert(n[i] == ts[i - 1] && n[j] == ts[j - 1]);
                    }
                }
            }
        }
    }

    /// Applies one chunk: its usage, then each choice's finish reason,
    /// reasoning, text and tool-call fragments. Returns the deltas to
    /// forward, in order.
    pub fn apply(&mut self, chunk: &ChatChunk) -> (r: Vec<AssistantDelta>)
        ensures
            (final(self)@, deltas_view(r@)) == chunk_step(old(self)@, *chunk),
    {
        proof {
            use_type_invariant(&*self);
        }
        match chunk.usage {
            Some(u) => {
                self.usage = Some(normalize_chat_usage(u));
            },
            None => {},
        }
        let ghost s0 = self@;
        let mut deltas: Vec<AssistantDelta> = Vec::new();
        let mut i: usize = 0;
        while i < chunk.choices.len()
            invariant
                i <= chunk.choices@.len(),
                sorted_tools(pending_view(self.tools@)),
                (self@, deltas_view(deltas@)) == choices_step(s0, chunk.choices@.take(i as int)),
            decreases chunk.choices.len() - i,
        {
            proof {
                assert(chunk.choices@.take(i + 1).drop_last() == chunk.choices@.take(i as int));
                assert(chunk.choices@.take(i + 1).last() == chunk.choices@[i as int]);
            }
            self.apply_choice(&chunk.choices[i], &mut deltas);
            i += 1;
        }
        proof {
            assert(chunk.choices@.take(chunk.choices@.len() as int) == chunk.choices@);
        }
        deltas
    }

    fn apply_choice(&mut self, c: &ChatChoiceDelta, deltas: &mut Vec<AssistantDelta>)
        requires
            sorted_tools(pending_view(old(self).tools@)),
        ensures
            sorted_tools(pending_view(final(self).tools@)),
            (final(self)@, deltas_view(final(deltas)@)) == ({
                let (s1, d1) = choice_step(old(self)@, *c);
                (s1, deltas_view(old(deltas)@) + d1)
            }),
    {
        proof {
            use_type_invariant(&*self);
        }
        let ghost before = self@;
        let ghost d0 = deltas_view(deltas@);
        if normal_finish_exec(&c.finish_reason) {
            self.saw_normal_finish_reason = true;
        }
        self.reasoning = append_reasoning_exec(&self.reasoning, &c.reasoning);
        self.reasoning_content = append_reasoning_exec(&self.reasoning_content, &c.reasoning_content);
        match &c.reasoning_details {
            Some(items) => {
                let mut all: Vec<String> = match &self.reasoning_details {
                    Some(d) => d.clone(),
                    None => Vec::new(),
                };
                let ghost start = all@;
                let mut k: usize = 0;
                while k < items.len()
                    invariant
                        k <= items@.len(),
                        all@ == start + items@.take(k as int),
                    decreases items.len() - k,
                {
                    all.push(items[k].clone());
                    proof {
                        assert(items@.take(k + 1) =~= items@.take(k as int).push(items@[k as int]));
                        assert(all@ =~= start + items@.take(k + 1));
                    }
                    k += 1;
                }
                proof {
                    assert(items@.take(items@.len() as int) == items@);
                    assert(crate::skill_args::string_views(all@) =~= crate::skill_args::string_views(
                        start,
                    ) + crate::skill_args::string_views(items@));
                }
                self.reasoning_details = Some(all);
            },
            None => {},
        }
        match &c.content {
            Some(t) => {
                let mut text = String::new();
                std::mem::swap(&mut text, &mut self.text);
                push_str(&mut text, t.as_str());
                self.text = text;
                if !t.as_str().is_empty() {
                    deltas.push(AssistantDelta::Text { delta: t.clone() });
                }
            },
            None => {},
        }
        let ghost d1 = deltas_view(deltas@);
        let ghost t0 = pending_view(self.tools@);
        let mut tools: Vec<PendingToolCall> = Vec::new();
        std::mem::swap(&mut tools, &mut self.tools);
        let mut k: usize = 0;
        while k < c.tool_calls.len()
            invariant
                k <= c.tool_calls@.len(),
                sorted_tools(pending_view(tools@)),
                pending_view(tools@) == upsert_all(t0, c.tool_calls@.take(k as int)),
                deltas_view(deltas@) == d1 + c.tool_calls@.take(k as int).map_values(
                    |d: ChatToolDelta| tool_delta_view(d),
                ),
            decreases c.tool_calls.len() - k,
        {
            proof {
                assert(c.tool_calls@.take(k + 1).drop_last() == c.tool_calls@.take(k as int));
                assert(c.tool_calls@.take(k + 1).last() == c.tool_calls@[k as int]);
            }
            let d = &c.tool_calls[k];
            Self::upsert(&mut tools, d);
            let index = match d.index {
                Some(i) => i,
                None => 0,
            };
            let ghost prev = deltas@;
            deltas.push(
                AssistantDelta::ToolCall {
                    index: index as usize,
                    id: crate::types::copy_opt_str(&d.id),
                    name: crate::types::copy_opt_str(&d.name),
                    arguments_delta: fragment_string(&d.arguments),
                },
            );
            proof {
                let last = deltas@[deltas@.len() - 1];
                assert(last@ == tool_delta_view(c.tool_calls@[k as int]));
                assert(deltas_view(deltas@) =~= deltas_view(prev).push(last@));
                let f = |d: ChatToolDelta| tool_delta_view(d);
                assert(c.tool_calls@.take(k + 1).map_values(f) =~= c.tool_calls@.take(
                    k as int,
                ).map_values(f).push(f(c.tool_calls@[k as int])));
                assert(deltas_view(deltas@) =~= d1 + c.tool_calls@.take(k + 1).map_values(
                    |d: ChatToolDelta| tool_delta_view(d),
                ));
            }
            k += 1;
        }
        proof {
            assert(c.tool_calls@.take(c.tool_calls@.len() as int) == c.tool_calls@);
        }
        self.tools = tools;
        proof {
            let (s1, e1) = choice_step(before, *c);
            assert(self@.text == s1.text);
            assert(deltas_view(deltas@) =~= d0 + e1);
        }
    }
}

fn normal_finish_exec(reason: &Option<String>) -> (r: bool)
    ensures
        r == normal_finish(*reason),
{
    match reason {
        Some(r) => {
            let stop = owned("stop");
            let tool_calls = owned("tool_calls");
            let function_call = owned("function_call");
            crate::text::string_eq(r, &stop) || crate::text::string_eq(r, &tool_calls)
                || crate::text::string_eq(r, &function_call)
        },
        None => false,
    }
}

fn append_reasoning_exec(acc: &Option<String>, f: &Option<String>) -> (r: Option<String>)
    ensures
        opt_str_view(r) == append_reasoning(opt_str_view(*acc), *f),
{
    match f {
        Some(s) => if !s.as_str().is_empty() {
            let mut out = match acc {
                Some(a) => a.clone(),
                None => String::new(),
            };
            push_str(&mut out, s.as_str());
            Some(out)
        } else {
            match acc {
                Some(a) => Some(a.clone()),
                None => None,
            }
        },
        None => match acc {
            Some(a) => Some(a.clone()),
            None => None,
        },
    }
}

/// The compact text of the JSON document `text` (as `serde_json` writes
/// the value it parses), or `None` when `text` is not JSON.
pub uninterp spec fn json_compact(text: Seq<char>) -> Option<Seq<char>>;

/// The error `serde_json` reports for a text that is not JSON.
pub uninterp spec fn json_parse_error(text: Seq<char>) -> Seq<char>;

/// Parses `text` as JSON with `serde_json` and writes the value back
/// compactly; on failure, the parser's error message.
#[verifier::external_body]
pub(crate) fn reparse_json(text: &str) -> (r: Result<String, String>)
    ensures
        match r {
            Ok(c) => json_compact(text@) == Some(c@),
            Err(e) => json_compact(text@) is None && e@ == json_parse_error(text@),
        },
{
    match serde_json::from_str::<serde_json::Value>(text) {
        Ok(value) => Ok(value.to_string()),
        Err(error) => Err(error.to_string()),
    }
}

/// The arguments a tool call carries: `{}` for blank text, otherwise the
/// compact form of the JSON text (`None` when it is not JSON).
pub open spec fn arguments_text(a: Seq<char>) -> Option<Seq<char>> {
    if all_ws(a) {
        Some("{}"@)
    } else {
        json_compact(a)
    }
}

/// Every pending call carries JSON arguments.
pub open spec fn arguments_valid(ts: Seq<PendingView>) -> bool {
    forall|k: int| 0 <= k < ts.len() ==> (#[trigger] arguments_text(ts[k].arguments)) is Some
}

/// The error of a stream that produced nothing.
pub const EMPTY_CHAT_STREAM: &'static str = "chat stream contains neither content nor tool calls";

/// The error of a stream that stopped early.
pub const UNFINISHED_CHAT_STREAM: &'static str =
    "chat stream ended before [DONE] or a normal finish_reason";

/// The replay state of a response: an object with the captured reasoning
/// fields, in key order, or `None` when none was captured.
pub open spec fn reasoning_state(s: ChatStreamView) -> Option<JsonView> {
    if s.reasoning is None && s.reasoning_content is None && s.reasoning_details is None {
        None
    } else {
        Some(
            JsonView::Object(
                match s.reasoning {
                    Some(r) => Seq::empty().push(member("reasoning"@, JsonView::Str(r))),
                    None => Seq::empty(),
                } + match s.reasoning_content {
                    Some(r) => Seq::empty().push(member("reasoning_content"@, JsonView::Str(r))),
                    None => Seq::empty(),
                } + match s.reasoning_details {
                    Some(items) => Seq::empty().push(
                        member(
                            "reasoning_details"@,
                            JsonView::Array(items.map_values(|t: Seq<char>| JsonView::Raw(t))),
                        ),
                    ),
                    None => Seq::empty(),
                },
            ),
        )
    }
}

fn reasoning_state_exec(
    reasoning: Option<String>,
    reasoning_content: Option<String>,
    reasoning_details: Option<Vec<String>>,
) -> (r: Option<Json>)
    ensures
        crate::json::opt_json_view(r) == reasoning_state(
            ChatStreamView {
                text: Seq::empty(),
                tools: Seq::empty(),
                reasoning: opt_str_view(reasoning),
                reasoning_content: opt_str_view(reasoning_content),
                reasoning_details: match reasoning_details {
                    Some(v) => Some(crate::skill_args::string_views(v@)),
                    None => None,
                },
                usage: None,
                saw_normal_finish_reason: false,
            },
        ),
{
    if reasoning.is_none() && reasoning_content.is_none() && reasoning_details.is_none() {
        return None;
    }
    let ghost d = match &reasoning_details {
        Some(v) => Some(crate::skill_args::string_views(v@)),
        None => None,
    };
    let mut fields: Vec<(String, Json)> = crate::json::no_members();
    let ghost f0 = fields_view(fields@);
    match reasoning {
        Some(r) => push_field(&mut fields, "reasoning", Json::Str(r)),
        None => {},
    }
    match reasoning_content {
        Some(r) => push_field(&mut fields, "reasoning_content", Json::Str(r)),
        None => {},
    }
    let ghost f2 = fields_view(fields@);
    match reasoning_details {
        Some(items) => {
            let ghost iv = crate::skill_args::string_views(items@);
            let mut out: Vec<Json> = crate::json::no_items();
            let mut k: usize = 0;
            while k < items.len()
                invariant
                    k <= items@.len(),
                    iv == crate::skill_args::string_views(items@),
                    items_view(out@) == iv.take(k as int).map_values(|t: Seq<char>| JsonView::Raw(t)),
                decreases items.len() - k,
            {
                push_item(&mut out, Json::Raw(items[k].clone()));
                proof {
                    let f = |t: Seq<char>| JsonView::Raw(t);
                    assert(iv.take(k + 1).map_values(f) =~= iv.take(k as int).map_values(f).push(
                        f(iv[k as int]),
                    ));
                }
                k += 1;
            }
            proof {
                assert(iv.take(iv.len() as int) == iv);
            }
            push_field(&mut fields, "reasoning_details", Json::array(out));
        },
        None => {},
    }
    let r = Json::object(fields);
    proof {
        let expected = reasoning_state(
            ChatStreamView {
                text: Seq::empty(),
                tools: Seq::empty(),
                reasoning: opt_str_view(reasoning),
                reasoning_content: opt_str_view(reasoning_content),
                reasoning_details: d,
                usage: None,
                saw_normal_finish_reason: false,
            },
        );
        assert(fields_view(fields@) =~= match expected {
            Some(JsonView::Object(o)) => o,
            _ => Seq::empty(),
        });
    }
    Some(r)
}

pub(crate) fn assemble_calls(tools: &Vec<PendingToolCall>) -> (r: Result<Vec<ToolCall>, String>)
    ensures
        r is Ok <==> arguments_valid(pending_view(tools@)),
        r matches Err(m) ==> exists|k: int|
            0 <= k < tools@.len() && arguments_text(pending_view(tools@)[k].arguments) is None && (
            forall|j: int|
                0 <= j < k ==> (#[trigger] arguments_text(pending_view(tools@)[j].arguments)) is Some)
                && m@ == "invalid tool arguments: "@ + json_parse_error(
                pending_view(tools@)[k].arguments,
            ),
        r matches Ok(calls) ==> calls@.len() == tools@.len() && forall|k: int|
            0 <= k < tools@.len() ==> {
                let c = #[trigger] calls@[k];
                &&& c.id@ == pending_view(tools@)[k].id
                &&& c.name@ == pending_view(tools@)[k].name
                &&& Some(c.arguments@) == arguments_text(pending_view(tools@)[k].arguments)
            },
{
    let ghost ts = pending_view(tools@);
    let mut calls: Vec<ToolCall> = Vec::new();
    let mut k: usize = 0;
    while k < tools.len()
        invariant
            k <= tools@.len(),
            ts == pending_view(tools@),
            calls@.len() == k,
            forall|j: int| 0 <= j < k ==> (#[trigger] arguments_text(ts[j].arguments)) is Some,
            forall|j: int|
                0 <= j < k ==> {
                    let c = #[trigger] calls@[j];
                    &&& c.id@ == ts[j].id
                    &&& c.name@ == ts[j].name
                    &&& Some(c.arguments@) == arguments_text(ts[j].arguments)
                },
        decreases tools.len() - k,
    {
        let t = &tools[k];
        proof {
            assert(ts[k as int] == t@);
        }
        let arguments = if is_blank(t.arguments.as_str()) {
            owned("{}")
        } else {
            match reparse_json(t.arguments.as_str()) {
                Ok(c) => c,
                Err(e) => {
                    let mut m = owned("invalid tool arguments: ");
                    push_str(&mut m, e.as_str());
                    proof {
                        assert(arguments_text(ts[k as int].arguments) is None);
                    }
                    return Err(m);
                },
            }
        };
        calls.push(ToolCall { id: t.id.clone(), name: t.name.clone(), arguments });
        k += 1;
    }
    Ok(calls)
}

impl ChatStreamState {
    /// The response the stream assembled: the text when not empty; the
    /// tool calls in index order, with their arguments as compact JSON
    /// (`{}` when blank); the captured reasoning fields as replay state;
    /// the last usage. Fails on the first call whose arguments are not
    /// JSON, and when there is neither text nor a tool call.
    pub fn finish(self) -> (r: Result<ProviderResponse, ProviderError>)
        ensures
            r is Ok <==> arguments_valid(self@.tools) && (self@.text.len() > 0
                || self@.tools.len() > 0),
            !arguments_valid(self@.tools) ==> (r matches Err(ProviderError::InvalidResponse(m))
                && exists|k: int|
                0 <= k < self@.tools.len() && arguments_text(self@.tools[k].arguments) is None
                    && (forall|j: int|
                    0 <= j < k ==> (#[trigger] arguments_text(self@.tools[j].arguments)) is Some)
                    && m@ == "invalid tool arguments: "@ + json_parse_error(
                    self@.tools[k].arguments,
                )),
            arguments_valid(self@.tools) && self@.text.len() == 0 && self@.tools.len() == 0 ==> (r matches Err(
                ProviderError::InvalidResponse(m),
            ) && m@ == EMPTY_CHAT_STREAM@),
            r matches Ok(resp) ==> {
                &&& (if self@.text.len() > 0 {
                    resp.message.content matches Some(Content::Text(t)) && t@ == self@.text
                } else {
                    resp.message.content is None
                })
                &&& resp.message.tool_calls@.len() == self@.tools.len()
                &&& forall|k: int|
                    0 <= k < self@.tools.len() ==> {
                        let c = #[trigger] resp.message.tool_calls@[k];
                        &&& c.id@ == self@.tools[k].id
                        &&& c.name@ == self@.tools[k].name
                        &&& Some(c.arguments@) == arguments_text(self@.tools[k].arguments)
                    }
                &&& crate::json::opt_json_view(resp.message.provider_state) == reasoning_state(self@)
                &&& resp.message.reasoning is None
                &&& resp.usage == self@.usage
            },
    {
        proof {
            use_type_invariant(&self);
        }
        let ghost v = self@;
        let ChatStreamState {
            text,
            tools,
            reasoning,
            reasoning_content,
            reasoning_details,
            usage,
            saw_normal_finish_reason: _,
        } = self;
        let calls = match assemble_calls(&tools) {
            Ok(c) => c,
            Err(m) => {
                return Err(ProviderError::InvalidResponse(m));
            },
        };
        let has_text = !text.as_str().is_empty();
        if !has_text && calls.len() == 0 {
            return Err(ProviderError::InvalidResponse(owned(EMPTY_CHAT_STREAM)));
        }
        let provider_state = reasoning_state_exec(reasoning, reasoning_content, reasoning_details);
        let content = if has_text {
            Some(Content::Text(text))
        } else {
            None
        };
        Ok(
            ProviderResponse {
                message: AssistantMessage { content, reasoning: None, tool_calls: calls, provider_state },
                usage,
            },
        )
    }
}

/// Checks how a stream ended: a `[DONE]` marker or a normal finish reason
/// is required.
pub fn check_stream_end(saw_done: bool, state: &ChatStreamState) -> (r: Result<(), ProviderError>)
    ensures
        r is Ok <==> (saw_done || state@.saw_normal_finish_reason),
        r matches Err(e) ==> e matches ProviderError::Stream(m) && m@ == UNFINISHED_CHAT_STREAM@,
{
    if !saw_done && !state.saw_normal_finish_reason() {
        Err(ProviderError::Stream(owned(UNFINISHED_CHAT_STREAM)))
    } else {
        Ok(())
    }
}

// ---------------------------------------------------------------------------
// Request bodies
// ---------------------------------------------------------------------------

pub open spec fn role_text(role: Role) -> Seq<char> {
    match role {
        Role::System => "system"@,
        Role::User => "user"@,
        Role::Assistant => "assistant"@,
        Role::Tool => "tool"@,
    }
}

fn role_name(role: Role) -> (r: &'static str)
    ensures
        r@ == role_text(role),
{
    match role {
        Role::System => "system",
        Role::User => "user",
        Role::Assistant => "assistant",
        Role::Tool => "tool",
    }
}

/// The wire name of a reasoning effort.
pub open spec fn effort_text(e: ReasoningEffort) -> Seq<char> {
    match e {
        ReasoningEffort::Disabled => "none"@,
        ReasoningEffort::Minimal => "minimal"@,
        ReasoningEffort::Low => "low"@,
        ReasoningEffort::Medium => "medium"@,
        ReasoningEffort::High => "high"@,
        ReasoningEffort::XHigh => "xhigh"@,
        ReasoningEffort::Max => "max"@,
    }
}

pub fn effort_name(e: ReasoningEffort) -> (r: &'static str)
    ensures
        r@ == effort_text(e),
{
    match e {
        ReasoningEffort::Disabled => "none",
        ReasoningEffort::Minimal => "minimal",
        ReasoningEffort::Low => "low",
        ReasoningEffort::Medium => "medium",
        ReasoningEffort::High => "high",
        ReasoningEffort::XHigh => "xhigh",
        ReasoningEffort::Max => "max",
    }
}

pub open spec fn image_notice() -> Seq<char> {
    "\n[Image attachment omitted by Chat Completions adapter]\n"@
}

pub open spec fn document_notice(filename: Seq<char>, mime_type: Seq<char>) -> Seq<char> {
    "\n[Document attachment "@ + filename + " ("@ + mime_type
        + ") omitted by Chat Completions adapter]\n"@
}

/// The text that stands for a part where only text is accepted: its text,
/// or, with `notices`, a note that an attachment was left out.
pub open spec fn part_fallback(p: ContentPartView, notices: bool) -> Seq<char> {
    if p.kind == 0 {
        p.text
    } else if !notices {
        Seq::empty()
    } else if p.kind == 1 {
        image_notice()
    } else {
        document_notice(p.text, p.extra)
    }
}

pub open spec fn parts_fallback(ps: Seq<ContentPartView>, notices: bool) -> Seq<char>
    decreases ps.len(),
{
    if ps.len() == 0 {
        Seq::empty()
    } else {
        parts_fallback(ps.drop_last(), notices) + part_fallback(ps.last(), notices)
    }
}

/// Content flattened to text for roles whose content must be a string.
pub open spec fn fallback_text(c: ContentView, notices: bool) -> Seq<char> {
    match c {
        ContentView::Text(t) => t,
        ContentView::Parts(ps) => parts_fallback(ps, notices),
    }
}

pub fn chat_text_fallback(content: &Content, attachment_notices: bool) -> (r: String)
    ensures
        r@ == fallback_text(content@, attachment_notices),
{
    match content {
        Content::Text(t) => t.clone(),
        Content::Parts(parts) => {
            let ghost pv = crate::types::parts_view(parts@);
            let mut out = String::new();
            let mut i: usize = 0;
            while i < parts.len()
                invariant
                    i <= parts@.len(),
                    pv == crate::types::parts_view(parts@),
                    out@ == parts_fallback(pv.take(i as int), attachment_notices),
                decreases parts.len() - i,
            {
                proof {
                    assert(pv.take(i + 1).drop_last() == pv.take(i as int));
                    assert(pv.take(i + 1).last() == parts@[i as int]@);
                }
                match &parts[i] {
                    ContentPart::Text { text } => push_str(&mut out, text.as_str()),
                    ContentPart::ImageUrl { .. } => {
                        if attachment_notices {
                            push_str(
                                &mut out,
                                "\n[Image attachment omitted by Chat Completions adapter]\n",
                            );
                        }
                    },
                    ContentPart::Document { document } => {
                        if attachment_notices {
                            push_str(&mut out, "\n[Document attachment ");
                            push_str(&mut out, document.filename.as_str());
                            push_str(&mut out, " (");
                            push_str(&mut out, document.mime_type.as_str());
                            push_str(&mut out, ") omitted by Chat Completions adapter]\n");
                        }
                    },
                }
                i += 1;
            }
            proof {
                assert(pv.take(pv.len() as int) == pv);
            }
            out
        },
    }
}

pub open spec fn member(key: Seq<char>, value: JsonView) -> (Seq<char>, JsonView) {
    (key, value)
}

pub open spec fn obj2(k1: Seq<char>, v1: JsonView, k2: Seq<char>, v2: JsonView) -> JsonView {
    JsonView::Object(Seq::empty().push(member(k1, v1)).push(member(k2, v2)))
}

pub open spec fn obj1(k1: Seq<char>, v1: JsonView) -> JsonView {
    JsonView::Object(Seq::empty().push(member(k1, v1)))
}

/// The wire form of one part of user content.
pub open spec fn part_json(p: ContentPartView) -> JsonView {
    if p.kind == 0 {
        obj2("type"@, JsonView::Str("text"@), "text"@, JsonView::Str(p.text))
    } else if p.kind == 1 {
        obj2(
            "type"@,
            JsonView::Str("image_url"@),
            "image_url"@,
            if p.extra.len() > 0 {
                obj2("url"@, JsonView::Str(p.text), "detail"@, JsonView::Str(p.extra))
            } else {
                obj1("url"@, JsonView::Str(p.text))
            },
        )
    } else if p.data.len() >= 5 && p.data.take(5) == "data:"@ {
        obj2(
            "type"@,
            JsonView::Str("file"@),
            "file"@,
            obj2("filename"@, JsonView::Str(p.text), "file_data"@, JsonView::Str(p.data)),
        )
    } else {
        obj2(
            "type"@,
            JsonView::Str("text"@),
            "text"@,
            JsonView::Str(
                "[Document attachment "@ + p.text + " ("@ + p.extra
                    + ") omitted: Chat Completions cannot attach this remote URL]"@,
            ),
        )
    }
}

/// The wire form of message content: a string for every role but the
/// user's (with attachment notes except in tool results); for the user,
/// the text, or one block per part.
pub open spec fn content_json(c: ContentView, role: Role) -> JsonView {
    if role != Role::User {
        JsonView::Str(fallback_text(c, role != Role::Tool))
    } else {
        match c {
            ContentView::Text(t) => JsonView::Str(t),
            ContentView::Parts(ps) => JsonView::Array(ps.map_values(|p: ContentPartView| part_json(p))),
        }
    }
}

pub(crate) fn str_member(fields: &mut Vec<(String, Json)>, key: &str, value: &str)
    ensures
        fields_view(final(fields)@) == fields_view(old(fields)@).push((key@, JsonView::Str(value@))),
{
    push_field(fields, key, Json::string(value));
}

pub(crate) fn starts_with_data(s: &str) -> (r: bool)
    ensures
        r == (s@.len() >= 5 && s@.take(5) == "data:"@),
{
    let v = crate::text::chars_of(s);
    let prefix = crate::text::chars_of("data:");
    proof {
        reveal_strlit("data:");
        assert(prefix@ == "data:"@);
        assert(prefix@.len() == 5);
    }
    if v.len() < 5 {
        return false;
    }
    let r = crate::text::occurs_at_exec(&v, &prefix, 0);
    proof {
        if r {
            assert(v@.take(5) =~= "data:"@) by {
                assert forall|k: int| 0 <= k < 5 implies v@.take(5)[k] == prefix@[k] by {
                    assert(v@[0 + k] == prefix@[k]);
                }
            }
        } else {
            if v@.take(5) == "data:"@ {
                assert forall|k: int| 0 <= k < prefix@.len() implies v@[0 + k] == prefix@[k] by {
                    assert(v@.take(5)[k] == v@[k]);
                }
            }
        }
    }
    r
}

fn part_to_json(part: &ContentPart) -> (r: Json)
    ensures
        json_view(r) == part_json(part@),
{
    let mut fields: Vec<(String, Json)> = crate::json::no_members();
    match part {
        ContentPart::Text { text } => {
            str_member(&mut fields, "type", "text");
            str_member(&mut fields, "text", text.as_str());
        },
        ContentPart::ImageUrl { image_url } => {
            str_member(&mut fields, "type", "image_url");
            let mut inner: Vec<(String, Json)> = crate::json::no_members();
            str_member(&mut inner, "url", image_url.url.as_str());
            if let Some(detail) = image_url.detail {
                str_member(&mut inner, "detail", detail.as_str());
            }
            proof {
                reveal_strlit("auto");
                reveal_strlit("low");
                reveal_strlit("high");
            }
            push_field(&mut fields, "image_url", Json::object(inner));
        },
        ContentPart::Document { document } => {
            if starts_with_data(document.data.as_str()) {
                str_member(&mut fields, "type", "file");
                let mut inner: Vec<(String, Json)> = crate::json::no_members();
                str_member(&mut inner, "filename", document.filename.as_str());
                str_member(&mut inner, "file_data", document.data.as_str());
                push_field(&mut fields, "file", Json::object(inner));
            } else {
                str_member(&mut fields, "type", "text");
                let mut note = owned("[Document attachment ");
                push_str(&mut note, document.filename.as_str());
                push_str(&mut note, " (");
                push_str(&mut note, document.mime_type.as_str());
                push_str(&mut note, ") omitted: Chat Completions cannot attach this remote URL]");
                str_member(&mut fields, "text", note.as_str());
            }
        },
    }
    let r = Json::object(fields);
    proof {
        assert(fields_view(fields@) =~= match part_json(part@) {
            JsonView::Object(o) => o,
            _ => Seq::empty(),
        });
    }
    r
}

pub fn content_to_json(content: &Content, role: Role) -> (r: Json)
    ensures
        json_view(r) == content_json(content@, role),
{
    if role != Role::User {
        let text = chat_text_fallback(content, role != Role::Tool);
        return Json::Str(text);
    }
    match content {
        Content::Text(t) => Json::Str(t.clone()),
        Content::Parts(parts) => {
            let ghost pv = crate::types::parts_view(parts@);
            let mut items: Vec<Json> = crate::json::no_items();
            let mut i: usize = 0;
            while i < parts.len()
                invariant
                    i <= parts@.len(),
                    pv == crate::types::parts_view(parts@),
                    items_view(items@) == pv.take(i as int).map_values(|p: ContentPartView| part_json(p)),
                decreases parts.len() - i,
            {
                push_item(&mut items, part_to_json(&parts[i]));
                proof {
                    let f = |p: ContentPartView| part_json(p);
                    assert(pv.take(i + 1).map_values(f) =~= pv.take(i as int).map_values(f).push(
                        f(pv[i as int]),
                    ));
                }
                i += 1;
            }
            proof {
                assert(pv.take(pv.len() as int) == pv);
            }
            Json::array(items)
        },
    }
}

/// A reasoning field that an assistant message replays.
pub open spec fn is_reasoning_key(k: Seq<char>) -> bool {
    k == "reasoning"@ || k == "reasoning_content"@ || k == "reasoning_details"@
}

/// The reasoning members of `ms`, in order.
pub open spec fn reasoning_members(ms: Seq<(Seq<char>, JsonView)>) -> Seq<(Seq<char>, JsonView)>
    decreases ms.len(),
{
    if ms.len() == 0 {
        Seq::empty()
    } else if is_reasoning_key(ms.last().0) {
        reasoning_members(ms.drop_last()).push(ms.last())
    } else {
        reasoning_members(ms.drop_last())
    }
}

/// The reasoning an assistant message replays from a Chat Completions
/// replay state (an object).
pub open spec fn replayed_reasoning(m: MessageView) -> Seq<(Seq<char>, JsonView)> {
    if m.role == Role::Assistant {
        match m.provider_state {
            Some(JsonView::Object(ms)) => reasoning_members(ms),
            _ => Seq::empty(),
        }
    } else {
        Seq::empty()
    }
}

/// The wire form of a tool call.
pub open spec fn call_json(c: ToolCallView) -> JsonView {
    JsonView::Object(
        Seq::empty().push(member("id"@, JsonView::Str(c.id))).push(
            member("type"@, JsonView::Str("function"@)),
        ).push(
            member(
                "function"@,
                obj2("name"@, JsonView::Str(c.name), "arguments"@, JsonView::Str(c.arguments)),
            ),
        ),
    )
}

/// The wire form of a message: its role; its content; its tool calls when
/// it has any; the call it answers; the reasoning it replays.
pub open spec fn message_json(m: MessageView) -> JsonView {
    JsonView::Object(
        Seq::empty().push(member("role"@, JsonView::Str(role_text(m.role)))) + match m.content {
            Some(c) => Seq::empty().push(member("content"@, content_json(c, m.role))),
            None => Seq::empty(),
        } + if m.tool_calls.len() > 0 {
            Seq::empty().push(
                member(
                    "tool_calls"@,
                    JsonView::Array(m.tool_calls.map_values(|c: ToolCallView| call_json(c))),
                ),
            )
        } else {
            Seq::empty()
        } + match m.tool_call_id {
            Some(id) => Seq::empty().push(member("tool_call_id"@, JsonView::Str(id))),
            None => Seq::empty(),
        } + replayed_reasoning(m),
    )
}

fn call_to_json(call: &ToolCall) -> (r: Json)
    ensures
        json_view(r) == call_json(call@),
{
    let mut fields: Vec<(String, Json)> = crate::json::no_members();
    str_member(&mut fields, "id", call.id.as_str());
    str_member(&mut fields, "type", "function");
    let mut inner: Vec<(String, Json)> = crate::json::no_members();
    str_member(&mut inner, "name", call.name.as_str());
    str_member(&mut inner, "arguments", call.arguments.as_str());
    push_field(&mut fields, "function", Json::object(inner));
    let r = Json::object(fields);
    proof {
        assert(fields_view(fields@) =~= match call_json(call@) {
            JsonView::Object(o) => o,
            _ => Seq::empty(),
        });
    }
    r
}

fn push_reasoning_members(fields: &mut Vec<(String, Json)>, members: &Vec<(String, Json)>)
    ensures
        fields_view(final(fields)@) == fields_view(old(fields)@) + reasoning_members(
            fields_view(members@),
        ),
{
    let ghost mv = fields_view(members@);
    let ghost start = fields_view(fields@);
    let reasoning = owned("reasoning");
    let reasoning_content = owned("reasoning_content");
    let reasoning_details = owned("reasoning_details");
    let mut i: usize = 0;
    while i < members.len()
        invariant
            i <= members@.len(),
            mv == fields_view(members@),
            reasoning@ == "reasoning"@,
            reasoning_content@ == "reasoning_content"@,
            reasoning_details@ == "reasoning_details"@,
            fields_view(fields@) == start + reasoning_members(mv.take(i as int)),
        decreases members.len() - i,
    {
        proof {
            assert(mv.take(i + 1).drop_last() == mv.take(i as int));
            assert(mv.take(i + 1).last() == mv[i as int]);
        }
        let (k, v) = &members[i];
        if crate::text::string_eq(k, &reasoning) || crate::text::string_eq(k, &reasoning_content)
            || crate::text::string_eq(k, &reasoning_details) {
            push_field(fields, k.as_str(), v.duplicate());
        }
        i += 1;
    }
    proof {
        assert(mv.take(mv.len() as int) == mv);
    }
}

pub fn message_to_json(message: &Message) -> (r: Json)
    ensures
        json_view(r) == message_json(message@),
{
    let ghost m = message@;
    let mut fields: Vec<(String, Json)> = crate::json::no_members();
    str_member(&mut fields, "role", role_name(message.role));
    let ghost f0 = fields_view(fields@);
    match &message.content {
        Some(c) => push_field(&mut fields, "content", content_to_json(c, message.role)),
        None => {},
    }
    let ghost f1 = fields_view(fields@);
    if message.tool_calls.len() > 0 {
        let ghost cv = crate::types::tool_calls_view(message.tool_calls@);
        let mut items: Vec<Json> = crate::json::no_items();
        let mut i: usize = 0;
        while i < message.tool_calls.len()
            invariant
                i <= message.tool_calls@.len(),
                cv == crate::types::tool_calls_view(message.tool_calls@),
                items_view(items@) == cv.take(i as int).map_values(|c: ToolCallView| call_json(c)),
            decreases message.tool_calls.len() - i,
        {
            push_item(&mut items, call_to_json(&message.tool_calls[i]));
            proof {
                let f = |c: ToolCallView| call_json(c);
                assert(cv.take(i + 1).map_values(f) =~= cv.take(i as int).map_values(f).push(
                    f(cv[i as int]),
                ));
            }
            i += 1;
        }
        proof {
            assert(cv.take(cv.len() as int) == cv);
        }
        push_field(&mut fields, "tool_calls", Json::array(items));
    }
    let ghost f2 = fields_view(fields@);
    match &message.tool_call_id {
        Some(id) => str_member(&mut fields, "tool_call_id", id.as_str()),
        None => {},
    }
    let ghost f3 = fields_view(fields@);
    if message.role == Role::Assistant {
        match &message.provider_state {
            Some(Json::Object(members)) => {
                proof {
                    assert(match crate::json::opt_json_view(message.provider_state) {
                        Some(JsonView::Object(o)) => o =~= fields_view(members@),
                        _ => false,
                    });
                }
                push_reasoning_members(&mut fields, members)
            },
            _ => {},
        }
    }
    let r = Json::object(fields);
    proof {
        assert(f3 + replayed_reasoning(m) == fields_view(fields@));
        assert(fields_view(fields@) =~= match message_json(m) {
            JsonView::Object(o) => o,
            _ => Seq::empty(),
        });
    }
    r
}

/// The text part with `text`.
pub open spec fn text_part(text: Seq<char>) -> ContentPartView {
    ContentPartView { kind: 0, text, extra: Seq::empty(), data: Seq::empty() }
}

/// The parts of `ps` that are not text, in order.
pub open spec fn attachment_parts(ps: Seq<ContentPartView>) -> Seq<ContentPartView>
    decreases ps.len(),
{
    if ps.len() == 0 {
        Seq::empty()
    } else if ps.last().kind != 0 {
        attachment_parts(ps.drop_last()).push(ps.last())
    } else {
        attachment_parts(ps.drop_last())
    }
}

/// What a tool result hands on to the next user message: a heading naming
/// the call, then its attachments, when it has any.
pub open spec fn attachments_of(m: MessageView) -> Seq<ContentPartView> {
    if m.role == Role::Tool {
        match m.content {
            Some(ContentView::Parts(ps)) => {
                let a = attachment_parts(ps);
                if a.len() > 0 {
                    Seq::empty().push(
                        text_part(
                            "Attachments returned by tool call "@ + match m.tool_call_id {
                                Some(id) => id,
                                None => "unknown"@,
                            } + ":\n"@,
                        ),
                    ) + a
                } else {
                    Seq::empty()
                }
            },
            _ => Seq::empty(),
        }
    } else {
        Seq::empty()
    }
}

/// `out` followed by one user message carrying the `pending` attachments,
/// when there are any.
pub open spec fn flushed(out: Seq<JsonView>, pending: Seq<ContentPartView>) -> Seq<JsonView> {
    if pending.len() == 0 {
        out
    } else {
        out.push(
            obj2(
                "role"@,
                JsonView::Str("user"@),
                "content"@,
                content_json(ContentView::Parts(pending), Role::User),
            ),
        )
    }
}

/// The wire messages so far and the attachments waiting for the end of
/// the current batch of tool results.
pub open spec fn chat_fold(ms: Seq<MessageView>) -> (Seq<JsonView>, Seq<ContentPartView>)
    decreases ms.len(),
{
    if ms.len() == 0 {
        (Seq::empty(), Seq::empty())
    } else {
        let (out, pending) = chat_fold(ms.drop_last());
        let m = ms.last();
        let (out1, pending1) = if m.role != Role::Tool {
            (flushed(out, pending), Seq::empty())
        } else {
            (out, pending)
        };
        (out1.push(message_json(m)), pending1 + attachments_of(m))
    }
}

/// The wire messages of a transcript: each message in order, and after
/// each batch of tool results one user message with their attachments.
pub open spec fn chat_messages_json(ms: Seq<MessageView>) -> Seq<JsonView> {
    let (out, pending) = chat_fold(ms);
    flushed(out, pending)
}

fn flush_tool_attachments(output: &mut Vec<Json>, pending: &mut Vec<ContentPart>)
    ensures
        items_view(final(output)@) == flushed(items_view(old(output)@), crate::types::parts_view(old(pending)@)),
        final(pending)@.len() == 0,
{
    if pending.len() == 0 {
        proof {
            assert(crate::types::parts_view(pending@) =~= Seq::empty());
        }
        return;
    }
    let mut parts: Vec<ContentPart> = Vec::new();
    std::mem::swap(&mut parts, pending);
    let content = Content::Parts(parts);
    let mut fields: Vec<(String, Json)> = crate::json::no_members();
    str_member(&mut fields, "role", "user");
    push_field(&mut fields, "content", content_to_json(&content, Role::User));
    let message = Json::object(fields);
    proof {
        assert(fields_view(fields@) =~= match obj2(
            "role"@,
            JsonView::Str("user"@),
            "content"@,
            content_json(content@, Role::User),
        ) {
            JsonView::Object(o) => o,
            _ => Seq::empty(),
        });
    }
    push_item(output, message);
}

fn collect_attachments(message: &Message, pending: &mut Vec<ContentPart>)
    ensures
        crate::types::parts_view(final(pending)@) == crate::types::parts_view(old(pending)@)
            + attachments_of(message@),
{
    let ghost before = crate::types::parts_view(pending@);
    if message.role != Role::Tool {
        proof {
            assert(before + attachments_of(message@) =~= before);
        }
        return;
    }
    match &message.content {
        Some(Content::Parts(parts)) => {
            let ghost pv = crate::types::parts_view(parts@);
            let mut attachments: Vec<ContentPart> = Vec::new();
            let mut i: usize = 0;
            while i < parts.len()
                invariant
                    i <= parts@.len(),
                    pv == crate::types::parts_view(parts@),
                    crate::types::parts_view(attachments@) == attachment_parts(pv.take(i as int)),
                decreases parts.len() - i,
            {
                proof {
                    assert(pv.take(i + 1).drop_last() == pv.take(i as int));
                    assert(pv.take(i + 1).last() == parts@[i as int]@);
                }
                match &parts[i] {
                    ContentPart::Text { .. } => {},
                    other => {
                        attachments.push(other.duplicate());
                    },
                }
                proof {
                    assert(crate::types::parts_view(attachments@) =~= attachment_parts(
                        pv.take(i + 1),
                    ));
                }
                i += 1;
            }
            proof {
                assert(pv.take(pv.len() as int) == pv);
            }
            if attachments.len() == 0 {
                proof {
                    assert(before + attachments_of(message@) =~= before);
                }
                return;
            }
            let mut heading = owned("Attachments returned by tool call ");
            match &message.tool_call_id {
                Some(id) => push_str(&mut heading, id.as_str()),
                None => push_str(&mut heading, "unknown"),
            }
            push_str(&mut heading, ":\n");
            let ghost heading_view = heading@;
            pending.push(ContentPart::Text { text: heading });
            let ghost with_heading = crate::types::parts_view(pending@);
            proof {
                assert(with_heading =~= before.push(text_part(heading_view)));
            }
            let mut k: usize = 0;
            while k < attachments.len()
                invariant
                    k <= attachments@.len(),
                    crate::types::parts_view(pending@) == with_heading
                        + crate::types::parts_view(attachments@).take(k as int),
                decreases attachments.len() - k,
            {
                let ghost prev = pending@;
                pending.push(attachments[k].duplicate());
                proof {
                    let av = crate::types::parts_view(attachments@);
                    assert(crate::types::parts_view(pending@) =~= crate::types::parts_view(prev).push(
                        attachments@[k as int]@,
                    ));
                    assert(av.take(k + 1) =~= av.take(k as int).push(av[k as int]));
                    assert(crate::types::parts_view(pending@) =~= with_heading
                        + crate::types::parts_view(attachments@).take(k + 1));
                }
                k += 1;
            }
            proof {
                assert(crate::types::parts_view(attachments@).take(attachments@.len() as int)
                    == crate::types::parts_view(attachments@));
                assert(crate::types::parts_view(pending@) =~= before + attachments_of(message@));
            }
        },
        _ => {
            proof {
                assert(before + attachments_of(message@) =~= before);
            }
        },
    }
}

/// The wire messages of a transcript for Chat Completions.
pub fn chat_messages(messages: &Vec<Message>) -> (r: Vec<Json>)
    ensures
        items_view(r@) == chat_messages_json(crate::types::messages_view(messages@)),
{
    let ghost mv = crate::types::messages_view(messages@);
    let mut output: Vec<Json> = crate::json::no_items();
    let mut pending: Vec<ContentPart> = Vec::new();
    let mut i: usize = 0;
    while i < messages.len()
        invariant
            i <= messages@.len(),
            mv == crate::types::messages_view(messages@),
            (items_view(output@), crate::types::parts_view(pending@)) == chat_fold(
                mv.take(i as int),
            ),
        decreases messages.len() - i,
    {
        proof {
            assert(mv.take(i + 1).drop_last() == mv.take(i as int));
            assert(mv.take(i + 1).last() == messages@[i as int]@);
        }
        let message = &messages[i];
        if message.role != Role::Tool {
            flush_tool_attachments(&mut output, &mut pending);
            proof {
                assert(crate::types::parts_view(pending@) =~= Seq::empty());
            }
        }
        push_item(&mut output, message_to_json(message));
        collect_attachments(message, &mut pending);
        i += 1;
    }
    proof {
        assert(mv.take(mv.len() as int) == mv);
    }
    flush_tool_attachments(&mut output, &mut pending);
    output
}

/// The position of the first member called `k`, or `fs.len()` when none is.
pub open spec fn key_pos(fs: Seq<(Seq<char>, JsonView)>, k: Seq<char>) -> int
    decreases fs.len(),
{
    if fs.len() == 0 {
        0
    } else if fs[0].0 == k {
        0
    } else {
        1 + key_pos(fs.drop_first(), k)
    }
}

/// The members `fs` with `k` set to `v`: replaced in place, or appended.
pub open spec fn set_member(fs: Seq<(Seq<char>, JsonView)>, k: Seq<char>, v: JsonView) -> Seq<
    (Seq<char>, JsonView),
> {
    let p = key_pos(fs, k);
    if p < fs.len() {
        fs.update(p, (k, v))
    } else {
        fs.push((k, v))
    }
}

/// The members `fs` with each member of `extra` set in turn.
pub open spec fn merge_members(
    fs: Seq<(Seq<char>, JsonView)>,
    extra: Seq<(Seq<char>, JsonView)>,
) -> Seq<(Seq<char>, JsonView)>
    decreases extra.len(),
{
    if extra.len() == 0 {
        fs
    } else {
        set_member(merge_members(fs, extra.drop_last()), extra.last().0, extra.last().1)
    }
}

pub proof fn lemma_key_pos_exact(fs: Seq<(Seq<char>, JsonView)>, k: Seq<char>, p: int)
    requires
        0 <= p <= fs.len(),
        forall|j: int| 0 <= j < p ==> (#[trigger] fs[j]).0 != k,
        p < fs.len() ==> fs[p].0 == k,
    ensures
        key_pos(fs, k) == p,
    decreases p,
{
    if p > 0 {
        assert(fs[0].0 != k);
        assert forall|j: int| 0 <= j < p - 1 implies (#[trigger] fs.drop_first()[j]).0 != k by {
            assert(fs.drop_first()[j] == fs[j + 1]);
        }
        if p - 1 < fs.drop_first().len() {
            assert(fs.drop_first()[p - 1] == fs[p]);
        }
        lemma_key_pos_exact(fs.drop_first(), k, p - 1);
    }
}

/// Sets the member `key` of an object's members to `value`.
pub fn set_field(fields: &mut Vec<(String, Json)>, key: &str, value: Json)
    ensures
        fields_view(final(fields)@) == set_member(fields_view(old(fields)@), key@, json_view(value)),
{
    let ghost fv = fields_view(fields@);
    let ghost v = json_view(value);
    let target = owned(key);
    let mut p: usize = 0;
    while p < fields.len() && !crate::text::string_eq(&fields[p].0, &target)
        invariant
            p <= fields@.len(),
            target@ == key@,
            fv == fields_view(fields@),
            forall|j: int| 0 <= j < p ==> (#[trigger] fv[j]).0 != key@,
        decreases fields.len() - p,
    {
        p += 1;
    }
    proof {
        if p < fv.len() {
            assert(fv[p as int].0 == key@);
        }
        lemma_key_pos_exact(fv, key@, p as int);
    }
    if p < fields.len() {
        fields.set(p, (target, value));
        proof {
            assert(fields_view(fields@) =~= fv.update(p as int, (key@, v)));
        }
    } else {
        push_field(fields, key, value);
    }
}

/// The wire form of a tool definition.
pub open spec fn tool_json(d: ToolDefinitionView) -> JsonView {
    obj2(
        "type"@,
        JsonView::Str("function"@),
        "function"@,
        JsonView::Object(
            Seq::empty().push(member("name"@, JsonView::Str(d.name))).push(
                member("description"@, JsonView::Str(d.description)),
            ).push(member("parameters"@, JsonView::Raw(d.parameters))),
        ),
    )
}

fn tool_to_json(d: &ToolDefinition) -> (r: Json)
    ensures
        json_view(r) == tool_json(d@),
{
    let mut inner: Vec<(String, Json)> = crate::json::no_members();
    str_member(&mut inner, "name", d.name.as_str());
    str_member(&mut inner, "description", d.description.as_str());
    push_field(&mut inner, "parameters", Json::Raw(d.parameters.clone()));
    let mut fields: Vec<(String, Json)> = crate::json::no_members();
    str_member(&mut fields, "type", "function");
    push_field(&mut fields, "function", Json::object(inner));
    let r = Json::object(fields);
    proof {
        assert(fields_view(fields@) =~= match tool_json(d@) {
            JsonView::Object(o) => o,
            _ => Seq::empty(),
        });
    }
    r
}

/// The members of a Chat Completions request before the extra members.
pub open spec fn chat_body_members(
    msgs: Seq<MessageView>,
    tools: Seq<ToolDefinitionView>,
    max_tokens: Option<u32>,
    effort: Option<ReasoningEffort>,
    model: Seq<char>,
) -> Seq<(Seq<char>, JsonView)> {
    Seq::empty().push(member("model"@, JsonView::Str(model))).push(
        member("messages"@, JsonView::Array(chat_messages_json(msgs))),
    ).push(member("stream"@, JsonView::Bool(true))).push(
        member("stream_options"@, obj1("include_usage"@, JsonView::Bool(true))),
    ) + (if tools.len() > 0 {
        Seq::empty().push(
            member("tools"@, JsonView::Array(tools.map_values(|d: ToolDefinitionView| tool_json(d)))),
        )
    } else {
        Seq::empty()
    }) + match max_tokens {
        Some(n) => Seq::empty().push(
            member(
                if effort is Some {
                    "max_completion_tokens"@
                } else {
                    "max_tokens"@
                },
                JsonView::UInt(n as u64),
            ),
        ),
        None => Seq::empty(),
    } + match effort {
        Some(e) => Seq::empty().push(member("reasoning_effort"@, JsonView::Str(effort_text(e)))),
        None => Seq::empty(),
    }
}

/// `s` without its trailing slashes.
pub open spec fn strip_trailing_slashes(s: Seq<char>) -> Seq<char>
    decreases s.len(),
{
    if s.len() > 0 && s.last() == '/' {
        strip_trailing_slashes(s.drop_last())
    } else {
        s
    }
}

pub(crate) fn trim_trailing_slashes(s: &str) -> (r: String)
    ensures
        r@ == strip_trailing_slashes(s@),
{
    let v = crate::text::chars_of(s);
    let mut end: usize = v.len();
    proof {
        assert(v@.take(end as int) == v@);
    }
    while end > 0 && v[end - 1] == '/'
        invariant
            end <= v@.len(),
            strip_trailing_slashes(v@.take(end as int)) == strip_trailing_slashes(v@),
        decreases end,
    {
        proof {
            assert(v@.take(end as int).drop_last() == v@.take(end - 1));
        }
        end -= 1;
    }
    proof {
        assert(strip_trailing_slashes(v@.take(end as int)) == v@.take(end as int));
    }
    crate::text::string_of(&v, 0, end)
}

/// The OpenAI Chat Completions adapter's configuration: credentials,
/// endpoint, model, extra body members and retry policy.
pub struct OpenAiChatProvider {
    api_key: String,
    base_url: String,
    model: String,
    extra_body: Vec<(String, Json)>,
    retry_config: crate::retry::RetryConfig,
}

/// The error of an incomplete configuration.
pub const EMPTY_ENDPOINT_OR_MODEL: &'static str = "base URL and model must not be empty";

/// The error of an extra body that is not an object.
pub const EXTRA_BODY_NOT_OBJECT: &'static str = "extra request body must be a JSON object";

/// The extra members of a request body: those of a JSON object.
pub fn parse_extra_body(extra_body: Json) -> (r: Result<Vec<(String, Json)>, ProviderError>)
    ensures
        match json_view(extra_body) {
            JsonView::Object(o) => r matches Ok(fs) && fields_view(fs@) == o,
            _ => r matches Err(ProviderError::InvalidConfiguration(m)) && m@ == EXTRA_BODY_NOT_OBJECT@,
        },
{
    match extra_body {
        Json::Object(fields) => {
            proof {
                assert(match json_view(Json::Object(fields)) {
                    JsonView::Object(o) => o =~= fields_view(fields@),
                    _ => false,
                });
            }
            Ok(fields)
        },
        _ => Err(ProviderError::InvalidConfiguration(owned(EXTRA_BODY_NOT_OBJECT))),
    }
}

impl OpenAiChatProvider {
    #[verifier::type_invariant]
    spec fn inv(self) -> bool {
        &&& !all_ws(self.api_key@)
        &&& !all_ws(self.model@)
    }

    pub closed spec fn spec_api_key(&self) -> Seq<char> {
        self.api_key@
    }

    pub closed spec fn spec_base_url(&self) -> Seq<char> {
        self.base_url@
    }

    pub closed spec fn spec_model(&self) -> Seq<char> {
        self.model@
    }

    pub closed spec fn spec_extra_body(&self) -> Seq<(Seq<char>, JsonView)> {
        fields_view(self.extra_body@)
    }

    pub closed spec fn spec_retry_config(&self) -> crate::retry::RetryConfig {
        self.retry_config
    }

    /// A configuration for `model` at `base_url` (without trailing
    /// slashes), with no extra members and the default retry policy. The
    /// key must not be blank, nor the URL or the model.
    pub fn new(api_key: String, base_url: &str, model: String) -> (r: Result<Self, ProviderError>)
        ensures
            all_ws(api_key@) ==> r == Err::<Self, ProviderError>(ProviderError::MissingApiKey),
            !all_ws(api_key@) && (all_ws(base_url@) || all_ws(model@)) ==> (r matches Err(
                ProviderError::InvalidConfiguration(m),
            ) && m@ == EMPTY_ENDPOINT_OR_MODEL@),
            r is Ok <==> !all_ws(api_key@) && !all_ws(base_url@) && !all_ws(model@),
            r matches Ok(p) ==> p.spec_api_key() == api_key@ && p.spec_base_url()
                == strip_trailing_slashes(base_url@) && p.spec_model() == model@
                && p.spec_extra_body().len() == 0,
    {
        if is_blank(api_key.as_str()) {
            return Err(ProviderError::MissingApiKey);
        }
        if is_blank(base_url) || is_blank(model.as_str()) {
            return Err(ProviderError::InvalidConfiguration(owned(EMPTY_ENDPOINT_OR_MODEL)));
        }
        let trimmed = trim_trailing_slashes(base_url);
        Ok(
            OpenAiChatProvider {
                api_key,
                base_url: trimmed,
                model,
                extra_body: crate::json::no_members(),
                retry_config: crate::retry::RetryConfig::default(),
            },
        )
    }
}


impl OpenAiChatProvider {
    pub fn api_key(&self) -> (r: &str)
        ensures
            r@ == self.spec_api_key(),
    {
        self.api_key.as_str()
    }

    pub fn base_url(&self) -> (r: &str)
        ensures
            r@ == self.spec_base_url(),
    {
        self.base_url.as_str()
    }

    pub fn model(&self) -> (r: &str)
        ensures
            r@ == self.spec_model(),
    {
        self.model.as_str()
    }

    pub fn retry_settings(&self) -> (r: crate::retry::RetryConfig)
        ensures
            r == self.spec_retry_config(),
    {
        self.retry_config
    }

    /// A description for logs, with the API key redacted.
    pub fn debug_text(&self) -> (r: String)
        ensures
            r@ == "OpenAiChatProvider { api_key: \"[REDACTED]\", base_url: "@ + debug_str(
                self.spec_base_url(),
            ) + ", model: "@ + debug_str(self.spec_model()) + ", .. }"@,
    {
        let mut r = owned("OpenAiChatProvider { api_key: \"[REDACTED]\", base_url: ");
        push_str(&mut r, debug_string(self.base_url.as_str()).as_str());
        push_str(&mut r, ", model: ");
        push_str(&mut r, debug_string(self.model.as_str()).as_str());
        push_str(&mut r, ", .. }");
        r
    }

    /// The Chat Completions endpoint.
    pub fn endpoint(&self) -> (r: String)
        ensures
            r@ == self.spec_base_url() + "/chat/completions"@,
    {
        let mut r = self.base_url.clone();
        push_str(&mut r, "/chat/completions");
        r
    }

    /// Sets the members appended to every request body; they must form a
    /// JSON object.
    pub fn extra_body(self, extra_body: Json) -> (r: Result<Self, ProviderError>)
        ensures
            match json_view(extra_body) {
                JsonView::Object(o) => r matches Ok(p) && p.spec_extra_body() == o && p.spec_api_key()
                    == self.spec_api_key() && p.spec_base_url() == self.spec_base_url() && p.spec_model()
                    == self.spec_model() && p.spec_retry_config() == self.spec_retry_config(),
                _ => r matches Err(ProviderError::InvalidConfiguration(m)) && m@
                    == EXTRA_BODY_NOT_OBJECT@,
            },
    {
        proof {
            use_type_invariant(&self);
        }
        match parse_extra_body(extra_body) {
            Ok(fields) => Ok(OpenAiChatProvider { extra_body: fields, ..self }),
            Err(e) => Err(e),
        }
    }

    pub fn retry_config(self, retry_config: crate::retry::RetryConfig) -> (r: Self)
        ensures
            r.spec_retry_config() == retry_config,
            r.spec_api_key() == self.spec_api_key(),
            r.spec_base_url() == self.spec_base_url(),
            r.spec_model() == self.spec_model(),
            r.spec_extra_body() == self.spec_extra_body(),
    {
        proof {
            use_type_invariant(&self);
        }
        OpenAiChatProvider { retry_config, ..self }
    }

    pub fn max_retries(self, max_retries: usize) -> (r: Self)
        ensures
            r.spec_retry_config()@ == (crate::retry::RetryConfigView {
                max_retries,
                ..self.spec_retry_config()@
            }),
            r.spec_api_key() == self.spec_api_key(),
            r.spec_base_url() == self.spec_base_url(),
            r.spec_model() == self.spec_model(),
            r.spec_extra_body() == self.spec_extra_body(),
    {
        proof {
            use_type_invariant(&self);
        }
        let retry_config = self.retry_config.with_max_retries(max_retries);
        OpenAiChatProvider { retry_config, ..self }
    }

    /// The body of a streamed Chat Completions request: the model (the
    /// request's override or the configured one), the wire messages, the
    /// streaming options, the advertised tools, the output limit (named for
    /// reasoning models when an effort is set) and the effort; then the
    /// extra members, each replacing a member of the same name.
    pub fn request_body(&self, request: &ProviderRequest) -> (r: Json)
        ensures
            json_view(r) == JsonView::Object(
                merge_members(
                    chat_body_members(
                        crate::types::messages_view(request.messages@),
                        crate::types::definitions_view(request.tools@),
                        request.config.max_tokens,
                        request.config.reasoning_effort,
                        match request.config.model {
                            Some(m) => m@,
                            None => self.spec_model(),
                        },
                    ),
                    self.spec_extra_body(),
                ),
            ),
    {
        let ghost tv = crate::types::definitions_view(request.tools@);
        let mut fields: Vec<(String, Json)> = crate::json::no_members();
        let model = match &request.config.model {
            Some(m) => m.as_str(),
            None => self.model.as_str(),
        };
        str_member(&mut fields, "model", model);
        push_field(&mut fields, "messages", Json::array(chat_messages(&request.messages)));
        push_field(&mut fields, "stream", Json::Bool(true));
        let mut options: Vec<(String, Json)> = crate::json::no_members();
        push_field(&mut options, "include_usage", Json::Bool(true));
        push_field(&mut fields, "stream_options", Json::object(options));
        let ghost base = fields_view(fields@);
        if request.tools.len() > 0 {
            let mut items: Vec<Json> = crate::json::no_items();
            let mut i: usize = 0;
            while i < request.tools.len()
                invariant
                    i <= request.tools@.len(),
                    tv == crate::types::definitions_view(request.tools@),
                    items_view(items@) == tv.take(i as int).map_values(
                        |d: ToolDefinitionView| tool_json(d),
                    ),
                decreases request.tools.len() - i,
            {
                push_item(&mut items, tool_to_json(&request.tools[i]));
                proof {
                    let f = |d: ToolDefinitionView| tool_json(d);
                    assert(tv.take(i + 1).map_values(f) =~= tv.take(i as int).map_values(f).push(
                        f(tv[i as int]),
                    ));
                }
                i += 1;
            }
            proof {
                assert(tv.take(tv.len() as int) == tv);
            }
            push_field(&mut fields, "tools", Json::array(items));
        }
        let ghost with_tools = fields_view(fields@);
        match request.config.max_tokens {
            Some(n) => {
                let field = if request.config.reasoning_effort.is_some() {
                    "max_completion_tokens"
                } else {
                    "max_tokens"
                };
                push_field(&mut fields, field, Json::UInt(n as u64));
            },
            None => {},
        }
        let ghost with_limit = fields_view(fields@);
        match request.config.reasoning_effort {
            Some(e) => str_member(&mut fields, "reasoning_effort", effort_name(e)),
            None => {},
        }
        proof {
            let expected = chat_body_members(
                crate::types::messages_view(request.messages@),
                tv,
                request.config.max_tokens,
                request.config.reasoning_effort,
                model@,
            );
            assert(fields_view(fields@) =~= expected);
        }
        crate::provider::merge_extra_body(&mut fields, &self.extra_body);
        Json::object(fields)
    }
}

} // verus!
