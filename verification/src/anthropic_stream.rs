//! Anthropic Messages responses: the accumulation of a streamed response
//! (text, thinking, tool uses, usage and the blocks kept for replay) and
//! the reading of a complete one.
use vstd::prelude::*;

use crate::anthropic::{member_of, member_ref, str_of, str_ref, u64_of, u64_ref};
use crate::chat::{
    insert_pos, lemma_insert_pos_exact, pending_view, set_field, set_member, PendingToolCall,
    PendingView,
};
use crate::json::{fields_view, json_text, json_view, Json, JsonView};
use crate::text::{owned, push_str};
use crate::anthropic::str_is;
use crate::chat::{arguments_text, arguments_valid, assemble_calls, json_parse_error};
use crate::error::ProviderError;
use crate::json::{items_view, push_item};
use crate::types::{
    deltas_view, AssistantDelta, AssistantDeltaView, AssistantMessage, Content, ProviderResponse,
    TokenUsage, ToolCall, ToolCallView,
};

verus! {

/// The member `k` of `j`, or `null` when `j` has none (as indexing a JSON
/// value reads it).
pub open spec fn field(j: JsonView, k: Seq<char>) -> JsonView {
    match member_of(j, k) {
        Some(v) => v,
        None => JsonView::Null,
    }
}

/// The text of the string member `k`, empty when there is none.
pub open spec fn str_or_empty(j: JsonView, k: Seq<char>) -> Seq<char> {
    match str_of(j, k) {
        Some(s) => s,
        None => Seq::empty(),
    }
}

/// The index an event names, zero when it names none.
pub open spec fn event_index(e: JsonView) -> u64 {
    match u64_of(e, "index"@) {
        Some(n) => n,
        None => 0,
    }
}

/// What a Messages stream has accumulated.
pub ghost struct MessagesStreamView {
    pub reasoning: Seq<char>,
    pub text: Seq<char>,
    /// Tool uses in increasing index order.
    pub tools: Seq<PendingView>,
    /// The raw content blocks, by increasing index.
    pub blocks: Seq<(u64, JsonView)>,
    pub input_tokens: u64,
    pub output_tokens: u64,
    pub cache_read_tokens: u64,
    pub cache_creation_tokens: u64,
    pub has_usage: bool,
}

/// Where the block with `index` stands, or would be inserted, in `bs`.
pub open spec fn block_pos(bs: Seq<(u64, JsonView)>, index: u64) -> nat
    decreases bs.len(),
{
    if bs.len() == 0 || bs[0].0 >= index {
        0
    } else {
        1 + block_pos(bs.drop_first(), index)
    }
}

/// Blocks in strictly increasing index order.
pub open spec fn sorted_blocks(bs: Seq<(u64, JsonView)>) -> bool {
    forall|i: int, j: int| 0 <= i < j < bs.len() ==> (#[trigger] bs[i]).0 < (#[trigger] bs[j]).0
}

/// `bs` with the block at `index` set to `b`.
pub open spec fn put_block(bs: Seq<(u64, JsonView)>, index: u64, b: JsonView) -> Seq<(u64, JsonView)> {
    let p = block_pos(bs, index) as int;
    if p < bs.len() && bs[p].0 == index {
        bs.update(p, (index, b))
    } else {
        bs.insert(p, (index, b))
    }
}

/// `ts` with the tool use at `t.index` set to `t`.
pub open spec fn put_tool(ts: Seq<PendingView>, t: PendingView) -> Seq<PendingView> {
    let p = insert_pos(ts, t.index) as int;
    if p < ts.len() && ts[p].index == t.index {
        ts.update(p, t)
    } else {
        ts.insert(p, t)
    }
}

/// `ts` with `fragment` appended to the arguments of the tool use at
/// `index`, which starts empty when there is none yet.
pub open spec fn append_arguments(ts: Seq<PendingView>, index: u64, fragment: Seq<char>) -> Seq<PendingView> {
    let p = insert_pos(ts, index) as int;
    if p < ts.len() && ts[p].index == index {
        ts.update(p, PendingView { arguments: ts[p].arguments + fragment, ..ts[p] })
    } else {
        ts.insert(
            p,
            PendingView { index, id: Seq::empty(), name: Seq::empty(), arguments: fragment },
        )
    }
}

/// A block with `fragment` appended to its string member `k` (which is set
/// to `fragment` when it is not a string).
pub open spec fn appended_member(b: JsonView, k: Seq<char>, fragment: Seq<char>) -> JsonView {
    match b {
        JsonView::Object(o) => JsonView::Object(
            set_member(
                o,
                k,
                JsonView::Str(
                    match member_of(b, k) {
                        Some(JsonView::Str(e)) => e + fragment,
                        _ => fragment,
                    },
                ),
            ),
        ),
        _ => b,
    }
}

/// `bs` with a non-empty `fragment` appended to the member `k` of the block
/// at `index`, when there is one.
pub open spec fn append_block_text(
    bs: Seq<(u64, JsonView)>,
    index: u64,
    k: Seq<char>,
    fragment: Seq<char>,
) -> Seq<(u64, JsonView)> {
    let p = block_pos(bs, index) as int;
    if fragment.len() > 0 && p < bs.len() && bs[p].0 == index {
        bs.update(p, (index, appended_member(bs[p].1, k, fragment)))
    } else {
        bs
    }
}

/// The state after a usage object: each count it carries replaces the
/// last one. Anything but an object is ignored.
pub open spec fn usage_step(s: MessagesStreamView, u: JsonView) -> MessagesStreamView {
    if u is Object {
        MessagesStreamView {
            has_usage: true,
            input_tokens: match u64_of(u, "input_tokens"@) {
                Some(n) => n,
                None => s.input_tokens,
            },
            output_tokens: match u64_of(u, "output_tokens"@) {
                Some(n) => n,
                None => s.output_tokens,
            },
            cache_read_tokens: match u64_of(u, "cache_read_input_tokens"@) {
                Some(n) => n,
                None => s.cache_read_tokens,
            },
            cache_creation_tokens: match u64_of(u, "cache_creation_input_tokens"@) {
                Some(n) => n,
                None => s.cache_creation_tokens,
            },
            ..s
        }
    } else {
        s
    }
}

/// The initial arguments of a tool use: the text of a non-empty input
/// object, empty otherwise.
pub open spec fn initial_arguments(b: JsonView) -> Seq<char> {
    match member_of(b, "input"@) {
        Some(JsonView::Object(o)) => if o.len() > 0 {
            json_text(JsonView::Object(o))
        } else {
            Seq::empty()
        },
        _ => Seq::empty(),
    }
}

/// The state after a `content_block_start` event, and the deltas it
/// yields. An object block is kept for replay; a thinking or text block
/// with initial text yields it; a tool use starts with its id, name and
/// initial input.
pub open spec fn start_step(s: MessagesStreamView, e: JsonView) -> (MessagesStreamView, Seq<AssistantDeltaView>) {
    let index = event_index(e);
    let b = field(e, "content_block"@);
    let s1 = if b is Object {
        MessagesStreamView { blocks: put_block(s.blocks, index, b), ..s }
    } else {
        s
    };
    let ty = str_of(b, "type"@);
    if ty == Some("thinking"@) {
        let t = str_or_empty(b, "thinking"@);
        if t.len() == 0 {
            (s1, Seq::empty())
        } else {
            (MessagesStreamView { reasoning: s1.reasoning + t, ..s1 }, seq![AssistantDeltaView::Reasoning(t)])
        }
    } else if ty == Some("text"@) {
        let t = str_or_empty(b, "text"@);
        if t.len() == 0 {
            (s1, Seq::empty())
        } else {
            (MessagesStreamView { text: s1.text + t, ..s1 }, seq![AssistantDeltaView::Text(t)])
        }
    } else if ty == Some("tool_use"@) {
        let id = str_or_empty(b, "id"@);
        let name = str_or_empty(b, "name"@);
        let initial = initial_arguments(b);
        (
            MessagesStreamView {
                tools: put_tool(s1.tools, PendingView { index, id, name, arguments: initial }),
                ..s1
            },
            seq![
                AssistantDeltaView::ToolCall {
                    index: index as usize,
                    id: Some(id),
                    name: Some(name),
                    arguments: initial,
                },
            ],
        )
    } else {
        (s1, Seq::empty())
    }
}

/// The state after a `content_block_delta` event, and the deltas it
/// yields. Text, thinking and signature fragments are also appended to the
/// block kept for replay; input fragments extend the tool use's arguments.
pub open spec fn delta_step(s: MessagesStreamView, e: JsonView) -> (MessagesStreamView, Seq<AssistantDeltaView>) {
    let index = event_index(e);
    let d = field(e, "delta"@);
    let ty = str_of(d, "type"@);
    if ty == Some("text_delta"@) {
        let t = str_or_empty(d, "text"@);
        (
            MessagesStreamView {
                text: s.text + t,
                blocks: append_block_text(s.blocks, index, "text"@, t),
                ..s
            },
            seq![AssistantDeltaView::Text(t)],
        )
    } else if ty == Some("thinking_delta"@) {
        let t = str_or_empty(d, "thinking"@);
        let s1 = MessagesStreamView {
            blocks: append_block_text(s.blocks, index, "thinking"@, t),
            ..s
        };
        if t.len() == 0 {
            (s1, Seq::empty())
        } else {
            (MessagesStreamView { reasoning: s1.reasoning + t, ..s1 }, seq![AssistantDeltaView::Reasoning(t)])
        }
    } else if ty == Some("signature_delta"@) {
        (
            MessagesStreamView {
                blocks: append_block_text(s.blocks, index, "signature"@, str_or_empty(d, "signature"@)),
                ..s
            },
            Seq::empty(),
        )
    } else if ty == Some("input_json_delta"@) {
        let f = str_or_empty(d, "partial_json"@);
        (
            MessagesStreamView { tools: append_arguments(s.tools, index, f), ..s },
            seq![
                AssistantDeltaView::ToolCall {
                    index: index as usize,
                    id: None,
                    name: None,
                    arguments: f,
                },
            ],
        )
    } else {
        (s, Seq::empty())
    }
}

/// The state after one stream event, and the deltas it yields: usage from
/// `message_start` and `message_delta`, blocks from `content_block_start`
/// and `content_block_delta`; other events change nothing.
pub open spec fn event_step(s: MessagesStreamView, e: JsonView) -> (MessagesStreamView, Seq<AssistantDeltaView>) {
    let ty = str_of(e, "type"@);
    if ty == Some("message_start"@) {
        (usage_step(s, field(field(e, "message"@), "usage"@)), Seq::empty())
    } else if ty == Some("message_delta"@) {
        (usage_step(s, field(e, "usage"@)), Seq::empty())
    } else if ty == Some("content_block_start"@) {
        start_step(s, e)
    } else if ty == Some("content_block_delta"@) {
        delta_step(s, e)
    } else {
        (s, Seq::empty())
    }
}

/// The usage of reported counts: input counts the cached tokens, read and
/// written, with saturation.
pub open spec fn claude_usage(input: u64, output: u64, cache_read: u64, cache_creation: u64) -> TokenUsage {
    let cached = crate::types::sat_add(cache_read, cache_creation);
    let all_input = crate::types::sat_add(crate::types::sat_add(input, cache_read), cache_creation);
    TokenUsage {
        input_tokens: all_input,
        output_tokens: output,
        total_tokens: crate::types::sat_add(all_input, output),
        cached_input_tokens: cached,
    }
}

/// The usage a stream reported.
pub open spec fn messages_usage(s: MessagesStreamView) -> TokenUsage {
    claude_usage(s.input_tokens, s.output_tokens, s.cache_read_tokens, s.cache_creation_tokens)
}

/// The views of indexed blocks.
pub open spec fn blocks_view(bs: Seq<(u64, Json)>) -> Seq<(u64, JsonView)> {
    Seq::new(bs.len(), |i: int| (bs[i].0, json_view(bs[i].1)))
}

proof fn lemma_block_pos_exact(bs: Seq<(u64, JsonView)>, index: u64, p: int)
    requires
        0 <= p <= bs.len(),
        forall|k: int| 0 <= k < p ==> (#[trigger] bs[k]).0 < index,
        p < bs.len() ==> bs[p].0 >= index,
    ensures
        block_pos(bs, index) == p,
    decreases p,
{
    if p > 0 {
        assert(bs[0].0 < index);
        assert forall|k: int| 0 <= k < p - 1 implies (#[trigger] bs.drop_first()[k]).0 < index by {
            assert(bs.drop_first()[k] == bs[k + 1]);
        }
        if p - 1 < bs.drop_first().len() {
            assert(bs.drop_first()[p - 1] == bs[p]);
        }
        lemma_block_pos_exact(bs.drop_first(), index, p - 1);
    }
}

fn scan_tools(ts: &Vec<PendingToolCall>, index: u64) -> (p: usize)
    ensures
        p == insert_pos(pending_view(ts@), index),
        p <= ts@.len(),
{
    let ghost tv = pending_view(ts@);
    let mut p: usize = 0;
    while p < ts.len() && ts[p].index < index
        invariant
            p <= ts@.len(),
            tv == pending_view(ts@),
            forall|k: int| 0 <= k < p ==> (#[trigger] tv[k]).index < index,
        decreases ts.len() - p,
    {
        p += 1;
    }
    proof {
        lemma_insert_pos_exact(tv, index, p as int);
    }
    p
}

fn scan_blocks(bs: &Vec<(u64, Json)>, index: u64) -> (p: usize)
    ensures
        p == block_pos(blocks_view(bs@), index),
        p <= bs@.len(),
{
    let ghost bv = blocks_view(bs@);
    let mut p: usize = 0;
    while p < bs.len() && bs[p].0 < index
        invariant
            p <= bs@.len(),
            bv == blocks_view(bs@),
            forall|k: int| 0 <= k < p ==> (#[trigger] bv[k]).0 < index,
        decreases bs.len() - p,
    {
        p += 1;
    }
    proof {
        lemma_block_pos_exact(bv, index, p as int);
    }
    p
}

fn put_block_exec(bs: &mut Vec<(u64, Json)>, index: u64, b: Json)
    ensures
        blocks_view(final(bs)@) == put_block(blocks_view(old(bs)@), index, json_view(b)),
{
    let ghost bv = blocks_view(bs@);
    let ghost v = json_view(b);
    let p = scan_blocks(bs, index);
    if p < bs.len() && bs[p].0 == index {
        bs.set(p, (index, b));
        proof {
            assert(blocks_view(bs@) =~= bv.update(p as int, (index, v)));
        }
    } else {
        bs.insert(p, (index, b));
        proof {
            assert(blocks_view(bs@) =~= bv.insert(p as int, (index, v)));
        }
    }
}

fn put_tool_exec(ts: &mut Vec<PendingToolCall>, t: PendingToolCall)
    ensures
        pending_view(final(ts)@) == put_tool(pending_view(old(ts)@), t@),
{
    let ghost tv = pending_view(ts@);
    let ghost v = t@;
    let p = scan_tools(ts, t.index);
    if p < ts.len() && ts[p].index == t.index {
        ts.set(p, t);
        proof {
            assert(pending_view(ts@) =~= tv.update(p as int, v));
        }
    } else {
        ts.insert(p, t);
        proof {
            assert(pending_view(ts@) =~= tv.insert(p as int, v));
        }
    }
}

fn append_arguments_exec(ts: &mut Vec<PendingToolCall>, index: u64, fragment: &str)
    ensures
        pending_view(final(ts)@) == append_arguments(pending_view(old(ts)@), index, fragment@),
{
    let ghost tv = pending_view(ts@);
    let p = scan_tools(ts, index);
    if p < ts.len() && ts[p].index == index {
        let mut arguments = ts[p].arguments.clone();
        push_str(&mut arguments, fragment);
        let t = PendingToolCall {
            index,
            id: ts[p].id.clone(),
            name: ts[p].name.clone(),
            arguments,
        };
        ts.set(p, t);
        proof {
            assert(pending_view(ts@) =~= tv.update(
                p as int,
                PendingView { arguments: tv[p as int].arguments + fragment@, ..tv[p as int] },
            ));
        }
    } else {
        let t = PendingToolCall { index, id: String::new(), name: String::new(), arguments: owned(fragment) };
        ts.insert(p, t);
        proof {
            assert(pending_view(ts@) =~= tv.insert(
                p as int,
                PendingView { index, id: Seq::empty(), name: Seq::empty(), arguments: fragment@ },
            ));
        }
    }
}

fn appended_member_exec(b: &Json, k: &str, fragment: &str) -> (r: Json)
    ensures
        json_view(r) == appended_member(json_view(*b), k@, fragment@),
{
    let value = match member_ref(b, k) {
        Some(Json::Str(e)) => {
            let mut v = e.clone();
            push_str(&mut v, fragment);
            v
        },
        _ => owned(fragment),
    };
    let d = b.duplicate();
    match d {
        Json::Object(mut fs) => {
            proof {
                assert(match json_view(Json::Object(fs)) {
                    JsonView::Object(o) => o =~= fields_view(fs@),
                    _ => false,
                });
            }
            set_field(&mut fs, k, Json::Str(value));
            Json::object(fs)
        },
        other => other,
    }
}

fn append_raw_string(bs: &mut Vec<(u64, Json)>, index: u64, k: &str, fragment: &str)
    ensures
        blocks_view(final(bs)@) == append_block_text(blocks_view(old(bs)@), index, k@, fragment@),
{
    let ghost bv = blocks_view(bs@);
    if fragment.is_empty() {
        return;
    }
    let p = scan_blocks(bs, index);
    if p < bs.len() && bs[p].0 == index {
        let updated = appended_member_exec(&bs[p].1, k, fragment);
        let ghost uv = json_view(updated);
        bs.set(p, (index, updated));
        proof {
            assert(blocks_view(bs@) =~= bv.update(p as int, (index, uv)));
        }
    }
}

/// The accumulated state of an Anthropic Messages stream.
pub struct MessagesStreamState {
    reasoning: String,
    text: String,
    tools: Vec<PendingToolCall>,
    blocks: Vec<(u64, Json)>,
    input_tokens: u64,
    output_tokens: u64,
    cache_read_tokens: u64,
    cache_creation_tokens: u64,
    has_usage: bool,
}

impl View for MessagesStreamState {
    type V = MessagesStreamView;

    closed spec fn view(&self) -> MessagesStreamView {
        MessagesStreamView {
            reasoning: self.reasoning@,
            text: self.text@,
            tools: pending_view(self.tools@),
            blocks: blocks_view(self.blocks@),
            input_tokens: self.input_tokens,
            output_tokens: self.output_tokens,
            cache_read_tokens: self.cache_read_tokens,
            cache_creation_tokens: self.cache_creation_tokens,
            has_usage: self.has_usage,
        }
    }
}

impl MessagesStreamState {
    /// The state before any event.
    pub fn new() -> (r: Self)
        ensures
            r@ == (MessagesStreamView {
                reasoning: Seq::empty(),
                text: Seq::empty(),
                tools: Seq::empty(),
                blocks: Seq::empty(),
                input_tokens: 0,
                output_tokens: 0,
                cache_read_tokens: 0,
                cache_creation_tokens: 0,
                has_usage: false,
            }),
    {
        let r = MessagesStreamState {
            reasoning: String::new(),
            text: String::new(),
            tools: Vec::new(),
            blocks: Vec::new(),
            input_tokens: 0,
            output_tokens: 0,
            cache_read_tokens: 0,
            cache_creation_tokens: 0,
            has_usage: false,
        };
        proof {
            assert(pending_view(r.tools@) =~= Seq::empty());
            assert(blocks_view(r.blocks@) =~= Seq::empty());
        }
        r
    }

    fn update_usage(&mut self, u: &Json)
        ensures
            final(self)@ == usage_step(old(self)@, json_view(*u)),
    {
        if let Json::Object(_) = u {
            self.has_usage = true;
            if let Some(n) = u64_ref(u, "input_tokens") {
                self.input_tokens = n;
            }
            if let Some(n) = u64_ref(u, "output_tokens") {
                self.output_tokens = n;
            }
            if let Some(n) = u64_ref(u, "cache_read_input_tokens") {
                self.cache_read_tokens = n;
            }
            if let Some(n) = u64_ref(u, "cache_creation_input_tokens") {
                self.cache_creation_tokens = n;
            }
        }
    }
}

fn index_of(e: &Json) -> (r: u64)
    ensures
        r == event_index(json_view(*e)),
{
    match u64_ref(e, "index") {
        Some(n) => n,
        None => 0,
    }
}

fn str_or_empty_exec(j: &Json, k: &str) -> (r: String)
    ensures
        r@ == str_or_empty(json_view(*j), k@),
{
    match str_ref(j, k) {
        Some(s) => owned(s),
        None => String::new(),
    }
}

fn initial_arguments_exec(b: &Json) -> (r: String)
    ensures
        r@ == initial_arguments(json_view(*b)),
{
    match member_ref(b, "input") {
        Some(input) => match input {
            Json::Object(fs) => {
                proof {
                    assert(match json_view(*input) {
                        JsonView::Object(o) => o =~= fields_view(fs@),
                        _ => false,
                    });
                }
                if fs.len() > 0 {
                    crate::json::json_to_text(input)
                } else {
                    String::new()
                }
            },
            _ => String::new(),
        },
        None => String::new(),
    }
}

impl MessagesStreamState {
    #[verifier::rlimit(40)]
    #[verifier::spinoff_prover]
    fn start_block(&mut self, e: &Json) -> (r: Vec<AssistantDelta>)
        ensures
            (final(self)@, deltas_view(r@)) == start_step(old(self)@, json_view(*e)),
    {
        let index = index_of(e);
        let null = Json::Null;
        let b: &Json = match member_ref(e, "content_block") {
            Some(x) => x,
            None => &null,
        };
        if let Json::Object(_) = b {
            put_block_exec(&mut self.blocks, index, b.duplicate());
        }
        let ghost s1 = self@;
        let mut out: Vec<AssistantDelta> = Vec::new();
        if str_is(b, "type", "thinking") {
            let t = str_or_empty_exec(b, "thinking");
            if !t.as_str().is_empty() {
                push_str(&mut self.reasoning, t.as_str());
                out.push(AssistantDelta::Reasoning { delta: t });
            }
        } else if str_is(b, "type", "text") {
            let t = str_or_empty_exec(b, "text");
            if !t.as_str().is_empty() {
                push_str(&mut self.text, t.as_str());
                out.push(AssistantDelta::Text { delta: t });
            }
        } else if str_is(b, "type", "tool_use") {
            let id = str_or_empty_exec(b, "id");
            let name = str_or_empty_exec(b, "name");
            let initial = initial_arguments_exec(b);
            put_tool_exec(
                &mut self.tools,
                PendingToolCall {
                    index,
                    id: id.clone(),
                    name: name.clone(),
                    arguments: initial.clone(),
                },
            );
            out.push(
                AssistantDelta::ToolCall {
                    index: index as usize,
                    id: Some(id),
                    name: Some(name),
                    arguments_delta: initial,
                },
            );
        }
        proof {
            assert(deltas_view(out@) =~= start_step(old(self)@, json_view(*e)).1);
        }
        out
    }

    #[verifier::rlimit(40)]
    #[verifier::spinoff_prover]
    fn apply_delta(&mut self, e: &Json) -> (r: Vec<AssistantDelta>)
        ensures
            (final(self)@, deltas_view(r@)) == delta_step(old(self)@, json_view(*e)),
    {
        let index = index_of(e);
        let null = Json::Null;
        let d: &Json = match member_ref(e, "delta") {
            Some(x) => x,
            None => &null,
        };
        let mut out: Vec<AssistantDelta> = Vec::new();
        if str_is(d, "type", "text_delta") {
            let t = str_or_empty_exec(d, "text");
            push_str(&mut self.text, t.as_str());
            append_raw_string(&mut self.blocks, index, "text", t.as_str());
            out.push(AssistantDelta::Text { delta: t });
        } else if str_is(d, "type", "thinking_delta") {
            let t = str_or_empty_exec(d, "thinking");
            append_raw_string(&mut self.blocks, index, "thinking", t.as_str());
            if !t.as_str().is_empty() {
                push_str(&mut self.reasoning, t.as_str());
                out.push(AssistantDelta::Reasoning { delta: t });
            }
        } else if str_is(d, "type", "signature_delta") {
            let t = str_or_empty_exec(d, "signature");
            append_raw_string(&mut self.blocks, index, "signature", t.as_str());
        } else if str_is(d, "type", "input_json_delta") {
            let f = str_or_empty_exec(d, "partial_json");
            append_arguments_exec(&mut self.tools, index, f.as_str());
            out.push(
                AssistantDelta::ToolCall {
                    index: index as usize,
                    id: None,
                    name: None,
                    arguments_delta: f,
                },
            );
        }
        proof {
            assert(deltas_view(out@) =~= delta_step(old(self)@, json_view(*e)).1);
        }
        out
    }

    /// Takes in one stream event, and returns the deltas it yields; see
    /// [`event_step`].
    pub fn apply(&mut self, event: &Json) -> (r: Vec<AssistantDelta>)
        ensures
            (final(self)@, deltas_view(r@)) == event_step(old(self)@, json_view(*event)),
    {
        if str_is(event, "type", "message_start") {
            let null = Json::Null;
            let message: &Json = match member_ref(event, "message") {
                Some(x) => x,
                None => &null,
            };
            let usage: &Json = match member_ref(message, "usage") {
                Some(x) => x,
                None => &null,
            };
            self.update_usage(usage);
            let out: Vec<AssistantDelta> = Vec::new();
            proof {
                assert(deltas_view(out@) =~= Seq::empty());
            }
            out
        } else if str_is(event, "type", "message_delta") {
            let null = Json::Null;
            let usage: &Json = match member_ref(event, "usage") {
                Some(x) => x,
                None => &null,
            };
            self.update_usage(usage);
            let out: Vec<AssistantDelta> = Vec::new();
            proof {
                assert(deltas_view(out@) =~= Seq::empty());
            }
            out
        } else if str_is(event, "type", "content_block_start") {
            self.start_block(event)
        } else if str_is(event, "type", "content_block_delta") {
            self.apply_delta(event)
        } else {
            let out: Vec<AssistantDelta> = Vec::new();
            proof {
                assert(deltas_view(out@) =~= Seq::empty());
            }
            out
        }
    }
}

/// Whether a kept block holds thinking, plain or redacted.
pub open spec fn is_thinking_block(b: JsonView) -> bool {
    str_of(b, "type"@) == Some("thinking"@) || str_of(b, "type"@) == Some("redacted_thinking"@)
}

/// Whether some kept block holds thinking.
pub open spec fn has_thinking(bs: Seq<(u64, JsonView)>) -> bool {
    exists|i: int| 0 <= i < bs.len() && is_thinking_block(#[trigger] bs[i].1)
}

/// A block with its `input` member set to the JSON text `a`.
pub open spec fn with_input(b: JsonView, a: Seq<char>) -> JsonView {
    match b {
        JsonView::Object(o) => JsonView::Object(set_member(o, "input"@, JsonView::Raw(a))),
        _ => b,
    }
}

/// A kept block as it is replayed: the block of a tool use carries the
/// final arguments as its input.
pub open spec fn final_block(ts: Seq<PendingView>, e: (u64, JsonView)) -> JsonView {
    let p = insert_pos(ts, e.0) as int;
    if p < ts.len() && ts[p].index == e.0 {
        match arguments_text(ts[p].arguments) {
            Some(a) => with_input(e.1, a),
            None => e.1,
        }
    } else {
        e.1
    }
}

/// The blocks replayed in a later request, in index order.
pub open spec fn replay_blocks(s: MessagesStreamView) -> Seq<JsonView> {
    s.blocks.map_values(|e: (u64, JsonView)| final_block(s.tools, e))
}

/// The error of a stream that produced neither text nor a tool use.
pub const EMPTY_MESSAGES_STREAM: &'static str = "Messages stream contains neither text nor tool use";

fn with_input_exec(b: &Json, a: &String) -> (r: Json)
    ensures
        json_view(r) == with_input(json_view(*b), a@),
{
    let d = b.duplicate();
    match d {
        Json::Object(mut fs) => {
            proof {
                assert(match json_view(Json::Object(fs)) {
                    JsonView::Object(o) => o =~= fields_view(fs@),
                    _ => false,
                });
            }
            set_field(&mut fs, "input", Json::Raw(a.clone()));
            Json::object(fs)
        },
        other => other,
    }
}

fn thinking_kept(blocks: &Vec<(u64, Json)>) -> (r: bool)
    ensures
        r == has_thinking(blocks_view(blocks@)),
{
    let ghost bv = blocks_view(blocks@);
    let mut i: usize = 0;
    while i < blocks.len()
        invariant
            i <= blocks@.len(),
            bv == blocks_view(blocks@),
            forall|k: int| 0 <= k < i ==> !is_thinking_block(#[trigger] bv[k].1),
        decreases blocks.len() - i,
    {
        if str_is(&blocks[i].1, "type", "thinking") || str_is(&blocks[i].1, "type", "redacted_thinking") {
            proof {
                assert(is_thinking_block(bv[i as int].1));
            }
            return true;
        }
        i += 1;
    }
    false
}

fn replayed(
    blocks: &Vec<(u64, Json)>,
    tools: &Vec<PendingToolCall>,
    calls: &Vec<ToolCall>,
) -> (r: Vec<Json>)
    requires
        calls@.len() == tools@.len(),
        forall|k: int|
            0 <= k < tools@.len() ==> Some((#[trigger] calls@[k]).arguments@) == arguments_text(
                pending_view(tools@)[k].arguments,
            ),
    ensures
        items_view(r@) == blocks_view(blocks@).map_values(
            |e: (u64, JsonView)| final_block(pending_view(tools@), e),
        ),
{
    let ghost bv = blocks_view(blocks@);
    let ghost tv = pending_view(tools@);
    let mut out: Vec<Json> = crate::json::no_items();
    let mut i: usize = 0;
    while i < blocks.len()
        invariant
            i <= blocks@.len(),
            bv == blocks_view(blocks@),
            tv == pending_view(tools@),
            calls@.len() == tools@.len(),
            forall|k: int|
                0 <= k < tools@.len() ==> Some((#[trigger] calls@[k]).arguments@) == arguments_text(
                    tv[k].arguments,
                ),
            items_view(out@) == bv.take(i as int).map_values(|e: (u64, JsonView)| final_block(tv, e)),
        decreases blocks.len() - i,
    {
        let index = blocks[i].0;
        let p = scan_tools(tools, index);
        let b = if p < tools.len() && tools[p].index == index {
            proof {
                assert(Some(calls@[p as int].arguments@) == arguments_text(tv[p as int].arguments));
            }
            with_input_exec(&blocks[i].1, &calls[p].arguments)
        } else {
            blocks[i].1.duplicate()
        };
        push_item(&mut out, b);
        proof {
            let f = |e: (u64, JsonView)| final_block(tv, e);
            assert(bv[i as int] == (index, json_view(blocks@[i as int].1)));
            assert(bv.take(i + 1).map_values(f) =~= bv.take(i as int).map_values(f).push(
                f(bv[i as int]),
            ));
        }
        i += 1;
    }
    proof {
        assert(bv.take(bv.len() as int) == bv);
    }
    out
}

impl MessagesStreamState {
    /// The response the stream assembled: the text when not empty; the
    /// thinking text when not empty; the tool uses in index order, with
    /// their arguments as compact JSON (`{}` when blank); the usage when
    /// some was reported; and, when a thinking block was seen, the kept
    /// blocks as replay state. Fails on the first tool use whose arguments
    /// are not JSON, and when there is neither text nor a tool use.
    pub fn finish(self) -> (r: Result<ProviderResponse, ProviderError>)
        ensures
            r is Ok <==> arguments_valid(self@.tools) && (self@.text.len() > 0
                || self@.tools.len() > 0),
            !arguments_valid(self@.tools) ==> (r matches Err(ProviderError::InvalidResponse(m))
                && exists|k: int|
                0 <= k < self@.tools.len() && arguments_text(self@.tools[k].arguments) is None
                    && (forall|j: int|
                    0 <= j < k ==> (#[trigger] arguments_text(self@.tools[j].arguments)) is Some)
                    && m@ == "invalid tool arguments: "@ + json_parse_error(
                    self@.tools[k].arguments,
                )),
            arguments_valid(self@.tools) && self@.text.len() == 0 && self@.tools.len() == 0 ==> (r matches Err(
                ProviderError::InvalidResponse(m),
            ) && m@ == EMPTY_MESSAGES_STREAM@),
            r matches Ok(resp) ==> {
                &&& (if self@.text.len() > 0 {
                    resp.message.content matches Some(Content::Text(t)) && t@ == self@.text
                } else {
                    resp.message.content is None
                })
                &&& (if self@.reasoning.len() > 0 {
                    resp.message.reasoning matches Some(t) && t@ == self@.reasoning
                } else {
                    resp.message.reasoning is None
                })
                &&& resp.message.tool_calls@.len() == self@.tools.len()
                &&& forall|k: int|
                    0 <= k < self@.tools.len() ==> {
                        let c = #[trigger] resp.message.tool_calls@[k];
                        &&& c.id@ == self@.tools[k].id
                        &&& c.name@ == self@.tools[k].name
                        &&& Some(c.arguments@) == arguments_text(self@.tools[k].arguments)
                    }
                &&& resp.usage == if self@.has_usage {
                    Some(messages_usage(self@))
                } else {
                    None
                }
                &&& crate::json::opt_json_view(resp.message.provider_state) == if has_thinking(
                    self@.blocks,
                ) {
                    Some(JsonView::Array(replay_blocks(self@)))
                } else {
                    None
                }
            },
    {
        let ghost v = self@;
        let MessagesStreamState {
            reasoning,
            text,
            tools,
            blocks,
            input_tokens,
            output_tokens,
            cache_read_tokens,
            cache_creation_tokens,
            has_usage,
        } = self;
        let calls = match assemble_calls(&tools) {
            Ok(c) => c,
            Err(m) => {
                return Err(ProviderError::InvalidResponse(m));
            },
        };
        let has_text = !text.as_str().is_empty();
        if !has_text && calls.len() == 0 {
            return Err(ProviderError::InvalidResponse(owned(EMPTY_MESSAGES_STREAM)));
        }
        let usage = if has_usage {
            let cached = cache_read_tokens.saturating_add(cache_creation_tokens);
            let input = input_tokens.saturating_add(cache_read_tokens).saturating_add(
                cache_creation_tokens,
            );
            Some(TokenUsage::new(input, output_tokens, cached))
        } else {
            None
        };
        let provider_state = if thinking_kept(&blocks) {
            let items = replayed(&blocks, &tools, &calls);
            Some(Json::array(items))
        } else {
            None
        };
        let content = if has_text {
            Some(Content::Text(text))
        } else {
            None
        };
        let reasoning = if reasoning.as_str().is_empty() {
            None
        } else {
            Some(reasoning)
        };
        Ok(
            ProviderResponse {
                message: AssistantMessage { content, reasoning, tool_calls: calls, provider_state },
                usage,
            },
        )
    }
}

/// What a complete Messages response says, read block by block: the text
/// and thinking it holds (`None` when no block carries any) and its tool
/// calls.
pub ghost struct ParsedBlocks {
    pub text: Option<Seq<char>>,
    pub reasoning: Option<Seq<char>>,
    pub tool_calls: Seq<ToolCallView>,
}

/// `acc` with `more` appended, or `more` when `acc` is `None`.
pub open spec fn joined_text(acc: Option<Seq<char>>, more: Seq<char>) -> Option<Seq<char>> {
    match acc {
        Some(a) => Some(a + more),
        None => Some(more),
    }
}

/// The content blocks of a complete response, read in order, or the first
/// reason one cannot be read: a tool use needs a string id and name.
pub open spec fn parsed_blocks(bs: Seq<JsonView>) -> Result<ParsedBlocks, Seq<char>>
    decreases bs.len(),
{
    if bs.len() == 0 {
        Ok(ParsedBlocks { text: None, reasoning: None, tool_calls: Seq::empty() })
    } else {
        match parsed_blocks(bs.drop_last()) {
            Err(e) => Err(e),
            Ok(p) => {
                let b = bs.last();
                let ty = str_of(b, "type"@);
                if ty == Some("thinking"@) {
                    match str_of(b, "thinking"@) {
                        Some(t) => Ok(ParsedBlocks { reasoning: joined_text(p.reasoning, t), ..p }),
                        None => Ok(p),
                    }
                } else if ty == Some("text"@) {
                    match str_of(b, "text"@) {
                        Some(t) => Ok(ParsedBlocks { text: joined_text(p.text, t), ..p }),
                        None => Ok(p),
                    }
                } else if ty == Some("tool_use"@) {
                    match str_of(b, "id"@) {
                        None => Err("missing tool id"@),
                        Some(id) => match str_of(b, "name"@) {
                            None => Err("missing tool name"@),
                            Some(name) => Ok(
                                ParsedBlocks {
                                    tool_calls: p.tool_calls.push(
                                        ToolCallView { id, name, arguments: json_text(field(b, "input"@)) },
                                    ),
                                    ..p
                                },
                            ),
                        },
                    }
                } else {
                    Ok(p)
                }
            },
        }
    }
}

/// The usage of a complete response: both input and output counts are
/// needed; cache counts default to zero.
pub open spec fn response_usage(r: JsonView) -> Option<TokenUsage> {
    match member_of(r, "usage"@) {
        None => None,
        Some(u) => match (u64_of(u, "input_tokens"@), u64_of(u, "output_tokens"@)) {
            (Some(i), Some(o)) => Some(
                claude_usage(
                    i,
                    o,
                    match u64_of(u, "cache_read_input_tokens"@) {
                        Some(n) => n,
                        None => 0,
                    },
                    match u64_of(u, "cache_creation_input_tokens"@) {
                        Some(n) => n,
                        None => 0,
                    },
                ),
            ),
            _ => None,
        },
    }
}

/// Whether some block holds thinking, plain or redacted.
pub open spec fn any_thinking(bs: Seq<JsonView>) -> bool {
    exists|i: int| 0 <= i < bs.len() && is_thinking_block(#[trigger] bs[i])
}

proof fn lemma_parsed_blocks_err(bs: Seq<JsonView>, k: int)
    requires
        0 < k <= bs.len(),
        parsed_blocks(bs.take(k)) is Err,
    ensures
        parsed_blocks(bs) == parsed_blocks(bs.take(k)),
    decreases bs.len() - k,
{
    if k < bs.len() {
        assert(bs.take(k + 1).drop_last() == bs.take(k));
        lemma_parsed_blocks_err(bs, k + 1);
    } else {
        assert(bs.take(k) == bs);
    }
}

fn usage_of_response(response: &Json) -> (r: Option<TokenUsage>)
    ensures
        r == response_usage(json_view(*response)),
{
    let u = match member_ref(response, "usage") {
        Some(u) => u,
        None => return None,
    };
    let input = match u64_ref(u, "input_tokens") {
        Some(n) => n,
        None => return None,
    };
    let output = match u64_ref(u, "output_tokens") {
        Some(n) => n,
        None => return None,
    };
    let cache_read = match u64_ref(u, "cache_read_input_tokens") {
        Some(n) => n,
        None => 0,
    };
    let cache_creation = match u64_ref(u, "cache_creation_input_tokens") {
        Some(n) => n,
        None => 0,
    };
    Some(
        TokenUsage::new(
            input.saturating_add(cache_read).saturating_add(cache_creation),
            output,
            cache_read.saturating_add(cache_creation),
        ),
    )
}

/// The error of a response without a content array.
pub const CONTENT_NOT_AN_ARRAY: &'static str = "content is not an array";

/// The error of a complete response that holds nothing.
pub const EMPTY_MESSAGES_RESPONSE: &'static str = "response contains neither text nor tool use";

/// Reads a complete (non-streamed) Messages response: its usage, its text
/// and thinking joined across blocks, its tool calls with their inputs as
/// compact JSON, and, when a block holds thinking, all its blocks as
/// replay state. Fails when `content` is not an array, when a tool use
/// lacks a string id or name, and when there is neither text nor a tool
/// call.
#[verifier::rlimit(40)]
#[verifier::spinoff_prover]
pub fn parse_response(response: &Json) -> (r: Result<ProviderResponse, ProviderError>)
    ensures
        match field(json_view(*response), "content"@) {
            JsonView::Array(bs) => match parsed_blocks(bs) {
                Err(e) => r matches Err(ProviderError::InvalidResponse(m)) && m@ == e,
                Ok(p) => if p.text is None && p.tool_calls.len() == 0 {
                    r matches Err(ProviderError::InvalidResponse(m)) && m@ == EMPTY_MESSAGES_RESPONSE@
                } else {
                    r matches Ok(resp) && {
                        &&& (match p.text {
                            Some(t) => resp.message.content matches Some(Content::Text(c)) && c@ == t,
                            None => resp.message.content is None,
                        })
                        &&& crate::types::opt_str_view(resp.message.reasoning) == p.reasoning
                        &&& crate::types::tool_calls_view(resp.message.tool_calls@) == p.tool_calls
                        &&& crate::json::opt_json_view(resp.message.provider_state) == if any_thinking(
                            bs,
                        ) {
                            Some(JsonView::Array(bs))
                        } else {
                            None
                        }
                        &&& resp.usage == response_usage(json_view(*response))
                    }
                },
            },
            _ => r matches Err(ProviderError::InvalidResponse(m)) && m@ == CONTENT_NOT_AN_ARRAY@,
        },
{
    let usage = usage_of_response(response);
    let blocks: &Vec<Json> = match member_ref(response, "content") {
        Some(Json::Array(items)) => items,
        _ => return Err(ProviderError::InvalidResponse(owned(CONTENT_NOT_AN_ARRAY))),
    };
    let ghost bv = items_view(blocks@);
    proof {
        assert(match json_view(Json::Array(*blocks)) {
            JsonView::Array(a) => a =~= bv,
            _ => false,
        });
    }
    let mut text: Option<String> = None;
    let mut reasoning: Option<String> = None;
    let mut calls: Vec<ToolCall> = Vec::new();
    let mut thinking = false;
    let mut i: usize = 0;
    proof {
        assert(crate::types::tool_calls_view(calls@) =~= Seq::<ToolCallView>::empty());
        assert(bv.take(0) =~= Seq::<JsonView>::empty());
    }
    while i < blocks.len()
        invariant
            i <= blocks@.len(),
            bv == items_view(blocks@),
            parsed_blocks(bv.take(i as int)) == Ok::<ParsedBlocks, Seq<char>>(
                ParsedBlocks {
                    text: crate::types::opt_str_view(text),
                    reasoning: crate::types::opt_str_view(reasoning),
                    tool_calls: crate::types::tool_calls_view(calls@),
                },
            ),
            thinking == any_thinking(bv.take(i as int)),
            field(json_view(*response), "content"@) == JsonView::Array(bv),
        decreases blocks.len() - i,
    {
        proof {
            assert(bv.take(i + 1).drop_last() == bv.take(i as int));
            assert(bv.take(i + 1).last() == json_view(blocks@[i as int]));
        }
        let b = &blocks[i];
        if str_is(b, "type", "thinking") || str_is(b, "type", "redacted_thinking") {
            thinking = true;
        }
        proof {
            assert(any_thinking(bv.take(i + 1)) == (any_thinking(bv.take(i as int))
                || is_thinking_block(bv[i as int]))) by {
                if is_thinking_block(bv[i as int]) {
                    assert(bv.take(i + 1)[i as int] == bv[i as int]);
                }
                if any_thinking(bv.take(i + 1)) {
                    let k = choose|k: int| 0 <= k < i + 1 && is_thinking_block(#[trigger] bv.take(i + 1)[k]);
                    if k < i {
                        assert(bv.take(i as int)[k] == bv.take(i + 1)[k]);
                    }
                }
                if any_thinking(bv.take(i as int)) {
                    let k = choose|k: int| 0 <= k < i && is_thinking_block(#[trigger] bv.take(i as int)[k]);
                    assert(bv.take(i + 1)[k] == bv.take(i as int)[k]);
                }
            }
        }
        if str_is(b, "type", "thinking") {
            if let Some(t) = str_ref(b, "thinking") {
                let next = match reasoning {
                    Some(mut a) => {
                        push_str(&mut a, t);
                        a
                    },
                    None => owned(t),
                };
                reasoning = Some(next);
            }
        } else if str_is(b, "type", "text") {
            if let Some(t) = str_ref(b, "text") {
                let next = match text {
                    Some(mut a) => {
                        push_str(&mut a, t);
                        a
                    },
                    None => owned(t),
                };
                text = Some(next);
            }
        } else if str_is(b, "type", "tool_use") {
            let id = match str_ref(b, "id") {
                Some(x) => x,
                None => {
                    proof {
                        assert(parsed_blocks(bv.take(i + 1)) == Err::<ParsedBlocks, Seq<char>>(
                            "missing tool id"@,
                        ));
                        lemma_parsed_blocks_err(bv, i + 1);
                    }
                    return Err(ProviderError::InvalidResponse(owned("missing tool id")));
                },
            };
            let name = match str_ref(b, "name") {
                Some(x) => x,
                None => {
                    proof {
                        assert(parsed_blocks(bv.take(i + 1)) == Err::<ParsedBlocks, Seq<char>>(
                            "missing tool name"@,
                        ));
                        lemma_parsed_blocks_err(bv, i + 1);
                    }
                    return Err(ProviderError::InvalidResponse(owned("missing tool name")));
                },
            };
            let null = Json::Null;
            let input: &Json = match member_ref(b, "input") {
                Some(x) => x,
                None => &null,
            };
            let arguments = crate::json::json_to_text(input);
            let ghost before = calls@;
            let call = ToolCall { id: owned(id), name: owned(name), arguments };
            proof {
                assert(call@ == ToolCallView {
                    id: id@,
                    name: name@,
                    arguments: json_text(field(bv[i as int], "input"@)),
                });
            }
            calls.push(call);
            proof {
                assert(crate::types::tool_calls_view(calls@) =~= crate::types::tool_calls_view(
                    before,
                ).push(call@));
            }
        }
        i += 1;
    }
    proof {
        assert(bv.take(bv.len() as int) == bv);
    }
    if text.is_none() && calls.len() == 0 {
        return Err(ProviderError::InvalidResponse(owned(EMPTY_MESSAGES_RESPONSE)));
    }
    let content = match text {
        Some(t) => Some(Content::Text(t)),
        None => None,
    };
    let provider_state = if thinking {
        let mut items: Vec<Json> = crate::json::no_items();
        let mut k: usize = 0;
        while k < blocks.len()
            invariant
                k <= blocks@.len(),
                items_view(items@) == items_view(blocks@).take(k as int),
            decreases blocks.len() - k,
        {
            push_item(&mut items, blocks[k].duplicate());
            proof {
                assert(items_view(items@) =~= items_view(blocks@).take(k + 1));
            }
            k += 1;
        }
        proof {
            assert(items_view(blocks@).take(blocks@.len() as int) == items_view(blocks@));
        }
        Some(Json::array(items))
    } else {
        None
    };
    Ok(
        ProviderResponse {
            message: AssistantMessage { content, reasoning, tool_calls: calls, provider_state },
            usage,
        },
    )
}

/// What one Messages stream event means for the stream.
pub enum MessagesStreamStep {
    /// The deltas the event yields, to forward in order.
    Deltas(Vec<AssistantDelta>),
    /// The message is complete: the state is ready to finish.
    Stopped,
}

/// The error of a stream that ended before `message_stop`.
pub const UNFINISHED_MESSAGES_STREAM: &'static str = "Messages stream ended without message_stop";

/// Handles one Messages stream event: an `error` event fails the stream
/// with the JSON text of its error (a context-window rejection when the
/// text says so); `message_stop` completes it; any other event updates the
/// state and yields its deltas.
pub fn messages_stream_step(state: &mut MessagesStreamState, event: &Json) -> (r: Result<
    MessagesStreamStep,
    ProviderError,
>)
    ensures
        str_of(json_view(*event), "type"@) == Some("error"@) ==> final(state)@ == old(state)@ && match r {
            Err(ProviderError::ContextLengthExceeded { message: m }) => crate::error::is_context_length_message(
                json_text(field(json_view(*event), "error"@)),
            ) && m@ == json_text(field(json_view(*event), "error"@)),
            Err(ProviderError::InvalidResponse(m)) => !crate::error::is_context_length_message(
                json_text(field(json_view(*event), "error"@)),
            ) && m@ == json_text(field(json_view(*event), "error"@)),
            _ => false,
        },
        str_of(json_view(*event), "type"@) == Some("message_stop"@) ==> final(state)@ == old(state)@
            && r matches Ok(MessagesStreamStep::Stopped),
        str_of(json_view(*event), "type"@) != Some("error"@) && str_of(json_view(*event), "type"@)
            != Some("message_stop"@) ==> (r matches Ok(MessagesStreamStep::Deltas(ds)) && (
        final(state)@, deltas_view(ds@)) == event_step(old(state)@, json_view(*event))),
{
    proof {
        reveal_strlit("error");
        reveal_strlit("message_stop");
        assert("error"@.len() != "message_stop"@.len());
    }
    if str_is(event, "type", "error") {
        let null = Json::Null;
        let error: &Json = match member_ref(event, "error") {
            Some(x) => x,
            None => &null,
        };
        return Err(ProviderError::from_stream_response_error(crate::json::json_to_text(error)));
    }
    if str_is(event, "type", "message_stop") {
        return Ok(MessagesStreamStep::Stopped);
    }
    Ok(MessagesStreamStep::Deltas(state.apply(event)))
}

} // verus!
