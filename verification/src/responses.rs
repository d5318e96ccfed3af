//! The OpenAI Responses adapter: request bodies, with the replay of output
//! items, complete responses and stream deltas.
use vstd::prelude::*;

use crate::anthropic::{
    member_of, member_ref, obj3, str_is, str_of, str_ref, u64_of, u64_ref,
};
use crate::anthropic_stream::{field, joined_text};
use crate::chat::{
    effort_name, effort_text, json_compact, json_parse_error, member, merge_members, obj1, obj2,
    parse_extra_body, reparse_json, str_member, strip_trailing_slashes,
    trim_trailing_slashes, EMPTY_ENDPOINT_OR_MODEL, EXTRA_BODY_NOT_OBJECT,
};
use crate::error::ProviderError;
use crate::json::{fields_view, items_view, json_view, push_field, push_item, Json, JsonView};
use crate::mcp::{join_with, json_texts_equal};
use crate::provider::{text_only, text_only_spec};
use crate::text::{all_ws, debug_str, debug_string, is_blank, owned, push_str, starts_with};
use crate::types::{
    parts_view, AssistantDelta, AssistantDeltaView, AssistantMessage, Content, ContentPart,
    ContentPartView, ContentView, Message, MessageView, ProviderRequest, ProviderResponse,
    ReasoningEffort, Role, TokenUsage, ToolCall, ToolCallView, ToolDefinition, ToolDefinitionView,
};

verus! {

broadcast use vstd::string::group_string_axioms;

/// The text shown in place of an image when assistant content is replayed.
pub const OMITTED_IMAGE: &'static str = "[Image attachment omitted while replaying assistant content]";

/// The text shown in place of a document when assistant content is
/// replayed.
pub open spec fn omitted_document(filename: Seq<char>, mime_type: Seq<char>) -> Seq<char> {
    "[Document attachment "@ + filename + " ("@ + mime_type
        + ") omitted while replaying assistant content]"@
}

/// The type of text items: output text when replaying assistant content,
/// input text otherwise.
pub open spec fn text_type(output: bool) -> Seq<char> {
    if output {
        "output_text"@
    } else {
        "input_text"@
    }
}

/// The Responses item of one content part. Replayed assistant content
/// keeps text and names its attachments; input content sends images (at
/// the requested detail, `auto` when none was requested) and files, inline
/// for `data:` URLs and by URL otherwise.
pub open spec fn response_part_json(p: ContentPartView, output: bool) -> JsonView {
    if p.kind == 0 {
        obj2("type"@, JsonView::Str(text_type(output)), "text"@, JsonView::Str(p.text))
    } else if output {
        obj2(
            "type"@,
            JsonView::Str("output_text"@),
            "text"@,
            JsonView::Str(
                if p.kind == 1 {
                    OMITTED_IMAGE@
                } else {
                    omitted_document(p.text, p.extra)
                },
            ),
        )
    } else if p.kind == 1 {
        obj3(
            "type"@,
            JsonView::Str("input_image"@),
            "image_url"@,
            JsonView::Str(p.text),
            "detail"@,
            JsonView::Str(
                if p.extra.len() > 0 {
                    p.extra
                } else {
                    "auto"@
                },
            ),
        )
    } else if starts_with(p.data, "data:"@) {
        obj3(
            "type"@,
            JsonView::Str("input_file"@),
            "filename"@,
            JsonView::Str(p.text),
            "file_data"@,
            JsonView::Str(p.data),
        )
    } else {
        obj2("type"@, JsonView::Str("input_file"@), "file_url"@, JsonView::Str(p.data))
    }
}

/// The Responses items of optional content.
pub open spec fn response_content_json(c: Option<ContentView>, output: bool) -> Seq<JsonView> {
    match c {
        None => Seq::empty(),
        Some(ContentView::Text(t)) => seq![
            obj2("type"@, JsonView::Str(text_type(output)), "text"@, JsonView::Str(t)),
        ],
        Some(ContentView::Parts(ps)) => ps.map_values(|p: ContentPartView| response_part_json(p, output)),
    }
}

fn response_part(part: &ContentPart, output: bool) -> (r: Json)
    ensures
        json_view(r) == response_part_json(part@, output),
{
    let kind = if output {
        "output_text"
    } else {
        "input_text"
    };
    let mut fields: Vec<(String, Json)> = crate::json::no_members();
    match part {
        ContentPart::Text { text } => {
            str_member(&mut fields, "type", kind);
            str_member(&mut fields, "text", text.as_str());
        },
        ContentPart::ImageUrl { image_url } => {
            if output {
                str_member(&mut fields, "type", "output_text");
                str_member(&mut fields, "text", OMITTED_IMAGE);
            } else {
                str_member(&mut fields, "type", "input_image");
                str_member(&mut fields, "image_url", image_url.url.as_str());
                let detail = match image_url.detail {
                    Some(d) => d.as_str(),
                    None => "auto",
                };
                proof {
                    reveal_strlit("auto");
                    reveal_strlit("low");
                    reveal_strlit("high");
                }
                str_member(&mut fields, "detail", detail);
            }
        },
        ContentPart::Document { document } => {
            if output {
                let mut t = owned("[Document attachment ");
                push_str(&mut t, document.filename.as_str());
                push_str(&mut t, " (");
                push_str(&mut t, document.mime_type.as_str());
                push_str(&mut t, ") omitted while replaying assistant content]");
                str_member(&mut fields, "type", "output_text");
                push_field(&mut fields, "text", Json::Str(t));
            } else if crate::chat::starts_with_data(document.data.as_str()) {
                str_member(&mut fields, "type", "input_file");
                str_member(&mut fields, "filename", document.filename.as_str());
                str_member(&mut fields, "file_data", document.data.as_str());
            } else {
                str_member(&mut fields, "type", "input_file");
                str_member(&mut fields, "file_url", document.data.as_str());
            }
        },
    }
    let r = Json::object(fields);
    proof {
        reveal_strlit("data:");
        assert(fields_view(fields@) =~= match response_part_json(part@, output) {
            JsonView::Object(o) => o,
            _ => Seq::empty(),
        });
    }
    r
}

/// The Responses items of optional content.
pub fn response_content(content: &Option<Content>, output: bool) -> (r: Vec<Json>)
    ensures
        items_view(r@) == response_content_json(crate::types::opt_content_view(*content), output),
{
    let mut out: Vec<Json> = crate::json::no_items();
    match content {
        None => {},
        Some(Content::Text(t)) => {
            let kind = if output {
                "output_text"
            } else {
                "input_text"
            };
            let mut fields: Vec<(String, Json)> = crate::json::no_members();
            str_member(&mut fields, "type", kind);
            str_member(&mut fields, "text", t.as_str());
            push_item(&mut out, Json::object(fields));
            proof {
                assert(items_view(out@) =~= response_content_json(
                    crate::types::opt_content_view(*content),
                    output,
                ));
            }
        },
        Some(Content::Parts(parts)) => {
            let ghost pv = parts_view(parts@);
            let mut i: usize = 0;
            while i < parts.len()
                invariant
                    i <= parts@.len(),
                    pv == parts_view(parts@),
                    items_view(out@) == pv.take(i as int).map_values(
                        |p: ContentPartView| response_part_json(p, output),
                    ),
                decreases parts.len() - i,
            {
                push_item(&mut out, response_part(&parts[i], output));
                proof {
                    let f = |p: ContentPartView| response_part_json(p, output);
                    assert(pv[i as int] == parts@[i as int]@);
                    assert(pv.take(i + 1).map_values(f) =~= pv.take(i as int).map_values(f).push(
                        f(pv[i as int]),
                    ));
                }
                i += 1;
            }
            proof {
                assert(pv.take(pv.len() as int) == pv);
            }
        },
    }
    out
}

/// What replayed output items say: the joined output text (`None` when no
/// message part carries any) and the function calls, with their arguments
/// as compact JSON.
pub ghost struct NormalizedOutput {
    pub text: Option<Seq<char>>,
    pub calls: Seq<(Seq<char>, Seq<char>, Seq<char>)>,
}

/// `acc` extended with the text of each `output_text` part, in order.
pub open spec fn append_output_texts(acc: Option<Seq<char>>, parts: Seq<JsonView>) -> Option<Seq<char>>
    decreases parts.len(),
{
    if parts.len() == 0 {
        acc
    } else {
        let a = append_output_texts(acc, parts.drop_last());
        let p = parts.last();
        if str_of(p, "type"@) == Some("output_text"@) {
            match str_of(p, "text"@) {
                Some(t) => joined_text(a, t),
                None => a,
            }
        } else {
            a
        }
    }
}

/// The output items read in order, or the first reason one cannot be read:
/// a function call needs a string call id, name and JSON arguments.
pub open spec fn normalized_output(items: Seq<JsonView>) -> Result<NormalizedOutput, Seq<char>>
    decreases items.len(),
{
    if items.len() == 0 {
        Ok(NormalizedOutput { text: None, calls: Seq::empty() })
    } else {
        match normalized_output(items.drop_last()) {
            Err(e) => Err(e),
            Ok(n) => {
                let item = items.last();
                let ty = str_of(item, "type"@);
                if ty == Some("message"@) {
                    match field(item, "content"@) {
                        JsonView::Array(ps) => Ok(
                            NormalizedOutput { text: append_output_texts(n.text, ps), ..n },
                        ),
                        _ => Ok(n),
                    }
                } else if ty == Some("function_call"@) {
                    match str_of(item, "call_id"@) {
                        None => Err("missing call_id"@),
                        Some(id) => match str_of(item, "name"@) {
                            None => Err("missing tool name"@),
                            Some(name) => match str_of(item, "arguments"@) {
                                None => Err("missing tool arguments"@),
                                Some(a) => match json_compact(a) {
                                    None => Err("invalid tool arguments: "@ + json_parse_error(a)),
                                    Some(c) => Ok(
                                        NormalizedOutput { calls: n.calls.push((id, name, c)), ..n },
                                    ),
                                },
                            },
                        },
                    }
                } else {
                    Ok(n)
                }
            },
        }
    }
}

/// Whether replayed output items still say what the message says.
pub open spec fn output_matches(m: MessageView, items: Seq<JsonView>) -> bool {
    match normalized_output(items) {
        Err(_) => false,
        Ok(n) => {
            &&& match n.text {
                None => m.content is None,
                Some(t) => m.content == Some(ContentView::Text(t)),
            }
            &&& n.calls.len() == m.tool_calls.len()
            &&& forall|i: int|
                0 <= i < n.calls.len() ==> (#[trigger] n.calls[i]).0 == m.tool_calls[i].id
                    && n.calls[i].1 == m.tool_calls[i].name && json_texts_equal(
                    n.calls[i].2,
                    m.tool_calls[i].arguments,
                )
        },
    }
}

/// The replay state of a message: the output items of an earlier
/// Responses response, kept as the `output` member of an object.
pub open spec fn responses_state(m: MessageView) -> Option<Seq<JsonView>> {
    match m.provider_state {
        Some(j) => match member_of(j, "output"@) {
            Some(JsonView::Array(items)) => Some(items),
            _ => None,
        },
        None => None,
    }
}

/// Whether an item is a message or a function call.
pub open spec fn is_message_or_call(item: JsonView) -> bool {
    str_of(item, "type"@) == Some("message"@) || str_of(item, "type"@) == Some("function_call"@)
}

/// The replayed items that are neither messages nor function calls.
pub open spec fn kept_items(items: Seq<JsonView>) -> Seq<JsonView>
    decreases items.len(),
{
    if items.len() == 0 {
        Seq::empty()
    } else {
        kept_items(items.drop_last()) + if is_message_or_call(items.last()) {
            Seq::empty()
        } else {
            seq![items.last()]
        }
    }
}

/// The `function_call` item of a tool call.
pub open spec fn function_call_json(c: ToolCallView) -> JsonView {
    JsonView::Object(
        Seq::empty().push(member("type"@, JsonView::Str("function_call"@))).push(
            member("call_id"@, JsonView::Str(c.id)),
        ).push(member("name"@, JsonView::Str(c.name))).push(
            member("arguments"@, JsonView::Str(c.arguments)),
        ),
    )
}

/// The input items of an assistant message: its replayed output items as
/// they are when they still match it; otherwise the replayed items that are
/// neither messages nor function calls (reasoning), then a message with
/// its content when it has some, then one function call per tool call.
pub open spec fn assistant_items(m: MessageView) -> Seq<JsonView> {
    match responses_state(m) {
        Some(items) if output_matches(m, items) => items,
        _ => {
            let kept = match responses_state(m) {
                Some(items) => kept_items(items),
                None => Seq::empty(),
            };
            let message = if m.content is Some {
                seq![
                    obj3(
                        "type"@,
                        JsonView::Str("message"@),
                        "role"@,
                        JsonView::Str("assistant"@),
                        "content"@,
                        JsonView::Array(response_content_json(m.content, true)),
                    ),
                ]
            } else {
                Seq::empty()
            };
            kept + message + m.tool_calls.map_values(|c: ToolCallView| function_call_json(c))
        },
    }
}

proof fn lemma_normalized_output_err(items: Seq<JsonView>, k: int)
    requires
        0 < k <= items.len(),
        normalized_output(items.take(k)) is Err,
    ensures
        normalized_output(items) == normalized_output(items.take(k)),
    decreases items.len() - k,
{
    if k < items.len() {
        assert(items.take(k + 1).drop_last() == items.take(k));
        lemma_normalized_output_err(items, k + 1);
    } else {
        assert(items.take(k) == items);
    }
}

fn append_texts(acc: Option<String>, parts: &Vec<Json>) -> (r: Option<String>)
    ensures
        crate::types::opt_str_view(r) == append_output_texts(
            crate::types::opt_str_view(acc),
            items_view(parts@),
        ),
{
    let ghost pv = items_view(parts@);
    let ghost start = crate::types::opt_str_view(acc);
    let mut text = acc;
    let mut i: usize = 0;
    proof {
        assert(pv.take(0) =~= Seq::<JsonView>::empty());
    }
    while i < parts.len()
        invariant
            i <= parts@.len(),
            pv == items_view(parts@),
            crate::types::opt_str_view(text) == append_output_texts(start, pv.take(i as int)),
        decreases parts.len() - i,
    {
        proof {
            assert(pv.take(i + 1).drop_last() == pv.take(i as int));
            assert(pv.take(i + 1).last() == json_view(parts@[i as int]));
        }
        let p = &parts[i];
        if str_is(p, "type", "output_text") {
            if let Some(t) = str_ref(p, "text") {
                let next = match text {
                    Some(mut a) => {
                        push_str(&mut a, t);
                        a
                    },
                    None => owned(t),
                };
                text = Some(next);
            }
        }
        i += 1;
    }
    proof {
        assert(pv.take(pv.len() as int) == pv);
    }
    text
}

/// The text and function calls that output items stand for; see
/// [`normalized_output`].
#[verifier::rlimit(40)]
#[verifier::spinoff_prover]
fn normalized_responses_output(items: &Vec<Json>) -> (r: Result<(Option<String>, Vec<(String, String, String)>), String>)
    ensures
        match normalized_output(items_view(items@)) {
            Err(e) => r matches Err(m) && m@ == e,
            Ok(n) => r matches Ok((t, cs)) && crate::types::opt_str_view(t) == n.text && cs@.len()
                == n.calls.len() && forall|i: int|
                0 <= i < n.calls.len() ==> (#[trigger] cs@[i]).0@ == n.calls[i].0 && cs@[i].1@
                    == n.calls[i].1 && cs@[i].2@ == n.calls[i].2,
        },
{
    let ghost iv = items_view(items@);
    let mut text: Option<String> = None;
    let mut calls: Vec<(String, String, String)> = Vec::new();
    let mut i: usize = 0;
    while i < items.len()
        invariant
            i <= items@.len(),
            iv == items_view(items@),
            normalized_output(iv.take(i as int)) matches Ok(n) && crate::types::opt_str_view(text)
                == n.text && n.calls.len() == calls@.len() && forall|k: int|
                0 <= k < n.calls.len() ==> (#[trigger] calls@[k]).0@ == n.calls[k].0 && calls@[k].1@
                    == n.calls[k].1 && calls@[k].2@ == n.calls[k].2,
        decreases items.len() - i,
    {
        proof {
            assert(iv.take(i + 1).drop_last() == iv.take(i as int));
            assert(iv.take(i + 1).last() == json_view(items@[i as int]));
        }
        let item = &items[i];
        if str_is(item, "type", "message") {
            match member_ref(item, "content") {
                Some(Json::Array(parts)) => {
                    proof {
                        assert(match json_view(Json::Array(*parts)) {
                            JsonView::Array(a) => a =~= items_view(parts@),
                            _ => false,
                        });
                    }
                    text = append_texts(text, parts);
                },
                _ => {},
            }
        } else if str_is(item, "type", "function_call") {
            let id = match str_ref(item, "call_id") {
                Some(x) => x,
                None => {
                    proof {
                        lemma_normalized_output_err(iv, i + 1);
                    }
                    return Err(owned("missing call_id"));
                },
            };
            let name = match str_ref(item, "name") {
                Some(x) => x,
                None => {
                    proof {
                        lemma_normalized_output_err(iv, i + 1);
                    }
                    return Err(owned("missing tool name"));
                },
            };
            let arguments = match str_ref(item, "arguments") {
                Some(x) => x,
                None => {
                    proof {
                        lemma_normalized_output_err(iv, i + 1);
                    }
                    return Err(owned("missing tool arguments"));
                },
            };
            match reparse_json(arguments) {
                Ok(c) => calls.push((owned(id), owned(name), c)),
                Err(e) => {
                    let mut m = owned("invalid tool arguments: ");
                    push_str(&mut m, e.as_str());
                    proof {
                        lemma_normalized_output_err(iv, i + 1);
                    }
                    return Err(m);
                },
            }
        }
        i += 1;
    }
    proof {
        assert(iv.take(iv.len() as int) == iv);
    }
    Ok((text, calls))
}

/// Whether the output items still say what the message says.
fn output_still_matches(message: &Message, items: &Vec<Json>) -> (r: bool)
    ensures
        r == output_matches(message@, items_view(items@)),
{
    let (text, calls) = match normalized_responses_output(items) {
        Ok(n) => n,
        Err(_) => return false,
    };
    let content_matches = match (&message.content, &text) {
        (None, None) => true,
        (Some(Content::Text(c)), Some(t)) => crate::text::string_eq(c, t),
        _ => false,
    };
    if !content_matches || calls.len() != message.tool_calls.len() {
        return false;
    }
    let ghost mv = message@;
    let mut i: usize = 0;
    while i < calls.len()
        invariant
            i <= calls@.len(),
            calls@.len() == message.tool_calls@.len(),
            mv == message@,
            normalized_output(items_view(items@)) matches Ok(n) && n.calls.len() == calls@.len()
                && (forall|k: int|
                0 <= k < n.calls.len() ==> (#[trigger] calls@[k]).0@ == n.calls[k].0 && calls@[k].1@
                    == n.calls[k].1 && calls@[k].2@ == n.calls[k].2) && forall|k: int|
                0 <= k < i ==> (#[trigger] n.calls[k]).0 == mv.tool_calls[k].id && n.calls[k].1
                    == mv.tool_calls[k].name && json_texts_equal(n.calls[k].2, mv.tool_calls[k].arguments),
        decreases calls.len() - i,
    {
        let call = &message.tool_calls[i];
        proof {
            assert(mv.tool_calls[i as int] == call@);
        }
        if !crate::text::string_eq(&calls[i].0, &call.id) || !crate::text::string_eq(
            &calls[i].1,
            &call.name,
        ) || !crate::mcp::same_json(calls[i].2.as_str(), call.arguments.as_str()) {
            return false;
        }
        i += 1;
    }
    true
}

fn function_call_item(call: &ToolCall) -> (r: Json)
    ensures
        json_view(r) == function_call_json(call@),
{
    let mut fields: Vec<(String, Json)> = crate::json::no_members();
    str_member(&mut fields, "type", "function_call");
    str_member(&mut fields, "call_id", call.id.as_str());
    str_member(&mut fields, "name", call.name.as_str());
    str_member(&mut fields, "arguments", call.arguments.as_str());
    let r = Json::object(fields);
    proof {
        assert(fields_view(fields@) =~= match function_call_json(call@) {
            JsonView::Object(o) => o,
            _ => Seq::empty(),
        });
    }
    r
}

fn keep_items(items: &Vec<Json>) -> (r: Vec<Json>)
    ensures
        items_view(r@) == kept_items(items_view(items@)),
{
    let ghost iv = items_view(items@);
    let mut out: Vec<Json> = crate::json::no_items();
    let mut i: usize = 0;
    while i < items.len()
        invariant
            i <= items@.len(),
            iv == items_view(items@),
            items_view(out@) == kept_items(iv.take(i as int)),
        decreases items.len() - i,
    {
        proof {
            assert(iv.take(i + 1).drop_last() == iv.take(i as int));
            assert(iv.take(i + 1).last() == json_view(items@[i as int]));
        }
        let item = &items[i];
        if !(str_is(item, "type", "message") || str_is(item, "type", "function_call")) {
            push_item(&mut out, item.duplicate());
        }
        proof {
            assert(items_view(out@) =~= kept_items(iv.take(i + 1)));
        }
        i += 1;
    }
    proof {
        assert(iv.take(iv.len() as int) == iv);
    }
    out
}

fn append_all(out: &mut Vec<Json>, more: Vec<Json>)
    ensures
        items_view(final(out)@) == items_view(old(out)@) + items_view(more@),
{
    let ghost start = items_view(out@);
    let ghost mv = items_view(more@);
    let mut i: usize = 0;
    while i < more.len()
        invariant
            i <= more@.len(),
            mv == items_view(more@),
            items_view(out@) == start + mv.take(i as int),
        decreases more.len() - i,
    {
        push_item(out, more[i].duplicate());
        proof {
            assert(items_view(out@) =~= start + mv.take(i + 1));
        }
        i += 1;
    }
    proof {
        assert(mv.take(mv.len() as int) == mv);
    }
}

/// The input items of an assistant message; see [`assistant_items`].
#[verifier::rlimit(40)]
#[verifier::spinoff_prover]
pub fn responses_assistant_items(message: &Message) -> (r: Vec<Json>)
    ensures
        items_view(r@) == assistant_items(message@),
{
    let ghost mv = message@;
    let state: Option<&Vec<Json>> = match &message.provider_state {
        Some(j) => match member_ref(j, "output") {
            Some(Json::Array(items)) => Some(items),
            _ => None,
        },
        None => None,
    };
    proof {
        if let Some(b) = state {
            assert(match json_view(Json::Array(*b)) {
                JsonView::Array(a) => a =~= items_view(b@),
                _ => false,
            });
        }
        assert(match state {
            Some(b) => responses_state(mv) == Some(items_view(b@)),
            None => responses_state(mv) is None,
        });
    }
    if let Some(items) = state {
        if output_still_matches(message, items) {
            let mut out: Vec<Json> = crate::json::no_items();
            let mut i: usize = 0;
            while i < items.len()
                invariant
                    i <= items@.len(),
                    items_view(out@) == items_view(items@).take(i as int),
                decreases items.len() - i,
            {
                push_item(&mut out, items[i].duplicate());
                proof {
                    assert(items_view(out@) =~= items_view(items@).take(i + 1));
                }
                i += 1;
            }
            proof {
                assert(items_view(items@).take(items@.len() as int) == items_view(items@));
            }
            return out;
        }
    }
    let mut out = match state {
        Some(items) => keep_items(items),
        None => crate::json::no_items(),
    };
    if message.content.is_some() {
        let mut fields: Vec<(String, Json)> = crate::json::no_members();
        str_member(&mut fields, "type", "message");
        str_member(&mut fields, "role", "assistant");
        push_field(&mut fields, "content", Json::array(response_content(&message.content, true)));
        let ghost before = items_view(out@);
        push_item(&mut out, Json::object(fields));
        proof {
            assert(fields_view(fields@) =~= match obj3(
                "type"@,
                JsonView::Str("message"@),
                "role"@,
                JsonView::Str("assistant"@),
                "content"@,
                JsonView::Array(response_content_json(mv.content, true)),
            ) {
                JsonView::Object(o) => o,
                _ => Seq::empty(),
            });
        }
    }
    let ghost with_message = items_view(out@);
    let ghost cv = mv.tool_calls;
    let mut k: usize = 0;
    while k < message.tool_calls.len()
        invariant
            k <= message.tool_calls@.len(),
            cv == message@.tool_calls,
            items_view(out@) == with_message + cv.take(k as int).map_values(
                |c: ToolCallView| function_call_json(c),
            ),
        decreases message.tool_calls.len() - k,
    {
        push_item(&mut out, function_call_item(&message.tool_calls[k]));
        proof {
            let f = |c: ToolCallView| function_call_json(c);
            assert(cv[k as int] == message.tool_calls@[k as int]@);
            assert(cv.take(k + 1).map_values(f) =~= cv.take(k as int).map_values(f).push(
                f(cv[k as int]),
            ));
            assert(items_view(out@) =~= with_message + cv.take(k + 1).map_values(f));
        }
        k += 1;
    }
    proof {
        assert(cv.take(cv.len() as int) == cv);
    }
    out
}

/// The `output` of a function call's result: its text, or its items when
/// it has parts.
pub open spec fn tool_output_json(c: Option<ContentView>) -> JsonView {
    match c {
        None => JsonView::Str(Seq::empty()),
        Some(ContentView::Text(t)) => JsonView::Str(t),
        Some(ContentView::Parts(_)) => JsonView::Array(response_content_json(c, false)),
    }
}

/// The input items of one non-system message.
pub open spec fn message_items(m: MessageView) -> Seq<JsonView> {
    match m.role {
        Role::User => seq![
            obj3(
                "type"@,
                JsonView::Str("message"@),
                "role"@,
                JsonView::Str("user"@),
                "content"@,
                JsonView::Array(response_content_json(m.content, false)),
            ),
        ],
        Role::Assistant => assistant_items(m),
        Role::Tool => seq![
            obj3(
                "type"@,
                JsonView::Str("function_call_output"@),
                "call_id"@,
                match m.tool_call_id {
                    Some(id) => JsonView::Str(id),
                    None => JsonView::Null,
                },
                "output"@,
                tool_output_json(m.content),
            ),
        ],
        Role::System => Seq::empty(),
    }
}

/// The instructions and input items of a conversation, or the first reason
/// a system message cannot be sent.
pub open spec fn responses_fold(ms: Seq<MessageView>) -> Result<(Seq<Seq<char>>, Seq<JsonView>), Seq<char>>
    decreases ms.len(),
{
    if ms.len() == 0 {
        Ok((Seq::empty(), Seq::empty()))
    } else {
        match responses_fold(ms.drop_last()) {
            Err(e) => Err(e),
            Ok((ins, input)) => {
                let m = ms.last();
                if m.role == Role::System {
                    match text_only_spec(m.content, "system"@) {
                        Ok(t) => Ok((ins.push(t), input)),
                        Err(e) => Err(e),
                    }
                } else {
                    Ok((ins, input + message_items(m)))
                }
            },
        }
    }
}

proof fn lemma_responses_fold_err(ms: Seq<MessageView>, k: int)
    requires
        0 < k <= ms.len(),
        responses_fold(ms.take(k)) is Err,
    ensures
        responses_fold(ms) == responses_fold(ms.take(k)),
    decreases ms.len() - k,
{
    if k < ms.len() {
        assert(ms.take(k + 1).drop_last() == ms.take(k));
        lemma_responses_fold_err(ms, k + 1);
    } else {
        assert(ms.take(k) == ms);
    }
}

fn message_input_items(message: &Message) -> (r: Vec<Json>)
    requires
        message.role != Role::System,
    ensures
        items_view(r@) == message_items(message@),
{
    match message.role {
        Role::User => {
            let mut fields: Vec<(String, Json)> = crate::json::no_members();
            str_member(&mut fields, "type", "message");
            str_member(&mut fields, "role", "user");
            push_field(&mut fields, "content", Json::array(response_content(&message.content, false)));
            let mut out: Vec<Json> = crate::json::no_items();
            push_item(&mut out, Json::object(fields));
            proof {
                assert(fields_view(fields@) =~= match message_items(message@)[0] {
                    JsonView::Object(o) => o,
                    _ => Seq::empty(),
                });
                assert(items_view(out@) =~= message_items(message@));
            }
            out
        },
        Role::Assistant => responses_assistant_items(message),
        _ => {
            let output = match &message.content {
                None => Json::Str(String::new()),
                Some(Content::Text(t)) => Json::Str(t.clone()),
                Some(Content::Parts(_)) => Json::array(response_content(&message.content, false)),
            };
            let id = match &message.tool_call_id {
                Some(id) => Json::Str(id.clone()),
                None => Json::Null,
            };
            let mut fields: Vec<(String, Json)> = crate::json::no_members();
            str_member(&mut fields, "type", "function_call_output");
            push_field(&mut fields, "call_id", id);
            push_field(&mut fields, "output", output);
            let mut out: Vec<Json> = crate::json::no_items();
            push_item(&mut out, Json::object(fields));
            proof {
                assert(fields_view(fields@) =~= match message_items(message@)[0] {
                    JsonView::Object(o) => o,
                    _ => Seq::empty(),
                });
                assert(items_view(out@) =~= message_items(message@));
            }
            out
        },
    }
}

/// The instructions and input items of a conversation; see
/// [`responses_fold`].
pub fn responses_input(messages: &Vec<Message>) -> (r: Result<(Vec<String>, Vec<Json>), ProviderError>)
    ensures
        match responses_fold(crate::types::messages_view(messages@)) {
            Ok((ins, input)) => r matches Ok((s, v)) && s@.map_values(|x: String| x@) == ins
                && items_view(v@) == input,
            Err(m) => r matches Err(ProviderError::InvalidRequest(e)) && e@ == m,
        },
{
    let ghost mv = crate::types::messages_view(messages@);
    let mut ins: Vec<String> = Vec::new();
    let mut input: Vec<Json> = crate::json::no_items();
    let mut i: usize = 0;
    proof {
        assert(ins@.map_values(|x: String| x@) =~= Seq::<Seq<char>>::empty());
    }
    while i < messages.len()
        invariant
            i <= messages@.len(),
            mv == crate::types::messages_view(messages@),
            responses_fold(mv.take(i as int)) == Ok::<(Seq<Seq<char>>, Seq<JsonView>), Seq<char>>(
                (ins@.map_values(|x: String| x@), items_view(input@)),
            ),
        decreases messages.len() - i,
    {
        proof {
            assert(mv.take(i + 1).drop_last() == mv.take(i as int));
            assert(mv.take(i + 1).last() == messages@[i as int]@);
        }
        let message = &messages[i];
        let ghost sv = ins@.map_values(|x: String| x@);
        if message.role == Role::System {
            match text_only(message, "system") {
                Ok(t) => {
                    ins.push(t);
                    proof {
                        assert(ins@.map_values(|x: String| x@) =~= sv.push(ins@.last()@));
                    }
                },
                Err(e) => {
                    proof {
                        lemma_responses_fold_err(mv, i + 1);
                    }
                    return Err(e);
                },
            }
        } else {
            let items = message_input_items(message);
            append_all(&mut input, items);
        }
        i += 1;
    }
    proof {
        assert(mv.take(mv.len() as int) == mv);
    }
    Ok((ins, input))
}

/// The wire form of a tool definition.
pub open spec fn responses_tool_json(d: ToolDefinitionView) -> JsonView {
    JsonView::Object(
        Seq::empty().push(member("type"@, JsonView::Str("function"@))).push(
            member("name"@, JsonView::Str(d.name)),
        ).push(member("description"@, JsonView::Str(d.description))).push(
            member("parameters"@, JsonView::Raw(d.parameters)),
        ),
    )
}

/// The members of a Responses request before the extra members.
pub open spec fn responses_body_members(
    ins: Seq<Seq<char>>,
    input: Seq<JsonView>,
    tools: Seq<ToolDefinitionView>,
    max_tokens: Option<u32>,
    effort: Option<ReasoningEffort>,
    model: Seq<char>,
) -> Seq<(Seq<char>, JsonView)> {
    Seq::empty().push(member("model"@, JsonView::Str(model))).push(
        member("input"@, JsonView::Array(input)),
    ).push(member("stream"@, JsonView::Bool(true))) + (if ins.len() > 0 {
        Seq::empty().push(member("instructions"@, JsonView::Str(join_with(ins, seq!['\n']))))
    } else {
        Seq::empty()
    }) + (if tools.len() > 0 {
        Seq::empty().push(
            member(
                "tools"@,
                JsonView::Array(tools.map_values(|d: ToolDefinitionView| responses_tool_json(d))),
            ),
        )
    } else {
        Seq::empty()
    }) + match max_tokens {
        Some(n) => Seq::empty().push(member("max_output_tokens"@, JsonView::UInt(n as u64))),
        None => Seq::empty(),
    } + match effort {
        Some(e) => Seq::empty().push(member("reasoning"@, obj1("effort"@, JsonView::Str(effort_text(e))))),
        None => Seq::empty(),
    }
}

fn responses_tool(d: &ToolDefinition) -> (r: Json)
    ensures
        json_view(r) == responses_tool_json(d@),
{
    let mut fields: Vec<(String, Json)> = crate::json::no_members();
    str_member(&mut fields, "type", "function");
    str_member(&mut fields, "name", d.name.as_str());
    str_member(&mut fields, "description", d.description.as_str());
    push_field(&mut fields, "parameters", Json::Raw(d.parameters.clone()));
    let r = Json::object(fields);
    proof {
        assert(fields_view(fields@) =~= match responses_tool_json(d@) {
            JsonView::Object(o) => o,
            _ => Seq::empty(),
        });
    }
    r
}

fn join_lines(lines: &Vec<String>) -> (r: String)
    ensures
        r@ == join_with(lines@.map_values(|x: String| x@), seq!['\n']),
{
    let ghost sv = lines@.map_values(|x: String| x@);
    let mut r = String::new();
    let mut i: usize = 0;
    while i < lines.len()
        invariant
            i <= lines@.len(),
            sv == lines@.map_values(|x: String| x@),
            r@ == join_with(sv.take(i as int), seq!['\n']),
        decreases lines.len() - i,
    {
        proof {
            assert(sv.take(i + 1).drop_last() == sv.take(i as int));
            assert(sv.take(i + 1).last() == lines@[i as int]@);
            if i == 0 {
                assert(sv.take(1)[0] == lines@[0]@);
            }
        }
        if i > 0 {
            crate::text::push_char(&mut r, '\n');
        }
        push_str(&mut r, lines[i].as_str());
        proof {
            assert(r@ =~= join_with(sv.take(i + 1), seq!['\n']));
        }
        i += 1;
    }
    proof {
        assert(sv.take(sv.len() as int) == sv);
    }
    r
}

/// The OpenAI API's base URL.
pub const OPENAI_BASE_URL: &'static str = "https://api.openai.com/v1";

/// The OpenAI Responses adapter's configuration: credentials, endpoint,
/// model, extra body members and retry policy.
pub struct OpenAiResponsesProvider {
    api_key: String,
    base_url: String,
    model: String,
    extra_body: Vec<(String, Json)>,
    retry_config: crate::retry::RetryConfig,
}

impl OpenAiResponsesProvider {
    #[verifier::type_invariant]
    spec fn inv(self) -> bool {
        &&& !all_ws(self.api_key@)
        &&& !all_ws(self.model@)
    }

    pub closed spec fn spec_api_key(&self) -> Seq<char> {
        self.api_key@
    }

    pub closed spec fn spec_base_url(&self) -> Seq<char> {
        self.base_url@
    }

    pub closed spec fn spec_model(&self) -> Seq<char> {
        self.model@
    }

    pub closed spec fn spec_extra_body(&self) -> Seq<(Seq<char>, JsonView)> {
        fields_view(self.extra_body@)
    }

    pub closed spec fn spec_retry_config(&self) -> crate::retry::RetryConfig {
        self.retry_config
    }

    /// A configuration for `model` at `base_url` (without trailing
    /// slashes), with no extra members and the default retry policy. The
    /// key must not be blank, nor the URL or the model.
    pub fn new(api_key: String, base_url: &str, model: String) -> (r: Result<Self, ProviderError>)
        ensures
            all_ws(api_key@) ==> r == Err::<Self, ProviderError>(ProviderError::MissingApiKey),
            !all_ws(api_key@) && (all_ws(base_url@) || all_ws(model@)) ==> (r matches Err(
                ProviderError::InvalidConfiguration(m),
            ) && m@ == EMPTY_ENDPOINT_OR_MODEL@),
            r is Ok <==> !all_ws(api_key@) && !all_ws(base_url@) && !all_ws(model@),
            r matches Ok(p) ==> p.spec_api_key() == api_key@ && p.spec_base_url()
                == strip_trailing_slashes(base_url@) && p.spec_model() == model@
                && p.spec_extra_body().len() == 0 && p.spec_retry_config().spec_max_retries()
                == crate::retry::DEFAULT_MAX_RETRIES,
    {
        if is_blank(api_key.as_str()) {
            return Err(ProviderError::MissingApiKey);
        }
        if is_blank(base_url) || is_blank(model.as_str()) {
            return Err(ProviderError::InvalidConfiguration(owned(EMPTY_ENDPOINT_OR_MODEL)));
        }
        let trimmed = trim_trailing_slashes(base_url);
        Ok(
            OpenAiResponsesProvider {
                api_key,
                base_url: trimmed,
                model,
                extra_body: crate::json::no_members(),
                retry_config: crate::retry::RetryConfig::default(),
            },
        )
    }

    /// A configuration for `model` at the OpenAI API; see [`Self::new`].
    pub fn openai(api_key: String, model: String) -> (r: Result<Self, ProviderError>)
        ensures
            all_ws(api_key@) ==> r == Err::<Self, ProviderError>(ProviderError::MissingApiKey),
            !all_ws(api_key@) && all_ws(model@) ==> (r matches Err(
                ProviderError::InvalidConfiguration(m),
            ) && m@ == EMPTY_ENDPOINT_OR_MODEL@),
            r is Ok <==> !all_ws(api_key@) && !all_ws(model@),
            r matches Ok(p) ==> p.spec_api_key() == api_key@ && p.spec_base_url() == OPENAI_BASE_URL@
                && p.spec_model() == model@ && p.spec_extra_body().len() == 0,
    {
        proof {
            reveal_strlit("https://api.openai.com/v1");
            let u = OPENAI_BASE_URL@;
            assert(!crate::text::is_ws(u[0]));
            assert(u.len() > 0 && u.last() != '/');
            assert(strip_trailing_slashes(u) == u);
        }
        Self::new(api_key, OPENAI_BASE_URL, model)
    }

    pub fn api_key(&self) -> (r: &str)
        ensures
            r@ == self.spec_api_key(),
    {
        self.api_key.as_str()
    }

    pub fn base_url(&self) -> (r: &str)
        ensures
            r@ == self.spec_base_url(),
    {
        self.base_url.as_str()
    }

    pub fn model(&self) -> (r: &str)
        ensures
            r@ == self.spec_model(),
    {
        self.model.as_str()
    }

    pub fn retry_settings(&self) -> (r: crate::retry::RetryConfig)
        ensures
            r == self.spec_retry_config(),
    {
        self.retry_config
    }

    /// A description for logs, with the API key redacted.
    pub fn debug_text(&self) -> (r: String)
        ensures
            r@ == "OpenAiResponsesProvider { api_key: \"[REDACTED]\", base_url: "@ + debug_str(
                self.spec_base_url(),
            ) + ", model: "@ + debug_str(self.spec_model()) + ", .. }"@,
    {
        let mut r = owned("OpenAiResponsesProvider { api_key: \"[REDACTED]\", base_url: ");
        push_str(&mut r, debug_string(self.base_url.as_str()).as_str());
        push_str(&mut r, ", model: ");
        push_str(&mut r, debug_string(self.model.as_str()).as_str());
        push_str(&mut r, ", .. }");
        r
    }

    /// The Responses endpoint.
    pub fn endpoint(&self) -> (r: String)
        ensures
            r@ == self.spec_base_url() + "/responses"@,
    {
        let mut r = self.base_url.clone();
        push_str(&mut r, "/responses");
        r
    }

    /// Sets the members appended to every request body; they must form a
    /// JSON object.
    pub fn extra_body(self, extra_body: Json) -> (r: Result<Self, ProviderError>)
        ensures
            match json_view(extra_body) {
                JsonView::Object(o) => r matches Ok(p) && p.spec_extra_body() == o && p.spec_api_key()
                    == self.spec_api_key() && p.spec_base_url() == self.spec_base_url() && p.spec_model()
                    == self.spec_model() && p.spec_retry_config() == self.spec_retry_config(),
                _ => r matches Err(ProviderError::InvalidConfiguration(m)) && m@
                    == EXTRA_BODY_NOT_OBJECT@,
            },
    {
        proof {
            use_type_invariant(&self);
        }
        match parse_extra_body(extra_body) {
            Ok(fields) => Ok(OpenAiResponsesProvider { extra_body: fields, ..self }),
            Err(e) => Err(e),
        }
    }

    pub fn retry_config(self, retry_config: crate::retry::RetryConfig) -> (r: Self)
        ensures
            r.spec_retry_config() == retry_config,
            r.spec_api_key() == self.spec_api_key(),
            r.spec_base_url() == self.spec_base_url(),
            r.spec_model() == self.spec_model(),
            r.spec_extra_body() == self.spec_extra_body(),
    {
        proof {
            use_type_invariant(&self);
        }
        OpenAiResponsesProvider { retry_config, ..self }
    }

    pub fn max_retries(self, max_retries: usize) -> (r: Self)
        ensures
            r.spec_retry_config()@ == (crate::retry::RetryConfigView {
                max_retries,
                ..self.spec_retry_config()@
            }),
            r.spec_api_key() == self.spec_api_key(),
            r.spec_base_url() == self.spec_base_url(),
            r.spec_model() == self.spec_model(),
            r.spec_extra_body() == self.spec_extra_body(),
    {
        proof {
            use_type_invariant(&self);
        }
        let retry_config = self.retry_config.with_max_retries(max_retries);
        OpenAiResponsesProvider { retry_config, ..self }
    }

    /// The body of a streamed Responses request: the model (the request's
    /// override or the configured one), the input items, streaming, the
    /// system texts joined by newlines as instructions, the advertised
    /// tools, the output limit and the reasoning effort; then the extra
    /// members, each replacing a member of the same name. A system message
    /// that cannot be sent fails the request.
    #[verifier::rlimit(40)]
    #[verifier::spinoff_prover]
    pub fn request_body(&self, request: &ProviderRequest) -> (r: Result<Json, ProviderError>)
        ensures
            match responses_fold(crate::types::messages_view(request.messages@)) {
                Err(e) => r matches Err(ProviderError::InvalidRequest(m)) && m@ == e,
                Ok((ins, input)) => r matches Ok(b) && json_view(b) == JsonView::Object(
                    merge_members(
                        responses_body_members(
                            ins,
                            input,
                            crate::types::definitions_view(request.tools@),
                            request.config.max_tokens,
                            request.config.reasoning_effort,
                            match request.config.model {
                                Some(m) => m@,
                                None => self.spec_model(),
                            },
                        ),
                        self.spec_extra_body(),
                    ),
                ),
            },
    {
        let (ins, input) = match responses_input(&request.messages) {
            Ok(x) => x,
            Err(e) => return Err(e),
        };
        let ghost sv = ins@.map_values(|x: String| x@);
        let ghost iv = items_view(input@);
        let ghost tv = crate::types::definitions_view(request.tools@);
        let mut fields: Vec<(String, Json)> = crate::json::no_members();
        let model = match &request.config.model {
            Some(m) => m.as_str(),
            None => self.model.as_str(),
        };
        str_member(&mut fields, "model", model);
        push_field(&mut fields, "input", Json::array(input));
        push_field(&mut fields, "stream", Json::Bool(true));
        if ins.len() > 0 {
            push_field(&mut fields, "instructions", Json::Str(join_lines(&ins)));
        }
        if request.tools.len() > 0 {
            let mut items: Vec<Json> = crate::json::no_items();
            let mut i: usize = 0;
            while i < request.tools.len()
                invariant
                    i <= request.tools@.len(),
                    tv == crate::types::definitions_view(request.tools@),
                    items_view(items@) == tv.take(i as int).map_values(
                        |d: ToolDefinitionView| responses_tool_json(d),
                    ),
                decreases request.tools.len() - i,
            {
                push_item(&mut items, responses_tool(&request.tools[i]));
                proof {
                    let f = |d: ToolDefinitionView| responses_tool_json(d);
                    assert(tv.take(i + 1).map_values(f) =~= tv.take(i as int).map_values(f).push(
                        f(tv[i as int]),
                    ));
                }
                i += 1;
            }
            proof {
                assert(tv.take(tv.len() as int) == tv);
            }
            push_field(&mut fields, "tools", Json::array(items));
        }
        match request.config.max_tokens {
            Some(n) => push_field(&mut fields, "max_output_tokens", Json::UInt(n as u64)),
            None => {},
        }
        match request.config.reasoning_effort {
            Some(e) => {
                let mut o: Vec<(String, Json)> = crate::json::no_members();
                str_member(&mut o, "effort", effort_name(e));
                push_field(&mut fields, "reasoning", Json::object(o));
            },
            None => {},
        }
        proof {
            let expected = responses_body_members(
                sv,
                iv,
                tv,
                request.config.max_tokens,
                request.config.reasoning_effort,
                model@,
            );
            assert(fields_view(fields@) =~= expected);
        }
        crate::provider::merge_extra_body(&mut fields, &self.extra_body);
        Ok(Json::object(fields))
    }
}

/// The usage of a complete response: input and output counts are needed;
/// the total defaults to their saturating sum and the cached count to zero.
pub open spec fn responses_usage(r: JsonView) -> Option<TokenUsage> {
    match member_of(r, "usage"@) {
        None => None,
        Some(u) => match (u64_of(u, "input_tokens"@), u64_of(u, "output_tokens"@)) {
            (Some(i), Some(o)) => Some(
                TokenUsage {
                    input_tokens: i,
                    output_tokens: o,
                    total_tokens: match u64_of(u, "total_tokens"@) {
                        Some(t) => t,
                        None => crate::types::sat_add(i, o),
                    },
                    cached_input_tokens: match u64_of(field(u, "input_tokens_details"@), "cached_tokens"@) {
                        Some(c) => c,
                        None => 0,
                    },
                },
            ),
            _ => None,
        },
    }
}

fn usage_of(response: &Json) -> (r: Option<TokenUsage>)
    ensures
        r == responses_usage(json_view(*response)),
{
    let u = match member_ref(response, "usage") {
        Some(u) => u,
        None => return None,
    };
    let input = match u64_ref(u, "input_tokens") {
        Some(n) => n,
        None => return None,
    };
    let output = match u64_ref(u, "output_tokens") {
        Some(n) => n,
        None => return None,
    };
    let total = match u64_ref(u, "total_tokens") {
        Some(n) => n,
        None => input.saturating_add(output),
    };
    let null = Json::Null;
    let details: &Json = match member_ref(u, "input_tokens_details") {
        Some(d) => d,
        None => &null,
    };
    let cached = match u64_ref(details, "cached_tokens") {
        Some(n) => n,
        None => 0,
    };
    Some(TokenUsage::with_total(input, output, total, cached))
}

/// The error of a response without an output array.
pub const OUTPUT_NOT_AN_ARRAY: &'static str = "output is not an array";

/// The error of a complete response that holds nothing.
pub const EMPTY_RESPONSES_OUTPUT: &'static str = "response contains neither output text nor function calls";

/// Whether `r` is what reading the complete response `response` gives;
/// see [`parse_response`].
pub open spec fn parsed_response(response: JsonView, r: Result<ProviderResponse, ProviderError>) -> bool {
        match field(response, "output"@) {
            JsonView::Array(items) => match normalized_output(items) {
                Err(e) => r matches Err(ProviderError::InvalidResponse(m)) && m@ == e,
                Ok(n) => if n.text is None && n.calls.len() == 0 {
                    r matches Err(ProviderError::InvalidResponse(m)) && m@ == EMPTY_RESPONSES_OUTPUT@
                } else {
                    r matches Ok(resp) && {
                        &&& (match n.text {
                            Some(t) => resp.message.content matches Some(Content::Text(c)) && c@ == t,
                            None => resp.message.content is None,
                        })
                        &&& resp.message.reasoning is None
                        &&& resp.message.tool_calls@.len() == n.calls.len()
                        &&& forall|i: int|
                            0 <= i < n.calls.len() ==> (#[trigger] resp.message.tool_calls@[i])@
                                == (ToolCallView {
                                id: n.calls[i].0,
                                name: n.calls[i].1,
                                arguments: n.calls[i].2,
                            })
                        &&& crate::json::opt_json_view(resp.message.provider_state) == Some(
                            obj1("output"@, JsonView::Array(items)),
                        )
                        &&& resp.usage == responses_usage(response)
                    }
                },
            },
            _ => r matches Err(ProviderError::InvalidResponse(m)) && m@ == OUTPUT_NOT_AN_ARRAY@,
        }
}

/// Reads a complete Responses response: its usage, its output text joined
/// across messages, its function calls with their arguments as compact
/// JSON, and all its output items as replay state. Fails when `output` is
/// not an array, when an item cannot be read, and when there is neither
/// output text nor a function call.
pub fn parse_response(response: &Json) -> (r: Result<ProviderResponse, ProviderError>)
    ensures
        parsed_response(json_view(*response), r),
{
    let usage = usage_of(response);
    let items: &Vec<Json> = match member_ref(response, "output") {
        Some(Json::Array(items)) => items,
        _ => return Err(ProviderError::InvalidResponse(owned(OUTPUT_NOT_AN_ARRAY))),
    };
    proof {
        assert(match json_view(Json::Array(*items)) {
            JsonView::Array(a) => a =~= items_view(items@),
            _ => false,
        });
    }
    let (text, calls) = match normalized_responses_output(items) {
        Ok(n) => n,
        Err(m) => return Err(ProviderError::InvalidResponse(m)),
    };
    if text.is_none() && calls.len() == 0 {
        return Err(ProviderError::InvalidResponse(owned(EMPTY_RESPONSES_OUTPUT)));
    }
    let ghost cv = calls@;
    let mut tool_calls: Vec<ToolCall> = Vec::new();
    let mut k: usize = 0;
    while k < calls.len()
        invariant
            k <= calls@.len(),
            cv == calls@,
            tool_calls@.len() == k,
            forall|j: int|
                0 <= j < k ==> (#[trigger] tool_calls@[j])@ == (ToolCallView {
                    id: cv[j].0@,
                    name: cv[j].1@,
                    arguments: cv[j].2@,
                }),
        decreases calls.len() - k,
    {
        tool_calls.push(
            ToolCall { id: calls[k].0.clone(), name: calls[k].1.clone(), arguments: calls[k].2.clone() },
        );
        k += 1;
    }
    let mut copy: Vec<Json> = crate::json::no_items();
    let mut i: usize = 0;
    while i < items.len()
        invariant
            i <= items@.len(),
            items_view(copy@) == items_view(items@).take(i as int),
        decreases items.len() - i,
    {
        push_item(&mut copy, items[i].duplicate());
        proof {
            assert(items_view(copy@) =~= items_view(items@).take(i + 1));
        }
        i += 1;
    }
    proof {
        assert(items_view(items@).take(items@.len() as int) == items_view(items@));
    }
    let mut state: Vec<(String, Json)> = crate::json::no_members();
    push_field(&mut state, "output", Json::array(copy));
    let provider_state = Json::object(state);
    proof {
        assert(fields_view(state@) =~= match obj1("output"@, JsonView::Array(items_view(items@))) {
            JsonView::Object(o) => o,
            _ => Seq::empty(),
        });
    }
    let content = match text {
        Some(t) => Some(Content::Text(t)),
        None => None,
    };
    Ok(
        ProviderResponse {
            message: AssistantMessage {
                content,
                reasoning: None,
                tool_calls,
                provider_state: Some(provider_state),
            },
            usage,
        },
    )
}

/// The delta a stream event yields, if any: output text, the start of a
/// function call (its id and name), or a fragment of its arguments.
pub open spec fn response_delta_view(e: JsonView) -> Option<AssistantDeltaView> {
    let ty = str_of(e, "type"@);
    let index = match u64_of(e, "output_index"@) {
        Some(n) => n,
        None => 0,
    };
    if ty == Some("response.output_text.delta"@) {
        match str_of(e, "delta"@) {
            Some(d) => Some(AssistantDeltaView::Text(d)),
            None => None,
        }
    } else if ty == Some("response.output_item.added"@) && str_of(field(e, "item"@), "type"@) == Some(
        "function_call"@,
    ) {
        Some(
            AssistantDeltaView::ToolCall {
                index: index as usize,
                id: str_of(field(e, "item"@), "call_id"@),
                name: str_of(field(e, "item"@), "name"@),
                arguments: Seq::empty(),
            },
        )
    } else if ty == Some("response.function_call_arguments.delta"@) {
        Some(
            AssistantDeltaView::ToolCall {
                index: index as usize,
                id: None,
                name: None,
                arguments: match str_of(e, "delta"@) {
                    Some(d) => d,
                    None => Seq::empty(),
                },
            },
        )
    } else {
        None
    }
}

fn opt_owned(s: Option<&str>) -> (r: Option<String>)
    ensures
        crate::types::opt_str_view(r) == match s {
            Some(x) => Some(x@),
            None => None::<Seq<char>>,
        },
{
    match s {
        Some(x) => Some(owned(x)),
        None => None,
    }
}

/// The delta a stream event yields; see [`response_delta_view`].
pub fn response_delta(event: &Json) -> (r: Option<AssistantDelta>)
    ensures
        match r {
            Some(d) => response_delta_view(json_view(*event)) == Some(d@),
            None => response_delta_view(json_view(*event)) is None,
        },
{
    let index: u64 = match u64_ref(event, "output_index") {
        Some(n) => n,
        None => 0,
    };
    let null = Json::Null;
    if str_is(event, "type", "response.output_text.delta") {
        match str_ref(event, "delta") {
            Some(d) => Some(AssistantDelta::Text { delta: owned(d) }),
            None => None,
        }
    } else if str_is(event, "type", "response.output_item.added") && {
        let item: &Json = match member_ref(event, "item") {
            Some(x) => x,
            None => &null,
        };
        str_is(item, "type", "function_call")
    } {
        let item: &Json = match member_ref(event, "item") {
            Some(x) => x,
            None => &null,
        };
        Some(
            AssistantDelta::ToolCall {
                index: index as usize,
                id: opt_owned(str_ref(item, "call_id")),
                name: opt_owned(str_ref(item, "name")),
                arguments_delta: String::new(),
            },
        )
    } else if str_is(event, "type", "response.function_call_arguments.delta") {
        let d = match str_ref(event, "delta") {
            Some(d) => owned(d),
            None => String::new(),
        };
        Some(AssistantDelta::ToolCall { index: index as usize, id: None, name: None, arguments_delta: d })
    } else {
        None
    }
}

/// The error of a stream that ended before `response.completed`.
pub const UNFINISHED_RESPONSES_STREAM: &'static str = "Responses stream ended without response.completed";

/// What one Responses stream event means for the stream.
pub enum ResponsesStreamStep {
    /// The stream is complete, with this response.
    Finished(ProviderResponse),
    /// A delta to forward.
    Delta(AssistantDelta),
    /// Nothing to forward.
    Nothing,
}

/// Handles one Responses stream event: `response.completed` finishes the
/// stream with its response; `response.failed` and `response.incomplete`
/// fail it with the event's JSON text (a context-window rejection when the
/// text says so); any other event yields its delta, if any.
pub fn responses_stream_step(event: &Json) -> (r: Result<ResponsesStreamStep, ProviderError>)
    ensures
        str_of(json_view(*event), "type"@) == Some("response.completed"@) ==> match r {
            Ok(ResponsesStreamStep::Finished(p)) => parsed_response(
                field(json_view(*event), "response"@),
                Ok::<ProviderResponse, ProviderError>(p),
            ),
            Err(e) => parsed_response(
                field(json_view(*event), "response"@),
                Err::<ProviderResponse, ProviderError>(e),
            ),
            _ => false,
        },
        (str_of(json_view(*event), "type"@) == Some("response.failed"@) || str_of(
            json_view(*event),
            "type"@,
        ) == Some("response.incomplete"@)) ==> match r {
            Err(ProviderError::ContextLengthExceeded { message: m }) => crate::error::is_context_length_message(
                crate::json::json_text(json_view(*event)),
            ) && m@ == crate::json::json_text(json_view(*event)),
            Err(ProviderError::InvalidResponse(m)) => !crate::error::is_context_length_message(
                crate::json::json_text(json_view(*event)),
            ) && m@ == crate::json::json_text(json_view(*event)),
            _ => false,
        },
        str_of(json_view(*event), "type"@) != Some("response.completed"@) && str_of(
            json_view(*event),
            "type"@,
        ) != Some("response.failed"@) && str_of(json_view(*event), "type"@) != Some(
            "response.incomplete"@,
        ) ==> match response_delta_view(json_view(*event)) {
            Some(d) => r matches Ok(ResponsesStreamStep::Delta(x)) && x@ == d,
            None => r matches Ok(ResponsesStreamStep::Nothing),
        },
{
    proof {
        reveal_strlit("response.completed");
        reveal_strlit("response.failed");
        reveal_strlit("response.incomplete");
        assert("response.completed"@.len() != "response.failed"@.len());
        assert("response.completed"@.len() != "response.incomplete"@.len());
    }
    if str_is(event, "type", "response.completed") {
        let null = Json::Null;
        let response: &Json = match member_ref(event, "response") {
            Some(x) => x,
            None => &null,
        };
        match parse_response(response) {
            Ok(parsed) => Ok(ResponsesStreamStep::Finished(parsed)),
            Err(e) => Err(e),
        }
    } else if str_is(event, "type", "response.failed") || str_is(event, "type", "response.incomplete") {
        Err(ProviderError::from_stream_response_error(crate::json::json_to_text(event)))
    } else {
        match response_delta(event) {
            Some(d) => Ok(ResponsesStreamStep::Delta(d)),
            None => Ok(ResponsesStreamStep::Nothing),
        }
    }
}

} // verus!
