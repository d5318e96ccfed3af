//! The Anthropic Messages adapter: request bodies, with the replay of
//! thinking blocks, and the accumulation of streamed content blocks.
use vstd::prelude::*;

use crate::chat::{key_pos, lemma_key_pos_exact, member, obj1, obj2, str_member};
use crate::error::ProviderError;
use crate::json::{fields_view, items_view, json_text, json_view, push_field, push_item, Json, JsonView};
use crate::mcp::json_texts_equal;
use crate::text::{
    all_ws, contains_seq, debug_str, debug_string, find_first, is_blank, occurs_at, owned, push_str,
    starts_with,
};
use crate::types::{
    parts_view, Content, ContentPart, ContentPartView, ContentView, Message, MessageView, Role,
    ProviderRequest, ReasoningEffort, ToolCall, ToolCallView, ToolDefinition, ToolDefinitionView,
};
use crate::chat::{
    effort_name, effort_text, merge_members, parse_extra_body, strip_trailing_slashes,
    trim_trailing_slashes, EMPTY_ENDPOINT_OR_MODEL, EXTRA_BODY_NOT_OBJECT,
};
use crate::mcp::join_with;
use crate::provider::{text_only, text_only_spec};

verus! {

broadcast use vstd::string::group_string_axioms;

/// The three-member object `{k1: v1, k2: v2, k3: v3}`.
pub open spec fn obj3(
    k1: Seq<char>,
    v1: JsonView,
    k2: Seq<char>,
    v2: JsonView,
    k3: Seq<char>,
    v3: JsonView,
) -> JsonView {
    JsonView::Object(Seq::empty().push(member(k1, v1)).push(member(k2, v2)).push(member(k3, v3)))
}

/// A `data:` URL split into its media type and base64 payload: `None` for
/// another URL, `Some(None)` for a `data:` URL without `;base64,`.
pub open spec fn data_url(s: Seq<char>) -> Option<Option<(Seq<char>, Seq<char>)>> {
    if starts_with(s, "data:"@) {
        let rest = s.skip(5);
        match find_first(rest, ";base64,"@) {
            Some(i) => Some(Some((rest.take(i), rest.skip(i + 8)))),
            None => Some(None),
        }
    } else {
        None
    }
}

fn split_data_url(s: &str) -> (r: Option<Option<(String, String)>>)
    ensures
        match data_url(s@) {
            None => r is None,
            Some(None) => r == Some(None::<(String, String)>),
            Some(Some((m, e))) => r matches Some(Some((a, b))) && a@ == m && b@ == e,
        },
{
    proof {
        reveal_strlit("data:");
        reveal_strlit(";base64,");
    }
    if !crate::chat::starts_with_data(s) {
        return None;
    }
    let v = crate::text::chars_of(s);
    let rest = crate::text::chars_between(&v, 5, v.len());
    let needle = crate::text::chars_of(";base64,");
    proof {
        assert(rest@ == s@.skip(5));
        assert(needle@ == ";base64,"@);
        assert(needle@.len() == 8);
    }
    match crate::text::find_chars(&rest, &needle) {
        Some(i) => {
            proof {
                assert(i + 8 <= rest@.len());
            }
            let media = crate::text::string_of(&rest, 0, i);
            let encoded = crate::text::string_of(&rest, i + 8, rest.len());
            proof {
                assert(media@ == rest@.take(i as int));
                assert(encoded@ == rest@.skip(i + 8));
            }
            Some(Some((media, encoded)))
        },
        None => Some(None),
    }
}

/// The `source` of a base64 payload.
pub open spec fn base64_source(media: Seq<char>, encoded: Seq<char>) -> JsonView {
    obj3(
        "type"@,
        JsonView::Str("base64"@),
        "media_type"@,
        JsonView::Str(media),
        "data"@,
        JsonView::Str(encoded),
    )
}

/// The `source` of a remote URL.
pub open spec fn url_source(url: Seq<char>) -> JsonView {
    obj2("type"@, JsonView::Str("url"@), "url"@, JsonView::Str(url))
}

/// The Messages block of one content part, or why it cannot be sent.
pub open spec fn claude_part_json(p: ContentPartView) -> Result<JsonView, Seq<char>> {
    if p.kind == 0 {
        Ok(obj2("type"@, JsonView::Str("text"@), "text"@, JsonView::Str(p.text)))
    } else if p.kind == 1 {
        match data_url(p.text) {
            Some(Some((m, e))) => Ok(
                obj2("type"@, JsonView::Str("image"@), "source"@, base64_source(m, e)),
            ),
            Some(None) => Err("invalid base64 image data URL"@),
            None => Ok(obj2("type"@, JsonView::Str("image"@), "source"@, url_source(p.text))),
        }
    } else {
        match data_url(p.data) {
            Some(Some((m, e))) => Ok(
                obj3(
                    "type"@,
                    JsonView::Str("document"@),
                    "source"@,
                    base64_source(m, e),
                    "title"@,
                    JsonView::Str(p.text),
                ),
            ),
            Some(None) => Err("invalid base64 document data URL"@),
            None => Ok(
                obj3(
                    "type"@,
                    JsonView::Str("document"@),
                    "source"@,
                    url_source(p.data),
                    "title"@,
                    JsonView::Str(p.text),
                ),
            ),
        }
    }
}

/// `;base64,` does not occur in `media + ";base64," + payload` before
/// position `media.len()`: it would lie inside `media`, or start with a
/// character of `media` and hit the `;` that follows it elsewhere than at
/// its own first character.
proof fn lemma_no_earlier_base64_marker(media: Seq<char>, payload: Seq<char>, j: int)
    requires
        !contains_seq(media, ";base64,"@),
        0 <= j < media.len(),
    ensures
        !occurs_at(media + ";base64,"@ + payload, ";base64,"@, j),
{
    reveal_strlit(";base64,");
    let needle = ";base64,"@;
    let hay = media + needle + payload;
    let n = media.len() as int;
    assert(needle.len() == 8);
    if occurs_at(hay, needle, j) {
        if j + 8 <= n {
            assert(media.subrange(j, j + 8) =~= hay.subrange(j, j + 8));
            assert(occurs_at(media, needle, j));
        } else {
            let k = n - j;
            assert(1 <= k < 8);
            assert(hay[n] == needle[0]);
            assert(hay.subrange(j, j + 8)[k] == hay[n]);
            assert(needle[k] != ';');
        }
    }
}

/// The first occurrence of `;base64,` in `media + ";base64," + payload` is
/// right after `media` when `media` holds none.
proof fn lemma_first_base64_marker(media: Seq<char>, payload: Seq<char>)
    requires
        !contains_seq(media, ";base64,"@),
    ensures
        find_first(media + ";base64,"@ + payload, ";base64,"@) == Some(media.len() as int),
{
    reveal_strlit(";base64,");
    let needle = ";base64,"@;
    let hay = media + needle + payload;
    let n = media.len() as int;
    assert(hay.subrange(n, n + 8) =~= needle);
    assert(occurs_at(hay, needle, n));
    assert forall|j: int| 0 <= j < n implies !#[trigger] occurs_at(hay, needle, j) by {
        lemma_no_earlier_base64_marker(media, payload, j);
    }
    let k = choose|i: int|
        occurs_at(hay, needle, i) && forall|j: int| 0 <= j < i ==> !#[trigger] occurs_at(hay, needle, j);
    assert(occurs_at(hay, needle, k));
    if k < n {
        assert(!occurs_at(hay, needle, k));
    } else if k > n {
        assert(!occurs_at(hay, needle, n));
    }
}

/// An inline image travels as base64 and a remote one by URL: for an image
/// part whose URL is `data:<media>;base64,<payload>`, the block's source is
/// `{"type": "base64", "media_type": <media>, "data": <payload>}`; for a URL
/// that does not start with `data:`, it is `{"type": "url", "url": <url>}`.
/// The same holds of a document's data, with its title after the source.
pub proof fn lemma_inline_media_is_sent_as_base64(
    p: ContentPartView,
    media: Seq<char>,
    payload: Seq<char>,
)
    requires
        !contains_seq(media, ";base64,"@),
    ensures
        p.kind == 1 && p.text == "data:"@ + media + ";base64,"@ + payload ==> claude_part_json(p)
            == Ok::<JsonView, Seq<char>>(
            JsonView::Object(
                seq![
                    ("type"@, JsonView::Str("image"@)),
                    (
                        "source"@,
                        JsonView::Object(
                            seq![
                                ("type"@, JsonView::Str("base64"@)),
                                ("media_type"@, JsonView::Str(media)),
                                ("data"@, JsonView::Str(payload)),
                            ],
                        ),
                    ),
                ],
            ),
        ),
        p.kind == 1 && !starts_with(p.text, "data:"@) ==> claude_part_json(p) == Ok::<
            JsonView,
            Seq<char>,
        >(
            JsonView::Object(
                seq![
                    ("type"@, JsonView::Str("image"@)),
                    (
                        "source"@,
                        JsonView::Object(
                            seq![("type"@, JsonView::Str("url"@)), ("url"@, JsonView::Str(p.text))],
                        ),
                    ),
                ],
            ),
        ),
        p.kind == 2 && p.data == "data:"@ + media + ";base64,"@ + payload ==> claude_part_json(p)
            == Ok::<JsonView, Seq<char>>(
            JsonView::Object(
                seq![
                    ("type"@, JsonView::Str("document"@)),
                    (
                        "source"@,
                        JsonView::Object(
                            seq![
                                ("type"@, JsonView::Str("base64"@)),
                                ("media_type"@, JsonView::Str(media)),
                                ("data"@, JsonView::Str(payload)),
                            ],
                        ),
                    ),
                    ("title"@, JsonView::Str(p.text)),
                ],
            ),
        ),
        p.kind == 2 && !starts_with(p.data, "data:"@) ==> claude_part_json(p) == Ok::<
            JsonView,
            Seq<char>,
        >(
            JsonView::Object(
                seq![
                    ("type"@, JsonView::Str("document"@)),
                    (
                        "source"@,
                        JsonView::Object(
                            seq![("type"@, JsonView::Str("url"@)), ("url"@, JsonView::Str(p.data))],
                        ),
                    ),
                    ("title"@, JsonView::Str(p.text)),
                ],
            ),
        ),
{
    lemma_data_url_splits(media, payload);
    lemma_block_shapes(media, payload, p.data);
    lemma_block_shapes(media, payload, p.text);
}

/// `data:<media>;base64,<payload>` splits into `media` and `payload`.
proof fn lemma_data_url_splits(media: Seq<char>, payload: Seq<char>)
    requires
        !contains_seq(media, ";base64,"@),
    ensures
        data_url("data:"@ + media + ";base64,"@ + payload) == Some(Some((media, payload))),
{
    reveal_strlit("data:");
    reveal_strlit(";base64,");
    let url = "data:"@ + media + ";base64,"@ + payload;
    let rest = media + ";base64,"@ + payload;
    assert(url.take(5) =~= "data:"@);
    assert(url.skip(5) =~= rest);
    lemma_first_base64_marker(media, payload);
    assert(rest.take(media.len() as int) =~= media);
    assert(rest.skip(media.len() as int + 8) =~= payload);
}

/// The objects the block builders make, member by member.
proof fn lemma_block_shapes(media: Seq<char>, payload: Seq<char>, text: Seq<char>)
    ensures
        base64_source(media, payload) == JsonView::Object(
            seq![
                ("type"@, JsonView::Str("base64"@)),
                ("media_type"@, JsonView::Str(media)),
                ("data"@, JsonView::Str(payload)),
            ],
        ),
        url_source(text) == JsonView::Object(
            seq![("type"@, JsonView::Str("url"@)), ("url"@, JsonView::Str(text))],
        ),
        forall|src: JsonView|
            #[trigger] obj2("type"@, JsonView::Str("image"@), "source"@, src) == JsonView::Object(
                seq![("type"@, JsonView::Str("image"@)), ("source"@, src)],
            ),
        forall|src: JsonView|
            #[trigger] obj3(
                "type"@,
                JsonView::Str("document"@),
                "source"@,
                src,
                "title"@,
                JsonView::Str(text),
            ) == JsonView::Object(
                seq![
                    ("type"@, JsonView::Str("document"@)),
                    ("source"@, src),
                    ("title"@, JsonView::Str(text)),
                ],
            ),
{
    assert(Seq::empty().push(member("type"@, JsonView::Str("base64"@))).push(
        member("media_type"@, JsonView::Str(media)),
    ).push(member("data"@, JsonView::Str(payload))) =~= seq![
        ("type"@, JsonView::Str("base64"@)),
        ("media_type"@, JsonView::Str(media)),
        ("data"@, JsonView::Str(payload)),
    ]);
    assert(Seq::empty().push(member("type"@, JsonView::Str("url"@))).push(
        member("url"@, JsonView::Str(text)),
    ) =~= seq![("type"@, JsonView::Str("url"@)), ("url"@, JsonView::Str(text))]);
    assert forall|src: JsonView|
        #[trigger] obj2("type"@, JsonView::Str("image"@), "source"@, src) == JsonView::Object(
            seq![("type"@, JsonView::Str("image"@)), ("source"@, src)],
        ) by {
        assert(Seq::empty().push(member("type"@, JsonView::Str("image"@))).push(
            member("source"@, src),
        ) =~= seq![("type"@, JsonView::Str("image"@)), ("source"@, src)]);
    }
    assert forall|src: JsonView|
        #[trigger] obj3(
            "type"@,
            JsonView::Str("document"@),
            "source"@,
            src,
            "title"@,
            JsonView::Str(text),
        ) == JsonView::Object(
            seq![
                ("type"@, JsonView::Str("document"@)),
                ("source"@, src),
                ("title"@, JsonView::Str(text)),
            ],
        ) by {
        assert(Seq::empty().push(member("type"@, JsonView::Str("document"@))).push(
            member("source"@, src),
        ).push(member("title"@, JsonView::Str(text))) =~= seq![
            ("type"@, JsonView::Str("document"@)),
            ("source"@, src),
            ("title"@, JsonView::Str(text)),
        ]);
    }
}

fn source_json(split: Option<(String, String)>, url: &str) -> (r: Json)
    ensures
        json_view(r) == match split {
            Some((m, e)) => base64_source(m@, e@),
            None => url_source(url@),
        },
{
    let ghost expected = match &split {
        Some((m, e)) => base64_source(m@, e@),
        None => url_source(url@),
    };
    let mut fields: Vec<(String, Json)> = crate::json::no_members();
    match split {
        Some((media, encoded)) => {
            str_member(&mut fields, "type", "base64");
            push_field(&mut fields, "media_type", Json::Str(media));
            push_field(&mut fields, "data", Json::Str(encoded));
        },
        None => {
            str_member(&mut fields, "type", "url");
            str_member(&mut fields, "url", url);
        },
    }
    let r = Json::object(fields);
    proof {
        assert(fields_view(fields@) =~= match expected {
            JsonView::Object(o) => o,
            _ => Seq::empty(),
        });
    }
    r
}

/// The Messages block of one content part.
pub fn claude_part(part: &ContentPart) -> (r: Result<Json, ProviderError>)
    ensures
        match claude_part_json(part@) {
            Ok(j) => r matches Ok(b) && json_view(b) == j,
            Err(m) => r matches Err(ProviderError::InvalidRequest(e)) && e@ == m,
        },
{
    let mut fields: Vec<(String, Json)> = crate::json::no_members();
    match part {
        ContentPart::Text { text } => {
            str_member(&mut fields, "type", "text");
            str_member(&mut fields, "text", text.as_str());
        },
        ContentPart::ImageUrl { image_url } => {
            let split = match split_data_url(image_url.url.as_str()) {
                Some(Some(pair)) => Some(pair),
                Some(None) => {
                    return Err(ProviderError::InvalidRequest(owned("invalid base64 image data URL")));
                },
                None => None,
            };
            str_member(&mut fields, "type", "image");
            push_field(&mut fields, "source", source_json(split, image_url.url.as_str()));
        },
        ContentPart::Document { document } => {
            let split = match split_data_url(document.data.as_str()) {
                Some(Some(pair)) => Some(pair),
                Some(None) => {
                    return Err(
                        ProviderError::InvalidRequest(owned("invalid base64 document data URL")),
                    );
                },
                None => None,
            };
            str_member(&mut fields, "type", "document");
            push_field(&mut fields, "source", source_json(split, document.data.as_str()));
            str_member(&mut fields, "title", document.filename.as_str());
        },
    }
    let r = Json::object(fields);
    proof {
        assert(fields_view(fields@) =~= match claude_part_json(part@) {
            Ok(JsonView::Object(o)) => o,
            _ => Seq::empty(),
        });
    }
    Ok(r)
}

/// The blocks of parts, in order, or the first reason one cannot be sent.
pub open spec fn parts_blocks(ps: Seq<ContentPartView>) -> Result<Seq<JsonView>, Seq<char>>
    decreases ps.len(),
{
    if ps.len() == 0 {
        Ok(Seq::empty())
    } else {
        match parts_blocks(ps.drop_last()) {
            Err(e) => Err(e),
            Ok(bs) => match claude_part_json(ps.last()) {
                Ok(b) => Ok(bs.push(b)),
                Err(e) => Err(e),
            },
        }
    }
}

/// The blocks of optional content.
pub open spec fn content_blocks(c: Option<ContentView>) -> Result<Seq<JsonView>, Seq<char>> {
    match c {
        None => Ok(Seq::empty()),
        Some(ContentView::Text(t)) => Ok(
            Seq::empty().push(obj2("type"@, JsonView::Str("text"@), "text"@, JsonView::Str(t))),
        ),
        Some(ContentView::Parts(ps)) => parts_blocks(ps),
    }
}

proof fn lemma_parts_blocks_err(ps: Seq<ContentPartView>, k: int)
    requires
        0 < k <= ps.len(),
        parts_blocks(ps.take(k)) is Err,
    ensures
        parts_blocks(ps) == parts_blocks(ps.take(k)),
    decreases ps.len() - k,
{
    if k < ps.len() {
        assert(ps.take(k + 1).drop_last() == ps.take(k));
        lemma_parts_blocks_err(ps, k + 1);
    } else {
        assert(ps.take(k) == ps);
    }
}

/// The blocks of message content.
pub fn claude_content(content: &Option<Content>) -> (r: Result<Vec<Json>, ProviderError>)
    ensures
        match content_blocks(crate::types::opt_content_view(*content)) {
            Ok(bs) => r matches Ok(v) && items_view(v@) == bs,
            Err(m) => r matches Err(ProviderError::InvalidRequest(e)) && e@ == m,
        },
{
    let mut out: Vec<Json> = crate::json::no_items();
    match content {
        None => Ok(out),
        Some(Content::Text(t)) => {
            let mut fields: Vec<(String, Json)> = crate::json::no_members();
            str_member(&mut fields, "type", "text");
            str_member(&mut fields, "text", t.as_str());
            let block = Json::object(fields);
            proof {
                assert(fields_view(fields@) =~= match obj2(
                    "type"@,
                    JsonView::Str("text"@),
                    "text"@,
                    JsonView::Str(t@),
                ) {
                    JsonView::Object(o) => o,
                    _ => Seq::empty(),
                });
            }
            push_item(&mut out, block);
            Ok(out)
        },
        Some(Content::Parts(parts)) => parts_to_blocks(parts),
    }
}

fn parts_to_blocks(parts: &Vec<ContentPart>) -> (r: Result<Vec<Json>, ProviderError>)
    ensures
        match parts_blocks(parts_view(parts@)) {
            Ok(bs) => r matches Ok(v) && items_view(v@) == bs,
            Err(m) => r matches Err(ProviderError::InvalidRequest(e)) && e@ == m,
        },
{
    let ghost pv = parts_view(parts@);
    let mut out: Vec<Json> = crate::json::no_items();
    let mut i: usize = 0;
    while i < parts.len()
        invariant
            i <= parts@.len(),
            pv == parts_view(parts@),
            parts_blocks(pv.take(i as int)) == Ok::<Seq<JsonView>, Seq<char>>(items_view(out@)),
        decreases parts.len() - i,
    {
        proof {
            assert(pv.take(i + 1).drop_last() == pv.take(i as int));
            assert(pv.take(i + 1).last() == parts@[i as int]@);
        }
        match claude_part(&parts[i]) {
            Ok(block) => push_item(&mut out, block),
            Err(e) => {
                proof {
                    lemma_parts_blocks_err(pv, i + 1);
                }
                return Err(e);
            },
        }
        i += 1;
    }
    proof {
        assert(pv.take(pv.len() as int) == pv);
    }
    Ok(out)
}

/// The parts a tool result nests (text and images) and the documents it
/// hands on as sibling blocks, or the first reason a part cannot be sent.
pub open spec fn tool_result_split(ps: Seq<ContentPartView>) -> Result<(Seq<JsonView>, Seq<JsonView>), Seq<char>>
    decreases ps.len(),
{
    if ps.len() == 0 {
        Ok((Seq::empty(), Seq::empty()))
    } else {
        match tool_result_split(ps.drop_last()) {
            Err(e) => Err(e),
            Ok((nested, attachments)) => match claude_part_json(ps.last()) {
                Err(e) => Err(e),
                Ok(b) => if ps.last().kind == 2 {
                    Ok((nested, attachments.push(b)))
                } else {
                    Ok((nested.push(b), attachments))
                },
            },
        }
    }
}

/// The `content` of a tool result block, and the documents that follow it.
pub open spec fn tool_result_content(c: Option<ContentView>) -> Result<(JsonView, Seq<JsonView>), Seq<char>> {
    match c {
        None => Ok((JsonView::Str(Seq::empty()), Seq::empty())),
        Some(ContentView::Text(t)) => Ok((JsonView::Str(t), Seq::empty())),
        Some(ContentView::Parts(ps)) => match tool_result_split(ps) {
            Err(e) => Err(e),
            Ok((nested, attachments)) => Ok(
                (
                    if nested.len() == 0 {
                        JsonView::Str(Seq::empty())
                    } else {
                        JsonView::Array(nested)
                    },
                    attachments,
                ),
            ),
        },
    }
}

proof fn lemma_tool_result_split_err(ps: Seq<ContentPartView>, k: int)
    requires
        0 < k <= ps.len(),
        tool_result_split(ps.take(k)) is Err,
    ensures
        tool_result_split(ps) == tool_result_split(ps.take(k)),
    decreases ps.len() - k,
{
    if k < ps.len() {
        assert(ps.take(k + 1).drop_last() == ps.take(k));
        lemma_tool_result_split_err(ps, k + 1);
    } else {
        assert(ps.take(k) == ps);
    }
}

/// The content of a tool result block and the documents that follow it.
#[verifier::rlimit(40)]
#[verifier::spinoff_prover]
pub fn claude_tool_result(content: &Option<Content>) -> (r: Result<(Json, Vec<Json>), ProviderError>)
    ensures
        match tool_result_content(crate::types::opt_content_view(*content)) {
            Ok((c, a)) => r matches Ok((x, v)) && json_view(x) == c && items_view(v@) == a,
            Err(m) => r matches Err(ProviderError::InvalidRequest(e)) && e@ == m,
        },
{
    match content {
        None => Ok((Json::Str(String::new()), crate::json::no_items())),
        Some(Content::Text(t)) => Ok((Json::Str(t.clone()), crate::json::no_items())),
        Some(Content::Parts(parts)) => {
            let ghost pv = parts_view(parts@);
            let mut nested: Vec<Json> = crate::json::no_items();
            let mut attachments: Vec<Json> = crate::json::no_items();
            let mut i: usize = 0;
            while i < parts.len()
                invariant
                    i <= parts@.len(),
                    pv == parts_view(parts@),
                    crate::types::opt_content_view(*content) == Some(ContentView::Parts(pv)),
                    tool_result_split(pv.take(i as int)) == Ok::<
                        (Seq<JsonView>, Seq<JsonView>),
                        Seq<char>,
                    >((items_view(nested@), items_view(attachments@))),
                decreases parts.len() - i,
            {
                proof {
                    assert(pv.take(i + 1).drop_last() == pv.take(i as int));
                    assert(pv.take(i + 1).last() == parts@[i as int]@);
                }
                let is_document = match &parts[i] {
                    ContentPart::Document { .. } => true,
                    _ => false,
                };
                match claude_part(&parts[i]) {
                    Ok(block) => {
                        if is_document {
                            push_item(&mut attachments, block);
                        } else {
                            push_item(&mut nested, block);
                        }
                    },
                    Err(e) => {
                        proof {
                            lemma_tool_result_split_err(pv, i + 1);
                        }
                        return Err(e);
                    },
                }
                i += 1;
            }
            proof {
                assert(pv.take(pv.len() as int) == pv);
            }
            let content = if nested.len() == 0 {
                Json::Str(String::new())
            } else {
                Json::array(nested)
            };
            Ok((content, attachments))
        },
    }
}

/// The value of the first member called `k`, when `j` is an object that
/// has one.
pub open spec fn member_of(j: JsonView, k: Seq<char>) -> Option<JsonView> {
    match j {
        JsonView::Object(o) => {
            let p = key_pos(o, k);
            if p < o.len() {
                Some(o[p].1)
            } else {
                None
            }
        },
        _ => None,
    }
}

/// The text of the member `k`, when it is a string.
pub open spec fn str_of(j: JsonView, k: Seq<char>) -> Option<Seq<char>> {
    match member_of(j, k) {
        Some(JsonView::Str(s)) => Some(s),
        _ => None,
    }
}

/// The member `k`, when it is an unsigned integer.
pub open spec fn u64_of(j: JsonView, k: Seq<char>) -> Option<u64> {
    match member_of(j, k) {
        Some(JsonView::UInt(n)) => Some(n),
        _ => None,
    }
}

/// The value of the first member called `k` of an object.
pub fn member_ref<'a>(j: &'a Json, k: &str) -> (r: Option<&'a Json>)
    ensures
        match r {
            Some(x) => member_of(json_view(*j), k@) == Some(json_view(*x)),
            None => member_of(json_view(*j), k@) is None,
        },
{
    match j {
        Json::Object(fields) => {
            let ghost fv = fields_view(fields@);
            proof {
                assert(match json_view(*j) {
                    JsonView::Object(o) => o =~= fv,
                    _ => false,
                });
            }
            let target = owned(k);
            let mut p: usize = 0;
            while p < fields.len() && !crate::text::string_eq(&fields[p].0, &target)
                invariant
                    p <= fields@.len(),
                    target@ == k@,
                    fv == fields_view(fields@),
                    forall|q: int| 0 <= q < p ==> (#[trigger] fv[q]).0 != k@,
                decreases fields.len() - p,
            {
                p += 1;
            }
            proof {
                if p < fv.len() {
                    assert(fv[p as int].0 == k@);
                }
                lemma_key_pos_exact(fv, k@, p as int);
            }
            if p < fields.len() {
                Some(&fields[p].1)
            } else {
                None
            }
        },
        _ => None,
    }
}

/// The text of the member `k`, when it is a string.
pub fn str_ref<'a>(j: &'a Json, k: &str) -> (r: Option<&'a str>)
    ensures
        match r {
            Some(x) => str_of(json_view(*j), k@) == Some(x@),
            None => str_of(json_view(*j), k@) is None,
        },
{
    match member_ref(j, k) {
        Some(Json::Str(s)) => Some(s.as_str()),
        _ => None,
    }
}

/// The member `k`, when it is an unsigned integer.
pub fn u64_ref(j: &Json, k: &str) -> (r: Option<u64>)
    ensures
        r == u64_of(json_view(*j), k@),
{
    match member_ref(j, k) {
        Some(Json::UInt(n)) => Some(*n),
        _ => None,
    }
}

/// Whether the string member `k` of `j` is `v`.
pub(crate) fn str_is(j: &Json, k: &str, v: &str) -> (r: bool)
    ensures
        r == (str_of(json_view(*j), k@) == Some(v@)),
{
    match str_ref(j, k) {
        Some(s) => {
            let a = owned(s);
            let b = owned(v);
            crate::text::string_eq(&a, &b)
        },
        None => false,
    }
}

/// A tool call read back from a replayed `tool_use` block: its id, its
/// name and the JSON text of its input.
pub type ReplayedCall = (Seq<char>, Seq<char>, Seq<char>);

/// The text and tool calls that replayed blocks stand for, or `None` when a
/// `tool_use` block lacks a string id or name. Text blocks are joined; a
/// `tool_use` block without input stands for the empty object.
pub open spec fn normalized_blocks(bs: Seq<JsonView>) -> Option<(Seq<char>, Seq<ReplayedCall>)>
    decreases bs.len(),
{
    if bs.len() == 0 {
        Some((Seq::empty(), Seq::empty()))
    } else {
        match normalized_blocks(bs.drop_last()) {
            None => None,
            Some((text, calls)) => {
                let b = bs.last();
                if str_of(b, "type"@) == Some("text"@) {
                    Some(
                        (
                            text + match str_of(b, "text"@) {
                                Some(t) => t,
                                None => Seq::empty(),
                            },
                            calls,
                        ),
                    )
                } else if str_of(b, "type"@) == Some("tool_use"@) {
                    match (str_of(b, "id"@), str_of(b, "name"@)) {
                        (Some(id), Some(name)) => Some(
                            (
                                text,
                                calls.push(
                                    (
                                        id,
                                        name,
                                        match member_of(b, "input"@) {
                                            Some(v) => json_text(v),
                                            None => seq!['{', '}'],
                                        },
                                    ),
                                ),
                            ),
                        ),
                        _ => None,
                    }
                } else {
                    Some((text, calls))
                }
            },
        }
    }
}

/// Whether replayed blocks still say what the message says: the same text
/// (none when they hold none) and the same tool calls, inputs compared as
/// JSON values.
pub open spec fn replay_matches(m: MessageView, bs: Seq<JsonView>) -> bool {
    match normalized_blocks(bs) {
        None => false,
        Some((text, calls)) => {
            &&& if text.len() == 0 {
                m.content is None
            } else {
                m.content == Some(ContentView::Text(text))
            }
            &&& calls.len() == m.tool_calls.len()
            &&& forall|i: int|
                0 <= i < calls.len() ==> (#[trigger] calls[i]).0 == m.tool_calls[i].id && calls[i].1
                    == m.tool_calls[i].name && json_texts_equal(calls[i].2, m.tool_calls[i].arguments)
        },
    }
}

/// Whether a block is a text or `tool_use` block.
pub open spec fn is_text_or_tool_use(b: JsonView) -> bool {
    str_of(b, "type"@) == Some("text"@) || str_of(b, "type"@) == Some("tool_use"@)
}

/// The replayed blocks that are neither text nor `tool_use`, in order.
pub open spec fn kept_blocks(bs: Seq<JsonView>) -> Seq<JsonView>
    decreases bs.len(),
{
    if bs.len() == 0 {
        Seq::empty()
    } else {
        kept_blocks(bs.drop_last()) + if is_text_or_tool_use(bs.last()) {
            Seq::empty()
        } else {
            seq![bs.last()]
        }
    }
}

/// The `tool_use` block of a tool call.
pub open spec fn tool_use_json(c: ToolCallView) -> JsonView {
    JsonView::Object(
        Seq::empty().push(member("type"@, JsonView::Str("tool_use"@))).push(
            member("id"@, JsonView::Str(c.id)),
        ).push(member("name"@, JsonView::Str(c.name))).push(
            member("input"@, JsonView::Raw(c.arguments)),
        ),
    )
}

/// The replay state of a message: the blocks of an earlier Messages
/// response.
pub open spec fn replay_state(m: MessageView) -> Option<Seq<JsonView>> {
    match m.provider_state {
        Some(JsonView::Array(bs)) => Some(bs),
        _ => None,
    }
}

/// The blocks of an assistant message: its replayed blocks as they are when
/// they still match it; otherwise the replayed blocks that are neither text
/// nor tool use (thinking), then its content, then one `tool_use` block per
/// tool call.
pub open spec fn assistant_blocks(m: MessageView) -> Result<Seq<JsonView>, Seq<char>> {
    match replay_state(m) {
        Some(bs) if replay_matches(m, bs) => Ok(bs),
        _ => match content_blocks(m.content) {
            Err(e) => Err(e),
            Ok(cb) => Ok(
                match replay_state(m) {
                    Some(bs) => kept_blocks(bs),
                    None => Seq::empty(),
                } + cb + m.tool_calls.map_values(|c: ToolCallView| tool_use_json(c)),
            ),
        },
    }
}

/// The text and tool calls that replayed blocks stand for; see
/// [`normalized_blocks`].
fn normalized_claude_assistant(blocks: &Vec<Json>) -> (r: Option<(String, Vec<(String, String, String)>)>)
    ensures
        match normalized_blocks(items_view(blocks@)) {
            None => r is None,
            Some((text, calls)) => r matches Some((t, cs)) && t@ == text && cs@.len() == calls.len()
                && forall|i: int|
                0 <= i < calls.len() ==> (#[trigger] cs@[i]).0@ == calls[i].0 && cs@[i].1@
                    == calls[i].1 && cs@[i].2@ == calls[i].2,
        },
{
    let ghost bv = items_view(blocks@);
    let mut text = String::new();
    let mut calls: Vec<(String, String, String)> = Vec::new();
    let mut i: usize = 0;
    while i < blocks.len()
        invariant
            i <= blocks@.len(),
            bv == items_view(blocks@),
            normalized_blocks(bv.take(i as int)) matches Some((t, cs)) && t == text@ && cs.len()
                == calls@.len() && forall|k: int|
                0 <= k < cs.len() ==> (#[trigger] calls@[k]).0@ == cs[k].0 && calls@[k].1@ == cs[k].1
                    && calls@[k].2@ == cs[k].2,
        decreases blocks.len() - i,
    {
        proof {
            assert(bv.take(i + 1).drop_last() == bv.take(i as int));
            assert(bv.take(i + 1).last() == json_view(blocks@[i as int]));
            reveal_strlit("type");
            reveal_strlit("text");
            reveal_strlit("tool_use");
        }
        let block = &blocks[i];
        if str_is(block, "type", "text") {
            match str_ref(block, "text") {
                Some(t) => push_str(&mut text, t),
                None => {},
            }
        } else if str_is(block, "type", "tool_use") {
            let id = match str_ref(block, "id") {
                Some(x) => x,
                None => {
                    proof {
                        lemma_normalized_none(bv, i as int + 1);
                    }
                    return None;
                },
            };
            let name = match str_ref(block, "name") {
                Some(x) => x,
                None => {
                    proof {
                        lemma_normalized_none(bv, i as int + 1);
                    }
                    return None;
                },
            };
            let input = match member_ref(block, "input") {
                Some(v) => crate::json::json_to_text(v),
                None => {
                    let mut e = String::new();
                    crate::text::push_char(&mut e, '{');
                    crate::text::push_char(&mut e, '}');
                    e
                },
            };
            calls.push((owned(id), owned(name), input));
        }
        i += 1;
    }
    proof {
        assert(bv.take(bv.len() as int) == bv);
    }
    Some((text, calls))
}

proof fn lemma_normalized_none(bs: Seq<JsonView>, k: int)
    requires
        0 < k <= bs.len(),
        normalized_blocks(bs.take(k)) is None,
    ensures
        normalized_blocks(bs) is None,
    decreases bs.len() - k,
{
    if k < bs.len() {
        assert(bs.take(k + 1).drop_last() == bs.take(k));
        lemma_normalized_none(bs, k + 1);
    } else {
        assert(bs.take(k) == bs);
    }
}

/// Whether the replayed blocks still say what the message says.
fn replay_still_matches(message: &Message, blocks: &Vec<Json>) -> (r: bool)
    ensures
        r == replay_matches(message@, items_view(blocks@)),
{
    let (text, calls) = match normalized_claude_assistant(blocks) {
        Some(n) => n,
        None => return false,
    };
    let content_matches = match &message.content {
        None => text.as_str().is_empty(),
        Some(Content::Text(t)) => !text.as_str().is_empty() && crate::text::string_eq(t, &text),
        Some(Content::Parts(_)) => false,
    };
    if !content_matches || calls.len() != message.tool_calls.len() {
        return false;
    }
    let ghost mv = message@;
    let mut i: usize = 0;
    while i < calls.len()
        invariant
            i <= calls@.len(),
            calls@.len() == message.tool_calls@.len(),
            mv == message@,
            normalized_blocks(items_view(blocks@)) matches Some((_, cs)) && cs.len() == calls@.len()
                && (forall|k: int|
                0 <= k < cs.len() ==> (#[trigger] calls@[k]).0@ == cs[k].0 && calls@[k].1@ == cs[k].1
                    && calls@[k].2@ == cs[k].2) && forall|k: int|
                0 <= k < i ==> (#[trigger] cs[k]).0 == mv.tool_calls[k].id && cs[k].1
                    == mv.tool_calls[k].name && json_texts_equal(cs[k].2, mv.tool_calls[k].arguments),
        decreases calls.len() - i,
    {
        let call = &message.tool_calls[i];
        proof {
            assert(mv.tool_calls[i as int] == call@);
        }
        if !crate::text::string_eq(&calls[i].0, &call.id) || !crate::text::string_eq(
            &calls[i].1,
            &call.name,
        ) || !crate::mcp::same_json(calls[i].2.as_str(), call.arguments.as_str()) {
            return false;
        }
        i += 1;
    }
    true
}

fn tool_use_block(call: &ToolCall) -> (r: Json)
    ensures
        json_view(r) == tool_use_json(call@),
{
    let mut fields: Vec<(String, Json)> = crate::json::no_members();
    str_member(&mut fields, "type", "tool_use");
    str_member(&mut fields, "id", call.id.as_str());
    str_member(&mut fields, "name", call.name.as_str());
    push_field(&mut fields, "input", Json::Raw(call.arguments.clone()));
    let r = Json::object(fields);
    proof {
        assert(fields_view(fields@) =~= match tool_use_json(call@) {
            JsonView::Object(o) => o,
            _ => Seq::empty(),
        });
    }
    r
}

/// The replayed blocks that are neither text nor `tool_use`.
fn keep_blocks(blocks: &Vec<Json>) -> (r: Vec<Json>)
    ensures
        items_view(r@) == kept_blocks(items_view(blocks@)),
{
    let ghost bv = items_view(blocks@);
    let mut out: Vec<Json> = crate::json::no_items();
    let mut i: usize = 0;
    while i < blocks.len()
        invariant
            i <= blocks@.len(),
            bv == items_view(blocks@),
            items_view(out@) == kept_blocks(bv.take(i as int)),
        decreases blocks.len() - i,
    {
        proof {
            assert(bv.take(i + 1).drop_last() == bv.take(i as int));
            assert(bv.take(i + 1).last() == json_view(blocks@[i as int]));
            reveal_strlit("type");
            reveal_strlit("text");
            reveal_strlit("tool_use");
        }
        let block = &blocks[i];
        if !(str_is(block, "type", "text") || str_is(block, "type", "tool_use")) {
            push_item(&mut out, block.duplicate());
        }
        proof {
            assert(items_view(out@) =~= kept_blocks(bv.take(i + 1)));
        }
        i += 1;
    }
    proof {
        assert(bv.take(bv.len() as int) == bv);
    }
    out
}

/// The blocks of an assistant message; see [`assistant_blocks`].
#[verifier::rlimit(40)]
#[verifier::spinoff_prover]
pub fn claude_assistant_content(message: &Message) -> (r: Result<Vec<Json>, ProviderError>)
    ensures
        match assistant_blocks(message@) {
            Ok(bs) => r matches Ok(v) && items_view(v@) == bs,
            Err(m) => r matches Err(ProviderError::InvalidRequest(e)) && e@ == m,
        },
{
    let ghost mv = message@;
    let replay: Option<&Vec<Json>> = match &message.provider_state {
        Some(Json::Array(blocks)) => Some(blocks),
        _ => None,
    };
    proof {
        if let Some(b) = replay {
            assert(match json_view(Json::Array(*b)) {
                JsonView::Array(a) => a =~= items_view(b@),
                _ => false,
            });
        }
        assert(match replay {
            Some(b) => replay_state(mv) == Some(items_view(b@)),
            None => replay_state(mv) is None,
        });
    }
    match replay {
        Some(blocks) => {
            if replay_still_matches(message, blocks) {
                let mut out: Vec<Json> = crate::json::no_items();
                let mut i: usize = 0;
                while i < blocks.len()
                    invariant
                        i <= blocks@.len(),
                        items_view(out@) == items_view(blocks@).take(i as int),
                    decreases blocks.len() - i,
                {
                    push_item(&mut out, blocks[i].duplicate());
                    proof {
                        assert(items_view(out@) =~= items_view(blocks@).take(i + 1));
                    }
                    i += 1;
                }
                proof {
                    assert(items_view(blocks@).take(blocks@.len() as int) == items_view(blocks@));
                }
                return Ok(out);
            }
        },
        None => {},
    }
    let mut out = match replay {
        Some(blocks) => keep_blocks(blocks),
        None => crate::json::no_items(),
    };
    let content = match claude_content(&message.content) {
        Ok(c) => c,
        Err(e) => return Err(e),
    };
    let ghost kept = items_view(out@);
    let mut i: usize = 0;
    while i < content.len()
        invariant
            i <= content@.len(),
            items_view(out@) == kept + items_view(content@).take(i as int),
        decreases content.len() - i,
    {
        push_item(&mut out, content[i].duplicate());
        proof {
            assert(items_view(out@) =~= kept + items_view(content@).take(i + 1));
        }
        i += 1;
    }
    proof {
        assert(items_view(content@).take(content@.len() as int) == items_view(content@));
    }
    let ghost with_content = items_view(out@);
    let ghost cv = mv.tool_calls;
    let mut k: usize = 0;
    while k < message.tool_calls.len()
        invariant
            k <= message.tool_calls@.len(),
            cv == message@.tool_calls,
            items_view(out@) == with_content + cv.take(k as int).map_values(
                |c: ToolCallView| tool_use_json(c),
            ),
        decreases message.tool_calls.len() - k,
    {
        push_item(&mut out, tool_use_block(&message.tool_calls[k]));
        proof {
            let f = |c: ToolCallView| tool_use_json(c);
            assert(cv[k as int] == message.tool_calls@[k as int]@);
            assert(cv.take(k + 1).map_values(f) =~= cv.take(k as int).map_values(f).push(
                f(cv[k as int]),
            ));
            assert(items_view(out@) =~= with_content + cv.take(k + 1).map_values(f));
        }
        k += 1;
    }
    proof {
        assert(cv.take(cv.len() as int) == cv);
    }
    Ok(out)
}

/// One message of a Messages request: its role and its blocks.
pub type ClaudeTurn = (Seq<char>, Seq<JsonView>);

/// Whether a block is a tool result.
pub open spec fn is_tool_result(b: JsonView) -> bool {
    str_of(b, "type"@) == Some("tool_result"@)
}

/// The position of the first block that is not a tool result, or the
/// number of blocks when all are.
pub open spec fn first_non_tool_result(cs: Seq<JsonView>) -> int
    decreases cs.len(),
{
    if cs.len() == 0 || !is_tool_result(cs[0]) {
        0
    } else {
        1 + first_non_tool_result(cs.drop_first())
    }
}

/// The `tool_result` block of a tool message with the given content.
pub open spec fn tool_result_json(m: MessageView, content: JsonView) -> JsonView {
    JsonView::Object(
        Seq::empty().push(member("type"@, JsonView::Str("tool_result"@))).push(
            member(
                "tool_use_id"@,
                match m.tool_call_id {
                    Some(id) => JsonView::Str(id),
                    None => JsonView::Null,
                },
            ),
        ).push(member("content"@, content)).push(member("is_error"@, JsonView::Bool(m.is_error))),
    )
}

/// The system texts and turns after one more message, or why it cannot be
/// sent. A tool result joins the user turn just before it, ahead of that
/// turn's other content and followed by its documents; without such a turn
/// it opens a user turn of its own.
pub open spec fn claude_step(
    sys: Seq<Seq<char>>,
    turns: Seq<ClaudeTurn>,
    m: MessageView,
) -> Result<(Seq<Seq<char>>, Seq<ClaudeTurn>), Seq<char>> {
    match m.role {
        Role::System => match text_only_spec(m.content, "system"@) {
            Ok(t) => Ok((sys.push(t), turns)),
            Err(e) => Err(e),
        },
        Role::User => match content_blocks(m.content) {
            Ok(cb) => Ok((sys, turns.push(("user"@, cb)))),
            Err(e) => Err(e),
        },
        Role::Assistant => match assistant_blocks(m) {
            Ok(bs) => Ok((sys, turns.push(("assistant"@, bs)))),
            Err(e) => Err(e),
        },
        Role::Tool => match tool_result_content(m.content) {
            Err(e) => Err(e),
            Ok((content, attachments)) => {
                let block = tool_result_json(m, content);
                if turns.len() > 0 && turns.last().0 == "user"@ {
                    let c = turns.last().1;
                    Ok(
                        (
                            sys,
                            turns.update(
                                turns.len() - 1,
                                ("user"@, c.insert(first_non_tool_result(c), block) + attachments),
                            ),
                        ),
                    )
                } else {
                    Ok((sys, turns.push(("user"@, seq![block] + attachments))))
                }
            },
        },
    }
}

/// The system texts and turns of a conversation, or the first reason a
/// message cannot be sent.
pub open spec fn claude_fold(ms: Seq<MessageView>) -> Result<(Seq<Seq<char>>, Seq<ClaudeTurn>), Seq<char>>
    decreases ms.len(),
{
    if ms.len() == 0 {
        Ok((Seq::empty(), Seq::empty()))
    } else {
        match claude_fold(ms.drop_last()) {
            Err(e) => Err(e),
            Ok((sys, turns)) => claude_step(sys, turns, ms.last()),
        }
    }
}

proof fn lemma_claude_fold_err(ms: Seq<MessageView>, k: int)
    requires
        0 < k <= ms.len(),
        claude_fold(ms.take(k)) is Err,
    ensures
        claude_fold(ms) == claude_fold(ms.take(k)),
    decreases ms.len() - k,
{
    if k < ms.len() {
        assert(ms.take(k + 1).drop_last() == ms.take(k));
        lemma_claude_fold_err(ms, k + 1);
    } else {
        assert(ms.take(k) == ms);
    }
}

/// The view of turns being built.
pub open spec fn turns_view(ts: Seq<(String, Vec<Json>)>) -> Seq<ClaudeTurn> {
    Seq::new(ts.len(), |i: int| (ts[i].0@, items_view(ts[i].1@)))
}

proof fn lemma_first_non_tool_result(cs: Seq<JsonView>, p: int)
    requires
        0 <= p <= cs.len(),
        forall|q: int| 0 <= q < p ==> is_tool_result(#[trigger] cs[q]),
        p < cs.len() ==> !is_tool_result(cs[p]),
    ensures
        first_non_tool_result(cs) == p,
    decreases p,
{
    if p > 0 {
        assert(is_tool_result(cs[0]));
        assert forall|q: int| 0 <= q < p - 1 implies is_tool_result(#[trigger] cs.drop_first()[q]) by {
            assert(cs.drop_first()[q] == cs[q + 1]);
        }
        if p - 1 < cs.drop_first().len() {
            assert(cs.drop_first()[p - 1] == cs[p]);
        }
        lemma_first_non_tool_result(cs.drop_first(), p - 1);
    }
}

fn tool_result_block(message: &Message, content: Json) -> (r: Json)
    ensures
        json_view(r) == tool_result_json(message@, json_view(content)),
{
    let ghost cv = json_view(content);
    let mut fields: Vec<(String, Json)> = crate::json::no_members();
    str_member(&mut fields, "type", "tool_result");
    let id = match &message.tool_call_id {
        Some(id) => Json::Str(id.clone()),
        None => Json::Null,
    };
    push_field(&mut fields, "tool_use_id", id);
    push_field(&mut fields, "content", content);
    push_field(&mut fields, "is_error", Json::Bool(message.is_error));
    let r = Json::object(fields);
    proof {
        assert(fields_view(fields@) =~= match tool_result_json(message@, cv) {
            JsonView::Object(o) => o,
            _ => Seq::empty(),
        });
    }
    r
}

/// Adds a tool result to the turns; see [`claude_step`].
fn push_tool_result(
    turns: &mut Vec<(String, Vec<Json>)>,
    block: Json,
    attachments: Vec<Json>,
)
    ensures
        turns_view(final(turns)@) == {
            let tv = turns_view(old(turns)@);
            let b = json_view(block);
            let a = items_view(attachments@);
            if tv.len() > 0 && tv.last().0 == "user"@ {
                let c = tv.last().1;
                tv.update(tv.len() - 1, ("user"@, c.insert(first_non_tool_result(c), b) + a))
            } else {
                tv.push(("user"@, seq![b] + a))
            }
        },
{
    proof {
        reveal_strlit("user");
        reveal_strlit("type");
        reveal_strlit("tool_result");
    }
    let ghost tv = turns_view(turns@);
    let ghost b = json_view(block);
    let ghost a = items_view(attachments@);
    let last_is_user = turns.len() > 0 && {
        let user = owned("user");
        crate::text::string_eq(&turns[turns.len() - 1].0, &user)
    };
    if last_is_user {
        let (role, mut content) = turns.pop().unwrap();
        let ghost cv = items_view(content@);
        proof {
            assert(tv.last() == (role@, cv));
        }
        let mut p: usize = 0;
        while p < content.len() && str_is(&content[p], "type", "tool_result")
            invariant
                p <= content@.len(),
                cv == items_view(content@),
                forall|q: int| 0 <= q < p ==> is_tool_result(#[trigger] cv[q]),
            decreases content.len() - p,
        {
            p += 1;
        }
        proof {
            lemma_first_non_tool_result(cv, p as int);
        }
        content.insert(p, block);
        proof {
            assert(items_view(content@) =~= cv.insert(p as int, b));
        }
        let ghost with_block = items_view(content@);
        let mut i: usize = 0;
        while i < attachments.len()
            invariant
                i <= attachments@.len(),
                a == items_view(attachments@),
                items_view(content@) == with_block + a.take(i as int),
            decreases attachments.len() - i,
        {
            push_item(&mut content, attachments[i].duplicate());
            proof {
                assert(items_view(content@) =~= with_block + a.take(i + 1));
            }
            i += 1;
        }
        proof {
            assert(a.take(a.len() as int) == a);
        }
        turns.push((role, content));
        proof {
            assert(turns_view(turns@) =~= tv.update(
                tv.len() - 1,
                ("user"@, cv.insert(p as int, b) + a),
            ));
        }
    } else {
        let mut content: Vec<Json> = crate::json::no_items();
        push_item(&mut content, block);
        let ghost first = items_view(content@);
        let mut i: usize = 0;
        while i < attachments.len()
            invariant
                i <= attachments@.len(),
                a == items_view(attachments@),
                items_view(content@) == first + a.take(i as int),
            decreases attachments.len() - i,
        {
            push_item(&mut content, attachments[i].duplicate());
            proof {
                assert(items_view(content@) =~= first + a.take(i + 1));
            }
            i += 1;
        }
        proof {
            assert(a.take(a.len() as int) == a);
            assert(first =~= seq![b]);
        }
        turns.push((owned("user"), content));
        proof {
            assert(turns_view(turns@) =~= tv.push(("user"@, seq![b] + a)));
        }
    }
}

/// The system texts and turns of a conversation; see [`claude_fold`].
pub fn claude_turns(messages: &Vec<Message>) -> (r: Result<(Vec<String>, Vec<(String, Vec<Json>)>), ProviderError>)
    ensures
        match claude_fold(crate::types::messages_view(messages@)) {
            Ok((sys, turns)) => r matches Ok((s, t)) && s@.map_values(|x: String| x@) == sys
                && turns_view(t@) == turns,
            Err(m) => r matches Err(ProviderError::InvalidRequest(e)) && e@ == m,
        },
{
    let ghost mv = crate::types::messages_view(messages@);
    let mut sys: Vec<String> = Vec::new();
    let mut turns: Vec<(String, Vec<Json>)> = Vec::new();
    let mut i: usize = 0;
    proof {
        assert(sys@.map_values(|x: String| x@) =~= Seq::<Seq<char>>::empty());
        assert(turns_view(turns@) =~= Seq::<ClaudeTurn>::empty());
    }
    while i < messages.len()
        invariant
            i <= messages@.len(),
            mv == crate::types::messages_view(messages@),
            claude_fold(mv.take(i as int)) == Ok::<(Seq<Seq<char>>, Seq<ClaudeTurn>), Seq<char>>(
                (sys@.map_values(|x: String| x@), turns_view(turns@)),
            ),
        decreases messages.len() - i,
    {
        proof {
            assert(mv.take(i + 1).drop_last() == mv.take(i as int));
            assert(mv.take(i + 1).last() == messages@[i as int]@);
            reveal_strlit("system");
            reveal_strlit("user");
            reveal_strlit("assistant");
        }
        let message = &messages[i];
        let ghost sv = sys@.map_values(|x: String| x@);
        let ghost tv = turns_view(turns@);
        match message.role {
            Role::System => match text_only(message, "system") {
                Ok(t) => {
                    sys.push(t);
                    proof {
                        assert(sys@.map_values(|x: String| x@) =~= sv.push(sys@.last()@));
                    }
                },
                Err(e) => {
                    proof {
                        lemma_claude_fold_err(mv, i + 1);
                    }
                    return Err(e);
                },
            },
            Role::User => match claude_content(&message.content) {
                Ok(c) => {
                    turns.push((owned("user"), c));
                    proof {
                        assert(turns_view(turns@) =~= tv.push(("user"@, items_view(turns@.last().1@))));
                    }
                },
                Err(e) => {
                    proof {
                        lemma_claude_fold_err(mv, i + 1);
                    }
                    return Err(e);
                },
            },
            Role::Assistant => match claude_assistant_content(message) {
                Ok(c) => {
                    turns.push((owned("assistant"), c));
                    proof {
                        assert(turns_view(turns@) =~= tv.push(
                            ("assistant"@, items_view(turns@.last().1@)),
                        ));
                    }
                },
                Err(e) => {
                    proof {
                        lemma_claude_fold_err(mv, i + 1);
                    }
                    return Err(e);
                },
            },
            Role::Tool => match claude_tool_result(&message.content) {
                Ok((content, attachments)) => {
                    let block = tool_result_block(message, content);
                    push_tool_result(&mut turns, block, attachments);
                },
                Err(e) => {
                    proof {
                        lemma_claude_fold_err(mv, i + 1);
                    }
                    return Err(e);
                },
            },
        }
        i += 1;
    }
    proof {
        assert(mv.take(mv.len() as int) == mv);
    }
    Ok((sys, turns))
}

/// The wire form of a tool definition.
pub open spec fn claude_tool_json(d: ToolDefinitionView) -> JsonView {
    obj3(
        "name"@,
        JsonView::Str(d.name),
        "description"@,
        JsonView::Str(d.description),
        "input_schema"@,
        JsonView::Raw(d.parameters),
    )
}

/// The wire form of a turn.
pub open spec fn turn_json(t: ClaudeTurn) -> JsonView {
    obj2("role"@, JsonView::Str(t.0), "content"@, JsonView::Array(t.1))
}

/// The effort a Messages request asks for: `minimal` is sent as `low`.
pub open spec fn claude_effort(e: ReasoningEffort) -> ReasoningEffort {
    match e {
        ReasoningEffort::Minimal => ReasoningEffort::Low,
        _ => e,
    }
}

/// The members that ask for thinking: none without an effort, thinking
/// disabled for the disabled effort, adaptive thinking with an output
/// effort otherwise.
pub open spec fn thinking_members(effort: Option<ReasoningEffort>) -> Seq<(Seq<char>, JsonView)> {
    match effort {
        None => Seq::empty(),
        Some(ReasoningEffort::Disabled) => Seq::empty().push(
            member("thinking"@, obj1("type"@, JsonView::Str("disabled"@))),
        ),
        Some(e) => Seq::empty().push(member("thinking"@, obj1("type"@, JsonView::Str("adaptive"@)))).push(
            member("output_config"@, obj1("effort"@, JsonView::Str(effort_text(claude_effort(e))))),
        ),
    }
}

/// The output limit of a request that sets none.
pub const DEFAULT_MAX_TOKENS: u32 = 4096;

/// The members of a Messages request before the extra members.
pub open spec fn claude_body_members(
    sys: Seq<Seq<char>>,
    turns: Seq<ClaudeTurn>,
    tools: Seq<ToolDefinitionView>,
    max_tokens: Option<u32>,
    effort: Option<ReasoningEffort>,
    model: Seq<char>,
) -> Seq<(Seq<char>, JsonView)> {
    Seq::empty().push(member("model"@, JsonView::Str(model))).push(
        member(
            "max_tokens"@,
            JsonView::UInt(
                match max_tokens {
                    Some(n) => n as u64,
                    None => DEFAULT_MAX_TOKENS as u64,
                },
            ),
        ),
    ).push(member("messages"@, JsonView::Array(turns.map_values(|t: ClaudeTurn| turn_json(t))))).push(
        member("stream"@, JsonView::Bool(true)),
    ) + (if sys.len() > 0 {
        Seq::empty().push(member("system"@, JsonView::Str(join_with(sys, seq!['\n']))))
    } else {
        Seq::empty()
    }) + (if tools.len() > 0 {
        Seq::empty().push(
            member(
                "tools"@,
                JsonView::Array(tools.map_values(|d: ToolDefinitionView| claude_tool_json(d))),
            ),
        )
    } else {
        Seq::empty()
    }) + thinking_members(effort)
}

fn claude_tool_to_json(d: &ToolDefinition) -> (r: Json)
    ensures
        json_view(r) == claude_tool_json(d@),
{
    let mut fields: Vec<(String, Json)> = crate::json::no_members();
    str_member(&mut fields, "name", d.name.as_str());
    str_member(&mut fields, "description", d.description.as_str());
    push_field(&mut fields, "input_schema", Json::Raw(d.parameters.clone()));
    let r = Json::object(fields);
    proof {
        assert(fields_view(fields@) =~= match claude_tool_json(d@) {
            JsonView::Object(o) => o,
            _ => Seq::empty(),
        });
    }
    r
}

fn turns_to_json(turns: &Vec<(String, Vec<Json>)>) -> (r: Vec<Json>)
    ensures
        items_view(r@) == turns_view(turns@).map_values(|t: ClaudeTurn| turn_json(t)),
{
    let ghost tv = turns_view(turns@);
    let mut out: Vec<Json> = crate::json::no_items();
    let mut i: usize = 0;
    while i < turns.len()
        invariant
            i <= turns@.len(),
            tv == turns_view(turns@),
            items_view(out@) == tv.take(i as int).map_values(|t: ClaudeTurn| turn_json(t)),
        decreases turns.len() - i,
    {
        let mut items: Vec<Json> = crate::json::no_items();
        let mut k: usize = 0;
        while k < turns[i].1.len()
            invariant
                i < turns@.len(),
                k <= turns@[i as int].1@.len(),
                items_view(items@) == items_view(turns@[i as int].1@).take(k as int),
            decreases turns@[i as int].1@.len() - k,
        {
            push_item(&mut items, turns[i].1[k].duplicate());
            proof {
                assert(items_view(items@) =~= items_view(turns@[i as int].1@).take(k + 1));
            }
            k += 1;
        }
        proof {
            assert(items_view(turns@[i as int].1@).take(turns@[i as int].1@.len() as int)
                == items_view(turns@[i as int].1@));
        }
        let mut fields: Vec<(String, Json)> = crate::json::no_members();
        str_member(&mut fields, "role", turns[i].0.as_str());
        push_field(&mut fields, "content", Json::array(items));
        push_item(&mut out, Json::object(fields));
        proof {
            let f = |t: ClaudeTurn| turn_json(t);
            assert(tv[i as int] == (turns@[i as int].0@, items_view(turns@[i as int].1@)));
            assert(fields_view(fields@) =~= match turn_json(tv[i as int]) {
                JsonView::Object(o) => o,
                _ => Seq::empty(),
            });
            assert(tv.take(i + 1).map_values(f) =~= tv.take(i as int).map_values(f).push(
                f(tv[i as int]),
            ));
        }
        i += 1;
    }
    proof {
        assert(tv.take(tv.len() as int) == tv);
    }
    out
}

fn join_system(sys: &Vec<String>) -> (r: String)
    ensures
        r@ == join_with(sys@.map_values(|x: String| x@), seq!['\n']),
{
    let ghost sv = sys@.map_values(|x: String| x@);
    let mut r = String::new();
    let mut i: usize = 0;
    while i < sys.len()
        invariant
            i <= sys@.len(),
            sv == sys@.map_values(|x: String| x@),
            r@ == join_with(sv.take(i as int), seq!['\n']),
        decreases sys.len() - i,
    {
        proof {
            assert(sv.take(i + 1).drop_last() == sv.take(i as int));
            assert(sv.take(i + 1).last() == sys@[i as int]@);
            if i == 0 {
                assert(sv.take(1)[0] == sys@[0]@);
            }
        }
        if i > 0 {
            crate::text::push_char(&mut r, '\n');
        }
        push_str(&mut r, sys[i].as_str());
        proof {
            assert(r@ =~= join_with(sv.take(i + 1), seq!['\n']));
        }
        i += 1;
    }
    proof {
        assert(sv.take(sv.len() as int) == sv);
    }
    r
}

/// Anthropic's public endpoint.
pub const ANTHROPIC_BASE_URL: &'static str = "https://api.anthropic.com";

/// The Messages API version sent with each request.
pub const ANTHROPIC_VERSION: &'static str = "2023-06-01";

/// The Anthropic Messages adapter's configuration: credentials, endpoint,
/// model, API version, extra body members and retry policy.
pub struct AnthropicMessagesProvider {
    api_key: String,
    base_url: String,
    model: String,
    anthropic_version: String,
    extra_body: Vec<(String, Json)>,
    retry_config: crate::retry::RetryConfig,
}

impl AnthropicMessagesProvider {
    #[verifier::type_invariant]
    spec fn inv(self) -> bool {
        &&& !all_ws(self.api_key@)
        &&& !all_ws(self.model@)
    }

    pub closed spec fn spec_api_key(&self) -> Seq<char> {
        self.api_key@
    }

    pub closed spec fn spec_base_url(&self) -> Seq<char> {
        self.base_url@
    }

    pub closed spec fn spec_model(&self) -> Seq<char> {
        self.model@
    }

    pub closed spec fn spec_anthropic_version(&self) -> Seq<char> {
        self.anthropic_version@
    }

    pub closed spec fn spec_extra_body(&self) -> Seq<(Seq<char>, JsonView)> {
        fields_view(self.extra_body@)
    }

    pub closed spec fn spec_retry_config(&self) -> crate::retry::RetryConfig {
        self.retry_config
    }

    /// A configuration for `model` at `base_url` (without trailing
    /// slashes), with API version `2023-06-01`, no extra members and the
    /// default retry policy. The key must not be blank, nor the URL or the
    /// model.
    pub fn with_base_url(api_key: String, base_url: &str, model: String) -> (r: Result<
        Self,
        ProviderError,
    >)
        ensures
            all_ws(api_key@) ==> r == Err::<Self, ProviderError>(ProviderError::MissingApiKey),
            !all_ws(api_key@) && (all_ws(base_url@) || all_ws(model@)) ==> (r matches Err(
                ProviderError::InvalidConfiguration(m),
            ) && m@ == EMPTY_ENDPOINT_OR_MODEL@),
            r is Ok <==> !all_ws(api_key@) && !all_ws(base_url@) && !all_ws(model@),
            r matches Ok(p) ==> p.spec_api_key() == api_key@ && p.spec_base_url()
                == strip_trailing_slashes(base_url@) && p.spec_model() == model@
                && p.spec_anthropic_version() == ANTHROPIC_VERSION@ && p.spec_extra_body().len() == 0
                && p.spec_retry_config().spec_max_retries() == crate::retry::DEFAULT_MAX_RETRIES,
    {
        if is_blank(api_key.as_str()) {
            return Err(ProviderError::MissingApiKey);
        }
        if is_blank(base_url) || is_blank(model.as_str()) {
            return Err(ProviderError::InvalidConfiguration(owned(EMPTY_ENDPOINT_OR_MODEL)));
        }
        let trimmed = trim_trailing_slashes(base_url);
        Ok(
            AnthropicMessagesProvider {
                api_key,
                base_url: trimmed,
                model,
                anthropic_version: owned(ANTHROPIC_VERSION),
                extra_body: crate::json::no_members(),
                retry_config: crate::retry::RetryConfig::default(),
            },
        )
    }

    /// A configuration for `model` at Anthropic's public endpoint; see
    /// [`Self::with_base_url`].
    pub fn new(api_key: String, model: String) -> (r: Result<Self, ProviderError>)
        ensures
            all_ws(api_key@) ==> r == Err::<Self, ProviderError>(ProviderError::MissingApiKey),
            !all_ws(api_key@) && all_ws(model@) ==> (r matches Err(
                ProviderError::InvalidConfiguration(m),
            ) && m@ == EMPTY_ENDPOINT_OR_MODEL@),
            r is Ok <==> !all_ws(api_key@) && !all_ws(model@),
            r matches Ok(p) ==> p.spec_api_key() == api_key@ && p.spec_base_url()
                == ANTHROPIC_BASE_URL@ && p.spec_model() == model@ && p.spec_anthropic_version()
                == ANTHROPIC_VERSION@ && p.spec_extra_body().len() == 0 && p.spec_retry_config().spec_max_retries()
                == crate::retry::DEFAULT_MAX_RETRIES,
    {
        proof {
            reveal_strlit("https://api.anthropic.com");
            let u = ANTHROPIC_BASE_URL@;
            assert(!crate::text::is_ws(u[0]));
            assert(u.len() > 0 && u.last() != '/');
            assert(strip_trailing_slashes(u) == u);
        }
        Self::with_base_url(api_key, ANTHROPIC_BASE_URL, model)
    }

    pub fn api_key(&self) -> (r: &str)
        ensures
            r@ == self.spec_api_key(),
    {
        self.api_key.as_str()
    }

    pub fn base_url(&self) -> (r: &str)
        ensures
            r@ == self.spec_base_url(),
    {
        self.base_url.as_str()
    }

    pub fn model(&self) -> (r: &str)
        ensures
            r@ == self.spec_model(),
    {
        self.model.as_str()
    }

    /// A description for logs, with the API key redacted.
    pub fn debug_text(&self) -> (r: String)
        ensures
            r@ == "AnthropicMessagesProvider { api_key: \"[REDACTED]\", base_url: "@ + debug_str(
                self.spec_base_url(),
            ) + ", model: "@ + debug_str(self.spec_model()) + ", anthropic_version: "@ + debug_str(
                self.spec_anthropic_version(),
            ) + ", .. }"@,
    {
        let mut r = owned("AnthropicMessagesProvider { api_key: \"[REDACTED]\", base_url: ");
        push_str(&mut r, debug_string(self.base_url.as_str()).as_str());
        push_str(&mut r, ", model: ");
        push_str(&mut r, debug_string(self.model.as_str()).as_str());
        push_str(&mut r, ", anthropic_version: ");
        push_str(&mut r, debug_string(self.anthropic_version.as_str()).as_str());
        push_str(&mut r, ", .. }");
        r
    }

    /// The `anthropic-version` header value.
    pub fn anthropic_version(&self) -> (r: &str)
        ensures
            r@ == self.spec_anthropic_version(),
    {
        self.anthropic_version.as_str()
    }

    pub fn retry_settings(&self) -> (r: crate::retry::RetryConfig)
        ensures
            r == self.spec_retry_config(),
    {
        self.retry_config
    }

    /// The Messages endpoint.
    pub fn endpoint(&self) -> (r: String)
        ensures
            r@ == self.spec_base_url() + "/v1/messages"@,
    {
        let mut r = self.base_url.clone();
        push_str(&mut r, "/v1/messages");
        r
    }

    /// Sets the members appended to every request body; they must form a
    /// JSON object.
    pub fn extra_body(self, extra_body: Json) -> (r: Result<Self, ProviderError>)
        ensures
            match json_view(extra_body) {
                JsonView::Object(o) => r matches Ok(p) && p.spec_extra_body() == o && p.spec_api_key()
                    == self.spec_api_key() && p.spec_base_url() == self.spec_base_url() && p.spec_model()
                    == self.spec_model() && p.spec_anthropic_version() == self.spec_anthropic_version()
                    && p.spec_retry_config() == self.spec_retry_config(),
                _ => r matches Err(ProviderError::InvalidConfiguration(m)) && m@
                    == EXTRA_BODY_NOT_OBJECT@,
            },
    {
        proof {
            use_type_invariant(&self);
        }
        match parse_extra_body(extra_body) {
            Ok(fields) => Ok(AnthropicMessagesProvider { extra_body: fields, ..self }),
            Err(e) => Err(e),
        }
    }

    pub fn retry_config(self, retry_config: crate::retry::RetryConfig) -> (r: Self)
        ensures
            r.spec_retry_config() == retry_config,
            r.spec_api_key() == self.spec_api_key(),
            r.spec_base_url() == self.spec_base_url(),
            r.spec_model() == self.spec_model(),
            r.spec_anthropic_version() == self.spec_anthropic_version(),
            r.spec_extra_body() == self.spec_extra_body(),
    {
        proof {
            use_type_invariant(&self);
        }
        AnthropicMessagesProvider { retry_config, ..self }
    }

    pub fn max_retries(self, max_retries: usize) -> (r: Self)
        ensures
            r.spec_retry_config()@ == (crate::retry::RetryConfigView {
                max_retries,
                ..self.spec_retry_config()@
            }),
            r.spec_api_key() == self.spec_api_key(),
            r.spec_base_url() == self.spec_base_url(),
            r.spec_model() == self.spec_model(),
            r.spec_anthropic_version() == self.spec_anthropic_version(),
            r.spec_extra_body() == self.spec_extra_body(),
    {
        proof {
            use_type_invariant(&self);
        }
        let retry_config = self.retry_config.with_max_retries(max_retries);
        AnthropicMessagesProvider { retry_config, ..self }
    }

    /// The body of a streamed Messages request: the model (the request's
    /// override or the configured one), the output limit (4096 unless the
    /// request sets one), the turns, streaming, the system texts joined by
    /// newlines, the advertised tools and the thinking members; then the
    /// extra members, each replacing a member of the same name. A message
    /// that cannot be sent fails the request.
    #[verifier::rlimit(40)]
    #[verifier::spinoff_prover]
    pub fn request_body(&self, request: &ProviderRequest) -> (r: Result<Json, ProviderError>)
        ensures
            match claude_fold(crate::types::messages_view(request.messages@)) {
                Err(e) => r matches Err(ProviderError::InvalidRequest(m)) && m@ == e,
                Ok((sys, turns)) => r matches Ok(b) && json_view(b) == JsonView::Object(
                    merge_members(
                        claude_body_members(
                            sys,
                            turns,
                            crate::types::definitions_view(request.tools@),
                            request.config.max_tokens,
                            request.config.reasoning_effort,
                            match request.config.model {
                                Some(m) => m@,
                                None => self.spec_model(),
                            },
                        ),
                        self.spec_extra_body(),
                    ),
                ),
            },
    {
        let (sys, turns) = match claude_turns(&request.messages) {
            Ok(x) => x,
            Err(e) => return Err(e),
        };
        let ghost sv = sys@.map_values(|x: String| x@);
        let ghost tv = crate::types::definitions_view(request.tools@);
        let mut fields: Vec<(String, Json)> = crate::json::no_members();
        let model = match &request.config.model {
            Some(m) => m.as_str(),
            None => self.model.as_str(),
        };
        str_member(&mut fields, "model", model);
        let max_tokens: u32 = match request.config.max_tokens {
            Some(n) => n,
            None => DEFAULT_MAX_TOKENS,
        };
        push_field(&mut fields, "max_tokens", Json::UInt(max_tokens as u64));
        push_field(&mut fields, "messages", Json::array(turns_to_json(&turns)));
        push_field(&mut fields, "stream", Json::Bool(true));
        if sys.len() > 0 {
            push_field(&mut fields, "system", Json::Str(join_system(&sys)));
        }
        if request.tools.len() > 0 {
            let mut items: Vec<Json> = crate::json::no_items();
            let mut i: usize = 0;
            while i < request.tools.len()
                invariant
                    i <= request.tools@.len(),
                    tv == crate::types::definitions_view(request.tools@),
                    items_view(items@) == tv.take(i as int).map_values(
                        |d: ToolDefinitionView| claude_tool_json(d),
                    ),
                decreases request.tools.len() - i,
            {
                push_item(&mut items, claude_tool_to_json(&request.tools[i]));
                proof {
                    let f = |d: ToolDefinitionView| claude_tool_json(d);
                    assert(tv.take(i + 1).map_values(f) =~= tv.take(i as int).map_values(f).push(
                        f(tv[i as int]),
                    ));
                }
                i += 1;
            }
            proof {
                assert(tv.take(tv.len() as int) == tv);
            }
            push_field(&mut fields, "tools", Json::array(items));
        }
        match request.config.reasoning_effort {
            None => {},
            Some(ReasoningEffort::Disabled) => {
                let mut t: Vec<(String, Json)> = crate::json::no_members();
                str_member(&mut t, "type", "disabled");
                push_field(&mut fields, "thinking", Json::object(t));
            },
            Some(e) => {
                let mut t: Vec<(String, Json)> = crate::json::no_members();
                str_member(&mut t, "type", "adaptive");
                push_field(&mut fields, "thinking", Json::object(t));
                let effort = match e {
                    ReasoningEffort::Minimal => ReasoningEffort::Low,
                    other => other,
                };
                let mut o: Vec<(String, Json)> = crate::json::no_members();
                str_member(&mut o, "effort", effort_name(effort));
                push_field(&mut fields, "output_config", Json::object(o));
            },
        }
        proof {
            let expected = claude_body_members(
                sv,
                turns_view(turns@),
                tv,
                request.config.max_tokens,
                request.config.reasoning_effort,
                model@,
            );
            assert(fields_view(fields@) =~= expected);
        }
        crate::provider::merge_extra_body(&mut fields, &self.extra_body);
        Ok(Json::object(fields))
    }
}

/// Whether the tool results of blocks come before all their other blocks.
pub open spec fn tool_results_lead(c: Seq<JsonView>) -> bool {
    forall|i: int, j: int| 0 <= i < j < c.len() && is_tool_result(#[trigger] c[j]) ==> is_tool_result(#[trigger] c[i])
}

proof fn lemma_type_of(k1: Seq<char>, v1: JsonView, rest: Seq<(Seq<char>, JsonView)>)
    requires
        k1 == "type"@,
    ensures
        member_of(JsonView::Object(seq![(k1, v1)] + rest), "type"@) == Some(v1),
{
    let o = seq![(k1, v1)] + rest;
    assert(o[0] == (k1, v1));
}

proof fn lemma_leading_type(o: Seq<(Seq<char>, JsonView)>, t: Seq<char>)
    requires
        o.len() > 0,
        o[0] == ("type"@, JsonView::Str(t)),
        t != "tool_result"@,
    ensures
        !is_tool_result(JsonView::Object(o)),
{
    assert(key_pos(o, "type"@) == 0);
    assert(member_of(JsonView::Object(o), "type"@) == Some(JsonView::Str(t)));
}

proof fn lemma_part_not_tool_result(p: ContentPartView)
    requires
        claude_part_json(p) is Ok,
    ensures
        !is_tool_result(claude_part_json(p)->Ok_0),
{
    reveal_strlit("tool_result");
    reveal_strlit("text");
    reveal_strlit("image");
    reveal_strlit("document");
    assert("text"@.len() != "tool_result"@.len());
    assert("image"@.len() != "tool_result"@.len());
    assert("document"@.len() != "tool_result"@.len());
    let b = claude_part_json(p)->Ok_0;
    let t = if p.kind == 0 {
        "text"@
    } else if p.kind == 1 {
        "image"@
    } else {
        "document"@
    };
    assert(b matches JsonView::Object(o) && o.len() > 0 && o[0] == ("type"@, JsonView::Str(t)));
    match b {
        JsonView::Object(o) => lemma_leading_type(o, t),
        _ => {},
    }
}

proof fn lemma_parts_not_tool_result(ps: Seq<ContentPartView>)
    requires
        parts_blocks(ps) is Ok,
    ensures
        forall|i: int| 0 <= i < parts_blocks(ps)->Ok_0.len() ==> !is_tool_result(#[trigger] parts_blocks(ps)->Ok_0[i]),
    decreases ps.len(),
{
    if ps.len() > 0 {
        lemma_parts_not_tool_result(ps.drop_last());
        lemma_part_not_tool_result(ps.last());
    }
}

proof fn lemma_content_not_tool_result(c: Option<ContentView>)
    requires
        content_blocks(c) is Ok,
    ensures
        forall|i: int| 0 <= i < content_blocks(c)->Ok_0.len() ==> !is_tool_result(#[trigger] content_blocks(c)->Ok_0[i]),
{
    reveal_strlit("tool_result");
    reveal_strlit("text");
    assert("text"@.len() != "tool_result"@.len());
    match c {
        Some(ContentView::Text(t)) => {
            let b = obj2("type"@, JsonView::Str("text"@), "text"@, JsonView::Str(t));
            match b {
                JsonView::Object(o) => lemma_leading_type(o, "text"@),
                _ => {},
            }
            assert(content_blocks(c)->Ok_0 == seq![b]);
        },
        Some(ContentView::Parts(ps)) => lemma_parts_not_tool_result(ps),
        None => {},
    }
}

proof fn lemma_attachments_not_tool_result(ps: Seq<ContentPartView>)
    requires
        tool_result_split(ps) is Ok,
    ensures
        forall|i: int| 0 <= i < tool_result_split(ps)->Ok_0.1.len() ==> !is_tool_result(#[trigger] tool_result_split(ps)->Ok_0.1[i]),
    decreases ps.len(),
{
    if ps.len() > 0 {
        lemma_attachments_not_tool_result(ps.drop_last());
        lemma_part_not_tool_result(ps.last());
    }
}

proof fn lemma_first_non_tool_result_bounds(cs: Seq<JsonView>)
    ensures
        0 <= first_non_tool_result(cs) <= cs.len(),
        forall|q: int| 0 <= q < first_non_tool_result(cs) ==> is_tool_result(#[trigger] cs[q]),
    decreases cs.len(),
{
    if cs.len() > 0 && is_tool_result(cs[0]) {
        lemma_first_non_tool_result_bounds(cs.drop_first());
        assert forall|q: int| 0 <= q < first_non_tool_result(cs) implies is_tool_result(#[trigger] cs[q]) by {
            if q > 0 {
                assert(cs[q] == cs.drop_first()[q - 1]);
            }
        }
    }
}

proof fn lemma_tool_result_block(m: MessageView, content: JsonView)
    ensures
        is_tool_result(tool_result_json(m, content)),
{
    match tool_result_json(m, content) {
        JsonView::Object(o) => {
            assert(o[0].0 == "type"@);
            assert(key_pos(o, "type"@) == 0);
        },
        _ => {},
    }
}

/// In every user turn of a Messages request, the tool results come before
/// any other block: a tool result is placed ahead of the turn's other
/// content, and what follows it (documents, user content) never holds one.
pub proof fn lemma_tool_results_lead_user_turns(ms: Seq<MessageView>)
    ensures
        claude_fold(ms) matches Ok((_, turns)) ==> forall|t: int|
            0 <= t < turns.len() && (#[trigger] turns[t]).0 == "user"@ ==> tool_results_lead(turns[t].1),
    decreases ms.len(),
{
    reveal_strlit("user");
    reveal_strlit("assistant");
    assert("user"@.len() != "assistant"@.len());
    if ms.len() > 0 {
        lemma_tool_results_lead_user_turns(ms.drop_last());
        match claude_fold(ms.drop_last()) {
            Err(_) => {},
            Ok((sys, turns)) => {
                let m = ms.last();
                assert(claude_fold(ms) == claude_step(sys, turns, m));
                match m.role {
                    Role::System => {},
                    Role::Assistant => {
                        if let Ok(bs) = assistant_blocks(m) {
                            let t2 = turns.push(("assistant"@, bs));
                            assert forall|t: int| 0 <= t < t2.len() && (#[trigger] t2[t]).0 == "user"@ implies tool_results_lead(t2[t].1) by {
                                assert(t < turns.len());
                                assert(t2[t] == turns[t]);
                            }
                        }
                    },
                    Role::User => {
                        if let Ok(cb) = content_blocks(m.content) {
                            lemma_content_not_tool_result(m.content);
                            let t2 = turns.push(("user"@, cb));
                            assert forall|t: int| 0 <= t < t2.len() && (#[trigger] t2[t]).0 == "user"@ implies tool_results_lead(t2[t].1) by {
                                if t < turns.len() {
                                    assert(t2[t] == turns[t]);
                                }
                            }
                        }
                    },
                    Role::Tool => {
                        match tool_result_content(m.content) {
                            Err(_) => {},
                            Ok((content, att)) => {
                                let block = tool_result_json(m, content);
                                lemma_tool_result_block(m, content);
                                assert forall|i: int| 0 <= i < att.len() implies !is_tool_result(#[trigger] att[i]) by {
                                    match m.content {
                                        Some(ContentView::Parts(ps)) => lemma_attachments_not_tool_result(ps),
                                        _ => {},
                                    }
                                }
                                if turns.len() > 0 && turns.last().0 == "user"@ {
                                    let c = turns.last().1;
                                    let p = first_non_tool_result(c);
                                    lemma_first_non_tool_result_bounds(c);
                                    assert(turns[turns.len() - 1] == turns.last());
                                    assert(tool_results_lead(c));
                                    let c1 = c.insert(p, block);
                                    let c2 = c1 + att;
                                    assert forall|i: int, j: int|
                                        0 <= i < j < c2.len() && is_tool_result(#[trigger] c2[j]) implies is_tool_result(#[trigger] c2[i]) by {
                                        assert(j < c1.len()) by {
                                            if j >= c1.len() {
                                                assert(c2[j] == att[j - c1.len()]);
                                            }
                                        }
                                        assert(c2[j] == c1[j]);
                                        assert(c2[i] == c1[i]);
                                        if i < p {
                                            assert(c1[i] == c[i]);
                                        } else if i == p {
                                            assert(c1[i] == block);
                                        } else {
                                            assert(c1[i] == c[i - 1]);
                                            assert(c1[j] == c[j - 1]);
                                        }
                                    }
                                    let t2 = turns.update(turns.len() - 1, ("user"@, c2));
                                    assert forall|t: int| 0 <= t < t2.len() && (#[trigger] t2[t]).0 == "user"@ implies tool_results_lead(t2[t].1) by {
                                        if t < turns.len() - 1 {
                                            assert(t2[t] == turns[t]);
                                        }
                                    }
                                } else {
                                    let c2 = seq![block] + att;
                                    assert forall|i: int, j: int|
                                        0 <= i < j < c2.len() && is_tool_result(#[trigger] c2[j]) implies is_tool_result(#[trigger] c2[i]) by {
                                        assert(c2[j] == att[j - 1]);
                                    }
                                    let t2 = turns.push(("user"@, c2));
                                    assert forall|t: int| 0 <= t < t2.len() && (#[trigger] t2[t]).0 == "user"@ implies tool_results_lead(t2[t].1) by {
                                        if t < turns.len() {
                                            assert(t2[t] == turns[t]);
                                        }
                                    }
                                }
                            },
                        }
                    },
                }
            },
        }
    }
}

} // verus!
