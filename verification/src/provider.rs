//! Provider-neutral request helpers.
use vstd::prelude::*;

use crate::error::ProviderError;
use crate::text::{owned, push_str};
use crate::types::{parts_view, Content, ContentPart, ContentPartView, ContentView, Message};

verus! {

broadcast use vstd::string::group_string_axioms;

/// The concatenated text of parts that are all text, or `None` when some
/// part is not.
pub open spec fn parts_text(ps: Seq<ContentPartView>) -> Option<Seq<char>>
    decreases ps.len(),
{
    if ps.len() == 0 {
        Some(Seq::empty())
    } else {
        match parts_text(ps.drop_last()) {
            Some(t) => if ps.last().kind == 0 {
                Some(t + ps.last().text)
            } else {
                None
            },
            None => None,
        }
    }
}

/// The text of a message that may only hold text, or why it cannot be
/// sent: it has no content, or some part is not text.
pub open spec fn text_only_spec(content: Option<ContentView>, label: Seq<char>) -> Result<Seq<char>, Seq<char>> {
    match content {
        None => Err(label + " message has no content"@),
        Some(ContentView::Text(t)) => Ok(t),
        Some(ContentView::Parts(ps)) => match parts_text(ps) {
            Some(t) => Ok(t),
            None => Err(label + " message cannot contain images"@),
        },
    }
}

pub fn text_only(message: &Message, label: &str) -> (r: Result<String, ProviderError>)
    ensures
        match text_only_spec(message@.content, label@) {
            Ok(t) => r matches Ok(s) && s@ == t,
            Err(e) => r matches Err(ProviderError::InvalidRequest(m)) && m@ == e,
        },
{
    let content = match &message.content {
        Some(c) => c,
        None => {
            let mut m = owned(label);
            push_str(&mut m, " message has no content");
            return Err(ProviderError::InvalidRequest(m));
        },
    };
    match content {
        Content::Text(t) => Ok(t.clone()),
        Content::Parts(parts) => {
            let ghost pv = parts_view(parts@);
            let mut text = String::new();
            let mut i: usize = 0;
            while i < parts.len()
                invariant
                    i <= parts@.len(),
                    pv == parts_view(parts@),
                    message@.content == Some(ContentView::Parts(pv)),
                    parts_text(pv.take(i as int)) == Some(text@),
                decreases parts.len() - i,
            {
                proof {
                    assert(pv.take(i + 1).drop_last() == pv.take(i as int));
                    assert(pv.take(i + 1).last() == parts@[i as int]@);
                }
                match &parts[i] {
                    ContentPart::Text { text: part } => {
                        push_str(&mut text, part.as_str());
                    },
                    _ => {
                        proof {
                            lemma_parts_text_none(pv, i as int + 1);
                            assert(pv.take(parts@.len() as int) == pv);
                        }
                        let mut m = owned(label);
                        push_str(&mut m, " message cannot contain images");
                        return Err(ProviderError::InvalidRequest(m));
                    },
                }
                i += 1;
            }
            proof {
                assert(pv.take(parts@.len() as int) == pv);
            }
            Ok(text)
        },
    }
}

proof fn lemma_parts_text_none(ps: Seq<ContentPartView>, k: int)
    requires
        0 < k <= ps.len(),
        parts_text(ps.take(k)) is None,
    ensures
        parts_text(ps) is None,
    decreases ps.len() - k,
{
    if k < ps.len() {
        assert(ps.take(k + 1).drop_last() == ps.take(k));
        lemma_parts_text_none(ps, k + 1);
    } else {
        assert(ps.take(k) == ps);
    }
}

/// Sets each extra member on a request body's members, in order, each
/// replacing a member of the same name or joining at the end.
pub fn merge_extra_body(fields: &mut Vec<(String, crate::json::Json)>, extra: &Vec<(String, crate::json::Json)>)
    ensures
        crate::json::fields_view(final(fields)@) == crate::chat::merge_members(
            crate::json::fields_view(old(fields)@),
            crate::json::fields_view(extra@),
        ),
{
    let ghost built = crate::json::fields_view(fields@);
    let ghost ev = crate::json::fields_view(extra@);
    let mut k: usize = 0;
    while k < extra.len()
        invariant
            k <= extra@.len(),
            ev == crate::json::fields_view(extra@),
            crate::json::fields_view(fields@) == crate::chat::merge_members(built, ev.take(k as int)),
        decreases extra.len() - k,
    {
        proof {
            assert(ev.take(k + 1).drop_last() == ev.take(k as int));
            assert(ev.take(k + 1).last() == ev[k as int]);
        }
        let value = extra[k].1.duplicate();
        crate::chat::set_field(fields, extra[k].0.as_str(), value);
        k += 1;
    }
    proof {
        assert(ev.take(ev.len() as int) == ev);
    }
}

} // verus!
