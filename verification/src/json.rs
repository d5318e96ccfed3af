//! JSON documents built by the provider adapters.
use vstd::prelude::*;


verus! {

/// A JSON document.
#[derive(Debug, PartialEq, Eq)]
pub enum Json {
    Null,
    Bool(bool),
    UInt(u64),
    Str(String),
    /// A document given as JSON text.
    Raw(String),
    Array(Vec<Json>),
    Object(Vec<(String, Json)>),
}

pub ghost enum JsonView {
    Null,
    Bool(bool),
    UInt(u64),
    Str(Seq<char>),
    Raw(Seq<char>),
    Array(Seq<JsonView>),
    Object(Seq<(Seq<char>, JsonView)>),
}

pub open spec fn json_view(j: Json) -> JsonView
    decreases j,
{
    match j {
        Json::Null => JsonView::Null,
        Json::Bool(b) => JsonView::Bool(b),
        Json::UInt(n) => JsonView::UInt(n),
        Json::Str(s) => JsonView::Str(s@),
        Json::Raw(s) => JsonView::Raw(s@),
        Json::Array(v) => JsonView::Array(
            Seq::new(v@.len(), |i: int| if 0 <= i < v@.len() { json_view(v@[i]) } else { JsonView::Null }),
        ),
        Json::Object(f) => JsonView::Object(
            Seq::new(f@.len(), |i: int| if 0 <= i < f@.len() { (f@[i].0@, json_view(f@[i].1)) } else { (Seq::empty(), JsonView::Null) }),
        ),
    }
}

/// The views of the items of an array.
pub open spec fn items_view(v: Seq<Json>) -> Seq<JsonView> {
    Seq::new(v.len(), |i: int| json_view(v[i]))
}

/// The views of the members of an object, in order.
pub open spec fn fields_view(f: Seq<(String, Json)>) -> Seq<(Seq<char>, JsonView)> {
    Seq::new(f.len(), |i: int| (f[i].0@, json_view(f[i].1)))
}

impl Json {
    pub fn string(s: &str) -> (r: Json)
        ensures
            json_view(r) == JsonView::Str(s@),
    {
        Json::Str(crate::text::owned(s))
    }

    pub fn array(items: Vec<Json>) -> (r: Json)
        ensures
            json_view(r) == JsonView::Array(items_view(items@)),
    {
        let r = Json::Array(items);
        proof {
            assert(match json_view(r) {
                JsonView::Array(a) => a =~= items_view(items@),
                _ => false,
            });
        }
        r
    }

    pub fn object(fields: Vec<(String, Json)>) -> (r: Json)
        ensures
            json_view(r) == JsonView::Object(fields_view(fields@)),
    {
        let r = Json::Object(fields);
        proof {
            assert(match json_view(r) {
                JsonView::Object(o) => o =~= fields_view(fields@),
                _ => false,
            });
        }
        r
    }
}

impl Json {
    /// A copy of this document.
    pub fn duplicate(&self) -> (r: Json)
        ensures
            json_view(r) == json_view(*self),
        decreases self,
    {
        match self {
            Json::Null => Json::Null,
            Json::Bool(b) => Json::Bool(*b),
            Json::UInt(n) => Json::UInt(*n),
            Json::Str(s) => Json::Str(s.clone()),
            Json::Raw(s) => Json::Raw(s.clone()),
            Json::Array(v) => {
                let mut items: Vec<Json> = no_items();
                let mut i: usize = 0;
                while i < v.len()
                    invariant
                        i <= v@.len(),
                        *self == Json::Array(*v),
                        items_view(items@) == items_view(v@.take(i as int)),
                    decreases v.len() - i,
                {
                    proof {
                        assert(decreases_to!(*self => (*self)->Array_0));
                        assert(decreases_to!(*v => v@));
                        assert(decreases_to!(v@ => v@[i as int]));
                        assert(decreases_to!(self => v@[i as int]));
                    }
                    push_item(&mut items, v[i].duplicate());
                    proof {
                        assert(items_view(v@.take(i + 1)) =~= items_view(v@.take(i as int)).push(
                            json_view(v@[i as int]),
                        ));
                    }
                    i += 1;
                }
                proof {
                    assert(v@.take(v@.len() as int) == v@);
                }
                let r = Json::array(items);
                proof {
                    assert(match json_view(*self) {
                        JsonView::Array(a) => a =~= items_view(v@),
                        _ => false,
                    });
                }
                r
            },
            Json::Object(f) => {
                let mut fields: Vec<(String, Json)> = no_members();
                let mut i: usize = 0;
                while i < f.len()
                    invariant
                        i <= f@.len(),
                        *self == Json::Object(*f),
                        fields_view(fields@) == fields_view(f@.take(i as int)),
                    decreases f.len() - i,
                {
                    proof {
                        assert(decreases_to!(*self => (*self)->Object_0));
                        assert(decreases_to!(*f => f@));
                        assert(decreases_to!(f@ => f@[i as int]));
                        assert(decreases_to!(f@[i as int] => f@[i as int].1));
                        assert(decreases_to!(self => f@[i as int].1));
                    }
                    let value = f[i].1.duplicate();
                    push_field(&mut fields, f[i].0.as_str(), value);
                    proof {
                        assert(fields_view(f@.take(i + 1)) =~= fields_view(f@.take(i as int)).push(
                            (f@[i as int].0@, json_view(f@[i as int].1)),
                        ));
                    }
                    i += 1;
                }
                proof {
                    assert(f@.take(f@.len() as int) == f@);
                }
                let r = Json::object(fields);
                proof {
                    assert(match json_view(*self) {
                        JsonView::Object(o) => o =~= fields_view(f@),
                        _ => false,
                    });
                }
                r
            },
        }
    }
}

impl Clone for Json {
    fn clone(&self) -> (r: Self)
        ensures
            json_view(r) == json_view(*self),
    {
        self.duplicate()
    }
}

/// The members of an empty object.
pub fn no_members() -> (r: Vec<(String, Json)>)
    ensures
        r@.len() == 0,
        fields_view(r@) == Seq::<(Seq<char>, JsonView)>::empty(),
{
    let r: Vec<(String, Json)> = Vec::new();
    proof {
        assert(fields_view(r@) =~= Seq::<(Seq<char>, JsonView)>::empty());
    }
    r
}

/// The items of an empty array.
pub fn no_items() -> (r: Vec<Json>)
    ensures
        r@.len() == 0,
        items_view(r@) == Seq::<JsonView>::empty(),
{
    let r: Vec<Json> = Vec::new();
    proof {
        assert(items_view(r@) =~= Seq::<JsonView>::empty());
    }
    r
}

/// Appends the member `key: value` to an object's members.
pub fn push_field(fields: &mut Vec<(String, Json)>, key: &str, value: Json)
    ensures
        fields_view(final(fields)@) == fields_view(old(fields)@).push((key@, json_view(value))),
{
    let ghost v = json_view(value);
    fields.push((crate::text::owned(key), value));
    proof {
        assert(fields_view(fields@) =~= fields_view(old(fields)@).push((key@, v)));
    }
}

/// Appends an item to an array's items.
pub fn push_item(items: &mut Vec<Json>, value: Json)
    ensures
        items_view(final(items)@) == items_view(old(items)@).push(json_view(value)),
{
    let ghost v = json_view(value);
    items.push(value);
    proof {
        assert(items_view(items@) =~= items_view(old(items)@).push(v));
    }
}


/// Compares two documents by their views.
pub fn json_eq(a: &Json, b: &Json) -> (r: bool)
    ensures
        r == (json_view(*a) == json_view(*b)),
    decreases a,
{
    match (a, b) {
        (Json::Null, Json::Null) => true,
        (Json::Bool(x), Json::Bool(y)) => *x == *y,
        (Json::UInt(x), Json::UInt(y)) => *x == *y,
        (Json::Str(x), Json::Str(y)) => crate::text::string_eq(x, y),
        (Json::Raw(x), Json::Raw(y)) => crate::text::string_eq(x, y),
        (Json::Array(x), Json::Array(y)) => {
            proof {
                assert(match json_view(*a) {
                    JsonView::Array(v) => v =~= items_view(x@),
                    _ => false,
                });
                assert(match json_view(*b) {
                    JsonView::Array(v) => v =~= items_view(y@),
                    _ => false,
                });
            }
            if x.len() != y.len() {
                proof {
                    assert(items_view(x@).len() != items_view(y@).len());
                }
                return false;
            }
            let mut i: usize = 0;
            while i < x.len()
                invariant
                    i <= x@.len(),
                    x@.len() == y@.len(),
                    *a == Json::Array(*x),
                    json_view(*a) == JsonView::Array(items_view(x@)),
                    json_view(*b) == JsonView::Array(items_view(y@)),
                    forall|j: int| 0 <= j < i ==> json_view(#[trigger] x@[j]) == json_view(y@[j]),
                decreases x.len() - i,
            {
                proof {
                    assert(decreases_to!(*a => (*a)->Array_0));
                    assert(decreases_to!(*x => x@));
                    assert(decreases_to!(x@ => x@[i as int]));
                }
                if !json_eq(&x[i], &y[i]) {
                    proof {
                        assert(items_view(x@)[i as int] != items_view(y@)[i as int]);
                    }
                    return false;
                }
                i += 1;
            }
            proof {
                assert(items_view(x@) =~= items_view(y@));
            }
            true
        },
        (Json::Object(x), Json::Object(y)) => {
            proof {
                assert(match json_view(*a) {
                    JsonView::Object(v) => v =~= fields_view(x@),
                    _ => false,
                });
                assert(match json_view(*b) {
                    JsonView::Object(v) => v =~= fields_view(y@),
                    _ => false,
                });
            }
            if x.len() != y.len() {
                proof {
                    assert(fields_view(x@).len() != fields_view(y@).len());
                }
                return false;
            }
            let mut i: usize = 0;
            while i < x.len()
                invariant
                    i <= x@.len(),
                    x@.len() == y@.len(),
                    *a == Json::Object(*x),
                    json_view(*a) == JsonView::Object(fields_view(x@)),
                    json_view(*b) == JsonView::Object(fields_view(y@)),
                    forall|j: int|
                        0 <= j < i ==> (#[trigger] x@[j]).0@ == y@[j].0@ && json_view(x@[j].1)
                            == json_view(y@[j].1),
                decreases x.len() - i,
            {
                proof {
                    assert(decreases_to!(*a => (*a)->Object_0));
                    assert(decreases_to!(*x => x@));
                    assert(decreases_to!(x@ => x@[i as int]));
                    assert(decreases_to!(x@[i as int] => x@[i as int].1));
                }
                if !crate::text::string_eq(&x[i].0, &y[i].0) || !json_eq(&x[i].1, &y[i].1) {
                    proof {
                        assert(fields_view(x@)[i as int] != fields_view(y@)[i as int]);
                    }
                    return false;
                }
                i += 1;
            }
            proof {
                assert(fields_view(x@) =~= fields_view(y@));
            }
            true
        },
        _ => false,
    }
}

pub open spec fn opt_json_view(o: Option<Json>) -> Option<JsonView> {
    match o {
        Some(j) => Some(json_view(j)),
        None => None,
    }
}

/// Compares two optional documents by their views.
pub fn opt_json_eq(a: &Option<Json>, b: &Option<Json>) -> (r: bool)
    ensures
        r == (opt_json_view(*a) == opt_json_view(*b)),
{
    match (a, b) {
        (Some(x), Some(y)) => json_eq(x, y),
        (None, None) => true,
        _ => false,
    }
}

/// A copy of an optional document.
pub fn copy_opt_json(o: &Option<Json>) -> (r: Option<Json>)
    ensures
        opt_json_view(r) == opt_json_view(*o),
{
    match o {
        Some(j) => Some(j.duplicate()),
        None => None,
    }
}

/// Declares `serde_json::Value`, the value a document is written through.
#[verifier::external_type_specification]
#[verifier::external_body]
pub struct ExSerdeValue(serde_json::Value);

/// The `serde_json` value of a document: a raw member is parsed, and kept
/// as a string when it is not JSON text.
#[verifier::external_body]
fn serde_value(j: &Json) -> serde_json::Value {
    match j {
        Json::Null => serde_json::Value::Null,
        Json::Bool(b) => serde_json::Value::Bool(*b),
        Json::UInt(n) => serde_json::Value::from(*n),
        Json::Str(s) => serde_json::Value::String(s.clone()),
        Json::Raw(t) => serde_json::from_str(t).unwrap_or_else(|_| serde_json::Value::String(t.clone())),
        Json::Array(items) => serde_json::Value::Array(items.iter().map(serde_value).collect()),
        Json::Object(fields) => serde_json::Value::Object(
            fields.iter().map(|(k, v)| (k.clone(), serde_value(v))).collect(),
        ),
    }
}

/// The compact JSON text `serde_json` writes for a document.
pub uninterp spec fn json_text(j: JsonView) -> Seq<char>;

/// Writes a document as compact JSON text with `serde_json`
/// (`Value::to_string`). The text is a function of the document alone;
/// which text it is, is left to the name `json_text`.
#[verifier::external_body]
pub fn json_to_text(j: &Json) -> (r: String)
    ensures
        r@ == json_text(json_view(*j)),
{
    serde_value(j).to_string()
}

} // verus!
