//! Skill files: the `---` delimited YAML frontmatter, the fields read from
//! it, and the parsed skill.
use vstd::prelude::*;

use crate::skill_args::{split_whitespace, split_whitespace_spec, string_views};
use crate::skill_catalog::{LoadedSkill, SkillDiagnostic, SkillMetadata};
use crate::text::{
    all_ws, chars_of, debug_str, debug_string, is_blank, owned, push_str, string_of, trim,
    trim_bounds,
};

verus! {

broadcast use vstd::string::group_string_axioms;

/// A frontmatter value, as far as skill files read it.
#[derive(Clone, Debug, PartialEq, Eq)]
pub enum FrontmatterValue {
    Null,
    Bool(bool),
    /// A number: its displayed text and, when it is one, its `i64` value.
    Number { text: String, integer: Option<i64> },
    String(String),
    /// A sequence: the text of each string item, `None` for other items.
    Sequence(Vec<Option<String>>),
    /// A mapping or a tagged value.
    Other,
}

/// One entry of the frontmatter mapping: its key when that is a string.
#[derive(Clone, Debug, PartialEq, Eq)]
pub struct FrontmatterEntry {
    pub key: Option<String>,
    pub value: FrontmatterValue,
}

pub ghost enum FrontmatterValueView {
    Null,
    Bool(bool),
    Number(Seq<char>, Option<i64>),
    String(Seq<char>),
    Sequence(Seq<Option<Seq<char>>>),
    Other,
}

pub ghost struct FrontmatterEntryView {
    pub key: Option<Seq<char>>,
    pub value: FrontmatterValueView,
}

pub open spec fn opt_text(o: Option<String>) -> Option<Seq<char>> {
    match o {
        Some(s) => Some(s@),
        None => None,
    }
}

impl View for FrontmatterValue {
    type V = FrontmatterValueView;

    open spec fn view(&self) -> FrontmatterValueView {
        match self {
            FrontmatterValue::Null => FrontmatterValueView::Null,
            FrontmatterValue::Bool(b) => FrontmatterValueView::Bool(*b),
            FrontmatterValue::Number { text, integer } => FrontmatterValueView::Number(
                text@,
                *integer,
            ),
            FrontmatterValue::String(s) => FrontmatterValueView::String(s@),
            FrontmatterValue::Sequence(items) => FrontmatterValueView::Sequence(
                Seq::new(items@.len(), |i: int| opt_text(items@[i])),
            ),
            FrontmatterValue::Other => FrontmatterValueView::Other,
        }
    }
}

impl View for FrontmatterEntry {
    type V = FrontmatterEntryView;

    open spec fn view(&self) -> FrontmatterEntryView {
        FrontmatterEntryView { key: opt_text(self.key), value: self.value@ }
    }
}

pub open spec fn entries_view(v: Seq<FrontmatterEntry>) -> Seq<FrontmatterEntryView> {
    Seq::new(v.len(), |i: int| v[i]@)
}

/// What `serde_yaml_ng` makes of a YAML document: the entries of a mapping,
/// `None` for any other value, or the text of its error.
pub uninterp spec fn yaml_frontmatter(text: Seq<char>) -> Result<
    Option<Seq<FrontmatterEntryView>>,
    Seq<char>,
>;

#[verifier::external_type_specification]
#[verifier::external_body]
pub struct ExYamlValue(serde_yaml_ng::Value);

/// Parses a YAML document (`serde_yaml_ng::from_str::<Value>`) and keeps
/// the entries of a top-level mapping. What the crate accepts, and the text
/// of its errors, are left to the name `yaml_frontmatter`.
#[verifier::external_body]
fn parse_yaml_mapping(text: &str) -> (r: Result<Option<Vec<FrontmatterEntry>>, String>)
    ensures
        match (r, yaml_frontmatter(text@)) {
            (Ok(Some(v)), Ok(Some(w))) => entries_view(v@) == w,
            (Ok(None), Ok(None)) => true,
            (Err(e), Err(f)) => e@ == f,
            _ => false,
        },
{
    match serde_yaml_ng::from_str::<serde_yaml_ng::Value>(text) {
        Ok(serde_yaml_ng::Value::Mapping(m)) => Ok(
            Some(m.into_iter().map(|(k, v)| yaml_entry(k, v)).collect()),
        ),
        Ok(_) => Ok(None),
        Err(e) => Err(e.to_string()),
    }
}

/// Converts one mapping entry of `serde_yaml_ng` into the library's form.
#[verifier::external_body]
fn yaml_entry(key: serde_yaml_ng::Value, value: serde_yaml_ng::Value) -> FrontmatterEntry {
    let key = match key {
        serde_yaml_ng::Value::String(s) => Some(s),
        _ => None,
    };
    let value = match value {
        serde_yaml_ng::Value::Null => FrontmatterValue::Null,
        serde_yaml_ng::Value::Bool(b) => FrontmatterValue::Bool(b),
        serde_yaml_ng::Value::Number(n) => FrontmatterValue::Number { text: n.to_string(), integer: n.as_i64() },
        serde_yaml_ng::Value::String(s) => FrontmatterValue::String(s),
        serde_yaml_ng::Value::Sequence(items) => FrontmatterValue::Sequence(items.into_iter().map(yaml_item).collect()),
        _ => FrontmatterValue::Other,
    };
    FrontmatterEntry { key, value }
}

/// Converts one sequence item of `serde_yaml_ng`: the text of a string.
#[verifier::external_body]
fn yaml_item(item: serde_yaml_ng::Value) -> Option<String> {
    match item {
        serde_yaml_ng::Value::String(s) => Some(s),
        _ => None,
    }
}

pub const NO_CLOSING_DELIMITER: &'static str =
    "frontmatter starts with `---` but has no closing delimiter";

pub const NOT_A_MAPPING: &'static str = "YAML frontmatter must be a mapping";

pub const INVALID_YAML_PREFIX: &'static str = "invalid YAML frontmatter: ";

/// `s` without a leading byte-order mark.
pub open spec fn without_bom(s: Seq<char>) -> Seq<char> {
    if s.len() > 0 && s[0] == '\u{feff}' {
        s.skip(1)
    } else {
        s
    }
}

/// The end of the line starting at `from`: just after its `\n`, or the end
/// of `s`.
pub open spec fn line_end(s: Seq<char>, from: int) -> int
    decreases s.len() - from,
{
    if from >= s.len() || from < 0 {
        s.len() as int
    } else if s[from] == '\n' {
        from + 1
    } else {
        line_end(s, from + 1)
    }
}

pub proof fn lemma_line_end(s: Seq<char>, from: int)
    requires
        0 <= from < s.len(),
    ensures
        from < line_end(s, from) <= s.len(),
        forall|k: int| from <= k < line_end(s, from) - 1 ==> s[k] != '\n',
        line_end(s, from) < s.len() ==> s[line_end(s, from) - 1] == '\n',
    decreases s.len() - from,
{
    if s[from] != '\n' {
        if from + 1 < s.len() {
            lemma_line_end(s, from + 1);
            assert forall|k: int| from <= k < line_end(s, from) - 1 implies s[k] != '\n' by {
                if k > from {
                    assert(from + 1 <= k < line_end(s, from + 1) - 1);
                }
            }
        } else {
            assert(line_end(s, from + 1) == s.len());
        }
    }
}

/// `l` without its trailing `\r` and `\n` characters.
pub open spec fn strip_line_breaks(l: Seq<char>) -> Seq<char>
    decreases l.len(),
{
    if l.len() > 0 && (l.last() == '\r' || l.last() == '\n') {
        strip_line_breaks(l.drop_last())
    } else {
        l
    }
}

/// The line `s[a..b]` is the `---` delimiter.
pub open spec fn is_delimiter(s: Seq<char>, a: int, b: int) -> bool {
    strip_line_breaks(s.subrange(a, b)) == "---"@
}

/// The start of the first delimiter line at or after `from`.
pub open spec fn closing_line(s: Seq<char>, from: int) -> Option<int>
    decreases s.len() - from,
{
    if from >= s.len() || from < 0 {
        None
    } else if is_delimiter(s, from, line_end(s, from)) {
        Some(from)
    } else {
        proof {
            lemma_line_end(s, from);
        }
        closing_line(s, line_end(s, from))
    }
}

/// A skill file split into its frontmatter entries and its body; a file
/// that does not start with a `---` line has no frontmatter.
pub open spec fn split_frontmatter_spec(raw: Seq<char>) -> Result<
    (Seq<FrontmatterEntryView>, Seq<char>),
    Seq<char>,
> {
    let r = without_bom(raw);
    let first_end = line_end(r, 0);
    if r.len() == 0 {
        Ok((Seq::empty(), Seq::empty()))
    } else if !is_delimiter(r, 0, first_end) {
        Ok((Seq::empty(), r))
    } else {
        match closing_line(r, first_end) {
            None => Err(NO_CLOSING_DELIMITER@),
            Some(c) => {
                let yaml = r.subrange(first_end, c);
                let body = r.skip(line_end(r, c));
                if all_ws(yaml) {
                    Ok((Seq::empty(), body))
                } else {
                    match yaml_frontmatter(yaml) {
                        Err(e) => Err(INVALID_YAML_PREFIX@ + e),
                        Ok(None) => Err(NOT_A_MAPPING@),
                        Ok(Some(m)) => Ok((m, body)),
                    }
                }
            },
        }
    }
}

fn line_end_exec(v: &Vec<char>, from: usize) -> (r: usize)
    requires
        from <= v@.len(),
    ensures
        r == line_end(v@, from as int),
        from <= r <= v@.len(),
{
    let mut i = from;
    while i < v.len() && v[i] != '\n'
        invariant
            from <= i <= v@.len(),
            line_end(v@, from as int) == line_end(v@, i as int),
        decreases v.len() - i,
    {
        i += 1;
    }
    if i < v.len() {
        i + 1
    } else {
        i
    }
}

fn is_delimiter_exec(v: &Vec<char>, a: usize, b: usize) -> (r: bool)
    requires
        a <= b <= v@.len(),
    ensures
        r == is_delimiter(v@, a as int, b as int),
{
    let mut e = b;
    while e > a && (v[e - 1] == '\r' || v[e - 1] == '\n')
        invariant
            a <= e <= b <= v@.len(),
            strip_line_breaks(v@.subrange(a as int, b as int)) == strip_line_breaks(
                v@.subrange(a as int, e as int),
            ),
        decreases e,
    {
        assert(v@.subrange(a as int, e as int).drop_last() == v@.subrange(a as int, e - 1));
        e -= 1;
    }
    proof {
        reveal_strlit("---");
    }
    let result = e - a == 3 && v[a] == '-' && v[a + 1] == '-' && v[a + 2] == '-';
    proof {
        let l = v@.subrange(a as int, e as int);
        if result {
            assert(l =~= "---"@);
        } else if l.len() == 3 {
            assert(l[0] != '-' || l[1] != '-' || l[2] != '-');
            assert(l != "---"@);
        }
    }
    result
}

/// Splits a skill file into frontmatter entries and body.
pub fn split_frontmatter(raw: &str) -> (r: Result<(Vec<FrontmatterEntry>, String), String>)
    ensures
        match (r, split_frontmatter_spec(raw@)) {
            (Ok((m, b)), Ok((mv, bv))) => entries_view(m@) == mv && b@ == bv,
            (Err(e), Err(ev)) => e@ == ev,
            _ => false,
        },
{
    let all = chars_of(raw);
    let start: usize = if all.len() > 0 && all[0] == '\u{feff}' {
        1
    } else {
        0
    };
    let v = crate::text::chars_between(&all, start, all.len());
    proof {
        assert(v@ == without_bom(raw@));
        assert(entries_view(Seq::<FrontmatterEntry>::empty()) =~= Seq::empty());
    }
    if v.len() == 0 {
        return Ok((Vec::new(), String::new()));
    }
    let first_end = line_end_exec(&v, 0);
    if !is_delimiter_exec(&v, 0, first_end) {
        return Ok((Vec::new(), string_of(&v, 0, v.len())));
    }
    let mut line = first_end;
    while line < v.len() && !is_delimiter_exec(&v, line, line_end_exec(&v, line))
        invariant
            first_end <= line <= v@.len(),
            closing_line(v@, first_end as int) == closing_line(v@, line as int),
        decreases v.len() - line,
    {
        proof {
            lemma_line_end(v@, line as int);
        }
        line = line_end_exec(&v, line);
    }
    if line >= v.len() {
        return Err(owned(NO_CLOSING_DELIMITER));
    }
    let close_end = line_end_exec(&v, line);
    let body = string_of(&v, close_end, v.len());
    let yaml = string_of(&v, first_end, line);
    proof {
        assert(v@.subrange(close_end as int, v@.len() as int) == v@.skip(close_end as int));
    }
    if is_blank(yaml.as_str()) {
        return Ok((Vec::new(), body));
    }
    match parse_yaml_mapping(yaml.as_str()) {
        Ok(Some(m)) => Ok((m, body)),
        Ok(None) => Err(owned(NOT_A_MAPPING)),
        Err(e) => {
            let mut msg = owned(INVALID_YAML_PREFIX);
            push_str(&mut msg, e.as_str());
            Err(msg)
        },
    }
}

/// The value of the entry keyed by `key`.
pub open spec fn value_for(es: Seq<FrontmatterEntryView>, key: Seq<char>) -> Option<FrontmatterValueView>
    decreases es.len(),
{
    if es.len() == 0 {
        None
    } else if es[0].key == Some(key) {
        Some(es[0].value)
    } else {
        value_for(es.drop_first(), key)
    }
}

fn find_value<'a>(entries: &'a Vec<FrontmatterEntry>, key: &str) -> (r: Option<&'a FrontmatterValue>)
    ensures
        match (r, value_for(entries_view(entries@), key@)) {
            (Some(v), Some(w)) => v@ == w,
            (None, None) => true,
            _ => false,
        },
{
    let ghost es = entries_view(entries@);
    let target = owned(key);
    let mut i: usize = 0;
    assert(es.skip(0) == es);
    while i < entries.len()
        invariant
            i <= entries@.len(),
            es == entries_view(entries@),
            target@ == key@,
            value_for(es, key@) == value_for(es.skip(i as int), key@),
        decreases entries.len() - i,
    {
        proof {
            assert(es.skip(i as int)[0] == entries@[i as int]@);
            assert(es.skip(i as int).drop_first() == es.skip(i + 1));
        }
        match &entries[i].key {
            Some(k) => {
                if crate::text::string_eq(k, &target) {
                    return Some(&entries[i].value);
                }
            },
            None => {},
        }
        i += 1;
    }
    None
}

/// A frontmatter scalar as text: absent and null give nothing, numbers
/// their displayed text, booleans `true` or `false`; other values are an
/// error.
pub open spec fn scalar_spec(v: Option<FrontmatterValueView>, key: Seq<char>) -> Result<Option<Seq<char>>, Seq<char>> {
    match v {
        None => Ok(None),
        Some(FrontmatterValueView::Null) => Ok(None),
        Some(FrontmatterValueView::String(s)) => Ok(Some(s)),
        Some(FrontmatterValueView::Bool(b)) => Ok(Some(if b { "true"@ } else { "false"@ })),
        Some(FrontmatterValueView::Number(t, _)) => Ok(Some(t)),
        _ => Err("frontmatter field "@ + debug_str(key) + " must be a scalar"@),
    }
}

pub fn optional_scalar(entries: &Vec<FrontmatterEntry>, key: &str) -> (r: Result<Option<String>, String>)
    ensures
        match (r, scalar_spec(value_for(entries_view(entries@), key@), key@)) {
            (Ok(Some(s)), Ok(Some(t))) => s@ == t,
            (Ok(None), Ok(None)) => true,
            (Err(e), Err(f)) => e@ == f,
            _ => false,
        },
{
    match find_value(entries, key) {
        None => Ok(None),
        Some(FrontmatterValue::Null) => Ok(None),
        Some(FrontmatterValue::String(s)) => Ok(Some(s.clone())),
        Some(FrontmatterValue::Bool(b)) => Ok(Some(if *b { owned("true") } else { owned("false") })),
        Some(FrontmatterValue::Number { text, .. }) => Ok(Some(text.clone())),
        _ => {
            let mut m = owned("frontmatter field ");
            let q = debug_string(key);
            push_str(&mut m, q.as_str());
            push_str(&mut m, " must be a scalar");
            Err(m)
        },
    }
}

/// A frontmatter flag: absent and null give the default; booleans, `0`
/// and `1`, and the texts `true`, `false` (any ASCII case), `1` and `0` are
/// read; anything else is an error.
pub open spec fn bool_spec(v: Option<FrontmatterValueView>, default: bool, field: Seq<char>) -> Result<bool, Seq<char>> {
    match v {
        None => Ok(default),
        Some(FrontmatterValueView::Null) => Ok(default),
        Some(FrontmatterValueView::Bool(b)) => Ok(b),
        Some(FrontmatterValueView::Number(_, Some(0))) => Ok(false),
        Some(FrontmatterValueView::Number(_, Some(1))) => Ok(true),
        Some(FrontmatterValueView::String(s)) => if crate::text::ascii_lower_seq(s) == "true"@ || s == "1"@ {
            Ok(true)
        } else if crate::text::ascii_lower_seq(s) == "false"@ || s == "0"@ {
            Ok(false)
        } else {
            Err("frontmatter field "@ + debug_str(field) + " must be a boolean"@)
        },
        _ => Err("frontmatter field "@ + debug_str(field) + " must be a boolean"@),
    }
}

fn text_is(v: &Vec<char>, t: &str) -> (r: bool)
    ensures
        r == (v@ == t@),
{
    let w = chars_of(t);
    if v.len() != w.len() {
        return false;
    }
    let mut i: usize = 0;
    while i < v.len()
        invariant
            i <= v@.len(),
            v@.len() == w@.len(),
            w@ == t@,
            forall|k: int| 0 <= k < i ==> v@[k] == w@[k],
        decreases v.len() - i,
    {
        if v[i] != w[i] {
            return false;
        }
        i += 1;
    }
    assert(v@ =~= w@);
    true
}

pub fn bool_field(value: Option<&FrontmatterValue>, default: bool, field: &str) -> (r: Result<bool, String>)
    ensures
        match (r, bool_spec(match value { Some(v) => Some(v@), None => None }, default, field@)) {
            (Ok(b), Ok(c)) => b == c,
            (Err(e), Err(f)) => e@ == f,
            _ => false,
        },
{
    let failure = {
        let mut m = owned("frontmatter field ");
        let q = debug_string(field);
        push_str(&mut m, q.as_str());
        push_str(&mut m, " must be a boolean");
        m
    };
    match value {
        None => Ok(default),
        Some(FrontmatterValue::Null) => Ok(default),
        Some(FrontmatterValue::Bool(b)) => Ok(*b),
        Some(FrontmatterValue::Number { integer: Some(0), .. }) => Ok(false),
        Some(FrontmatterValue::Number { integer: Some(1), .. }) => Ok(true),
        Some(FrontmatterValue::String(s)) => {
            let v = chars_of(s.as_str());
            let lower = crate::text::lower_ascii_chars(&v);
            if text_is(&lower, "true") || text_is(&v, "1") {
                Ok(true)
            } else if text_is(&lower, "false") || text_is(&v, "0") {
                Ok(false)
            } else {
                Err(failure)
            }
        },
        _ => Err(failure),
    }
}

pub open spec fn all_ascii_digits(s: Seq<char>) -> bool {
    forall|i: int| 0 <= i < s.len() ==> crate::text::is_digit(#[trigger] s[i])
}

/// The candidates that name an argument: not blank and not all digits.
pub open spec fn kept_names(c: Seq<Seq<char>>) -> Seq<Seq<char>>
    decreases c.len(),
{
    if c.len() == 0 {
        Seq::empty()
    } else if trim(c.last()).len() > 0 && !all_ascii_digits(c.last()) {
        kept_names(c.drop_last()).push(c.last())
    } else {
        kept_names(c.drop_last())
    }
}

pub const ARGUMENT_ENTRIES_MUST_BE_STRINGS: &'static str = "frontmatter `arguments` entries must be strings";

pub const ARGUMENTS_MUST_BE_STRINGS: &'static str = "frontmatter `arguments` must be a string or string array";

/// The declared argument names: a white-space separated string or a list
/// of strings, without blank or numeric names.
pub open spec fn argument_names_spec(v: Option<FrontmatterValueView>) -> Result<Seq<Seq<char>>, Seq<char>> {
    match v {
        None => Ok(Seq::empty()),
        Some(FrontmatterValueView::Null) => Ok(Seq::empty()),
        Some(FrontmatterValueView::String(s)) => Ok(kept_names(split_whitespace_spec(s))),
        Some(FrontmatterValueView::Sequence(items)) => if forall|i: int| 0 <= i < items.len() ==> (#[trigger] items[i]) is Some {
            Ok(kept_names(Seq::new(items.len(), |i: int| items[i]->0)))
        } else {
            Err(ARGUMENT_ENTRIES_MUST_BE_STRINGS@)
        },
        _ => Err(ARGUMENTS_MUST_BE_STRINGS@),
    }
}

fn keep_names(candidates: Vec<String>) -> (r: Vec<String>)
    ensures
        string_views(r@) == kept_names(string_views(candidates@)),
{
    let ghost cv = string_views(candidates@);
    let mut r: Vec<String> = Vec::new();
    let mut i: usize = 0;
    while i < candidates.len()
        invariant
            i <= candidates@.len(),
            cv == string_views(candidates@),
            string_views(r@) == kept_names(cv.take(i as int)),
        decreases candidates.len() - i,
    {
        proof {
            assert(cv.take(i + 1).drop_last() == cv.take(i as int));
            assert(cv.take(i + 1).last() == candidates@[i as int]@);
        }
        let c = chars_of(candidates[i].as_str());
        let blank = is_blank(candidates[i].as_str());
        let mut digits = true;
        let mut k: usize = 0;
        while k < c.len()
            invariant
                k <= c@.len(),
                digits == forall|j: int| 0 <= j < k ==> crate::text::is_digit(#[trigger] c@[j]),
            decreases c.len() - k,
        {
            if !('0' <= c[k] && c[k] <= '9') {
                digits = false;
            }
            k += 1;
        }
        proof {
            crate::text::lemma_trim_empty_iff_blank(candidates@[i as int]@);
        }
        if !blank && !digits {
            let ghost before = r@;
            r.push(candidates[i].clone());
            proof {
                assert(string_views(r@) =~= string_views(before).push(candidates@[i as int]@));
            }
        }
        i += 1;
    }
    proof {
        assert(cv.take(candidates@.len() as int) == cv);
    }
    r
}

pub fn parse_argument_names(value: Option<&FrontmatterValue>) -> (r: Result<Vec<String>, String>)
    ensures
        match (r, argument_names_spec(match value { Some(v) => Some(v@), None => None })) {
            (Ok(v), Ok(w)) => string_views(v@) == w,
            (Err(e), Err(f)) => e@ == f,
            _ => false,
        },
{
    assert(string_views(Seq::<String>::empty()) =~= Seq::empty());
    match value {
        None => Ok(Vec::new()),
        Some(FrontmatterValue::Null) => Ok(Vec::new()),
        Some(FrontmatterValue::String(s)) => {
            let words = split_whitespace(s.as_str());
            proof {
                crate::skill_args::lemma_strings_are_views(words@, split_whitespace_spec(s@));
            }
            Ok(keep_names(words))
        },
        Some(FrontmatterValue::Sequence(items)) => {
            let mut names: Vec<String> = Vec::new();
            let mut i: usize = 0;
            while i < items.len()
                invariant
                    i <= items@.len(),
                    (value matches Some(x) && x@ == FrontmatterValue::Sequence(*items)@),
                    names@.len() == i,
                    forall|k: int| 0 <= k < i ==> (#[trigger] items@[k]) is Some && names@[k]@ == items@[k]->0@,
                decreases items.len() - i,
            {
                match &items[i] {
                    Some(s) => names.push(s.clone()),
                    None => {
                        proof {
                            let w = FrontmatterValue::Sequence(*items)@;
                            assert(w matches FrontmatterValueView::Sequence(t) && t[i as int] is None);
                        }
                        return Err(owned(ARGUMENT_ENTRIES_MUST_BE_STRINGS));
                    },
                }
                i += 1;
            }
            let r = keep_names(names);
            proof {
                let t = Seq::new(items@.len(), |k: int| opt_text(items@[k]));
                assert forall|k: int| 0 <= k < t.len() implies (#[trigger] t[k]) is Some by {
                    assert(items@[k] is Some);
                }
                assert(string_views(names@) =~= Seq::new(t.len(), |k: int| t[k]->0));
                assert(FrontmatterValue::Sequence(*items)@ == FrontmatterValueView::Sequence(t));
            }
            Ok(r)
        },
        _ => Err(owned(ARGUMENTS_MUST_BE_STRINGS)),
    }
}

pub const NO_DESCRIPTION: &'static str = "No description provided.";

/// The first line of `s[line_start..]` (lines end at `\n`) that is not
/// blank once trimmed, trimmed.
pub open spec fn first_nonblank_line(s: Seq<char>, line_start: int, i: int) -> Option<Seq<char>>
    decreases s.len() - i,
{
    if i < line_start || line_start < 0 {
        None
    } else if i >= s.len() {
        let l = s.subrange(line_start, s.len() as int);
        if trim(l).len() > 0 {
            Some(trim(l))
        } else {
            None
        }
    } else if s[i] == '\n' {
        let l = s.subrange(line_start, i);
        if trim(l).len() > 0 {
            Some(trim(l))
        } else {
            first_nonblank_line(s, i + 1, i + 1)
        }
    } else {
        first_nonblank_line(s, line_start, i + 1)
    }
}

/// The number of leading `#` characters of `s`.
pub open spec fn leading_hashes(s: Seq<char>) -> nat
    decreases s.len(),
{
    if s.len() > 0 && s[0] == '#' {
        1 + leading_hashes(s.drop_first())
    } else {
        0
    }
}

/// A description taken from a skill's body: its first non-blank line
/// without heading marks, or a fixed text.
pub open spec fn markdown_description(markdown: Seq<char>) -> Seq<char> {
    match first_nonblank_line(markdown, 0, 0) {
        Some(l) => {
            let d = trim(l.skip(leading_hashes(l) as int));
            if d.len() > 0 {
                d
            } else {
                NO_DESCRIPTION@
            }
        },
        None => NO_DESCRIPTION@,
    }
}

proof fn lemma_leading_hashes(s: Seq<char>, k: int)
    requires
        0 <= k <= s.len(),
        forall|i: int| 0 <= i < k ==> #[trigger] s[i] == '#',
        k == s.len() || s[k] != '#',
    ensures
        leading_hashes(s) == k,
    decreases k,
{
    if k > 0 {
        assert forall|i: int| 0 <= i < k - 1 implies #[trigger] s.drop_first()[i] == '#' by {
            assert(s.drop_first()[i] == s[i + 1]);
        }
        if k < s.len() {
            assert(s.drop_first()[k - 1] == s[k]);
        }
        lemma_leading_hashes(s.drop_first(), k - 1);
    }
}

/// The description for a non-blank first line.
fn describe_line(v: &Vec<char>, from: usize, to: usize) -> (r: String)
    requires
        from <= to <= v@.len(),
        trim(v@.subrange(from as int, to as int)).len() > 0,
    ensures
        ({
            let l = trim(v@.subrange(from as int, to as int));
            let d = trim(l.skip(leading_hashes(l) as int));
            r@ == if d.len() > 0 {
                d
            } else {
                NO_DESCRIPTION@
            }
        }),
{
    let line = crate::text::chars_between(v, from, to);
    let (a, b) = trim_bounds(&line);
    let mut h = a;
    while h < b && line[h] == '#'
        invariant
            a <= h <= b <= line@.len(),
            forall|k: int| a <= k < h ==> #[trigger] line@[k] == '#',
        decreases b - h,
    {
        h += 1;
    }
    proof {
        let l = line@.subrange(a as int, b as int);
        assert forall|k: int| 0 <= k < h - a implies #[trigger] l[k] == '#' by {
            assert(l[k] == line@[a + k]);
        }
        if h < b {
            assert(l[h - a] == line@[h as int]);
        }
        lemma_leading_hashes(l, h - a);
        assert(l.skip(h - a) == line@.subrange(h as int, b as int));
    }
    let rest = string_of(&line, h, b);
    let d = {
        let w = chars_of(rest.as_str());
        let (c, e) = trim_bounds(&w);
        string_of(&w, c, e)
    };
    if chars_of(d.as_str()).len() > 0 {
        d
    } else {
        owned(NO_DESCRIPTION)
    }
}

pub fn description_from_markdown(markdown: &str) -> (r: String)
    ensures
        r@ == markdown_description(markdown@),
{
    let v = chars_of(markdown);
    let mut start: usize = 0;
    let mut i: usize = 0;
    while i < v.len()
        invariant
            start <= i <= v@.len(),
            v@ == markdown@,
            first_nonblank_line(v@, 0, 0) == first_nonblank_line(v@, start as int, i as int),
        decreases v.len() - i,
    {
        if v[i] == '\n' {
            let line = string_of(&v, start, i);
            proof {
                crate::text::lemma_trim_empty_iff_blank(line@);
            }
            if !is_blank(line.as_str()) {
                return describe_line(&v, start, i);
            }
            start = i + 1;
        }
        i += 1;
    }
    let line = string_of(&v, start, v.len());
    proof {
        crate::text::lemma_trim_empty_iff_blank(line@);
    }
    if !is_blank(line.as_str()) {
        return describe_line(&v, start, v.len());
    }
    owned(NO_DESCRIPTION)
}

/// The frontmatter fields that are reported as informational.
pub open spec fn unsupported_fields() -> Seq<Seq<char>> {
    seq![
        "allowed-tools"@,
        "context"@,
        "agent"@,
        "model"@,
        "effort"@,
        "hooks"@,
        "shell"@,
        "paths"@,
    ]
}

/// The informational fields present in `fm`, in the order of
/// `unsupported_fields`.
pub open spec fn present_fields(fm: Seq<FrontmatterEntryView>, fields: Seq<Seq<char>>) -> Seq<Seq<char>>
    decreases fields.len(),
{
    if fields.len() == 0 {
        Seq::empty()
    } else if value_for(fm, fields.last()) is Some {
        present_fields(fm, fields.drop_last()).push(fields.last())
    } else {
        present_fields(fm, fields.drop_last())
    }
}

/// What a skill file declares.
pub ghost struct SkillFields {
    pub display_name: Option<Seq<char>>,
    pub description: Seq<char>,
    pub when_to_use: Option<Seq<char>>,
    pub argument_hint: Option<Seq<char>>,
    pub argument_names: Seq<Seq<char>>,
    pub version: Option<Seq<char>>,
    pub model_invocable: bool,
    pub user_invocable: bool,
    pub body: Seq<char>,
    pub informational: Seq<Seq<char>>,
}

/// Reads a skill file: its frontmatter fields, in order, each of which may
/// be malformed; a blank or missing description falls back to the body.
pub open spec fn parse_skill_spec(raw: Seq<char>) -> Result<SkillFields, Seq<char>> {
    match split_frontmatter_spec(raw) {
        Err(e) => Err(e),
        Ok((fm, body)) => match scalar_spec(value_for(fm, "name"@), "name"@) {
            Err(e) => Err(e),
            Ok(display_name) => match scalar_spec(value_for(fm, "description"@), "description"@) {
                Err(e) => Err(e),
                Ok(given) => match scalar_spec(value_for(fm, "when_to_use"@), "when_to_use"@) {
                    Err(e) => Err(e),
                    Ok(when_to_use) => match scalar_spec(value_for(fm, "argument-hint"@), "argument-hint"@) {
                        Err(e) => Err(e),
                        Ok(argument_hint) => match argument_names_spec(value_for(fm, "arguments"@)) {
                            Err(e) => Err(e),
                            Ok(argument_names) => match scalar_spec(value_for(fm, "version"@), "version"@) {
                                Err(e) => Err(e),
                                Ok(version) => match bool_spec(
                                    value_for(fm, "disable-model-invocation"@),
                                    false,
                                    "disable-model-invocation"@,
                                ) {
                                    Err(e) => Err(e),
                                    Ok(disabled) => match bool_spec(
                                        value_for(fm, "user-invocable"@),
                                        true,
                                        "user-invocable"@,
                                    ) {
                                        Err(e) => Err(e),
                                        Ok(user_invocable) => Ok(
                                            SkillFields {
                                                display_name,
                                                description: match given {
                                                    Some(d) => if trim(d).len() > 0 {
                                                        d
                                                    } else {
                                                        markdown_description(body)
                                                    },
                                                    None => markdown_description(body),
                                                },
                                                when_to_use,
                                                argument_hint,
                                                argument_names,
                                                version,
                                                model_invocable: !disabled,
                                                user_invocable,
                                                body,
                                                informational: present_fields(fm, unsupported_fields()),
                                            },
                                        ),
                                    },
                                },
                            },
                        },
                    },
                },
            },
        },
    }
}

/// The warning for an informational frontmatter field.
pub open spec fn informational_message(field: Seq<char>) -> Seq<char> {
    "frontmatter field "@ + debug_str(field) + " is informational and is not enforced"@
}

fn unsupported_field_names() -> (r: Vec<&'static str>)
    ensures
        r@.len() == unsupported_fields().len(),
        forall|i: int| 0 <= i < r@.len() ==> (#[trigger] r@[i])@ == unsupported_fields()[i],
{
    let mut r: Vec<&'static str> = Vec::new();
    r.push("allowed-tools");
    r.push("context");
    r.push("agent");
    r.push("model");
    r.push("effort");
    r.push("hooks");
    r.push("shell");
    r.push("paths");
    r
}

/// Parses a skill file named `name`, at `path` in `base_dir`, from a
/// directory labelled `source`. Informational frontmatter fields are
/// reported in `diagnostics`.
pub fn parse_skill(
    name: &str,
    path: &str,
    base_dir: &str,
    source: &Option<String>,
    raw: &str,
    diagnostics: &mut Vec<SkillDiagnostic>,
) -> (r: Result<LoadedSkill, String>)
    ensures
        match parse_skill_spec(raw@) {
            Err(e) => (r matches Err(x) && x@ == e) && final(diagnostics)@ == old(diagnostics)@,
            Ok(f) => (r matches Ok(s) && s.metadata.name@ == name@ && opt_text(s.metadata.display_name) == f.display_name
                && s.metadata.description@ == f.description && opt_text(s.metadata.when_to_use) == f.when_to_use
                && opt_text(s.metadata.argument_hint) == f.argument_hint && string_views(s.metadata.argument_names@)
                == f.argument_names && opt_text(s.metadata.version) == f.version && s.metadata.model_invocable
                == f.model_invocable && s.metadata.user_invocable == f.user_invocable && s.metadata.source
                == *source && s.metadata.path@ == path@ && s.body@ == f.body && s.base_dir@ == base_dir@)
                && final(diagnostics)@.len() == old(diagnostics)@.len() + f.informational.len()
                && final(diagnostics)@.take(old(diagnostics)@.len() as int) == old(diagnostics)@
                && forall|k: int| 0 <= k < f.informational.len() ==> {
                    let d = #[trigger] final(diagnostics)@[old(diagnostics)@.len() + k];
                    &&& d.level == crate::skill_catalog::DiagnosticLevel::Warning
                    &&& d.code@ == "unsupported_frontmatter"@
                    &&& d.path matches Some(p) && p@ == path@
                    &&& d.message@ == informational_message(f.informational[k])
                },
        },
{
    let (fm, body) = match split_frontmatter(raw) {
        Ok(x) => x,
        Err(e) => {
            return Err(e);
        },
    };
    let display_name = match optional_scalar(&fm, "name") {
        Ok(x) => x,
        Err(e) => {
            return Err(e);
        },
    };
    let given = match optional_scalar(&fm, "description") {
        Ok(x) => x,
        Err(e) => {
            return Err(e);
        },
    };
    let when_to_use = match optional_scalar(&fm, "when_to_use") {
        Ok(x) => x,
        Err(e) => {
            return Err(e);
        },
    };
    let argument_hint = match optional_scalar(&fm, "argument-hint") {
        Ok(x) => x,
        Err(e) => {
            return Err(e);
        },
    };
    let argument_names = match parse_argument_names(find_value(&fm, "arguments")) {
        Ok(x) => x,
        Err(e) => {
            return Err(e);
        },
    };
    let version = match optional_scalar(&fm, "version") {
        Ok(x) => x,
        Err(e) => {
            return Err(e);
        },
    };
    let disabled = match bool_field(
        find_value(&fm, "disable-model-invocation"),
        false,
        "disable-model-invocation",
    ) {
        Ok(x) => x,
        Err(e) => {
            return Err(e);
        },
    };
    let user_invocable = match bool_field(find_value(&fm, "user-invocable"), true, "user-invocable") {
        Ok(x) => x,
        Err(e) => {
            return Err(e);
        },
    };
    let description = match given {
        Some(d) => {
            proof {
                crate::text::lemma_trim_empty_iff_blank(d@);
            }
            if !is_blank(d.as_str()) {
                d
            } else {
                description_from_markdown(body.as_str())
            }
        },
        None => description_from_markdown(body.as_str()),
    };
    let fields = unsupported_field_names();
    let ghost fmv = entries_view(fm@);
    let ghost start = diagnostics@;
    let mut i: usize = 0;
    while i < fields.len()
        invariant
            i <= fields@.len(),
            fields@.len() == unsupported_fields().len(),
            forall|j: int| 0 <= j < fields@.len() ==> (#[trigger] fields@[j])@ == unsupported_fields()[j],
            fmv == entries_view(fm@),
            diagnostics@.len() == start.len() + present_fields(fmv, unsupported_fields().take(i as int)).len(),
            diagnostics@.take(start.len() as int) == start,
            forall|k: int| 0 <= k < present_fields(fmv, unsupported_fields().take(i as int)).len() ==> {
                let d = #[trigger] diagnostics@[start.len() + k];
                &&& d.level == crate::skill_catalog::DiagnosticLevel::Warning
                &&& d.code@ == "unsupported_frontmatter"@
                &&& d.path matches Some(p) && p@ == path@
                &&& d.message@ == informational_message(present_fields(fmv, unsupported_fields().take(i as int))[k])
            },
        decreases fields.len() - i,
    {
        let field = fields[i];
        proof {
            let t = unsupported_fields().take(i + 1);
            assert(t.drop_last() == unsupported_fields().take(i as int));
            assert(t.last() == field@);
        }
        if find_value(&fm, field).is_some() {
            let mut m = owned("frontmatter field ");
            let q = debug_string(field);
            push_str(&mut m, q.as_str());
            push_str(&mut m, " is informational and is not enforced");
            let d = SkillDiagnostic::warning("unsupported_frontmatter", Some(owned(path)), m);
            diagnostics.push(d);
        }
        i += 1;
    }
    proof {
        assert(unsupported_fields().take(unsupported_fields().len() as int) == unsupported_fields());
    }
    Ok(
        LoadedSkill {
            metadata: SkillMetadata {
                name: owned(name),
                display_name,
                description,
                when_to_use,
                argument_hint,
                argument_names,
                version,
                model_invocable: !disabled,
                user_invocable,
                source: crate::types::copy_opt_str(source),
                path: owned(path),
            },
            body,
            base_dir: owned(base_dir),
        },
    )
}

} // verus!
