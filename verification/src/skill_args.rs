//! Skill arguments: shell-like splitting of an argument string and the
//! substitution of `$ARGUMENTS`, `$ARGUMENTS[n]`, `$n` and `$name`
//! placeholders in a skill body.
use vstd::prelude::*;

use crate::text::{
    char_is_whitespace, chars_of, find_in_rest, first_match, is_digit, is_ws, occurs_at,
    occurs_at_exec, parse_u64, parse_u64_spec, push_char, push_str, starts_with,
};

verus! {

broadcast use vstd::string::group_string_axioms;

/// The quoting state of the argument splitter: `0` outside quotes, `1`
/// inside single quotes, `2` inside double quotes.
pub ghost struct SplitState {
    pub quote: int,
    pub escaped: bool,
    pub started: bool,
    pub current: Seq<char>,
    pub values: Seq<Seq<char>>,
}

pub open spec fn split_start() -> SplitState {
    SplitState { quote: 0, escaped: false, started: false, current: Seq::empty(), values: Seq::empty() }
}

/// One character of the argument splitter: a backslash escapes the next
/// character outside single quotes; quotes group text; white space outside
/// quotes ends an argument; anything else is kept.
pub open spec fn split_step(st: SplitState, c: char) -> SplitState {
    if st.escaped {
        SplitState { current: st.current.push(c), started: true, escaped: false, ..st }
    } else if c == '\\' && st.quote != 1 {
        SplitState { escaped: true, ..st }
    } else if c == '\'' && st.quote == 0 {
        SplitState { quote: 1, started: true, ..st }
    } else if c == '\'' && st.quote == 1 {
        SplitState { quote: 0, ..st }
    } else if c == '"' && st.quote == 0 {
        SplitState { quote: 2, started: true, ..st }
    } else if c == '"' && st.quote == 2 {
        SplitState { quote: 0, ..st }
    } else if st.quote == 0 && is_ws(c) {
        if st.started {
            SplitState {
                values: st.values.push(st.current),
                current: Seq::empty(),
                started: false,
                ..st
            }
        } else {
            st
        }
    } else {
        SplitState { current: st.current.push(c), started: true, ..st }
    }
}

pub open spec fn split_fold(s: Seq<char>) -> SplitState
    decreases s.len(),
{
    if s.len() == 0 {
        split_start()
    } else {
        split_step(split_fold(s.drop_last()), s.last())
    }
}

/// The words of `s` separated by white space (`str::split_whitespace`):
/// the finished words, the word in progress, and whether one is.
pub open spec fn words_fold(s: Seq<char>) -> (Seq<Seq<char>>, Seq<char>, bool)
    decreases s.len(),
{
    if s.len() == 0 {
        (Seq::empty(), Seq::empty(), false)
    } else {
        let (done, cur, inword) = words_fold(s.drop_last());
        let c = s.last();
        if is_ws(c) {
            if inword {
                (done.push(cur), Seq::empty(), false)
            } else {
                (done, cur, false)
            }
        } else {
            (done, cur.push(c), true)
        }
    }
}

pub open spec fn split_whitespace_spec(s: Seq<char>) -> Seq<Seq<char>> {
    let (done, cur, inword) = words_fold(s);
    if inword {
        done.push(cur)
    } else {
        done
    }
}

/// The arguments of `s`: shell-like words, or the plain white-space
/// separated words when a quote is left open.
pub open spec fn parse_arguments_spec(s: Seq<char>) -> Seq<Seq<char>> {
    let st = split_fold(s);
    let cur = if st.escaped {
        st.current.push('\\')
    } else {
        st.current
    };
    if st.quote != 0 {
        split_whitespace_spec(s)
    } else if st.started {
        st.values.push(cur)
    } else {
        st.values
    }
}

/// The strings of `v` are the texts `t`, in order.
pub open spec fn strings_are(v: Seq<String>, t: Seq<Seq<char>>) -> bool {
    v.len() == t.len() && forall|i: int| 0 <= i < v.len() ==> (#[trigger] v[i])@ == t[i]
}

/// The white-space separated words of `s` (`str::split_whitespace`).
pub fn split_whitespace(s: &str) -> (r: Vec<String>)
    ensures
        strings_are(r@, split_whitespace_spec(s@)),
{
    let v = chars_of(s);
    let mut done: Vec<String> = Vec::new();
    let mut cur = String::new();
    let mut inword = false;
    let mut i: usize = 0;
    while i < v.len()
        invariant
            i <= v@.len(),
            v@ == s@,
            ({
                let (d, c, w) = words_fold(v@.take(i as int));
                strings_are(done@, d) && cur@ == c && inword == w
            }),
        decreases v.len() - i,
    {
        let c = v[i];
        proof {
            assert(v@.take(i + 1).drop_last() == v@.take(i as int));
            assert(v@.take(i + 1).last() == c);
        }
        if char_is_whitespace(c) {
            if inword {
                let finished = cur;
                done.push(finished);
                cur = String::new();
            }
            inword = false;
        } else {
            push_char(&mut cur, c);
            inword = true;
        }
        i += 1;
    }
    if inword {
        done.push(cur);
    }
    proof {
        assert(v@.take(v@.len() as int) == v@);
    }
    done
}

/// Splits an argument string like a shell would: single and double quotes
/// group words, a backslash escapes the next character (not inside single
/// quotes); with an unbalanced quote the plain words are used instead.
pub fn parse_arguments(arguments: &str) -> (r: Vec<String>)
    ensures
        strings_are(r@, parse_arguments_spec(arguments@)),
{
    let v = chars_of(arguments);
    let mut values: Vec<String> = Vec::new();
    let mut current = String::new();
    let mut quote: u8 = 0;
    let mut escaped = false;
    let mut started = false;
    let mut i: usize = 0;
    while i < v.len()
        invariant
            i <= v@.len(),
            v@ == arguments@,
            ({
                let st = split_fold(v@.take(i as int));
                strings_are(values@, st.values) && current@ == st.current && quote == st.quote
                    && escaped == st.escaped && started == st.started
            }),
        decreases v.len() - i,
    {
        let c = v[i];
        proof {
            assert(v@.take(i + 1).drop_last() == v@.take(i as int));
            assert(v@.take(i + 1).last() == c);
        }
        if escaped {
            push_char(&mut current, c);
            started = true;
            escaped = false;
        } else if c == '\\' && quote != 1 {
            escaped = true;
        } else if c == '\'' && quote == 0 {
            quote = 1;
            started = true;
        } else if c == '\'' && quote == 1 {
            quote = 0;
        } else if c == '"' && quote == 0 {
            quote = 2;
            started = true;
        } else if c == '"' && quote == 2 {
            quote = 0;
        } else if quote == 0 && char_is_whitespace(c) {
            if started {
                let finished = current;
                values.push(finished);
                current = String::new();
                started = false;
            }
        } else {
            push_char(&mut current, c);
            started = true;
        }
        i += 1;
    }
    proof {
        assert(v@.take(v@.len() as int) == v@);
    }
    if escaped {
        push_char(&mut current, '\\');
    }
    if quote != 0 {
        return split_whitespace(arguments);
    }
    if started {
        values.push(current);
    }
    values
}

/// A word byte of a placeholder name: an ASCII letter or digit, or `_`.
pub open spec fn is_word_char(c: char) -> bool {
    ('a' <= c && c <= 'z') || ('A' <= c && c <= 'Z') || ('0' <= c && c <= '9') || c == '_'
}

fn is_word_char_exec(c: char) -> (r: bool)
    ensures
        r == is_word_char(c),
{
    ('a' <= c && c <= 'z') || ('A' <= c && c <= 'Z') || ('0' <= c && c <= '9') || c == '_'
}

/// The argument at `index`, or the empty text.
pub open spec fn value_at(values: Seq<Seq<char>>, index: int) -> Seq<char> {
    if 0 <= index < values.len() {
        values[index]
    } else {
        Seq::empty()
    }
}

/// The number of leading ASCII digits of `s`.
pub open spec fn leading_digits(s: Seq<char>) -> nat
    decreases s.len(),
{
    if s.len() > 0 && is_digit(s[0]) {
        1 + leading_digits(s.drop_first())
    } else {
        0
    }
}

/// `str::parse::<usize>` of a run of digits.
pub open spec fn parse_index(s: Seq<char>) -> Option<int> {
    match parse_u64_spec(s) {
        Some(n) => if n <= usize::MAX {
            Some(n as int)
        } else {
            None
        },
        None => None,
    }
}

/// What follows a placeholder name may not continue it: nothing, or a
/// character that is neither a word character nor, when `bracket` is set,
/// `[`.
pub open spec fn ends_name(c: Seq<char>, at: int, bracket: bool) -> bool {
    at >= c.len() || (!is_word_char(c[at]) && !(bracket && c[at] == '['))
}

pub open spec fn all_digit_chars(s: Seq<char>) -> bool {
    forall|i: int| 0 <= i < s.len() ==> is_digit(#[trigger] s[i])
}

/// The first `$name` of `names`, from `k` on, that `c` starts with.
pub open spec fn named_placeholder(
    c: Seq<char>,
    parsed: Seq<Seq<char>>,
    names: Seq<Seq<char>>,
    k: int,
) -> Option<(int, Seq<char>)>
    decreases names.len() - k,
{
    if k < 0 || k >= names.len() {
        None
    } else {
        let token = seq!['$'] + names[k];
        if starts_with(c, token) && ends_name(c, token.len() as int, true) {
            Some((token.len() as int, value_at(parsed, k)))
        } else {
            named_placeholder(c, parsed, names, k + 1)
        }
    }
}

/// The placeholder that `c` starts with, as its length and replacement:
/// `$ARGUMENTS[n]` is the `n`-th argument, `$ARGUMENTS` all of them, `$n`
/// the `n`-th argument, and `$name` the argument at the position of `name`;
/// an index that overflows ends the match with none.
pub open spec fn placeholder_spec(
    c: Seq<char>,
    all: Seq<char>,
    parsed: Seq<Seq<char>>,
    names: Seq<Seq<char>>,
) -> Option<(int, Seq<char>)> {
    let indexed = "$ARGUMENTS["@;
    let whole = "$ARGUMENTS"@;
    let after = c.skip(indexed.len() as int);
    let close = first_match(after, seq![']']);
    let d = leading_digits(c.skip(1)) as int;
    if starts_with(c, indexed) && close is Some && close->0 > 0 && all_digit_chars(
        after.take(close->0),
    ) {
        match parse_index(after.take(close->0)) {
            Some(i) => Some((indexed.len() + close->0 + 1, value_at(parsed, i))),
            None => None,
        }
    } else if starts_with(c, whole) && ends_name(c, whole.len() as int, true) {
        Some((whole.len() as int, all))
    } else if c.len() > 0 && c[0] == '$' && d > 0 && ends_name(c, 1 + d, false) {
        match parse_index(c.subrange(1, 1 + d)) {
            Some(i) => Some((d + 1, value_at(parsed, i))),
            None => None,
        }
    } else {
        named_placeholder(c, parsed, names, 0)
    }
}

/// `content` with its placeholders replaced, scanning left to right, and
/// whether any was.
pub open spec fn substituted(
    c: Seq<char>,
    all: Seq<char>,
    parsed: Seq<Seq<char>>,
    names: Seq<Seq<char>>,
) -> (Seq<char>, bool)
    decreases c.len(),
{
    if c.len() == 0 {
        (Seq::empty(), false)
    } else {
        match placeholder_spec(c, all, parsed, names) {
            Some((n, rep)) => if c[0] == '$' && 1 <= n <= c.len() {
                (rep + substituted(c.skip(n), all, parsed, names).0, true)
            } else {
                let rest = substituted(c.skip(1), all, parsed, names);
                (seq![c[0]] + rest.0, rest.1)
            },
            None => {
                let rest = substituted(c.skip(1), all, parsed, names);
                (seq![c[0]] + rest.0, rest.1)
            },
        }
    }
}

/// The rendered text for optional arguments: without arguments the content
/// as it is; otherwise with its placeholders replaced, and the arguments
/// appended when nothing was replaced and they are not empty.
pub open spec fn substitute_spec(
    content: Seq<char>,
    arguments: Option<Seq<char>>,
    names: Seq<Seq<char>>,
) -> Seq<char> {
    match arguments {
        None => content,
        Some(a) => {
            let (text, replaced) = substituted(content, a, parse_arguments_spec(a), names);
            if !replaced && a.len() > 0 {
                text + ARGUMENTS_TRAILER@ + a
            } else {
                text
            }
        },
    }
}

proof fn lemma_starts_with_skip(v: Seq<char>, p: Seq<char>, at: int)
    requires
        0 <= at <= v.len(),
    ensures
        starts_with(v.skip(at), p) == occurs_at(v, p, at),
{
    if p.len() <= v.len() - at {
        assert(v.skip(at).take(p.len() as int) == v.subrange(at, at + p.len()));
    }
}

fn starts_at(v: &Vec<char>, at: usize, p: &Vec<char>) -> (r: bool)
    requires
        at <= v@.len(),
    ensures
        r == starts_with(v@.skip(at as int), p@),
{
    proof {
        lemma_starts_with_skip(v@, p@, at as int);
    }
    occurs_at_exec(v, p, at)
}

fn ends_name_exec(v: &Vec<char>, at: usize, bracket: bool) -> (r: bool)
    ensures
        r == ends_name(v@, at as int, bracket),
{
    at >= v.len() || (!is_word_char_exec(v[at]) && !(bracket && v[at] == '['))
}

fn value_at_exec(values: &Vec<String>, index: usize) -> (r: String)
    ensures
        forall|t: Seq<Seq<char>>| strings_are(values@, t) ==> r@ == value_at(t, index as int),
{
    if index < values.len() {
        values[index].clone()
    } else {
        String::new()
    }
}

proof fn lemma_leading_digits(s: Seq<char>, k: int)
    requires
        0 <= k <= s.len(),
        forall|i: int| 0 <= i < k ==> is_digit(#[trigger] s[i]),
        k == s.len() || !is_digit(s[k]),
    ensures
        leading_digits(s) == k,
    decreases k,
{
    if k > 0 {
        assert forall|i: int| 0 <= i < k - 1 implies is_digit(#[trigger] s.drop_first()[i]) by {
            assert(s.drop_first()[i] == s[i + 1]);
        }
        if k < s.len() {
            assert(s.drop_first()[k - 1] == s[k]);
        }
        lemma_leading_digits(s.drop_first(), k - 1);
    }
}

fn parse_index_exec(v: &Vec<char>, from: usize, to: usize) -> (r: Option<usize>)
    requires
        from <= to <= v@.len(),
    ensures
        match (r, parse_index(v@.subrange(from as int, to as int))) {
            (Some(i), Some(j)) => i == j,
            (None, None) => true,
            _ => false,
        },
{
    match parse_u64(v, from, to) {
        Some(n) => {
            if n as u128 <= usize::MAX as u128 {
                Some(n as usize)
            } else {
                None
            }
        },
        None => None,
    }
}

fn dollar_name(name: &String) -> (r: Vec<char>)
    ensures
        r@ == seq!['$'] + name@,
{
    let n = chars_of(name.as_str());
    let mut r: Vec<char> = Vec::new();
    r.push('$');
    let mut i: usize = 0;
    while i < n.len()
        invariant
            i <= n@.len(),
            n@ == name@,
            r@ == seq!['$'] + n@.take(i as int),
        decreases n.len() - i,
    {
        r.push(n[i]);
        i += 1;
        assert(n@.take(i as int) == n@.take(i - 1).push(n@[i - 1]));
    }
    assert(n@.take(n@.len() as int) == n@);
    r
}

/// The texts of the strings of `v`.
pub open spec fn string_views(v: Seq<String>) -> Seq<Seq<char>> {
    Seq::new(v.len(), |i: int| v[i]@)
}

pub proof fn lemma_strings_are_views(v: Seq<String>, t: Seq<Seq<char>>)
    requires
        strings_are(v, t),
    ensures
        string_views(v) == t,
{
    assert(string_views(v) =~= t);
}

proof fn lemma_ends_name_skip(v: Seq<char>, cursor: int, at: int, bracket: bool)
    requires
        0 <= cursor <= v.len(),
        0 <= at,
    ensures
        ends_name(v.skip(cursor), at, bracket) == ends_name(v, cursor + at, bracket),
{
    if cursor + at < v.len() {
        assert(v.skip(cursor)[at] == v[cursor + at]);
    }
}

fn all_digits_between(v: &Vec<char>, from: usize, to: usize) -> (r: bool)
    requires
        from <= to <= v@.len(),
    ensures
        r == all_digit_chars(v@.subrange(from as int, to as int)),
{
    let mut i = from;
    while i < to
        invariant
            from <= i <= to <= v@.len(),
            forall|k: int| from <= k < i ==> is_digit(#[trigger] v@[k]),
        decreases to - i,
    {
        if !('0' <= v[i] && v[i] <= '9') {
            assert(!is_digit(v@.subrange(from as int, to as int)[i - from]));
            return false;
        }
        i += 1;
    }
    assert forall|k: int| 0 <= k < to - from implies is_digit(
        #[trigger] v@.subrange(from as int, to as int)[k],
    ) by {
        assert(v@.subrange(from as int, to as int)[k] == v@[from + k]);
    }
    true
}

fn count_digits(v: &Vec<char>, from: usize) -> (r: usize)
    requires
        from <= v@.len(),
    ensures
        from + r <= v@.len(),
        r == leading_digits(v@.skip(from as int)),
{
    let mut i = from;
    while i < v.len() && '0' <= v[i] && v[i] <= '9'
        invariant
            from <= i <= v@.len(),
            forall|k: int| from <= k < i ==> is_digit(#[trigger] v@[k]),
        decreases v.len() - i,
    {
        i += 1;
    }
    proof {
        let s = v@.skip(from as int);
        assert forall|k: int| 0 <= k < i - from implies is_digit(#[trigger] s[k]) by {
            assert(s[k] == v@[from + k]);
        }
        if i < v.len() {
            assert(s[i - from] == v@[i as int]);
        }
        lemma_leading_digits(s, i - from);
    }
    i - from
}

/// The placeholder that `content[cursor..]` starts with.
fn placeholder(
    content: &Vec<char>,
    cursor: usize,
    all: &str,
    parsed: &Vec<String>,
    names: &Vec<String>,
    Ghost(t): Ghost<Seq<Seq<char>>>,
) -> (r: Option<(usize, String)>)
    requires
        cursor <= content@.len(),
        strings_are(parsed@, t),
    ensures
        match (r, placeholder_spec(content@.skip(cursor as int), all@, t, string_views(names@))) {
            (Some((n, s)), Some((m, u))) => n == m && s@ == u,
            (None, None) => true,
            _ => false,
        },
{
    let ghost c = content@.skip(cursor as int);
    let ghost ns = string_views(names@);
    let indexed = chars_of("$ARGUMENTS[");
    let whole = chars_of("$ARGUMENTS");
    proof {
        reveal_strlit("$ARGUMENTS[");
        reveal_strlit("$ARGUMENTS");
    }
    let mut close_bracket: Vec<char> = Vec::new();
    close_bracket.push(']');
    if starts_at(content, cursor, &indexed) {
        proof {
            assert(indexed@.len() == 11);
            assert(content@.len() == content.len());
        }
        let start = cursor + 11;
        proof {
            assert(c.skip(11) == content@.skip(start as int));
            assert(close_bracket@ == seq![']']);
        }
        match find_in_rest(content, &close_bracket, start) {
            Some(p) => {
                let close = p - start;
                proof {
                    assert(content@.skip(start as int).take(close as int) == content@.subrange(
                        start as int,
                        p as int,
                    ));
                }
                if close > 0 && all_digits_between(content, start, p) {
                    return match parse_index_exec(content, start, p) {
                        Some(i) => Some((11 + close + 1, value_at_exec(parsed, i))),
                        None => None,
                    };
                }
            },
            None => {},
        }
    }
    proof {
        lemma_ends_name_skip(content@, cursor as int, 10, true);
    }
    if starts_at(content, cursor, &whole) {
        proof {
            assert(whole@.len() == 10);
            assert(content@.len() == content.len());
        }
        if ends_name_exec(content, cursor + 10, true) {
            return Some((10, crate::text::owned(all)));
        }
    }
    if cursor < content.len() && content[cursor] == '$' {
        let d = count_digits(content, cursor + 1);
        proof {
            assert(c.skip(1) == content@.skip(cursor + 1));
            lemma_ends_name_skip(content@, cursor as int, 1 + d, false);
            assert(c.subrange(1, 1 + d) == content@.subrange(cursor + 1, cursor + 1 + d));
        }
        if d > 0 && ends_name_exec(content, cursor + 1 + d, false) {
            return match parse_index_exec(content, cursor + 1, cursor + 1 + d) {
                Some(i) => Some((d + 1, value_at_exec(parsed, i))),
                None => None,
            };
        }
    }
    let mut k: usize = 0;
    while k < names.len()
        invariant
            k <= names@.len(),
            cursor <= content@.len(),
            c == content@.skip(cursor as int),
            ns == string_views(names@),
            strings_are(parsed@, t),
            placeholder_spec(c, all@, t, ns) == named_placeholder(c, t, ns, 0),
            named_placeholder(c, t, ns, 0) == named_placeholder(c, t, ns, k as int),
        decreases names.len() - k,
    {
        let token = dollar_name(&names[k]);
        proof {
            lemma_ends_name_skip(content@, cursor as int, token@.len() as int, true);
        }
        if starts_at(content, cursor, &token) {
            proof {
                assert(content@.len() == content.len());
            }
            if ends_name_exec(content, cursor + token.len(), true) {
                return Some((token.len(), value_at_exec(parsed, k)));
            }
        }
        k += 1;
    }
    None
}

pub const ARGUMENTS_TRAILER: &'static str = "\n\nARGUMENTS: ";

proof fn lemma_placeholder_len(c: Seq<char>, all: Seq<char>, t: Seq<Seq<char>>, ns: Seq<Seq<char>>)
    ensures
        placeholder_spec(c, all, t, ns) matches Some((n, _)) ==> 1 <= n <= c.len(),
{
    lemma_named_len(c, t, ns, 0);
    reveal_strlit("$ARGUMENTS[");
    reveal_strlit("$ARGUMENTS");
    if c.len() > 0 {
        lemma_leading_digits_bound(c.skip(1));
    }
    if starts_with(c, "$ARGUMENTS["@) {
        let after = c.skip(11);
        match first_match(after, seq![']']) {
            Some(close) => {
                crate::text::lemma_first_match_occurs(after, seq![']']);
            },
            None => {},
        }
    }
}

proof fn lemma_leading_digits_bound(s: Seq<char>)
    ensures
        leading_digits(s) <= s.len(),
    decreases s.len(),
{
    if s.len() > 0 && is_digit(s[0]) {
        lemma_leading_digits_bound(s.drop_first());
    }
}

proof fn lemma_named_len(c: Seq<char>, t: Seq<Seq<char>>, ns: Seq<Seq<char>>, k: int)
    ensures
        named_placeholder(c, t, ns, k) matches Some((n, _)) ==> 1 <= n <= c.len(),
    decreases ns.len() - k,
{
    if 0 <= k < ns.len() {
        lemma_named_len(c, t, ns, k + 1);
    }
}

/// Replaces the placeholders of `content` with the given arguments; see
/// `substitute_spec`.
pub fn substitute_arguments(content: &str, arguments: Option<&str>, names: &Vec<String>) -> (r:
    String)
    ensures
        r@ == substitute_spec(
            content@,
            match arguments {
                Some(a) => Some(a@),
                None => None,
            },
            string_views(names@),
        ),
{
    let args = match arguments {
        Some(a) => a,
        None => {
            return crate::text::owned(content);
        },
    };
    let parsed = parse_arguments(args);
    let ghost t = parse_arguments_spec(args@);
    let ghost ns = string_views(names@);
    let v = chars_of(content);
    let mut rendered = String::new();
    let mut cursor: usize = 0;
    let mut replaced = false;
    proof {
        assert(v@.skip(0) == v@);
        assert(rendered@ + substituted(v@, args@, t, ns).0 == substituted(v@, args@, t, ns).0);
    }
    while cursor < v.len()
        invariant
            cursor <= v@.len(),
            v@ == content@,
            strings_are(parsed@, t),
            t == parse_arguments_spec(args@),
            ns == string_views(names@),
            rendered@ + substituted(v@.skip(cursor as int), args@, t, ns).0 == substituted(
                v@,
                args@,
                t,
                ns,
            ).0,
            (replaced || substituted(v@.skip(cursor as int), args@, t, ns).1) == substituted(
                v@,
                args@,
                t,
                ns,
            ).1,
        decreases v.len() - cursor,
    {
        let ghost c = v@.skip(cursor as int);
        proof {
            lemma_placeholder_len(c, args@, t, ns);
        }
        if v[cursor] == '$' {
            match placeholder(&v, cursor, args, &parsed, names, Ghost(t)) {
                Some((n, rep)) => {
                    proof {
                        assert(c.skip(n as int) == v@.skip(cursor + n));
                        assert(rendered@ + rep@ + substituted(c.skip(n as int), args@, t, ns).0
                            == rendered@ + (rep@ + substituted(c.skip(n as int), args@, t, ns).0));
                    }
                    push_str(&mut rendered, rep.as_str());
                    cursor = cursor + n;
                    replaced = true;
                    continue;
                },
                None => {},
            }
        }
        let ch = v[cursor];
        proof {
            assert(c.skip(1) == v@.skip(cursor + 1));
            assert(c[0] == ch);
            assert(rendered@.push(ch) + substituted(c.skip(1), args@, t, ns).0 == rendered@ + (
            seq![ch] + substituted(c.skip(1), args@, t, ns).0));
        }
        push_char(&mut rendered, ch);
        cursor = cursor + 1;
    }
    proof {
        assert(v@.skip(v@.len() as int).len() == 0);
        assert(rendered@ + Seq::<char>::empty() == rendered@);
    }
    let arg_chars = chars_of(args);
    if !replaced && arg_chars.len() > 0 {
        push_str(&mut rendered, ARGUMENTS_TRAILER);
        push_str(&mut rendered, args);
    }
    rendered
}

/// The splitter run from state `st` over `s`.
pub open spec fn split_from(st: SplitState, s: Seq<char>) -> SplitState
    decreases s.len(),
{
    if s.len() == 0 {
        st
    } else {
        split_step(split_from(st, s.drop_last()), s.last())
    }
}

/// Splitting `a + b` is splitting `b` from where `a` left off.
proof fn lemma_split_fold_concat(a: Seq<char>, b: Seq<char>)
    ensures
        split_fold(a + b) == split_from(split_fold(a), b),
    decreases b.len(),
{
    if b.len() == 0 {
        assert(a + b =~= a);
    } else {
        lemma_split_fold_concat(a, b.drop_last());
        assert((a + b).drop_last() =~= a + b.drop_last());
        assert((a + b).last() == b.last());
    }
}

/// A character with no quoting role: neither a backslash nor a quote.
pub open spec fn is_plain_char(c: char) -> bool {
    c != '\\' && c != '\'' && c != '"'
}

/// Plain characters are appended to the current argument, inside quotes
/// whatever they are, and outside quotes when they are not white space.
proof fn lemma_split_plain_run(st: SplitState, t: Seq<char>)
    requires
        !st.escaped,
        st.quote == 0 || st.quote == 1 || st.quote == 2,
        forall|i: int| 0 <= i < t.len() ==> is_plain_char(#[trigger] t[i]),
        st.quote == 0 ==> forall|i: int| 0 <= i < t.len() ==> !is_ws(#[trigger] t[i]),
    ensures
        t.len() == 0 ==> split_from(st, t) == st,
        t.len() > 0 ==> split_from(st, t) == (SplitState { current: st.current + t, started: true, ..st }),
    decreases t.len(),
{
    if t.len() > 0 {
        let u = t.drop_last();
        lemma_split_plain_run(st, u);
        assert(is_plain_char(t[t.len() - 1]));
        if st.quote == 0 {
            assert(!is_ws(t[t.len() - 1]));
        }
        assert(st.current + u + seq![t.last()] =~= st.current + t);
        assert((st.current + u).push(t.last()) =~= st.current + t);
        if u.len() == 0 {
            assert(st.current.push(t.last()) =~= st.current + t);
        }
    }
}

/// Quoting keeps white space inside an argument: after a first plain word
/// `a`, a double- or single-quoted plain text `t` is one more argument,
/// spaces and all.
pub proof fn lemma_quoted_argument_keeps_its_spaces(a: Seq<char>, t: Seq<char>)
    requires
        a.len() > 0,
        forall|i: int| 0 <= i < a.len() ==> is_plain_char(#[trigger] a[i]) && !is_ws(a[i]),
        forall|i: int| 0 <= i < t.len() ==> is_plain_char(#[trigger] t[i]),
    ensures
        parse_arguments_spec(a + seq![' ', '"'] + t + seq!['"']) == seq![a, t],
        parse_arguments_spec(a + seq![' ', '\''] + t + seq!['\'']) == seq![a, t],
{
    lemma_quoted_tail(a, t, '"', 2);
    lemma_quoted_tail(a, t, '\'', 1);
}

proof fn lemma_quoted_tail(a: Seq<char>, t: Seq<char>, q: char, code: int)
    requires
        a.len() > 0,
        forall|i: int| 0 <= i < a.len() ==> is_plain_char(#[trigger] a[i]) && !is_ws(a[i]),
        forall|i: int| 0 <= i < t.len() ==> is_plain_char(#[trigger] t[i]),
        (q == '"' && code == 2) || (q == '\'' && code == 1),
    ensures
        parse_arguments_spec(a + seq![' ', q] + t + seq![q]) == seq![a, t],
{
    let s = a + seq![' ', q] + t + seq![q];
    let s0 = split_start();
    assert(split_fold(Seq::<char>::empty()) == s0);
    lemma_split_fold_concat(Seq::empty(), a);
    assert(Seq::<char>::empty() + a =~= a);
    assert(forall|i: int| 0 <= i < a.len() ==> !is_ws(#[trigger] a[i]));
    lemma_split_plain_run(s0, a);
    let s1 = split_fold(a);
    assert(s0.current + a =~= a);
    assert(s1 == SplitState { quote: 0, escaped: false, started: true, current: a, values: Seq::empty() });
    // the space ends `a`
    let s2 = split_step(s1, ' ');
    assert(is_ws(' '));
    assert(s2 == SplitState { quote: 0, escaped: false, started: false, current: Seq::empty(), values: seq![a] });
    // the opening quote
    let s3 = split_step(s2, q);
    assert(s3 == SplitState { quote: code, escaped: false, started: true, current: Seq::empty(), values: seq![a] });
    lemma_split_plain_run(s3, t);
    let s4 = split_from(s3, t);
    assert(s4 == SplitState { quote: code, escaped: false, started: true, current: t, values: seq![a] }) by {
        if t.len() == 0 {
        } else {
            assert(Seq::<char>::empty() + t =~= t);
        }
    }
    let s5 = split_step(s4, q);
    assert(s5 == SplitState { quote: 0, escaped: false, started: true, current: t, values: seq![a] });
    // put the pieces together
    lemma_split_fold_concat(a, seq![' ', q]);
    assert(split_from(s1, seq![' ', q]) == s3) by {
        assert(seq![' ', q].drop_last() =~= seq![' ']);
        assert(seq![' '].drop_last() =~= Seq::<char>::empty());
        assert(split_from(s1, Seq::<char>::empty()) == s1);
        assert(split_from(s1, seq![' ']) == s2);
    }
    lemma_split_fold_concat(a + seq![' ', q], t);
    lemma_split_fold_concat(a + seq![' ', q] + t, seq![q]);
    assert(split_from(s4, seq![q]) == s5) by {
        assert(seq![q].drop_last() =~= Seq::<char>::empty());
        assert(split_from(s4, Seq::<char>::empty()) == s4);
    }
    assert(split_fold(s) == s5);
    assert(seq![a].push(t) =~= seq![a, t]);
}

/// Outside quotes, white space separates arguments and a backslash keeps
/// the next character, white space included, inside the argument: for
/// plain words `a` and `b` without white space, `a b` is the two
/// arguments `a` and `b`, and `a\ b` the one argument `a b`.
pub proof fn lemma_spaces_separate_unless_escaped(a: Seq<char>, b: Seq<char>)
    requires
        a.len() > 0,
        b.len() > 0,
        forall|i: int| 0 <= i < a.len() ==> is_plain_char(#[trigger] a[i]) && !is_ws(a[i]),
        forall|i: int| 0 <= i < b.len() ==> is_plain_char(#[trigger] b[i]) && !is_ws(b[i]),
    ensures
        parse_arguments_spec(a + seq![' '] + b) == seq![a, b],
        parse_arguments_spec(a + seq!['\\', ' '] + b) == seq![a + seq![' '] + b],
{
    let s0 = split_start();
    lemma_split_fold_concat(Seq::empty(), a);
    assert(Seq::<char>::empty() + a =~= a);
    assert(forall|i: int| 0 <= i < a.len() ==> !is_ws(#[trigger] a[i]));
    assert(forall|i: int| 0 <= i < b.len() ==> !is_ws(#[trigger] b[i]));
    lemma_split_plain_run(s0, a);
    let s1 = split_fold(a);
    assert(s0.current + a =~= a);
    assert(s1 == SplitState { quote: 0, escaped: false, started: true, current: a, values: Seq::empty() });
    assert(is_ws(' '));
    // separated
    let s2 = split_step(s1, ' ');
    assert(s2 == SplitState { quote: 0, escaped: false, started: false, current: Seq::empty(), values: seq![a] });
    lemma_split_fold_concat(a, seq![' ']);
    assert(split_from(s1, seq![' ']) == s2) by {
        assert(seq![' '].drop_last() =~= Seq::<char>::empty());
        assert(split_from(s1, Seq::<char>::empty()) == s1);
    }
    lemma_split_plain_run(s2, b);
    lemma_split_fold_concat(a + seq![' '], b);
    assert(Seq::<char>::empty() + b =~= b);
    assert(split_fold(a + seq![' '] + b) == SplitState {
        quote: 0,
        escaped: false,
        started: true,
        current: b,
        values: seq![a],
    });
    assert(seq![a].push(b) =~= seq![a, b]);
    // escaped
    let e1 = split_step(s1, '\\');
    assert(e1 == SplitState { escaped: true, ..s1 });
    let e2 = split_step(e1, ' ');
    assert(e2 == SplitState { quote: 0, escaped: false, started: true, current: a.push(' '), values: Seq::empty() });
    lemma_split_fold_concat(a, seq!['\\', ' ']);
    assert(split_from(s1, seq!['\\', ' ']) == e2) by {
        assert(seq!['\\', ' '].drop_last() =~= seq!['\\']);
        assert(seq!['\\'].drop_last() =~= Seq::<char>::empty());
        assert(split_from(s1, Seq::<char>::empty()) == s1);
        assert(split_from(s1, seq!['\\']) == e1);
    }
    lemma_split_plain_run(e2, b);
    lemma_split_fold_concat(a + seq!['\\', ' '], b);
    assert(a.push(' ') + b =~= a + seq![' '] + b);
    assert(split_fold(a + seq!['\\', ' '] + b) == SplitState {
        quote: 0,
        escaped: false,
        started: true,
        current: a + seq![' '] + b,
        values: Seq::empty(),
    });
    assert(Seq::<Seq<char>>::empty().push(a + seq![' '] + b) =~= seq![a + seq![' '] + b]);
}

} // verus!
