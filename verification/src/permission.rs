//! Session-scoped tool permission rules and anchored wildcard patterns.
use vstd::prelude::*;

use crate::text::{all_ws, byte_len, char_at, chars_of, is_blank, owned, push_char, push_str, utf8_len};

verus! {

broadcast use {vstd::string::group_string_axioms, vstd::seq::group_seq_axioms};

/// Maximum number of remembered permission rules attached to one Agent session.
pub const MAX_TOOL_PERMISSION_RULES: usize = 256;

/// Maximum UTF-8 size of one tool name in a permission rule.
pub const MAX_TOOL_PERMISSION_NAME_BYTES: usize = 256;

/// Maximum UTF-8 size of one argument pattern in a permission rule.
pub const MAX_TOOL_PERMISSION_PATTERN_BYTES: usize = 4096;

/// Maximum target size eligible for a remembered wildcard rule.
pub const MAX_TOOL_PERMISSION_TARGET_BYTES: usize = 65536;

/// A session-scoped exception to the Agent's automatic capability boundary.
///
/// Tool names are exact. `pattern = None` allows every invocation of that
/// tool; a pattern is interpreted by the tool implementation.
#[derive(Clone, Debug, PartialEq, Eq, Hash)]
pub struct ToolPermissionRule {
    pub tool_name: String,
    pub pattern: Option<String>,
}

/// Why a [`ToolPermissionRule`] is rejected.
#[derive(Clone, Debug, PartialEq, Eq)]
pub enum ToolPermissionRuleError {
    EmptyToolName,
    ToolNameTooLong { actual: usize, maximum: usize },
    EmptyPattern,
    PatternTooLong { actual: usize, maximum: usize },
}

/// Host decision for a pending tool permission request.
#[derive(Clone, Debug, PartialEq, Eq)]
pub enum ToolPermissionDecision {
    /// Permit only the current tool call.
    AllowOnce,
    /// Permit the current call and remember a matching rule in this session.
    AllowForSession { rule: ToolPermissionRule },
    /// Return an error tool result without invoking the tool.
    Deny { message: String },
}

pub open spec fn opt_view(o: Option<String>) -> Option<Seq<char>> {
    match o {
        Some(s) => Some(s@),
        None => None,
    }
}

/// What [`ToolPermissionRule::validate`] returns for a rule with the given
/// name and pattern.
pub open spec fn rule_validation(name: Seq<char>, pattern: Option<Seq<char>>) -> Result<
    (),
    ToolPermissionRuleError,
> {
    if all_ws(name) {
        Err(ToolPermissionRuleError::EmptyToolName)
    } else if utf8_len(name) > MAX_TOOL_PERMISSION_NAME_BYTES {
        Err(
            ToolPermissionRuleError::ToolNameTooLong {
                actual: utf8_len(name) as usize,
                maximum: MAX_TOOL_PERMISSION_NAME_BYTES,
            },
        )
    } else {
        match pattern {
            Some(p) => if all_ws(p) {
                Err(ToolPermissionRuleError::EmptyPattern)
            } else if utf8_len(p) > MAX_TOOL_PERMISSION_PATTERN_BYTES {
                Err(
                    ToolPermissionRuleError::PatternTooLong {
                        actual: utf8_len(p) as usize,
                        maximum: MAX_TOOL_PERMISSION_PATTERN_BYTES,
                    },
                )
            } else {
                Ok(())
            },
            None => Ok(()),
        }
    }
}

impl ToolPermissionRule {
    pub fn new(tool_name: String, pattern: Option<String>) -> (r: Self)
        ensures
            r.tool_name@ == tool_name@,
            opt_view(r.pattern) == opt_view(pattern),
    {
        ToolPermissionRule { tool_name, pattern }
    }

    pub fn for_tool(tool_name: String) -> (r: Self)
        ensures
            r.tool_name@ == tool_name@,
            r.pattern is None,
    {
        Self::new(tool_name, None)
    }

    pub fn validate(&self) -> (r: Result<(), ToolPermissionRuleError>)
        ensures
            r == rule_validation(self.tool_name@, opt_view(self.pattern)),
    {
        if is_blank(self.tool_name.as_str()) {
            return Err(ToolPermissionRuleError::EmptyToolName);
        }
        let name_len = byte_len(self.tool_name.as_str());
        if name_len > MAX_TOOL_PERMISSION_NAME_BYTES {
            return Err(
                ToolPermissionRuleError::ToolNameTooLong {
                    actual: name_len,
                    maximum: MAX_TOOL_PERMISSION_NAME_BYTES,
                },
            );
        }
        match &self.pattern {
            Some(pattern) => {
                if is_blank(pattern.as_str()) {
                    return Err(ToolPermissionRuleError::EmptyPattern);
                }
                let pattern_len = byte_len(pattern.as_str());
                if pattern_len > MAX_TOOL_PERMISSION_PATTERN_BYTES {
                    return Err(
                        ToolPermissionRuleError::PatternTooLong {
                            actual: pattern_len,
                            maximum: MAX_TOOL_PERMISSION_PATTERN_BYTES,
                        },
                    );
                }
            },
            None => {},
        }
        Ok(())
    }

    /// The rule as shown to users: `tool` or `tool(pattern)`.
    pub fn display(&self) -> (s: String)
        ensures
            s@ == match self.pattern {
                Some(p) => self.tool_name@ + seq!['('] + p@ + seq![')'],
                None => self.tool_name@,
            },
    {
        let mut s = owned(self.tool_name.as_str());
        match &self.pattern {
            Some(p) => {
                push_char(&mut s, '(');
                push_str(&mut s, p.as_str());
                push_char(&mut s, ')');
            },
            None => {},
        }
        s
    }
}

/// One element of a tokenized permission pattern.
#[derive(Clone, Copy, Debug, PartialEq, Eq, Structural)]
pub enum PatternToken {
    Literal(char),
    Wildcard,
}

/// Tokenizes the rest `p` of a pattern after the tokens `acc` were produced.
///
/// `\*` and `\\` are literal characters, any other backslash is literal,
/// and a run of `*` is one wildcard.
pub open spec fn tokenize_from(acc: Seq<PatternToken>, p: Seq<char>) -> Seq<PatternToken>
    decreases p.len(),
{
    if p.len() == 0 {
        acc
    } else if p[0] == '\\' {
        if p.len() == 1 {
            acc.push(PatternToken::Literal('\\'))
        } else if p[1] == '*' {
            tokenize_from(acc.push(PatternToken::Literal('*')), p.skip(2))
        } else if p[1] == '\\' {
            tokenize_from(acc.push(PatternToken::Literal('\\')), p.skip(2))
        } else {
            tokenize_from(
                acc.push(PatternToken::Literal('\\')).push(PatternToken::Literal(p[1])),
                p.skip(2),
            )
        }
    } else if p[0] == '*' {
        if acc.len() > 0 && acc.last() == PatternToken::Wildcard {
            tokenize_from(acc, p.skip(1))
        } else {
            tokenize_from(acc.push(PatternToken::Wildcard), p.skip(1))
        }
    } else {
        tokenize_from(acc.push(PatternToken::Literal(p[0])), p.skip(1))
    }
}

pub open spec fn tokenize(p: Seq<char>) -> Seq<PatternToken> {
    tokenize_from(Seq::empty(), p)
}

/// Tokens `p[i..]` match the characters `v[j..]` exactly: a literal matches
/// one equal character and a wildcard matches any number of characters.
pub open spec fn tokens_match(p: Seq<PatternToken>, v: Seq<char>, i: int, j: int) -> bool
    decreases p.len() - i + v.len() - j,
{
    if i < 0 || j < 0 || i > p.len() || j > v.len() {
        false
    } else if i == p.len() {
        j == v.len()
    } else if p[i] == PatternToken::Wildcard {
        tokens_match(p, v, i + 1, j) || (j < v.len() && tokens_match(p, v, i, j + 1))
    } else {
        j < v.len() && p[i] == PatternToken::Literal(v[j]) && tokens_match(p, v, i + 1, j + 1)
    }
}

/// Number of wildcards in `t`.
pub open spec fn count_wildcards(t: Seq<PatternToken>) -> nat
    decreases t.len(),
{
    if t.len() == 0 {
        0
    } else {
        count_wildcards(t.drop_last()) + if t.last() == PatternToken::Wildcard {
            1nat
        } else {
            0nat
        }
    }
}

/// The pattern ends in ` *` and has no other wildcard, so that trailing
/// part is optional.
pub open spec fn trailing_optional(t: Seq<PatternToken>) -> bool {
    &&& t.len() >= 2
    &&& t.last() == PatternToken::Wildcard
    &&& t[t.len() - 2] == PatternToken::Literal(' ')
    &&& count_wildcards(t) == 1
}

/// What [`matches_permission_pattern`] decides.
pub open spec fn permission_pattern_matches(pattern: Seq<char>, value: Seq<char>) -> bool {
    if utf8_len(pattern) > MAX_TOOL_PERMISSION_PATTERN_BYTES || utf8_len(value)
        > MAX_TOOL_PERMISSION_TARGET_BYTES {
        false
    } else {
        let t = tokenize(pattern);
        tokens_match(t, value, 0, 0) || (trailing_optional(t) && tokens_match(
            t.take(t.len() - 2),
            value,
            0,
            0,
        ))
    }
}

/// The escaped form of one character.
pub open spec fn escape_char(c: char) -> Seq<char> {
    if c == '\\' {
        seq!['\\', '\\']
    } else if c == '*' {
        seq!['\\', '*']
    } else {
        seq![c]
    }
}

/// `v` with every backslash and asterisk escaped.
pub open spec fn escape_seq(v: Seq<char>) -> Seq<char>
    decreases v.len(),
{
    if v.len() == 0 {
        Seq::empty()
    } else {
        escape_char(v[0]) + escape_seq(v.drop_first())
    }
}

/// Literal tokens for every character of `v`.
pub open spec fn literal_tokens(v: Seq<char>) -> Seq<PatternToken>
    decreases v.len(),
{
    if v.len() == 0 {
        Seq::empty()
    } else {
        Seq::<PatternToken>::empty().push(PatternToken::Literal(v[0])) + literal_tokens(
            v.drop_first(),
        )
    }
}

proof fn lemma_literal_tokens_index(v: Seq<char>)
    ensures
        literal_tokens(v).len() == v.len(),
        forall|i: int| 0 <= i < v.len() ==> #[trigger] literal_tokens(v)[i] == PatternToken::Literal(v[i]),
    decreases v.len(),
{
    if v.len() > 0 {
        lemma_literal_tokens_index(v.drop_first());
        let x = char_at(v, 0);
        assert forall|i: int| 0 <= i < v.len() implies #[trigger] literal_tokens(v)[i]
            == PatternToken::Literal(v[i]) by {
            let y = char_at(v, i);
            if i > 0 {
                assert(literal_tokens(v)[i] == literal_tokens(v.drop_first())[i - 1]);
            }
        }
    }
}

fn tokenize_pattern(pattern: &str) -> (tokens: Vec<PatternToken>)
    ensures
        tokens@ == tokenize(pattern@),
{
    let p = chars_of(pattern);
    let mut tokens: Vec<PatternToken> = Vec::new();
    let mut i: usize = 0;
    assert(p@.skip(0) == p@);
    while i < p.len()
        invariant
            p@ == pattern@,
            i <= p.len(),
            tokenize_from(tokens@, p@.skip(i as int)) == tokenize(pattern@),
        decreases p.len() - i,
    {
        let ghost rest = p@.skip(i as int);
        let c = p[i];
        if c == '\\' {
            if i + 1 < p.len() {
                let next = p[i + 1];
                assert(rest.skip(2) == p@.skip(i + 2));
                if next == '*' {
                    tokens.push(PatternToken::Literal('*'));
                } else if next == '\\' {
                    tokens.push(PatternToken::Literal('\\'));
                } else {
                    tokens.push(PatternToken::Literal('\\'));
                    tokens.push(PatternToken::Literal(next));
                }
                i += 2;
            } else {
                tokens.push(PatternToken::Literal('\\'));
                i += 1;
                assert(p@.skip(i as int).len() == 0);
            }
        } else if c == '*' {
            assert(rest.skip(1) == p@.skip(i + 1));
            let last_is_wildcard = tokens.len() > 0 && tokens[tokens.len() - 1]
                == PatternToken::Wildcard;
            if !last_is_wildcard {
                tokens.push(PatternToken::Wildcard);
            }
            i += 1;
        } else {
            assert(rest.skip(1) == p@.skip(i + 1));
            tokens.push(PatternToken::Literal(c));
            i += 1;
        }
    }
    assert(p@.skip(i as int).len() == 0);
    tokens
}

/// A wildcard at `i` matches `v[j..]` exactly when the rest of the pattern
/// matches some suffix `v[k..]` with `j <= k`.
proof fn lemma_wildcard_expand(p: Seq<PatternToken>, v: Seq<char>, i: int, j: int)
    requires
        0 <= i < p.len(),
        0 <= j <= v.len(),
        p[i] == PatternToken::Wildcard,
    ensures
        tokens_match(p, v, i, j) == exists|k: int|
            j <= k <= v.len() && #[trigger] tokens_match(p, v, i + 1, k),
    decreases v.len() - j,
{
    if j < v.len() {
        lemma_wildcard_expand(p, v, i, j + 1);
        if tokens_match(p, v, i, j) {
            if tokens_match(p, v, i + 1, j) {
                assert(j <= j <= v.len() && tokens_match(p, v, i + 1, j));
            } else {
                assert(tokens_match(p, v, i, j + 1));
                let k = choose|k: int| j + 1 <= k <= v.len() && #[trigger] tokens_match(p, v, i + 1, k);
                assert(j <= k <= v.len() && tokens_match(p, v, i + 1, k));
            }
        }
        if exists|k: int| j <= k <= v.len() && #[trigger] tokens_match(p, v, i + 1, k) {
            let k = choose|k: int| j <= k <= v.len() && #[trigger] tokens_match(p, v, i + 1, k);
            if k > j {
                assert(j + 1 <= k <= v.len() && tokens_match(p, v, i + 1, k));
                assert(tokens_match(p, v, i, j + 1));
            } else {
                assert(tokens_match(p, v, i + 1, j));
            }
            assert(tokens_match(p, v, i, j));
        }
    } else {
        if tokens_match(p, v, i, j) {
            assert(tokens_match(p, v, i + 1, j));
            assert(j <= j <= v.len() && tokens_match(p, v, i + 1, j));
        }
        if exists|k: int| j <= k <= v.len() && #[trigger] tokens_match(p, v, i + 1, k) {
            let k = choose|k: int| j <= k <= v.len() && #[trigger] tokens_match(p, v, i + 1, k);
            assert(k == j);
        }
    }
}

/// The literals `p[i..i+len]` equal the characters `v[j..j+len]`.
pub open spec fn literal_block(p: Seq<PatternToken>, v: Seq<char>, i: int, j: int, len: int) -> bool {
    &&& 0 <= len
    &&& 0 <= i
    &&& i + len <= p.len()
    &&& 0 <= j
    &&& j + len <= v.len()
    &&& forall|t: int| 0 <= t < len ==> #[trigger] p[i + t] == PatternToken::Literal(v[j + t])
}

/// A block of literals must match character by character.
proof fn lemma_literal_block(p: Seq<PatternToken>, v: Seq<char>, i: int, k: int, len: int)
    requires
        0 <= len,
        0 <= i,
        i + len <= p.len(),
        0 <= k <= v.len(),
        forall|t: int| 0 <= t < len ==> (#[trigger] p[i + t]) != PatternToken::Wildcard,
    ensures
        tokens_match(p, v, i, k) == (k + len <= v.len() && literal_block(p, v, i, k, len)
            && tokens_match(p, v, i + len, k + len)),
    decreases len,
{
    if len > 0 {
        assert(p[i + 0] != PatternToken::Wildcard);
        if k < v.len() {
            assert forall|t: int| 0 <= t < len - 1 implies #[trigger] p[(i + 1) + t]
                != PatternToken::Wildcard by {
                assert(p[i + (t + 1)] != PatternToken::Wildcard);
            }
            lemma_literal_block(p, v, i + 1, k + 1, len - 1);
            if literal_block(p, v, i, k, len) {
                assert(p[i + 0] == PatternToken::Literal(v[k + 0]));
                assert forall|t: int| 0 <= t < len - 1 implies #[trigger] p[(i + 1) + t]
                    == PatternToken::Literal(v[(k + 1) + t]) by {
                    assert(p[i + (t + 1)] == PatternToken::Literal(v[k + (t + 1)]));
                }
            }
            if p[i] == PatternToken::Literal(v[k]) && literal_block(p, v, i + 1, k + 1, len - 1) {
                assert forall|t: int| 0 <= t < len implies #[trigger] p[i + t]
                    == PatternToken::Literal(v[k + t]) by {
                    if t > 0 {
                        assert(p[(i + 1) + (t - 1)] == PatternToken::Literal(v[(k + 1) + (t - 1)]));
                    }
                }
            }
        }
    } else {
        assert(literal_block(p, v, i, k, 0));
    }
}

/// With no characters left, a pattern matches exactly when all its remaining
/// tokens are wildcards.
proof fn lemma_empty_value(p: Seq<PatternToken>, v: Seq<char>, i: int)
    requires
        0 <= i <= p.len(),
    ensures
        tokens_match(p, v, i, v.len() as int) == forall|t: int|
            i <= t < p.len() ==> #[trigger] p[t] == PatternToken::Wildcard,
    decreases p.len() - i,
{
    if i < p.len() {
        lemma_empty_value(p, v, i + 1);
    }
}

/// The loop state of the greedy matcher: what the overall answer equals.
spec fn matcher_state(
    p: Seq<PatternToken>,
    v: Seq<char>,
    answer: bool,
    pi: int,
    vi: int,
    star: Option<usize>,
    sv: int,
) -> bool {
    &&& 0 <= pi <= p.len()
    &&& 0 <= sv <= vi <= v.len()
    &&& match star {
        None => answer == tokens_match(p, v, pi, vi),
        Some(s) => {
            &&& 0 <= s < pi
            &&& p[s as int] == PatternToken::Wildcard
            &&& pi - (s + 1) == vi - sv
            &&& literal_block(p, v, s + 1, sv, pi - (s + 1))
            &&& answer == exists|k: int| sv <= k <= v.len() && #[trigger] tokens_match(p, v, s + 1, k)
        },
    }
}

/// When a new wildcard is reached after a literal block that follows an
/// earlier wildcard, only positions after the block matter.
proof fn lemma_restart_at_wildcard(p: Seq<PatternToken>, v: Seq<char>, s: int, sv: int, pi: int, vi: int)
    requires
        0 <= s < pi < p.len(),
        p[pi] == PatternToken::Wildcard,
        0 <= sv <= vi <= v.len(),
        pi - (s + 1) == vi - sv,
        literal_block(p, v, s + 1, sv, pi - (s + 1)),
    ensures
        (exists|k: int| sv <= k <= v.len() && #[trigger] tokens_match(p, v, s + 1, k)) == (exists|
            y: int,
        | vi <= y <= v.len() && #[trigger] tokens_match(p, v, pi + 1, y)),
{
    let len = pi - (s + 1);
    assert forall|t: int| 0 <= t < len implies (#[trigger] p[(s + 1) + t]) != PatternToken::Wildcard by {
        assert(p[(s + 1) + t] == PatternToken::Literal(v[sv + t]));
    }
    if exists|k: int| sv <= k <= v.len() && #[trigger] tokens_match(p, v, s + 1, k) {
        let k = choose|k: int| sv <= k <= v.len() && #[trigger] tokens_match(p, v, s + 1, k);
        lemma_literal_block(p, v, s + 1, k, len);
        lemma_wildcard_expand(p, v, pi, k + len);
        let y = choose|y: int| k + len <= y <= v.len() && #[trigger] tokens_match(p, v, pi + 1, y);
        assert(tokens_match(p, v, pi + 1, y));
    }
    if exists|y: int| vi <= y <= v.len() && #[trigger] tokens_match(p, v, pi + 1, y) {
        let y = choose|y: int| vi <= y <= v.len() && #[trigger] tokens_match(p, v, pi + 1, y);
        lemma_wildcard_expand(p, v, pi, vi);
        assert(tokens_match(p, v, pi, vi));
        lemma_literal_block(p, v, s + 1, sv, len);
        assert(tokens_match(p, v, s + 1, sv));
    }
}

/// Greedy matching with one backtracking point (the last `*` seen);
/// proved equal to [`tokens_match`].
fn wildcard_match(pattern: &Vec<PatternToken>, value: &Vec<char>) -> (r: bool)
    ensures
        r == tokens_match(pattern@, value@, 0, 0),
{
    let ghost p = pattern@;
    let ghost v = value@;
    let ghost answer = tokens_match(p, v, 0, 0);
    let mut pattern_index: usize = 0;
    let mut value_index: usize = 0;
    let mut wildcard_index: Option<usize> = None;
    let mut wildcard_value_index: usize = 0;

    while value_index < value.len()
        invariant
            p == pattern@,
            v == value@,
            answer == tokens_match(p, v, 0, 0),
            matcher_state(
                p,
                v,
                answer,
                pattern_index as int,
                value_index as int,
                wildcard_index,
                wildcard_value_index as int,
            ),
        decreases value.len() - wildcard_value_index, pattern.len() - pattern_index + value.len()
            - value_index,
    {
        let pi = pattern_index;
        let vi = value_index;
        if pi < pattern.len() && pattern[pi] == PatternToken::Literal(value[vi]) {
            pattern_index += 1;
            value_index += 1;
            proof {
                match wildcard_index {
                    None => {},
                    Some(s) => {
                        let len = pi - (s + 1);
                        assert forall|t: int| 0 <= t < len + 1 implies #[trigger] p[(s + 1) + t]
                            == PatternToken::Literal(v[wildcard_value_index + t]) by {
                            if t < len {
                                assert(p[(s + 1) + t] == PatternToken::Literal(
                                    v[wildcard_value_index + t],
                                ));
                            } else {
                                assert((s + 1) + t == pi);
                                assert(wildcard_value_index + t == vi);
                            }
                        }
                    },
                }
            }
        } else if pi < pattern.len() && pattern[pi] == PatternToken::Wildcard {
            proof {
                match wildcard_index {
                    None => {
                        lemma_wildcard_expand(p, v, pi as int, vi as int);
                    },
                    Some(s) => {
                        lemma_restart_at_wildcard(
                            p,
                            v,
                            s as int,
                            wildcard_value_index as int,
                            pi as int,
                            vi as int,
                        );
                    },
                }
                assert(literal_block(p, v, pi + 1, vi as int, 0));
            }
            wildcard_index = Some(pi);
            pattern_index = pi + 1;
            wildcard_value_index = vi;
        } else {
            match wildcard_index {
                Some(s) => {
                    proof {
                        let sv = wildcard_value_index as int;
                        let len = pi - (s + 1);
                        assert forall|t: int| 0 <= t < len implies (#[trigger] p[(s + 1) + t])
                            != PatternToken::Wildcard by {
                            assert(p[(s + 1) + t] == PatternToken::Literal(v[sv + t]));
                        }
                        lemma_literal_block(p, v, s + 1, sv, len);
                        assert(!tokens_match(p, v, pi as int, vi as int));
                        assert(!tokens_match(p, v, s + 1, sv));
                        assert(literal_block(p, v, s + 1, sv + 1, 0));
                        if exists|k: int| sv <= k <= v.len() && #[trigger] tokens_match(p, v, s + 1, k) {
                            let k = choose|k: int|
                                sv <= k <= v.len() && #[trigger] tokens_match(p, v, s + 1, k);
                            assert(k != sv);
                            assert(sv + 1 <= k);
                        }
                    }
                    wildcard_value_index += 1;
                    value_index = wildcard_value_index;
                    pattern_index = s + 1;
                },
                None => {
                    return false;
                },
            }
        }
    }
    let mut i = pattern_index;
    let mut all_wildcards = true;
    while i < pattern.len()
        invariant
            p == pattern@,
            pattern_index <= i <= pattern.len(),
            all_wildcards == forall|t: int|
                pattern_index <= t < i ==> #[trigger] p[t] == PatternToken::Wildcard,
        decreases pattern.len() - i,
    {
        if pattern[i] != PatternToken::Wildcard {
            all_wildcards = false;
        }
        i += 1;
    }
    proof {
        lemma_empty_value(p, v, pattern_index as int);
        match wildcard_index {
            None => {},
            Some(s) => {
                let sv = wildcard_value_index as int;
                let len = pattern_index - (s + 1);
                assert forall|t: int| 0 <= t < len implies (#[trigger] p[(s + 1) + t])
                    != PatternToken::Wildcard by {
                    assert(p[(s + 1) + t] == PatternToken::Literal(v[sv + t]));
                }
                lemma_literal_block(p, v, s + 1, sv, len);
                if exists|k: int| sv <= k <= v.len() && #[trigger] tokens_match(p, v, s + 1, k) {
                    let k = choose|k: int| sv <= k <= v.len() && #[trigger] tokens_match(p, v, s + 1, k);
                    lemma_literal_block(p, v, s + 1, k, len);
                    assert(k == sv);
                }
            },
        }
    }
    all_wildcards
}

fn count_wildcard_tokens(tokens: &Vec<PatternToken>) -> (n: usize)
    ensures
        n == count_wildcards(tokens@),
{
    let mut n: usize = 0;
    let mut i: usize = 0;
    while i < tokens.len()
        invariant
            i <= tokens.len(),
            n == count_wildcards(tokens@.take(i as int)),
            n <= i,
        decreases tokens.len() - i,
    {
        assert(tokens@.take(i + 1).drop_last() == tokens@.take(i as int));
        if tokens[i] == PatternToken::Wildcard {
            n += 1;
        }
        i += 1;
    }
    assert(tokens@.take(i as int) == tokens@);
    n
}

/// Matches an anchored permission pattern. `*` consumes any number of Unicode
/// scalar values, `\*` represents a literal asterisk, and `\\` a literal
/// backslash. A sole trailing ` *` is optional, so `ls *` matches both `ls`
/// and `ls -la`.
pub fn matches_permission_pattern(pattern: &str, value: &str) -> (r: bool)
    ensures
        r == permission_pattern_matches(pattern@, value@),
{
    if byte_len(pattern) > MAX_TOOL_PERMISSION_PATTERN_BYTES || byte_len(value)
        > MAX_TOOL_PERMISSION_TARGET_BYTES {
        return false;
    }
    let mut tokens = tokenize_pattern(pattern);
    let n = tokens.len();
    let trailing = n >= 2 && tokens[n - 1] == PatternToken::Wildcard && tokens[n - 2]
        == PatternToken::Literal(' ') && count_wildcard_tokens(&tokens) == 1;
    let chars = chars_of(value);
    if wildcard_match(&tokens, &chars) {
        return true;
    }
    if trailing {
        tokens.truncate(n - 2);
        return wildcard_match(&tokens, &chars);
    }
    false
}

proof fn lemma_escape_append(a: Seq<char>, b: Seq<char>)
    ensures
        escape_seq(a + b) == escape_seq(a) + escape_seq(b),
    decreases a.len(),
{
    if a.len() == 0 {
        assert(a + b == b);
    } else {
        lemma_escape_append(a.drop_first(), b);
        assert((a + b).drop_first() == a.drop_first() + b);
    }
}

/// Tokenizing an escaped value yields one literal per character.
proof fn lemma_tokenize_escaped(acc: Seq<PatternToken>, v: Seq<char>)
    ensures
        tokenize_from(acc, escape_seq(v)) == acc + literal_tokens(v),
    decreases v.len(),
{
    if v.len() == 0 {
        assert(acc + literal_tokens(v) =~= acc);
    } else {
        let c = char_at(v, 0);
        let rest = escape_seq(v.drop_first());
        let e = escape_seq(v);
        lemma_tokenize_escaped(acc.push(PatternToken::Literal(c)), v.drop_first());
        assert(acc.push(PatternToken::Literal(c)) + literal_tokens(v.drop_first()) =~= acc
            + (seq![PatternToken::Literal(c)] + literal_tokens(v.drop_first())));
        if c == '\\' || c == '*' {
            assert(e.skip(2) == rest);
        } else {
            assert(e.skip(1) == rest);
        }
    }
}

/// A sequence of literals matches exactly its own characters.
proof fn lemma_literals_match(v: Seq<char>, i: int)
    requires
        0 <= i <= v.len(),
    ensures
        tokens_match(literal_tokens(v), v, i, i),
    decreases v.len() - i,
{
    lemma_literal_tokens_index(v);
    if i < v.len() {
        lemma_literals_match(v, i + 1);
        assert(literal_tokens(v)[i] == PatternToken::Literal(v[i]));
    }
}

/// Escaping a concrete permission target makes the pattern match that
/// target literally, within the size limits.
pub proof fn lemma_escaped_pattern_matches_itself(value: Seq<char>)
    requires
        utf8_len(escape_seq(value)) <= MAX_TOOL_PERMISSION_PATTERN_BYTES,
        utf8_len(value) <= MAX_TOOL_PERMISSION_TARGET_BYTES,
    ensures
        permission_pattern_matches(escape_seq(value), value),
{
    lemma_tokenize_escaped(Seq::empty(), value);
    assert(Seq::<PatternToken>::empty() + literal_tokens(value) == literal_tokens(value));
    lemma_literals_match(value, 0);
}

/// Escapes a concrete permission target so it is matched literally when used
/// as a [`ToolPermissionRule::pattern`].
pub fn escape_permission_pattern(value: &str) -> (r: String)
    ensures
        r@ == escape_seq(value@),
{
    let v = chars_of(value);
    let mut out = String::new();
    let mut i: usize = 0;
    while i < v.len()
        invariant
            v@ == value@,
            i <= v.len(),
            out@ == escape_seq(v@.take(i as int)),
        decreases v.len() - i,
    {
        let c = v[i];
        proof {
            lemma_escape_append(v@.take(i as int), seq![c]);
            assert(v@.take(i + 1) == v@.take(i as int) + seq![c]);
            assert(escape_seq(seq![c]) == escape_char(c) + escape_seq(seq![c].drop_first()));
            assert(seq![c].drop_first().len() == 0);
        }
        if c == '\\' {
            push_char(&mut out, '\\');
            push_char(&mut out, '\\');
        } else if c == '*' {
            push_char(&mut out, '\\');
            push_char(&mut out, '*');
        } else {
            push_char(&mut out, c);
        }
        i += 1;
    }
    assert(v@.take(i as int) == value@);
    out
}

/// Literal tokens match only the characters they stand for.
proof fn lemma_literals_match_only(v: Seq<char>, w: Seq<char>, i: int, j: int)
    requires
        0 <= i <= v.len(),
        tokens_match(literal_tokens(v), w, i, j),
    ensures
        v.len() - i == w.len() - j,
        forall|k: int| i <= k < v.len() ==> #[trigger] v[k] == w[k + (j - i)],
    decreases v.len() - i,
{
    lemma_literal_tokens_index(v);
    if i < v.len() {
        assert(literal_tokens(v)[i] == PatternToken::Literal(v[i]));
        lemma_literals_match_only(v, w, i + 1, j + 1);
    }
}

/// An escaped target matches exactly that target: every `*` and `\` of it
/// is matched literally, so no other text matches (within the size limits).
pub proof fn lemma_escaped_pattern_matches_only_itself(value: Seq<char>, other: Seq<char>)
    requires
        utf8_len(escape_seq(value)) <= MAX_TOOL_PERMISSION_PATTERN_BYTES,
        utf8_len(value) <= MAX_TOOL_PERMISSION_TARGET_BYTES,
    ensures
        permission_pattern_matches(escape_seq(value), other) <==> other == value,
{
    lemma_escaped_pattern_matches_itself(value);
    lemma_tokenize_escaped(Seq::empty(), value);
    let t = tokenize(escape_seq(value));
    assert(Seq::<PatternToken>::empty() + literal_tokens(value) == literal_tokens(value));
    assert(t == literal_tokens(value));
    lemma_literal_tokens_index(value);
    if permission_pattern_matches(escape_seq(value), other) {
        if t.len() >= 2 {
            assert(t.last() == PatternToken::Literal(value[value.len() - 1]));
        }
        assert(!trailing_optional(t));
        assert(tokens_match(t, other, 0, 0));
        lemma_literals_match_only(value, other, 0, 0);
        assert forall|k: int| 0 <= k < value.len() implies value[k] == other[k] by {
            assert(value[k] == other[k + (0 - 0)]);
        }
        assert(other =~= value);
    }
}

} // verus!
