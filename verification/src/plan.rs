//! Versioned, session-scoped plan artifacts.
//!
//! Plans live outside the conversation transcript so that planning can be
//! resumed, reviewed, and approved without relying on the model to reproduce
//! the exact text. Updates use optimistic concurrency: revision `0` denotes a
//! plan that does not exist yet, and each successful update increments it.
use vstd::prelude::*;
use vstd::utf8::{decode_utf8, encode_utf8, valid_utf8};

use crate::text::{
    all_digits, all_ws, byte_len, chars_of, decimal, find_chars, find_first, is_blank, owned,
    parse_u64_spec, push_char, push_chars, push_decimal, push_str, str_from_utf8, string_eq,
    string_of, utf8_error_text, utf8_len,
};

verus! {

broadcast use {vstd::string::group_string_axioms, vstd::slice::group_slice_axioms};

/// Revision used when a session does not have a plan yet.
pub const EMPTY_PLAN_REVISION: u64 = 0;

/// Maximum UTF-8 byte length of plan content, excluding the revision header.
pub const MAX_PLAN_BYTES: usize = 1048576;

/// Maximum UTF-8 size of a session identifier.
pub const MAX_PLAN_SESSION_ID_BYTES: usize = 180;

/// Hex characters per directory component of an encoded session id.
pub const SESSION_PATH_COMPONENT_HEX_BYTES: usize = 64;

/// Bytes allowed for the revision header in a stored plan.
pub const MAX_REVISION_METADATA_BYTES: usize = 64;

pub const SESSION_PATH_VERSION: &'static str = "v1";

pub const ARTIFACT_FILE_NAME: &'static str = "plan.md";

pub const LOCK_FILE_NAME: &'static str = "plan.lock";

pub const REVISION_HEADER_PREFIX: &'static str = "<!-- phi-plan-revision: ";

pub const REVISION_HEADER_SUFFIX: &'static str = " -->";

/// The latest persisted plan for one session.
#[derive(Clone, Debug, PartialEq, Eq)]
pub struct PlanArtifact {
    pub session_id: String,
    pub revision: u64,
    pub content: String,
}

/// A snapshot of one session's plan together with the guard that keeps
/// the session's updates blocked for as long as the snapshot lives.
pub struct LockedPlan<G> {
    artifact: Option<PlanArtifact>,
    guard: G,
}

impl<G> LockedPlan<G> {
    /// The plan observed under the lock.
    pub closed spec fn spec_artifact(&self) -> Option<PlanArtifact> {
        self.artifact
    }

    /// Creates a locked snapshot from a store's own update guard.
    pub fn with_guard(artifact: Option<PlanArtifact>, guard: G) -> (r: Self)
        ensures
            r.spec_artifact() == artifact,
    {
        LockedPlan { artifact, guard }
    }

    /// Returns the plan observed while the update lock is held.
    pub fn artifact(&self) -> (r: Option<&PlanArtifact>)
        ensures
            match (r, self.spec_artifact()) {
                (Some(a), Some(b)) => *a == b,
                (None, None) => true,
                _ => false,
            },
    {
        self.artifact.as_ref()
    }
}

impl PlanArtifact {
    fn duplicate(&self) -> (r: Self)
        ensures
            r == *self,
    {
        PlanArtifact {
            session_id: self.session_id.clone(),
            revision: self.revision,
            content: self.content.clone(),
        }
    }
}

/// Failures returned by a plan store.
#[derive(Clone, Debug, PartialEq, Eq)]
pub enum PlanStoreError {
    InvalidSessionId(String),
    RevisionConflict { session_id: String, expected: u64, actual: u64 },
    RevisionExhausted { session_id: String },
    Io { path: String, message: String },
    InvalidData { path: String, message: String },
    PlanTooLarge { actual_bytes: u64, max_bytes: usize },
    InvalidStoredRevision { session_id: String, revision: u64 },
}

/// A plan session identifier is acceptable: not blank and at most 180
/// UTF-8 bytes.
pub open spec fn valid_plan_session_id(id: Seq<char>) -> bool {
    !all_ws(id) && utf8_len(id) <= MAX_PLAN_SESSION_ID_BYTES
}

pub fn validate_session_id(session_id: &str) -> (r: Result<(), PlanStoreError>)
    ensures
        r is Ok <==> valid_plan_session_id(session_id@),
        all_ws(session_id@) ==> (r matches Err(PlanStoreError::InvalidSessionId(m)) && m@
            == "must not be empty"@),
        !all_ws(session_id@) && utf8_len(session_id@) > MAX_PLAN_SESSION_ID_BYTES ==> (r matches Err(
            PlanStoreError::InvalidSessionId(m),
        ) && m@ == "must not exceed 180 UTF-8 bytes"@),
{
    if is_blank(session_id) {
        return Err(PlanStoreError::InvalidSessionId(owned("must not be empty")));
    }
    if byte_len(session_id) > MAX_PLAN_SESSION_ID_BYTES {
        return Err(PlanStoreError::InvalidSessionId(owned("must not exceed 180 UTF-8 bytes")));
    }
    Ok(())
}

/// Plan content fits the size limit.
pub fn validate_plan_content(content: &str) -> (r: Result<(), PlanStoreError>)
    ensures
        r is Ok <==> utf8_len(content@) <= MAX_PLAN_BYTES,
        r matches Err(e) ==> e == (PlanStoreError::PlanTooLarge {
            actual_bytes: utf8_len(content@) as u64,
            max_bytes: MAX_PLAN_BYTES,
        }),
{
    let n = byte_len(content);
    if n <= MAX_PLAN_BYTES {
        return Ok(());
    }
    Err(PlanStoreError::PlanTooLarge { actual_bytes: n as u64, max_bytes: MAX_PLAN_BYTES })
}

/// The current revision must be the one the caller expects.
pub fn ensure_expected_revision(session_id: &str, expected: u64, actual: u64) -> (r: Result<
    (),
    PlanStoreError,
>)
    ensures
        r is Ok <==> expected == actual,
        r matches Err(e) ==> (e matches PlanStoreError::RevisionConflict {
            session_id: s,
            expected: x,
            actual: y,
        } && s@ == session_id@ && x == expected && y == actual),
{
    if expected == actual {
        return Ok(());
    }
    Err(PlanStoreError::RevisionConflict { session_id: owned(session_id), expected, actual })
}

/// The revision after `revision`, unless it is exhausted.
pub fn next_revision(session_id: &str, revision: u64) -> (r: Result<u64, PlanStoreError>)
    ensures
        revision < u64::MAX ==> r == Ok::<u64, PlanStoreError>((revision + 1) as u64),
        revision == u64::MAX ==> (r matches Err(PlanStoreError::RevisionExhausted { session_id: s })
            && s@ == session_id@),
{
    if revision < u64::MAX {
        Ok(revision + 1)
    } else {
        Err(PlanStoreError::RevisionExhausted { session_id: owned(session_id) })
    }
}

/// The lower-case hexadecimal digit for `n < 16`.
pub open spec fn hex_digit(n: nat) -> char {
    if n < 10 {
        crate::text::digit_char(n)
    } else if n == 10 {
        'a'
    } else if n == 11 {
        'b'
    } else if n == 12 {
        'c'
    } else if n == 13 {
        'd'
    } else if n == 14 {
        'e'
    } else {
        'f'
    }
}

/// Two lower-case hexadecimal digits per byte.
pub open spec fn hex_encode(bytes: Seq<u8>) -> Seq<char>
    decreases bytes.len(),
{
    if bytes.len() == 0 {
        Seq::empty()
    } else {
        hex_encode(bytes.drop_last()).push(hex_digit((bytes.last() / 16) as nat)).push(
            hex_digit((bytes.last() % 16) as nat),
        )
    }
}

fn hex_digit_exec(n: u8) -> (c: char)
    requires
        n < 16,
    ensures
        c == hex_digit(n as nat),
{
    if n == 0 {
        '0'
    } else if n == 1 {
        '1'
    } else if n == 2 {
        '2'
    } else if n == 3 {
        '3'
    } else if n == 4 {
        '4'
    } else if n == 5 {
        '5'
    } else if n == 6 {
        '6'
    } else if n == 7 {
        '7'
    } else if n == 8 {
        '8'
    } else if n == 9 {
        '9'
    } else if n == 10 {
        'a'
    } else if n == 11 {
        'b'
    } else if n == 12 {
        'c'
    } else if n == 13 {
        'd'
    } else if n == 14 {
        'e'
    } else {
        'f'
    }
}

/// The session id written as lower-case hexadecimal of its UTF-8 bytes, so
/// that path components never alias on case-insensitive file systems.
pub fn encode_session_id(session_id: &str) -> (r: String)
    ensures
        r@ == hex_encode(encode_utf8(session_id@)),
{
    let bytes = session_id.as_bytes();
    let mut encoded = String::new();
    let mut i: usize = 0;
    while i < bytes.len()
        invariant
            bytes@ == encode_utf8(session_id@),
            i <= bytes@.len(),
            encoded@ == hex_encode(bytes@.take(i as int)),
        decreases bytes.len() - i,
    {
        let byte = bytes[i];
        push_char(&mut encoded, hex_digit_exec(byte / 16));
        push_char(&mut encoded, hex_digit_exec(byte % 16));
        i += 1;
        assert(bytes@.take(i as int).drop_last() == bytes@.take(i - 1));
    }
    assert(bytes@.take(i as int) == bytes@);
    encoded
}

/// `base` followed by the relative path component `part` (as
/// `PathBuf::push` joins relative components on Unix).
pub open spec fn join_path(base: Seq<char>, part: Seq<char>) -> Seq<char> {
    if base.len() == 0 {
        part
    } else if base.last() == '/' {
        base + part
    } else {
        base + seq!['/'] + part
    }
}

/// The directory components for an encoded session id: 64-character chunks.
pub open spec fn hex_components(hex: Seq<char>) -> Seq<Seq<char>>
    decreases hex.len(),
{
    if hex.len() <= SESSION_PATH_COMPONENT_HEX_BYTES {
        if hex.len() == 0 {
            Seq::empty()
        } else {
            seq![hex]
        }
    } else {
        seq![hex.take(SESSION_PATH_COMPONENT_HEX_BYTES as int)] + hex_components(
            hex.skip(SESSION_PATH_COMPONENT_HEX_BYTES as int),
        )
    }
}

/// `base` joined with each of `parts` in turn.
pub open spec fn join_all(base: Seq<char>, parts: Seq<Seq<char>>) -> Seq<char>
    decreases parts.len(),
{
    if parts.len() == 0 {
        base
    } else {
        join_all(join_path(base, parts[0]), parts.drop_first())
    }
}

/// The artifact file of a session under `root`.
pub open spec fn artifact_path_spec(root: Seq<char>, session_id: Seq<char>) -> Seq<char> {
    join_path(
        join_all(
            join_path(root, SESSION_PATH_VERSION@),
            hex_components(hex_encode(encode_utf8(session_id))),
        ),
        ARTIFACT_FILE_NAME@,
    )
}

fn push_path(path: &mut String, part: &Vec<char>, from: usize, to: usize)
    requires
        from <= to <= part.len(),
    ensures
        final(path)@ == join_path(old(path)@, part@.subrange(from as int, to as int)),
{
    let p = path.as_str();
    let n = p.unicode_len();
    if n > 0 {
        let last = p.get_char(n - 1);
        if last != '/' {
            push_char(path, '/');
        }
    }
    push_chars(path, part, from, to);
}

/// One-file-per-session plan layout rooted at a directory.
///
/// Session ids are encoded as lower-case hexadecimal path components, which
/// prevents path traversal and case-insensitive aliases.
#[derive(Clone, Debug, PartialEq, Eq)]
pub struct DiskPlanStore {
    root: String,
}

impl DiskPlanStore {
    pub closed spec fn spec_root(&self) -> Seq<char> {
        self.root@
    }

    pub fn new(root: String) -> (r: Self)
        ensures
            r.spec_root() == root@,
    {
        DiskPlanStore { root }
    }

    pub fn root(&self) -> (r: &str)
        ensures
            r@ == self.spec_root(),
    {
        self.root.as_str()
    }

    /// The exact artifact file used for `session_id`.
    pub fn artifact_path(&self, session_id: &str) -> (r: Result<String, PlanStoreError>)
        ensures
            r is Ok <==> valid_plan_session_id(session_id@),
            r matches Ok(p) ==> p@ == artifact_path_spec(self.spec_root(), session_id@),
            r matches Err(e) ==> e is InvalidSessionId,
    {
        match validate_session_id(session_id) {
            Ok(()) => {},
            Err(e) => {
                return Err(e);
            },
        }
        let encoded = encode_session_id(session_id);
        let hex = chars_of(encoded.as_str());
        let version = chars_of(SESSION_PATH_VERSION);
        let mut path = owned(self.root.as_str());
        push_path(&mut path, &version, 0, version.len());
        assert(version@.subrange(0, version@.len() as int) == SESSION_PATH_VERSION@);
        let ghost base = path@;
        let mut start: usize = 0;
        assert(hex@.skip(0) == hex@);
        while start < hex.len()
            invariant
                start <= hex.len(),
                join_all(path@, hex_components(hex@.skip(start as int))) == join_all(
                    base,
                    hex_components(hex@),
                ),
            decreases hex.len() - start,
        {
            let end = if hex.len() - start > SESSION_PATH_COMPONENT_HEX_BYTES {
                start + SESSION_PATH_COMPONENT_HEX_BYTES
            } else {
                hex.len()
            };
            let ghost rest = hex@.skip(start as int);
            let ghost before = path@;
            push_path(&mut path, &hex, start, end);
            proof {
                assert(rest.len() > 0);
                if rest.len() > SESSION_PATH_COMPONENT_HEX_BYTES {
                    assert(rest.take(SESSION_PATH_COMPONENT_HEX_BYTES as int) == hex@.subrange(
                        start as int,
                        end as int,
                    ));
                    assert(rest.skip(SESSION_PATH_COMPONENT_HEX_BYTES as int) == hex@.skip(
                        end as int,
                    ));
                    let cs = hex_components(rest);
                    assert(cs[0] == hex@.subrange(start as int, end as int));
                    assert(cs.drop_first() == hex_components(hex@.skip(end as int)));
                    assert(join_all(before, cs) == join_all(join_path(before, cs[0]), cs.drop_first()));
                } else {
                    assert(rest == hex@.subrange(start as int, end as int));
                    assert(hex@.skip(end as int).len() == 0);
                    assert(hex_components(hex@.skip(end as int)).len() == 0);
                    let cs = hex_components(rest);
                    assert(cs[0] == rest);
                    assert(cs.drop_first().len() == 0);
                    assert(join_all(before, cs) == join_all(join_path(before, cs[0]), cs.drop_first()));
                    assert(cs.drop_first() == hex_components(hex@.skip(end as int)));
                }
            }
            start = end;
        }
        assert(hex@.skip(start as int).len() == 0);
        assert(hex@.skip(0) == hex@);
        let name = chars_of(ARTIFACT_FILE_NAME);
        push_path(&mut path, &name, 0, name.len());
        assert(name@.subrange(0, name@.len() as int) == ARTIFACT_FILE_NAME@);
        Ok(path)
    }
}

/// The stored form of a plan: a revision header line, then the content.
pub open spec fn plan_file_text(revision: u64, content: Seq<char>) -> Seq<char> {
    REVISION_HEADER_PREFIX@ + decimal(revision as nat) + REVISION_HEADER_SUFFIX@ + seq!['\n']
        + content
}

/// Writes the stored form of `artifact`.
pub fn serialize_plan(artifact: &PlanArtifact) -> (r: String)
    ensures
        r@ == plan_file_text(artifact.revision, artifact.content@),
{
    let mut s = owned(REVISION_HEADER_PREFIX);
    push_decimal(&mut s, artifact.revision);
    push_str(&mut s, REVISION_HEADER_SUFFIX);
    push_char(&mut s, '\n');
    push_str(&mut s, artifact.content.as_str());
    s
}

/// Why a stored plan could not be read.
pub ghost enum PlanParseFault {
    NotUtf8(Seq<char>),
    MissingHeader,
    InvalidHeader,
    RevisionOverflow,
}

/// The header text of a stored plan, without its line end.
pub open spec fn header_of(text: Seq<char>, newline: int) -> Seq<char> {
    let h = text.take(newline);
    if h.len() > 0 && h.last() == '\r' {
        h.drop_last()
    } else {
        h
    }
}

/// The digits between the revision header's prefix and suffix, if the
/// header has that shape.
pub open spec fn revision_digits(header: Seq<char>) -> Option<Seq<char>> {
    let p = REVISION_HEADER_PREFIX@;
    let s = REVISION_HEADER_SUFFIX@;
    if header.len() >= p.len() + s.len() && header.take(p.len() as int) == p && header.skip(
        header.len() - s.len(),
    ) == s {
        Some(header.subrange(p.len() as int, header.len() - s.len()))
    } else {
        None
    }
}

/// A revision written canonically: decimal digits without leading zeros.
pub open spec fn canonical_digits(d: Seq<char>) -> bool {
    d.len() > 0 && all_digits(d) && !(d.len() > 1 && d[0] == '0')
}

/// What reading the text of a stored plan gives.
pub open spec fn parse_plan_text(text: Seq<char>) -> Result<(u64, Seq<char>), PlanParseFault> {
    match find_first(text, seq!['\n']) {
        None => Err(PlanParseFault::MissingHeader),
        Some(newline) => match revision_digits(header_of(text, newline)) {
            None => Err(PlanParseFault::InvalidHeader),
            Some(d) => if !canonical_digits(d) {
                Err(PlanParseFault::InvalidHeader)
            } else {
                match parse_u64_spec(d) {
                    Some(rev) => Ok((rev, text.skip(newline + 1))),
                    None => Err(PlanParseFault::RevisionOverflow),
                }
            },
        },
    }
}

/// What reading the bytes of a stored plan gives.
pub open spec fn parse_plan_bytes(bytes: Seq<u8>) -> Result<(u64, Seq<char>), PlanParseFault> {
    if valid_utf8(bytes) {
        parse_plan_text(decode_utf8(bytes))
    } else {
        Err(PlanParseFault::NotUtf8(utf8_error_text(bytes)))
    }
}

/// The message that reports a parse fault.
pub open spec fn plan_fault_message(f: PlanParseFault) -> Seq<char> {
    match f {
        PlanParseFault::NotUtf8(e) => "plan is not valid UTF-8: "@ + e,
        PlanParseFault::MissingHeader => "missing revision header line"@,
        PlanParseFault::InvalidHeader => "invalid revision header"@,
        PlanParseFault::RevisionOverflow =>
            "invalid plan revision: number too large to fit in target type"@,
    }
}

fn seq_eq_at(v: &Vec<char>, at: usize, w: &Vec<char>) -> (r: bool)
    requires
        at + w.len() <= v.len(),
    ensures
        r == (v@.subrange(at as int, at + w.len()) == w@),
{
    let mut k: usize = 0;
    while k < w.len()
        invariant
            at + w.len() <= v.len(),
            k <= w.len(),
            forall|t: int| 0 <= t < k ==> v@[at + t] == w@[t],
        decreases w.len() - k,
    {
        if v[at + k] != w[k] {
            assert(v@.subrange(at as int, at + w.len())[k as int] != w@[k as int]);
            return false;
        }
        k += 1;
    }
    assert(v@.subrange(at as int, at + w.len()) =~= w@);
    true
}

/// Reads the text of a stored plan into its revision and content.
pub fn parse_plan_text_exec(path: &str, text: &str) -> (r: Result<(u64, String), PlanStoreError>)
    ensures
        match parse_plan_text(text@) {
            Ok((rev, content)) => r matches Ok((x, c)) && x == rev && c@ == content,
            Err(f) => r matches Err(PlanStoreError::InvalidData { path: p, message: m }) && p@
                == path@ && m@ == plan_fault_message(f),
        },
{
    let v = chars_of(text);
    let newline_pattern = chars_of("\n");
    assert(newline_pattern@ == seq!['\n']) by {
        reveal_strlit("\n");
    }
    let newline = match find_chars(&v, &newline_pattern) {
        Some(i) => i,
        None => {
            return Err(
                PlanStoreError::InvalidData {
                    path: owned(path),
                    message: owned("missing revision header line"),
                },
            );
        },
    };
    assert(crate::text::occurs_at(v@, newline_pattern@, newline as int));
    let mut header_end = newline;
    if header_end > 0 && v[header_end - 1] == '\r' {
        header_end = header_end - 1;
        assert(v@.take(newline as int).last() == v@[newline - 1]);
        assert(v@.take(newline as int).drop_last() == v@.take(header_end as int));
    }
    assert(v@.take(header_end as int) == header_of(text@, newline as int));
    let prefix = chars_of(REVISION_HEADER_PREFIX);
    let suffix = chars_of(REVISION_HEADER_SUFFIX);
    let ghost header = header_of(text@, newline as int);
    if header_end < prefix.len() || header_end - prefix.len() < suffix.len() || !seq_eq_at(&v, 0, &prefix) || !seq_eq_at(
        &v,
        header_end - suffix.len(),
        &suffix,
    ) {
        proof {
            if header.len() >= prefix@.len() + suffix@.len() {
                assert(header.take(prefix@.len() as int) == v@.subrange(0, prefix@.len() as int));
                assert(header.skip(header.len() - suffix@.len()) == v@.subrange(
                    header_end - suffix@.len(),
                    header_end as int,
                ));
            }
        }
        return Err(
            PlanStoreError::InvalidData {
                path: owned(path),
                message: owned("invalid revision header"),
            },
        );
    }
    let start = prefix.len();
    let end = header_end - suffix.len();
    proof {
        assert(header.take(prefix@.len() as int) == v@.subrange(0, prefix@.len() as int));
        assert(header.skip(header.len() - suffix@.len()) == v@.subrange(
            header_end - suffix@.len(),
            header_end as int,
        ));
        assert(header.subrange(start as int, end as int) == v@.subrange(start as int, end as int));
    }
    let ghost d = v@.subrange(start as int, end as int);
    assert(revision_digits(header) == Some(d));
    let mut k = start;
    let mut digits_ok = start < end;
    while k < end
        invariant
            start <= k <= end <= v.len(),
            d == v@.subrange(start as int, end as int),
            digits_ok == (start < end && forall|t: int| start <= t < k ==> crate::text::is_digit(
                #[trigger] v@[t],
            )),
        decreases end - k,
    {
        if !('0' <= v[k] && v[k] <= '9') {
            digits_ok = false;
        }
        k += 1;
    }
    if !digits_ok || (end - start > 1 && v[start] == '0') {
        proof {
            if d.len() > 0 && all_digits(d) {
                assert forall|t: int| start <= t < end implies crate::text::is_digit(
                    #[trigger] v@[t],
                ) by {
                    assert(v@[t] == d[t - start]);
                }
            }
            if !digits_ok && start < end {
                let t = choose|t: int| start <= t < end && !crate::text::is_digit(#[trigger] v@[t]);
                assert(d[t - start] == v@[t]);
            }
            if d.len() > 1 {
                assert(d[0] == v@[start as int]);
            }
        }
        return Err(
            PlanStoreError::InvalidData {
                path: owned(path),
                message: owned("invalid revision header"),
            },
        );
    }
    proof {
        assert forall|t: int| 0 <= t < d.len() implies crate::text::is_digit(#[trigger] d[t]) by {
            assert(d[t] == v@[start + t]);
        }
        if d.len() > 1 {
            assert(d[0] == v@[start as int]);
        }
    }
    let revision = match crate::text::parse_u64(&v, start, end) {
        Some(n) => n,
        None => {
            return Err(
                PlanStoreError::InvalidData {
                    path: owned(path),
                    message: owned("invalid plan revision: number too large to fit in target type"),
                },
            );
        },
    };
    let content = string_of(&v, newline + 1, v.len());
    assert(v@.subrange(newline + 1, v@.len() as int) == text@.skip(newline + 1));
    Ok((revision, content))
}

/// Reads the bytes of a stored plan into its revision and content.
pub fn parse_plan_file(path: &str, bytes: &[u8]) -> (r: Result<(u64, String), PlanStoreError>)
    ensures
        match parse_plan_bytes(bytes@) {
            Ok((rev, content)) => r matches Ok((x, c)) && x == rev && c@ == content,
            Err(f) => r matches Err(PlanStoreError::InvalidData { path: p, message: m }) && p@
                == path@ && m@ == plan_fault_message(f),
        },
{
    match str_from_utf8(bytes) {
        Ok(text) => parse_plan_text_exec(path, text),
        Err(error) => {
            let mut m = owned("plan is not valid UTF-8: ");
            push_str(&mut m, error.as_str());
            Err(PlanStoreError::InvalidData { path: owned(path), message: m })
        },
    }
}

} // verus!

verus! {

/// A positive number is written without a leading zero.
proof fn lemma_decimal_leading(n: nat)
    ensures
        decimal(n).len() > 0,
        n >= 1 ==> decimal(n)[0] != '0',
        n >= 10 ==> decimal(n).len() > 1,
    decreases n,
{
    if n >= 10 {
        lemma_decimal_leading(n / 10);
        assert(decimal(n)[0] == decimal(n / 10)[0]);
    }
}

proof fn lemma_header_prefix_chars()
    ensures
        forall|i: int| 0 <= i < REVISION_HEADER_PREFIX@.len() ==> #[trigger] REVISION_HEADER_PREFIX@[i] != '\n',
{
    reveal_strlit("<!-- phi-plan-revision: ");
}

proof fn lemma_header_suffix_chars()
    ensures
        REVISION_HEADER_SUFFIX@.len() == 4,
        forall|i: int| 0 <= i < REVISION_HEADER_SUFFIX@.len() ==> #[trigger] REVISION_HEADER_SUFFIX@[i] != '\n',
        REVISION_HEADER_SUFFIX@[3] == '>',
{
    reveal_strlit(" -->");
}

#[verifier::rlimit(50)]
proof fn lemma_first_newline(revision: u64, content: Seq<char>)
    ensures
        find_first(plan_file_text(revision, content), seq!['\n']) == Some(
            (REVISION_HEADER_PREFIX@.len() + decimal(revision as nat).len()
                + REVISION_HEADER_SUFFIX@.len()) as int,
        ),
{
    lemma_header_prefix_chars();
    lemma_header_suffix_chars();
    crate::text::lemma_decimal_digits(revision as nat);
    let p = REVISION_HEADER_PREFIX@;
    let s = REVISION_HEADER_SUFFIX@;
    let d = decimal(revision as nat);
    let header = p + d + s;
    let text = plan_file_text(revision, content);
    assert(text == header + seq!['\n'] + content);
    let nl = header.len() as int;
    let pat = seq!['\n'];
    assert(crate::text::occurs_at(text, pat, nl)) by {
        assert(text.subrange(nl, nl + 1) =~= pat);
    }
    assert forall|j: int| 0 <= j < nl implies !#[trigger] crate::text::occurs_at(text, pat, j) by {
        assert(text[j] == header[j]);
        if j < p.len() {
            assert(header[j] == p[j]);
        } else if j < p.len() + d.len() {
            assert(header[j] == d[j - p.len()]);
            assert(crate::text::is_digit(d[j - p.len()]));
        } else {
            assert(header[j] == s[j - p.len() - d.len()]);
        }
        if crate::text::occurs_at(text, pat, j) {
            assert(text.subrange(j, j + 1)[0] == text[j]);
        }
    }
    crate::text::lemma_find_first(text, pat, nl);
}

proof fn lemma_header_fields(revision: u64, content: Seq<char>)
    ensures
        ({
            let nl = (REVISION_HEADER_PREFIX@.len() + decimal(revision as nat).len()
                + REVISION_HEADER_SUFFIX@.len()) as int;
            let text = plan_file_text(revision, content);
            &&& revision_digits(header_of(text, nl)) == Some(decimal(revision as nat))
            &&& text.skip(nl + 1) == content
        }),
{
    lemma_header_suffix_chars();
    let p = REVISION_HEADER_PREFIX@;
    let s = REVISION_HEADER_SUFFIX@;
    let d = decimal(revision as nat);
    let header = p + d + s;
    let text = plan_file_text(revision, content);
    assert(text == header + seq!['\n'] + content);
    let nl = header.len() as int;
    assert(text.take(nl) == header);
    assert(header.last() == s[3]);
    assert(header_of(text, nl) == header);
    assert(header.take(p.len() as int) == p);
    assert(header.skip(header.len() - s.len()) == s);
    assert(header.subrange(p.len() as int, header.len() - s.len()) == d);
    assert(text.skip(nl + 1) == content);
}

/// Reading the stored form of a plan gives back its revision and content.
#[verifier::rlimit(50)]
pub proof fn lemma_plan_file_round_trip(revision: u64, content: Seq<char>)
    ensures
        parse_plan_text(plan_file_text(revision, content)) == Ok::<(u64, Seq<char>), PlanParseFault>(
            (revision, content),
        ),
{
    lemma_first_newline(revision, content);
    lemma_header_fields(revision, content);
    crate::text::lemma_decimal_digits(revision as nat);
    lemma_decimal_leading(revision as nat);
    crate::text::lemma_parse_decimal(revision);
}

} // verus!

verus! {

/// The plan recorded last for `id` among `plans`.
pub open spec fn plan_lookup(plans: Seq<PlanArtifact>, id: Seq<char>) -> Option<PlanArtifact>
    decreases plans.len(),
{
    if plans.len() == 0 {
        None
    } else if plans.last().session_id@ == id {
        Some(plans.last())
    } else {
        plan_lookup(plans.drop_last(), id)
    }
}

/// Session ids are distinct and every stored revision is positive.
pub open spec fn plans_well_formed(plans: Seq<PlanArtifact>) -> bool {
    &&& forall|i: int, j: int|
        0 <= i < j < plans.len() ==> (#[trigger] plans[i]).session_id@ != (#[trigger] plans[j]).session_id@
    &&& forall|i: int| 0 <= i < plans.len() ==> (#[trigger] plans[i]).revision >= 1
}

proof fn lemma_lookup_found(plans: Seq<PlanArtifact>, i: int)
    requires
        plans_well_formed(plans),
        0 <= i < plans.len(),
    ensures
        plan_lookup(plans, plans[i].session_id@) == Some(plans[i]),
    decreases plans.len(),
{
    if i < plans.len() - 1 {
        assert(plans.last() == plans[plans.len() - 1]);
        assert(plans.drop_last()[i] == plans[i]);
        lemma_lookup_found(plans.drop_last(), i);
    }
}

proof fn lemma_lookup_absent(plans: Seq<PlanArtifact>, id: Seq<char>)
    requires
        forall|i: int| 0 <= i < plans.len() ==> (#[trigger] plans[i]).session_id@ != id,
    ensures
        plan_lookup(plans, id) is None,
    decreases plans.len(),
{
    if plans.len() > 0 {
        assert(plans.last() == plans[plans.len() - 1]);
        lemma_lookup_absent(plans.drop_last(), id);
    }
}

proof fn lemma_lookup_positive(plans: Seq<PlanArtifact>, id: Seq<char>)
    requires
        plans_well_formed(plans),
    ensures
        plan_lookup(plans, id) matches Some(a) ==> a.revision >= 1 && a.session_id@ == id,
    decreases plans.len(),
{
    if plans.len() > 0 {
        assert(plans.last() == plans[plans.len() - 1]);
        lemma_lookup_positive(plans.drop_last(), id);
    }
}

proof fn lemma_lookup_other(plans: Seq<PlanArtifact>, i: int, a: PlanArtifact, k: Seq<char>)
    requires
        0 <= i < plans.len(),
        a.session_id@ == plans[i].session_id@,
        k != a.session_id@,
    ensures
        plan_lookup(plans.update(i, a), k) == plan_lookup(plans, k),
    decreases plans.len(),
{
    let u = plans.update(i, a);
    if i < plans.len() - 1 {
        assert(u.drop_last() == plans.drop_last().update(i, a));
        assert(u.last() == plans.last());
        lemma_lookup_other(plans.drop_last(), i, a, k);
    } else {
        assert(u.drop_last() == plans.drop_last());
    }
}

/// Process-local plan persistence: the latest plan of each session, with
/// optimistic revision checks on every update.
#[derive(Debug)]
pub struct InMemoryPlanStore {
    plans: Vec<PlanArtifact>,
}

/// The revision a session currently has: `0` when it has no plan.
pub open spec fn revision_of(plan: Option<(u64, Seq<char>)>) -> u64 {
    match plan {
        Some((r, _)) => r,
        None => EMPTY_PLAN_REVISION,
    }
}

impl InMemoryPlanStore {
    /// The revision and content of the plan of session `id`, if any.
    pub closed spec fn spec_plan(&self, id: Seq<char>) -> Option<(u64, Seq<char>)> {
        match plan_lookup(self.plans@, id) {
            Some(a) => Some((a.revision, a.content@)),
            None => None,
        }
    }

    #[verifier::type_invariant]
    spec fn well_formed(self) -> bool {
        plans_well_formed(self.plans@)
    }

    /// A book with no plans.
    pub fn new() -> (r: Self)
        ensures
            forall|id: Seq<char>| r.spec_plan(id) is None,
    {
        InMemoryPlanStore { plans: Vec::new() }
    }

    fn index_of(&self, session_id: &str) -> (r: Option<usize>)
        ensures
            match r {
                Some(i) => i < self.plans@.len() && self.plans@[i as int].session_id@ == session_id@
                    && plan_lookup(self.plans@, session_id@) == Some(self.plans@[i as int]),
                None => plan_lookup(self.plans@, session_id@) is None,
            },
    {
        proof {
            use_type_invariant(self);
        }
        let target = owned(session_id);
        let mut i: usize = 0;
        while i < self.plans.len()
            invariant
                i <= self.plans@.len(),
                target@ == session_id@,
                forall|j: int| 0 <= j < i ==> (#[trigger] self.plans@[j]).session_id@ != session_id@,
            decreases self.plans.len() - i,
        {
            if string_eq(&self.plans[i].session_id, &target) {
                proof {
                    use_type_invariant(self);
                    lemma_lookup_found(self.plans@, i as int);
                }
                return Some(i);
            }
            i += 1;
        }
        proof {
            lemma_lookup_absent(self.plans@, session_id@);
        }
        None
    }

    /// The current plan of `session_id`, or `None` when it has none.
    pub fn current(&self, session_id: &str) -> (r: Result<Option<PlanArtifact>, PlanStoreError>)
        ensures
            r is Ok <==> valid_plan_session_id(session_id@),
            r matches Err(e) ==> e is InvalidSessionId,
            r matches Ok(o) ==> match (o, self.spec_plan(session_id@)) {
                (Some(a), Some((rev, content))) => a.session_id@ == session_id@ && a.revision == rev
                    && a.content@ == content,
                (None, None) => true,
                _ => false,
            },
    {
        match validate_session_id(session_id) {
            Ok(()) => {},
            Err(e) => {
                return Err(e);
            },
        }
        match self.index_of(session_id) {
            Some(i) => Ok(Some(self.plans[i].duplicate())),
            None => Ok(None),
        }
    }

    /// Replaces the plan of `session_id` if its current revision is
    /// `expected_revision`; the stored plan gets the next revision.
    pub fn update(&mut self, session_id: &str, expected_revision: u64, content: String) -> (r:
        Result<PlanArtifact, PlanStoreError>)
        ensures
            r is Ok <==> (valid_plan_session_id(session_id@) && utf8_len(content@) <= MAX_PLAN_BYTES
                && expected_revision == revision_of(old(self).spec_plan(session_id@))
                && expected_revision < u64::MAX),
            !valid_plan_session_id(session_id@) ==> (r matches Err(e) && e is InvalidSessionId),
            valid_plan_session_id(session_id@) && utf8_len(content@) > MAX_PLAN_BYTES ==> (r matches Err(
                e,
            ) && e is PlanTooLarge),
            valid_plan_session_id(session_id@) && utf8_len(content@) <= MAX_PLAN_BYTES
                && expected_revision != revision_of(old(self).spec_plan(session_id@)) ==> (r matches Err(
                PlanStoreError::RevisionConflict { session_id: s, expected: x, actual: y },
            ) && s@ == session_id@ && x == expected_revision && y == revision_of(
                old(self).spec_plan(session_id@),
            )),
            r matches Ok(a) ==> a.session_id@ == session_id@ && a.revision == expected_revision + 1
                && a.content == content && final(self).spec_plan(session_id@) == Some(
                (a.revision, content@),
            ) && forall|k: Seq<char>|
                k != session_id@ ==> #[trigger] final(self).spec_plan(k) == old(self).spec_plan(k),
            r is Err ==> forall|k: Seq<char>| #[trigger]
                final(self).spec_plan(k) == old(self).spec_plan(k),
    {
        proof {
            use_type_invariant(&*self);
        }
        match validate_session_id(session_id) {
            Ok(()) => {},
            Err(e) => {
                return Err(e);
            },
        }
        match validate_plan_content(content.as_str()) {
            Ok(()) => {},
            Err(e) => {
                return Err(e);
            },
        }
        let found = self.index_of(session_id);
        let actual = match found {
            Some(i) => self.plans[i].revision,
            None => EMPTY_PLAN_REVISION,
        };
        match ensure_expected_revision(session_id, expected_revision, actual) {
            Ok(()) => {},
            Err(e) => {
                return Err(e);
            },
        }
        let revision = match next_revision(session_id, actual) {
            Ok(r) => r,
            Err(e) => {
                return Err(e);
            },
        };
        let artifact = PlanArtifact { session_id: owned(session_id), revision, content };
        let stored = artifact.duplicate();
        let mut plans: Vec<PlanArtifact> = Vec::new();
        std::mem::swap(&mut plans, &mut self.plans);
        let ghost before = plans@;
        match found {
            Some(i) => {
                proof {
                    assert forall|k: Seq<char>| k != session_id@ implies plan_lookup(
                        before.update(i as int, stored),
                        k,
                    ) == plan_lookup(before, k) by {
                        lemma_lookup_other(before, i as int, stored, k);
                    }
                    let u = before.update(i as int, stored);
                    assert(plans_well_formed(u)) by {
                        assert forall|a: int, b: int|
                            0 <= a < b < u.len() implies (#[trigger] u[a]).session_id@ != (
                            #[trigger] u[b]).session_id@ by {
                            if a != i && b != i {
                                assert(u[a] == before[a] && u[b] == before[b]);
                            } else if a == i {
                                assert(u[b] == before[b]);
                            } else {
                                assert(u[a] == before[a]);
                            }
                        }
                    }
                    lemma_lookup_found(u, i as int);
                }
                plans.set(i, stored);
            },
            None => {
                proof {
                    let u = before.push(stored);
                    assert(plans_well_formed(u)) by {
                        assert forall|a: int, b: int|
                            0 <= a < b < u.len() implies (#[trigger] u[a]).session_id@ != (
                            #[trigger] u[b]).session_id@ by {
                            assert(u[a] == before[a]);
                            if b < before.len() {
                                assert(u[b] == before[b]);
                            } else {
                                lemma_lookup_found(before, a);
                            }
                        }
                    }
                    assert(u.drop_last() == before);
                }
                plans.push(stored);
            },
        }
        self.plans = plans;
        Ok(artifact)
    }
}

} // verus!
