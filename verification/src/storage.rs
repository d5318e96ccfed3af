//! Session snapshots, their validation, and the event log that rebuilds
//! them.
use vstd::prelude::*;

use crate::text::{all_ws, byte_len, decimal, decimal_string, is_blank, owned, push_str, utf8_len};
use crate::tool::CapabilityMode;
use base64::Engine;
use crate::types::{AgentMode, Message, TokenUsage, Workspace};

verus! {

broadcast use vstd::string::group_string_axioms;

/// Maximum UTF-8 size of a session identifier.
pub const MAX_SESSION_ID_BYTES: usize = 180;

/// Conversation state required to resume an agent.
#[derive(Clone, Debug, PartialEq, Eq)]
pub struct SessionSnapshot {
    pub id: String,
    /// Immutable working directory associated with this session.
    pub workspace: Option<Workspace>,
    pub messages: Vec<Message>,
    pub last_usage: Option<TokenUsage>,
    pub cumulative_usage: TokenUsage,
    /// Execution mode restored when this session is resumed.
    pub mode: AgentMode,
    /// Maximum tool capability restored when this session is resumed.
    pub capability_mode: CapabilityMode,
}

/// Failures of session persistence.
#[derive(Clone, Debug, PartialEq, Eq)]
pub enum StorageError {
    InvalidSessionId(String),
    Io { path: String, message: String },
    Serialization(String),
    InvalidLogRecord { path: String, line: usize, message: String },
    UnsupportedFormatVersion(u32),
    SessionIdMismatch { expected: String, actual: String },
    WorkspaceMismatch { session_id: String, stored: String, requested: Option<String> },
    InvalidTranscript { session_id: String, message: String },
}

/// A session identifier is acceptable: not blank and at most 180 UTF-8 bytes.
pub open spec fn valid_session_id(id: Seq<char>) -> bool {
    !all_ws(id) && utf8_len(id) <= MAX_SESSION_ID_BYTES
}

/// Checks a session identifier.
pub fn validate_session_id(session_id: &str) -> (r: Result<(), StorageError>)
    ensures
        r is Ok <==> valid_session_id(session_id@),
        all_ws(session_id@) ==> (r matches Err(StorageError::InvalidSessionId(m)) && m@
            == "must not be empty"@),
        !all_ws(session_id@) && utf8_len(session_id@) > MAX_SESSION_ID_BYTES ==> (r matches Err(
            StorageError::InvalidSessionId(m),
        ) && m@ == "must not exceed 180 UTF-8 bytes"@),
{
    if is_blank(session_id) {
        return Err(StorageError::InvalidSessionId(owned("must not be empty")));
    }
    if byte_len(session_id) > MAX_SESSION_ID_BYTES {
        return Err(StorageError::InvalidSessionId(owned("must not exceed 180 UTF-8 bytes")));
    }
    Ok(())
}

impl SessionSnapshot {
    /// A new snapshot with default usage and modes and no workspace.
    pub fn new(id: String, messages: Vec<Message>) -> (r: Result<Self, StorageError>)
        ensures
            r is Ok <==> valid_session_id(id@),
            r matches Ok(s) ==> s.id == id && s.messages == messages && s.workspace is None
                && s.last_usage is None && s.cumulative_usage == TokenUsage::spec_zero()
                && s.mode == AgentMode::Default && s.capability_mode == CapabilityMode::FullAccess,
            r matches Err(e) ==> e is InvalidSessionId,
    {
        match validate_session_id(id.as_str()) {
            Ok(()) => {},
            Err(e) => {
                return Err(e);
            },
        }
        Ok(
            SessionSnapshot {
                id,
                workspace: None,
                messages,
                last_usage: None,
                cumulative_usage: TokenUsage::zero(),
                mode: AgentMode::Default,
                capability_mode: CapabilityMode::FullAccess,
            },
        )
    }

    /// Binds the snapshot to `workspace`.
    pub fn with_workspace(self, workspace: Workspace) -> (r: Self)
        ensures
            r == (SessionSnapshot { workspace: Some(workspace), ..self }),
    {
        SessionSnapshot { workspace: Some(workspace), ..self }
    }
}

impl TokenUsage {
    pub open spec fn spec_zero() -> TokenUsage {
        TokenUsage { input_tokens: 0, output_tokens: 0, total_tokens: 0, cached_input_tokens: 0 }
    }
}

/// One record of a session log: what it does to the rebuilt snapshot.
#[derive(Clone, Debug, PartialEq, Eq)]
pub enum StoredSessionEvent {
    /// Appends messages and replaces the usage and modes.
    Append {
        messages: Vec<Message>,
        workspace: Option<Workspace>,
        last_usage: Option<TokenUsage>,
        cumulative_usage: TokenUsage,
        mode: AgentMode,
        capability_mode: CapabilityMode,
    },
    /// Replaces the whole snapshot.
    Replace {
        messages: Vec<Message>,
        workspace: Option<Workspace>,
        last_usage: Option<TokenUsage>,
        cumulative_usage: TokenUsage,
        mode: AgentMode,
        capability_mode: CapabilityMode,
    },
    /// Keeps the first `from` messages, appends the rest anew, and replaces
    /// the usage and modes.
    ReplaceTail {
        from: usize,
        messages: Vec<Message>,
        workspace: Option<Workspace>,
        last_usage: Option<TokenUsage>,
        cumulative_usage: TokenUsage,
        mode: AgentMode,
        capability_mode: CapabilityMode,
    },
}

/// The snapshot a record builds on: the current one, or a fresh one.
pub open spec fn base_snapshot(snapshot: Option<SessionSnapshot>, session_id: Seq<char>) -> (Option<Workspace>, Seq<Message>) {
    match snapshot {
        Some(s) => (s.workspace, s.messages@),
        None => (None, Seq::empty()),
    }
}

fn empty_snapshot(session_id: &str) -> (r: SessionSnapshot)
    ensures
        r.id@ == session_id@,
        r.workspace is None,
        r.messages@.len() == 0,
        r.last_usage is None,
        r.cumulative_usage == TokenUsage::spec_zero(),
        r.mode == AgentMode::Default,
        r.capability_mode == CapabilityMode::FullAccess,
{
    SessionSnapshot {
        id: owned(session_id),
        workspace: None,
        messages: Vec::new(),
        last_usage: None,
        cumulative_usage: TokenUsage::zero(),
        mode: AgentMode::Default,
        capability_mode: CapabilityMode::FullAccess,
    }
}

/// Applies one log record to the snapshot being rebuilt. A tail
/// replacement that keeps more messages than are stored is an invalid
/// transcript.
pub fn apply_record(snapshot: &mut Option<SessionSnapshot>, session_id: &str, event: StoredSessionEvent) -> (r: Result<(), StorageError>)
    ensures
        match event {
            StoredSessionEvent::Replace { messages, workspace, last_usage, cumulative_usage, mode, capability_mode } =>
                r is Ok && (*final(snapshot) matches Some(s) && s.id@ == session_id@ && s.workspace == workspace
                    && s.messages@ == messages@ && s.last_usage == last_usage && s.cumulative_usage == cumulative_usage
                    && s.mode == mode && s.capability_mode == capability_mode),
            StoredSessionEvent::Append { messages, workspace, last_usage, cumulative_usage, mode, capability_mode } => {
                let (ws, ms) = base_snapshot(*old(snapshot), session_id@);
                r is Ok && (*final(snapshot) matches Some(s) && (*old(snapshot) matches Some(o) ==> s.id == o.id)
                    && (*old(snapshot) is None ==> s.id@ == session_id@)
                    && s.workspace == (if workspace is Some { workspace } else { ws })
                    && s.messages@ == ms + messages@ && s.last_usage == last_usage
                    && s.cumulative_usage == cumulative_usage && s.mode == mode
                    && s.capability_mode == capability_mode)
            },
            StoredSessionEvent::ReplaceTail { from, messages, workspace, last_usage, cumulative_usage, mode, capability_mode } => {
                let (ws, ms) = base_snapshot(*old(snapshot), session_id@);
                if from > ms.len() {
                    (r matches Err(StorageError::InvalidTranscript { session_id: sid, message: m }) && sid@ == session_id@
                        && m@ == "tail replacement keeps "@ + decimal(from as nat) + " messages, but only "@
                        + decimal(ms.len()) + " have been stored"@)
                } else {
                    r is Ok && (*final(snapshot) matches Some(s) && (*old(snapshot) matches Some(o) ==> s.id == o.id)
                        && (*old(snapshot) is None ==> s.id@ == session_id@)
                        && s.workspace == (if workspace is Some { workspace } else { ws })
                        && s.messages@ == ms.take(from as int) + messages@ && s.last_usage == last_usage
                        && s.cumulative_usage == cumulative_usage && s.mode == mode
                        && s.capability_mode == capability_mode)
                }
            },
        },
{
    match event {
        StoredSessionEvent::Replace { messages, workspace, last_usage, cumulative_usage, mode, capability_mode } => {
            *snapshot = Some(SessionSnapshot {
                id: owned(session_id),
                workspace,
                messages,
                last_usage,
                cumulative_usage,
                mode,
                capability_mode,
            });
            Ok(())
        },
        StoredSessionEvent::Append { messages, workspace, last_usage, cumulative_usage, mode, capability_mode } => {
            let mut session = match snapshot.take() {
                Some(s) => s,
                None => empty_snapshot(session_id),
            };
            if workspace.is_some() {
                session.workspace = workspace;
            }
            let mut more = messages;
            session.messages.append(&mut more);
            session.last_usage = last_usage;
            session.cumulative_usage = cumulative_usage;
            session.mode = mode;
            session.capability_mode = capability_mode;
            *snapshot = Some(session);
            Ok(())
        },
        StoredSessionEvent::ReplaceTail { from, messages, workspace, last_usage, cumulative_usage, mode, capability_mode } => {
            let mut session = match snapshot.take() {
                Some(s) => s,
                None => empty_snapshot(session_id),
            };
            if workspace.is_some() {
                session.workspace = workspace;
            }
            if from > session.messages.len() {
                let stored = session.messages.len();
                let mut m = owned("tail replacement keeps ");
                let a = decimal_string(from as u64);
                push_str(&mut m, a.as_str());
                push_str(&mut m, " messages, but only ");
                let b = decimal_string(stored as u64);
                push_str(&mut m, b.as_str());
                push_str(&mut m, " have been stored");
                *snapshot = Some(session);
                return Err(StorageError::InvalidTranscript { session_id: owned(session_id), message: m });
            }
            session.messages.truncate(from);
            let mut more = messages;
            session.messages.append(&mut more);
            session.last_usage = last_usage;
            session.cumulative_usage = cumulative_usage;
            session.mode = mode;
            session.capability_mode = capability_mode;
            *snapshot = Some(session);
            Ok(())
        },
    }
}

/// A stored workspace binding admits a request only for the same workspace.
pub open spec fn binding_ok(stored: Option<Workspace>, requested: Option<Workspace>) -> bool {
    match stored {
        None => true,
        Some(s) => requested matches Some(q) && q.root@ == s.root@,
    }
}

/// A session bound to a workspace may be saved only for that workspace.
pub fn validate_workspace_binding(session_id: &str, stored: Option<&Workspace>, requested: Option<&Workspace>) -> (r: Result<(), StorageError>)
    ensures
        r is Ok <==> binding_ok(
            match stored { Some(s) => Some(*s), None => None },
            match requested { Some(q) => Some(*q), None => None },
        ),
        r matches Err(StorageError::WorkspaceMismatch { session_id: sid, stored: st, requested: rq }) ==> sid@ == session_id@
            && (stored matches Some(s) && st@ == s.root@)
            && match (rq, requested) {
                (Some(a), Some(b)) => a@ == b.root@,
                (None, None) => true,
                _ => false,
            },
        r is Err ==> r matches Err(StorageError::WorkspaceMismatch { .. }),
{
    let s = match stored {
        None => {
            return Ok(());
        },
        Some(s) => s,
    };
    match requested {
        Some(q) => {
            if crate::text::string_eq(&q.root, &s.root) {
                return Ok(());
            }
        },
        None => {},
    }
    Err(StorageError::WorkspaceMismatch {
        session_id: owned(session_id),
        stored: s.root.clone(),
        requested: match requested {
            Some(q) => Some(q.root.clone()),
            None => None,
        },
    })
}

/// The position of the session `id` among `sessions`.
pub open spec fn session_index(sessions: Seq<SessionSnapshot>, id: Seq<char>) -> Option<int> {
    if exists|i: int| 0 <= i < sessions.len() && (#[trigger] sessions[i]).id@ == id {
        Some(choose|i: int| 0 <= i < sessions.len() && (#[trigger] sessions[i]).id@ == id)
    } else {
        None
    }
}

pub open spec fn unique_sessions(sessions: Seq<SessionSnapshot>) -> bool {
    forall|i: int, j: int| 0 <= i < j < sessions.len() ==> (#[trigger] sessions[i]).id@ != (#[trigger] sessions[j]).id@
}

/// Process-local session storage.
#[derive(Debug)]
pub struct InMemorySessionStorage {
    sessions: Vec<SessionSnapshot>,
}

impl InMemorySessionStorage {
    pub closed spec fn spec_sessions(&self) -> Seq<SessionSnapshot> {
        self.sessions@
    }

    #[verifier::type_invariant]
    spec fn unique(self) -> bool {
        unique_sessions(self.sessions@)
    }

    /// The stored snapshot of `id`.
    pub open spec fn spec_session(&self, id: Seq<char>) -> Option<SessionSnapshot> {
        match session_index(self.spec_sessions(), id) {
            Some(i) => Some(self.spec_sessions()[i]),
            None => None,
        }
    }

    pub fn new() -> (r: Self)
        ensures
            forall|id: Seq<char>| #[trigger] r.spec_session(id) is None,
    {
        InMemorySessionStorage { sessions: Vec::new() }
    }

    fn position(&self, id: &str) -> (r: Option<usize>)
        ensures
            match r {
                Some(i) => i < self.spec_sessions().len() && session_index(self.spec_sessions(), id@) == Some(i as int),
                None => session_index(self.spec_sessions(), id@) is None,
            },
    {
        proof {
            use_type_invariant(self);
        }
        let target = owned(id);
        let mut i: usize = 0;
        while i < self.sessions.len()
            invariant
                i <= self.sessions@.len(),
                target@ == id@,
                unique_sessions(self.sessions@),
                forall|k: int| 0 <= k < i ==> (#[trigger] self.sessions@[k]).id@ != id@,
            decreases self.sessions.len() - i,
        {
            if crate::text::string_eq(&self.sessions[i].id, &target) {
                proof {
                    let ss = self.sessions@;
                    let w = choose|w: int| 0 <= w < ss.len() && (#[trigger] ss[w]).id@ == id@;
                    assert(ss[i as int].id@ == id@);
                    if w != i {
                        if w < i {
                            assert(ss[w].id@ != ss[i as int].id@);
                        } else {
                            assert(ss[i as int].id@ != ss[w].id@);
                        }
                    }
                }
                return Some(i);
            }
            i += 1;
        }
        None
    }

    /// The snapshot of `session_id`, if one was saved.
    pub fn load(&self, session_id: &str) -> (r: Result<Option<&SessionSnapshot>, StorageError>)
        ensures
            r is Ok <==> valid_session_id(session_id@),
            r matches Err(e) ==> e is InvalidSessionId,
            r matches Ok(o) ==> match (o, self.spec_session(session_id@)) {
                (Some(a), Some(b)) => *a == b,
                (None, None) => true,
                _ => false,
            },
    {
        match validate_session_id(session_id) {
            Ok(()) => {},
            Err(e) => {
                return Err(e);
            },
        }
        match self.position(session_id) {
            Some(i) => Ok(Some(&self.sessions[i])),
            None => Ok(None),
        }
    }

    /// Stores `session` under its identifier. A session bound to a workspace
    /// cannot be saved for another one.
    pub fn save(&mut self, session: SessionSnapshot) -> (r: Result<(), StorageError>)
        ensures
            r is Ok <==> valid_session_id(session.id@) && match old(self).spec_session(session.id@) {
                Some(cur) => binding_ok(cur.workspace, session.workspace),
                None => true,
            },
            r is Ok ==> final(self).spec_session(session.id@) == Some(session)
                && forall|k: Seq<char>| k != session.id@ ==> #[trigger] final(self).spec_session(k) == old(self).spec_session(k),
            r is Err ==> forall|k: Seq<char>| #[trigger] final(self).spec_session(k) == old(self).spec_session(k),
    {
        proof {
            use_type_invariant(&*self);
        }
        match validate_session_id(session.id.as_str()) {
            Ok(()) => {},
            Err(e) => {
                return Err(e);
            },
        }
        let found = self.position(session.id.as_str());
        match found {
            Some(i) => {
                match validate_workspace_binding(
                    session.id.as_str(),
                    match &self.sessions[i].workspace {
                        Some(w) => Some(w),
                        None => None,
                    },
                    match &session.workspace {
                        Some(w) => Some(w),
                        None => None,
                    },
                ) {
                    Ok(()) => {},
                    Err(e) => {
                        return Err(e);
                    },
                }
            },
            None => {},
        }
        let ghost before = self.sessions@;
        let ghost id = session.id@;
        let mut sessions: Vec<SessionSnapshot> = Vec::new();
        std::mem::swap(&mut sessions, &mut self.sessions);
        match found {
            Some(i) => {
                sessions.set(i, session);
            },
            None => {
                sessions.push(session);
            },
        }
        proof {
            let ss = sessions@;
            assert forall|a: int, b: int| 0 <= a < b < ss.len() implies (#[trigger] ss[a]).id@ != (#[trigger] ss[b]).id@ by {
                if a < before.len() && b < before.len() && ss[a] == before[a] && ss[b] == before[b] {
                } else if found is Some && b == found->0 {
                    assert(ss[a] == before[a]);
                    assert(before[b].id@ == id);
                } else if found is Some && a == found->0 {
                    assert(ss[b] == before[b]);
                    assert(before[a].id@ == id);
                } else {
                    assert(ss[a] == before[a]);
                    if before[a].id@ == id {
                        assert(session_index(before, id) is Some);
                    }
                }
            }
            assert forall|k: Seq<char>| #[trigger] session_index(ss, k) == (if k == id {
                Some(match found { Some(i) => i as int, None => before.len() as int })
            } else {
                session_index(before, k)
            }) by {
                let p = match found { Some(i) => i as int, None => before.len() as int };
                assert(ss[p].id@ == id);
                if exists|w: int| 0 <= w < ss.len() && (#[trigger] ss[w]).id@ == k {
                    let w = choose|w: int| 0 <= w < ss.len() && (#[trigger] ss[w]).id@ == k;
                    if w != p {
                        assert(ss[w] == before[w]);
                    }
                }
                if exists|w: int| 0 <= w < before.len() && (#[trigger] before[w]).id@ == k {
                    let w = choose|w: int| 0 <= w < before.len() && (#[trigger] before[w]).id@ == k;
                    if k != id {
                        assert(ss[w] == before[w]);
                    }
                }
                if k == id {
                    let w = choose|w: int| 0 <= w < ss.len() && (#[trigger] ss[w]).id@ == k;
                    if w != p {
                        if w < p {
                            assert(ss[w].id@ != ss[p].id@);
                        } else {
                            assert(ss[p].id@ != ss[w].id@);
                        }
                    }
                }
            }
        }
        self.sessions = sessions;
        Ok(())
    }
}

impl InMemorySessionStorage {
    /// Forgets the session `session_id`.
    pub fn delete(&mut self, session_id: &str) -> (r: Result<(), StorageError>)
        ensures
            r is Ok <==> valid_session_id(session_id@),
            r matches Err(e) ==> e is InvalidSessionId,
            r is Ok ==> final(self).spec_session(session_id@) is None
                && forall|k: Seq<char>| k != session_id@ ==> #[trigger] final(self).spec_session(k) == old(self).spec_session(k),
            r is Err ==> forall|k: Seq<char>| #[trigger] final(self).spec_session(k) == old(self).spec_session(k),
    {
        proof {
            use_type_invariant(&*self);
        }
        match validate_session_id(session_id) {
            Ok(()) => {},
            Err(e) => {
                return Err(e);
            },
        }
        let i = match self.position(session_id) {
            Some(i) => i,
            None => {
                return Ok(());
            },
        };
        let ghost before = self.sessions@;
        let mut sessions: Vec<SessionSnapshot> = Vec::new();
        std::mem::swap(&mut sessions, &mut self.sessions);
        let _removed = sessions.remove(i);
        proof {
            let ss = sessions@;
            assert(ss == before.remove(i as int));
            assert forall|a: int, b: int| 0 <= a < b < ss.len() implies (#[trigger] ss[a]).id@ != (#[trigger] ss[b]).id@ by {
                let a0 = if a < i { a } else { a + 1 };
                let b0 = if b < i { b } else { b + 1 };
                assert(ss[a] == before[a0] && ss[b] == before[b0]);
            }
            assert(before[i as int].id@ == session_id@);
            assert forall|k: Seq<char>| #[trigger] session_index(ss, k) == (if k == session_id@ {
                None
            } else {
                match session_index(before, k) {
                    Some(w) => Some(if w < i { w } else { w - 1 }),
                    None => None,
                }
            }) by {
                if exists|w: int| 0 <= w < ss.len() && (#[trigger] ss[w]).id@ == k {
                    let w = choose|w: int| 0 <= w < ss.len() && (#[trigger] ss[w]).id@ == k;
                    let w0 = if w < i { w } else { w + 1 };
                    assert(ss[w] == before[w0]);
                    if k == session_id@ {
                        if w0 < i {
                            assert(before[w0].id@ != before[i as int].id@);
                        } else {
                            assert(before[i as int].id@ != before[w0].id@);
                        }
                    }
                }
                if k != session_id@ && exists|w: int| 0 <= w < before.len() && (#[trigger] before[w]).id@ == k {
                    let w = choose|w: int| 0 <= w < before.len() && (#[trigger] before[w]).id@ == k;
                    assert(w != i);
                    let w1 = if w < i { w } else { w - 1 };
                    assert(ss[w1] == before[w]);
                    let v = choose|v: int| 0 <= v < ss.len() && (#[trigger] ss[v]).id@ == k;
                    if v != w1 {
                        if v < w1 {
                            assert(ss[v].id@ != ss[w1].id@);
                        } else {
                            assert(ss[w1].id@ != ss[v].id@);
                        }
                    }
                }
            }
        }
        self.sessions = sessions;
        Ok(())
    }
}

/// The URL-safe base64 digit of a six-bit value: `A`–`Z`, `a`–`z`,
/// `0`–`9`, `-` and `_`.
pub open spec fn base64_url_digit(n: int) -> char {
    if n < 26 {
        (65 + n) as char
    } else if n < 52 {
        (97 + n - 26) as char
    } else if n < 62 {
        (48 + n - 52) as char
    } else if n == 62 {
        '-'
    } else {
        '_'
    }
}

/// The unpadded URL-safe base64 text of `bytes` (`base64`'s
/// `URL_SAFE_NO_PAD` engine): each group of three bytes becomes four
/// digits; a final group of one or two bytes becomes two or three digits,
/// its missing low bits zero.
pub open spec fn base64_url_no_pad(bytes: Seq<u8>) -> Seq<char>
    decreases bytes.len(),
{
    let d = |n: int| base64_url_digit(n);
    let b0 = bytes[0] as int;
    let b1 = if bytes.len() > 1 {
        bytes[1] as int
    } else {
        0
    };
    let b2 = if bytes.len() > 2 {
        bytes[2] as int
    } else {
        0
    };
    if bytes.len() == 0 {
        Seq::empty()
    } else if bytes.len() == 1 {
        seq![d(b0 / 4), d((b0 % 4) * 16)]
    } else if bytes.len() == 2 {
        seq![d(b0 / 4), d((b0 % 4) * 16 + b1 / 16), d((b1 % 16) * 4)]
    } else {
        seq![
            d(b0 / 4),
            d((b0 % 4) * 16 + b1 / 16),
            d((b1 % 16) * 4 + b2 / 64),
            d(b2 % 64),
        ] + base64_url_no_pad(bytes.skip(3))
    }
}

/// Encodes bytes with `base64::engine::general_purpose::URL_SAFE_NO_PAD`,
/// whose output is the unpadded URL-safe alphabet encoding stated by
/// `base64_url_no_pad`.
#[verifier::external_body]
fn encode_base64_url(bytes: &[u8]) -> (r: String)
    ensures
        r@ == base64_url_no_pad(bytes@),
{
    base64::engine::general_purpose::URL_SAFE_NO_PAD.encode(bytes)
}

/// The log file name of a session: `session-`, the base64 form of its
/// identifier's UTF-8 bytes, and `.jsonl`.
pub fn session_file_name(session_id: &str) -> (r: Result<String, StorageError>)
    ensures
        r is Ok <==> valid_session_id(session_id@),
        r matches Err(e) ==> e is InvalidSessionId,
        r matches Ok(n) ==> n@ == "session-"@ + base64_url_no_pad(vstd::utf8::encode_utf8(session_id@))
            + ".jsonl"@,
{
    match validate_session_id(session_id) {
        Ok(()) => {},
        Err(e) => {
            return Err(e);
        },
    }
    let encoded = encode_base64_url(session_id.as_bytes());
    let mut name = owned("session-");
    push_str(&mut name, encoded.as_str());
    push_str(&mut name, ".jsonl");
    Ok(name)
}

} // verus!
