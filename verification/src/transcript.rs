//! Protocol rules of a transcript: every assistant tool call is answered, in
//! order and before anything else, by a tool result carrying its id.
use vstd::prelude::*;

use crate::error::HookError;
use crate::storage::StorageError;
use crate::text::{debug_str, debug_string, decimal, owned, push_decimal, push_str, string_eq};
use crate::types::{Message, Role, call_ids, messages_view, message_eq, opt_str_view};

verus! {

broadcast use vstd::string::group_string_axioms;

/// Content of the tool results that close calls interrupted before their
/// results were persisted.
pub const INTERRUPTED_TOOL_RESULT: &'static str =
    "tool execution was interrupted before its result was persisted";

/// The first way in which a transcript breaks the pairing rule.
pub ghost enum PairingFault {
    /// An assistant message arrived while earlier calls were unanswered.
    EarlyAssistant,
    /// A tool result arrived with no call waiting for it.
    OrphanToolResult,
    /// A tool result answered the wrong call.
    MismatchedToolResult { found: Option<Seq<char>>, expected: Seq<char> },
    /// A system or user message arrived while calls were unanswered.
    SplitBatch,
}

/// One message applied to the ids of the calls still waiting for results.
pub open spec fn pairing_step(pending: Seq<Seq<char>>, m: Message) -> Result<Seq<Seq<char>>, PairingFault> {
    match m.role {
        Role::Assistant => if pending.len() > 0 {
            Err(PairingFault::EarlyAssistant)
        } else {
            Ok(call_ids(m))
        },
        Role::Tool => if pending.len() == 0 {
            Err(PairingFault::OrphanToolResult)
        } else if opt_str_view(m.tool_call_id) == Some(pending[0]) {
            Ok(pending.drop_first())
        } else {
            Err(
                PairingFault::MismatchedToolResult {
                    found: opt_str_view(m.tool_call_id),
                    expected: pending[0],
                },
            )
        },
        _ => if pending.len() > 0 {
            Err(PairingFault::SplitBatch)
        } else {
            Ok(pending)
        },
    }
}

/// The calls left unanswered after `ms`, or the first fault in `ms`.
pub open spec fn pairing(ms: Seq<Message>) -> Result<Seq<Seq<char>>, PairingFault>
    decreases ms.len(),
{
    if ms.len() == 0 {
        Ok(Seq::empty())
    } else {
        match pairing(ms.drop_last()) {
            Err(f) => Err(f),
            Ok(pending) => pairing_step(pending, ms.last()),
        }
    }
}

/// Every call in `ms` is answered, in order.
pub open spec fn well_paired(ms: Seq<Message>) -> bool {
    pairing(ms) == Ok::<Seq<Seq<char>>, PairingFault>(Seq::<Seq<char>>::empty())
}

/// The `Debug` text of an optional string slice.
pub open spec fn debug_opt_str(o: Option<Seq<char>>) -> Seq<char> {
    match o {
        Some(s) => "Some("@ + debug_str(s) + ")"@,
        None => "None"@,
    }
}

/// The message reported when a context manager leaves a transcript with
/// this fault.
pub open spec fn context_fault_message(f: PairingFault) -> Seq<char> {
    match f {
        PairingFault::EarlyAssistant =>
            "context manager left an assistant message before prior tool calls were paired"@,
        PairingFault::OrphanToolResult =>
            "context manager left a tool result without a preceding assistant tool call"@,
        PairingFault::MismatchedToolResult { found, expected } => "context manager left tool result "@
            + debug_opt_str(found) + ", expected call "@ + debug_str(expected),
        PairingFault::SplitBatch =>
            "context manager split an assistant tool-call batch from its results"@,
    }
}

/// The message reported when a stored transcript has this fault.
pub open spec fn stored_fault_message(f: PairingFault) -> Seq<char> {
    match f {
        PairingFault::EarlyAssistant =>
            "assistant message appeared before prior tool calls were paired"@,
        PairingFault::OrphanToolResult => "tool result has no preceding assistant tool call"@,
        PairingFault::MismatchedToolResult { found, expected } => "tool result "@ + debug_opt_str(
            found,
        ) + " does not match expected call "@ + debug_str(expected),
        PairingFault::SplitBatch => "non-tool message appeared before all tool calls were paired"@,
    }
}

pub const UNPAIRED_CONTEXT_MESSAGE: &'static str =
    "context manager left assistant tool calls without matching results";

/// An executable record of a [`PairingFault`].
enum FoundFault {
    EarlyAssistant,
    OrphanToolResult,
    MismatchedToolResult { found: Option<String>, expected: String },
    SplitBatch,
}

spec fn found_fault_view(f: FoundFault) -> PairingFault {
    match f {
        FoundFault::EarlyAssistant => PairingFault::EarlyAssistant,
        FoundFault::OrphanToolResult => PairingFault::OrphanToolResult,
        FoundFault::MismatchedToolResult { found, expected } => PairingFault::MismatchedToolResult {
            found: opt_str_view(found),
            expected: expected@,
        },
        FoundFault::SplitBatch => PairingFault::SplitBatch,
    }
}

/// The strings `v[from..]` have the views `g`.
spec fn views_from(v: Seq<String>, from: int, g: Seq<Seq<char>>) -> bool {
    &&& 0 <= from <= v.len()
    &&& g.len() == v.len() - from
    &&& forall|j: int| 0 <= j < g.len() ==> (#[trigger] v[from + j])@ == g[j]
}

/// Once a prefix of a transcript has a fault, the whole transcript reports
/// that fault.
proof fn lemma_fault_persists(ms: Seq<Message>, k: int, f: PairingFault)
    requires
        0 <= k <= ms.len(),
        pairing(ms.take(k)) == Err::<Seq<Seq<char>>, PairingFault>(f),
    ensures
        pairing(ms) == Err::<Seq<Seq<char>>, PairingFault>(f),
    decreases ms.len() - k,
{
    if k < ms.len() {
        let next = ms.take(k + 1);
        assert(next.drop_last() == ms.take(k));
        lemma_fault_persists(ms, k + 1, f);
    } else {
        assert(ms.take(k) == ms);
    }
}

/// Scans `messages`, returning the ids still waiting for results or the
/// first fault.
fn scan_pairing(messages: &Vec<Message>) -> (r: Result<Vec<String>, FoundFault>)
    ensures
        match r {
            Ok(p) => pairing(messages@) matches Ok(g) && views_from(p@, 0, g),
            Err(f) => pairing(messages@) == Err::<Seq<Seq<char>>, PairingFault>(
                found_fault_view(f),
            ),
        },
{
    let mut pending: Vec<String> = Vec::new();
    let mut head: usize = 0;
    let mut i: usize = 0;
    let ghost mut g: Seq<Seq<char>> = Seq::empty();
    assert(messages@.take(0) =~= Seq::<Message>::empty());
    while i < messages.len()
        invariant
            i <= messages.len(),
            views_from(pending@, head as int, g),
            pairing(messages@.take(i as int)) == Ok::<Seq<Seq<char>>, PairingFault>(g),
        decreases messages.len() - i,
    {
        let message = &messages[i];
        assert(messages@.take(i + 1).drop_last() == messages@.take(i as int));
        assert(messages@.take(i + 1).last() == messages@[i as int]);
        match message.role {
            Role::Assistant => {
                if head < pending.len() {
                    proof {
                        lemma_fault_persists(messages@, i + 1, PairingFault::EarlyAssistant);
                    }
                    return Err(FoundFault::EarlyAssistant);
                }
                let mut fresh: Vec<String> = Vec::new();
                let mut k: usize = 0;
                while k < message.tool_calls.len()
                    invariant
                        k <= message.tool_calls.len(),
                        views_from(fresh@, 0, call_ids(*message).take(k as int)),
                    decreases message.tool_calls.len() - k,
                {
                    let id = message.tool_calls[k].id.clone();
                    fresh.push(id);
                    k += 1;
                    proof {
                        let t = call_ids(*message).take(k as int);
                        assert forall|j: int| 0 <= j < t.len() implies (#[trigger] fresh@[0 + j])@
                            == t[j] by {
                            if j < k - 1 {
                                assert(call_ids(*message).take(k - 1)[j] == t[j]);
                            }
                        }
                    }
                }
                assert(call_ids(*message).take(k as int) == call_ids(*message));
                pending = fresh;
                head = 0;
                proof {
                    g = call_ids(*message);
                }
            },
            Role::Tool => {
                if head >= pending.len() {
                    proof {
                        lemma_fault_persists(messages@, i + 1, PairingFault::OrphanToolResult);
                    }
                    return Err(FoundFault::OrphanToolResult);
                }
                assert(pending@[head + 0]@ == g[0]);
                let matches = match &message.tool_call_id {
                    Some(id) => string_eq(id, &pending[head]),
                    None => false,
                };
                if !matches {
                    let fault = FoundFault::MismatchedToolResult {
                        found: message.tool_call_id.clone(),
                        expected: pending[head].clone(),
                    };
                    proof {
                        lemma_fault_persists(messages@, i + 1, found_fault_view(fault));
                    }
                    return Err(fault);
                }
                head += 1;
                proof {
                    let g0 = g;
                    g = g.drop_first();
                    assert forall|j: int| 0 <= j < g.len() implies (#[trigger] pending@[head + j])@
                        == g[j] by {
                        assert(pending@[(head - 1) + (j + 1)]@ == g0[j + 1]);
                    }
                }
            },
            _ => {
                if head < pending.len() {
                    proof {
                        lemma_fault_persists(messages@, i + 1, PairingFault::SplitBatch);
                    }
                    return Err(FoundFault::SplitBatch);
                }
            },
        }
        i += 1;
    }
    assert(messages@.take(i as int) == messages@);
    let mut rest: Vec<String> = Vec::new();
    let mut k: usize = head;
    while k < pending.len()
        invariant
            head <= k <= pending.len(),
            views_from(pending@, head as int, g),
            rest@.len() == k - head,
            forall|j: int| 0 <= j < rest@.len() ==> (#[trigger] rest@[j])@ == g[j],
        decreases pending.len() - k,
    {
        let id = pending[k].clone();
        assert(pending@[head + (k - head)]@ == g[k - head]);
        rest.push(id);
        k += 1;
    }
    assert forall|j: int| 0 <= j < g.len() implies (#[trigger] rest@[0 + j])@ == g[j] by {
        assert(rest@[j]@ == g[j]);
    }
    Ok(rest)
}

/// The `Debug` text of an optional string.
fn debug_opt_string(o: &Option<String>) -> (r: String)
    ensures
        r@ == debug_opt_str(opt_str_view(*o)),
{
    match o {
        Some(s) => {
            let mut r = owned("Some(");
            let d = debug_string(s.as_str());
            push_str(&mut r, d.as_str());
            push_str(&mut r, ")");
            r
        },
        None => owned("None"),
    }
}

fn context_message(f: &FoundFault) -> (r: String)
    ensures
        r@ == context_fault_message(found_fault_view(*f)),
{
    match f {
        FoundFault::EarlyAssistant => owned(
            "context manager left an assistant message before prior tool calls were paired",
        ),
        FoundFault::OrphanToolResult => owned(
            "context manager left a tool result without a preceding assistant tool call",
        ),
        FoundFault::MismatchedToolResult { found, expected } => {
            let mut r = owned("context manager left tool result ");
            let f = debug_opt_string(found);
            push_str(&mut r, f.as_str());
            push_str(&mut r, ", expected call ");
            let e = debug_string(expected.as_str());
            push_str(&mut r, e.as_str());
            r
        },
        FoundFault::SplitBatch => owned(
            "context manager split an assistant tool-call batch from its results",
        ),
    }
}

fn stored_message(f: &FoundFault) -> (r: String)
    ensures
        r@ == stored_fault_message(found_fault_view(*f)),
{
    match f {
        FoundFault::EarlyAssistant => owned(
            "assistant message appeared before prior tool calls were paired",
        ),
        FoundFault::OrphanToolResult => owned("tool result has no preceding assistant tool call"),
        FoundFault::MismatchedToolResult { found, expected } => {
            let mut r = owned("tool result ");
            let f = debug_opt_string(found);
            push_str(&mut r, f.as_str());
            push_str(&mut r, " does not match expected call ");
            let e = debug_string(expected.as_str());
            push_str(&mut r, e.as_str());
            r
        },
        FoundFault::SplitBatch => owned(
            "non-tool message appeared before all tool calls were paired",
        ),
    }
}

/// Checks that a context manager left a transcript whose tool calls are all
/// answered, in order.
pub fn validate_context_transcript(messages: &Vec<Message>) -> (r: Result<(), HookError>)
    ensures
        r is Ok <==> well_paired(messages@),
        match pairing(messages@) {
            Err(f) => r matches Err(e) && e.spec_message() == context_fault_message(f),
            Ok(p) => p.len() > 0 ==> (r matches Err(e) && e.spec_message()
                == UNPAIRED_CONTEXT_MESSAGE@),
        },
{
    match scan_pairing(messages) {
        Err(f) => Err(HookError::new(context_message(&f))),
        Ok(pending) => {
            if pending.len() > 0 {
                Err(HookError::new(owned(UNPAIRED_CONTEXT_MESSAGE)))
            } else {
                assert(pairing(messages@) matches Ok(g) && g =~= Seq::<Seq<char>>::empty());
                Ok(())
            }
        },
    }
}

/// `m` is the tool result that closes the interrupted call `id`.
pub open spec fn is_interrupted_result(m: Message, id: Seq<char>) -> bool {
    &&& m.role == Role::Tool
    &&& m.content matches Some(crate::types::Content::Text(t)) && t@ == INTERRUPTED_TOOL_RESULT@
    &&& m.tool_calls@.len() == 0
    &&& opt_str_view(m.tool_call_id) == Some(id)
    &&& m.is_error
    &&& m.provider_state is None
    &&& m.tool_result_metadata is None
}

/// Closes the tool calls left unanswered at the end of a stored transcript
/// with error results, so that the session can resume.
///
/// Fails, leaving `messages` unchanged, when the transcript breaks the
/// pairing rule anywhere else. Returns whether results were added.
pub fn repair_interrupted_tool_turn(session_id: &str, messages: &mut Vec<Message>) -> (r: Result<
    bool,
    StorageError,
>)
    ensures
        match pairing(old(messages)@) {
            Err(f) => final(messages)@ == old(messages)@ && (r matches Err(
                StorageError::InvalidTranscript { session_id: s, message: m },
            ) && s@ == session_id@ && m@ == stored_fault_message(f)),
            Ok(pending) => {
                &&& r == Ok::<bool, StorageError>(pending.len() > 0)
                &&& final(messages)@.len() == old(messages)@.len() + pending.len()
                &&& final(messages)@.take(old(messages)@.len() as int) == old(messages)@
                &&& forall|k: int|
                    0 <= k < pending.len() ==> is_interrupted_result(
                        #[trigger] final(messages)@[old(messages)@.len() + k],
                        pending[k],
                    )
            },
        },
{
    match scan_pairing(messages) {
        Err(f) => Err(
            StorageError::InvalidTranscript {
                session_id: owned(session_id),
                message: stored_message(&f),
            },
        ),
        Ok(pending) => {
            let ghost start = messages@;
            let ghost g = pairing(messages@)->Ok_0;
            let mut k: usize = 0;
            while k < pending.len()
                invariant
                    k <= pending.len(),
                    views_from(pending@, 0, g),
                    messages@.len() == start.len() + k,
                    messages@.take(start.len() as int) == start,
                    forall|t: int|
                        0 <= t < k ==> is_interrupted_result(
                            #[trigger] messages@[start.len() + t],
                            g[t],
                        ),
                decreases pending.len() - k,
            {
                let result = Message::tool_result(
                    pending[k].as_str(),
                    INTERRUPTED_TOOL_RESULT,
                    true,
                );
                assert(pending@[0 + k]@ == g[k as int]);
                messages.push(result);
                k += 1;
                assert(messages@.take(start.len() as int) =~= start);
            }
            Ok(pending.len() > 0)
        },
    }
}

/// Appending the interrupted results for the pending calls leaves a
/// transcript in which every call is answered.
pub proof fn lemma_repaired_transcript_is_paired(
    before: Seq<Message>,
    after: Seq<Message>,
    pending: Seq<Seq<char>>,
)
    requires
        pairing(before) == Ok::<Seq<Seq<char>>, PairingFault>(pending),
        after.len() == before.len() + pending.len(),
        after.take(before.len() as int) == before,
        forall|k: int|
            0 <= k < pending.len() ==> is_interrupted_result(
                #[trigger] after[before.len() + k],
                pending[k],
            ),
    ensures
        well_paired(after),
{
    assert forall|k: int| 0 <= k < pending.len() implies answers(
        #[trigger] after[before.len() + k],
        pending[k],
    ) by {
        assert(is_interrupted_result(after[before.len() + k], pending[k]));
    }
    lemma_pairing_closes(before, after, pending, pending.len() as int);
    assert(after.take(after.len() as int) == after);
    assert(pending.skip(pending.len() as int) =~= Seq::<Seq<char>>::empty());
}

/// `m` is a tool result answering the call `id`.
pub open spec fn answers(m: Message, id: Seq<char>) -> bool {
    m.role == Role::Tool && opt_str_view(m.tool_call_id) == Some(id)
}

pub proof fn lemma_pairing_closes(
    before: Seq<Message>,
    after: Seq<Message>,
    pending: Seq<Seq<char>>,
    n: int,
)
    requires
        pairing(before) == Ok::<Seq<Seq<char>>, PairingFault>(pending),
        0 <= n <= pending.len(),
        after.len() == before.len() + pending.len(),
        after.take(before.len() as int) == before,
        forall|k: int|
            0 <= k < pending.len() ==> answers(#[trigger] after[before.len() + k], pending[k]),
    ensures
        pairing(after.take(before.len() + n)) == Ok::<Seq<Seq<char>>, PairingFault>(
            pending.skip(n),
        ),
    decreases n,
{
    if n == 0 {
        assert(pending.skip(0) == pending);
    } else {
        lemma_pairing_closes(before, after, pending, n - 1);
        let prefix = after.take(before.len() + n);
        assert(prefix.drop_last() == after.take(before.len() + n - 1));
        assert(prefix.last() == after[before.len() + (n - 1)]);
        assert(answers(after[before.len() + (n - 1)], pending[n - 1]));
        assert(pending.skip(n - 1)[0] == pending[n - 1]);
        assert(pending.skip(n - 1).drop_first() == pending.skip(n));
    }
}

/// Checks that a turn-end hook left the assistant message and one result per
/// tool call, each answering its call in order.
pub fn validate_protocol_turn(assistant: &Message, tool_results: &Vec<Message>) -> (r: Result<
    (),
    HookError,
>)
    ensures
        r is Ok <==> (assistant.role == Role::Assistant && assistant.tool_calls@.len()
            == tool_results@.len() && forall|k: int|
            0 <= k < tool_results@.len() ==> (#[trigger] tool_results@[k]).role == Role::Tool
                && opt_str_view(tool_results@[k].tool_call_id) == Some(
                assistant.tool_calls@[k].id@,
            )),
        assistant.role != Role::Assistant ==> (r matches Err(e) && e.spec_message()
            == "turn-end hook must leave the model message in the assistant role"@),
{
    if assistant.role != Role::Assistant {
        return Err(
            HookError::new(owned("turn-end hook must leave the model message in the assistant role")),
        );
    }
    if assistant.tool_calls.len() != tool_results.len() {
        let mut m = owned("assistant produced ");
        push_decimal(&mut m, assistant.tool_calls.len() as u64);
        push_str(&mut m, " tool calls but turn-end hook returned ");
        push_decimal(&mut m, tool_results.len() as u64);
        push_str(&mut m, " tool results");
        return Err(HookError::new(m));
    }
    let mut k: usize = 0;
    while k < tool_results.len()
        invariant
            k <= tool_results.len(),
            assistant.role == Role::Assistant,
            assistant.tool_calls@.len() == tool_results@.len(),
            forall|j: int|
                0 <= j < k ==> (#[trigger] tool_results@[j]).role == Role::Tool && opt_str_view(
                    tool_results@[j].tool_call_id,
                ) == Some(assistant.tool_calls@[j].id@),
        decreases tool_results.len() - k,
    {
        let result = &tool_results[k];
        let call = &assistant.tool_calls[k];
        let ok = result.role == Role::Tool && match &result.tool_call_id {
            Some(id) => string_eq(id, &call.id),
            None => false,
        };
        if !ok {
            let mut m = owned("tool result must immediately match assistant tool call ");
            let d = debug_string(call.id.as_str());
            push_str(&mut m, d.as_str());
            return Err(HookError::new(m));
        }
        k += 1;
    }
    Ok(())
}

/// Index of the first message that differs between two transcripts, or the
/// length of the shorter one when one extends the other; `None` when they are
/// equal.
pub open spec fn first_change(before: Seq<Message>, after: Seq<Message>) -> Option<int> {
    if messages_view(before) == messages_view(after) {
        None
    } else if exists|i: int|
        0 <= i < before.len() && i < after.len() && before[i]@ != after[i]@ {
        Some(
            choose|i: int|
                0 <= i < before.len() && i < after.len() && before[i]@ != after[i]@ && forall|
                    j: int,
                | 0 <= j < i ==> (#[trigger] before[j])@ == after[j]@,
        )
    } else {
        Some(
            if before.len() <= after.len() {
                before.len() as int
            } else {
                after.len() as int
            },
        )
    }
}

pub fn first_changed_message(before: &Vec<Message>, after: &Vec<Message>) -> (r: Option<usize>)
    ensures
        match r {
            Some(i) => first_change(before@, after@) == Some(i as int),
            None => first_change(before@, after@) is None,
        },
{
    let n = if before.len() <= after.len() {
        before.len()
    } else {
        after.len()
    };
    let mut i: usize = 0;
    while i < n
        invariant
            n <= before.len(),
            n <= after.len(),
            n == before.len() || n == after.len(),
            i <= n,
            forall|j: int| 0 <= j < i ==> (#[trigger] before@[j])@ == after@[j]@,
        decreases n - i,
    {
        if !message_eq(&before[i], &after[i]) {
            proof {
                assert(messages_view(before@)[i as int] != messages_view(after@)[i as int]);
                let k = choose|k: int|
                    0 <= k < before.len() && k < after.len() && before@[k]@ != after@[k]@ && forall|
                        j: int,
                    | 0 <= j < k ==> (#[trigger] before@[j])@ == after@[j]@;
                assert(0 <= i < before.len() && i < after.len() && before@[i as int]@
                    != after@[i as int]@ && forall|j: int|
                    0 <= j < i ==> (#[trigger] before@[j])@ == after@[j]@);
                if k < i {
                    assert(before@[k]@ == after@[k]@);
                }
                if k > i {
                    assert(before@[i as int]@ == after@[i as int]@);
                }
            }
            return Some(i);
        }
        i += 1;
    }
    if before.len() == after.len() {
        assert(messages_view(before@) =~= messages_view(after@));
        return None;
    }
    proof {
        assert(messages_view(before@).len() != messages_view(after@).len());
        if exists|k: int| 0 <= k < before.len() && k < after.len() && before@[k]@ != after@[k]@ {
            let k = choose|k: int|
                0 <= k < before.len() && k < after.len() && before@[k]@ != after@[k]@;
            assert(before@[k]@ == after@[k]@);
        }
    }
    Some(n)
}

} // verus!
