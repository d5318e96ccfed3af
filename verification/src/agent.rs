//! The agent's transcript state and the decisions of its run loop: which
//! tools a request advertises, which calls may run and in what order, how a
//! provider stream is consumed, and how each turn is journaled.
use vstd::prelude::*;

use crate::text::{debug_str, debug_string, owned, push_str, string_eq};
use crate::time::{duration_debug, duration_debug_text, TimeSpan};
use crate::tool::{ToolConcurrency, ToolEffect, ToolOutput};
use crate::types::{
    definitions_view, messages_view, mode_allows, text_message, AgentMode, ContentView,
    ContextUsage, GenerationConfig, Message, MessageView, ProviderRequest, Role, ToolCall,
    ToolDefinition, ToolDefinitionView, ToolExecutionMode,
};

verus! {

broadcast use vstd::string::group_string_axioms;

/// The result recorded for a call that never started.
pub const CANCELLED_TOOL_RESULT: &'static str = "tool execution cancelled before it started";

/// The result recorded for a call whose outcome is not known.
pub const UNKNOWN_TOOL_RESULT: &'static str =
    "tool execution outcome is unknown; it may have produced side effects and will not be retried automatically";

/// The default limit on one tool call, in seconds.
pub const DEFAULT_TOOL_CALL_TIMEOUT_SECS: u64 = 300;

/// The default number of concurrency-safe calls that run at once.
pub const DEFAULT_MAX_PARALLEL_TOOLS: usize = 8;

/// The system prompt of an agent that was given none.
pub const DEFAULT_SYSTEM_PROMPT: &'static str = "You are a helpful assistant.";

/// The reminder that a request made while planning carries.
pub const PLAN_MODE_SYSTEM_REMINDER: &'static str =
    "You are in Plan mode. Explore and design only. Do not modify workspace files, run commands with side effects, or perform external side effects. Use only read-only, internal, and plan-only tools until the plan is approved.";

// ---------------------------------------------------------------------------
// Modes
// ---------------------------------------------------------------------------

/// The mode an agent keeps when going back to `checkpoint` from `current`:
/// planning wins whenever either of them plans.
pub open spec fn safe_restore(current: AgentMode, checkpoint: AgentMode) -> AgentMode {
    if current == AgentMode::Plan || checkpoint == AgentMode::Plan {
        AgentMode::Plan
    } else {
        AgentMode::Default
    }
}

/// The more restrictive of the current mode and a checkpoint's mode.
pub fn restore_mode_safely(current: AgentMode, checkpoint: AgentMode) -> (r: AgentMode)
    ensures
        r == safe_restore(current, checkpoint),
{
    if current == AgentMode::Plan || checkpoint == AgentMode::Plan {
        AgentMode::Plan
    } else {
        AgentMode::Default
    }
}

/// An effect outside the agent: a workspace write or an external side effect.
pub open spec fn is_side_effect(effect: ToolEffect) -> bool {
    effect == ToolEffect::WorkspaceWrite || effect == ToolEffect::ExternalSideEffect
}

/// Going back to a checkpoint after a failure never unlocks a side effect:
/// the restored mode allows one only when both the mode in force and the
/// checkpoint's mode allow it, and it is always one of the two.
pub proof fn lemma_restore_never_unlocks_side_effects(
    current: AgentMode,
    checkpoint: AgentMode,
    effect: ToolEffect,
)
    ensures
        is_side_effect(effect) && mode_allows(safe_restore(current, checkpoint), effect)
            ==> mode_allows(current, effect) && mode_allows(checkpoint, effect),
        safe_restore(current, checkpoint) == current || safe_restore(current, checkpoint)
            == checkpoint,
{
}

/// A span of at least one millisecond.
pub fn nonzero_timeout(timeout: TimeSpan) -> (r: TimeSpan)
    ensures
        r.spec_nanos() == if timeout.spec_nanos() >= crate::time::NANOS_PER_MILLI {
            timeout.spec_nanos()
        } else {
            crate::time::NANOS_PER_MILLI as nat
        },
{
    timeout.max(TimeSpan::from_millis(1))
}

// ---------------------------------------------------------------------------
// The tool registry
// ---------------------------------------------------------------------------

/// A tool as the agent knows it: what the model is told, and what it may do.
#[derive(Clone, Debug, PartialEq, Eq)]
pub struct RegisteredTool {
    pub definition: ToolDefinition,
    pub effect: ToolEffect,
}

pub open spec fn registered_name(t: RegisteredTool) -> Seq<char> {
    t.definition.name@
}

/// No two registered tools share a name.
pub open spec fn names_unique(tools: Seq<RegisteredTool>) -> bool {
    forall|i: int, j: int|
        0 <= i < tools.len() && 0 <= j < tools.len() && i != j ==> registered_name(
            #[trigger] tools[i],
        ) != registered_name(#[trigger] tools[j])
}

/// Some registered tool is called `name`.
pub open spec fn is_registered(tools: Seq<RegisteredTool>, name: Seq<char>) -> bool {
    exists|i: int| 0 <= i < tools.len() && registered_name(#[trigger] tools[i]) == name
}

/// The tool called `name` is registered and `mode` allows its effect.
pub open spec fn tool_allowed(tools: Seq<RegisteredTool>, name: Seq<char>, mode: AgentMode) -> bool {
    exists|i: int|
        0 <= i < tools.len() && registered_name(#[trigger] tools[i]) == name && mode_allows(
            mode,
            tools[i].effect,
        )
}

/// The position of the tool called `name`, if one is registered.
pub fn find_tool(tools: &Vec<RegisteredTool>, name: &str) -> (r: Option<usize>)
    ensures
        match r {
            Some(i) => i < tools@.len() && registered_name(tools@[i as int]) == name@,
            None => !is_registered(tools@, name@),
        },
{
    let target = owned(name);
    let mut i: usize = 0;
    while i < tools.len()
        invariant
            i <= tools@.len(),
            target@ == name@,
            forall|j: int| 0 <= j < i ==> registered_name(#[trigger] tools@[j]) != name@,
        decreases tools.len() - i,
    {
        if string_eq(&tools[i].definition.name, &target) {
            return Some(i);
        }
        i += 1;
    }
    None
}

/// Installs `tool`, replacing a registered tool of the same name.
pub fn register_tool(tools: &mut Vec<RegisteredTool>, tool: RegisteredTool)
    requires
        names_unique(old(tools)@),
    ensures
        names_unique(final(tools)@),
        is_registered(final(tools)@, registered_name(tool)),
        forall|i: int|
            0 <= i < final(tools)@.len() && registered_name(#[trigger] final(tools)@[i])
                == registered_name(tool) ==> final(tools)@[i] == tool,
        forall|name: Seq<char>|
            name != registered_name(tool) ==> (is_registered(final(tools)@, name)
                == is_registered(old(tools)@, name)),
        forall|i: int|
            0 <= i < old(tools)@.len() && registered_name(#[trigger] old(tools)@[i])
                != registered_name(tool) ==> final(tools)@.contains(old(tools)@[i]),
        forall|i: int|
            0 <= i < final(tools)@.len() && registered_name(#[trigger] final(tools)@[i])
                != registered_name(tool) ==> old(tools)@.contains(final(tools)@[i]),
{
    let ghost before = tools@;
    match find_tool(tools, tool.definition.name.as_str()) {
        Some(i) => {
            tools.set(i, tool);
            proof {
                assert(registered_name(tools@[i as int]) == registered_name(tool));
                assert forall|name: Seq<char>| name != registered_name(tool) implies (is_registered(
                    tools@,
                    name,
                ) == is_registered(before, name)) by {
                    if is_registered(before, name) {
                        let j = choose|j: int|
                            0 <= j < before.len() && registered_name(#[trigger] before[j]) == name;
                        assert(tools@[j] == before[j]);
                    }
                    if is_registered(tools@, name) {
                        let j = choose|j: int|
                            0 <= j < tools@.len() && registered_name(#[trigger] tools@[j]) == name;
                        assert(tools@[j] == before[j]);
                    }
                }
                assert forall|k: int|
                    0 <= k < before.len() && registered_name(#[trigger] before[k])
                        != registered_name(tool) implies tools@.contains(before[k]) by {
                    assert(tools@[k] == before[k]);
                }
                assert forall|k: int|
                    0 <= k < tools@.len() && registered_name(#[trigger] tools@[k])
                        != registered_name(tool) implies before.contains(tools@[k]) by {
                    assert(tools@[k] == before[k]);
                }
            }
        },
        None => {
            tools.push(tool);
            proof {
                let n = before.len() as int;
                assert(tools@[n] == tool);
                assert(registered_name(tools@[n]) == registered_name(tool));
                assert forall|name: Seq<char>| name != registered_name(tool) implies (is_registered(
                    tools@,
                    name,
                ) == is_registered(before, name)) by {
                    if is_registered(before, name) {
                        let j = choose|j: int|
                            0 <= j < before.len() && registered_name(#[trigger] before[j]) == name;
                        assert(tools@[j] == before[j]);
                    }
                    if is_registered(tools@, name) {
                        let j = choose|j: int|
                            0 <= j < tools@.len() && registered_name(#[trigger] tools@[j]) == name;
                        assert(j < n);
                        assert(tools@[j] == before[j]);
                    }
                }
                assert forall|k: int|
                    0 <= k < before.len() && registered_name(#[trigger] before[k])
                        != registered_name(tool) implies tools@.contains(before[k]) by {
                    assert(tools@[k] == before[k]);
                }
                assert forall|k: int|
                    0 <= k < tools@.len() && registered_name(#[trigger] tools@[k])
                        != registered_name(tool) implies before.contains(tools@[k]) by {
                    assert(tools@[k] == before[k]);
                }
            }
        },
    }
}

/// The definitions of the registered tools whose effects `mode` allows, in
/// registry order.
pub open spec fn definitions_for_mode(tools: Seq<RegisteredTool>, mode: AgentMode) -> Seq<
    ToolDefinitionView,
>
    decreases tools.len(),
{
    if tools.len() == 0 {
        Seq::empty()
    } else if mode_allows(mode, tools.last().effect) {
        definitions_for_mode(tools.drop_last(), mode).push(tools.last().definition@)
    } else {
        definitions_for_mode(tools.drop_last(), mode)
    }
}

/// The definitions a request made in `mode` advertises.
pub fn tool_definitions_for_mode(tools: &Vec<RegisteredTool>, mode: AgentMode) -> (r: Vec<
    ToolDefinition,
>)
    ensures
        definitions_view(r@) == definitions_for_mode(tools@, mode),
{
    let mut out: Vec<ToolDefinition> = Vec::new();
    let mut i: usize = 0;
    while i < tools.len()
        invariant
            i <= tools@.len(),
            definitions_view(out@) == definitions_for_mode(tools@.take(i as int), mode),
        decreases tools.len() - i,
    {
        proof {
            assert(tools@.take(i + 1).drop_last() == tools@.take(i as int));
            assert(tools@.take(i + 1).last() == tools@[i as int]);
        }
        if tools[i].effect.allows_in(mode) {
            out.push(tools[i].definition.duplicate());
        }
        proof {
            assert(definitions_view(out@) =~= definitions_for_mode(tools@.take(i + 1), mode));
        }
        i += 1;
    }
    proof {
        assert(tools@.take(tools@.len() as int) == tools@);
    }
    out
}

impl ToolEffect {
    /// Whether `mode` allows this effect.
    pub fn allows_in(self, mode: AgentMode) -> (r: bool)
        ensures
            r == mode_allows(mode, self),
    {
        mode.allows(self)
    }
}

// ---------------------------------------------------------------------------
// Enforcing a mode on a request
// ---------------------------------------------------------------------------

/// The plan-mode reminder as a message view.
pub open spec fn reminder_view() -> MessageView {
    text_message(Role::System, PLAN_MODE_SYSTEM_REMINDER@)
}

/// A system message whose text is the plan-mode reminder.
pub open spec fn is_reminder(m: MessageView) -> bool {
    m.role == Role::System && m.content == Some(ContentView::Text(PLAN_MODE_SYSTEM_REMINDER@))
}

/// `ms` without plan-mode reminders.
pub open spec fn without_reminders(ms: Seq<MessageView>) -> Seq<MessageView>
    decreases ms.len(),
{
    if ms.len() == 0 {
        Seq::empty()
    } else if is_reminder(ms.last()) {
        without_reminders(ms.drop_last())
    } else {
        without_reminders(ms.drop_last()).push(ms.last())
    }
}

/// The number of system messages at the start of `ms`.
pub open spec fn leading_system_count(ms: Seq<MessageView>) -> nat
    decreases ms.len(),
{
    if ms.len() == 0 || ms[0].role != Role::System {
        0
    } else {
        1 + leading_system_count(ms.drop_first())
    }
}

/// The messages a request made in `mode` carries: `ms` without reminders,
/// and, while planning, one reminder after the leading system messages.
pub open spec fn messages_for_mode(ms: Seq<MessageView>, mode: AgentMode) -> Seq<MessageView> {
    let w = without_reminders(ms);
    if mode == AgentMode::Plan {
        let k = leading_system_count(w) as int;
        w.take(k).push(reminder_view()) + w.skip(k)
    } else {
        w
    }
}

/// The definitions among `defs` whose tools are registered and allowed in
/// `mode`, in order.
pub open spec fn allowed_definitions(
    defs: Seq<ToolDefinitionView>,
    tools: Seq<RegisteredTool>,
    mode: AgentMode,
) -> Seq<ToolDefinitionView>
    decreases defs.len(),
{
    if defs.len() == 0 {
        Seq::empty()
    } else if tool_allowed(tools, defs.last().name, mode) {
        allowed_definitions(defs.drop_last(), tools, mode).push(defs.last())
    } else {
        allowed_definitions(defs.drop_last(), tools, mode)
    }
}

proof fn lemma_leading_system_count_bound(ms: Seq<MessageView>)
    ensures
        leading_system_count(ms) <= ms.len(),
        forall|j: int| 0 <= j < leading_system_count(ms) ==> (#[trigger] ms[j]).role == Role::System,
        leading_system_count(ms) < ms.len() ==> ms[leading_system_count(ms) as int].role
            != Role::System,
    decreases ms.len(),
{
    if ms.len() > 0 && ms[0].role == Role::System {
        lemma_leading_system_count_bound(ms.drop_first());
        assert forall|j: int| 0 <= j < leading_system_count(ms) implies (#[trigger] ms[j]).role
            == Role::System by {
            if j > 0 {
                assert(ms[j] == ms.drop_first()[j - 1]);
            }
        }
    }
}

proof fn lemma_leading_system_count_exact(ms: Seq<MessageView>, k: int)
    requires
        0 <= k <= ms.len(),
        forall|j: int| 0 <= j < k ==> (#[trigger] ms[j]).role == Role::System,
        k < ms.len() ==> ms[k].role != Role::System,
    ensures
        leading_system_count(ms) == k,
    decreases k,
{
    if k > 0 {
        assert(ms[0].role == Role::System);
        assert forall|j: int| 0 <= j < k - 1 implies (#[trigger] ms.drop_first()[j]).role
            == Role::System by {
            assert(ms.drop_first()[j] == ms[j + 1]);
        }
        if k - 1 < ms.drop_first().len() {
            assert(ms.drop_first()[k - 1] == ms[k]);
        }
        lemma_leading_system_count_exact(ms.drop_first(), k - 1);
    }
}


/// Every definition a request keeps after the boundary is re-applied
/// belongs to a registered tool that the mode allows, and every kept
/// definition was in the request.
pub proof fn lemma_enforced_tools_are_allowed(
    defs: Seq<ToolDefinitionView>,
    tools: Seq<RegisteredTool>,
    mode: AgentMode,
)
    ensures
        forall|k: int|
            0 <= k < allowed_definitions(defs, tools, mode).len() ==> tool_allowed(
                tools,
                (#[trigger] allowed_definitions(defs, tools, mode)[k]).name,
                mode,
            ) && defs.contains(allowed_definitions(defs, tools, mode)[k]),
        allowed_definitions(defs, tools, mode).len() <= defs.len(),
    decreases defs.len(),
{
    if defs.len() > 0 {
        lemma_enforced_tools_are_allowed(defs.drop_last(), tools, mode);
        let prev = allowed_definitions(defs.drop_last(), tools, mode);
        let cur = allowed_definitions(defs, tools, mode);
        assert forall|k: int| 0 <= k < cur.len() implies tool_allowed(
            tools,
            (#[trigger] cur[k]).name,
            mode,
        ) && defs.contains(cur[k]) by {
            if k < prev.len() {
                assert(cur[k] == prev[k]);
                assert(defs.drop_last().contains(prev[k]));
                let j = choose|j: int| 0 <= j < defs.drop_last().len() && defs.drop_last()[j] == prev[k];
                assert(defs[j] == prev[k]);
            } else {
                assert(cur[k] == defs.last());
                assert(defs[defs.len() - 1] == defs.last());
            }
        }
    }
}

/// After the boundary is re-applied, a request made while planning holds
/// exactly one plan-mode reminder, right after its leading system messages;
/// a request made in the default mode holds none.
pub proof fn lemma_reminder_placement(ms: Seq<MessageView>, mode: AgentMode)
    ensures
        mode == AgentMode::Default ==> forall|k: int|
            0 <= k < messages_for_mode(ms, mode).len() ==> !is_reminder(
                #[trigger] messages_for_mode(ms, mode)[k],
            ),
        mode == AgentMode::Plan ==> {
            let out = messages_for_mode(ms, mode);
            let at = leading_system_count(without_reminders(ms)) as int;
            &&& 0 <= at < out.len()
            &&& out[at] == reminder_view()
            &&& forall|k: int| 0 <= k < out.len() && k != at ==> !is_reminder(#[trigger] out[k])
            &&& forall|k: int| 0 <= k < at ==> (#[trigger] out[k]).role == Role::System
        },
{
    lemma_without_reminders_has_none(ms);
    let w = without_reminders(ms);
    if mode == AgentMode::Plan {
        lemma_leading_system_count_bound(w);
        let at = leading_system_count(w) as int;
        let out = messages_for_mode(ms, mode);
        assert(out == w.take(at).push(reminder_view()) + w.skip(at));
        assert forall|k: int| 0 <= k < out.len() && k != at implies !is_reminder(#[trigger] out[k]) by {
            if k < at {
                assert(out[k] == w[k]);
            } else {
                assert(out[k] == w[k - 1]);
            }
        }
        assert forall|k: int| 0 <= k < at implies (#[trigger] out[k]).role == Role::System by {
            assert(out[k] == w[k]);
        }
    }
}

proof fn lemma_without_reminders_has_none(ms: Seq<MessageView>)
    ensures
        forall|k: int|
            0 <= k < without_reminders(ms).len() ==> !is_reminder(#[trigger] without_reminders(ms)[k]),
    decreases ms.len(),
{
    if ms.len() > 0 {
        lemma_without_reminders_has_none(ms.drop_last());
        let prev = without_reminders(ms.drop_last());
        let cur = without_reminders(ms);
        assert forall|k: int| 0 <= k < cur.len() implies !is_reminder(#[trigger] cur[k]) by {
            if k < prev.len() {
                assert(cur[k] == prev[k]);
            }
        }
    }
}

fn is_reminder_message(m: &Message) -> (r: bool)
    ensures
        r == is_reminder(m@),
{
    if m.role != Role::System {
        return false;
    }
    match &m.content {
        Some(crate::types::Content::Text(t)) => {
            let reminder = owned(PLAN_MODE_SYSTEM_REMINDER);
            string_eq(t, &reminder)
        },
        _ => false,
    }
}

/// Re-applies the capability boundary of `mode` to a request: only the
/// advertised tools that are registered and allowed stay, stale plan-mode
/// reminders go, and a request made while planning gets one reminder after
/// its leading system messages. The configuration is untouched.
pub fn enforce_request_mode(request: &mut ProviderRequest, mode: AgentMode, tools: &Vec<RegisteredTool>)
    requires
        names_unique(tools@),
    ensures
        definitions_view(final(request).tools@) == allowed_definitions(
            definitions_view(old(request).tools@),
            tools@,
            mode,
        ),
        messages_view(final(request).messages@) == messages_for_mode(
            messages_view(old(request).messages@),
            mode,
        ),
        final(request).config == old(request).config,
{
    let ghost old_defs = definitions_view(request.tools@);
    let ghost old_msgs = messages_view(request.messages@);
    let mut defs: Vec<ToolDefinition> = Vec::new();
    let mut i: usize = 0;
    while i < request.tools.len()
        invariant
            i <= request.tools@.len(),
            old_defs == definitions_view(request.tools@),
            names_unique(tools@),
            definitions_view(defs@) == allowed_definitions(old_defs.take(i as int), tools@, mode),
        decreases request.tools.len() - i,
    {
        proof {
            assert(old_defs.take(i + 1).drop_last() == old_defs.take(i as int));
            assert(old_defs.take(i + 1).last() == request.tools@[i as int]@);
        }
        let found = find_tool(tools, request.tools[i].name.as_str());
        let allowed = match found {
            Some(k) => tools[k].effect.allows_in(mode),
            None => false,
        };
        proof {
            let name = request.tools@[i as int].name@;
            if tool_allowed(tools@, name, mode) {
                let j = choose|j: int|
                    0 <= j < tools@.len() && registered_name(#[trigger] tools@[j]) == name
                        && mode_allows(mode, tools@[j].effect);
                assert(is_registered(tools@, name));
                match found {
                    Some(k) => {
                        assert(registered_name(tools@[k as int]) == registered_name(tools@[j]));
                        assert(k == j);
                    },
                    None => {},
                }
            }
            if allowed {
                match found {
                    Some(k) => {
                        assert(registered_name(tools@[k as int]) == name);
                    },
                    None => {},
                }
            }
            assert(allowed == tool_allowed(tools@, name, mode));
        }
        if allowed {
            defs.push(request.tools[i].duplicate());
        }
        proof {
            assert(definitions_view(defs@) =~= allowed_definitions(old_defs.take(i + 1), tools@, mode));
        }
        i += 1;
    }
    proof {
        assert(old_defs.take(old_defs.len() as int) == old_defs);
    }
    let mut kept: Vec<Message> = Vec::new();
    let mut j: usize = 0;
    while j < request.messages.len()
        invariant
            j <= request.messages@.len(),
            old_msgs == messages_view(request.messages@),
            messages_view(kept@) == without_reminders(old_msgs.take(j as int)),
        decreases request.messages.len() - j,
    {
        proof {
            assert(old_msgs.take(j + 1).drop_last() == old_msgs.take(j as int));
            assert(old_msgs.take(j + 1).last() == request.messages@[j as int]@);
        }
        if !is_reminder_message(&request.messages[j]) {
            kept.push(request.messages[j].duplicate());
        }
        proof {
            assert(messages_view(kept@) =~= without_reminders(old_msgs.take(j + 1)));
        }
        j += 1;
    }
    proof {
        assert(old_msgs.take(old_msgs.len() as int) == old_msgs);
    }
    let ghost w = messages_view(kept@);
    if mode == AgentMode::Plan {
        let mut k: usize = 0;
        while k < kept.len() && kept[k].role == Role::System
            invariant
                k <= kept@.len(),
                forall|t: int| 0 <= t < k ==> (#[trigger] kept@[t]).role == Role::System,
            decreases kept.len() - k,
        {
            k += 1;
        }
        proof {
            assert forall|t: int| 0 <= t < k implies (#[trigger] w[t]).role == Role::System by {
                assert(w[t] == kept@[t]@);
            }
            if k < w.len() {
                assert(w[k as int] == kept@[k as int]@);
            }
            lemma_leading_system_count_exact(w, k as int);
        }
        kept.insert(k, Message::system(PLAN_MODE_SYSTEM_REMINDER));
        proof {
            assert(messages_view(kept@) =~= w.take(k as int).push(reminder_view()) + w.skip(
                k as int,
            ));
        }
    }
    request.tools = defs;
    request.messages = kept;
}

// ---------------------------------------------------------------------------
// One batch of tool calls
// ---------------------------------------------------------------------------

/// The two mode boundaries in force around one batch of tool calls: the
/// mode of the request that produced them and the mode just before they run.
/// A call must be allowed by both.
#[derive(Clone, Copy, Debug, PartialEq, Eq, Structural)]
pub struct ToolBatchPermissions {
    pub request_mode: AgentMode,
    pub batch_mode: AgentMode,
}

/// A call must run alone: its tool is unknown, coordinates state or a plan,
/// or says the call cannot overlap others.
pub open spec fn needs_exclusive_run(
    tools: Seq<RegisteredTool>,
    name: Seq<char>,
    concurrency: ToolConcurrency,
) -> bool {
    !is_registered(tools, name) || exists|i: int|
        0 <= i < tools.len() && registered_name(#[trigger] tools[i]) == name && (tools[i].effect
            == ToolEffect::Internal || tools[i].effect == ToolEffect::PlanOnly || concurrency
            == ToolConcurrency::Exclusive)
}

impl ToolBatchPermissions {
    pub fn new(request_mode: AgentMode, batch_mode: AgentMode) -> (r: Self)
        ensures
            r.request_mode == request_mode,
            r.batch_mode == batch_mode,
    {
        ToolBatchPermissions { request_mode, batch_mode }
    }

    pub fn allows(self, effect: ToolEffect) -> (r: bool)
        ensures
            r == (mode_allows(self.request_mode, effect) && mode_allows(self.batch_mode, effect)),
    {
        self.request_mode.allows(effect) && self.batch_mode.allows(effect)
    }

    /// Whether the batch must run one call after another: when either
    /// boundary is planning, or when some call needs to run alone.
    /// `concurrency[i]` is what the tool of `calls[i]` reports for its
    /// arguments.
    pub fn requires_sequential(
        self,
        calls: &Vec<ToolCall>,
        tools: &Vec<RegisteredTool>,
        concurrency: &Vec<ToolConcurrency>,
    ) -> (r: bool)
        requires
            concurrency@.len() == calls@.len(),
            names_unique(tools@),
        ensures
            r == (self.request_mode == AgentMode::Plan || self.batch_mode == AgentMode::Plan
                || exists|i: int|
                0 <= i < calls@.len() && needs_exclusive_run(
                    tools@,
                    (#[trigger] calls@[i]).name@,
                    concurrency@[i],
                )),
    {
        if self.request_mode == AgentMode::Plan || self.batch_mode == AgentMode::Plan {
            return true;
        }
        let mut i: usize = 0;
        while i < calls.len()
            invariant
                i <= calls@.len(),
                concurrency@.len() == calls@.len(),
                names_unique(tools@),
                forall|j: int|
                    0 <= j < i ==> !needs_exclusive_run(
                        tools@,
                        (#[trigger] calls@[j]).name@,
                        concurrency@[j],
                    ),
            decreases calls.len() - i,
        {
            let found = find_tool(tools, calls[i].name.as_str());
            let exclusive = match found {
                None => true,
                Some(k) => {
                    let effect = tools[k].effect;
                    effect == ToolEffect::Internal || effect == ToolEffect::PlanOnly
                        || concurrency[i] == ToolConcurrency::Exclusive
                },
            };
            if exclusive {
                assert(needs_exclusive_run(tools@, calls@[i as int].name@, concurrency@[i as int]));
                return true;
            }
            proof {
                let name = calls@[i as int].name@;
                if needs_exclusive_run(tools@, name, concurrency@[i as int]) && is_registered(
                    tools@,
                    name,
                ) {
                    let j = choose|j: int|
                        0 <= j < tools@.len() && registered_name(#[trigger] tools@[j]) == name && (
                        tools@[j].effect == ToolEffect::Internal || tools@[j].effect
                            == ToolEffect::PlanOnly || concurrency@[i as int]
                            == ToolConcurrency::Exclusive);
                    match found {
                        Some(k) => {
                            assert(registered_name(tools@[k as int]) == registered_name(tools@[j]));
                            assert(k == j);
                        },
                        None => {},
                    }
                }
            }
            i += 1;
        }
        false
    }
}

/// An assistant delta carries model output: non-empty text or reasoning,
/// or any part of a tool call.
pub open spec fn delta_has_output_spec(delta: crate::types::AssistantDelta) -> bool {
    match delta {
        crate::types::AssistantDelta::Text { delta } => delta@.len() > 0,
        crate::types::AssistantDelta::Reasoning { delta } => delta@.len() > 0,
        crate::types::AssistantDelta::ToolCall { id, name, arguments_delta, .. } => (id matches Some(
            i,
        ) && i@.len() > 0) || (name matches Some(n) && n@.len() > 0) || arguments_delta@.len() > 0,
    }
}

/// Whether a delta carries model output: text, or any part of a tool call.
pub fn delta_has_output(delta: &crate::types::AssistantDelta) -> (r: bool)
    ensures
        r == delta_has_output_spec(*delta),
{
    match delta {
        crate::types::AssistantDelta::Text { delta } => !delta.as_str().is_empty(),
        crate::types::AssistantDelta::Reasoning { delta } => !delta.as_str().is_empty(),
        crate::types::AssistantDelta::ToolCall { id, name, arguments_delta, .. } => {
            let has_id = match id {
                Some(i) => !i.as_str().is_empty(),
                None => false,
            };
            let has_name = match name {
                Some(n) => !n.as_str().is_empty(),
                None => false,
            };
            has_id || has_name || !arguments_delta.as_str().is_empty()
        },
    }
}

/// A call together with its recorded output.
#[derive(Clone, Debug, PartialEq, Eq)]
pub struct ExecutedTool {
    pub call: ToolCall,
    pub output: ToolOutput,
}

impl ExecutedTool {
    /// A call that never started.
    pub fn cancelled(call: ToolCall) -> (r: Self)
        ensures
            r.call == call,
            r.output.content@ == CANCELLED_TOOL_RESULT@,
            r.output.is_error,
            r.output.content_parts@.len() == 0,
            r.output.metadata is None,
    {
        ExecutedTool { call, output: ToolOutput::error(owned(CANCELLED_TOOL_RESULT)) }
    }

    /// A call that started but whose outcome is not known.
    pub fn unknown(call: ToolCall) -> (r: Self)
        ensures
            r.call == call,
            r.output.content@ == UNKNOWN_TOOL_RESULT@,
            r.output.is_error,
            r.output.content_parts@.len() == 0,
            r.output.metadata is None,
    {
        ExecutedTool { call, output: ToolOutput::error(owned(UNKNOWN_TOOL_RESULT)) }
    }

    /// The tool-result message recording this execution.
    pub fn into_message(self) -> (m: Message)
        ensures
            m.role == Role::Tool,
            m.tool_call_id == Some(self.call.id),
            m.is_error == self.output.is_error,
            m.tool_result_metadata == self.output.metadata,
            m.tool_calls@.len() == 0,
            m.provider_state is None,
            self.output.content_parts@.len() == 0 ==> m.content == Some(
                crate::types::Content::Text(self.output.content),
            ),
    {
        let ExecutedTool { call, output } = self;
        let (content, is_error, metadata) = output.into_message_parts();
        Message::tool_result_content(call.id, content, is_error, metadata)
    }
}

/// The `Debug` name of a mode.
pub open spec fn mode_text(mode: AgentMode) -> Seq<char> {
    match mode {
        AgentMode::Default => "Default"@,
        AgentMode::Plan => "Plan"@,
    }
}

/// The `Debug` name of an effect.
pub open spec fn effect_text(effect: ToolEffect) -> Seq<char> {
    match effect {
        ToolEffect::ReadOnly => "ReadOnly"@,
        ToolEffect::Internal => "Internal"@,
        ToolEffect::WorkspaceWrite => "WorkspaceWrite"@,
        ToolEffect::ExternalSideEffect => "ExternalSideEffect"@,
        ToolEffect::PlanOnly => "PlanOnly"@,
    }
}

fn mode_name(mode: AgentMode) -> (r: &'static str)
    ensures
        r@ == mode_text(mode),
{
    match mode {
        AgentMode::Default => "Default",
        AgentMode::Plan => "Plan",
    }
}

fn effect_name(effect: ToolEffect) -> (r: &'static str)
    ensures
        r@ == effect_text(effect),
{
    match effect {
        ToolEffect::ReadOnly => "ReadOnly",
        ToolEffect::Internal => "Internal",
        ToolEffect::WorkspaceWrite => "WorkspaceWrite",
        ToolEffect::ExternalSideEffect => "ExternalSideEffect",
        ToolEffect::PlanOnly => "PlanOnly",
    }
}

/// The refusal of a call whose effect a boundary does not allow.
pub open spec fn denial_text(
    name: Seq<char>,
    permissions: ToolBatchPermissions,
    current: AgentMode,
    effect: ToolEffect,
) -> Seq<char> {
    "tool "@ + debug_str(name) + " is not available under the current mode boundary (request: "@
        + mode_text(permissions.request_mode) + ", batch: "@ + mode_text(permissions.batch_mode)
        + ", current: "@ + mode_text(current) + ", effect: "@ + effect_text(effect) + ")"@
}

/// What happens to one call just before it would start.
#[derive(Clone, Debug, PartialEq, Eq)]
pub enum CallDecision {
    /// Run the registered tool at this position.
    Run { tool: usize },
    /// Record this error output without running anything.
    Refuse { output: ToolOutput },
}

/// Decides whether a call may start: its tool must be registered, and both
/// batch boundaries and the mode now in force must allow its effect.
pub fn decide_call(
    tools: &Vec<RegisteredTool>,
    call: &ToolCall,
    permissions: ToolBatchPermissions,
    current: AgentMode,
) -> (r: CallDecision)
    requires
        names_unique(tools@),
    ensures
        match r {
            CallDecision::Run { tool } => tool < tools@.len() && registered_name(tools@[tool as int])
                == call.name@ && mode_allows(permissions.request_mode, tools@[tool as int].effect)
                && mode_allows(permissions.batch_mode, tools@[tool as int].effect) && mode_allows(
                current,
                tools@[tool as int].effect,
            ),
            CallDecision::Refuse { output } => output.is_error && output.content_parts@.len() == 0
                && output.metadata is None && if is_registered(tools@, call.name@) {
                exists|i: int|
                    0 <= i < tools@.len() && registered_name(#[trigger] tools@[i]) == call.name@
                        && output.content@ == denial_text(
                        call.name@,
                        permissions,
                        current,
                        tools@[i].effect,
                    ) && !(mode_allows(permissions.request_mode, tools@[i].effect) && mode_allows(
                        permissions.batch_mode,
                        tools@[i].effect,
                    ) && mode_allows(current, tools@[i].effect))
            } else {
                output.content@ == "unknown tool: "@ + call.name@
            },
        },
{
    match find_tool(tools, call.name.as_str()) {
        None => {
            let mut text = owned("unknown tool: ");
            push_str(&mut text, call.name.as_str());
            CallDecision::Refuse { output: ToolOutput::error(text) }
        },
        Some(k) => {
            let effect = tools[k].effect;
            if permissions.allows(effect) && current.allows(effect) {
                CallDecision::Run { tool: k }
            } else {
                let mut text = owned("tool ");
                let quoted = debug_string(call.name.as_str());
                push_str(&mut text, quoted.as_str());
                push_str(&mut text, " is not available under the current mode boundary (request: ");
                push_str(&mut text, mode_name(permissions.request_mode));
                push_str(&mut text, ", batch: ");
                push_str(&mut text, mode_name(permissions.batch_mode));
                push_str(&mut text, ", current: ");
                push_str(&mut text, mode_name(current));
                push_str(&mut text, ", effect: ");
                push_str(&mut text, effect_name(effect));
                push_str(&mut text, ")");
                CallDecision::Refuse { output: ToolOutput::error(text) }
            }
        },
    }
}

/// The output of a tool that failed with `error`.
pub fn failed_tool_output(error: &crate::error::ToolError) -> (r: ToolOutput)
    ensures
        r.content@ == error.spec_message(),
        r.is_error,
        r.content_parts@.len() == 0,
        r.metadata is None,
{
    ToolOutput::error(owned(error.message()))
}

/// The output recorded for a call that ran past `timeout`.
pub fn timed_out_output(timeout: TimeSpan) -> (r: ToolOutput)
    ensures
        r.content@ == "tool call timed out after "@ + duration_debug_text(
            (timeout.spec_nanos() / crate::time::NANOS_PER_SEC as nat) as u64,
            (timeout.spec_nanos() % crate::time::NANOS_PER_SEC as nat) as u32,
        ) + "; "@ + UNKNOWN_TOOL_RESULT@,
        r.is_error,
        r.content_parts@.len() == 0,
        r.metadata is None,
{
    let mut text = owned("tool call timed out after ");
    let shown = duration_debug(timeout.as_secs(), timeout.subsec_nanos());
    push_str(&mut text, shown.as_str());
    push_str(&mut text, "; ");
    push_str(&mut text, UNKNOWN_TOOL_RESULT);
    ToolOutput::error(text)
}

/// The end of the wave of parallel calls that starts at `next`: at most
/// `max_parallel` calls, and never past `count`.
pub fn wave_end(next: usize, max_parallel: usize, count: usize) -> (r: usize)
    ensures
        r == if next + max_parallel <= count {
            next + max_parallel
        } else {
            count as int
        },
{
    if max_parallel <= count && next <= count - max_parallel {
        next + max_parallel
    } else {
        count
    }
}

// ---------------------------------------------------------------------------
// Consuming a provider stream
// ---------------------------------------------------------------------------

/// The error of a stream that ended without a final response.
pub const STREAM_ENDED_WITHOUT_RESPONSE: &'static str =
    "provider stream ended without a final response";

/// What the provider stream yielded next.
#[derive(Clone, Debug, PartialEq, Eq)]
pub enum StreamEvent {
    /// The provider is retrying its request.
    Retry,
    /// A piece of assistant output.
    Delta(crate::types::AssistantDelta),
    /// The final response.
    Done,
    /// The provider failed.
    Failed(crate::error::ProviderError),
    /// The stream ended.
    Ended,
}

/// What the run has seen of the current response.
#[derive(Clone, Copy, Debug, PartialEq, Eq, Structural)]
pub struct StreamProgress {
    /// The assistant message was announced.
    pub message_started: bool,
    /// Some delta carried model output.
    pub received_model_output: bool,
}

/// What the run does with a stream event.
#[derive(Clone, Copy, Debug, PartialEq, Eq, Structural)]
pub enum StreamAction {
    /// Pass the retry notice on.
    Retry,
    /// Pass the delta on, announcing the assistant message first when
    /// `start` is set.
    Delta { start: bool },
    /// The response is complete; announce the message first when `start`
    /// is set.
    Finish { start: bool },
    /// The context window overflowed before any output: let the context
    /// managers react, then fail with the provider's error.
    ManageContextThenFail,
    /// Fail with the provider's error.
    Fail,
    /// Fail with `STREAM_ENDED_WITHOUT_RESPONSE`.
    FailUnfinished,
}

/// One step of consuming the provider stream of a turn.
pub fn stream_step(progress: StreamProgress, event: &StreamEvent) -> (r: (StreamProgress, StreamAction))
    ensures
        match *event {
            StreamEvent::Retry => r == (progress, StreamAction::Retry),
            StreamEvent::Delta(d) => r == (
                StreamProgress {
                    message_started: true,
                    received_model_output: progress.received_model_output || delta_has_output_spec(
                        d,
                    ),
                },
                StreamAction::Delta { start: !progress.message_started },
            ),
            StreamEvent::Done => r == (
                StreamProgress { message_started: true, ..progress },
                StreamAction::Finish { start: !progress.message_started },
            ),
            StreamEvent::Failed(e) => r == (
                progress,
                if !progress.received_model_output && e.spec_is_context_length_exceeded() {
                    StreamAction::ManageContextThenFail
                } else {
                    StreamAction::Fail
                },
            ),
            StreamEvent::Ended => r == (progress, StreamAction::FailUnfinished),
        },
{
    match event {
        StreamEvent::Retry => (progress, StreamAction::Retry),
        StreamEvent::Delta(d) => {
            let has_output = delta_has_output(d);
            (
                StreamProgress {
                    message_started: true,
                    received_model_output: progress.received_model_output || has_output,
                },
                StreamAction::Delta { start: !progress.message_started },
            )
        },
        StreamEvent::Done => (
            StreamProgress {
                message_started: true,
                received_model_output: progress.received_model_output,
            },
            StreamAction::Finish { start: !progress.message_started },
        ),
        StreamEvent::Failed(e) => {
            if !progress.received_model_output && e.is_context_length_exceeded() {
                (progress, StreamAction::ManageContextThenFail)
            } else {
                (progress, StreamAction::Fail)
            }
        },
        StreamEvent::Ended => (progress, StreamAction::FailUnfinished),
    }
}

// ---------------------------------------------------------------------------
// The agent's state
// ---------------------------------------------------------------------------

/// The usage percentage of the context window at which the context managers
/// run after a response, unless configured otherwise.
pub const DEFAULT_CONTEXT_MANAGEMENT_THRESHOLD_PERCENT: u8 = 80;

/// `usage` has reached `threshold_percent` percent of its window.
pub open spec fn threshold_reached_spec(usage: ContextUsage, threshold_percent: u8) -> bool {
    usage.used_tokens * 100 >= usage.max_tokens * threshold_percent
}

/// Whether `usage` has reached `threshold_percent` percent of its window.
pub fn threshold_reached(usage: ContextUsage, threshold_percent: u8) -> (r: bool)
    ensures
        r == threshold_reached_spec(usage, threshold_percent),
{
    let used = usage.used_tokens as u128;
    let max = usage.max_tokens as u128;
    let percent = threshold_percent as u128;
    assert(max * percent <= 0xffff_ffff_ffff_ffff * 255) by (nonlinear_arith)
        requires
            max <= 0xffff_ffff_ffff_ffff,
            percent <= 255,
    ;
    used * 100 >= max * percent
}

/// `percent` clamped to `1..=100`.
pub open spec fn clamp_percent(percent: u8) -> u8 {
    if percent < 1 {
        1
    } else if percent > 100 {
        100
    } else {
        percent
    }
}

fn clamp_percent_exec(percent: u8) -> (r: u8)
    ensures
        r == clamp_percent(percent),
{
    if percent < 1 {
        1
    } else if percent > 100 {
        100
    } else {
        percent
    }
}

/// The limit on one tool call as configured: at least one millisecond.
pub open spec fn timeout_ok(timeout: Option<TimeSpan>) -> bool {
    timeout matches Some(t) ==> t.spec_nanos() >= crate::time::NANOS_PER_MILLI
}

/// Where an attached session's persistence stands.
#[derive(Clone, Debug, PartialEq, Eq)]
pub struct SessionBinding {
    pub id: String,
    /// How many messages the last save wrote.
    pub persisted_message_count: usize,
    /// The earliest message changed since the last save, when messages
    /// were replaced rather than appended.
    pub replace_from: Option<usize>,
    /// The workspace the stored session is bound to, kept on every save.
    pub workspace: Option<crate::types::Workspace>,
    /// The capability the stored session restores, kept on every save.
    pub capability_mode: crate::tool::CapabilityMode,
}

impl SessionBinding {
    /// Records that the messages from `unchanged_message_count` on were
    /// replaced; the earliest such position is kept.
    pub fn mark_replace_from(&mut self, unchanged_message_count: usize)
        ensures
            final(self).id == old(self).id,
            final(self).persisted_message_count == old(self).persisted_message_count,
            final(self).workspace == old(self).workspace,
            final(self).capability_mode == old(self).capability_mode,
            final(self).replace_from == Some(
                match old(self).replace_from {
                    Some(c) => if c <= unchanged_message_count {
                        c
                    } else {
                        unchanged_message_count
                    },
                    None => unchanged_message_count,
                },
            ),
    {
        let next = match self.replace_from {
            Some(c) => if c <= unchanged_message_count {
                c
            } else {
                unchanged_message_count
            },
            None => unchanged_message_count,
        };
        self.replace_from = Some(next);
    }
}

/// How a save writes the current state.
#[derive(Clone, Copy, Debug, PartialEq, Eq, Structural)]
pub enum SaveKind {
    /// Append what follows the first `persisted_message_count` messages.
    Incremental { persisted_message_count: usize },
    /// Rewrite everything after the first `unchanged_message_count` messages.
    ReplacingFrom { unchanged_message_count: usize },
}

/// The result of a completed run.
#[derive(Clone, Debug, PartialEq, Eq)]
pub struct AgentRun {
    pub final_message: Message,
    /// The messages the run added: the prompt, then each turn's assistant
    /// message and tool results.
    pub new_messages: Vec<Message>,
    pub turns: usize,
    pub run_usage: crate::types::TokenUsage,
    pub context_usage: Option<ContextUsage>,
}

/// How a run ended.
#[derive(Clone, Debug, PartialEq, Eq)]
pub enum AgentRunOutcome {
    Completed(AgentRun),
    Stopped,
}

impl RegisteredTool {
    /// A copy of this registration.
    pub fn duplicate(&self) -> (r: Self)
        ensures
            r.definition@ == self.definition@,
            r.effect == self.effect,
    {
        RegisteredTool { definition: self.definition.duplicate(), effect: self.effect }
    }
}

/// The settings an agent is built from.
#[derive(Debug)]
pub struct AgentBuilder {
    pub system_prompt: String,
    pub tools: Vec<RegisteredTool>,
    pub tool_execution: ToolExecutionMode,
    pub tool_call_timeout: Option<TimeSpan>,
    pub max_parallel_tools: usize,
    pub mode: AgentMode,
    pub generation_config: GenerationConfig,
    pub max_context_tokens: Option<u64>,
    pub context_management_threshold_percent: u8,
}

impl AgentBuilder {
    /// The default settings: the default system prompt, no tools, parallel
    /// execution with the default limits, default mode and generation
    /// settings, no context window.
    pub fn new() -> (r: Self)
        ensures
            r.system_prompt@ == DEFAULT_SYSTEM_PROMPT@,
            r.tools@.len() == 0,
            r.tool_execution == ToolExecutionMode::Parallel,
            r.tool_call_timeout matches Some(t) && t.spec_nanos() == DEFAULT_TOOL_CALL_TIMEOUT_SECS
                * crate::time::NANOS_PER_SEC,
            r.max_parallel_tools == DEFAULT_MAX_PARALLEL_TOOLS,
            r.mode == AgentMode::Default,
            r.generation_config.model is None,
            r.generation_config.max_tokens is None,
            r.generation_config.reasoning_effort is None,
            r.max_context_tokens is None,
            r.context_management_threshold_percent == DEFAULT_CONTEXT_MANAGEMENT_THRESHOLD_PERCENT,
    {
        AgentBuilder {
            system_prompt: owned(DEFAULT_SYSTEM_PROMPT),
            tools: Vec::new(),
            tool_execution: ToolExecutionMode::Parallel,
            tool_call_timeout: Some(TimeSpan::from_secs(DEFAULT_TOOL_CALL_TIMEOUT_SECS)),
            max_parallel_tools: DEFAULT_MAX_PARALLEL_TOOLS,
            mode: AgentMode::Default,
            generation_config: GenerationConfig::default(),
            max_context_tokens: None,
            context_management_threshold_percent: DEFAULT_CONTEXT_MANAGEMENT_THRESHOLD_PERCENT,
        }
    }

    pub fn system_prompt(self, system_prompt: String) -> (r: Self)
        ensures
            r == (AgentBuilder { system_prompt, ..self }),
    {
        AgentBuilder { system_prompt, ..self }
    }

    /// Adds a tool; a later tool of the same name replaces an earlier one.
    pub fn tool(self, tool: RegisteredTool) -> (r: Self)
        ensures
            r.tools@ == self.tools@.push(tool),
            r.system_prompt == self.system_prompt,
    {
        let mut tools = self.tools;
        tools.push(tool);
        AgentBuilder { tools, ..self }
    }

    pub fn tool_execution(self, mode: ToolExecutionMode) -> (r: Self)
        ensures
            r == (AgentBuilder { tool_execution: mode, ..self }),
    {
        AgentBuilder { tool_execution: mode, ..self }
    }

    /// Bounds the number of concurrency-safe calls that run at once; at
    /// least one.
    pub fn max_parallel_tools(self, maximum: usize) -> (r: Self)
        ensures
            r == (AgentBuilder {
                max_parallel_tools: if maximum >= 1 {
                    maximum
                } else {
                    1
                },
                ..self
            }),
    {
        AgentBuilder {
            max_parallel_tools: if maximum >= 1 {
                maximum
            } else {
                1
            },
            ..self
        }
    }

    pub fn mode(self, mode: AgentMode) -> (r: Self)
        ensures
            r == (AgentBuilder { mode, ..self }),
    {
        AgentBuilder { mode, ..self }
    }

    /// Limits each tool call; a zero limit becomes one millisecond.
    pub fn tool_call_timeout(self, timeout: TimeSpan) -> (r: Self)
        ensures
            r.tool_call_timeout matches Some(t) && t.spec_nanos() == if timeout.spec_nanos()
                >= crate::time::NANOS_PER_MILLI {
                timeout.spec_nanos()
            } else {
                crate::time::NANOS_PER_MILLI as nat
            },
            r.system_prompt == self.system_prompt,
            r.tools == self.tools,
            r.max_parallel_tools == self.max_parallel_tools,
            r.mode == self.mode,
            r.context_management_threshold_percent == self.context_management_threshold_percent,
    {
        AgentBuilder { tool_call_timeout: Some(nonzero_timeout(timeout)), ..self }
    }

    pub fn without_tool_call_timeout(self) -> (r: Self)
        ensures
            r == (AgentBuilder { tool_call_timeout: None, ..self }),
    {
        AgentBuilder { tool_call_timeout: None, ..self }
    }

    pub fn generation_config(self, config: GenerationConfig) -> (r: Self)
        ensures
            r == (AgentBuilder { generation_config: config, ..self }),
    {
        AgentBuilder { generation_config: config, ..self }
    }

    /// Overrides the provider's model for this agent's requests.
    pub fn model(self, model: String) -> (r: Self)
        ensures
            r.generation_config.model == Some(model),
            r.generation_config.max_tokens == self.generation_config.max_tokens,
            r.generation_config.reasoning_effort == self.generation_config.reasoning_effort,
            r.system_prompt == self.system_prompt,
            r.tools == self.tools,
    {
        let mut config = self.generation_config;
        config.model = Some(model);
        AgentBuilder { generation_config: config, ..self }
    }

    pub fn max_tokens(self, max_tokens: u32) -> (r: Self)
        ensures
            r.generation_config.max_tokens == Some(max_tokens),
            r.generation_config.model == self.generation_config.model,
            r.generation_config.reasoning_effort == self.generation_config.reasoning_effort,
            r.system_prompt == self.system_prompt,
            r.tools == self.tools,
    {
        let mut config = self.generation_config;
        config.max_tokens = Some(max_tokens);
        AgentBuilder { generation_config: config, ..self }
    }

    pub fn reasoning_effort(self, reasoning_effort: crate::types::ReasoningEffort) -> (r: Self)
        ensures
            r.generation_config.reasoning_effort == Some(reasoning_effort),
            r.generation_config.model == self.generation_config.model,
            r.generation_config.max_tokens == self.generation_config.max_tokens,
            r.system_prompt == self.system_prompt,
            r.tools == self.tools,
    {
        let mut config = self.generation_config;
        config.reasoning_effort = Some(reasoning_effort);
        AgentBuilder { generation_config: config, ..self }
    }

    pub fn max_context_tokens(self, max_context_tokens: u64) -> (r: Self)
        ensures
            r == (AgentBuilder { max_context_tokens: Some(max_context_tokens), ..self }),
    {
        AgentBuilder { max_context_tokens: Some(max_context_tokens), ..self }
    }

    /// Sets the usage percentage that activates the context managers,
    /// clamped to `1..=100`.
    pub fn context_management_threshold_percent(self, threshold_percent: u8) -> (r: Self)
        ensures
            r == (AgentBuilder {
                context_management_threshold_percent: clamp_percent(threshold_percent),
                ..self
            }),
    {
        AgentBuilder {
            context_management_threshold_percent: clamp_percent_exec(threshold_percent),
            ..self
        }
    }

    /// The agent these settings describe, with an empty transcript and no
    /// usage; the tools are registered in order, a later one replacing an
    /// earlier one of the same name.
    pub fn build(self) -> (r: Agent)
        ensures
            r@.system_prompt == self.system_prompt@,
            forall|name: Seq<char>|
                is_registered(r@.tools, name) == is_registered(self.tools@, name),
            r@.messages.len() == 0,
            r@.tool_execution == self.tool_execution,
            r@.max_parallel_tools == if self.max_parallel_tools >= 1 {
                self.max_parallel_tools
            } else {
                1
            },
            r@.mode == self.mode,
            r@.generation_config == self.generation_config,
            r@.max_context_tokens == self.max_context_tokens,
            r@.threshold_percent == clamp_percent(self.context_management_threshold_percent),
            r@.last_usage is None,
            r@.context_usage is None,
            r@.cumulative_usage == crate::types::TokenUsage::spec_zero(),
            r@.session is None,
    {
        let AgentBuilder {
            system_prompt,
            tools: given,
            tool_execution,
            tool_call_timeout,
            max_parallel_tools,
            mode,
            generation_config,
            max_context_tokens,
            context_management_threshold_percent,
        } = self;
        let mut tools: Vec<RegisteredTool> = Vec::new();
        let mut i: usize = 0;
        while i < given.len()
            invariant
                i <= given@.len(),
                names_unique(tools@),
                forall|name: Seq<char>|
                    is_registered(tools@, name) == is_registered(given@.take(i as int), name),
            decreases given.len() - i,
        {
            let ghost before = tools@;
            register_tool(&mut tools, given[i].duplicate());
            proof {
                let prefix = given@.take(i + 1);
                assert forall|name: Seq<char>|
                    is_registered(tools@, name) == is_registered(prefix, name) by {
                    if name == registered_name(given@[i as int]) {
                        assert(prefix[i as int] == given@[i as int]);
                    } else {
                        if is_registered(prefix, name) {
                            let j = choose|j: int|
                                0 <= j < prefix.len() && registered_name(#[trigger] prefix[j])
                                    == name;
                            assert(given@.take(i as int)[j] == prefix[j]);
                        }
                        if is_registered(given@.take(i as int), name) {
                            let j = choose|j: int|
                                0 <= j < i && registered_name(
                                    #[trigger] given@.take(i as int)[j],
                                ) == name;
                            assert(prefix[j] == given@.take(i as int)[j]);
                        }
                    }
                }
            }
            i += 1;
        }
        proof {
            assert(given@.take(given@.len() as int) == given@);
        }
        let timeout = match tool_call_timeout {
            Some(t) => Some(nonzero_timeout(t)),
            None => None,
        };
        Agent {
            system_prompt,
            tools,
            messages: Vec::new(),
            tool_execution,
            tool_call_timeout: timeout,
            max_parallel_tools: if max_parallel_tools >= 1 {
                max_parallel_tools
            } else {
                1
            },
            mode,
            generation_config,
            max_context_tokens,
            context_management_threshold_percent: clamp_percent_exec(
                context_management_threshold_percent,
            ),
            last_usage: None,
            context_usage: None,
            cumulative_usage: crate::types::TokenUsage::zero(),
            session: None,
        }
    }
}

/// An agent's state as the library sees it.
pub ghost struct AgentView {
    pub system_prompt: Seq<char>,
    pub tools: Seq<RegisteredTool>,
    pub messages: Seq<MessageView>,
    pub tool_execution: ToolExecutionMode,
    pub tool_call_timeout: Option<TimeSpan>,
    pub max_parallel_tools: usize,
    pub mode: AgentMode,
    pub generation_config: GenerationConfig,
    pub max_context_tokens: Option<u64>,
    pub threshold_percent: u8,
    pub last_usage: Option<crate::types::TokenUsage>,
    pub context_usage: Option<ContextUsage>,
    pub cumulative_usage: crate::types::TokenUsage,
    pub session: Option<SessionBinding>,
}

/// The transcript, usage, settings and tool registry of an agent; the
/// provider, the tools' code, listeners and storage live with its runner.
#[derive(Debug)]
pub struct Agent {
    system_prompt: String,
    tools: Vec<RegisteredTool>,
    messages: Vec<Message>,
    tool_execution: ToolExecutionMode,
    tool_call_timeout: Option<TimeSpan>,
    max_parallel_tools: usize,
    mode: AgentMode,
    generation_config: GenerationConfig,
    max_context_tokens: Option<u64>,
    context_management_threshold_percent: u8,
    last_usage: Option<crate::types::TokenUsage>,
    context_usage: Option<ContextUsage>,
    cumulative_usage: crate::types::TokenUsage,
    session: Option<SessionBinding>,
}

impl View for Agent {
    type V = AgentView;

    closed spec fn view(&self) -> AgentView {
        AgentView {
            system_prompt: self.system_prompt@,
            tools: self.tools@,
            messages: messages_view(self.messages@),
            tool_execution: self.tool_execution,
            tool_call_timeout: self.tool_call_timeout,
            max_parallel_tools: self.max_parallel_tools,
            mode: self.mode,
            generation_config: self.generation_config,
            max_context_tokens: self.max_context_tokens,
            threshold_percent: self.context_management_threshold_percent,
            last_usage: self.last_usage,
            context_usage: self.context_usage,
            cumulative_usage: self.cumulative_usage,
            session: self.session,
        }
    }
}

/// What a successful response leaves of the context window: the window
/// used by `usage`, when both are known.
pub open spec fn context_after(max_context_tokens: Option<u64>, usage: Option<crate::types::TokenUsage>) -> Option<ContextUsage> {
    match (usage, max_context_tokens) {
        (Some(u), Some(m)) => Some(crate::types::usage_in_window(m, u)),
        _ => None,
    }
}

/// The state an agent goes back to when a save fails.
#[derive(Debug)]
pub struct AgentCheckpoint {
    pub messages: Vec<Message>,
    pub last_usage: Option<crate::types::TokenUsage>,
    pub context_usage: Option<ContextUsage>,
    pub cumulative_usage: crate::types::TokenUsage,
    pub mode: AgentMode,
}

impl Agent {
    #[verifier::type_invariant]
    spec fn inv(self) -> bool {
        &&& names_unique(self.tools@)
        &&& self.max_parallel_tools >= 1
        &&& 1 <= self.context_management_threshold_percent <= 100
        &&& timeout_ok(self.tool_call_timeout)
    }

    /// The transcript.
    pub fn messages(&self) -> (r: &Vec<Message>)
        ensures
            messages_view(r@) == self@.messages,
    {
        &self.messages
    }

    /// The tool registry: definitions and effects, no two with one name.
    pub fn tools(&self) -> (r: &Vec<RegisteredTool>)
        ensures
            r@ == self@.tools,
            names_unique(r@),
    {
        proof {
            use_type_invariant(self);
        }
        &self.tools
    }

    pub fn system_prompt(&self) -> (r: &str)
        ensures
            r@ == self@.system_prompt,
    {
        self.system_prompt.as_str()
    }

    pub fn last_usage(&self) -> (r: Option<crate::types::TokenUsage>)
        ensures
            r == self@.last_usage,
    {
        self.last_usage
    }

    pub fn context_usage(&self) -> (r: Option<ContextUsage>)
        ensures
            r == self@.context_usage,
    {
        self.context_usage
    }

    pub fn cumulative_usage(&self) -> (r: crate::types::TokenUsage)
        ensures
            r == self@.cumulative_usage,
    {
        self.cumulative_usage
    }

    pub fn context_management_threshold_percent(&self) -> (r: u8)
        ensures
            r == self@.threshold_percent,
            1 <= r <= 100,
    {
        proof {
            use_type_invariant(self);
        }
        self.context_management_threshold_percent
    }

    pub fn mode(&self) -> (r: AgentMode)
        ensures
            r == self@.mode,
    {
        self.mode
    }

    pub fn tool_execution(&self) -> (r: ToolExecutionMode)
        ensures
            r == self@.tool_execution,
    {
        self.tool_execution
    }

    pub fn tool_call_timeout(&self) -> (r: Option<TimeSpan>)
        ensures
            r == self@.tool_call_timeout,
            timeout_ok(r),
    {
        proof {
            use_type_invariant(self);
        }
        self.tool_call_timeout
    }

    pub fn max_parallel_tools(&self) -> (r: usize)
        ensures
            r == self@.max_parallel_tools,
            r >= 1,
    {
        proof {
            use_type_invariant(self);
        }
        self.max_parallel_tools
    }

    pub fn max_context_tokens(&self) -> (r: Option<u64>)
        ensures
            r == self@.max_context_tokens,
    {
        self.max_context_tokens
    }

    /// The per-request model override.
    pub fn model(&self) -> (r: Option<&str>)
        ensures
            match self@.generation_config.model {
                Some(m) => r matches Some(s) && s@ == m@,
                None => r is None,
            },
    {
        match &self.generation_config.model {
            Some(m) => Some(m.as_str()),
            None => None,
        }
    }

    pub fn reasoning_effort(&self) -> (r: Option<crate::types::ReasoningEffort>)
        ensures
            r == self@.generation_config.reasoning_effort,
    {
        self.generation_config.reasoning_effort
    }

    pub fn session_id(&self) -> (r: Option<&str>)
        ensures
            match self@.session {
                Some(s) => r matches Some(id) && id@ == s.id@,
                None => r is None,
            },
    {
        match &self.session {
            Some(s) => Some(s.id.as_str()),
            None => None,
        }
    }

    /// Installs or replaces a tool.
    pub fn add_tool(&mut self, tool: RegisteredTool)
        ensures
            is_registered(final(self)@.tools, registered_name(tool)),
            forall|name: Seq<char>|
                name != registered_name(tool) ==> (is_registered(final(self)@.tools, name)
                    == is_registered(old(self)@.tools, name)),
            forall|i: int|
                0 <= i < final(self)@.tools.len() && registered_name(
                    #[trigger] final(self)@.tools[i],
                ) == registered_name(tool) ==> final(self)@.tools[i] == tool,
            final(self)@.messages == old(self)@.messages,
            final(self)@.mode == old(self)@.mode,
            final(self)@.session == old(self)@.session,
    {
        proof {
            use_type_invariant(&*self);
        }
        let mut tools: Vec<RegisteredTool> = Vec::new();
        std::mem::swap(&mut tools, &mut self.tools);
        register_tool(&mut tools, tool);
        self.tools = tools;
    }

    /// Empties the transcript and forgets the last usage; an attached
    /// session is rewritten from its start on the next save.
    pub fn clear_messages(&mut self)
        ensures
            final(self)@.messages.len() == 0,
            final(self)@.last_usage is None,
            final(self)@.context_usage is None,
            final(self)@.cumulative_usage == old(self)@.cumulative_usage,
            final(self)@.mode == old(self)@.mode,
            final(self)@.tools == old(self)@.tools,
            match old(self)@.session {
                Some(s) => final(self)@.session == Some(
                    SessionBinding { replace_from: Some(0), ..s },
                ),
                None => final(self)@.session is None,
            },
    {
        proof {
            use_type_invariant(&*self);
        }
        self.messages = Vec::new();
        self.last_usage = None;
        self.context_usage = None;
        self.mark_replace_from(0);
        proof {
            assert(messages_view(self.messages@) =~= Seq::empty());
        }
    }

    fn mark_replace_from(&mut self, unchanged_message_count: usize)
        ensures
            final(self).system_prompt == old(self).system_prompt,
            final(self).tools == old(self).tools,
            final(self).messages == old(self).messages,
            final(self).tool_execution == old(self).tool_execution,
            final(self).tool_call_timeout == old(self).tool_call_timeout,
            final(self).max_parallel_tools == old(self).max_parallel_tools,
            final(self).mode == old(self).mode,
            final(self).generation_config == old(self).generation_config,
            final(self).max_context_tokens == old(self).max_context_tokens,
            final(self).context_management_threshold_percent
                == old(self).context_management_threshold_percent,
            final(self).last_usage == old(self).last_usage,
            final(self).context_usage == old(self).context_usage,
            final(self).cumulative_usage == old(self).cumulative_usage,
            match old(self).session {
                Some(s) => final(self).session == Some(
                    SessionBinding {
                        replace_from: Some(
                            match s.replace_from {
                                Some(c) => if c <= unchanged_message_count {
                                    c
                                } else {
                                    unchanged_message_count
                                },
                                None => unchanged_message_count,
                            },
                        ),
                        ..s
                    },
                ),
                None => final(self).session is None,
            },
    {
        proof {
            use_type_invariant(&*self);
        }
        let mut session: Option<SessionBinding> = None;
        std::mem::swap(&mut session, &mut self.session);
        match session {
            Some(mut s) => {
                s.mark_replace_from(unchanged_message_count);
                self.session = Some(s);
            },
            None => {},
        }
    }

    /// Sets the usage percentage that activates the context managers,
    /// clamped to `1..=100`.
    pub fn set_context_management_threshold_percent(&mut self, threshold_percent: u8)
        ensures
            final(self)@ == (AgentView { threshold_percent: clamp_percent(threshold_percent), ..old(self)@ }),
    {
        proof {
            use_type_invariant(&*self);
        }
        self.context_management_threshold_percent = clamp_percent_exec(threshold_percent);
    }

    /// Changes the mode in memory; the next save persists it.
    pub fn set_mode_in_memory(&mut self, mode: AgentMode)
        ensures
            final(self)@ == (AgentView { mode, ..old(self)@ }),
    {
        proof {
            use_type_invariant(&*self);
        }
        self.mode = mode;
    }

    /// Goes back towards `checkpoint` after a failed save of a mode change:
    /// planning wins whenever the current or the checkpoint's mode plans.
    pub fn restore_mode_safely(&mut self, checkpoint: AgentMode)
        ensures
            final(self)@ == (AgentView { mode: safe_restore(old(self)@.mode, checkpoint), ..old(self)@ }),
    {
        proof {
            use_type_invariant(&*self);
        }
        self.mode = restore_mode_safely(self.mode, checkpoint);
    }

    pub fn set_model(&mut self, model: String)
        ensures
            final(self)@.generation_config.model == Some(model),
            final(self)@.generation_config.max_tokens == old(self)@.generation_config.max_tokens,
            final(self)@.generation_config.reasoning_effort
                == old(self)@.generation_config.reasoning_effort,
            final(self)@.messages == old(self)@.messages,
            final(self)@.mode == old(self)@.mode,
    {
        proof {
            use_type_invariant(&*self);
        }
        self.generation_config.model = Some(model);
    }

    pub fn clear_model(&mut self)
        ensures
            final(self)@.generation_config.model is None,
            final(self)@.generation_config.max_tokens == old(self)@.generation_config.max_tokens,
            final(self)@.generation_config.reasoning_effort
                == old(self)@.generation_config.reasoning_effort,
            final(self)@.messages == old(self)@.messages,
            final(self)@.mode == old(self)@.mode,
    {
        proof {
            use_type_invariant(&*self);
        }
        self.generation_config.model = None;
    }

    pub fn set_reasoning_effort(&mut self, reasoning_effort: Option<crate::types::ReasoningEffort>)
        ensures
            final(self)@.generation_config.reasoning_effort == reasoning_effort,
            final(self)@.generation_config.model == old(self)@.generation_config.model,
            final(self)@.generation_config.max_tokens == old(self)@.generation_config.max_tokens,
            final(self)@.messages == old(self)@.messages,
            final(self)@.mode == old(self)@.mode,
    {
        proof {
            use_type_invariant(&*self);
        }
        self.generation_config.reasoning_effort = reasoning_effort;
    }

    /// Changes the limit on later tool calls; a zero limit becomes one
    /// millisecond, and `None` removes the limit.
    pub fn set_tool_call_timeout(&mut self, timeout: Option<TimeSpan>)
        ensures
            match timeout {
                Some(t) => final(self)@.tool_call_timeout matches Some(u) && u.spec_nanos() == if t.spec_nanos()
                    >= crate::time::NANOS_PER_MILLI {
                    t.spec_nanos()
                } else {
                    crate::time::NANOS_PER_MILLI as nat
                },
                None => final(self)@.tool_call_timeout is None,
            },
            final(self)@.messages == old(self)@.messages,
            final(self)@.mode == old(self)@.mode,
            final(self)@.max_parallel_tools == old(self)@.max_parallel_tools,
    {
        proof {
            use_type_invariant(&*self);
        }
        self.tool_call_timeout = match timeout {
            Some(t) => Some(nonzero_timeout(t)),
            None => None,
        };
    }

    /// Bounds later parallel waves; at least one call.
    pub fn set_max_parallel_tools(&mut self, maximum: usize)
        ensures
            final(self)@ == (AgentView {
                max_parallel_tools: if maximum >= 1 {
                    maximum
                } else {
                    1
                },
                ..old(self)@
            }),
    {
        proof {
            use_type_invariant(&*self);
        }
        self.max_parallel_tools = if maximum >= 1 {
            maximum
        } else {
            1
        };
    }
}

/// The view of a tool result answering `id` with the text `text`.
pub open spec fn tool_result_view(id: Seq<char>, text: Seq<char>, is_error: bool) -> MessageView {
    MessageView {
        role: Role::Tool,
        content: Some(ContentView::Text(text)),
        tool_calls: Seq::empty(),
        tool_call_id: Some(id),
        is_error,
        provider_state: None,
        tool_result_metadata: None,
    }
}

/// The results that stand for the calls `calls` while their outcome is
/// unknown.
pub open spec fn unknown_results(calls: Seq<ToolCall>) -> Seq<MessageView> {
    Seq::new(calls.len(), |k: int| tool_result_view(calls[k].id@, UNKNOWN_TOOL_RESULT@, true))
}

fn unknown_result(call: &ToolCall) -> (m: Message)
    ensures
        m@ == tool_result_view(call.id@, UNKNOWN_TOOL_RESULT@, true),
        crate::transcript::answers(m, call.id@),
{
    let m = Message::tool_result(call.id.as_str(), UNKNOWN_TOOL_RESULT, true);
    proof {
        assert(crate::types::tool_calls_view(m.tool_calls@) =~= Seq::empty());
    }
    m
}

impl Agent {
    /// The transcript as stored.
    pub closed spec fn transcript(&self) -> Seq<Message> {
        self.messages@
    }

    /// The stored transcript is what the view shows.
    pub proof fn lemma_transcript_view(&self)
        ensures
            messages_view(self.transcript()) == self@.messages,
    {
    }

    /// Starts a run: appends the user's prompt and returns a copy of it. A
    /// transcript whose calls were all answered stays so.
    pub fn begin_run(&mut self, content: crate::types::Content) -> (r: Message)
        ensures
            final(self)@ == (AgentView { messages: old(self)@.messages.push(r@), ..old(self)@ }),
            r.role == Role::User,
            r@.content == Some(content@),
            r.tool_calls@.len() == 0,
            r.tool_call_id is None,
            !r.is_error,
            r.provider_state is None,
            r.tool_result_metadata is None,
            crate::transcript::well_paired(old(self).transcript())
                ==> crate::transcript::well_paired(final(self).transcript()),
    {
        proof {
            use_type_invariant(&*self);
        }
        let user = Message::user_content(content);
        let copy = user.duplicate();
        let mut messages: Vec<Message> = Vec::new();
        std::mem::swap(&mut messages, &mut self.messages);
        messages.push(user);
        self.messages = messages;
        proof {
            assert(messages_view(self.messages@) =~= messages_view(old(self).messages@).push(copy@));
            assert(self.messages@.drop_last() =~= old(self).messages@);
            assert(copy@.tool_calls == user@.tool_calls);
            assert(copy@.tool_calls.len() == copy.tool_calls@.len());
            assert(user@.tool_calls.len() == user.tool_calls@.len());
        }
        copy
    }

    /// The request of the next turn: the system prompt, then the
    /// transcript; the tools the current mode allows; the generation
    /// settings.
    pub fn turn_request(&self) -> (r: ProviderRequest)
        ensures
            messages_view(r.messages@) == Seq::<MessageView>::empty().push(
                text_message(Role::System, self@.system_prompt),
            ) + self@.messages,
            definitions_view(r.tools@) == definitions_for_mode(self@.tools, self@.mode),
            r.config.same_as(self@.generation_config),
    {
        let mut messages: Vec<Message> = Vec::new();
        messages.push(Message::system(self.system_prompt.as_str()));
        let ghost first = messages@[0]@;
        let mut i: usize = 0;
        while i < self.messages.len()
            invariant
                i <= self.messages@.len(),
                messages@.len() == i + 1,
                messages@[0]@ == first,
                first == text_message(Role::System, self.system_prompt@),
                forall|k: int| 0 <= k < i ==> (#[trigger] messages@[k + 1])@ == self.messages@[k]@,
            decreases self.messages.len() - i,
        {
            messages.push(self.messages[i].duplicate());
            i += 1;
        }
        proof {
            let expected = Seq::<MessageView>::empty().push(first) + messages_view(self.messages@);
            assert forall|t: int| 0 <= t < messages@.len() implies messages_view(messages@)[t]
                == expected[t] by {
                if t > 0 {
                    assert(messages@[(t - 1) + 1]@ == self.messages@[t - 1]@);
                }
            }
            assert(messages_view(messages@) =~= expected);
        }
        ProviderRequest {
            messages,
            tools: tool_definitions_for_mode(&self.tools, self.mode),
            config: self.generation_config.duplicate(),
        }
    }

    /// Re-applies the boundary of the current mode to a request that hooks
    /// may have changed.
    pub fn enforce_mode(&self, request: &mut ProviderRequest)
        ensures
            definitions_view(final(request).tools@) == allowed_definitions(
                definitions_view(old(request).tools@),
                self@.tools,
                self@.mode,
            ),
            messages_view(final(request).messages@) == messages_for_mode(
                messages_view(old(request).messages@),
                self@.mode,
            ),
            final(request).config == old(request).config,
    {
        proof {
            use_type_invariant(self);
        }
        enforce_request_mode(request, self.mode, &self.tools);
    }

    /// The boundaries of a batch produced by a request made in
    /// `request_mode`, with the mode now in force.
    pub fn batch_permissions(&self, request_mode: AgentMode) -> (r: ToolBatchPermissions)
        ensures
            r == (ToolBatchPermissions { request_mode, batch_mode: self@.mode }),
    {
        ToolBatchPermissions::new(request_mode, self.mode)
    }

    /// How a batch runs: one call after another when it must, otherwise as
    /// configured.
    pub fn batch_execution_mode(
        &self,
        permissions: ToolBatchPermissions,
        calls: &Vec<ToolCall>,
        concurrency: &Vec<ToolConcurrency>,
    ) -> (r: ToolExecutionMode)
        requires
            concurrency@.len() == calls@.len(),
        ensures
            r == if permissions.request_mode == AgentMode::Plan || permissions.batch_mode
                == AgentMode::Plan || exists|i: int|
                0 <= i < calls@.len() && needs_exclusive_run(
                    self@.tools,
                    (#[trigger] calls@[i]).name@,
                    concurrency@[i],
                ) {
                ToolExecutionMode::Sequential
            } else {
                self@.tool_execution
            },
    {
        proof {
            use_type_invariant(self);
        }
        if permissions.requires_sequential(calls, &self.tools, concurrency) {
            ToolExecutionMode::Sequential
        } else {
            self.tool_execution
        }
    }

    /// Whether `call` may start now, under the batch's boundaries and the
    /// mode in force.
    pub fn decide_call(&self, call: &ToolCall, permissions: ToolBatchPermissions) -> (r: CallDecision)
        ensures
            match r {
                CallDecision::Run { tool } => tool < self@.tools.len() && registered_name(
                    self@.tools[tool as int],
                ) == call.name@ && mode_allows(
                    permissions.request_mode,
                    self@.tools[tool as int].effect,
                ) && mode_allows(permissions.batch_mode, self@.tools[tool as int].effect)
                    && mode_allows(self@.mode, self@.tools[tool as int].effect),
                CallDecision::Refuse { output } => output.is_error && output.content_parts@.len()
                    == 0 && output.metadata is None && if is_registered(self@.tools, call.name@) {
                    exists|i: int|
                        0 <= i < self@.tools.len() && registered_name(#[trigger] self@.tools[i])
                            == call.name@ && output.content@ == denial_text(
                            call.name@,
                            permissions,
                            self@.mode,
                            self@.tools[i].effect,
                        ) && !(mode_allows(permissions.request_mode, self@.tools[i].effect)
                            && mode_allows(permissions.batch_mode, self@.tools[i].effect)
                            && mode_allows(self@.mode, self@.tools[i].effect))
                } else {
                    output.content@ == "unknown tool: "@ + call.name@
                },
            },
    {
        proof {
            use_type_invariant(self);
        }
        decide_call(&self.tools, call, permissions, self.mode)
    }

    /// Records the usage of a successful response: it becomes the last
    /// usage, the context window is recomputed from it, and it is added to
    /// the cumulative usage. Returns the run usage with it added.
    pub fn apply_response_usage(
        &mut self,
        usage: Option<crate::types::TokenUsage>,
        run_usage: crate::types::TokenUsage,
    ) -> (r: crate::types::TokenUsage)
        ensures
            final(self)@ == (AgentView {
                last_usage: usage,
                context_usage: context_after(old(self)@.max_context_tokens, usage),
                cumulative_usage: match usage {
                    Some(u) => crate::types::usage_sum(old(self)@.cumulative_usage, u),
                    None => old(self)@.cumulative_usage,
                },
                ..old(self)@
            }),
            final(self).transcript() == old(self).transcript(),
            r == match usage {
                Some(u) => crate::types::usage_sum(run_usage, u),
                None => run_usage,
            },
    {
        proof {
            use_type_invariant(&*self);
        }
        self.last_usage = usage;
        self.context_usage = match (usage, self.max_context_tokens) {
            (Some(u), Some(m)) => Some(ContextUsage::from_usage(m, u)),
            _ => None,
        };
        match usage {
            Some(u) => {
                self.cumulative_usage = self.cumulative_usage.plus(u);
                run_usage.plus(u)
            },
            None => run_usage,
        }
    }

    /// Journals a response that asked for tools before any of them runs:
    /// the assistant message, then an unknown-outcome error result for each
    /// call. Returns where the assistant message stands. A transcript whose
    /// calls were all answered stays so.
    pub fn journal_tool_calls(&mut self, assistant: &Message) -> (start: usize)
        requires
            assistant.role == Role::Assistant,
        ensures
            start == old(self)@.messages.len(),
            final(self)@ == (AgentView {
                messages: old(self)@.messages.push(assistant@) + unknown_results(
                    assistant.tool_calls@,
                ),
                ..old(self)@
            }),
            crate::transcript::well_paired(old(self).transcript())
                ==> crate::transcript::well_paired(final(self).transcript()),
    {
        proof {
            use_type_invariant(&*self);
        }
        let start = self.messages.len();
        let ghost before = self.messages@;
        let mut messages: Vec<Message> = Vec::new();
        std::mem::swap(&mut messages, &mut self.messages);
        messages.push(assistant.duplicate());
        let ghost pushed = messages@;
        let mut k: usize = 0;
        while k < assistant.tool_calls.len()
            invariant
                k <= assistant.tool_calls@.len(),
                start == before.len(),
                messages@.len() == start + 1 + k,
                messages@.take(start + 1) == pushed,
                pushed.len() == start + 1,
                pushed.take(start as int) == before,
                pushed[start as int]@ == assistant@,
                forall|t: int|
                    0 <= t < k ==> (#[trigger] messages@[start + 1 + t])@ == tool_result_view(
                        assistant.tool_calls@[t].id@,
                        UNKNOWN_TOOL_RESULT@,
                        true,
                    ) && crate::transcript::answers(
                        messages@[start + 1 + t],
                        assistant.tool_calls@[t].id@,
                    ),
            decreases assistant.tool_calls.len() - k,
        {
            let m = unknown_result(&assistant.tool_calls[k]);
            messages.push(m);
            proof {
                assert(messages@.take(start + 1) =~= pushed);
            }
            k += 1;
        }
        self.messages = messages;
        proof {
            let after = self.messages@;
            assert(messages_view(after) =~= messages_view(before).push(assistant@)
                + unknown_results(assistant.tool_calls@)) by {
                assert forall|t: int| 0 <= t < after.len() implies messages_view(after)[t]
                    == (messages_view(before).push(assistant@) + unknown_results(
                    assistant.tool_calls@,
                ))[t] by {
                    if t < start {
                        assert(after[t] == after.take(start + 1)[t]);
                        assert(pushed[t] == before[t]);
                    } else if t == start {
                        assert(after[t] == after.take(start + 1)[t]);
                    } else {
                        assert(after[start + 1 + (t - start - 1)] == after[t]);
                    }
                }
            }
            if crate::transcript::well_paired(before) {
                // The assistant message opens its calls; the results close them.
                let ids = crate::types::call_ids(*assistant);
                let base = pushed;
                assert(base.drop_last() == before) by {
                    assert(base.drop_last() =~= pushed.take(start as int));
                }
                assert(crate::transcript::pairing(base) == Ok::<
                    Seq<Seq<char>>,
                    crate::transcript::PairingFault,
                >(ids)) by {
                    let lt = base.last();
                    assert(lt@ == assistant@);
                    assert(lt@.tool_calls == assistant@.tool_calls);
                    assert(lt@.tool_calls.len() == lt.tool_calls@.len());
                    assert(assistant@.tool_calls.len() == assistant.tool_calls@.len());
                    assert(crate::types::call_ids(lt) =~= ids) by {
                        assert forall|c: int| 0 <= c < ids.len() implies crate::types::call_ids(
                            lt,
                        )[c] == ids[c] by {
                            assert(lt@.tool_calls[c] == assistant@.tool_calls[c]);
                            assert(lt@.tool_calls[c] == lt.tool_calls@[c]@);
                            assert(assistant@.tool_calls[c] == assistant.tool_calls@[c]@);
                        }
                    }
                }
                assert forall|t: int| 0 <= t < ids.len() implies crate::transcript::answers(
                    #[trigger] after[base.len() + t],
                    ids[t],
                ) by {
                    assert(after[start + 1 + t] == after[base.len() + t]);
                }
                assert(after.take(base.len() as int) == base);
                crate::transcript::lemma_pairing_closes(base, after, ids, ids.len() as int);
                assert(after.take((base.len() + ids.len()) as int) == after);
                assert(ids.skip(ids.len() as int) =~= Seq::<Seq<char>>::empty());
            }
        }
        start
    }

    /// Replaces the journal of the turn that starts at `start` with its
    /// final assistant message and results; an attached session is
    /// rewritten from `start` on the next save.
    pub fn replace_journal_turn(&mut self, start: usize, assistant: &Message, results: &Vec<Message>)
        requires
            start <= old(self)@.messages.len(),
        ensures
            final(self)@.messages == old(self)@.messages.take(start as int).push(assistant@)
                + messages_view(results@),
            final(self)@.mode == old(self)@.mode,
            final(self)@.tools == old(self)@.tools,
            final(self)@.last_usage == old(self)@.last_usage,
            final(self)@.context_usage == old(self)@.context_usage,
            final(self)@.cumulative_usage == old(self)@.cumulative_usage,
            match old(self)@.session {
                Some(s) => final(self)@.session == Some(
                    SessionBinding {
                        replace_from: Some(
                            match s.replace_from {
                                Some(c) => if c <= start {
                                    c
                                } else {
                                    start
                                },
                                None => start,
                            },
                        ),
                        ..s
                    },
                ),
                None => final(self)@.session is None,
            },
    {
        proof {
            use_type_invariant(&*self);
        }
        let mut messages: Vec<Message> = Vec::new();
        std::mem::swap(&mut messages, &mut self.messages);
        messages.truncate(start);
        messages.push(assistant.duplicate());
        let ghost head = messages@;
        let mut k: usize = 0;
        while k < results.len()
            invariant
                k <= results@.len(),
                messages@.len() == head.len() + k,
                messages@.take(head.len() as int) == head,
                forall|t: int| 0 <= t < k ==> (#[trigger] messages@[head.len() + t])@ == results@[t]@,
            decreases results.len() - k,
        {
            messages.push(results[k].duplicate());
            proof {
                assert(messages@.take(head.len() as int) =~= head);
            }
            k += 1;
        }
        proof {
            assert(messages_view(messages@) =~= messages_view(head) + messages_view(results@)) by {
                assert forall|t: int| 0 <= t < messages@.len() implies messages_view(messages@)[t]
                    == (messages_view(head) + messages_view(results@))[t] by {
                    if t < head.len() {
                        assert(messages@[t] == messages@.take(head.len() as int)[t]);
                    } else {
                        assert(messages@[head.len() + (t - head.len())] == messages@[t]);
                    }
                }
            }
            assert(messages_view(head) =~= old(self)@.messages.take(start as int).push(assistant@));
        }
        self.messages = messages;
        self.mark_replace_from(start);
    }

    /// Appends a turn that asked for no tools: the assistant message and
    /// whatever results hooks added.
    pub fn append_turn(&mut self, message: &Message, results: &Vec<Message>)
        ensures
            final(self)@ == (AgentView {
                messages: old(self)@.messages.push(message@) + messages_view(results@),
                ..old(self)@
            }),
    {
        proof {
            use_type_invariant(&*self);
        }
        let ghost before = messages_view(self.messages@);
        let mut messages: Vec<Message> = Vec::new();
        std::mem::swap(&mut messages, &mut self.messages);
        messages.push(message.duplicate());
        let ghost head = messages@;
        let mut k: usize = 0;
        while k < results.len()
            invariant
                k <= results@.len(),
                messages@.len() == head.len() + k,
                messages@.take(head.len() as int) == head,
                forall|t: int| 0 <= t < k ==> (#[trigger] messages@[head.len() + t])@ == results@[t]@,
            decreases results.len() - k,
        {
            messages.push(results[k].duplicate());
            proof {
                assert(messages@.take(head.len() as int) =~= head);
            }
            k += 1;
        }
        proof {
            assert(messages_view(messages@) =~= messages_view(head) + messages_view(results@)) by {
                assert forall|t: int| 0 <= t < messages@.len() implies messages_view(messages@)[t]
                    == (messages_view(head) + messages_view(results@))[t] by {
                    if t < head.len() {
                        assert(messages@[t] == messages@.take(head.len() as int)[t]);
                    } else {
                        assert(messages@[head.len() + (t - head.len())] == messages@[t]);
                    }
                }
            }
            assert(messages_view(head) =~= before.push(message@));
        }
        self.messages = messages;
    }

    /// Whether the journal of the turn at `start` differs from the final
    /// assistant message and results.
    pub fn turn_changed(&self, start: usize, message: &Message, results: &Vec<Message>) -> (r: bool)
        requires
            start < self@.messages.len(),
        ensures
            r == !(self@.messages[start as int] == message@ && self@.messages.skip(start + 1)
                == messages_view(results@)),
    {
        let ghost tail = messages_view(self.messages@).skip(start + 1);
        if !crate::types::message_eq(&self.messages[start], message) {
            return true;
        }
        if self.messages.len() - (start + 1) != results.len() {
            proof {
                assert(tail.len() != messages_view(results@).len());
            }
            return true;
        }
        let n = self.messages.len();
        let mut k: usize = 0;
        while k < results.len()
            invariant
                k <= results@.len(),
                n == self.messages@.len(),
                self.messages@.len() == start + 1 + results@.len(),
                tail == messages_view(self.messages@).skip(start + 1),
                forall|t: int| 0 <= t < k ==> tail[t] == (#[trigger] results@[t])@,
            decreases results.len() - k,
        {
            if !crate::types::message_eq(&self.messages[start + 1 + k], &results[k]) {
                proof {
                    assert(tail[k as int] == self.messages@[start + 1 + k]@);
                    assert(tail[k as int] != messages_view(results@)[k as int]);
                }
                return true;
            }
            proof {
                assert(tail[k as int] == self.messages@[start + 1 + k]@);
            }
            k += 1;
        }
        proof {
            assert(tail =~= messages_view(results@));
        }
        false
    }

    /// A copy of the state a failed save goes back to.
    pub fn checkpoint(&self) -> (r: AgentCheckpoint)
        ensures
            messages_view(r.messages@) == self@.messages,
            r.last_usage == self@.last_usage,
            r.context_usage == self@.context_usage,
            r.cumulative_usage == self@.cumulative_usage,
            r.mode == self@.mode,
    {
        let messages = crate::types::copy_messages(&self.messages, 0, self.messages.len());
        proof {
            assert(messages_view(messages@) =~= messages_view(self.messages@));
        }
        AgentCheckpoint {
            messages,
            last_usage: self.last_usage,
            context_usage: self.context_usage,
            cumulative_usage: self.cumulative_usage,
            mode: self.mode,
        }
    }

    /// Goes back to `checkpoint`: its transcript and usage, and the safer
    /// of its mode and the mode in force.
    pub fn restore(&mut self, checkpoint: &AgentCheckpoint)
        ensures
            final(self)@ == (AgentView {
                messages: messages_view(checkpoint.messages@),
                last_usage: checkpoint.last_usage,
                context_usage: checkpoint.context_usage,
                cumulative_usage: checkpoint.cumulative_usage,
                mode: safe_restore(old(self)@.mode, checkpoint.mode),
                ..old(self)@
            }),
    {
        proof {
            use_type_invariant(&*self);
        }
        let messages = crate::types::copy_messages(&checkpoint.messages, 0, checkpoint.messages.len());
        proof {
            assert(messages_view(messages@) =~= messages_view(checkpoint.messages@));
        }
        self.messages = messages;
        self.last_usage = checkpoint.last_usage;
        self.context_usage = checkpoint.context_usage;
        self.cumulative_usage = checkpoint.cumulative_usage;
        self.mode = restore_mode_safely(self.mode, checkpoint.mode);
    }

    /// The usage that should activate the context managers after a
    /// response: the current window, when managers are registered and it
    /// reached the configured threshold.
    pub fn usage_context_management_trigger(&self, has_context_managers: bool) -> (r: Option<
        ContextUsage,
    >)
        ensures
            r == match self@.context_usage {
                Some(u) => if has_context_managers && threshold_reached_spec(
                    u,
                    self@.threshold_percent,
                ) {
                    Some(u)
                } else {
                    None
                },
                None => None,
            },
    {
        if !has_context_managers {
            return None;
        }
        match self.context_usage {
            Some(u) => if threshold_reached(u, self.context_management_threshold_percent) {
                Some(u)
            } else {
                None
            },
            None => None,
        }
    }
}

impl AgentRun {
    /// The text of the final message, when it is plain text.
    pub fn text(&self) -> (r: Option<&str>)
        ensures
            match self.final_message.content {
                Some(crate::types::Content::Text(t)) => r matches Some(s) && s@ == t@,
                _ => r is None,
            },
    {
        self.final_message.text_content()
    }
}

impl Agent {
    /// Attaches the session `session_id`. When the storage held it,
    /// `loaded` is its (repaired) snapshot, whose transcript, usage and mode
    /// the agent adopts; otherwise the current state is bound to the new
    /// identifier. Fails, changing nothing, on an invalid identifier.
    pub fn attach_session(
        &mut self,
        session_id: String,
        loaded: Option<crate::storage::SessionSnapshot>,
    ) -> (r: Result<(), crate::storage::StorageError>)
        ensures
            r is Ok <==> crate::storage::valid_session_id(session_id@),
            r is Err ==> final(self)@ == old(self)@,
            r is Ok ==> match loaded {
                Some(s) => final(self)@ == (AgentView {
                    messages: messages_view(s.messages@),
                    last_usage: s.last_usage,
                    cumulative_usage: s.cumulative_usage,
                    mode: s.mode,
                    context_usage: context_after(old(self)@.max_context_tokens, s.last_usage),
                    session: Some(
                        SessionBinding {
                            id: session_id,
                            persisted_message_count: s.messages@.len() as usize,
                            replace_from: None,
                            workspace: s.workspace,
                            capability_mode: s.capability_mode,
                        },
                    ),
                    ..old(self)@
                }),
                None => final(self)@ == (AgentView {
                    session: Some(
                        SessionBinding {
                            id: session_id,
                            persisted_message_count: 0,
                            replace_from: None,
                            workspace: None,
                            capability_mode: crate::tool::CapabilityMode::FullAccess,
                        },
                    ),
                    ..old(self)@
                }),
            },
    {
        proof {
            use_type_invariant(&*self);
        }
        match crate::storage::validate_session_id(session_id.as_str()) {
            Ok(()) => {},
            Err(e) => {
                return Err(e);
            },
        }
        match loaded {
            Some(s) => {
                let crate::storage::SessionSnapshot {
                    id: _,
                    workspace,
                    messages,
                    last_usage,
                    cumulative_usage,
                    mode,
                    capability_mode,
                } = s;
                let persisted_message_count = messages.len();
                self.messages = messages;
                self.last_usage = last_usage;
                self.cumulative_usage = cumulative_usage;
                self.mode = mode;
                self.context_usage = match (last_usage, self.max_context_tokens) {
                    (Some(u), Some(m)) => Some(ContextUsage::from_usage(m, u)),
                    _ => None,
                };
                self.session = Some(
                    SessionBinding {
                        id: session_id,
                        persisted_message_count,
                        replace_from: None,
                        workspace,
                        capability_mode,
                    },
                );
            },
            None => {
                self.session = Some(
                    SessionBinding {
                        id: session_id,
                        persisted_message_count: 0,
                        replace_from: None,
                        workspace: None,
                        capability_mode: crate::tool::CapabilityMode::FullAccess,
                    },
                );
            },
        }
        Ok(())
    }

    /// What the next save writes, when a session is attached: a snapshot of
    /// the current state, and whether to append after what was saved or to
    /// rewrite from the earliest replaced message.
    pub fn pending_save(&self) -> (r: Option<(crate::storage::SessionSnapshot, SaveKind)>)
        ensures
            match self@.session {
                None => r is None,
                Some(b) => r matches Some((snapshot, kind)) && snapshot.id == b.id
                    && snapshot.workspace == b.workspace && messages_view(snapshot.messages@)
                    == self@.messages && snapshot.last_usage == self@.last_usage
                    && snapshot.cumulative_usage == self@.cumulative_usage && snapshot.mode
                    == self@.mode && snapshot.capability_mode == b.capability_mode && kind == match b.replace_from {
                    Some(n) => SaveKind::ReplacingFrom { unchanged_message_count: n },
                    None => SaveKind::Incremental {
                        persisted_message_count: b.persisted_message_count,
                    },
                },
            },
    {
        match &self.session {
            None => None,
            Some(b) => {
                let messages = crate::types::copy_messages(&self.messages, 0, self.messages.len());
                proof {
                    assert(messages_view(messages@) =~= messages_view(self.messages@));
                }
                let workspace = match &b.workspace {
                    Some(w) => Some(w.duplicate()),
                    None => None,
                };
                let snapshot = crate::storage::SessionSnapshot {
                    id: b.id.clone(),
                    workspace,
                    messages,
                    last_usage: self.last_usage,
                    cumulative_usage: self.cumulative_usage,
                    mode: self.mode,
                    capability_mode: b.capability_mode,
                };
                let kind = match b.replace_from {
                    Some(n) => SaveKind::ReplacingFrom { unchanged_message_count: n },
                    None => SaveKind::Incremental {
                        persisted_message_count: b.persisted_message_count,
                    },
                };
                Some((snapshot, kind))
            },
        }
    }

    /// Records a successful save: everything is persisted and nothing is
    /// waiting to be rewritten.
    pub fn mark_synchronized(&mut self)
        ensures
            final(self)@ == (AgentView {
                session: match old(self)@.session {
                    Some(b) => Some(
                        SessionBinding {
                            persisted_message_count: old(self)@.messages.len() as usize,
                            replace_from: None,
                            ..b
                        },
                    ),
                    None => None,
                },
                ..old(self)@
            }),
    {
        proof {
            use_type_invariant(&*self);
        }
        let count = self.messages.len();
        let mut session: Option<SessionBinding> = None;
        std::mem::swap(&mut session, &mut self.session);
        match session {
            Some(b) => {
                self.session = Some(
                    SessionBinding { persisted_message_count: count, replace_from: None, ..b },
                );
            },
            None => {},
        }
    }

    /// Records that the messages from `unchanged_message_count` on were
    /// replaced by a context manager; the next save rewrites them.
    pub fn mark_context_replaced(&mut self, unchanged_message_count: usize)
        ensures
            final(self)@ == (AgentView {
                session: match old(self)@.session {
                    Some(s) => Some(
                        SessionBinding {
                            replace_from: Some(
                                match s.replace_from {
                                    Some(c) => if c <= unchanged_message_count {
                                        c
                                    } else {
                                        unchanged_message_count
                                    },
                                    None => unchanged_message_count,
                                },
                            ),
                            ..s
                        },
                    ),
                    None => None,
                },
                ..old(self)@
            }),
    {
        proof {
            use_type_invariant(&*self);
        }
        self.mark_replace_from(unchanged_message_count);
    }

    /// Replaces the transcript with the one context managers produced,
    /// when it is protocol-valid. Returns the first changed position, or
    /// the validation error with the transcript unchanged.
    pub fn replace_context(&mut self, messages: Vec<Message>) -> (r: Result<
        Option<usize>,
        crate::error::HookError,
    >)
        ensures
            r is Ok <==> crate::transcript::well_paired(messages@),
            r is Err ==> final(self)@ == old(self)@,
            match crate::transcript::pairing(messages@) {
                Err(f) => r matches Err(e) && e.spec_message()
                    == crate::transcript::context_fault_message(f),
                Ok(p) => p.len() > 0 ==> (r matches Err(e) && e.spec_message()
                    == crate::transcript::UNPAIRED_CONTEXT_MESSAGE@),
            },
            r matches Ok(c) ==> {
                &&& final(self).transcript() == messages@
                &&& final(self)@.messages == messages_view(messages@)
                &&& match c {
                    Some(i) => crate::transcript::first_change(old(self).transcript(), messages@)
                        == Some(i as int),
                    None => crate::transcript::first_change(old(self).transcript(), messages@) is None,
                }
                &&& final(self)@.session == match (old(self)@.session, c) {
                    (Some(s), Some(i)) => Some(
                        SessionBinding {
                            replace_from: Some(
                                match s.replace_from {
                                    Some(k) => if k <= i {
                                        k
                                    } else {
                                        i
                                    },
                                    None => i,
                                },
                            ),
                            ..s
                        },
                    ),
                    (s, _) => s,
                }
                &&& final(self)@.mode == old(self)@.mode
                &&& final(self)@.tools == old(self)@.tools
                &&& final(self)@.last_usage == old(self)@.last_usage
                &&& final(self)@.context_usage == old(self)@.context_usage
                &&& final(self)@.cumulative_usage == old(self)@.cumulative_usage
            },
    {
        proof {
            use_type_invariant(&*self);
        }
        match crate::transcript::validate_context_transcript(&messages) {
            Ok(()) => {},
            Err(e) => {
                return Err(e);
            },
        }
        let changed = crate::transcript::first_changed_message(&self.messages, &messages);
        self.messages = messages;
        match changed {
            Some(i) => {
                self.mark_replace_from(i);
            },
            None => {},
        }
        Ok(changed)
    }
}

} // verus!
