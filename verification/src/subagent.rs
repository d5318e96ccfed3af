//! Child-agent coordination: the lifecycle of each child, the limits on
//! children and messages, and the events a parent observes.
use vstd::prelude::*;

use crate::text::{all_ws, chars_of, decimal, decimal_string, is_blank, owned, push_str, utf8_len};
use crate::types::{ContextUsage, GenerationConfig, Message, TokenUsage};

verus! {

broadcast use vstd::string::group_string_axioms;

/// Default maximum number of non-closed children of one runtime.
pub const DEFAULT_MAX_SUBAGENTS: usize = 4;

/// Default number of parent-to-child messages that may wait for one child.
pub const DEFAULT_SUBAGENT_MAILBOX_CAPACITY: usize = 32;

/// Default maximum UTF-8 byte length of a prompt or notification.
pub const DEFAULT_MAX_SUBAGENT_MESSAGE_BYTES: usize = 65_536;

/// Default number of events retained for observers.
pub const DEFAULT_SUBAGENT_EVENT_CAPACITY: usize = 512;

/// The close reason used when none is given.
pub const DEFAULT_CLOSE_REASON: &'static str = "explicitly closed";

#[derive(Clone, Debug, PartialEq, Eq)]
pub struct SubagentConfig {
    pub max_agents: usize,
    pub mailbox_capacity: usize,
    pub max_message_bytes: usize,
    pub event_capacity: usize,
    /// Generation settings given to newly created children.
    pub generation_config: GenerationConfig,
}

impl Default for SubagentConfig {
    fn default() -> (r: Self)
        ensures
            r.max_agents == DEFAULT_MAX_SUBAGENTS,
            r.mailbox_capacity == DEFAULT_SUBAGENT_MAILBOX_CAPACITY,
            r.max_message_bytes == DEFAULT_MAX_SUBAGENT_MESSAGE_BYTES,
            r.event_capacity == DEFAULT_SUBAGENT_EVENT_CAPACITY,
            r.generation_config.model is None,
            r.generation_config.max_tokens is None,
            r.generation_config.reasoning_effort is None,
    {
        SubagentConfig {
            max_agents: DEFAULT_MAX_SUBAGENTS,
            mailbox_capacity: DEFAULT_SUBAGENT_MAILBOX_CAPACITY,
            max_message_bytes: DEFAULT_MAX_SUBAGENT_MESSAGE_BYTES,
            event_capacity: DEFAULT_SUBAGENT_EVENT_CAPACITY,
            generation_config: GenerationConfig { model: None, max_tokens: None, reasoning_effort: None },
        }
    }
}

pub open spec fn at_least_one(n: usize) -> usize {
    if n >= 1 {
        n
    } else {
        1
    }
}

impl SubagentConfig {
    /// Every limit is at least one.
    pub open spec fn is_normalized(&self) -> bool {
        self.max_agents >= 1 && self.mailbox_capacity >= 1 && self.max_message_bytes >= 1
            && self.event_capacity >= 1
    }

    /// The configuration with every zero limit raised to one.
    pub fn normalized(self) -> (r: Self)
        ensures
            r.max_agents == at_least_one(self.max_agents),
            r.mailbox_capacity == at_least_one(self.mailbox_capacity),
            r.max_message_bytes == at_least_one(self.max_message_bytes),
            r.event_capacity == at_least_one(self.event_capacity),
            r.generation_config.same_as(self.generation_config),
            r.is_normalized(),
    {
        SubagentConfig {
            max_agents: if self.max_agents >= 1 {
                self.max_agents
            } else {
                1
            },
            mailbox_capacity: if self.mailbox_capacity >= 1 {
                self.mailbox_capacity
            } else {
                1
            },
            max_message_bytes: if self.max_message_bytes >= 1 {
                self.max_message_bytes
            } else {
                1
            },
            event_capacity: if self.event_capacity >= 1 {
                self.event_capacity
            } else {
                1
            },
            generation_config: self.generation_config.duplicate(),
        }
    }
}

/// What a child factory is asked to build.
#[derive(Clone, Debug, PartialEq, Eq)]
pub struct SubagentBuildRequest {
    pub parent_id: String,
    pub agent_id: String,
    pub description: String,
    pub generation_config: GenerationConfig,
    /// Whether the child may itself delegate; the runtime never asks for it.
    pub allow_nested_subagents: bool,
}

/// A child factory failed.
#[derive(Clone, Debug, PartialEq, Eq)]
pub struct SubagentFactoryError {
    message: String,
}

impl SubagentFactoryError {
    pub fn new(message: String) -> (r: Self)
        ensures
            r.spec_message() == message@,
    {
        SubagentFactoryError { message }
    }

    pub closed spec fn spec_message(&self) -> Seq<char> {
        self.message@
    }

    pub fn message(&self) -> (r: &str)
        ensures
            r@ == self.spec_message(),
    {
        self.message.as_str()
    }
}

/// The lifecycle state of a child.
#[derive(Clone, Copy, Debug, PartialEq, Eq, Structural)]
pub enum SubagentState {
    Starting,
    Running,
    Idle,
    Closing,
    Closed,
}

impl SubagentState {
    /// The state's code.
    pub open spec fn spec_code(self) -> u8 {
        match self {
            SubagentState::Starting => 0,
            SubagentState::Running => 1,
            SubagentState::Idle => 2,
            SubagentState::Closing => 3,
            SubagentState::Closed => 4,
        }
    }

    /// The state of a code; unknown codes read as closed.
    pub open spec fn spec_from_code(value: u8) -> Self {
        if value == 0 {
            SubagentState::Starting
        } else if value == 1 {
            SubagentState::Running
        } else if value == 2 {
            SubagentState::Idle
        } else if value == 3 {
            SubagentState::Closing
        } else {
            SubagentState::Closed
        }
    }

    pub fn as_u8(&self) -> (r: u8)
        ensures
            r == self.spec_code(),
    {
        match self {
            SubagentState::Starting => 0,
            SubagentState::Running => 1,
            SubagentState::Idle => 2,
            SubagentState::Closing => 3,
            SubagentState::Closed => 4,
        }
    }

    pub fn from_u8(value: u8) -> (r: Self)
        ensures
            r == Self::spec_from_code(value),
    {
        if value == 0 {
            SubagentState::Starting
        } else if value == 1 {
            SubagentState::Running
        } else if value == 2 {
            SubagentState::Idle
        } else if value == 3 {
            SubagentState::Closing
        } else {
            SubagentState::Closed
        }
    }

    /// A closing or closed child accepts no more messages.
    pub open spec fn spec_is_closing(self) -> bool {
        self == SubagentState::Closing || self == SubagentState::Closed
    }
}

/// Storing a state as its code and reading it back gives the state.
pub proof fn lemma_state_code_round_trip(state: SubagentState)
    ensures
        SubagentState::spec_from_code(state.spec_code()) == state,
{
}

/// What a child reports to its parent.
#[derive(Clone, Copy, Debug, PartialEq, Eq, Structural)]
pub enum SubagentNotificationKind {
    Progress,
    Blocker,
    Result,
    Failed,
    Closed,
}

impl SubagentNotificationKind {
    /// Every notification but progress wakes the parent.
    pub fn wakes_parent(&self) -> (r: bool)
        ensures
            r == !(*self == SubagentNotificationKind::Progress),
    {
        match self {
            SubagentNotificationKind::Progress => false,
            _ => true,
        }
    }
}

#[derive(Clone, Copy, Debug, PartialEq, Eq, Structural)]
pub enum SubagentNotificationSource {
    Child,
    Runtime,
}

#[derive(Clone, Debug, PartialEq, Eq)]
pub struct SubagentNotification {
    pub delivery_id: String,
    pub kind: SubagentNotificationKind,
    pub source: SubagentNotificationSource,
    pub message: String,
    pub wake_parent: bool,
}

#[derive(Clone, Debug, PartialEq, Eq)]
pub enum SubagentRunOutcome {
    Completed { text: String, turns: usize, usage: TokenUsage },
    Stopped,
    Failed { error: String },
}

#[derive(Clone, Debug, PartialEq, Eq)]
pub struct ActiveSubagentRun {
    pub run_id: String,
    pub delivery_id: String,
}

#[derive(Clone, Debug, PartialEq, Eq)]
pub struct SubagentSnapshot {
    pub parent_id: String,
    pub agent_id: String,
    pub description: String,
    pub state: SubagentState,
    pub active_run: Option<ActiveSubagentRun>,
    pub messages: Vec<Message>,
    /// Text accumulated from the message being streamed.
    pub draft: Option<String>,
    pub cumulative_usage: TokenUsage,
    pub context_usage: Option<ContextUsage>,
    pub last_outcome: Option<SubagentRunOutcome>,
    pub last_sequence: u64,
}

/// What happened to a child.
#[derive(Clone, Debug, PartialEq, Eq)]
pub enum SubagentEventKind {
    Spawned { description: String, initial_delivery_id: String },
    StateChanged { state: SubagentState },
    MessageQueued { delivery_id: String },
    Notification(SubagentNotification),
    RunFinished { run_id: String, outcome: SubagentRunOutcome },
    /// Emitted once for a permanently closed child.
    Closed { delivery_id: String, reason: String, wake_parent: bool },
}

#[derive(Clone, Debug, PartialEq, Eq)]
pub struct SubagentEvent {
    pub sequence: u64,
    pub parent_id: String,
    pub agent_id: String,
    pub kind: SubagentEventKind,
}

impl SubagentEvent {
    /// Whether the parent should be woken: for notifications that ask for
    /// it and for closings that do.
    pub fn wakes_parent(&self) -> (r: bool)
        ensures
            r == match self.kind {
                SubagentEventKind::Notification(n) => n.wake_parent,
                SubagentEventKind::Closed { wake_parent, .. } => wake_parent,
                _ => false,
            },
    {
        match &self.kind {
            SubagentEventKind::Notification(n) => n.wake_parent,
            SubagentEventKind::Closed { wake_parent, .. } => *wake_parent,
            _ => false,
        }
    }
}

/// A request to start a child.
#[derive(Clone, Debug, PartialEq, Eq)]
pub struct SpawnAgentRequest {
    pub description: String,
    pub prompt: String,
    /// Overrides the runtime's generation settings for this child.
    pub generation_config: Option<GenerationConfig>,
}

impl SpawnAgentRequest {
    pub fn new(description: &str, prompt: &str) -> (r: Self)
        ensures
            r.description@ == description@,
            r.prompt@ == prompt@,
            r.generation_config is None,
    {
        SpawnAgentRequest {
            description: owned(description),
            prompt: owned(prompt),
            generation_config: None,
        }
    }

    pub fn generation_config(self, config: GenerationConfig) -> (r: Self)
        ensures
            r.description == self.description,
            r.prompt == self.prompt,
            r.generation_config == Some(config),
    {
        SpawnAgentRequest { generation_config: Some(config), ..self }
    }
}

#[derive(Clone, Debug, PartialEq, Eq)]
pub struct SpawnedSubagent {
    pub agent_id: String,
    pub delivery_id: String,
}

#[derive(Clone, Debug, PartialEq, Eq)]
pub struct QueuedSubagentMessage {
    pub agent_id: String,
    pub delivery_id: String,
}

#[derive(Clone, Debug, PartialEq, Eq)]
pub struct CloseSubagentResult {
    pub agent_id: String,
    pub already_closed: bool,
}

/// Why a runtime refused a request.
#[derive(Clone, Debug, PartialEq, Eq)]
pub enum SubagentError {
    ShuttingDown,
    LimitReached { limit: usize },
    NotFound { agent_id: String },
    Closed { agent_id: String },
    QueueFull { agent_id: String },
    EmptyMessage,
    MessageTooLong { actual: usize, maximum: usize },
}

/// The text of a subagent error.
pub open spec fn subagent_error_text(e: SubagentError) -> Seq<char> {
    match e {
        SubagentError::ShuttingDown => "subagent runtime is shutting down"@,
        SubagentError::LimitReached { limit } => "subagent limit reached ("@ + decimal(limit as nat)
            + ")"@,
        SubagentError::NotFound { agent_id } => "subagent `"@ + agent_id@ + "` was not found"@,
        SubagentError::Closed { agent_id } => "subagent `"@ + agent_id@
            + "` is closing or permanently closed"@,
        SubagentError::QueueFull { agent_id } => "subagent `"@ + agent_id@ + "` message queue is full"@,
        SubagentError::EmptyMessage => "message must not be empty"@,
        SubagentError::MessageTooLong { actual, maximum } => "message is "@ + decimal(actual as nat)
            + " bytes; maximum is "@ + decimal(maximum as nat) + " bytes"@,
    }
}

impl SubagentError {
    pub fn message(&self) -> (r: String)
        ensures
            r@ == subagent_error_text(*self),
    {
        match self {
            SubagentError::ShuttingDown => owned("subagent runtime is shutting down"),
            SubagentError::LimitReached { limit } => {
                let mut r = owned("subagent limit reached (");
                let n = decimal_string(*limit as u64);
                push_str(&mut r, n.as_str());
                push_str(&mut r, ")");
                r
            },
            SubagentError::NotFound { agent_id } => {
                let mut r = owned("subagent `");
                push_str(&mut r, agent_id.as_str());
                push_str(&mut r, "` was not found");
                r
            },
            SubagentError::Closed { agent_id } => {
                let mut r = owned("subagent `");
                push_str(&mut r, agent_id.as_str());
                push_str(&mut r, "` is closing or permanently closed");
                r
            },
            SubagentError::QueueFull { agent_id } => {
                let mut r = owned("subagent `");
                push_str(&mut r, agent_id.as_str());
                push_str(&mut r, "` message queue is full");
                r
            },
            SubagentError::EmptyMessage => owned("message must not be empty"),
            SubagentError::MessageTooLong { actual, maximum } => {
                let mut r = owned("message is ");
                let a = decimal_string(*actual as u64);
                push_str(&mut r, a.as_str());
                push_str(&mut r, " bytes; maximum is ");
                let m = decimal_string(*maximum as u64);
                push_str(&mut r, m.as_str());
                push_str(&mut r, " bytes");
                r
            },
        }
    }
}

/// Why a message could not be put into a child's mailbox.
#[derive(Clone, Copy, Debug, PartialEq, Eq, Structural)]
pub enum MailboxSendFailure {
    Full,
    Closed,
}

/// The runtime error for a mailbox failure of `agent_id`.
pub fn map_mailbox_error(agent_id: &str, error: MailboxSendFailure) -> (r: SubagentError)
    ensures
        match error {
            MailboxSendFailure::Full => r matches SubagentError::QueueFull { agent_id: a } && a@
                == agent_id@,
            MailboxSendFailure::Closed => r matches SubagentError::Closed { agent_id: a } && a@
                == agent_id@,
        },
{
    match error {
        MailboxSendFailure::Full => SubagentError::QueueFull { agent_id: owned(agent_id) },
        MailboxSendFailure::Closed => SubagentError::Closed { agent_id: owned(agent_id) },
    }
}

/// The check of a prompt, description or notification: not blank, and not
/// longer than the limit in UTF-8 bytes.
pub open spec fn text_check(message: Seq<char>, max_bytes: usize) -> Option<SubagentError> {
    if all_ws(message) {
        Some(SubagentError::EmptyMessage)
    } else if utf8_len(message) > max_bytes {
        Some(
            SubagentError::MessageTooLong {
                actual: utf8_len(message) as usize,
                maximum: max_bytes,
            },
        )
    } else {
        None
    }
}

pub fn validate_text(message: &str, max_bytes: usize) -> (r: Result<(), SubagentError>)
    ensures
        match text_check(message@, max_bytes) {
            Some(e) => r == Err::<(), SubagentError>(e),
            None => r is Ok,
        },
{
    if is_blank(message) {
        return Err(SubagentError::EmptyMessage);
    }
    let actual = crate::text::byte_len(message);
    if actual > max_bytes {
        return Err(SubagentError::MessageTooLong { actual, maximum: max_bytes });
    }
    Ok(())
}

/// One child known to a registry.
#[derive(Clone, Debug, PartialEq, Eq)]
pub struct ChildRecord {
    pub agent_id: String,
    pub state: SubagentState,
    pub closed_event_emitted: bool,
}

/// The number of children that are not closed.
pub open spec fn open_children(cs: Seq<ChildRecord>) -> nat
    decreases cs.len(),
{
    if cs.len() == 0 {
        0
    } else {
        open_children(cs.drop_last()) + if cs.last().state != SubagentState::Closed {
            1nat
        } else {
            0nat
        }
    }
}

/// No identifier occurs twice.
pub open spec fn unique_ids(cs: Seq<ChildRecord>) -> bool {
    forall|i: int, j: int| 0 <= i < j < cs.len() ==> (#[trigger] cs[i]).agent_id@ != (#[trigger] cs[j]).agent_id@
}

/// The record of `id`.
pub open spec fn record_of(cs: Seq<ChildRecord>, id: Seq<char>) -> Option<int> {
    if exists|i: int| 0 <= i < cs.len() && (#[trigger] cs[i]).agent_id@ == id {
        Some(choose|i: int| 0 <= i < cs.len() && (#[trigger] cs[i]).agent_id@ == id)
    } else {
        None
    }
}

/// What starting to close a child did.
#[derive(Clone, Debug, PartialEq, Eq)]
pub enum CloseStep {
    /// The child was already closed.
    AlreadyClosed,
    /// The child is already closing; wait until it is closed.
    Wait,
    /// The child is now closing for this reason; stop its run and wait.
    Started(String),
}

/// The bookkeeping of one parent's children: their states, the child limit
/// and shutdown.
#[derive(Debug)]
pub struct SubagentRegistry {
    parent_id: String,
    config: SubagentConfig,
    shutting_down: bool,
    children: Vec<ChildRecord>,
    sequence: u64,
}

proof fn lemma_open_children_bound(cs: Seq<ChildRecord>)
    ensures
        open_children(cs) <= cs.len(),
    decreases cs.len(),
{
    if cs.len() > 0 {
        lemma_open_children_bound(cs.drop_last());
    }
}

proof fn lemma_open_children_update(cs: Seq<ChildRecord>, i: int, r: ChildRecord)
    requires
        0 <= i < cs.len(),
    ensures
        open_children(cs.update(i, r)) + (if cs[i].state != SubagentState::Closed { 1nat } else { 0nat })
            == open_children(cs) + (if r.state != SubagentState::Closed { 1nat } else { 0nat }),
    decreases cs.len(),
{
    let u = cs.update(i, r);
    if i < cs.len() - 1 {
        assert(u.drop_last() == cs.drop_last().update(i, r));
        lemma_open_children_update(cs.drop_last(), i, r);
    } else {
        assert(u.drop_last() == cs.drop_last());
    }
}

impl SubagentRegistry {
    pub closed spec fn spec_children(&self) -> Seq<ChildRecord> {
        self.children@
    }

    pub closed spec fn spec_config(&self) -> SubagentConfig {
        self.config
    }

    pub closed spec fn spec_shutting_down(&self) -> bool {
        self.shutting_down
    }

    pub closed spec fn spec_parent_id(&self) -> Seq<char> {
        self.parent_id@
    }

    pub closed spec fn spec_sequence(&self) -> u64 {
        self.sequence
    }

    /// The limits are normalized, identifiers are unique, and no more
    /// children are open than the limit allows.
    pub open spec fn wf(&self) -> bool {
        &&& self.spec_config().is_normalized()
        &&& unique_ids(self.spec_children())
        &&& open_children(self.spec_children()) <= self.spec_config().max_agents
    }

    /// The state of `id`, if it is known.
    pub open spec fn spec_state(&self, id: Seq<char>) -> Option<SubagentState> {
        match record_of(self.spec_children(), id) {
            Some(i) => Some(self.spec_children()[i].state),
            None => None,
        }
    }

    /// A registry for the children of `parent_id`.
    pub fn new(parent_id: &str, config: SubagentConfig) -> (r: Self)
        ensures
            r.wf(),
            r.spec_parent_id() == parent_id@,
            r.spec_config().same_as(config.normalized_spec()),
            !r.spec_shutting_down(),
            r.spec_children().len() == 0,
            r.spec_sequence() == 0,
    {
        SubagentRegistry {
            parent_id: owned(parent_id),
            config: config.normalized(),
            shutting_down: false,
            children: Vec::new(),
            sequence: 0,
        }
    }

    pub fn parent_id(&self) -> (r: &str)
        ensures
            r@ == self.spec_parent_id(),
    {
        self.parent_id.as_str()
    }

    pub fn config(&self) -> (r: &SubagentConfig)
        ensures
            *r == self.spec_config(),
    {
        &self.config
    }

    fn index_of(&self, agent_id: &str) -> (r: Option<usize>)
        requires
            unique_ids(self.spec_children()),
        ensures
            match r {
                Some(i) => i < self.spec_children().len() && record_of(self.spec_children(), agent_id@)
                    == Some(i as int),
                None => record_of(self.spec_children(), agent_id@) is None,
            },
    {
        let target = owned(agent_id);
        let mut i: usize = 0;
        while i < self.children.len()
            invariant
                i <= self.children@.len(),
                target@ == agent_id@,
                unique_ids(self.children@),
                forall|k: int| 0 <= k < i ==> (#[trigger] self.children@[k]).agent_id@ != agent_id@,
            decreases self.children.len() - i,
        {
            if crate::text::string_eq(&self.children[i].agent_id, &target) {
                proof {
                    let cs = self.children@;
                    assert(cs[i as int].agent_id@ == agent_id@);
                    let w = choose|w: int| 0 <= w < cs.len() && (#[trigger] cs[w]).agent_id@ == agent_id@;
                    if w != i {
                        if w < i {
                            assert(cs[w].agent_id@ != cs[i as int].agent_id@);
                        } else {
                            assert(cs[i as int].agent_id@ != cs[w].agent_id@);
                        }
                    }
                }
                return Some(i);
            }
            i += 1;
        }
        None
    }

    fn count_open(&self) -> (r: usize)
        ensures
            r == open_children(self.spec_children()),
    {
        let mut n: usize = 0;
        let mut i: usize = 0;
        while i < self.children.len()
            invariant
                i <= self.children@.len(),
                n == open_children(self.children@.take(i as int)),
                n <= i,
            decreases self.children.len() - i,
        {
            proof {
                assert(self.children@.take(i + 1).drop_last() == self.children@.take(i as int));
            }
            if self.children[i].state != SubagentState::Closed {
                n += 1;
            }
            i += 1;
        }
        assert(self.children@.take(self.children@.len() as int) == self.children@);
        n
    }

    /// Checks a spawn request and records the new child `agent_id` as
    /// starting. Refused while shutting down, for a blank or oversized
    /// prompt or description, and when the open children reach the limit;
    /// `Ok(false)` when the identifier is already taken.
    pub fn spawn_child(&mut self, request: &SpawnAgentRequest, agent_id: &str) -> (r: Result<bool, SubagentError>)
        requires
            old(self).wf(),
        ensures
            final(self).wf(),
            final(self).spec_config() == old(self).spec_config(),
            final(self).spec_parent_id() == old(self).spec_parent_id(),
            final(self).spec_shutting_down() == old(self).spec_shutting_down(),
            final(self).spec_sequence() == old(self).spec_sequence(),
            old(self).spec_shutting_down() ==> r == Err::<bool, SubagentError>(SubagentError::ShuttingDown),
            !old(self).spec_shutting_down() && text_check(request.prompt@, old(self).spec_config().max_message_bytes) is Some
                ==> r == Err::<bool, SubagentError>(text_check(request.prompt@, old(self).spec_config().max_message_bytes)->0),
            !old(self).spec_shutting_down() && text_check(request.prompt@, old(self).spec_config().max_message_bytes) is None
                && text_check(request.description@, old(self).spec_config().max_message_bytes) is Some
                ==> r == Err::<bool, SubagentError>(text_check(request.description@, old(self).spec_config().max_message_bytes)->0),
            !old(self).spec_shutting_down() && text_check(request.prompt@, old(self).spec_config().max_message_bytes) is None
                && text_check(request.description@, old(self).spec_config().max_message_bytes) is None
                && open_children(old(self).spec_children()) >= old(self).spec_config().max_agents
                ==> r == Err::<bool, SubagentError>(SubagentError::LimitReached { limit: old(self).spec_config().max_agents }),
            r matches Ok(true) ==> final(self).spec_children() == old(self).spec_children().push(
                ChildRecord { agent_id: final(self).spec_children().last().agent_id, state: SubagentState::Starting, closed_event_emitted: false },
            ) && final(self).spec_children().last().agent_id@ == agent_id@,
            r matches Ok(false) ==> final(self).spec_children() == old(self).spec_children() && old(self).spec_state(agent_id@) is Some,
            r is Err ==> final(self).spec_children() == old(self).spec_children(),
            r is Ok <==> (!old(self).spec_shutting_down() && text_check(request.prompt@, old(self).spec_config().max_message_bytes) is None
                && text_check(request.description@, old(self).spec_config().max_message_bytes) is None
                && open_children(old(self).spec_children()) < old(self).spec_config().max_agents),
    {
        if self.shutting_down {
            return Err(SubagentError::ShuttingDown);
        }
        match validate_text(request.prompt.as_str(), self.config.max_message_bytes) {
            Ok(()) => {},
            Err(e) => {
                return Err(e);
            },
        }
        match validate_text(request.description.as_str(), self.config.max_message_bytes) {
            Ok(()) => {},
            Err(e) => {
                return Err(e);
            },
        }
        let open = self.count_open();
        if open >= self.config.max_agents {
            return Err(SubagentError::LimitReached { limit: self.config.max_agents });
        }
        match self.index_of(agent_id) {
            Some(_) => {
                return Ok(false);
            },
            None => {},
        }
        let ghost before = self.children@;
        let record = ChildRecord {
            agent_id: owned(agent_id),
            state: SubagentState::Starting,
            closed_event_emitted: false,
        };
        self.children.push(record);
        proof {
            let cs = self.children@;
            assert(cs.drop_last() == before);
            assert forall|i: int, j: int| 0 <= i < j < cs.len() implies (#[trigger] cs[i]).agent_id@ != (#[trigger] cs[j]).agent_id@ by {
                if j == cs.len() - 1 {
                    assert(cs[i] == before[i]);
                    if before[i].agent_id@ == agent_id@ {
                        assert(record_of(before, agent_id@) is Some);
                    }
                } else {
                    assert(cs[i] == before[i] && cs[j] == before[j]);
                }
            }
        }
        Ok(true)
    }
}

impl SubagentConfig {
    /// Two configurations hold the same limits and settings.
    pub open spec fn same_as(self, other: SubagentConfig) -> bool {
        &&& self.max_agents == other.max_agents
        &&& self.mailbox_capacity == other.mailbox_capacity
        &&& self.max_message_bytes == other.max_message_bytes
        &&& self.event_capacity == other.event_capacity
        &&& self.generation_config.same_as(other.generation_config)
    }

    pub open spec fn normalized_spec(self) -> Self {
        SubagentConfig {
            max_agents: at_least_one(self.max_agents),
            mailbox_capacity: at_least_one(self.mailbox_capacity),
            max_message_bytes: at_least_one(self.max_message_bytes),
            event_capacity: at_least_one(self.event_capacity),
            generation_config: self.generation_config,
        }
    }
}

/// Children that are closed stay closed: every closed child of `before`
/// is still known and closed in `after`.
pub open spec fn closed_stay_closed(before: Seq<ChildRecord>, after: Seq<ChildRecord>) -> bool {
    &&& after.len() >= before.len()
    &&& forall|i: int| 0 <= i < before.len() ==> (#[trigger] after[i]).agent_id == before[i].agent_id
        && (before[i].state == SubagentState::Closed ==> after[i].state == SubagentState::Closed)
        && (before[i].closed_event_emitted ==> after[i].closed_event_emitted)
}

impl SubagentRegistry {
    /// The state of `agent_id`.
    pub fn state_of(&self, agent_id: &str) -> (r: Result<SubagentState, SubagentError>)
        requires
            self.wf(),
        ensures
            match self.spec_state(agent_id@) {
                Some(s) => r == Ok::<SubagentState, SubagentError>(s),
                None => r matches Err(SubagentError::NotFound { agent_id: a }) && a@ == agent_id@,
            },
    {
        match self.index_of(agent_id) {
            Some(i) => Ok(self.children[i].state),
            None => Err(SubagentError::NotFound { agent_id: owned(agent_id) }),
        }
    }

    /// Whether a message or notification may be delivered to `agent_id`:
    /// the text must be valid, the child known and not closing.
    pub fn check_delivery(&self, agent_id: &str, message: &str) -> (r: Result<(), SubagentError>)
        requires
            self.wf(),
        ensures
            text_check(message@, self.spec_config().max_message_bytes) is Some ==> r
                == Err::<(), SubagentError>(text_check(message@, self.spec_config().max_message_bytes)->0),
            text_check(message@, self.spec_config().max_message_bytes) is None ==> match self.spec_state(agent_id@) {
                None => r matches Err(SubagentError::NotFound { agent_id: a }) && a@ == agent_id@,
                Some(s) => if s.spec_is_closing() {
                    r matches Err(SubagentError::Closed { agent_id: a }) && a@ == agent_id@
                } else {
                    r is Ok
                },
            },
    {
        match validate_text(message, self.config.max_message_bytes) {
            Ok(()) => {},
            Err(e) => {
                return Err(e);
            },
        }
        let state = match self.state_of(agent_id) {
            Ok(s) => s,
            Err(e) => {
                return Err(e);
            },
        };
        if state == SubagentState::Closing || state == SubagentState::Closed {
            return Err(SubagentError::Closed { agent_id: owned(agent_id) });
        }
        Ok(())
    }

    /// Starts closing `agent_id`: nothing to do for a closed child, a wait
    /// for a closing one; otherwise the child becomes closing, for the given
    /// reason or, when it is blank, the default one.
    pub fn begin_close(&mut self, agent_id: &str, reason: &str) -> (r: Result<CloseStep, SubagentError>)
        requires
            old(self).wf(),
        ensures
            final(self).wf(),
            final(self).spec_config() == old(self).spec_config(),
            final(self).spec_parent_id() == old(self).spec_parent_id(),
            final(self).spec_shutting_down() == old(self).spec_shutting_down(),
            final(self).spec_sequence() == old(self).spec_sequence(),
            closed_stay_closed(old(self).spec_children(), final(self).spec_children()),
            final(self).spec_children().len() == old(self).spec_children().len(),
            match old(self).spec_state(agent_id@) {
                None => (r matches Err(SubagentError::NotFound { agent_id: a }) && a@ == agent_id@)
                    && final(self).spec_children() == old(self).spec_children(),
                Some(SubagentState::Closed) => r == Ok::<CloseStep, SubagentError>(CloseStep::AlreadyClosed)
                    && final(self).spec_children() == old(self).spec_children(),
                Some(SubagentState::Closing) => r == Ok::<CloseStep, SubagentError>(CloseStep::Wait)
                    && final(self).spec_children() == old(self).spec_children(),
                Some(_) => if all_ws(reason@) {
                    (r matches Ok(CloseStep::Started(s)) && s@ == DEFAULT_CLOSE_REASON@)
                        && final(self).spec_state(agent_id@) == Some(SubagentState::Closing)
                } else if text_check(reason@, old(self).spec_config().max_message_bytes) is Some {
                    r == Err::<CloseStep, SubagentError>(text_check(reason@, old(self).spec_config().max_message_bytes)->0)
                        && final(self).spec_children() == old(self).spec_children()
                } else {
                    (r matches Ok(CloseStep::Started(s)) && s@ == reason@)
                        && final(self).spec_state(agent_id@) == Some(SubagentState::Closing)
                },
            },
    {
        let i = match self.index_of(agent_id) {
            Some(i) => i,
            None => {
                return Err(SubagentError::NotFound { agent_id: owned(agent_id) });
            },
        };
        let state = self.children[i].state;
        if state == SubagentState::Closed {
            return Ok(CloseStep::AlreadyClosed);
        }
        if state == SubagentState::Closing {
            return Ok(CloseStep::Wait);
        }
        let reason = if is_blank(reason) {
            owned(DEFAULT_CLOSE_REASON)
        } else {
            match validate_text(reason, self.config.max_message_bytes) {
                Ok(()) => {},
                Err(e) => {
                    return Err(e);
                },
            }
            owned(reason)
        };
        self.set_state_at(i, SubagentState::Closing);
        Ok(CloseStep::Started(reason))
    }

    fn set_state_at(&mut self, i: usize, state: SubagentState)
        requires
            old(self).wf(),
            i < old(self).spec_children().len(),
            old(self).spec_children()[i as int].state != SubagentState::Closed || state == SubagentState::Closed,
        ensures
            final(self).wf(),
            final(self).spec_config() == old(self).spec_config(),
            final(self).spec_parent_id() == old(self).spec_parent_id(),
            final(self).spec_shutting_down() == old(self).spec_shutting_down(),
            final(self).spec_sequence() == old(self).spec_sequence(),
            final(self).spec_children() == old(self).spec_children().update(
                i as int,
                ChildRecord { state, ..old(self).spec_children()[i as int] },
            ),
            closed_stay_closed(old(self).spec_children(), final(self).spec_children()),
            forall|id: Seq<char>| id != old(self).spec_children()[i as int].agent_id@ ==> #[trigger] final(self).spec_state(id) == old(self).spec_state(id),
            final(self).spec_state(old(self).spec_children()[i as int].agent_id@) == Some(state),
    {
        let ghost before = self.children@;
        let record = ChildRecord {
            agent_id: self.children[i].agent_id.clone(),
            state,
            closed_event_emitted: self.children[i].closed_event_emitted,
        };
        let mut children: Vec<ChildRecord> = Vec::new();
        std::mem::swap(&mut children, &mut self.children);
        children.set(i, record);
        self.children = children;
        proof {
            let cs = self.children@;
            lemma_open_children_update(before, i as int, record);
            assert forall|a: int, b: int| 0 <= a < b < cs.len() implies (#[trigger] cs[a]).agent_id@ != (#[trigger] cs[b]).agent_id@ by {
                assert(cs[a].agent_id == before[a].agent_id);
                assert(cs[b].agent_id == before[b].agent_id);
            }
            assert forall|id: Seq<char>| id != before[i as int].agent_id@ implies #[trigger] self.spec_state(id) == old(self).spec_state(id) by {
                if exists|k: int| 0 <= k < cs.len() && (#[trigger] cs[k]).agent_id@ == id {
                    let k = choose|k: int| 0 <= k < cs.len() && (#[trigger] cs[k]).agent_id@ == id;
                    assert(before[k].agent_id@ == id);
                }
                if exists|k: int| 0 <= k < before.len() && (#[trigger] before[k]).agent_id@ == id {
                    let k = choose|k: int| 0 <= k < before.len() && (#[trigger] before[k]).agent_id@ == id;
                    assert(cs[k].agent_id@ == id);
                }
            }
            let id = before[i as int].agent_id@;
            assert(cs[i as int].agent_id@ == id);
            let w = choose|w: int| 0 <= w < cs.len() && (#[trigger] cs[w]).agent_id@ == id;
            if w != i {
                if w < i {
                    assert(cs[w].agent_id@ != cs[i as int].agent_id@);
                } else {
                    assert(cs[i as int].agent_id@ != cs[w].agent_id@);
                }
            }
        }
    }
}

impl SubagentRegistry {
    /// Moves a live child to a working state (running or idle); a closing
    /// or closed child, or an unknown one, is left as it is. Returns whether
    /// the state changed (and a state-change event is due).
    pub fn transition_operational(&mut self, agent_id: &str, state: SubagentState) -> (r: bool)
        requires
            old(self).wf(),
            state == SubagentState::Running || state == SubagentState::Idle,
        ensures
            final(self).wf(),
            final(self).spec_config() == old(self).spec_config(),
            final(self).spec_parent_id() == old(self).spec_parent_id(),
            final(self).spec_shutting_down() == old(self).spec_shutting_down(),
            final(self).spec_sequence() == old(self).spec_sequence(),
            closed_stay_closed(old(self).spec_children(), final(self).spec_children()),
            final(self).spec_children().len() == old(self).spec_children().len(),
            r == (old(self).spec_state(agent_id@) matches Some(s) && !s.spec_is_closing()),
            r ==> final(self).spec_state(agent_id@) == Some(state),
            !r ==> final(self).spec_children() == old(self).spec_children(),
    {
        let i = match self.index_of(agent_id) {
            Some(i) => i,
            None => {
                return false;
            },
        };
        let current = self.children[i].state;
        if current == SubagentState::Closing || current == SubagentState::Closed {
            return false;
        }
        self.set_state_at(i, state);
        true
    }

    /// Marks `agent_id` closed. Returns whether this is the first time, when
    /// the one closed event of the child is due.
    pub fn finish_closed(&mut self, agent_id: &str) -> (r: bool)
        requires
            old(self).wf(),
        ensures
            final(self).wf(),
            final(self).spec_config() == old(self).spec_config(),
            final(self).spec_parent_id() == old(self).spec_parent_id(),
            final(self).spec_shutting_down() == old(self).spec_shutting_down(),
            final(self).spec_sequence() == old(self).spec_sequence(),
            closed_stay_closed(old(self).spec_children(), final(self).spec_children()),
            final(self).spec_children().len() == old(self).spec_children().len(),
            old(self).spec_state(agent_id@) is Some ==> final(self).spec_state(agent_id@) == Some(SubagentState::Closed),
            old(self).spec_state(agent_id@) is None ==> !r && final(self).spec_children() == old(self).spec_children(),
            r == (match record_of(old(self).spec_children(), agent_id@) {
                Some(i) => !old(self).spec_children()[i].closed_event_emitted,
                None => false,
            }),
            forall|id: Seq<char>| id != agent_id@ ==> #[trigger] final(self).spec_state(id) == old(self).spec_state(id),
    {
        let i = match self.index_of(agent_id) {
            Some(i) => i,
            None => {
                return false;
            },
        };
        let first = !self.children[i].closed_event_emitted;
        let ghost before = self.children@;
        self.set_state_at(i, SubagentState::Closed);
        let ghost mid = self.children@;
        let ghost mid_reg = *self;
        let record = ChildRecord {
            agent_id: self.children[i].agent_id.clone(),
            state: SubagentState::Closed,
            closed_event_emitted: true,
        };
        let mut children: Vec<ChildRecord> = Vec::new();
        std::mem::swap(&mut children, &mut self.children);
        children.set(i, record);
        self.children = children;
        proof {
            let cs = self.children@;
            assert(cs == mid.update(i as int, record));
            lemma_open_children_update(mid, i as int, record);
            assert forall|a: int, b: int| 0 <= a < b < cs.len() implies (#[trigger] cs[a]).agent_id@ != (#[trigger] cs[b]).agent_id@ by {
                assert(cs[a].agent_id == mid[a].agent_id);
                assert(cs[b].agent_id == mid[b].agent_id);
            }
            assert forall|id: Seq<char>| #[trigger] self.spec_state(id) == mid_reg.spec_state(id) by {
                assert forall|k: int| 0 <= k < cs.len() implies (#[trigger] cs[k]).agent_id == mid[k].agent_id && cs[k].state == mid[k].state by {}
                if exists|k: int| 0 <= k < cs.len() && (#[trigger] cs[k]).agent_id@ == id {
                    let k = choose|k: int| 0 <= k < cs.len() && (#[trigger] cs[k]).agent_id@ == id;
                    assert(mid[k].agent_id@ == id);
                }
                if exists|k: int| 0 <= k < mid.len() && (#[trigger] mid[k]).agent_id@ == id {
                    let k = choose|k: int| 0 <= k < mid.len() && (#[trigger] mid[k]).agent_id@ == id;
                    assert(cs[k].agent_id@ == id);
                }
                assert(record_of(cs, id) == record_of(mid, id));
            }
            assert(before[i as int].agent_id@ == agent_id@);
        }
        first
    }

    /// Rejects new spawns from now on and lists every child, to be closed.
    pub fn begin_shutdown(&mut self) -> (r: Vec<String>)
        requires
            old(self).wf(),
        ensures
            final(self).wf(),
            final(self).spec_shutting_down(),
            final(self).spec_children() == old(self).spec_children(),
            final(self).spec_config() == old(self).spec_config(),
            final(self).spec_parent_id() == old(self).spec_parent_id(),
            final(self).spec_sequence() == old(self).spec_sequence(),
            r@.len() == old(self).spec_children().len(),
            forall|i: int| 0 <= i < r@.len() ==> (#[trigger] r@[i])@ == old(self).spec_children()[i].agent_id@,
    {
        self.shutting_down = true;
        let mut ids: Vec<String> = Vec::new();
        let mut i: usize = 0;
        while i < self.children.len()
            invariant
                i <= self.children@.len(),
                ids@.len() == i,
                forall|k: int| 0 <= k < i ==> (#[trigger] ids@[k])@ == self.children@[k].agent_id@,
            decreases self.children.len() - i,
        {
            ids.push(self.children[i].agent_id.clone());
            i += 1;
        }
        ids
    }

    /// The sequence number of the next published event.
    pub fn next_sequence(&mut self) -> (r: u64)
        requires
            old(self).wf(),
        ensures
            final(self).wf(),
            r == if old(self).spec_sequence() < u64::MAX {
                (old(self).spec_sequence() + 1) as u64
            } else {
                0
            },
            final(self).spec_sequence() == r,
            final(self).spec_children() == old(self).spec_children(),
            final(self).spec_config() == old(self).spec_config(),
            final(self).spec_parent_id() == old(self).spec_parent_id(),
            final(self).spec_shutting_down() == old(self).spec_shutting_down(),
    {
        self.sequence = self.sequence.wrapping_add(1);
        self.sequence
    }

    /// What the factory is asked to build for a new child: the request's
    /// generation settings, or the runtime's; never with nested delegation.
    pub fn build_request(&self, agent_id: &str, request: &SpawnAgentRequest) -> (r: SubagentBuildRequest)
        ensures
            r.parent_id@ == self.spec_parent_id(),
            r.agent_id@ == agent_id@,
            r.description == request.description,
            r.generation_config.same_as(
                match request.generation_config {
                    Some(c) => c,
                    None => self.spec_config().generation_config,
                },
            ),
            !r.allow_nested_subagents,
    {
        SubagentBuildRequest {
            parent_id: self.parent_id.clone(),
            agent_id: owned(agent_id),
            description: request.description.clone(),
            generation_config: match &request.generation_config {
                Some(c) => c.duplicate(),
                None => self.config.generation_config.duplicate(),
            },
            allow_nested_subagents: false,
        }
    }
}

/// Once closed, a child stays closed: every registry operation that can
/// change a child's state keeps closed children closed.
pub proof fn lemma_closed_is_permanent(a: Seq<ChildRecord>, b: Seq<ChildRecord>, c: Seq<ChildRecord>)
    requires
        closed_stay_closed(a, b),
        closed_stay_closed(b, c),
    ensures
        closed_stay_closed(a, c),
{
    assert forall|i: int| 0 <= i < a.len() implies (#[trigger] c[i]).agent_id == a[i].agent_id
        && (a[i].state == SubagentState::Closed ==> c[i].state == SubagentState::Closed)
        && (a[i].closed_event_emitted ==> c[i].closed_event_emitted) by {
        assert(b[i].agent_id == a[i].agent_id);
    }
}

/// The lowercase hexadecimal digit of `d < 16`.
pub open spec fn hex_digit(d: nat) -> char {
    if d == 0 { '0' } else if d == 1 { '1' } else if d == 2 { '2' } else if d == 3 { '3' }
    else if d == 4 { '4' } else if d == 5 { '5' } else if d == 6 { '6' } else if d == 7 { '7' }
    else if d == 8 { '8' } else if d == 9 { '9' } else if d == 10 { 'a' } else if d == 11 { 'b' }
    else if d == 12 { 'c' } else if d == 13 { 'd' } else if d == 14 { 'e' } else { 'f' }
}

/// The last `width` hexadecimal digits of `n`, zero-padded (`{:0width$x}`
/// for `n < 16^width`).
pub open spec fn hex_digits(n: nat, width: nat) -> Seq<char>
    decreases width,
{
    if width == 0 {
        Seq::empty()
    } else {
        hex_digits(n / 16, (width - 1) as nat).push(hex_digit(n % 16))
    }
}

fn hex_digit_exec(d: u64) -> (c: char)
    requires
        d < 16,
    ensures
        c == hex_digit(d as nat),
{
    if d == 0 { '0' } else if d == 1 { '1' } else if d == 2 { '2' } else if d == 3 { '3' }
    else if d == 4 { '4' } else if d == 5 { '5' } else if d == 6 { '6' } else if d == 7 { '7' }
    else if d == 8 { '8' } else if d == 9 { '9' } else if d == 10 { 'a' } else if d == 11 { 'b' }
    else if d == 12 { 'c' } else if d == 13 { 'd' } else if d == 14 { 'e' } else { 'f' }
}

fn push_hex(s: &mut String, n: u64, width: u64)
    ensures
        final(s)@ == old(s)@ + hex_digits(n as nat, width as nat),
    decreases width,
{
    if width > 0 {
        push_hex(s, n / 16, width - 1);
        crate::text::push_char(s, hex_digit_exec(n % 16));
    }
}

/// A fresh identifier: `prefix`, `_`, and 32 random hexadecimal digits.
pub fn new_id(prefix: &str) -> (r: String)
    ensures
        exists|a: u64, b: u64| r@ == prefix@ + "_"@ + hex_digits(a as nat, 16) + hex_digits(b as nat, 16),
{
    let a = crate::retry::random_u64_inclusive(0, u64::MAX);
    let b = crate::retry::random_u64_inclusive(0, u64::MAX);
    let mut r = owned(prefix);
    push_str(&mut r, "_");
    push_hex(&mut r, a, 16);
    push_hex(&mut r, b, 16);
    assert(r@ == prefix@ + "_"@ + hex_digits(a as nat, 16) + hex_digits(b as nat, 16));
    r
}

} // verus!
