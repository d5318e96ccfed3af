use phi::agent::{
    restore_mode_safely, stream_step, threshold_reached, wave_end, AgentBuilder, CallDecision,
    ExecutedTool, RegisteredTool, SaveKind, StreamAction, StreamEvent, StreamProgress,
    ToolBatchPermissions, CANCELLED_TOOL_RESULT, DEFAULT_CONTEXT_MANAGEMENT_THRESHOLD_PERCENT,
    DEFAULT_MAX_PARALLEL_TOOLS, DEFAULT_SYSTEM_PROMPT, PLAN_MODE_SYSTEM_REMINDER,
    UNKNOWN_TOOL_RESULT,
};
use phi::error::ProviderError;
use phi::storage::{SessionSnapshot, StorageError};
use phi::time::TimeSpan;
use phi::tool::{ToolConcurrency, ToolEffect, ToolOutput};
use phi::transcript::validate_context_transcript;
use phi::types::{
    AgentMode, AssistantDelta, Content, ContextUsage, GenerationConfig, Message, ProviderRequest,
    ReasoningEffort, Role, TokenUsage, ToolCall, ToolDefinition, ToolExecutionMode,
};

fn definition(name: &str) -> ToolDefinition {
    ToolDefinition {
        name: name.to_owned(),
        description: format!("{name} tool"),
        parameters: "{\"type\":\"object\"}".to_owned(),
    }
}

fn tool(name: &str, effect: ToolEffect) -> RegisteredTool {
    RegisteredTool {
        definition: definition(name),
        effect,
    }
}

fn text_of(message: &Message) -> Option<&str> {
    message.text_content()
}

#[test]
fn model_and_reasoning_can_be_changed_between_runs() {
    let mut agent = AgentBuilder::new()
        .model("initial-model".to_owned())
        .reasoning_effort(ReasoningEffort::Low)
        .build();

    assert_eq!(agent.model(), Some("initial-model"));
    assert_eq!(agent.reasoning_effort(), Some(ReasoningEffort::Low));

    agent.set_model("next-model".to_owned());
    agent.set_reasoning_effort(Some(ReasoningEffort::High));
    assert_eq!(agent.model(), Some("next-model"));
    assert_eq!(agent.reasoning_effort(), Some(ReasoningEffort::High));

    agent.clear_model();
    agent.set_reasoning_effort(None);
    assert_eq!(agent.model(), None);
    assert_eq!(agent.reasoning_effort(), None);
}

#[test]
fn builder_defaults_and_clamped_settings() {
    let agent = AgentBuilder::new().build();
    assert_eq!(agent.system_prompt(), DEFAULT_SYSTEM_PROMPT);
    assert_eq!(agent.max_parallel_tools(), DEFAULT_MAX_PARALLEL_TOOLS);
    assert_eq!(
        agent.context_management_threshold_percent(),
        DEFAULT_CONTEXT_MANAGEMENT_THRESHOLD_PERCENT
    );
    assert_eq!(agent.tool_call_timeout(), Some(TimeSpan::from_secs(300)));
    assert_eq!(agent.tool_execution(), ToolExecutionMode::Parallel);
    assert_eq!(agent.mode(), AgentMode::Default);
    assert!(agent.messages().is_empty());

    let mut agent = AgentBuilder::new()
        .max_parallel_tools(0)
        .context_management_threshold_percent(0)
        .tool_call_timeout(TimeSpan::zero())
        .build();
    assert_eq!(agent.max_parallel_tools(), 1);
    assert_eq!(agent.context_management_threshold_percent(), 1);
    assert_eq!(agent.tool_call_timeout(), Some(TimeSpan::from_millis(1)));

    agent.set_context_management_threshold_percent(250);
    assert_eq!(agent.context_management_threshold_percent(), 100);
    agent.set_max_parallel_tools(0);
    assert_eq!(agent.max_parallel_tools(), 1);
    agent.set_tool_call_timeout(None);
    assert_eq!(agent.tool_call_timeout(), None);
}

#[test]
fn later_tools_replace_earlier_ones_of_the_same_name() {
    let mut agent = AgentBuilder::new()
        .tool(tool("read", ToolEffect::ReadOnly))
        .tool(tool("read", ToolEffect::ExternalSideEffect))
        .tool(tool("write", ToolEffect::WorkspaceWrite))
        .build();
    assert_eq!(agent.tools().len(), 2);
    let read = agent.tools().iter().find(|t| t.definition.name == "read").unwrap();
    assert_eq!(read.effect, ToolEffect::ExternalSideEffect);

    agent.add_tool(tool("write", ToolEffect::ReadOnly));
    assert_eq!(agent.tools().len(), 2);
    let write = agent.tools().iter().find(|t| t.definition.name == "write").unwrap();
    assert_eq!(write.effect, ToolEffect::ReadOnly);
}

#[test]
fn plan_mode_filters_tools_and_injects_one_reminder() {
    let mut agent = AgentBuilder::new()
        .system_prompt("system".to_owned())
        .tool(tool("read", ToolEffect::ReadOnly))
        .tool(tool("write", ToolEffect::WorkspaceWrite))
        .tool(tool("update_plan", ToolEffect::PlanOnly))
        .mode(AgentMode::Plan)
        .build();
    agent.begin_run(Content::text("plan it"));

    let request = agent.turn_request();
    let names: Vec<&str> = request.tools.iter().map(|d| d.name.as_str()).collect();
    assert_eq!(names, ["read", "update_plan"]);
    assert_eq!(request.messages.len(), 2);

    // A hook reintroduces a hidden tool and a stale reminder.
    let mut mutated = request.clone();
    mutated.tools.push(definition("write"));
    mutated.tools.push(definition("unknown"));
    mutated
        .messages
        .push(Message::system(PLAN_MODE_SYSTEM_REMINDER));
    agent.enforce_mode(&mut mutated);

    let names: Vec<&str> = mutated.tools.iter().map(|d| d.name.as_str()).collect();
    assert_eq!(names, ["read", "update_plan"]);
    let reminders = mutated
        .messages
        .iter()
        .filter(|m| text_of(m) == Some(PLAN_MODE_SYSTEM_REMINDER))
        .count();
    assert_eq!(reminders, 1);
    assert_eq!(text_of(&mutated.messages[0]), Some("system"));
    assert_eq!(text_of(&mutated.messages[1]), Some(PLAN_MODE_SYSTEM_REMINDER));
    assert_eq!(text_of(&mutated.messages[2]), Some("plan it"));

    agent.set_mode_in_memory(AgentMode::Default);
    agent.enforce_mode(&mut mutated);
    let names: Vec<&str> = mutated.tools.iter().map(|d| d.name.as_str()).collect();
    assert_eq!(names, ["read"]);
    assert!(mutated
        .messages
        .iter()
        .all(|m| text_of(m) != Some(PLAN_MODE_SYSTEM_REMINDER)));
}

#[test]
fn calls_are_checked_against_both_boundaries_and_the_live_mode() {
    let mut agent = AgentBuilder::new()
        .tool(tool("read", ToolEffect::ReadOnly))
        .tool(tool("write", ToolEffect::WorkspaceWrite))
        .build();
    let permissions = agent.batch_permissions(AgentMode::Default);
    assert_eq!(
        permissions,
        ToolBatchPermissions {
            request_mode: AgentMode::Default,
            batch_mode: AgentMode::Default
        }
    );

    let write = ToolCall::new("call-1", "write", "{}");
    assert!(matches!(agent.decide_call(&write, permissions), CallDecision::Run { tool: 1 }));

    agent.set_mode_in_memory(AgentMode::Plan);
    match agent.decide_call(&write, permissions) {
        CallDecision::Refuse { output } => {
            assert!(output.is_error);
            assert_eq!(
                output.content,
                "tool \"write\" is not available under the current mode boundary (request: Default, batch: Default, current: Plan, effect: WorkspaceWrite)"
            );
        }
        other => panic!("unexpected decision: {other:?}"),
    }

    let missing = ToolCall::new("call-2", "missing", "{}");
    match agent.decide_call(&missing, permissions) {
        CallDecision::Refuse { output } => assert_eq!(output.content, "unknown tool: missing"),
        other => panic!("unexpected decision: {other:?}"),
    }
}

#[test]
fn exclusive_or_planning_batches_run_sequentially() {
    let agent = AgentBuilder::new()
        .tool(tool("read", ToolEffect::ReadOnly))
        .tool(tool("enter_plan_mode", ToolEffect::Internal))
        .build();
    let read = ToolCall::new("1", "read", "{}");
    let enter = ToolCall::new("2", "enter_plan_mode", "{}");
    let default = ToolBatchPermissions::new(AgentMode::Default, AgentMode::Default);

    let calls = vec![read.clone(), read.clone()];
    let safe = vec![ToolConcurrency::Safe, ToolConcurrency::Safe];
    assert_eq!(agent.batch_execution_mode(default, &calls, &safe), ToolExecutionMode::Parallel);

    let exclusive = vec![ToolConcurrency::Safe, ToolConcurrency::Exclusive];
    assert_eq!(
        agent.batch_execution_mode(default, &calls, &exclusive),
        ToolExecutionMode::Sequential
    );

    let coordination = vec![read.clone(), enter];
    assert_eq!(
        agent.batch_execution_mode(default, &coordination, &safe),
        ToolExecutionMode::Sequential
    );

    let unknown = vec![ToolCall::new("3", "missing", "{}")];
    assert_eq!(
        agent.batch_execution_mode(default, &unknown, &vec![ToolConcurrency::Safe]),
        ToolExecutionMode::Sequential
    );

    let planning = ToolBatchPermissions::new(AgentMode::Plan, AgentMode::Default);
    assert_eq!(agent.batch_execution_mode(planning, &calls, &safe), ToolExecutionMode::Sequential);
}

#[test]
fn parallel_waves_are_bounded() {
    assert_eq!(wave_end(0, 8, 3), 3);
    assert_eq!(wave_end(0, 2, 5), 2);
    assert_eq!(wave_end(4, 2, 5), 5);
    assert_eq!(wave_end(usize::MAX - 1, usize::MAX, usize::MAX), usize::MAX);
}

#[test]
fn stream_events_drive_the_turn() {
    let start = StreamProgress {
        message_started: false,
        received_model_output: false,
    };
    let (progress, action) = stream_step(start, &StreamEvent::Retry);
    assert_eq!((progress, action), (start, StreamAction::Retry));

    let empty = StreamEvent::Delta(AssistantDelta::Text { delta: String::new() });
    let (progress, action) = stream_step(start, &empty);
    assert_eq!(action, StreamAction::Delta { start: true });
    assert!(progress.message_started && !progress.received_model_output);

    let overflow = StreamEvent::Failed(ProviderError::ContextLengthExceeded {
        message: "too long".to_owned(),
    });
    assert_eq!(stream_step(progress, &overflow).1, StreamAction::ManageContextThenFail);

    let text = StreamEvent::Delta(AssistantDelta::Text { delta: "hi".to_owned() });
    let (progress, action) = stream_step(progress, &text);
    assert_eq!(action, StreamAction::Delta { start: false });
    assert!(progress.received_model_output);
    assert_eq!(stream_step(progress, &overflow).1, StreamAction::Fail);
    assert_eq!(stream_step(progress, &StreamEvent::Done).1, StreamAction::Finish { start: false });
    assert_eq!(stream_step(start, &StreamEvent::Done).1, StreamAction::Finish { start: true });
    assert_eq!(stream_step(progress, &StreamEvent::Ended).1, StreamAction::FailUnfinished);

    let tool_name_only = StreamEvent::Delta(AssistantDelta::ToolCall {
        index: 0,
        id: None,
        name: Some("read".to_owned()),
        arguments_delta: String::new(),
    });
    assert!(stream_step(start, &tool_name_only).0.received_model_output);
}

#[test]
fn tool_turns_are_journaled_before_execution_and_replaced_after() {
    let mut agent = AgentBuilder::new().max_context_tokens(1_000).build();
    agent.begin_run(Content::text("echo hello"));
    let assistant = Message::assistant(
        None,
        vec![ToolCall::new("call-1", "echo", "{}"), ToolCall::new("call-2", "echo", "{}")],
    );
    let run_usage = agent.apply_response_usage(Some(TokenUsage::new(50, 5, 0)), TokenUsage::zero());
    assert_eq!(run_usage.total_tokens, 55);
    assert_eq!(agent.context_usage().unwrap().remaining_tokens, 945);

    let start = agent.journal_tool_calls(&assistant);
    assert_eq!(start, 1);
    assert_eq!(agent.messages().len(), 4);
    assert_eq!(text_of(&agent.messages()[2]), Some(UNKNOWN_TOOL_RESULT));
    assert!(validate_context_transcript(agent.messages()).is_ok());

    let first = ExecutedTool {
        call: ToolCall::new("call-1", "echo", "{}"),
        output: ToolOutput::success("hello".to_owned()),
    };
    let second = ExecutedTool::cancelled(ToolCall::new("call-2", "echo", "{}"));
    let results = vec![first.into_message(), second.into_message()];
    assert!(agent.turn_changed(start, &assistant, &results));
    agent.replace_journal_turn(start, &assistant, &results);
    assert!(!agent.turn_changed(start, &assistant, &results));
    assert_eq!(text_of(&agent.messages()[2]), Some("hello"));
    assert_eq!(text_of(&agent.messages()[3]), Some(CANCELLED_TOOL_RESULT));
    assert!(agent.messages()[3].is_error);
    assert!(validate_context_transcript(agent.messages()).is_ok());

    let run_usage = agent.apply_response_usage(Some(TokenUsage::new(100, 10, 0)), run_usage);
    agent.append_turn(&Message::assistant(Some(Content::text("done")), Vec::new()), &Vec::new());
    assert_eq!(run_usage.total_tokens, 165);
    assert_eq!(agent.cumulative_usage().total_tokens, 165);
    assert_eq!(agent.context_usage().unwrap().remaining_tokens, 890);
    assert_eq!(agent.messages().len(), 5);
}

#[test]
fn context_threshold_activates_managers() {
    let mut agent = AgentBuilder::new()
        .max_context_tokens(100)
        .context_management_threshold_percent(80)
        .build();
    agent.apply_response_usage(Some(TokenUsage::new(75, 10, 0)), TokenUsage::zero());
    let usage = agent.usage_context_management_trigger(true).unwrap();
    assert_eq!(usage.used_tokens, 85);
    assert_eq!(agent.usage_context_management_trigger(false), None);

    agent.apply_response_usage(Some(TokenUsage::new(70, 9, 0)), TokenUsage::zero());
    assert_eq!(agent.usage_context_management_trigger(true), None);

    let usage = ContextUsage {
        max_tokens: 100,
        used_tokens: 80,
        remaining_tokens: 20,
    };
    assert!(threshold_reached(usage, 80));
    assert!(!threshold_reached(usage, 81));
}

#[test]
fn failed_persistence_cannot_unlock_plan_mode() {
    assert_eq!(restore_mode_safely(AgentMode::Default, AgentMode::Plan), AgentMode::Plan);
    assert_eq!(restore_mode_safely(AgentMode::Plan, AgentMode::Default), AgentMode::Plan);
    assert_eq!(restore_mode_safely(AgentMode::Default, AgentMode::Default), AgentMode::Default);

    let mut agent = AgentBuilder::new().mode(AgentMode::Plan).build();
    let checkpoint = agent.checkpoint();
    agent.begin_run(Content::text("hello"));
    agent.set_mode_in_memory(AgentMode::Default);
    agent.restore(&checkpoint);
    assert_eq!(agent.mode(), AgentMode::Plan);
    assert!(agent.messages().is_empty());
}

#[test]
fn restores_messages_and_usage_when_attaching_a_session() {
    let mut snapshot =
        SessionSnapshot::new("saved".to_owned(), vec![Message::user("before restart")]).unwrap();
    snapshot.last_usage = Some(TokenUsage::new(100, 20, 0));
    snapshot.cumulative_usage = TokenUsage::new(250, 50, 0);
    snapshot.mode = AgentMode::Plan;

    let mut agent = AgentBuilder::new().max_context_tokens(1_000).build();
    agent.attach_session("saved".to_owned(), Some(snapshot)).unwrap();

    assert_eq!(agent.session_id(), Some("saved"));
    assert_eq!(text_of(&agent.messages()[0]), Some("before restart"));
    assert_eq!(agent.last_usage().unwrap().total_tokens, 120);
    assert_eq!(agent.context_usage().unwrap().remaining_tokens, 880);
    assert_eq!(agent.cumulative_usage().total_tokens, 300);
    assert_eq!(agent.mode(), AgentMode::Plan);

    let (saved, kind) = agent.pending_save().unwrap();
    assert_eq!(saved.messages.len(), 1);
    assert_eq!(kind, SaveKind::Incremental { persisted_message_count: 1 });

    agent.clear_messages();
    let (_, kind) = agent.pending_save().unwrap();
    assert_eq!(kind, SaveKind::ReplacingFrom { unchanged_message_count: 0 });
    agent.mark_synchronized();
    let (_, kind) = agent.pending_save().unwrap();
    assert_eq!(kind, SaveKind::Incremental { persisted_message_count: 0 });

    assert_eq!(
        agent.attach_session("   ".to_owned(), None),
        Err(StorageError::InvalidSessionId("must not be empty".to_owned()))
    );
}

#[test]
fn context_replacements_must_be_paired_and_mark_the_first_change() {
    let mut agent = AgentBuilder::new().build();
    agent.attach_session("s".to_owned(), None).unwrap();
    agent.begin_run(Content::text("one"));
    agent.append_turn(&Message::assistant(Some(Content::text("two")), Vec::new()), &Vec::new());
    agent.mark_synchronized();

    let unpaired = vec![Message::assistant(None, vec![ToolCall::new("c", "t", "{}")])];
    assert!(agent.replace_context(unpaired).is_err());
    assert_eq!(agent.messages().len(), 2);

    let changed = agent
        .replace_context(vec![Message::user("one"), Message::user("summary")])
        .unwrap();
    assert_eq!(changed, Some(1));
    let (_, kind) = agent.pending_save().unwrap();
    assert_eq!(kind, SaveKind::ReplacingFrom { unchanged_message_count: 1 });
}

#[test]
fn run_text_is_the_final_plain_text() {
    let run = phi::agent::AgentRun {
        final_message: Message::assistant(Some(Content::text("done")), Vec::new()),
        new_messages: Vec::new(),
        turns: 1,
        run_usage: TokenUsage::zero(),
        context_usage: None,
    };
    assert_eq!(run.text(), Some("done"));
    let request = ProviderRequest {
        messages: vec![Message::user("x")],
        tools: Vec::new(),
        config: GenerationConfig::default(),
    };
    assert_eq!(request.messages[0].role, Role::User);
}
