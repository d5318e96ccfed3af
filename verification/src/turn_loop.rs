//! The agent's turn loop as a state machine: from the state of a run and
//! what the last action brought, the next state and the next action. The
//! caller performs each action (a save, a provider call, the tool calls, a
//! hook) and reports back.
use vstd::prelude::*;

verus! {

/// Where a run stands.
#[derive(Clone, Copy, Debug, PartialEq, Eq, Structural)]
pub enum RunPhase {
    /// Nothing was done yet.
    Begin,
    /// The prompt is saved; the first turn is next.
    Begun,
    /// A request is out; its response is awaited.
    AwaitingResponse,
    /// The response's tool calls are being journaled and saved.
    JournalingTools,
    /// The journaled tool calls are running.
    RunningTools,
    /// The tool results are being recorded and saved.
    RecordingResults,
    /// The tool results are being recorded and saved after a stop.
    RecordingResultsAfterStop,
    /// The turn is being closed: its hooks, validation and save.
    EndingTurn,
    /// The closed turn's context is being managed.
    ManagingContext,
    /// The run is over.
    Done,
}

/// The state of a run: its phase, the number of turns started, and whether
/// the current turn's response asked for tools.
#[derive(Clone, Copy, Debug, PartialEq, Eq, Structural)]
pub struct RunState {
    pub phase: RunPhase,
    pub turn: usize,
    pub had_tool_calls: bool,
}

/// What the last action brought.
#[derive(Clone, Copy, Debug, PartialEq, Eq, Structural)]
pub enum RunEvent {
    /// The action succeeded.
    Proceed,
    /// A stop was requested.
    Stopped,
    /// The awaited response arrived, and whether it asks for tools.
    Responded { has_tool_calls: bool },
    /// The tool calls finished; `stopped` when a stop cut them short.
    ToolsFinished { stopped: bool },
    /// A hook, the provider or a save failed.
    Failed,
}

/// What the caller does next.
#[derive(Clone, Copy, Debug, PartialEq, Eq, Structural)]
pub enum RunAction {
    /// Save the user's prompt as the run's first message.
    SavePrompt,
    /// Start turn `turn`: announce it, build and adjust the request, and
    /// stream the response.
    StartTurn { turn: usize },
    /// Record the response's usage, journal its tool calls and save.
    JournalTools,
    /// Run the journaled tool calls.
    ExecuteTools,
    /// Put the tool results in place of the journal and save.
    RecordToolResults,
    /// Run the turn-end hooks, validate the turn and save it.
    EndTurn,
    /// Run the context managers if usage calls for it.
    ManageContext,
    /// End the run as completed, with the turn's message as the answer.
    Complete,
    /// Save what is pending and end the run as stopped.
    FinishStopped,
    /// End the run with the failure.
    Fail,
}

/// The state of a run that was not begun.
pub open spec fn initial_state() -> RunState {
    RunState { phase: RunPhase::Begin, turn: 0, had_tool_calls: false }
}

/// The turn after `turn`, saturating.
pub open spec fn next_turn_number(turn: usize) -> usize {
    if turn < usize::MAX {
        (turn + 1) as usize
    } else {
        turn
    }
}

/// The transition of the turn loop. A failure ends the run with the
/// failure and a stop ends it as stopped, whatever the phase (an ended run
/// stays ended). Otherwise: the prompt is saved, then each turn is started
/// and its response awaited; a response with tool calls has them journaled
/// and saved, then run, then their results recorded and saved, and a stop
/// during them ends the run as stopped once the results are saved; every
/// turn is then closed
/// and its context managed; the run goes on with the next turn after a
/// turn with tool calls and completes after a turn without. An event that
/// does not fit the phase fails the run.
pub open spec fn turn_transition(s: RunState, e: RunEvent) -> (RunState, RunAction) {
    let done = RunState { phase: RunPhase::Done, ..s };
    if s.phase == RunPhase::Done {
        (s, RunAction::Fail)
    } else {
        match e {
            RunEvent::Failed => (done, RunAction::Fail),
            RunEvent::Stopped => (done, RunAction::FinishStopped),
            RunEvent::Proceed => match s.phase {
                RunPhase::Begin => (RunState { phase: RunPhase::Begun, ..s }, RunAction::SavePrompt),
                RunPhase::Begun => (
                    RunState {
                        phase: RunPhase::AwaitingResponse,
                        turn: next_turn_number(s.turn),
                        had_tool_calls: false,
                    },
                    RunAction::StartTurn { turn: next_turn_number(s.turn) },
                ),
                RunPhase::JournalingTools => (
                    RunState { phase: RunPhase::RunningTools, ..s },
                    RunAction::ExecuteTools,
                ),
                RunPhase::RecordingResults => (
                    RunState { phase: RunPhase::EndingTurn, ..s },
                    RunAction::EndTurn,
                ),
                RunPhase::RecordingResultsAfterStop => (done, RunAction::FinishStopped),
                RunPhase::EndingTurn => (
                    RunState { phase: RunPhase::ManagingContext, ..s },
                    RunAction::ManageContext,
                ),
                RunPhase::ManagingContext => if s.had_tool_calls {
                    (
                        RunState {
                            phase: RunPhase::AwaitingResponse,
                            turn: next_turn_number(s.turn),
                            had_tool_calls: false,
                        },
                        RunAction::StartTurn { turn: next_turn_number(s.turn) },
                    )
                } else {
                    (done, RunAction::Complete)
                },
                _ => (done, RunAction::Fail),
            },
            RunEvent::Responded { has_tool_calls } => if s.phase == RunPhase::AwaitingResponse {
                if has_tool_calls {
                    (
                        RunState { phase: RunPhase::JournalingTools, had_tool_calls: true, ..s },
                        RunAction::JournalTools,
                    )
                } else {
                    (
                        RunState { phase: RunPhase::EndingTurn, had_tool_calls: false, ..s },
                        RunAction::EndTurn,
                    )
                }
            } else {
                (done, RunAction::Fail)
            },
            RunEvent::ToolsFinished { stopped } => if s.phase == RunPhase::RunningTools {
                if stopped {
                    (
                        RunState { phase: RunPhase::RecordingResultsAfterStop, ..s },
                        RunAction::RecordToolResults,
                    )
                } else {
                    (
                        RunState { phase: RunPhase::RecordingResults, ..s },
                        RunAction::RecordToolResults,
                    )
                }
            } else {
                (done, RunAction::Fail)
            },
        }
    }
}

/// The state of a run that was not begun.
pub fn new_run() -> (r: RunState)
    ensures
        r == initial_state(),
{
    RunState { phase: RunPhase::Begin, turn: 0, had_tool_calls: false }
}

/// The next state and action of the turn loop; see [`turn_transition`].
pub fn next_turn(state: RunState, event: RunEvent) -> (r: (RunState, RunAction))
    ensures
        r == turn_transition(state, event),
{
    let done = RunState { phase: RunPhase::Done, ..state };
    if state.phase == RunPhase::Done {
        return (state, RunAction::Fail);
    }
    match event {
        RunEvent::Failed => (done, RunAction::Fail),
        RunEvent::Stopped => (done, RunAction::FinishStopped),
        RunEvent::Proceed => match state.phase {
            RunPhase::Begin => (RunState { phase: RunPhase::Begun, ..state }, RunAction::SavePrompt),
            RunPhase::Begun => {
                let turn = state.turn.saturating_add(1);
                (
                    RunState { phase: RunPhase::AwaitingResponse, turn, had_tool_calls: false },
                    RunAction::StartTurn { turn },
                )
            },
            RunPhase::JournalingTools => (
                RunState { phase: RunPhase::RunningTools, ..state },
                RunAction::ExecuteTools,
            ),
            RunPhase::RecordingResults => (
                RunState { phase: RunPhase::EndingTurn, ..state },
                RunAction::EndTurn,
            ),
            RunPhase::RecordingResultsAfterStop => (done, RunAction::FinishStopped),
            RunPhase::EndingTurn => (
                RunState { phase: RunPhase::ManagingContext, ..state },
                RunAction::ManageContext,
            ),
            RunPhase::ManagingContext => {
                if state.had_tool_calls {
                    let turn = state.turn.saturating_add(1);
                    (
                        RunState { phase: RunPhase::AwaitingResponse, turn, had_tool_calls: false },
                        RunAction::StartTurn { turn },
                    )
                } else {
                    (done, RunAction::Complete)
                }
            },
            _ => (done, RunAction::Fail),
        },
        RunEvent::Responded { has_tool_calls } => {
            if state.phase == RunPhase::AwaitingResponse {
                if has_tool_calls {
                    (
                        RunState { phase: RunPhase::JournalingTools, had_tool_calls: true, ..state },
                        RunAction::JournalTools,
                    )
                } else {
                    (
                        RunState { phase: RunPhase::EndingTurn, had_tool_calls: false, ..state },
                        RunAction::EndTurn,
                    )
                }
            } else {
                (done, RunAction::Fail)
            }
        },
        RunEvent::ToolsFinished { stopped } => {
            if state.phase == RunPhase::RunningTools {
                if stopped {
                    (
                        RunState { phase: RunPhase::RecordingResultsAfterStop, ..state },
                        RunAction::RecordToolResults,
                    )
                } else {
                    (
                        RunState { phase: RunPhase::RecordingResults, ..state },
                        RunAction::RecordToolResults,
                    )
                }
            } else {
                (done, RunAction::Fail)
            }
        },
    }
}

/// A run completes only when a turn whose response asked for no tools has
/// been closed and its context managed; and whenever the loop leaves a
/// phase other than `Done` with an action that ends the run, the run is
/// `Done` afterwards.
pub proof fn lemma_completion_only_after_a_turn_without_tools(s: RunState, e: RunEvent)
    ensures
        turn_transition(s, e).1 == RunAction::Complete ==> s.phase == RunPhase::ManagingContext
            && !s.had_tool_calls && e == RunEvent::Proceed,
        (turn_transition(s, e).1 == RunAction::Complete || turn_transition(s, e).1
            == RunAction::FinishStopped || turn_transition(s, e).1 == RunAction::Fail)
            ==> turn_transition(s, e).0.phase == RunPhase::Done,
{
}

/// Tools run only for a response that asked for them, and a turn is closed
/// only after its response arrived: tool calls are journaled only after a
/// response with tool calls, `EndTurn` follows only a response without
/// them or the saved results of tools that ran to the end.
pub proof fn lemma_tools_run_only_when_asked(s: RunState, e: RunEvent)
    ensures
        turn_transition(s, e).1 == RunAction::JournalTools ==> s.phase == RunPhase::AwaitingResponse
            && e == (RunEvent::Responded { has_tool_calls: true }),
        turn_transition(s, e).1 == RunAction::EndTurn ==> (s.phase == RunPhase::AwaitingResponse
            && e == (RunEvent::Responded { has_tool_calls: false })) || (s.phase
            == RunPhase::RecordingResults && e == RunEvent::Proceed),
{
}

/// Tool calls are saved before they run, and their results are saved
/// before the turn goes on: `ExecuteTools` follows only a successful save
/// of the journal, `RecordToolResults` only finished tools, and a run
/// stopped during its tools ends only once their results are saved.
pub proof fn lemma_tool_calls_are_saved_around_their_execution(s: RunState, e: RunEvent)
    ensures
        turn_transition(s, e).1 == RunAction::ExecuteTools ==> s.phase == RunPhase::JournalingTools
            && e == RunEvent::Proceed,
        turn_transition(s, e).1 == RunAction::RecordToolResults ==> s.phase
            == RunPhase::RunningTools && e is ToolsFinished,
        s.phase == RunPhase::RunningTools && e == (RunEvent::ToolsFinished { stopped: true })
            ==> turn_transition(s, e) == (
            RunState { phase: RunPhase::RecordingResultsAfterStop, ..s },
            RunAction::RecordToolResults,
        ),
{
}

/// Turns are numbered one after another: each started turn is the one
/// after the last (saturating at the largest number).
pub proof fn lemma_turns_are_numbered_in_order(s: RunState, e: RunEvent)
    ensures
        turn_transition(s, e).1 matches RunAction::StartTurn { turn } ==> turn == next_turn_number(
            s.turn,
        ) && turn_transition(s, e).0.turn == turn,
{
}

} // verus!
