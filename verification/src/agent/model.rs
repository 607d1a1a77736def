//! How the agent answers each stimulus.
use crate::agent::rules::{
    answer_fault, denial_text, failure, invalid_input_text, pause_text, provider_category, recorded,
    recorded_authorization, TurnBudget, TurnClosingView, TurnResultView,
    MAX_PROVIDER_ROUNDS_PER_TURN,
};
use crate::agent::state::{
    ActiveCallView, ActiveTurn, AgentEffectView, AgentStimulus, FreshIds, PendingCallsView,
    PhaseView, ResumptionView,
};
use crate::approval::{
    gate_check, gate_outcome, retained_after, ApprovalAuthorizationView, ApprovalCheckView,
    ApprovalDecisionView, ApprovalOutcomeView, ApprovalReply,
};
use crate::journal::id::{ApprovalId, ProviderRoundId, TurnId};
use crate::journal::run::RunJournalView;
use crate::journal::schema::{RunEndReason, RunEnded};
use crate::journal::view::{
    optional_view, ApprovalDecidedView, ApprovalRequestedView, AuthorizationView, EntryView,
    ErrorView, MessageAddedView, ProviderRoundCancelledView, ProviderRoundCompletedView,
    ProviderRoundFailedView, ProviderRoundStartedView, ToolCancelledView, ToolCompletedView,
    ToolFailedView, ToolRejectedView, ToolStartedView, TurnAbortedView, TurnCommittedView,
    TurnStartedView,
};
use crate::message::{
    ContentBlockView, MessageView, Role, StopReasonView, ToolInputView, ToolResultView,
};
use crate::protocol::{
    AgentCommand, AgentEventView, AgentExitView, ApprovalLifetime, ApprovalRequirement,
    ShutdownReason,
};
use crate::provider::{ModelTurn, ProviderError, ProviderErrorKind};
use crate::tools::ToolExecutionError;
use vstd::prelude::*;

verus! {

/// The agent between two steps.
pub struct SessionView {
    pub history: Seq<MessageView>,
    pub journal: RunJournalView,
    pub phase: PhaseView,
    pub retained: Seq<ApprovalAuthorizationView>,
}

/// What is retained was granted by the user; nothing comes out of the workspace's configuration.
pub open spec fn user_granted(retained: Seq<ApprovalAuthorizationView>) -> bool {
    forall|i: int| 0 <= i < retained.len() ==> (#[trigger] retained[i]) is Granted
}

/// The agent after a step, and what it asks of the host.
pub type Step = (SessionView, AgentEffectView);

pub open spec fn enter(session: SessionView, phase: PhaseView, effect: AgentEffectView) -> Step {
    (SessionView { phase, ..session }, effect)
}

/// Does one thing after the other, and goes on from there.
pub open spec fn perform(
    session: SessionView,
    first: AgentEffectView,
    queue: Seq<AgentEffectView>,
    next: ResumptionView,
) -> Step {
    enter(session, PhaseView::Performing { next, queue }, first)
}

pub open spec fn add_message(
    session: SessionView,
    message: MessageView,
    turn_id: TurnId,
) -> AgentEffectView {
    AgentEffectView::Journal(
        EntryView::MessageAdded(
            MessageAddedView { message, run_id: session.journal.run_id, turn_id },
        ),
    )
}

pub open spec fn remembering(session: SessionView, message: MessageView) -> SessionView {
    SessionView { history: session.history.push(message), ..session }
}

/// The agent without the messages of the turn.
pub open spec fn rolled_back(session: SessionView, turn: ActiveTurn) -> SessionView {
    if turn.start <= session.history.len() {
        SessionView { history: session.history.take(turn.start as int), ..session }
    } else {
        session
    }
}

pub open spec fn close_turn(turn_id: TurnId, closing: TurnClosingView) -> AgentEffectView {
    AgentEffectView::Journal(
        match closing {
            TurnClosingView::Commit(outcome) => EntryView::TurnCommitted(
                TurnCommittedView { outcome, turn_id },
            ),
            TurnClosingView::Abort(outcome) => EntryView::TurnAborted(
                TurnAbortedView { outcome, turn_id },
            ),
        },
    )
}

/// Closes the turn: in the journal, in the history, and towards the frontend. A cancelled turn
/// ends the run.
pub open spec fn finish_turn(
    session: SessionView,
    turn: ActiveTurn,
    result: TurnResultView,
) -> Step {
    let closing = close_turn(turn.id, result.closing());
    let told = AgentEventView::TurnComplete { outcome: result.outcome() };
    match result {
        TurnResultView::Completed { .. } | TurnResultView::Paused { .. } => perform(
            session,
            closing,
            seq![AgentEffectView::Emit(told)],
            ResumptionView::AwaitInput,
        ),
        TurnResultView::Failed { .. } => perform(
            rolled_back(session, turn),
            closing,
            seq![AgentEffectView::Emit(told)],
            ResumptionView::AwaitInput,
        ),
        TurnResultView::Cancelled => perform(
            rolled_back(session, turn),
            closing,
            seq![AgentEffectView::EmitLast(told)],
            ResumptionView::EndRun {
                exit: Some(AgentExitView::Cancelled),
                reason: RunEndReason::ActiveTurnCancelled,
            },
        ),
    }
}

/// What the journal keeps of a turn that the frontend left.
pub open spec fn disconnection() -> TurnResultView {
    failure("frontend_disconnected"@, "frontend disconnected during the active turn"@)
}

pub open spec fn gone() -> ResumptionView {
    ResumptionView::EndRun {
        exit: Some(AgentExitView::Disconnected),
        reason: RunEndReason::FrontendDisconnected,
    }
}

/// Breaks the turn off, because the frontend went away or the run was cancelled.
pub open spec fn leave_turn(session: SessionView, turn: ActiveTurn, disconnected: bool) -> Step {
    if disconnected {
        perform(
            rolled_back(session, turn),
            close_turn(turn.id, disconnection().closing()),
            Seq::empty(),
            gone(),
        )
    } else {
        finish_turn(session, turn, TurnResultView::Cancelled)
    }
}

/// Starts the next round with the provider, or pauses the turn where its budget is used up.
pub open spec fn start_round(session: SessionView, turn: ActiveTurn, fresh: FreshIds) -> Step {
    if turn.budget.provider_rounds >= MAX_PROVIDER_ROUNDS_PER_TURN {
        finish_turn(session, turn, TurnResultView::Paused { reason: pause_text() })
    } else {
        perform(
            session,
            AgentEffectView::Journal(
                EntryView::ProviderRoundStarted(
                    ProviderRoundStartedView {
                        model: session.journal.model,
                        provider: session.journal.provider,
                        provider_round_id: fresh.round,
                        run_id: session.journal.run_id,
                        turn_id: turn.id,
                    },
                ),
            ),
            Seq::empty(),
            ResumptionView::Stream {
                round: fresh.round,
                turn: ActiveTurn {
                    budget: TurnBudget {
                        provider_rounds: (turn.budget.provider_rounds + 1) as usize,
                    },
                    ..turn
                },
            },
        )
    }
}

/// Turns a call down and tells the model why.
pub open spec fn reject_call(
    session: SessionView,
    calls: PendingCallsView,
    id: Seq<char>,
    name: Seq<char>,
    category: Seq<char>,
    error: Seq<char>,
) -> Step {
    perform(
        session,
        AgentEffectView::Journal(
            EntryView::ToolRejected(
                ToolRejectedView {
                    error_category: category,
                    tool_call_id: id,
                    tool_name: name,
                    turn_id: calls.turn.id,
                },
            ),
        ),
        seq![AgentEffectView::Emit(AgentEventView::ToolRejected { name, error })],
        ResumptionView::Resolve {
            calls,
            result: ToolResultView { tool_use_id: id, is_error: true, content: error },
        },
    )
}

/// The first block at or after `at` that asks for a tool.
pub open spec fn next_use(content: Seq<ContentBlockView>, at: int) -> int
    decreases content.len() - at,
{
    if at >= content.len() || content[at] is ToolUse {
        at
    } else {
        next_use(content, at + 1)
    }
}

/// The blocks of the last message.
pub open spec fn last_content(history: Seq<MessageView>) -> Seq<ContentBlockView> {
    if history.len() == 0 {
        Seq::empty()
    } else {
        history.last().content
    }
}

/// Hands the results of all calls to the model.
pub open spec fn answer_calls(session: SessionView, calls: PendingCallsView) -> Step {
    if calls.results.len() == 0 {
        perform(
            session,
            AgentEffectView::Emit(AgentEventView::Error("no tool results were generated"@)),
            Seq::empty(),
            ResumptionView::FinishTurn {
                result: failure("agent_invariant"@, "no tool results were generated"@),
                turn: calls.turn,
            },
        )
    } else {
        let message = MessageView { role: Role::User, content: calls.results };
        perform(
            session,
            add_message(session, message, calls.turn.id),
            Seq::empty(),
            ResumptionView::KeepResults { message, turn: calls.turn },
        )
    }
}

/// Takes up the next call of the last answer, or answers it where every call has a result.
pub open spec fn next_call(session: SessionView, calls: PendingCallsView) -> Step {
    let content = last_content(session.history);
    let found = next_use(content, calls.at as int);
    if found >= content.len() {
        answer_calls(session, calls)
    } else {
        let calls = PendingCallsView { at: (found + 1) as usize, ..calls };
        let id = content[found]->ToolUse_id;
        let name = content[found]->ToolUse_name;
        match content[found]->ToolUse_input {
            ToolInputView::Valid(input) => enter(
                session,
                PhaseView::Preparing { call: ActiveCallView { calls, id, input, name } },
                AgentEffectView::PrepareTool { input, name },
            ),
            ToolInputView::Invalid(raw) => reject_call(
                session,
                calls,
                id,
                name,
                "invalid_input"@,
                invalid_input_text(name, raw),
            ),
        }
    }
}

/// Checks an answer of the model, and writes it down where it is accepted.
pub open spec fn take_answer(
    session: SessionView,
    turn: ActiveTurn,
    message: MessageView,
    stop_reason: StopReasonView,
) -> Step {
    match answer_fault(message.content, stop_reason) {
        Some(detail) => perform(
            session,
            AgentEffectView::Emit(AgentEventView::Error(detail)),
            Seq::empty(),
            ResumptionView::FinishTurn {
                result: failure("invalid_assistant_message"@, detail),
                turn,
            },
        ),
        None => perform(
            session,
            add_message(session, message, turn.id),
            Seq::empty(),
            ResumptionView::KeepAnswer { message, stop_reason, turn },
        ),
    }
}

/// Ends the turn on an answer without tool calls, and else takes up its calls.
pub open spec fn keep_answer(
    session: SessionView,
    turn: ActiveTurn,
    message: MessageView,
    stop_reason: StopReasonView,
) -> Step {
    let session = remembering(session, message);
    if stop_reason != StopReasonView::ToolUse {
        finish_turn(session, turn, TurnResultView::Completed { stop_reason })
    } else {
        next_call(session, PendingCallsView { at: 0, results: Seq::empty(), turn })
    }
}

pub open spec fn start_tool(
    session: SessionView,
    call: ActiveCallView,
    authorization: AuthorizationView,
) -> Step {
    perform(
        session,
        AgentEffectView::Journal(
            EntryView::ToolStarted(
                ToolStartedView {
                    authorization,
                    execution: None,
                    tool_call_id: call.id,
                    tool_name: call.name,
                    turn_id: call.calls.turn.id,
                },
            ),
        ),
        seq![
            AgentEffectView::Emit(
                AgentEventView::ToolStarted { input: call.input, name: call.name },
            ),
        ],
        ResumptionView::Execute { call },
    )
}

pub open spec fn end_run(
    session: SessionView,
    reason: RunEndReason,
    exit: Option<AgentExitView>,
) -> Step {
    perform(
        session,
        AgentEffectView::Journal(
            EntryView::RunEnded(RunEnded { reason, run_id: session.journal.run_id }),
        ),
        Seq::empty(),
        ResumptionView::Stop { exit },
    )
}

/// Goes on after everything that was asked for is done.
pub open spec fn resume(session: SessionView, next: ResumptionView, fresh: FreshIds) -> Step {
    match next {
        ResumptionView::StartRound { turn } => start_round(session, turn, fresh),
        ResumptionView::Stream { round, turn } => enter(
            session,
            PhaseView::Streaming { round, turn },
            AgentEffectView::StreamMessage,
        ),
        ResumptionView::TakeAnswer { message, stop_reason, turn } => take_answer(
            session,
            turn,
            message,
            stop_reason,
        ),
        ResumptionView::KeepAnswer { message, stop_reason, turn } => keep_answer(
            session,
            turn,
            message,
            stop_reason,
        ),
        ResumptionView::AskDecision { approval_id, available_lifetimes, call } => enter(
            session,
            PhaseView::Deciding { approval_id, available_lifetimes, call },
            AgentEffectView::RequestApproval {
                available_lifetimes,
                input: call.input,
                subject: call.subject(),
            },
        ),
        ResumptionView::StartTool { authorization, call } => start_tool(
            session,
            call,
            authorization,
        ),
        ResumptionView::Execute { call } => enter(
            session,
            PhaseView::Executing { call },
            AgentEffectView::ExecuteTool,
        ),
        ResumptionView::Resolve { calls, result } => next_call(
            session,
            PendingCallsView {
                results: calls.results.push(ContentBlockView::ToolResult(result)),
                ..calls
            },
        ),
        ResumptionView::KeepResults { message, turn } => start_round(
            remembering(session, message),
            turn,
            fresh,
        ),
        ResumptionView::FinishTurn { result, turn } => finish_turn(session, turn, result),
        ResumptionView::LeaveTurn { disconnected, turn } => leave_turn(
            session,
            turn,
            disconnected,
        ),
        ResumptionView::AwaitInput => enter(
            session,
            PhaseView::Idle,
            AgentEffectView::AwaitInput,
        ),
        ResumptionView::EndRun { exit, reason } => end_run(session, reason, exit),
        ResumptionView::Stop { exit } => enter(
            session,
            PhaseView::Stopped,
            AgentEffectView::Finish(exit),
        ),
    }
}

/// Reports that the journal failed, and stops: without its journal the agent does nothing more.
pub open spec fn fail_journal(session: SessionView, message: Seq<char>) -> Step {
    perform(
        session,
        AgentEffectView::EmitLast(AgentEventView::Error("session journal failed: "@ + message)),
        Seq::empty(),
        ResumptionView::Stop { exit: Some(AgentExitView::JournalFailed(message)) },
    )
}

/// The turn that is still open, whatever comes next.
pub open spec fn open_turn(next: ResumptionView) -> Option<ActiveTurn> {
    match next {
        ResumptionView::StartRound { turn } => Some(turn),
        ResumptionView::Stream { turn, .. } => Some(turn),
        ResumptionView::TakeAnswer { turn, .. } => Some(turn),
        ResumptionView::KeepAnswer { turn, .. } => Some(turn),
        ResumptionView::AskDecision { call, .. } => Some(call.calls.turn),
        ResumptionView::StartTool { call, .. } => Some(call.calls.turn),
        ResumptionView::Execute { call } => Some(call.calls.turn),
        ResumptionView::Resolve { calls, .. } => Some(calls.turn),
        ResumptionView::KeepResults { turn, .. } => Some(turn),
        ResumptionView::FinishTurn { turn, .. } => Some(turn),
        ResumptionView::LeaveTurn { turn, .. } => Some(turn),
        ResumptionView::AwaitInput => None,
        ResumptionView::EndRun { .. } => None,
        ResumptionView::Stop { .. } => None,
    }
}

/// The frontend did not take an event.
pub open spec fn lose_frontend(session: SessionView, next: ResumptionView) -> Step {
    match open_turn(next) {
        Some(turn) => leave_turn(session, turn, true),
        None => end_run(
            session,
            RunEndReason::FrontendDisconnected,
            Some(AgentExitView::Disconnected),
        ),
    }
}

/// Starts a turn with the user's text.
pub open spec fn begin_turn(session: SessionView, prompt: Seq<char>, turn_id: TurnId) -> Step {
    let message = MessageView {
        role: Role::User,
        content: seq![ContentBlockView::Text { text: prompt }],
    };
    perform(
        remembering(session, message),
        AgentEffectView::Journal(
            EntryView::TurnStarted(TurnStartedView { run_id: session.journal.run_id, turn_id }),
        ),
        seq![add_message(session, message, turn_id)],
        ResumptionView::StartRound {
            turn: ActiveTurn {
                budget: TurnBudget { provider_rounds: 0 },
                id: turn_id,
                start: session.history.len() as usize,
            },
        },
    )
}

pub open spec fn complete_round(
    session: SessionView,
    round: ProviderRoundId,
    turn: ActiveTurn,
    answer: ModelTurn,
    latency_ms: u64,
) -> Step {
    perform(
        session,
        AgentEffectView::Journal(
            EntryView::ProviderRoundCompleted(
                ProviderRoundCompletedView {
                    latency_ms,
                    provider_cost: answer.provider_cost,
                    provider_round_id: round,
                    request_id: optional_view(answer.request_id),
                    run_id: session.journal.run_id,
                    stop_reason: answer.stop_reason@,
                    turn_id: turn.id,
                    usage: answer.usage,
                },
            ),
        ),
        Seq::empty(),
        ResumptionView::TakeAnswer {
            message: answer.message@,
            stop_reason: answer.stop_reason@,
            turn,
        },
    )
}

/// Writes down that a round failed or was cancelled, and closes the turn accordingly.
pub open spec fn fail_round(
    session: SessionView,
    round: ProviderRoundId,
    turn: ActiveTurn,
    error: ProviderError,
    latency_ms: u64,
) -> Step {
    let cancelled = error.kind == ProviderErrorKind::Cancelled;
    perform(
        session,
        AgentEffectView::Journal(
            if cancelled {
                EntryView::ProviderRoundCancelled(
                    ProviderRoundCancelledView {
                        latency_ms,
                        provider_round_id: round,
                        run_id: session.journal.run_id,
                        turn_id: turn.id,
                    },
                )
            } else {
                EntryView::ProviderRoundFailed(
                    ProviderRoundFailedView {
                        error: ErrorView {
                            category: provider_category(error.kind),
                            message: error.message@,
                        },
                        latency_ms,
                        provider_round_id: round,
                        request_id: None,
                        run_id: session.journal.run_id,
                        turn_id: turn.id,
                    },
                )
            },
        ),
        seq![AgentEffectView::Emit(AgentEventView::Error(error.message@))],
        ResumptionView::FinishTurn {
            result: if cancelled {
                TurnResultView::Cancelled
            } else {
                TurnResultView::Failed { error: None }
            },
            turn,
        },
    )
}

/// Starts a prepared tool where it may run, and else asks for a decision.
pub open spec fn admit_call(
    session: SessionView,
    call: ActiveCallView,
    requirement: ApprovalRequirement,
    available_lifetimes: Seq<ApprovalLifetime>,
    approval_id: ApprovalId,
) -> Step {
    match gate_check(session.retained, requirement, call.subject()) {
        ApprovalCheckView::Authorized(authorization) => start_tool(
            session,
            call,
            recorded_authorization(authorization)->0,
        ),
        ApprovalCheckView::RequiresDecision => perform(
            session,
            AgentEffectView::Journal(
                EntryView::ApprovalRequested(
                    ApprovalRequestedView {
                        approval_id,
                        available_lifetimes,
                        subject: call.subject(),
                        turn_id: call.calls.turn.id,
                    },
                ),
            ),
            Seq::empty(),
            ResumptionView::AskDecision { approval_id, available_lifetimes, call },
        ),
    }
}

/// Acts on a decision: a grant that counts starts the tool, another answer turns the call down.
pub open spec fn apply_decision(
    session: SessionView,
    call: ActiveCallView,
    approval_id: ApprovalId,
    available_lifetimes: Seq<ApprovalLifetime>,
    decision: ApprovalDecisionView,
) -> Step {
    let outcome = gate_outcome(available_lifetimes, approval_id, decision, call.subject());
    let session = SessionView {
        retained: retained_after(session.retained, outcome),
        ..session
    };
    let decided = AgentEffectView::Journal(
        EntryView::ApprovalDecided(
            ApprovalDecidedView { approval_id, decision: recorded(decision) },
        ),
    );
    match outcome {
        ApprovalOutcomeView::Authorized(authorization) => perform(
            session,
            decided,
            Seq::empty(),
            ResumptionView::StartTool {
                authorization: recorded_authorization(authorization)->0,
                call,
            },
        ),
        ApprovalOutcomeView::Denied { reason } => perform(
            session,
            decided,
            seq![
                AgentEffectView::Journal(
                    EntryView::ToolRejected(
                        ToolRejectedView {
                            error_category: "approval_denied"@,
                            tool_call_id: call.id,
                            tool_name: call.name,
                            turn_id: call.calls.turn.id,
                        },
                    ),
                ),
                AgentEffectView::Emit(AgentEventView::ToolDenied { name: call.name, reason }),
            ],
            ResumptionView::Resolve {
                calls: call.calls,
                result: ToolResultView {
                    tool_use_id: call.id,
                    is_error: false,
                    content: denial_text(reason),
                },
            },
        ),
        ApprovalOutcomeView::InvalidGrant { reason } => reject_call(
            session,
            call.calls,
            call.id,
            call.name,
            "invalid_approval_grant"@,
            reason,
        ),
    }
}

pub open spec fn cancel_tool(
    session: SessionView,
    call: ActiveCallView,
    duration_ms: u64,
    disconnected: bool,
) -> Step {
    perform(
        session,
        AgentEffectView::Journal(
            EntryView::ToolCancelled(
                ToolCancelledView {
                    duration_ms,
                    tool_call_id: call.id,
                    turn_id: call.calls.turn.id,
                },
            ),
        ),
        Seq::empty(),
        ResumptionView::LeaveTurn { disconnected, turn: call.calls.turn },
    )
}

/// Writes down how a tool ended, shows it, and hands its output to the model.
pub open spec fn finish_tool(
    session: SessionView,
    call: ActiveCallView,
    duration_ms: u64,
    output: Seq<char>,
    is_error: bool,
) -> Step {
    perform(
        session,
        AgentEffectView::Journal(
            if is_error {
                EntryView::ToolFailed(
                    ToolFailedView {
                        duration_ms,
                        error_category: "tool_error"@,
                        tool_call_id: call.id,
                        turn_id: call.calls.turn.id,
                    },
                )
            } else {
                EntryView::ToolCompleted(
                    ToolCompletedView {
                        duration_ms,
                        execution: None,
                        tool_call_id: call.id,
                        turn_id: call.calls.turn.id,
                    },
                )
            },
        ),
        seq![
            AgentEffectView::Emit(
                AgentEventView::ToolFinished { is_error, name: call.name, output },
            ),
        ],
        ResumptionView::Resolve {
            calls: call.calls,
            result: ToolResultView { tool_use_id: call.id, is_error, content: output },
        },
    )
}

/// Whether a stimulus can follow what the agent is waiting for.
pub open spec fn expects(phase: PhaseView, stimulus: AgentStimulus) -> bool {
    match phase {
        PhaseView::Idle => stimulus is Cancelled || stimulus is Command
            || stimulus is CommandsClosed || stimulus is FrontendClosed,
        PhaseView::Performing { next, .. } => stimulus is Journaled || stimulus is Emitted
            || stimulus is JournalFailed || stimulus is FrontendClosed && !(next is EndRun)
            && !(next is Stop),
        PhaseView::Streaming { .. } => stimulus is FrontendClosed || stimulus is Streamed
            || stimulus is StreamFailed,
        PhaseView::Preparing { .. } => stimulus is Prepared || stimulus is NotPrepared,
        PhaseView::Deciding { .. } => stimulus is Replied,
        PhaseView::Executing { .. } => stimulus is Executed || stimulus is Interrupted,
        PhaseView::Stopped => false,
    }
}

pub open spec fn react_idle(session: SessionView, stimulus: AgentStimulus, fresh: FreshIds) -> Step {
    match stimulus {
        AgentStimulus::Cancelled => end_run(session, RunEndReason::IdleCancelled, None),
        AgentStimulus::Command(AgentCommand::Shutdown(ShutdownReason::InputClosed)) => end_run(
            session,
            RunEndReason::InputClosed,
            None,
        ),
        AgentStimulus::Command(AgentCommand::Shutdown(ShutdownReason::UserQuit)) => end_run(
            session,
            RunEndReason::UserQuit,
            None,
        ),
        AgentStimulus::Command(AgentCommand::UserInput(prompt)) => begin_turn(
            session,
            prompt@,
            fresh.turn,
        ),
        _ => end_run(
            session,
            RunEndReason::FrontendDisconnected,
            Some(AgentExitView::Disconnected),
        ),
    }
}

pub open spec fn react_performing(
    session: SessionView,
    next: ResumptionView,
    queue: Seq<AgentEffectView>,
    stimulus: AgentStimulus,
    fresh: FreshIds,
) -> Step {
    match stimulus {
        AgentStimulus::JournalFailed(message) => fail_journal(session, message@),
        AgentStimulus::FrontendClosed => lose_frontend(session, next),
        _ => if queue.len() > 0 {
            perform(session, queue[0], queue.skip(1), next)
        } else {
            resume(session, next, fresh)
        },
    }
}

pub open spec fn react_streaming(
    session: SessionView,
    round: ProviderRoundId,
    turn: ActiveTurn,
    stimulus: AgentStimulus,
) -> Step {
    match stimulus {
        AgentStimulus::Streamed { answer, latency_ms } => complete_round(
            session,
            round,
            turn,
            answer,
            latency_ms,
        ),
        AgentStimulus::StreamFailed { error, latency_ms } => fail_round(
            session,
            round,
            turn,
            error,
            latency_ms,
        ),
        _ => leave_turn(session, turn, true),
    }
}

pub open spec fn react_preparing(
    session: SessionView,
    call: ActiveCallView,
    stimulus: AgentStimulus,
    fresh: FreshIds,
) -> Step {
    match stimulus {
        AgentStimulus::Prepared { available_lifetimes, requirement } => admit_call(
            session,
            call,
            requirement,
            available_lifetimes@,
            fresh.approval,
        ),
        AgentStimulus::NotPrepared { error } => reject_call(
            session,
            call.calls,
            call.id,
            call.name,
            "preparation_failed"@,
            error@,
        ),
        _ => leave_turn(session, call.calls.turn, true),
    }
}

pub open spec fn react_deciding(
    session: SessionView,
    approval_id: ApprovalId,
    available_lifetimes: Seq<ApprovalLifetime>,
    call: ActiveCallView,
    stimulus: AgentStimulus,
) -> Step {
    match stimulus {
        AgentStimulus::Replied(ApprovalReply::Decided(decision)) => apply_decision(
            session,
            call,
            approval_id,
            available_lifetimes,
            decision@,
        ),
        AgentStimulus::Replied(ApprovalReply::Cancelled) => leave_turn(
            session,
            call.calls.turn,
            false,
        ),
        _ => leave_turn(session, call.calls.turn, true),
    }
}

pub open spec fn react_executing(
    session: SessionView,
    call: ActiveCallView,
    stimulus: AgentStimulus,
) -> Step {
    match stimulus {
        AgentStimulus::Executed { duration_ms, result } => match result {
            Ok(output) => finish_tool(session, call, duration_ms, output@, false),
            Err(ToolExecutionError::ToolError(error)) => finish_tool(
                session,
                call,
                duration_ms,
                error@,
                true,
            ),
            Err(ToolExecutionError::Cancelled) => cancel_tool(session, call, duration_ms, false),
        },
        AgentStimulus::Interrupted { disconnected, duration_ms } => cancel_tool(
            session,
            call,
            duration_ms,
            disconnected,
        ),
        _ => leave_turn(session, call.calls.turn, true),
    }
}

/// What the agent does when it hears `stimulus`.
pub open spec fn react(session: SessionView, stimulus: AgentStimulus, fresh: FreshIds) -> Step {
    match session.phase {
        PhaseView::Idle => react_idle(session, stimulus, fresh),
        PhaseView::Performing { next, queue } => react_performing(
            session,
            next,
            queue,
            stimulus,
            fresh,
        ),
        PhaseView::Streaming { round, turn } => react_streaming(session, round, turn, stimulus),
        PhaseView::Preparing { call } => react_preparing(session, call, stimulus, fresh),
        PhaseView::Deciding { approval_id, available_lifetimes, call } => react_deciding(
            session,
            approval_id,
            available_lifetimes,
            call,
            stimulus,
        ),
        PhaseView::Executing { call } => react_executing(session, call, stimulus),
        PhaseView::Stopped => enter(
            session,
            PhaseView::Stopped,
            AgentEffectView::Finish(None),
        ),
    }
}

} // verus!
