//! What each thing that the agent hears comes to, step by step, until it waits again.
use crate::agent::laws::going_on;
use crate::agent::model::{expects, next_use, react, user_granted, SessionView, Step};
use crate::agent::rules::TurnBudget;
use crate::agent::state::{
    ActiveCallView, ActiveTurn, AgentEffectView, AgentStimulus, FreshIds, PendingCallsView,
    PhaseView, ResumptionView,
};
use crate::approval::{
    authorization_needs_a_covering_grant, first_covering, ApprovalAuthorizationView, ApprovalReply,
};
use crate::journal::lifecycle::{asks_for_tools, assistant_fault, is_call, lemma_requested};
use crate::journal::schema::{RunEndReason, RunEnded};
use crate::journal::view::{
    AbortOutcomeView, ApprovalDecidedView, ApprovalRequestedView, AuthorizationView,
    CommitOutcomeView, DecisionView, EntryView, ErrorView, MessageAddedView,
    ProviderRoundCancelledView, ProviderRoundCompletedView, ProviderRoundFailedView,
    ProviderRoundStartedView, ToolCancelledView, ToolCompletedView, ToolFailedView,
    ToolRejectedView, ToolStartedView, TurnAbortedView, TurnCommittedView, TurnStartedView,
};
use crate::message::{
    ContentBlockView, MessageView, Role, StopReasonView, ToolInputView, ToolResultView,
};
use crate::protocol::{
    AgentCommand, AgentEventView, AgentExitView, ApprovalDecision, ApprovalGrant, ApprovalGrantView,
    ApprovalLifetime, ApprovalMatcherView, ApprovalRequirement, ApprovalScopeView,
    ApprovalSubjectView, ShutdownReason, TurnOutcomeView,
};
use crate::provider::{ModelTurn, ProviderError, ProviderErrorKind};
use crate::text::trimmed_text;
use crate::tools::ToolExecutionError;
use vstd::prelude::*;

verus! {

/// The next step, once the host has done what the last one asked for.
pub open spec fn carried_on(step: Step, fresh: FreshIds) -> Step {
    react(
        step.0,
        if step.1 is Journal {
            AgentStimulus::Journaled
        } else {
            AgentStimulus::Emitted
        },
        fresh,
    )
}

/// What the user types becomes the one message of a new turn: it is written down as it was typed,
/// joins the history, and the provider is asked about that history.
pub proof fn prompts_reach_the_model(
    session: SessionView,
    prompt: String,
    fresh: FreshIds,
    later: FreshIds,
)
    requires
        session.phase is Idle,
        session.history.len() <= usize::MAX,
    ensures
        ({
            let typed = AgentStimulus::Command(AgentCommand::UserInput(prompt));
            let started = react(session, typed, fresh);
            let added = carried_on(started, later);
            let asked = carried_on(added, later);
            let streaming = carried_on(asked, later);
            let run_id = session.journal.run_id;
            &&& expects(session.phase, typed)
            &&& started.0.history.len() == session.history.len() + 1
            &&& started.0.history.drop_last() == session.history
            &&& started.0.history.last().role == Role::User
            &&& started.0.history.last().content == seq![ContentBlockView::Text { text: prompt@ }]
            &&& started.1 == AgentEffectView::Journal(
                EntryView::TurnStarted(TurnStartedView { run_id, turn_id: fresh.turn }),
            )
            &&& added.1 == AgentEffectView::Journal(
                EntryView::MessageAdded(
                    MessageAddedView {
                        message: started.0.history.last(),
                        run_id,
                        turn_id: fresh.turn,
                    },
                ),
            )
            &&& asked.1 == AgentEffectView::Journal(
                EntryView::ProviderRoundStarted(
                    ProviderRoundStartedView {
                        model: session.journal.model,
                        provider: session.journal.provider,
                        provider_round_id: later.round,
                        run_id,
                        turn_id: fresh.turn,
                    },
                ),
            )
            &&& streaming.1 == AgentEffectView::StreamMessage
            &&& streaming.0 == (SessionView {
                history: started.0.history,
                phase: PhaseView::Streaming {
                    round: later.round,
                    turn: ActiveTurn {
                        budget: TurnBudget { provider_rounds: 1 },
                        id: fresh.turn,
                        start: session.history.len() as usize,
                    },
                },
                ..session
            })
        }),
{
    let typed = AgentStimulus::Command(AgentCommand::UserInput(prompt));
    let started = react(session, typed, fresh);
    assert(started.0.history.drop_last() =~= session.history);
    let added = carried_on(started, later);
    assert(added.0.phase->Performing_queue.len() == 0);
}

/// While nothing is going on, everything but the user's text ends the run, and the journal keeps
/// why; only a frontend that went away is an error.
pub proof fn idle_runs_end_for_a_reason(session: SessionView, stimulus: AgentStimulus, fresh: FreshIds)
    requires
        session.phase is Idle,
        expects(session.phase, stimulus),
        !(stimulus matches AgentStimulus::Command(AgentCommand::UserInput(_))),
    ensures
        ({
            let ended = react(session, stimulus, fresh);
            let finished = carried_on(ended, fresh);
            let reason = match stimulus {
                AgentStimulus::Cancelled => RunEndReason::IdleCancelled,
                AgentStimulus::Command(AgentCommand::Shutdown(ShutdownReason::InputClosed)) =>
                    RunEndReason::InputClosed,
                AgentStimulus::Command(AgentCommand::Shutdown(ShutdownReason::UserQuit)) =>
                    RunEndReason::UserQuit,
                _ => RunEndReason::FrontendDisconnected,
            };
            &&& ended.1 == AgentEffectView::Journal(
                EntryView::RunEnded(RunEnded { reason, run_id: session.journal.run_id }),
            )
            &&& finished.1 == AgentEffectView::Finish(
                if stimulus is CommandsClosed || stimulus is FrontendClosed {
                    Some(AgentExitView::Disconnected)
                } else {
                    None
                },
            )
            &&& finished.0 == (SessionView { phase: PhaseView::Stopped, ..session })
        }),
{
}

/// What an answer of the model must be: text and tool calls alone, each call under an identifier
/// of its own, with calls exactly where the model stopped for them.
pub open spec fn is_acceptable(content: Seq<ContentBlockView>, stop_reason: StopReasonView) -> bool {
    &&& forall|i: int| 0 <= i < content.len() ==> !((#[trigger] content[i]) is ToolResult)
    &&& forall|i: int, j: int|
        0 <= i < j < content.len() && (#[trigger] content[i]) is ToolUse && (
        #[trigger] content[j]) is ToolUse ==> content[i]->ToolUse_id != content[j]->ToolUse_id
    &&& (exists|i: int| 0 <= i < content.len() && (#[trigger] content[i]) is ToolUse)
        <==> stop_reason is ToolUse
}

/// The blocks of an answer are without fault exactly where they are text and calls with
/// identifiers of their own.
proof fn lemma_assistant_faultless(content: Seq<ContentBlockView>)
    ensures
        assistant_fault(content) is None <==> {
            &&& forall|i: int| 0 <= i < content.len() ==> !((#[trigger] content[i]) is ToolResult)
            &&& forall|i: int, j: int|
                0 <= i < j < content.len() && (#[trigger] content[i]) is ToolUse && (
                #[trigger] content[j]) is ToolUse ==> content[i]->ToolUse_id
                    != content[j]->ToolUse_id
        },
    decreases content.len(),
{
    if content.len() > 0 {
        let before = content.drop_last();
        let last = content.last();
        lemma_assistant_faultless(before);
        assert(forall|i: int| 0 <= i < before.len() ==> #[trigger] before[i] == content[i]);
        assert(content[content.len() - 1] == last);
        if assistant_fault(content) is None {
            assert forall|i: int| 0 <= i < content.len() implies !((
            #[trigger] content[i]) is ToolResult) by {
                if i < before.len() {
                    assert(before[i] == content[i]);
                }
            }
            assert forall|i: int, j: int|
                0 <= i < j < before.len() && (#[trigger] content[i]) is ToolUse && (
                #[trigger] content[j]) is ToolUse implies content[i]->ToolUse_id
                != content[j]->ToolUse_id by {
                assert(before[i] == content[i]);
                assert(before[j] == content[j]);
            }
        }
        if last is ToolUse {
            lemma_requested(before, last->ToolUse_id);
            if assistant_fault(content) is None {
                assert forall|i: int, j: int|
                    0 <= i < j < content.len() && (#[trigger] content[i]) is ToolUse && (
                    #[trigger] content[j]) is ToolUse implies content[i]->ToolUse_id
                    != content[j]->ToolUse_id by {
                    assert(before[i] == content[i]);
                    if j < before.len() {
                        assert(before[j] == content[j]);
                    } else {
                        assert(!is_call(before[i], last->ToolUse_id));
                    }
                }
            } else if assistant_fault(before) is None {
                let i = choose|i: int|
                    0 <= i < before.len() && is_call(#[trigger] before[i], last->ToolUse_id);
                assert(content[i] is ToolUse);
            }
        }
        if assistant_fault(before) is Some {
            if exists|i: int| 0 <= i < before.len() && before[i] is ToolResult {
                let i = choose|i: int| 0 <= i < before.len() && before[i] is ToolResult;
                assert(content[i] is ToolResult);
            } else {
                let (i, j) = choose|i: int, j: int|
                    0 <= i < j < before.len() && (#[trigger] before[i]) is ToolUse && (
                    #[trigger] before[j]) is ToolUse && before[i]->ToolUse_id
                        == before[j]->ToolUse_id;
                assert(content[i] is ToolUse && content[j] is ToolUse);
            }
        }
    }
}

/// What the model answered is written down with what the provider said of it. An answer that is
/// acceptable joins the conversation as it is; another one is reported and fails the turn.
pub proof fn answers_join_the_conversation(
    session: SessionView,
    answer: ModelTurn,
    latency_ms: u64,
    fresh: FreshIds,
)
    requires
        session.phase is Streaming,
    ensures
        ({
            let round = session.phase->Streaming_round;
            let turn = session.phase->Streaming_turn;
            let heard = AgentStimulus::Streamed { answer, latency_ms };
            let completed = react(session, heard, fresh);
            let taken = carried_on(completed, fresh);
            let kept = carried_on(taken, fresh);
            &&& expects(session.phase, heard)
            &&& completed.1 == AgentEffectView::Journal(
                EntryView::ProviderRoundCompleted(
                    ProviderRoundCompletedView {
                        latency_ms,
                        provider_cost: answer.provider_cost,
                        provider_round_id: round,
                        request_id: match answer.request_id {
                            None => None,
                            Some(id) => Some(id@),
                        },
                        run_id: session.journal.run_id,
                        stop_reason: answer.stop_reason@,
                        turn_id: turn.id,
                        usage: answer.usage,
                    },
                ),
            )
            &&& completed.0.history == session.history
            &&& is_acceptable(answer.message@.content, answer.stop_reason@) ==> {
                &&& taken.1 == AgentEffectView::Journal(
                    EntryView::MessageAdded(
                        MessageAddedView {
                            message: answer.message@,
                            run_id: session.journal.run_id,
                            turn_id: turn.id,
                        },
                    ),
                )
                &&& kept.0.history == session.history.push(answer.message@)
            }
            &&& !is_acceptable(answer.message@.content, answer.stop_reason@) ==> {
                &&& taken.1 is Emit && taken.1->Emit_0 is Error
                &&& kept.1 == AgentEffectView::Journal(
                    EntryView::TurnAborted(
                        TurnAbortedView {
                            outcome: AbortOutcomeView::Failed {
                                error: Some(
                                    ErrorView {
                                        category: "invalid_assistant_message"@,
                                        message: taken.1->Emit_0->Error_0,
                                    },
                                ),
                            },
                            turn_id: turn.id,
                        },
                    ),
                )
            }
        }),
{
    let content = answer.message@.content;
    lemma_assistant_faultless(content);
    if asks_for_tools(content) {
        let i = choose|i: int| 0 <= i < content.len() && content[i] is ToolUse;
        assert(content[i] is ToolUse);
    }
    if exists|i: int| 0 <= i < content.len() && (#[trigger] content[i]) is ToolUse {
        assert(asks_for_tools(content));
    }
}

/// The words for an answer that is not acceptable say what is wrong with it.
pub proof fn refused_answers_say_why(
    session: SessionView,
    answer: ModelTurn,
    latency_ms: u64,
    fresh: FreshIds,
)
    requires
        session.phase is Streaming,
        !is_acceptable(answer.message@.content, answer.stop_reason@),
    ensures
        ({
            let content = answer.message@.content;
            let heard = AgentStimulus::Streamed { answer, latency_ms };
            let taken = carried_on(react(session, heard, fresh), fresh);
            let words = taken.1->Emit_0->Error_0;
            &&& words == "assistant message contains a tool result"@ ==> exists|i: int|
                0 <= i < content.len() && (#[trigger] content[i]) is ToolResult
            &&& words == "assistant message repeats a tool call ID"@ ==> exists|i: int, j: int|
                0 <= i < j < content.len() && (#[trigger] content[i]) is ToolUse && (
                #[trigger] content[j]) is ToolUse && content[i]->ToolUse_id
                    == content[j]->ToolUse_id
            &&& words == "assistant message contains a tool result"@ || words
                == "assistant message repeats a tool call ID"@ || words
                == "assistant tool calls do not agree with the provider stop reason"@
        }),
{
    let content = answer.message@.content;
    answers_join_the_conversation(session, answer, latency_ms, fresh);
    lemma_assistant_faultless(content);
    lemma_assistant_words(content);
    reveal_strlit("assistant message contains a tool result");
    reveal_strlit("assistant message repeats a tool call ID");
    reveal_strlit("assistant tool calls do not agree with the provider stop reason");
    assert("assistant message contains a tool result"@[18] == 'c');
    assert("assistant message repeats a tool call ID"@[18] == 'r');
    assert("assistant message repeats a tool call ID"@[10] == 'm');
    assert("assistant message contains a tool result"@[10] == 'm');
    assert("assistant tool calls do not agree with the provider stop reason"@[10] == 't');
}

proof fn lemma_assistant_words(content: Seq<ContentBlockView>)
    ensures
        assistant_fault(content) matches Some(words) ==> {
            ||| words == "assistant message contains a tool result"@ && exists|i: int|
                0 <= i < content.len() && (#[trigger] content[i]) is ToolResult
            ||| words == "assistant message repeats a tool call ID"@ && exists|i: int, j: int|
                0 <= i < j < content.len() && (#[trigger] content[i]) is ToolUse && (
                #[trigger] content[j]) is ToolUse && content[i]->ToolUse_id
                    == content[j]->ToolUse_id
        },
    decreases content.len(),
{
    if content.len() > 0 {
        let before = content.drop_last();
        let last = content.last();
        lemma_assistant_words(before);
        assert(content[content.len() - 1] == last);
        assert(forall|i: int| 0 <= i < before.len() ==> #[trigger] before[i] == content[i]);
        match assistant_fault(before) {
            Some(words) => {
                if exists|i: int| 0 <= i < before.len() && (#[trigger] before[i]) is ToolResult {
                    let i = choose|i: int|
                        0 <= i < before.len() && (#[trigger] before[i]) is ToolResult;
                    assert(content[i] is ToolResult);
                }
                if exists|i: int, j: int|
                    0 <= i < j < before.len() && (#[trigger] before[i]) is ToolUse && (
                    #[trigger] before[j]) is ToolUse && before[i]->ToolUse_id
                        == before[j]->ToolUse_id {
                    let (i, j) = choose|i: int, j: int|
                        0 <= i < j < before.len() && (#[trigger] before[i]) is ToolUse && (
                        #[trigger] before[j]) is ToolUse && before[i]->ToolUse_id
                            == before[j]->ToolUse_id;
                    assert(content[i] is ToolUse && content[j] is ToolUse);
                }
            },
            None => {
                if last is ToolUse && assistant_fault(content) is Some {
                    lemma_requested(before, last->ToolUse_id);
                    let i = choose|i: int|
                        0 <= i < before.len() && is_call(#[trigger] before[i], last->ToolUse_id);
                    assert(content[i] is ToolUse);
                }
            },
        }
    }
}

/// An answer without tool calls completes its turn: the turn is committed with the reason for
/// which the model stopped, the frontend is told the same, and the agent waits for input with the
/// whole conversation in its history.
pub proof fn final_answers_complete_the_turn(
    session: SessionView,
    answer: ModelTurn,
    latency_ms: u64,
    fresh: FreshIds,
)
    requires
        session.phase is Streaming,
        is_acceptable(answer.message@.content, answer.stop_reason@),
        !(answer.stop_reason@ is ToolUse),
    ensures
        ({
            let turn = session.phase->Streaming_turn;
            let heard = AgentStimulus::Streamed { answer, latency_ms };
            let taken = carried_on(react(session, heard, fresh), fresh);
            let committed = carried_on(taken, fresh);
            let told = carried_on(committed, fresh);
            let waiting = carried_on(told, fresh);
            let stop_reason = answer.stop_reason@;
            &&& committed.1 == AgentEffectView::Journal(
                EntryView::TurnCommitted(
                    TurnCommittedView {
                        outcome: CommitOutcomeView::Completed { stop_reason },
                        turn_id: turn.id,
                    },
                ),
            )
            &&& told.1 == AgentEffectView::Emit(
                AgentEventView::TurnComplete { outcome: TurnOutcomeView::Completed { stop_reason } },
            )
            &&& waiting.1 == AgentEffectView::AwaitInput
            &&& waiting.0 == (SessionView {
                history: session.history.push(answer.message@),
                phase: PhaseView::Idle,
                ..session
            })
        }),
{
    answers_join_the_conversation(session, answer, latency_ms, fresh);
    lemma_assistant_faultless(answer.message@.content);
    let turn = session.phase->Streaming_turn;
    let heard = AgentStimulus::Streamed { answer, latency_ms };
    let taken = carried_on(react(session, heard, fresh), fresh);
    let committed = carried_on(taken, fresh);
    let told = carried_on(committed, fresh);
    assert(told.0.phase->Performing_queue =~= Seq::empty());
}

/// The first call at or after a block is the one that no other call stands before.
proof fn lemma_next_use_found(content: Seq<ContentBlockView>, at: int, found: int)
    requires
        0 <= at <= found <= content.len(),
        forall|i: int| at <= i < found ==> !((#[trigger] content[i]) is ToolUse),
        found < content.len() ==> content[found] is ToolUse,
    ensures
        next_use(content, at) == found,
    decreases found - at,
{
    if at < found {
        assert(!(content[at] is ToolUse));
        lemma_next_use_found(content, at + 1, found);
    }
}

/// The block at `found` is the first at or after `at` that asks for a tool.
pub open spec fn is_next_call(content: Seq<ContentBlockView>, at: int, found: int) -> bool {
    &&& 0 <= at <= found < content.len()
    &&& content[found] is ToolUse
    &&& forall|i: int| at <= i < found ==> !((#[trigger] content[i]) is ToolUse)
}

/// What the agent does about the call in the block at `found`, with these results so far: a call
/// with arguments is prepared, under its own name and with its own arguments, and a call whose
/// arguments are no JSON is turned down and answered with an error.
pub open spec fn takes_up(
    session: SessionView,
    turn: ActiveTurn,
    results: Seq<ContentBlockView>,
    found: int,
    step: Step,
) -> bool {
    let block = session.history.last().content[found];
    let calls = PendingCallsView { at: (found + 1) as usize, results, turn };
    let id = block->ToolUse_id;
    let name = block->ToolUse_name;
    match block->ToolUse_input {
        ToolInputView::Valid(input) => {
            &&& step.1 == AgentEffectView::PrepareTool { input, name }
            &&& step.0 == (SessionView {
                phase: PhaseView::Preparing { call: ActiveCallView { calls, id, input, name } },
                ..session
            })
        },
        ToolInputView::Invalid(raw) => {
            let error = "invalid input for tool `"@ + name
                + "`: arguments are not valid JSON: "@ + raw;
            turns_down(session, calls, id, name, "invalid_input"@, error, step)
        },
    }
}

/// The call is turned down: the journal says so, the frontend is told why, and the model will be
/// answered with an error that says the same.
pub open spec fn turns_down(
    session: SessionView,
    calls: PendingCallsView,
    id: Seq<char>,
    name: Seq<char>,
    category: Seq<char>,
    error: Seq<char>,
    step: Step,
) -> bool {
    &&& step.1 == AgentEffectView::Journal(
        EntryView::ToolRejected(
            ToolRejectedView {
                error_category: category,
                tool_call_id: id,
                tool_name: name,
                turn_id: calls.turn.id,
            },
        ),
    )
    &&& step.0 == (SessionView {
        phase: PhaseView::Performing {
            next: ResumptionView::Resolve {
                calls,
                result: ToolResultView { tool_use_id: id, is_error: true, content: error },
            },
            queue: seq![AgentEffectView::Emit(AgentEventView::ToolRejected { name, error })],
        },
        ..session
    })
}

/// An answer with tool calls is worked through from its first call on, without results so far.
pub proof fn calls_are_taken_up(
    session: SessionView,
    answer: ModelTurn,
    latency_ms: u64,
    fresh: FreshIds,
    found: int,
)
    requires
        session.phase is Streaming,
        is_acceptable(answer.message@.content, answer.stop_reason@),
        answer.stop_reason@ is ToolUse,
        answer.message@.content.len() <= usize::MAX,
        is_next_call(answer.message@.content, 0, found),
    ensures
        ({
            let heard = AgentStimulus::Streamed { answer, latency_ms };
            let taken = carried_on(react(session, heard, fresh), fresh);
            takes_up(
                SessionView { history: session.history.push(answer.message@), ..session },
                session.phase->Streaming_turn,
                Seq::empty(),
                found,
                carried_on(taken, fresh),
            )
        }),
{
    answers_join_the_conversation(session, answer, latency_ms, fresh);
    lemma_assistant_faultless(answer.message@.content);
    lemma_next_use_found(answer.message@.content, 0, found);
    assert(asks_for_tools(answer.message@.content)) by {
        assert(answer.message@.content[found] is ToolUse);
    }
}

/// Once a call has its result, the next call of the same answer is taken up, and the result is
/// kept behind those before it.
pub proof fn calls_are_worked_through(
    session: SessionView,
    calls: PendingCallsView,
    result: ToolResultView,
    stimulus: AgentStimulus,
    fresh: FreshIds,
    found: int,
)
    requires
        session.phase == (PhaseView::Performing {
            next: ResumptionView::Resolve { calls, result },
            queue: Seq::empty(),
        }),
        stimulus is Journaled || stimulus is Emitted,
        session.history.len() > 0,
        session.history.last().content.len() <= usize::MAX,
        is_next_call(session.history.last().content, calls.at as int, found),
    ensures
        takes_up(
            session,
            calls.turn,
            calls.results.push(ContentBlockView::ToolResult(result)),
            found,
            react(session, stimulus, fresh),
        ),
{
    lemma_next_use_found(session.history.last().content, calls.at as int, found);
}

/// Once no call is left, the results go to the model in one message of the user: it is written
/// down, joins the history, and another round starts.
pub proof fn results_go_back_to_the_model(
    session: SessionView,
    calls: PendingCallsView,
    result: ToolResultView,
    stimulus: AgentStimulus,
    fresh: FreshIds,
)
    requires
        session.phase == (PhaseView::Performing {
            next: ResumptionView::Resolve { calls, result },
            queue: Seq::empty(),
        }),
        stimulus is Journaled || stimulus is Emitted,
        session.history.len() > 0,
        calls.at <= session.history.last().content.len(),
        forall|i: int|
            calls.at <= i < session.history.last().content.len() ==> !((
            #[trigger] session.history.last().content[i]) is ToolUse),
        calls.turn.budget.provider_rounds < 24,
    ensures
        ({
            let message = MessageView {
                role: Role::User,
                content: calls.results.push(ContentBlockView::ToolResult(result)),
            };
            let added = react(session, stimulus, fresh);
            let asked = carried_on(added, fresh);
            &&& added.1 == AgentEffectView::Journal(
                EntryView::MessageAdded(
                    MessageAddedView {
                        message,
                        run_id: session.journal.run_id,
                        turn_id: calls.turn.id,
                    },
                ),
            )
            &&& asked.1 is Journal
            &&& asked.1->Journal_0 is ProviderRoundStarted
            &&& asked.0.history == session.history.push(message)
            &&& carried_on(asked, fresh).1 == AgentEffectView::StreamMessage
            &&& carried_on(asked, fresh).0.history == session.history.push(message)
        }),
{
    let content = session.history.last().content;
    lemma_next_use_found(content, calls.at as int, content.len() as int);
}

/// A turn takes at most 24 rounds. Each one is written down under its own identifier before the
/// provider is asked; after the last, the turn is paused, committed with what was said so far.
pub proof fn rounds_run_out(
    session: SessionView,
    turn: ActiveTurn,
    stimulus: AgentStimulus,
    fresh: FreshIds,
)
    requires
        session.phase == (PhaseView::Performing {
            next: ResumptionView::StartRound { turn },
            queue: Seq::empty(),
        }),
        stimulus is Journaled || stimulus is Emitted,
    ensures
        ({
            let step = react(session, stimulus, fresh);
            let next = carried_on(step, fresh);
            let last = carried_on(next, fresh);
            let reason =
                "turn paused after 24 provider rounds; send another message to continue with the existing context"@;
            &&& step.0.history == session.history
            &&& turn.budget.provider_rounds < 24 ==> {
                &&& step.1 == AgentEffectView::Journal(
                    EntryView::ProviderRoundStarted(
                        ProviderRoundStartedView {
                            model: session.journal.model,
                            provider: session.journal.provider,
                            provider_round_id: fresh.round,
                            run_id: session.journal.run_id,
                            turn_id: turn.id,
                        },
                    ),
                )
                &&& next.1 == AgentEffectView::StreamMessage
                &&& next.0.phase == (PhaseView::Streaming {
                    round: fresh.round,
                    turn: ActiveTurn {
                        budget: TurnBudget {
                            provider_rounds: (turn.budget.provider_rounds + 1) as usize,
                        },
                        ..turn
                    },
                })
            }
            &&& turn.budget.provider_rounds >= 24 ==> {
                &&& step.1 == AgentEffectView::Journal(
                    EntryView::TurnCommitted(
                        TurnCommittedView {
                            outcome: CommitOutcomeView::Paused { reason },
                            turn_id: turn.id,
                        },
                    ),
                )
                &&& next.1 == AgentEffectView::Emit(
                    AgentEventView::TurnComplete { outcome: TurnOutcomeView::Paused { reason } },
                )
                &&& last.1 == AgentEffectView::AwaitInput
                &&& last.0 == (SessionView { phase: PhaseView::Idle, ..session })
            }
        }),
{
    let step = react(session, stimulus, fresh);
    let next = carried_on(step, fresh);
    assert(next.0.phase is Performing ==> next.0.phase->Performing_queue =~= Seq::empty());
}

/// A tool is started: the journal and the frontend are told, in this order, before it runs.
pub open spec fn starts(
    session: SessionView,
    call: ActiveCallView,
    authorization: AuthorizationView,
    step: Step,
    fresh: FreshIds,
) -> bool {
    let told = carried_on(step, fresh);
    let running = carried_on(told, fresh);
    &&& step.1 == AgentEffectView::Journal(
        EntryView::ToolStarted(
            ToolStartedView {
                authorization,
                execution: None,
                tool_call_id: call.id,
                tool_name: call.name,
                turn_id: call.calls.turn.id,
            },
        ),
    )
    &&& told.1 == AgentEffectView::Emit(
        AgentEventView::ToolStarted { input: call.input, name: call.name },
    )
    &&& running.1 == AgentEffectView::ExecuteTool
    &&& running.0 == (SessionView { phase: PhaseView::Executing { call }, ..session })
}

/// A tool that needs no approval starts at once.
pub proof fn free_tools_start(
    session: SessionView,
    available_lifetimes: Vec<ApprovalLifetime>,
    fresh: FreshIds,
    later: FreshIds,
)
    requires
        session.phase is Preparing,
    ensures
        ({
            let requirement = ApprovalRequirement::NotRequired;
            starts(
                session,
                session.phase->Preparing_call,
                AuthorizationView::NotRequired,
                react(session, AgentStimulus::Prepared { available_lifetimes, requirement }, fresh),
                later,
            )
        }),
{
    let requirement = ApprovalRequirement::NotRequired;
    let step = react(session, AgentStimulus::Prepared { available_lifetimes, requirement }, fresh);
    let told = carried_on(step, later);
    assert(told.0.phase->Performing_queue =~= Seq::empty());
}

/// The grant is for this tool, and for this call unless it lasts longer.
pub open spec fn is_for(grant: ApprovalGrantView, call: ActiveCallView) -> bool {
    &&& grant.matcher == (ApprovalMatcherView::Tool { tool_name: call.name })
    &&& grant.scope matches ApprovalScopeView::Invocation { tool_call_id, tool_name }
        ==> tool_call_id == call.id && tool_name == call.name
}

pub open spec fn lifetime_of(scope: ApprovalScopeView) -> ApprovalLifetime {
    match scope {
        ApprovalScopeView::Invocation { .. } => ApprovalLifetime::Invocation,
        ApprovalScopeView::Run => ApprovalLifetime::Run,
        ApprovalScopeView::Workspace => ApprovalLifetime::Workspace,
    }
}

/// A tool that needs approval and has none is asked about: the request is written down first, and
/// names the call, its tool and the lifetimes on offer.
pub proof fn other_tools_are_asked_about(
    session: SessionView,
    available_lifetimes: Vec<ApprovalLifetime>,
    fresh: FreshIds,
    later: FreshIds,
)
    requires
        session.phase is Preparing,
        forall|i: int|
            0 <= i < session.retained.len() ==> !((#[trigger] session.retained[i])
                matches ApprovalAuthorizationView::Granted { grant, .. } && is_for(
                grant,
                session.phase->Preparing_call,
            )),
        user_granted(session.retained),
    ensures
        ({
            let call = session.phase->Preparing_call;
            let requirement = ApprovalRequirement::Required;
            let stimulus = AgentStimulus::Prepared { available_lifetimes, requirement };
            let noted = react(session, stimulus, fresh);
            let asked = carried_on(noted, later);
            let subject = ApprovalSubjectView::ToolCall {
                tool_call_id: call.id,
                tool_name: call.name,
            };
            &&& noted.1 == AgentEffectView::Journal(
                EntryView::ApprovalRequested(
                    ApprovalRequestedView {
                        approval_id: fresh.approval,
                        available_lifetimes: available_lifetimes@,
                        subject,
                        turn_id: call.calls.turn.id,
                    },
                ),
            )
            &&& asked.1 == AgentEffectView::RequestApproval {
                available_lifetimes: available_lifetimes@,
                input: call.input,
                subject,
            }
            &&& asked.0 == (SessionView {
                phase: PhaseView::Deciding {
                    approval_id: fresh.approval,
                    available_lifetimes: available_lifetimes@,
                    call,
                },
                ..session
            })
        }),
{
    let call = session.phase->Preparing_call;
    authorization_needs_a_covering_grant(session.retained, call.subject());
    assert forall|i: int| 0 <= i < session.retained.len() implies !(
    #[trigger] session.retained[i]).covers(call.subject()) by {}
}

/// A tool that was granted for longer than one call starts without another question, on the first
/// grant that is for it.
pub proof fn granted_tools_start(
    session: SessionView,
    available_lifetimes: Vec<ApprovalLifetime>,
    fresh: FreshIds,
    later: FreshIds,
    at: int,
)
    requires
        session.phase is Preparing,
        user_granted(session.retained),
        0 <= at < session.retained.len(),
        is_for(session.retained[at]->Granted_grant, session.phase->Preparing_call),
        forall|i: int|
            0 <= i < at ==> !is_for(
                (#[trigger] session.retained[i])->Granted_grant,
                session.phase->Preparing_call,
            ),
    ensures
        ({
            let requirement = ApprovalRequirement::Required;
            starts(
                session,
                session.phase->Preparing_call,
                AuthorizationView::Granted {
                    approval_id: session.retained[at]->Granted_approval_id,
                    grant: session.retained[at]->Granted_grant,
                },
                react(session, AgentStimulus::Prepared { available_lifetimes, requirement }, fresh),
                later,
            )
        }),
{
    let call = session.phase->Preparing_call;
    assert(session.retained[at] is Granted);
    lemma_first_covering_at(session.retained, call, at);
    let requirement = ApprovalRequirement::Required;
    let step = react(session, AgentStimulus::Prepared { available_lifetimes, requirement }, fresh);
    let told = carried_on(step, later);
    assert(told.0.phase->Performing_queue =~= Seq::empty());
}

proof fn lemma_first_covering_at(
    retained: Seq<ApprovalAuthorizationView>,
    call: ActiveCallView,
    at: int,
)
    requires
        user_granted(retained),
        0 <= at < retained.len(),
        is_for(retained[at]->Granted_grant, call),
        forall|i: int| 0 <= i < at ==> !is_for((#[trigger] retained[i])->Granted_grant, call),
    ensures
        first_covering(retained, call.subject()) == Some(retained[at]),
    decreases retained.len(),
{
    let before = retained.drop_last();
    assert(retained[at] is Granted);
    assert forall|i: int| 0 <= i < before.len() implies (#[trigger] before[i]) is Granted by {
        assert(before[i] == retained[i]);
    }
    if at < before.len() {
        assert forall|i: int| 0 <= i < at implies !is_for(
            (#[trigger] before[i])->Granted_grant,
            call,
        ) by {
            assert(before[i] == retained[i]);
        }
        assert(before[at] == retained[at]);
        lemma_first_covering_at(before, call, at);
    } else {
        authorization_needs_a_covering_grant(before, call.subject());
        assert forall|i: int| 0 <= i < before.len() implies !(#[trigger] before[i]).covers(
            call.subject(),
        ) by {
            assert(before[i] == retained[i]);
            assert(retained[i] is Granted);
        }
    }
}

/// A tool that cannot be prepared is turned down, with the words of what went wrong.
pub proof fn unprepared_tools_are_turned_down(session: SessionView, error: String, fresh: FreshIds)
    requires
        session.phase is Preparing,
    ensures
        ({
            let call = session.phase->Preparing_call;
            turns_down(
                session,
                call.calls,
                call.id,
                call.name,
                "preparation_failed"@,
                error@,
                react(session, AgentStimulus::NotPrepared { error }, fresh),
            )
        }),
{
}

/// The stimulus with which the user grants.
pub open spec fn granting(grant: ApprovalGrant) -> AgentStimulus {
    AgentStimulus::Replied(ApprovalReply::Decided(ApprovalDecision::Grant(grant)))
}

/// A grant of the user that is for the call and was on offer is written down and starts the tool.
/// It is kept for later calls exactly where it lasts longer than this one.
pub proof fn grants_start_the_tool(
    session: SessionView,
    grant: ApprovalGrant,
    fresh: FreshIds,
    later: FreshIds,
)
    requires
        session.phase is Deciding,
        is_for(grant@, session.phase->Deciding_call),
        session.phase->Deciding_available_lifetimes.contains(lifetime_of(grant@.scope)),
    ensures
        ({
            let call = session.phase->Deciding_call;
            let approval_id = session.phase->Deciding_approval_id;
            let decided = react(session, granting(grant), fresh);
            let authorization = ApprovalAuthorizationView::Granted { approval_id, grant: grant@ };
            let retained = if grant@.scope is Invocation {
                session.retained
            } else {
                session.retained.push(authorization)
            };
            &&& decided.1 == AgentEffectView::Journal(
                EntryView::ApprovalDecided(
                    ApprovalDecidedView {
                        approval_id,
                        decision: DecisionView::Grant { grant: grant@ },
                    },
                ),
            )
            &&& starts(
                SessionView { retained, ..session },
                call,
                AuthorizationView::Granted { approval_id, grant: grant@ },
                carried_on(decided, later),
                later,
            )
        }),
{
    let decided = react(session, granting(grant), fresh);
    let started = carried_on(decided, later);
    let told = carried_on(started, later);
    assert(told.0.phase->Performing_queue =~= Seq::empty());
}

/// A grant that was not on offer, or is not for the call, starts nothing and is kept nowhere.
pub proof fn other_grants_are_refused(session: SessionView, grant: ApprovalGrant, fresh: FreshIds)
    requires
        session.phase is Deciding,
        !is_for(grant@, session.phase->Deciding_call)
            || !session.phase->Deciding_available_lifetimes.contains(lifetime_of(grant@.scope)),
    ensures
        ({
            let call = session.phase->Deciding_call;
            turns_down(
                session,
                call.calls,
                call.id,
                call.name,
                "invalid_approval_grant"@,
                if session.phase->Deciding_available_lifetimes.contains(lifetime_of(grant@.scope)) {
                    "approval grant does not authorize the requested subject"@
                } else {
                    "approval grant uses a lifetime that was not offered"@
                },
                react(session, granting(grant), fresh),
            )
        }),
{
}

/// A call that the user denies is turned down in the journal and towards the frontend, with the
/// user's reason, and the model is told in words that are no error. Nothing is kept of it.
pub proof fn denials_reach_the_model(
    session: SessionView,
    reason: String,
    fresh: FreshIds,
    later: FreshIds,
)
    requires
        session.phase is Deciding,
    ensures
        ({
            let call = session.phase->Deciding_call;
            let decision = ApprovalDecision::Deny { reason };
            let decided = react(
                session,
                AgentStimulus::Replied(ApprovalReply::Decided(decision)),
                fresh,
            );
            let rejected = carried_on(decided, later);
            let told = carried_on(rejected, later);
            &&& decided.1 == AgentEffectView::Journal(
                EntryView::ApprovalDecided(
                    ApprovalDecidedView {
                        approval_id: session.phase->Deciding_approval_id,
                        decision: DecisionView::Deny { reason: reason@ },
                    },
                ),
            )
            &&& rejected.1 == AgentEffectView::Journal(
                EntryView::ToolRejected(
                    ToolRejectedView {
                        error_category: "approval_denied"@,
                        tool_call_id: call.id,
                        tool_name: call.name,
                        turn_id: call.calls.turn.id,
                    },
                ),
            )
            &&& told.1 == AgentEffectView::Emit(
                AgentEventView::ToolDenied { name: call.name, reason: reason@ },
            )
            &&& told.0 == (SessionView {
                phase: PhaseView::Performing {
                    next: ResumptionView::Resolve {
                        calls: call.calls,
                        result: ToolResultView {
                            tool_use_id: call.id,
                            is_error: false,
                            content: if trimmed_text(reason@).len() == 0 {
                                "The user declined this tool call. Do not assume the tool ran. Continue without it or ask the user what they prefer."@
                            } else {
                                "The user declined this tool call and said: \""@ + reason@
                                    + "\". Do not assume the tool ran. Address their feedback, then retry if appropriate."@
                            },
                        },
                    },
                    queue: Seq::empty(),
                },
                ..session
            })
        }),
{
    let call = session.phase->Deciding_call;
    let decision = ApprovalDecision::Deny { reason };
    let decided = react(session, AgentStimulus::Replied(ApprovalReply::Decided(decision)), fresh);
    let rejected = carried_on(decided, later);
    let told = carried_on(rejected, later);
    assert(told.0.phase->Performing_queue =~= Seq::empty());
}

/// What a tool gave back, or its error, is written down, shown, and becomes the result of its call
/// under the call's own identifier.
pub proof fn outputs_become_results(
    session: SessionView,
    duration_ms: u64,
    result: Result<String, ToolExecutionError>,
    fresh: FreshIds,
    later: FreshIds,
)
    requires
        session.phase is Executing,
        result is Ok || result->Err_0 is ToolError,
    ensures
        ({
            let call = session.phase->Executing_call;
            let ended = react(session, AgentStimulus::Executed { duration_ms, result }, fresh);
            let told = carried_on(ended, later);
            let turn_id = call.calls.turn.id;
            let is_error = result is Err;
            let output = match result {
                Ok(output) => output@,
                Err(error) => error->ToolError_0@,
            };
            &&& result is Ok ==> ended.1 == AgentEffectView::Journal(
                EntryView::ToolCompleted(
                    ToolCompletedView {
                        duration_ms,
                        execution: None,
                        tool_call_id: call.id,
                        turn_id,
                    },
                ),
            )
            &&& result is Err ==> ended.1 == AgentEffectView::Journal(
                EntryView::ToolFailed(
                    ToolFailedView {
                        duration_ms,
                        error_category: "tool_error"@,
                        tool_call_id: call.id,
                        turn_id,
                    },
                ),
            )
            &&& told.1 == AgentEffectView::Emit(
                AgentEventView::ToolFinished { is_error, name: call.name, output },
            )
            &&& told.0 == (SessionView {
                phase: PhaseView::Performing {
                    next: ResumptionView::Resolve {
                        calls: call.calls,
                        result: ToolResultView {
                            tool_use_id: call.id,
                            is_error,
                            content: output,
                        },
                    },
                    queue: Seq::empty(),
                },
                ..session
            })
        }),
{
    let ended = react(session, AgentStimulus::Executed { duration_ms, result }, fresh);
    let told = carried_on(ended, later);
    assert(told.0.phase->Performing_queue =~= Seq::empty());
}

/// The turn is given up because the run was cancelled: it is aborted in the journal, its messages
/// leave the history, the frontend is told, and the run ends.
pub open spec fn gives_up(session: SessionView, turn: ActiveTurn, step: Step, fresh: FreshIds) -> bool {
    let told = carried_on(step, fresh);
    let ended = carried_on(told, fresh);
    let finished = carried_on(ended, fresh);
    &&& step.1 == AgentEffectView::Journal(
        EntryView::TurnAborted(
            TurnAbortedView { outcome: AbortOutcomeView::Cancelled, turn_id: turn.id },
        ),
    )
    &&& told.1 == AgentEffectView::EmitLast(
        AgentEventView::TurnComplete { outcome: TurnOutcomeView::Cancelled },
    )
    &&& ended.1 == AgentEffectView::Journal(
        EntryView::RunEnded(
            RunEnded {
                reason: RunEndReason::ActiveTurnCancelled,
                run_id: session.journal.run_id,
            },
        ),
    )
    &&& finished.1 == AgentEffectView::Finish(Some(AgentExitView::Cancelled))
    &&& finished.0 == (SessionView {
        history: session.history.take(turn.start as int),
        phase: PhaseView::Stopped,
        ..session
    })
}

/// The turn is broken off because the frontend went away: it is aborted in the journal as a
/// failure of that kind, its messages leave the history, and the run ends.
pub open spec fn breaks_off(
    session: SessionView,
    turn: ActiveTurn,
    step: Step,
    fresh: FreshIds,
) -> bool {
    let ended = carried_on(step, fresh);
    let finished = carried_on(ended, fresh);
    &&& step.1 == AgentEffectView::Journal(
        EntryView::TurnAborted(
            TurnAbortedView {
                outcome: AbortOutcomeView::Failed {
                    error: Some(
                        ErrorView {
                            category: "frontend_disconnected"@,
                            message: "frontend disconnected during the active turn"@,
                        },
                    ),
                },
                turn_id: turn.id,
            },
        ),
    )
    &&& ended.1 == AgentEffectView::Journal(
        EntryView::RunEnded(
            RunEnded {
                reason: RunEndReason::FrontendDisconnected,
                run_id: session.journal.run_id,
            },
        ),
    )
    &&& finished.1 == AgentEffectView::Finish(Some(AgentExitView::Disconnected))
    &&& finished.0 == (SessionView {
        history: session.history.take(turn.start as int),
        phase: PhaseView::Stopped,
        ..session
    })
}

/// A tool that was stopped is written down as cancelled, and its turn is given up or broken off.
pub proof fn stopped_tools_end_the_run(
    session: SessionView,
    stimulus: AgentStimulus,
    fresh: FreshIds,
    later: FreshIds,
)
    requires
        session.phase is Executing,
        session.phase->Executing_call.calls.turn.start <= session.history.len(),
        stimulus is Interrupted || (stimulus is Executed && stimulus->result is Err
            && stimulus->result->Err_0 is Cancelled),
    ensures
        ({
            let call = session.phase->Executing_call;
            let turn = call.calls.turn;
            let cancelled = react(session, stimulus, fresh);
            let left = carried_on(cancelled, later);
            let duration_ms = match stimulus {
                AgentStimulus::Interrupted { duration_ms, .. } => duration_ms,
                AgentStimulus::Executed { duration_ms, .. } => duration_ms,
                _ => 0,
            };
            &&& cancelled.1 == AgentEffectView::Journal(
                EntryView::ToolCancelled(
                    ToolCancelledView { duration_ms, tool_call_id: call.id, turn_id: turn.id },
                ),
            )
            &&& if stimulus is Interrupted && stimulus->disconnected {
                breaks_off(session, turn, left, later)
            } else {
                gives_up(session, turn, left, later)
            }
        }),
{
    let call = session.phase->Executing_call;
    let cancelled = react(session, stimulus, fresh);
    let left = carried_on(cancelled, later);
    let told = carried_on(left, later);
    assert(told.0.phase is Performing ==> told.0.phase->Performing_queue =~= Seq::empty());
}

/// A wait for a decision that ends without one gives the turn up or breaks it off.
pub proof fn unanswered_requests_end_the_run(
    session: SessionView,
    reply: ApprovalReply,
    fresh: FreshIds,
    later: FreshIds,
)
    requires
        session.phase is Deciding,
        session.phase->Deciding_call.calls.turn.start <= session.history.len(),
        !(reply is Decided),
    ensures
        ({
            let turn = session.phase->Deciding_call.calls.turn;
            let left = react(session, AgentStimulus::Replied(reply), fresh);
            if reply is Cancelled {
                gives_up(session, turn, left, later)
            } else {
                breaks_off(session, turn, left, later)
            }
        }),
{
    let left = react(session, AgentStimulus::Replied(reply), fresh);
    let told = carried_on(left, later);
    assert(told.0.phase is Performing ==> told.0.phase->Performing_queue =~= Seq::empty());
}

/// A frontend that goes away while the model speaks, or while something is being done for a turn,
/// breaks the turn off.
pub proof fn lost_frontends_end_the_run(
    session: SessionView,
    turn: ActiveTurn,
    fresh: FreshIds,
    later: FreshIds,
)
    requires
        going_on(session.phase) == Some(turn),
        expects(session.phase, AgentStimulus::FrontendClosed),
        turn.start <= session.history.len(),
    ensures
        breaks_off(session, turn, react(session, AgentStimulus::FrontendClosed, fresh), later),
{
}

/// A round that fails is written down with the kind and the words of the failure, which are shown.
/// The turn is aborted without an error of its own, its messages leave the history, and the agent
/// waits for input.
pub proof fn failed_rounds_abort_the_turn(
    session: SessionView,
    error: ProviderError,
    latency_ms: u64,
    fresh: FreshIds,
    later: FreshIds,
)
    requires
        session.phase is Streaming,
        session.phase->Streaming_turn.start <= session.history.len(),
        error.kind != ProviderErrorKind::Cancelled,
    ensures
        ({
            let turn = session.phase->Streaming_turn;
            let failed = react(session, AgentStimulus::StreamFailed { error, latency_ms }, fresh);
            let shown = carried_on(failed, later);
            let aborted = carried_on(shown, later);
            let told = carried_on(aborted, later);
            let waiting = carried_on(told, later);
            let category = match error.kind {
                ProviderErrorKind::Api => "api"@,
                ProviderErrorKind::Cancelled => "cancelled"@,
                ProviderErrorKind::InvalidBaseUrl => "invalid_base_url"@,
                ProviderErrorKind::Network => "network"@,
                ProviderErrorKind::Parsing => "parsing"@,
                ProviderErrorKind::Protocol => "protocol"@,
            };
            &&& failed.1 == AgentEffectView::Journal(
                EntryView::ProviderRoundFailed(
                    ProviderRoundFailedView {
                        error: ErrorView { category, message: error.message@ },
                        latency_ms,
                        provider_round_id: session.phase->Streaming_round,
                        request_id: None,
                        run_id: session.journal.run_id,
                        turn_id: turn.id,
                    },
                ),
            )
            &&& shown.1 == AgentEffectView::Emit(AgentEventView::Error(error.message@))
            &&& aborted.1 == AgentEffectView::Journal(
                EntryView::TurnAborted(
                    TurnAbortedView {
                        outcome: AbortOutcomeView::Failed { error: None },
                        turn_id: turn.id,
                    },
                ),
            )
            &&& told.1 == AgentEffectView::Emit(
                AgentEventView::TurnComplete { outcome: TurnOutcomeView::Failed },
            )
            &&& waiting.1 == AgentEffectView::AwaitInput
            &&& waiting.0 == (SessionView {
                history: session.history.take(turn.start as int),
                phase: PhaseView::Idle,
                ..session
            })
        }),
{
    let failed = react(session, AgentStimulus::StreamFailed { error, latency_ms }, fresh);
    let shown = carried_on(failed, later);
    assert(shown.0.phase->Performing_queue =~= Seq::empty());
    let aborted = carried_on(shown, later);
    let told = carried_on(aborted, later);
    assert(told.0.phase->Performing_queue =~= Seq::empty());
}

/// A round that is cancelled is written down as such, and its turn is given up.
pub proof fn cancelled_rounds_end_the_run(
    session: SessionView,
    error: ProviderError,
    latency_ms: u64,
    fresh: FreshIds,
    later: FreshIds,
)
    requires
        session.phase is Streaming,
        session.phase->Streaming_turn.start <= session.history.len(),
        error.kind == ProviderErrorKind::Cancelled,
    ensures
        ({
            let turn = session.phase->Streaming_turn;
            let failed = react(session, AgentStimulus::StreamFailed { error, latency_ms }, fresh);
            let shown = carried_on(failed, later);
            &&& failed.1 == AgentEffectView::Journal(
                EntryView::ProviderRoundCancelled(
                    ProviderRoundCancelledView {
                        latency_ms,
                        provider_round_id: session.phase->Streaming_round,
                        run_id: session.journal.run_id,
                        turn_id: turn.id,
                    },
                ),
            )
            &&& shown.1 == AgentEffectView::Emit(AgentEventView::Error(error.message@))
            &&& gives_up(session, turn, carried_on(shown, later), later)
        }),
{
    let failed = react(session, AgentStimulus::StreamFailed { error, latency_ms }, fresh);
    let shown = carried_on(failed, later);
    assert(shown.0.phase->Performing_queue =~= Seq::empty());
    let left = carried_on(shown, later);
    let told = carried_on(left, later);
    assert(told.0.phase->Performing_queue =~= Seq::empty());
}

/// What is queued is done in order, one thing after the other, and nothing else changes meanwhile.
pub proof fn queues_are_worked_off(session: SessionView, stimulus: AgentStimulus, fresh: FreshIds)
    requires
        session.phase is Performing,
        session.phase->Performing_queue.len() > 0,
        stimulus is Journaled || stimulus is Emitted,
    ensures
        ({
            let step = react(session, stimulus, fresh);
            let queue = session.phase->Performing_queue;
            &&& step.1 == queue.first()
            &&& step.0.phase is Performing
            &&& step.0.phase->Performing_next == session.phase->Performing_next
            &&& step.0.phase->Performing_queue.len() == queue.len() - 1
            &&& forall|i: int|
                0 <= i < queue.len() - 1 ==> step.0.phase->Performing_queue[i] == queue[i + 1]
            &&& step.0.history == session.history
            &&& step.0.retained == session.retained
        }),
{
}

/// Nothing that the agent hears changes which journal it writes to or which run it is in.
pub proof fn runs_keep_their_journal(session: SessionView, stimulus: AgentStimulus, fresh: FreshIds)
    ensures
        react(session, stimulus, fresh).0.journal == session.journal,
{
}

} // verus!
