//! What holds of every run of the agent: the journal it writes can be read back, and says what
//! the agent remembers.
use crate::agent::model::{
    answer_calls, apply_decision, begin_turn, end_run, expects, finish_turn, keep_answer,
    last_content, leave_turn, next_call, next_use, open_turn, react, react_executing, react_idle,
    react_performing, react_preparing, react_streaming, reject_call, remembering, resume,
    start_round, start_tool, take_answer, SessionView,
};
use crate::agent::rules::{
    answer_fault, denial_text, invalid_input_text, pause_text, recorded_authorization,
    TurnResultView, MAX_PROVIDER_ROUNDS_PER_TURN,
};
use crate::agent::state::{
    ActiveCallView, ActiveTurn, AgentEffectView, AgentStimulus, FreshIds, PendingCallsView,
    PhaseView, ResumptionView,
};
use crate::approval::{
    first_covering, gate_check, gate_outcome, ApprovalAuthorizationView, ApprovalCheckView,
    ApprovalDecisionView, ApprovalReply,
};
use crate::journal::id::{ApprovalId, ProviderRoundId};
use crate::journal::lifecycle::{
    asks_for_tools, assistant_fault, authorization_fault, commit_fault, is_call, is_result_of,
    lemma_requested, requested_calls, results_fault, step, with_results, ApprovalModel, Progress,
    ToolCallModel, ToolState, TurnModel,
};
use crate::journal::schema::RunEndReason;
use crate::journal::view::{AuthorizationView, CommitOutcomeView, EntryView};
use crate::message::{
    ContentBlockView, MessageView, Role, StopReasonView, ToolInputView, ToolResultView,
};
use crate::protocol::{
    AgentCommand, AgentEventView, AgentExitView, ApprovalDecision, ApprovalLifetime,
    ApprovalMatcherView, ApprovalSubjectView, ShutdownReason,
};
use vstd::prelude::*;

verus! {

/// Every authorization that the agent retains is one that the journal knows for the whole run.
pub open spec fn approvals_kept(
    retained: Seq<ApprovalAuthorizationView>,
    run_approvals: Map<ApprovalId, Seq<char>>,
) -> bool {
    forall|i: int|
        0 <= i < retained.len() ==> approval_kept(#[trigger] retained[i], run_approvals)
}

pub open spec fn approval_kept(
    authorization: ApprovalAuthorizationView,
    run_approvals: Map<ApprovalId, Seq<char>>,
) -> bool {
    match authorization {
        ApprovalAuthorizationView::Granted { approval_id, grant } => {
            &&& grant.scope.lasts() != ApprovalLifetime::Invocation
            &&& run_approvals.contains_key(approval_id)
            &&& grant.matcher == ApprovalMatcherView::Tool {
                tool_name: run_approvals[approval_id],
            }
        },
        _ => false,
    }
}

/// The journal is in the agent's run.
pub open spec fn in_run(session: SessionView, progress: Progress) -> bool {
    &&& progress.run is Some
    &&& progress.run->0.id == session.journal.run_id
    &&& approvals_kept(session.retained, progress.run->0.run_approvals)
}

pub open spec fn between_turns(session: SessionView, progress: Progress) -> bool {
    &&& in_run(session, progress)
    &&& progress.run->0.turn is None
}

/// The journal is in the agent's turn, and the history before it is what was committed.
pub open spec fn in_turn(session: SessionView, turn: ActiveTurn, progress: Progress) -> bool {
    &&& in_run(session, progress)
    &&& progress.run->0.turn is Some
    &&& progress.run->0.turn->0.id == turn.id
    &&& turn.start == progress.messages.len()
    &&& turn.start <= session.history.len()
    &&& session.history.take(turn.start as int) == progress.messages
}

pub open spec fn turn_of(progress: Progress) -> TurnModel {
    progress.run->0.turn->0
}

/// No approval of the turn waits for its decision.
pub open spec fn settled(turn: TurnModel) -> bool {
    forall|id: ApprovalId| #[trigger]
        turn.approvals.contains_key(id) ==> turn.approvals[id].decision is Some
}

pub open spec fn no_calls(turn: TurnModel) -> bool {
    turn.tool_calls == Map::<Seq<char>, ToolCallModel>::empty()
}

/// The journal and the agent hold the same conversation.
pub open spec fn agreed(history: Seq<MessageView>, progress: Progress) -> bool {
    history == progress.messages + turn_of(progress).messages
}

/// The turn has nothing open and waits for the model to speak.
pub open spec fn before_round(turn: TurnModel) -> bool {
    &&& turn.provider_round is None
    &&& turn.awaiting_assistant is None
    &&& no_calls(turn)
    &&& settled(turn)
    &&& turn.messages.len() > 0
    &&& turn.messages.last().role == Role::User
}

pub open spec fn during_round(turn: TurnModel, round: ProviderRoundId) -> bool {
    &&& turn.provider_round == Some(round)
    &&& turn.awaiting_assistant is None
    &&& no_calls(turn)
    &&& settled(turn)
}

pub open spec fn after_round(turn: TurnModel, stop_reason: StopReasonView) -> bool {
    &&& turn.provider_round is None
    &&& turn.awaiting_assistant == Some(stop_reason)
    &&& no_calls(turn)
    &&& settled(turn)
}

/// The identifiers of the calls that blocks ask for, in order.
pub open spec fn call_ids(content: Seq<ContentBlockView>) -> Seq<Seq<char>>
    decreases content.len(),
{
    if content.len() == 0 {
        Seq::empty()
    } else {
        let before = call_ids(content.drop_last());
        if content.last() is ToolUse {
            before.push(content.last()->ToolUse_id)
        } else {
            before
        }
    }
}

/// The results are those of the calls `ids`, in order.
pub open spec fn results_of(results: Seq<ContentBlockView>, ids: Seq<Seq<char>>) -> bool {
    &&& results.len() == ids.len()
    &&& forall|i: int| 0 <= i < ids.len() ==> is_result_of(#[trigger] results[i], ids[i])
}

/// How far the call in block `at` has come, where the block `current` is being dealt with.
pub open spec fn call_state(at: int, current: int, state: ToolState) -> ToolState {
    if at < current {
        ToolState::Terminal
    } else if at == current {
        state
    } else {
        ToolState::Pending
    }
}

/// The journal knows the calls of the last answer: those before the block `current` have come to
/// their end, and those after it are pending.
pub open spec fn calls_known(
    calls: Map<Seq<char>, ToolCallModel>,
    content: Seq<ContentBlockView>,
    current: int,
    state: ToolState,
) -> bool {
    &&& calls.dom() == requested_calls(content).dom()
    &&& forall|i: int|
        0 <= i < content.len() && (#[trigger] content[i]) is ToolUse
            ==> calls[content[i]->ToolUse_id] == (ToolCallModel {
            name: content[i]->ToolUse_name,
            state: call_state(i, current, state),
        })
}

/// The calls of the last answer are being dealt with.
pub open spec fn calls_open(
    session: SessionView,
    turn: ActiveTurn,
    progress: Progress,
    current: int,
    state: ToolState,
) -> bool {
    let content = last_content(session.history);
    &&& in_turn(session, turn, progress)
    &&& agreed(session.history, progress)
    &&& turn_of(progress).messages.len() > 0
    &&& turn_of(progress).provider_round is None
    &&& turn_of(progress).awaiting_assistant is None
    &&& content.len() <= usize::MAX
    &&& 0 <= current
    &&& assistant_fault(content) is None
    &&& asks_for_tools(content)
    &&& calls_known(turn_of(progress).tool_calls, content, current, state)
}

/// The calls up to the block `calls.at` have their results, and no more.
pub open spec fn calls_ready(
    session: SessionView,
    calls: PendingCallsView,
    progress: Progress,
) -> bool {
    let content = last_content(session.history);
    &&& calls_open(session, calls.turn, progress, calls.at as int, ToolState::Pending)
    &&& settled(turn_of(progress))
    &&& calls.at <= content.len()
    &&& results_of(calls.results, call_ids(content.take(calls.at as int)))
}

/// The call before the block `calls.at` is being dealt with.
pub open spec fn call_ready(
    session: SessionView,
    calls: PendingCallsView,
    id: Seq<char>,
    name: Seq<char>,
    progress: Progress,
    state: ToolState,
) -> bool {
    let content = last_content(session.history);
    let current = calls.at - 1;
    &&& calls_open(session, calls.turn, progress, current, state)
    &&& current < content.len()
    &&& content[current] is ToolUse
    &&& content[current]->ToolUse_id == id
    &&& content[current]->ToolUse_name == name
    &&& results_of(calls.results, call_ids(content.take(current)))
}

/// One approval of the turn waits for its decision.
pub open spec fn asking(
    turn: TurnModel,
    run_approvals: Map<ApprovalId, Seq<char>>,
    approval_id: ApprovalId,
    id: Seq<char>,
    name: Seq<char>,
) -> bool {
    &&& turn.approvals.contains_key(approval_id)
    &&& turn.approvals[approval_id] == (ApprovalModel {
        decision: None,
        tool_call_id: id,
        tool_name: name,
    })
    &&& !run_approvals.contains_key(approval_id)
    &&& forall|other: ApprovalId| #[trigger]
        turn.approvals.contains_key(other) && other != approval_id
            ==> turn.approvals[other].decision is Some
}

pub open spec fn may_start(
    progress: Progress,
    authorization: AuthorizationView,
    id: Seq<char>,
    name: Seq<char>,
) -> bool {
    authorization_fault(
        progress.run->0.run_approvals,
        turn_of(progress).approvals,
        authorization,
        id,
        name,
    ) is None
}

/// The journal is where the agent can go on with `next`.
pub open spec fn ready(session: SessionView, next: ResumptionView, progress: Progress) -> bool {
    match next {
        ResumptionView::StartRound { turn } => {
            &&& in_turn(session, turn, progress)
            &&& agreed(session.history, progress)
            &&& before_round(turn_of(progress))
        },
        ResumptionView::Stream { round, turn } => {
            &&& in_turn(session, turn, progress)
            &&& agreed(session.history, progress)
            &&& during_round(turn_of(progress), round)
        },
        ResumptionView::TakeAnswer { message, stop_reason, turn } => {
            &&& in_turn(session, turn, progress)
            &&& agreed(session.history, progress)
            &&& after_round(turn_of(progress), stop_reason)
            &&& message.role == Role::Assistant
            &&& message.content.len() <= usize::MAX
        },
        ResumptionView::KeepAnswer { message, stop_reason, turn } => {
            &&& in_turn(session, turn, progress)
            &&& agreed(session.history.push(message), progress)
            &&& turn_of(progress).messages.len() > 0
            &&& turn_of(progress).provider_round is None
            &&& turn_of(progress).awaiting_assistant is None
            &&& turn_of(progress).last_assistant_stop == Some(stop_reason)
            &&& turn_of(progress).tool_calls == requested_calls(message.content)
            &&& settled(turn_of(progress))
            &&& answer_fault(message.content, stop_reason) is None
            &&& message.content.len() <= usize::MAX
        },
        ResumptionView::AskDecision { approval_id, call, .. } => {
            &&& call_ready(
                session,
                call.calls,
                call.id,
                call.name,
                progress,
                ToolState::Pending,
            )
            &&& asking(
                turn_of(progress),
                progress.run->0.run_approvals,
                approval_id,
                call.id,
                call.name,
            )
        },
        ResumptionView::StartTool { authorization, call } => {
            &&& call_ready(
                session,
                call.calls,
                call.id,
                call.name,
                progress,
                ToolState::Pending,
            )
            &&& settled(turn_of(progress))
            &&& may_start(progress, authorization, call.id, call.name)
        },
        ResumptionView::Execute { call } => {
            &&& call_ready(
                session,
                call.calls,
                call.id,
                call.name,
                progress,
                ToolState::Started,
            )
            &&& settled(turn_of(progress))
        },
        ResumptionView::Resolve { calls, result } => {
            let content = last_content(session.history);
            &&& calls.at > 0
            &&& call_ready(
                session,
                calls,
                result.tool_use_id,
                content[calls.at - 1]->ToolUse_name,
                progress,
                ToolState::Terminal,
            )
            &&& settled(turn_of(progress))
        },
        ResumptionView::KeepResults { message, turn } => {
            &&& in_turn(session, turn, progress)
            &&& agreed(session.history.push(message), progress)
            &&& before_round(turn_of(progress))
        },
        ResumptionView::FinishTurn { result, turn } => {
            &&& in_turn(session, turn, progress)
            &&& result is Failed || result is Cancelled
        },
        ResumptionView::LeaveTurn { turn, .. } => in_turn(session, turn, progress),
        ResumptionView::AwaitInput => {
            &&& between_turns(session, progress)
            &&& session.history == progress.messages
        },
        ResumptionView::EndRun { .. } => between_turns(session, progress),
        ResumptionView::Stop { .. } => true,
    }
}

/// The journal is where the agent can break off, should the frontend go away now.
pub open spec fn can_leave(session: SessionView, next: ResumptionView, progress: Progress) -> bool {
    match open_turn(next) {
        Some(turn) => in_turn(session, turn, progress),
        None => between_turns(session, progress),
    }
}

/// The journal takes every entry among `effects`, one after the other, and the agent can go on
/// with `next` from there.
pub open spec fn goes_through(
    session: SessionView,
    next: ResumptionView,
    progress: Progress,
    effects: Seq<AgentEffectView>,
) -> bool
    decreases effects.len(),
{
    if effects.len() == 0 {
        ready(session, next, progress)
    } else {
        match effects[0] {
            AgentEffectView::Journal(entry) => step(progress, entry) is Ok && goes_through(
                session,
                next,
                step(progress, entry)->Ok_0,
                effects.skip(1),
            ),
            AgentEffectView::Emit(_) => can_leave(session, next, progress) && goes_through(
                session,
                next,
                progress,
                effects.skip(1),
            ),
            AgentEffectView::EmitLast(_) => goes_through(
                session,
                next,
                progress,
                effects.skip(1),
            ),
            _ => false,
        }
    }
}

/// The journal, as it stands before `effect` is performed, fits what the agent is doing.
pub open spec fn tracks(
    session: SessionView,
    effect: AgentEffectView,
    progress: Progress,
) -> bool {
    match session.phase {
        PhaseView::Idle => ready(session, ResumptionView::AwaitInput, progress),
        PhaseView::Performing { next, queue } => goes_through(
            session,
            next,
            progress,
            seq![effect] + queue,
        ),
        PhaseView::Streaming { round, turn } => ready(
            session,
            ResumptionView::Stream { round, turn },
            progress,
        ),
        PhaseView::Preparing { call } => {
            &&& call_ready(
                session,
                call.calls,
                call.id,
                call.name,
                progress,
                ToolState::Pending,
            )
            &&& settled(turn_of(progress))
        },
        PhaseView::Deciding { approval_id, available_lifetimes, call } => ready(
            session,
            ResumptionView::AskDecision { approval_id, available_lifetimes, call },
            progress,
        ),
        PhaseView::Executing { call } => ready(
            session,
            ResumptionView::Execute { call },
            progress,
        ),
        PhaseView::Stopped => true,
    }
}

/// A stimulus that can be the outcome of `effect`.
pub open spec fn fits(effect: AgentEffectView, stimulus: AgentStimulus) -> bool {
    match effect {
        AgentEffectView::Journal(_) => stimulus is Journaled || stimulus is JournalFailed,
        AgentEffectView::Emit(_) => stimulus is Emitted || stimulus is FrontendClosed,
        AgentEffectView::EmitLast(_) => stimulus is Emitted,
        _ => true,
    }
}

/// The journal after the effect.
pub open spec fn journal_after(
    progress: Progress,
    effect: AgentEffectView,
    stimulus: AgentStimulus,
) -> Progress {
    match effect {
        AgentEffectView::Journal(entry) => if stimulus is Journaled {
            step(progress, entry)->Ok_0
        } else {
            progress
        },
        _ => progress,
    }
}

/// The fresh identifiers are new to the journal.
pub open spec fn unused(progress: Progress, fresh: FreshIds) -> bool {
    progress.run is Some ==> {
        let run = progress.run->0;
        &&& !run.run_approvals.contains_key(fresh.approval)
        &&& run.turn is Some ==> !run.turn->0.provider_rounds.contains(fresh.round)
            && !run.turn->0.approvals.contains_key(fresh.approval)
    }
}

/// The model speaks as the assistant, and the user grants only what was asked for.
pub open spec fn well_behaved(session: SessionView, stimulus: AgentStimulus) -> bool {
    match stimulus {
        AgentStimulus::Streamed { answer, .. } => answer.message.role == Role::Assistant,
        AgentStimulus::Replied(ApprovalReply::Decided(decision)) => match session.phase {
            PhaseView::Deciding { approval_id, available_lifetimes, call } => !(gate_outcome(
                available_lifetimes,
                approval_id,
                decision@,
                call.subject(),
            ) is InvalidGrant),
            _ => true,
        },
        _ => true,
    }
}

/// What it takes for one effect and the rest to go through.
pub open spec fn one_goes_through(
    session: SessionView,
    next: ResumptionView,
    progress: Progress,
    first: AgentEffectView,
    rest: Seq<AgentEffectView>,
) -> bool {
    match first {
        AgentEffectView::Journal(entry) => step(progress, entry) is Ok && goes_through(
            session,
            next,
            step(progress, entry)->Ok_0,
            rest,
        ),
        AgentEffectView::Emit(_) => can_leave(session, next, progress) && goes_through(
            session,
            next,
            progress,
            rest,
        ),
        AgentEffectView::EmitLast(_) => goes_through(session, next, progress, rest),
        _ => false,
    }
}

proof fn lemma_first_goes_through(
    session: SessionView,
    next: ResumptionView,
    progress: Progress,
    first: AgentEffectView,
    rest: Seq<AgentEffectView>,
)
    ensures
        goes_through(session, next, progress, seq![first] + rest) == one_goes_through(
            session,
            next,
            progress,
            first,
            rest,
        ),
{
    let effects = seq![first] + rest;
    assert(effects.skip(1) =~= rest);
    assert(effects[0] == first);
}

/// One effect alone goes through.
proof fn lemma_one_goes_through(
    session: SessionView,
    next: ResumptionView,
    progress: Progress,
    only: AgentEffectView,
)
    ensures
        goes_through(session, next, progress, seq![only]) == one_goes_through(
            session,
            next,
            progress,
            only,
            Seq::empty(),
        ),
{
    assert(seq![only] + Seq::<AgentEffectView>::empty() =~= seq![only]);
    lemma_first_goes_through(session, next, progress, only, Seq::empty());
}

/// Closing a turn leaves the journal between turns, with the history that the agent keeps.
proof fn lemma_finish_turn(
    session: SessionView,
    turn: ActiveTurn,
    result: TurnResultView,
    progress: Progress,
)
    requires
        in_turn(session, turn, progress),
        result is Completed || result is Paused ==> {
            &&& agreed(session.history, progress)
            &&& commit_fault(
                turn_of(progress),
                match result {
                    TurnResultView::Completed { stop_reason } =>
                        CommitOutcomeView::Completed { stop_reason },
                    _ => CommitOutcomeView::Paused {
                        reason: result->Paused_reason,
                    },
                },
            ) is None
        },
    ensures
        ({
            let after = finish_turn(session, turn, result);
            tracks(after.0, after.1, progress)
        }),
{
    let after = finish_turn(session, turn, result);
    let next = after.0.phase->Performing_next;
    let queue = after.0.phase->Performing_queue;
    lemma_first_goes_through(after.0, next, progress, after.1, queue);
    let closed = step(progress, after.1->Journal_0)->Ok_0;
    lemma_one_goes_through(after.0, next, closed, queue[0]);
    assert(queue =~= seq![queue[0]]);
}

proof fn lemma_leave_turn(
    session: SessionView,
    turn: ActiveTurn,
    disconnected: bool,
    progress: Progress,
)
    requires
        in_turn(session, turn, progress),
    ensures
        ({
            let after = leave_turn(session, turn, disconnected);
            tracks(after.0, after.1, progress)
        }),
{
    if disconnected {
        let after = leave_turn(session, turn, disconnected);
        let next = after.0.phase->Performing_next;
        lemma_first_goes_through(after.0, next, progress, after.1, Seq::empty());
    } else {
        lemma_finish_turn(session, turn, TurnResultView::Cancelled, progress);
    }
}

proof fn lemma_start_round(
    session: SessionView,
    turn: ActiveTurn,
    fresh: FreshIds,
    progress: Progress,
)
    requires
        ready(session, ResumptionView::StartRound { turn }, progress),
        unused(progress, fresh),
    ensures
        ({
            let after = start_round(session, turn, fresh);
            tracks(after.0, after.1, progress)
        }),
{
    if turn.budget.provider_rounds >= MAX_PROVIDER_ROUNDS_PER_TURN {
        lemma_finish_turn(
            session,
            turn,
            TurnResultView::Paused { reason: pause_text() },
            progress,
        );
    } else {
        let after = start_round(session, turn, fresh);
        let next = after.0.phase->Performing_next;
        lemma_first_goes_through(after.0, next, progress, after.1, Seq::empty());
    }
}

/// The calls of an accepted answer have identifiers of their own.
proof fn lemma_calls_distinct(content: Seq<ContentBlockView>)
    requires
        assistant_fault(content) is None,
    ensures
        forall|i: int, j: int|
            0 <= i < j < content.len() && (#[trigger] content[i]) is ToolUse && (
            #[trigger] content[j]) is ToolUse ==> content[i]->ToolUse_id
                != content[j]->ToolUse_id,
        forall|i: int|
            0 <= i < content.len() && (#[trigger] content[i]) is ToolUse
                ==> requested_calls(content).contains_key(content[i]->ToolUse_id)
                && requested_calls(content)[content[i]->ToolUse_id] == (ToolCallModel {
                name: content[i]->ToolUse_name,
                state: ToolState::Pending,
            }),
        requested_calls(content).dom().finite(),
        requested_calls(content).dom().len() == call_ids(content).len(),
    decreases content.len(),
{
    if content.len() > 0 {
        let before = content.drop_last();
        lemma_calls_distinct(before);
        assert forall|i: int| 0 <= i < before.len() implies before[i] == #[trigger] content[i] by {
        }
        assert(content[content.len() - 1] == content.last());
        if content.last() is ToolUse {
            let id = content.last()->ToolUse_id;
            lemma_requested(before, id);
            assert forall|i: int| 0 <= i < before.len() && (#[trigger] content[i]) is ToolUse implies
                content[i]->ToolUse_id != id by {
                if content[i]->ToolUse_id == id {
                    assert(is_call(before[i], id));
                }
            }
            assert(requested_calls(content).dom() =~= requested_calls(before).dom().insert(id));
        }
    } else {
        assert(requested_calls(content).dom() =~= Set::<Seq<char>>::empty());
    }
}

/// The identifiers of a shorter run of blocks come first.
proof fn lemma_call_ids_take(content: Seq<ContentBlockView>, count: int)
    requires
        0 <= count < content.len(),
    ensures
        call_ids(content.take(count + 1)) == (if content[count] is ToolUse {
            call_ids(content.take(count)).push(content[count]->ToolUse_id)
        } else {
            call_ids(content.take(count))
        }),
{
    assert(content.take(count + 1).drop_last() =~= content.take(count));
}

/// Every identifier comes from a block.
proof fn lemma_call_ids_from(content: Seq<ContentBlockView>, at: int)
    requires
        0 <= at < call_ids(content).len(),
    ensures
        exists|i: int| 0 <= i < content.len() && is_call(#[trigger] content[i], call_ids(content)[at]),
    decreases content.len(),
{
    if content.len() > 0 {
        let before = content.drop_last();
        if at < call_ids(before).len() {
            lemma_call_ids_from(before, at);
            let i = choose|i: int|
                0 <= i < before.len() && is_call(#[trigger] before[i], call_ids(before)[at]);
            assert(content[i] == before[i]);
            assert(is_call(content[i], call_ids(content)[at]));
        } else {
            assert(is_call(content[content.len() - 1], call_ids(content)[at]));
        }
    }
}

/// No identifier comes twice.
proof fn lemma_call_ids_distinct(content: Seq<ContentBlockView>)
    requires
        assistant_fault(content) is None,
    ensures
        forall|i: int, j: int|
            0 <= i < j < call_ids(content).len() ==> call_ids(content)[i] != call_ids(content)[j],
    decreases content.len(),
{
    if content.len() > 0 {
        let before = content.drop_last();
        lemma_call_ids_distinct(before);
        if content.last() is ToolUse {
            let id = content.last()->ToolUse_id;
            lemma_requested(before, id);
            assert forall|i: int| 0 <= i < call_ids(before).len() implies call_ids(before)[i]
                != id by {
                lemma_call_ids_from(before, i);
            }
        }
    }
}

/// Nothing is skipped but blocks that ask for no tool.
proof fn lemma_next_use(content: Seq<ContentBlockView>, at: int)
    requires
        0 <= at <= content.len(),
    ensures
        ({
            let found = next_use(content, at);
            &&& at <= found <= content.len()
            &&& found < content.len() ==> content[found] is ToolUse
            &&& forall|i: int| at <= i < found ==> !((#[trigger] content[i]) is ToolUse)
            &&& call_ids(content.take(found)) == call_ids(content.take(at))
        }),
    decreases content.len() - at,
{
    if at < content.len() && !(content[at] is ToolUse) {
        lemma_next_use(content, at + 1);
        lemma_call_ids_take(content, at);
    }
}

/// Results for the calls, in order, are what the journal asks for.
proof fn lemma_results_fit(
    calls: Map<Seq<char>, ToolCallModel>,
    results: Seq<ContentBlockView>,
    ids: Seq<Seq<char>>,
)
    requires
        results_of(results, ids),
        forall|i: int| 0 <= i < ids.len() ==> calls.contains_key(#[trigger] ids[i])
            && calls[ids[i]].state == ToolState::Terminal,
        forall|i: int, j: int| 0 <= i < j < ids.len() ==> ids[i] != ids[j],
    ensures
        results_fault(calls, results) is None,
    decreases results.len(),
{
    if results.len() > 0 {
        let before = results.drop_last();
        let last = ids.len() - 1;
        assert forall|i: int| 0 <= i < last implies is_result_of(
            #[trigger] before[i],
            ids.drop_last()[i],
        ) by {
            assert(is_result_of(results[i], ids[i]));
        }
        assert forall|i: int| 0 <= i < last implies calls.contains_key(
            #[trigger] ids.drop_last()[i],
        ) && calls[ids.drop_last()[i]].state == ToolState::Terminal by {
            assert(calls.contains_key(ids[i]));
        }
        lemma_results_fit(calls, before, ids.drop_last());
        assert(is_result_of(results[last], ids[last]));
        assert(results.last() == results[last]);
        assert(calls.contains_key(ids[last]));
        assert forall|i: int| 0 <= i < before.len() implies !is_result_of(
            #[trigger] before[i],
            ids[last],
        ) by {
            assert(is_result_of(results[i], ids[i]));
        }
    }
}

/// Moving the current call on leaves the others as they are.
proof fn lemma_call_moved(
    calls: Map<Seq<char>, ToolCallModel>,
    content: Seq<ContentBlockView>,
    current: int,
    from: ToolState,
    to: ToolState,
)
    requires
        assistant_fault(content) is None,
        calls_known(calls, content, current, from),
        0 <= current < content.len(),
        content[current] is ToolUse,
    ensures
        ({
            let id = content[current]->ToolUse_id;
            let name = content[current]->ToolUse_name;
            &&& calls.contains_key(id)
            &&& calls[id] == (ToolCallModel { name, state: from })
            &&& calls_known(
                calls.insert(id, ToolCallModel { name, state: to }),
                content,
                current,
                to,
            )
        }),
{
    lemma_calls_distinct(content);
    let id = content[current]->ToolUse_id;
    let name = content[current]->ToolUse_name;
    assert(requested_calls(content).dom().contains(id));
    let moved = calls.insert(id, ToolCallModel { name, state: to });
    assert(moved.dom() =~= calls.dom());
    assert forall|i: int| 0 <= i < content.len() && (#[trigger] content[i]) is ToolUse implies
        moved[content[i]->ToolUse_id] == (ToolCallModel {
        name: content[i]->ToolUse_name,
        state: call_state(i, current, to),
    }) by {
        if i != current {
            assert(content[i]->ToolUse_id != id);
        }
    }
}

proof fn lemma_reject_call(
    session: SessionView,
    calls: PendingCallsView,
    id: Seq<char>,
    name: Seq<char>,
    category: Seq<char>,
    error: Seq<char>,
    progress: Progress,
)
    requires
        call_ready(session, calls, id, name, progress, ToolState::Pending),
        settled(turn_of(progress)),
    ensures
        ({
            let after = reject_call(session, calls, id, name, category, error);
            tracks(after.0, after.1, progress)
        }),
{
    let after = reject_call(session, calls, id, name, category, error);
    let next = after.0.phase->Performing_next;
    let queue = after.0.phase->Performing_queue;
    let content = last_content(session.history);
    lemma_call_moved(
        turn_of(progress).tool_calls,
        content,
        calls.at - 1,
        ToolState::Pending,
        ToolState::Terminal,
    );
    lemma_first_goes_through(after.0, next, progress, after.1, queue);
    let rejected = step(progress, after.1->Journal_0)->Ok_0;
    lemma_one_goes_through(after.0, next, rejected, queue[0]);
    assert(queue =~= seq![queue[0]]);
}

proof fn lemma_answer_calls(session: SessionView, calls: PendingCallsView, progress: Progress)
    requires
        calls_ready(session, calls, progress),
        calls.at == last_content(session.history).len(),
    ensures
        ({
            let after = answer_calls(session, calls);
            tracks(after.0, after.1, progress)
        }),
{
    let content = last_content(session.history);
    let ids = call_ids(content);
    let known = turn_of(progress).tool_calls;
    assert(content.take(content.len() as int) =~= content);
    lemma_calls_distinct(content);
    lemma_call_ids_distinct(content);
    let asked = choose|i: int| 0 <= i < content.len() && content[i] is ToolUse;
    assert(requested_calls(content).contains_key(content[asked]->ToolUse_id));
    assert(known.contains_key(content[asked]->ToolUse_id));
    assert(known.dom().len() == ids.len());
    assert(ids.len() > 0) by {
        if ids.len() == 0 {
            assert(requested_calls(content).dom().len() == 0);
            assert(requested_calls(content).dom() =~= Set::<Seq<char>>::empty());
        }
    }
    assert forall|i: int| 0 <= i < ids.len() implies known.contains_key(#[trigger] ids[i])
        && known[ids[i]].state == ToolState::Terminal by {
        lemma_call_ids_from(content, i);
        let block = choose|block: int|
            0 <= block < content.len() && is_call(#[trigger] content[block], ids[i]);
        assert(content[block] is ToolUse);
        assert(requested_calls(content).contains_key(ids[i]));
        assert(known.dom().contains(ids[i]));
    }
    lemma_results_fit(known, calls.results, ids);
    let after = answer_calls(session, calls);
    let next = after.0.phase->Performing_next;
    lemma_first_goes_through(after.0, next, progress, after.1, Seq::empty());
    let message = next->KeepResults_message;
    let told = step(progress, after.1->Journal_0)->Ok_0;
    assert(with_results(turn_of(progress), message.content) is Ok);
    assert(session.history.push(message) =~= progress.messages + turn_of(told).messages);
}

proof fn lemma_next_call(session: SessionView, calls: PendingCallsView, progress: Progress)
    requires
        calls_ready(session, calls, progress),
    ensures
        ({
            let after = next_call(session, calls);
            tracks(after.0, after.1, progress)
        }),
{
    let content = last_content(session.history);
    let found = next_use(content, calls.at as int);
    lemma_next_use(content, calls.at as int);
    let known = turn_of(progress).tool_calls;
    assert(calls_known(known, content, found, ToolState::Pending));
    if found >= content.len() {
        let all = PendingCallsView { at: found as usize, ..calls };
        assert(calls_ready(session, all, progress));
        lemma_answer_calls(session, all, progress);
        assert(next_call(session, calls) == answer_calls(session, all));
    } else {
        let taken = PendingCallsView { at: (found + 1) as usize, ..calls };
        let id = content[found]->ToolUse_id;
        let name = content[found]->ToolUse_name;
        assert(call_ready(session, taken, id, name, progress, ToolState::Pending));
        match content[found]->ToolUse_input {
            ToolInputView::Valid(_) => {},
            ToolInputView::Invalid(raw) => {
                lemma_reject_call(
                    session,
                    taken,
                    id,
                    name,
                    "invalid_input"@,
                    invalid_input_text(name, raw),
                    progress,
                );
            },
        }
    }
}

proof fn lemma_take_answer(
    session: SessionView,
    turn: ActiveTurn,
    message: MessageView,
    stop_reason: StopReasonView,
    progress: Progress,
)
    requires
        ready(session, ResumptionView::TakeAnswer { message, stop_reason, turn }, progress),
    ensures
        ({
            let after = take_answer(session, turn, message, stop_reason);
            tracks(after.0, after.1, progress)
        }),
{
    let after = take_answer(session, turn, message, stop_reason);
    let next = after.0.phase->Performing_next;
    lemma_first_goes_through(after.0, next, progress, after.1, Seq::empty());
    if answer_fault(message.content, stop_reason) is None {
        let told = step(progress, after.1->Journal_0)->Ok_0;
        assert(session.history.push(message) =~= progress.messages + turn_of(told).messages);
    }
}

proof fn lemma_keep_answer(
    session: SessionView,
    turn: ActiveTurn,
    message: MessageView,
    stop_reason: StopReasonView,
    progress: Progress,
)
    requires
        ready(session, ResumptionView::KeepAnswer { message, stop_reason, turn }, progress),
    ensures
        ({
            let after = keep_answer(session, turn, message, stop_reason);
            tracks(after.0, after.1, progress)
        }),
{
    let kept = remembering(session, message);
    let content = message.content;
    assert(kept.history.take(turn.start as int) =~= session.history.take(turn.start as int));
    assert(kept.history.last() == message);
    lemma_calls_distinct(content);
    if stop_reason != StopReasonView::ToolUse {
        assert forall|id: Seq<char>| !requested_calls(content).contains_key(id) by {
            lemma_requested(content, id);
        }
        assert(requested_calls(content) =~= Map::<Seq<char>, ToolCallModel>::empty());
        lemma_finish_turn(kept, turn, TurnResultView::Completed { stop_reason }, progress);
    } else {
        let calls = PendingCallsView { at: 0, results: Seq::empty(), turn };
        assert(content.take(0) =~= Seq::empty());
        assert(calls_ready(kept, calls, progress));
        lemma_next_call(kept, calls, progress);
    }
}

proof fn lemma_start_tool(
    session: SessionView,
    call: ActiveCallView,
    authorization: AuthorizationView,
    progress: Progress,
)
    requires
        ready(session, ResumptionView::StartTool { authorization, call }, progress),
    ensures
        ({
            let after = start_tool(session, call, authorization);
            tracks(after.0, after.1, progress)
        }),
{
    let after = start_tool(session, call, authorization);
    let next = after.0.phase->Performing_next;
    let queue = after.0.phase->Performing_queue;
    lemma_call_moved(
        turn_of(progress).tool_calls,
        last_content(session.history),
        call.calls.at - 1,
        ToolState::Pending,
        ToolState::Started,
    );
    lemma_first_goes_through(after.0, next, progress, after.1, queue);
    let started = step(progress, after.1->Journal_0)->Ok_0;
    lemma_one_goes_through(after.0, next, started, queue[0]);
    assert(queue =~= seq![queue[0]]);
}

proof fn lemma_resolve(
    session: SessionView,
    calls: PendingCallsView,
    result: ToolResultView,
    progress: Progress,
)
    requires
        ready(session, ResumptionView::Resolve { calls, result }, progress),
    ensures
        ({
            let after = next_call(
                session,
                PendingCallsView {
                    results: calls.results.push(ContentBlockView::ToolResult(result)),
                    ..calls
                },
            );
            tracks(after.0, after.1, progress)
        }),
{
    let content = last_content(session.history);
    let current = calls.at - 1;
    let resolved = PendingCallsView {
        results: calls.results.push(ContentBlockView::ToolResult(result)),
        ..calls
    };
    lemma_call_ids_take(content, current);
    let ids = call_ids(content.take(calls.at as int));
    assert forall|i: int| 0 <= i < ids.len() implies is_result_of(
        #[trigger] resolved.results[i],
        ids[i],
    ) by {
        if i < ids.len() - 1 {
            assert(is_result_of(calls.results[i], call_ids(content.take(current))[i]));
        }
    }
    assert(calls_known(
        turn_of(progress).tool_calls,
        content,
        calls.at as int,
        ToolState::Pending,
    ));
    assert(calls_ready(session, resolved, progress));
    lemma_next_call(session, resolved, progress);
}

proof fn lemma_end_run(
    session: SessionView,
    reason: RunEndReason,
    exit: Option<AgentExitView>,
    progress: Progress,
)
    requires
        between_turns(session, progress),
    ensures
        ({
            let after = end_run(session, reason, exit);
            tracks(after.0, after.1, progress)
        }),
{
    let after = end_run(session, reason, exit);
    let next = after.0.phase->Performing_next;
    lemma_first_goes_through(after.0, next, progress, after.1, Seq::empty());
}

proof fn lemma_resume(
    session: SessionView,
    next: ResumptionView,
    fresh: FreshIds,
    progress: Progress,
)
    requires
        ready(session, next, progress),
        unused(progress, fresh),
    ensures
        ({
            let after = resume(session, next, fresh);
            tracks(after.0, after.1, progress)
        }),
{
    match next {
        ResumptionView::StartRound { turn } => {
            lemma_start_round(session, turn, fresh, progress);
        },
        ResumptionView::Stream { .. } => {},
        ResumptionView::TakeAnswer { message, stop_reason, turn } => {
            lemma_take_answer(session, turn, message, stop_reason, progress);
        },
        ResumptionView::KeepAnswer { message, stop_reason, turn } => {
            lemma_keep_answer(session, turn, message, stop_reason, progress);
        },
        ResumptionView::AskDecision { .. } => {},
        ResumptionView::StartTool { authorization, call } => {
            lemma_start_tool(session, call, authorization, progress);
        },
        ResumptionView::Execute { .. } => {},
        ResumptionView::Resolve { calls, result } => {
            lemma_resolve(session, calls, result, progress);
        },
        ResumptionView::KeepResults { message, turn } => {
            let kept = remembering(session, message);
            assert(kept.history.take(turn.start as int) =~= session.history.take(
                turn.start as int,
            ));
            lemma_start_round(kept, turn, fresh, progress);
        },
        ResumptionView::FinishTurn { result, turn } => {
            lemma_finish_turn(session, turn, result, progress);
        },
        ResumptionView::LeaveTurn { disconnected, turn } => {
            lemma_leave_turn(session, turn, disconnected, progress);
        },
        ResumptionView::AwaitInput => {},
        ResumptionView::EndRun { exit, reason } => {
            lemma_end_run(session, reason, exit, progress);
        },
        ResumptionView::Stop { .. } => {},
    }
}

proof fn lemma_performing(
    session: SessionView,
    next: ResumptionView,
    queue: Seq<AgentEffectView>,
    effect: AgentEffectView,
    stimulus: AgentStimulus,
    fresh: FreshIds,
    progress: Progress,
)
    requires
        goes_through(session, next, progress, seq![effect] + queue),
        expects(PhaseView::Performing { next, queue }, stimulus),
        fits(effect, stimulus),
        unused(journal_after(progress, effect, stimulus), fresh),
    ensures
        ({
            let after = react_performing(session, next, queue, stimulus, fresh);
            tracks(after.0, after.1, journal_after(progress, effect, stimulus))
        }),
{
    lemma_first_goes_through(session, next, progress, effect, queue);
    let now = journal_after(progress, effect, stimulus);
    match stimulus {
        AgentStimulus::JournalFailed(message) => {
            let after = react_performing(session, next, queue, stimulus, fresh);
            let stop = after.0.phase->Performing_next;
            lemma_first_goes_through(after.0, stop, progress, after.1, Seq::empty());
        },
        AgentStimulus::FrontendClosed => {
            match open_turn(next) {
                Some(turn) => {
                    lemma_leave_turn(session, turn, true, progress);
                },
                None => {
                    lemma_end_run(
                        session,
                        RunEndReason::FrontendDisconnected,
                        Some(AgentExitView::Disconnected),
                        progress,
                    );
                },
            }
        },
        _ => {
            if queue.len() > 0 {
                let after = react_performing(session, next, queue, stimulus, fresh);
                assert(seq![queue[0]] + queue.skip(1) =~= queue);
                lemma_same_session(session, after.0, next, now, queue);
            } else {
                lemma_resume(session, next, fresh, now);
            }
        },
    }
}

/// What the agent is waiting for does not matter to what goes through.
proof fn lemma_same_session(
    session: SessionView,
    other: SessionView,
    next: ResumptionView,
    progress: Progress,
    effects: Seq<AgentEffectView>,
)
    requires
        other == (SessionView { phase: other.phase, ..session }),
        goes_through(session, next, progress, effects),
    ensures
        goes_through(other, next, progress, effects),
    decreases effects.len(),
{
    if effects.len() > 0 {
        match effects[0] {
            AgentEffectView::Journal(entry) => {
                lemma_same_session(
                    session,
                    other,
                    next,
                    step(progress, entry)->Ok_0,
                    effects.skip(1),
                );
            },
            _ => {
                lemma_same_session(session, other, next, progress, effects.skip(1));
            },
        }
    }
}

proof fn lemma_idle(
    session: SessionView,
    stimulus: AgentStimulus,
    fresh: FreshIds,
    progress: Progress,
)
    requires
        session.phase is Idle,
        ready(session, ResumptionView::AwaitInput, progress),
        session.history.len() <= usize::MAX,
    ensures
        ({
            let after = react_idle(session, stimulus, fresh);
            tracks(after.0, after.1, progress)
        }),
{
    match stimulus {
        AgentStimulus::Cancelled => {
            lemma_end_run(session, RunEndReason::IdleCancelled, None, progress);
        },
        AgentStimulus::Command(AgentCommand::Shutdown(ShutdownReason::InputClosed)) => {
            lemma_end_run(session, RunEndReason::InputClosed, None, progress);
        },
        AgentStimulus::Command(AgentCommand::Shutdown(ShutdownReason::UserQuit)) => {
            lemma_end_run(session, RunEndReason::UserQuit, None, progress);
        },
        AgentStimulus::Command(AgentCommand::UserInput(prompt)) => {
            let after = begin_turn(session, prompt@, fresh.turn);
            let next = after.0.phase->Performing_next;
            let queue = after.0.phase->Performing_queue;
            lemma_first_goes_through(after.0, next, progress, after.1, queue);
            let started = step(progress, after.1->Journal_0)->Ok_0;
            assert(queue =~= seq![queue[0]]);
            lemma_one_goes_through(after.0, next, started, queue[0]);
            let told = step(started, queue[0]->Journal_0)->Ok_0;
            assert(after.0.history.take(session.history.len() as int) =~= progress.messages);
            assert(after.0.history =~= progress.messages + turn_of(told).messages);
        },
        _ => {
            lemma_end_run(
                session,
                RunEndReason::FrontendDisconnected,
                Some(AgentExitView::Disconnected),
                progress,
            );
        },
    }
}

proof fn lemma_streaming(
    session: SessionView,
    round: ProviderRoundId,
    turn: ActiveTurn,
    stimulus: AgentStimulus,
    progress: Progress,
)
    requires
        ready(session, ResumptionView::Stream { round, turn }, progress),
        well_behaved(session, stimulus),
    ensures
        ({
            let after = react_streaming(session, round, turn, stimulus);
            tracks(after.0, after.1, progress)
        }),
{
    let after = react_streaming(session, round, turn, stimulus);
    match stimulus {
        AgentStimulus::Streamed { answer, .. } => {
            let next = after.0.phase->Performing_next;
            assert(answer.message.content.len() == answer.message@.content.len());
            lemma_first_goes_through(after.0, next, progress, after.1, Seq::empty());
        },
        AgentStimulus::StreamFailed { .. } => {
            let next = after.0.phase->Performing_next;
            let queue = after.0.phase->Performing_queue;
            lemma_first_goes_through(after.0, next, progress, after.1, queue);
            let failed = step(progress, after.1->Journal_0)->Ok_0;
            assert(queue =~= seq![queue[0]]);
            lemma_one_goes_through(after.0, next, failed, queue[0]);
        },
        _ => {
            lemma_leave_turn(session, turn, true, progress);
        },
    }
}

/// What covers the call is among what is retained.
proof fn lemma_found_kept(
    retained: Seq<ApprovalAuthorizationView>,
    subject: ApprovalSubjectView,
    run_approvals: Map<ApprovalId, Seq<char>>,
)
    requires
        approvals_kept(retained, run_approvals),
    ensures
        first_covering(retained, subject) matches Some(found) ==> found.covers(subject)
            && approval_kept(found, run_approvals),
    decreases retained.len(),
{
    if retained.len() > 0 {
        let before = retained.drop_last();
        assert forall|i: int| 0 <= i < before.len() implies approval_kept(
            #[trigger] before[i],
            run_approvals,
        ) by {
            assert(approval_kept(retained[i], run_approvals));
        }
        lemma_found_kept(before, subject, run_approvals);
        assert(approval_kept(retained[retained.len() - 1], run_approvals));
    }
}

proof fn lemma_preparing(
    session: SessionView,
    call: ActiveCallView,
    stimulus: AgentStimulus,
    fresh: FreshIds,
    progress: Progress,
)
    requires
        call_ready(session, call.calls, call.id, call.name, progress, ToolState::Pending),
        settled(turn_of(progress)),
        unused(progress, fresh),
    ensures
        ({
            let after = react_preparing(session, call, stimulus, fresh);
            tracks(after.0, after.1, progress)
        }),
{
    let after = react_preparing(session, call, stimulus, fresh);
    match stimulus {
        AgentStimulus::Prepared { available_lifetimes, requirement } => {
            match gate_check(session.retained, requirement, call.subject()) {
                ApprovalCheckView::Authorized(authorization) => {
                    lemma_found_kept(
                        session.retained,
                        call.subject(),
                        progress.run->0.run_approvals,
                    );
                    lemma_start_tool(
                        session,
                        call,
                        recorded_authorization(authorization)->0,
                        progress,
                    );
                },
                ApprovalCheckView::RequiresDecision => {
                    let next = after.0.phase->Performing_next;
                    lemma_call_moved(
                        turn_of(progress).tool_calls,
                        last_content(session.history),
                        call.calls.at - 1,
                        ToolState::Pending,
                        ToolState::Pending,
                    );
                    lemma_first_goes_through(after.0, next, progress, after.1, Seq::empty());
                },
            }
        },
        AgentStimulus::NotPrepared { error } => {
            lemma_reject_call(
                session,
                call.calls,
                call.id,
                call.name,
                "preparation_failed"@,
                error@,
                progress,
            );
        },
        _ => {
            lemma_leave_turn(session, call.calls.turn, true, progress);
        },
    }
}

proof fn lemma_apply_decision(
    session: SessionView,
    call: ActiveCallView,
    approval_id: ApprovalId,
    available_lifetimes: Seq<ApprovalLifetime>,
    decision: ApprovalDecisionView,
    progress: Progress,
)
    requires
        ready(
            session,
            ResumptionView::AskDecision { approval_id, available_lifetimes, call },
            progress,
        ),
        !(gate_outcome(available_lifetimes, approval_id, decision, call.subject())
            is InvalidGrant),
    ensures
        ({
            let after = apply_decision(
                session,
                call,
                approval_id,
                available_lifetimes,
                decision,
            );
            tracks(after.0, after.1, progress)
        }),
{
    let after = apply_decision(session, call, approval_id, available_lifetimes, decision);
    let next = after.0.phase->Performing_next;
    let queue = after.0.phase->Performing_queue;
    let outcome = gate_outcome(available_lifetimes, approval_id, decision, call.subject());
    lemma_first_goes_through(after.0, next, progress, after.1, queue);
    let decided = step(progress, after.1->Journal_0)->Ok_0;
    assert(settled(turn_of(decided)));
    assert(approvals_kept(after.0.retained, decided.run->0.run_approvals)) by {
        assert forall|i: int| 0 <= i < after.0.retained.len() implies approval_kept(
            #[trigger] after.0.retained[i],
            decided.run->0.run_approvals,
        ) by {
            if i < session.retained.len() {
                assert(approval_kept(session.retained[i], progress.run->0.run_approvals));
                assert(after.0.retained[i] == session.retained[i]);
            }
        }
    }
    if outcome is Denied {
        assert(queue.skip(1) =~= seq![queue[1]]);
        assert(queue =~= seq![queue[0]] + queue.skip(1));
        lemma_call_moved(
            turn_of(decided).tool_calls,
            last_content(session.history),
            call.calls.at - 1,
            ToolState::Pending,
            ToolState::Terminal,
        );
        lemma_first_goes_through(after.0, next, decided, queue[0], queue.skip(1));
        let rejected = step(decided, queue[0]->Journal_0)->Ok_0;
        lemma_one_goes_through(after.0, next, rejected, queue[1]);
    }
}

proof fn lemma_executing(
    session: SessionView,
    call: ActiveCallView,
    stimulus: AgentStimulus,
    progress: Progress,
)
    requires
        ready(session, ResumptionView::Execute { call }, progress),
    ensures
        ({
            let after = react_executing(session, call, stimulus);
            tracks(after.0, after.1, progress)
        }),
{
    let after = react_executing(session, call, stimulus);
    let next = after.0.phase->Performing_next;
    let queue = after.0.phase->Performing_queue;
    lemma_call_moved(
        turn_of(progress).tool_calls,
        last_content(session.history),
        call.calls.at - 1,
        ToolState::Started,
        ToolState::Terminal,
    );
    if stimulus is Executed || stimulus is Interrupted {
        lemma_first_goes_through(after.0, next, progress, after.1, queue);
        let finished = step(progress, after.1->Journal_0)->Ok_0;
        if queue.len() > 0 {
            assert(queue =~= seq![queue[0]]);
            lemma_one_goes_through(after.0, next, finished, queue[0]);
        }
    } else {
        lemma_leave_turn(session, call.calls.turn, true, progress);
    }
}

/// Whatever the agent hears, it stays in step with its journal: every entry that it asks for is
/// one that a reader of the journal accepts at that place. This takes a model that speaks as the
/// assistant, identifiers that were not used before, and a user who grants only what was asked
/// for.
pub proof fn journals_stay_in_step(
    session: SessionView,
    effect: AgentEffectView,
    stimulus: AgentStimulus,
    fresh: FreshIds,
    progress: Progress,
)
    requires
        tracks(session, effect, progress),
        expects(session.phase, stimulus),
        fits(effect, stimulus),
        well_behaved(session, stimulus),
        unused(journal_after(progress, effect, stimulus), fresh),
        session.history.len() <= usize::MAX,
        !(session.phase is Performing) ==> !(effect is Journal),
    ensures
        ({
            let after = react(session, stimulus, fresh);
            tracks(after.0, after.1, journal_after(progress, effect, stimulus))
        }),
{
    match session.phase {
        PhaseView::Idle => {
            lemma_idle(session, stimulus, fresh, progress);
        },
        PhaseView::Performing { next, queue } => {
            lemma_performing(session, next, queue, effect, stimulus, fresh, progress);
        },
        PhaseView::Streaming { round, turn } => {
            lemma_streaming(session, round, turn, stimulus, progress);
        },
        PhaseView::Preparing { call } => {
            lemma_preparing(session, call, stimulus, fresh, progress);
        },
        PhaseView::Deciding { approval_id, available_lifetimes, call } => {
            match stimulus {
                AgentStimulus::Replied(ApprovalReply::Decided(decision)) => {
                    lemma_apply_decision(
                        session,
                        call,
                        approval_id,
                        available_lifetimes,
                        decision@,
                        progress,
                    );
                },
                AgentStimulus::Replied(ApprovalReply::Cancelled) => {
                    lemma_leave_turn(session, call.calls.turn, false, progress);
                },
                _ => {
                    lemma_leave_turn(session, call.calls.turn, true, progress);
                },
            }
        },
        PhaseView::Executing { call } => {
            lemma_executing(session, call, stimulus, progress);
        },
        PhaseView::Stopped => {},
    }
}

/// An entry that an agent in step with its journal asks for is accepted.
pub proof fn entries_in_step_are_accepted(
    session: SessionView,
    entry: EntryView,
    progress: Progress,
)
    requires
        tracks(session, AgentEffectView::Journal(entry), progress),
        session.phase is Performing,
    ensures
        step(progress, entry) is Ok,
{
    let next = session.phase->Performing_next;
    let queue = session.phase->Performing_queue;
    lemma_first_goes_through(session, next, progress, AgentEffectView::Journal(entry), queue);
}

/// Between turns, what the journal projects to is the conversation that the agent remembers.
pub proof fn journals_tell_the_conversation(
    session: SessionView,
    effect: AgentEffectView,
    progress: Progress,
)
    requires
        tracks(session, effect, progress),
        session.phase is Idle,
    ensures
        progress.messages == session.history,
        progress.run is Some,
        progress.run->0.turn is None,
{
}

/// The turn that is going on.
pub open spec fn going_on(phase: PhaseView) -> Option<ActiveTurn> {
    match phase {
        PhaseView::Performing { next, .. } => open_turn(next),
        PhaseView::Streaming { turn, .. } => Some(turn),
        PhaseView::Preparing { call } => Some(call.calls.turn),
        PhaseView::Deciding { call, .. } => Some(call.calls.turn),
        PhaseView::Executing { call } => Some(call.calls.turn),
        _ => None,
    }
}

pub open spec fn within_budget(phase: PhaseView) -> bool {
    going_on(phase) matches Some(turn) ==> turn.budget.provider_rounds
        <= MAX_PROVIDER_ROUNDS_PER_TURN
}

pub open spec fn starts_round(effect: AgentEffectView) -> bool {
    effect is Journal && effect->Journal_0 is ProviderRoundStarted
}

/// A turn never takes more rounds than its budget allows: the count stays within the limit, a
/// round is asked for only below it, and each round raises the count by one.
pub proof fn rounds_are_bounded(session: SessionView, stimulus: AgentStimulus, fresh: FreshIds)
    requires
        within_budget(session.phase),
        expects(session.phase, stimulus),
    ensures
        ({
            let after = react(session, stimulus, fresh);
            &&& within_budget(after.0.phase)
            &&& starts_round(after.1) && !(session.phase is Performing
                && session.phase->Performing_queue.len() > 0) ==> {
                &&& going_on(session.phase) is Some
                &&& going_on(after.0.phase) is Some
                &&& going_on(after.0.phase)->0.budget.provider_rounds == going_on(
                    session.phase,
                )->0.budget.provider_rounds + 1
            }
        }),
{
}

/// A tool runs only while the journal shows that its call was started and has not ended.
pub proof fn running_tools_stand_in_the_journal(
    session: SessionView,
    effect: AgentEffectView,
    progress: Progress,
)
    requires
        tracks(session, effect, progress),
        session.phase is Executing,
    ensures
        ({
            let call = session.phase->Executing_call;
            &&& progress.run is Some
            &&& progress.run->0.turn is Some
            &&& turn_of(progress).tool_calls.contains_key(call.id)
            &&& turn_of(progress).tool_calls[call.id] == (ToolCallModel {
                name: call.name,
                state: ToolState::Started,
            })
        }),
{
    let call = session.phase->Executing_call;
    let content = last_content(session.history);
    let at = call.calls.at - 1;
    lemma_requested(content, call.id);
    assert(is_call(content[at], call.id));
    assert(turn_of(progress).tool_calls.dom().contains(call.id));
}

/// A tool is asked for only once everything before it is done: its start is written down, and the
/// frontend was told.
pub proof fn tools_wait_for_the_journal(
    session: SessionView,
    stimulus: AgentStimulus,
    fresh: FreshIds,
)
    requires
        expects(session.phase, stimulus),
        react(session, stimulus, fresh).1 is ExecuteTool,
        !queues_tool(session.phase),
    ensures
        session.phase is Performing,
        session.phase->Performing_next is Execute,
        session.phase->Performing_queue.len() == 0,
        stimulus is Journaled || stimulus is Emitted,
        react(session, stimulus, fresh).0.phase == (PhaseView::Executing {
            call: session.phase->Performing_next->Execute_call,
        }),
{
}

/// Whether a tool is among what is still to be done.
pub open spec fn queues_tool(phase: PhaseView) -> bool {
    phase matches PhaseView::Performing { queue, .. } && exists|i: int|
        0 <= i < queue.len() && (#[trigger] queue[i]) is ExecuteTool
}

/// Nothing but entries and events is ever queued.
pub proof fn tools_are_never_queued(session: SessionView, stimulus: AgentStimulus, fresh: FreshIds)
    requires
        expects(session.phase, stimulus),
        !queues_tool(session.phase),
    ensures
        !queues_tool(react(session, stimulus, fresh).0.phase),
{
    if let PhaseView::Performing { next, queue } = session.phase {
        if queue.len() > 0 {
            let rest = queue.skip(1);
            assert forall|i: int|
                0 <= i < rest.len() implies !((#[trigger] rest[i]) is ExecuteTool) by {
                assert(rest[i] == queue[i + 1]);
            }
        }
    }
}

/// Once the journal fails, the agent reports that and does nothing more.
pub proof fn journal_failures_stop_the_run(
    session: SessionView,
    message: String,
    fresh: FreshIds,
    later: FreshIds,
)
    requires
        session.phase is Performing,
    ensures
        ({
            let (reporting, report) = react(session, AgentStimulus::JournalFailed(message), fresh);
            let (stopped, last) = react(reporting, AgentStimulus::Emitted, later);
            &&& report == AgentEffectView::EmitLast(
                AgentEventView::Error("session journal failed: "@ + message@),
            )
            &&& expects(reporting.phase, AgentStimulus::Emitted)
            &&& !expects(reporting.phase, AgentStimulus::FrontendClosed)
            &&& last == AgentEffectView::Finish(Some(AgentExitView::JournalFailed(message@)))
            &&& stopped.phase is Stopped
            &&& stopped.history == session.history
        }),
{
}

/// A call that the user denies is turned down in the journal, never starts, and comes to a result
/// for the model that is no error and says why.
pub proof fn denied_calls_do_not_start(
    session: SessionView,
    reason: String,
    fresh: FreshIds,
)
    requires
        session.phase is Deciding,
    ensures
        ({
            let call = session.phase->Deciding_call;
            let decision = ApprovalDecision::Deny { reason };
            let stimulus = AgentStimulus::Replied(ApprovalReply::Decided(decision));
            let (after, effect) = react(session, stimulus, fresh);
            &&& effect is Journal && effect->Journal_0 is ApprovalDecided
            &&& after.phase matches PhaseView::Performing { next, queue } && {
                &&& next == (ResumptionView::Resolve {
                    calls: call.calls,
                    result: ToolResultView {
                        tool_use_id: call.id,
                        is_error: false,
                        content: denial_text(reason@),
                    },
                })
                &&& queue.len() == 2
                &&& queue[0] is Journal && queue[0]->Journal_0 is ToolRejected
                &&& queue[1] == AgentEffectView::Emit(
                    AgentEventView::ToolDenied { name: call.name, reason: reason@ },
                )
            }
            &&& after.retained == session.retained
        }),
{
}

/// When the last call of an answer is resolved, the model is handed one result for each call, in
/// the order of the calls, whether they ran, failed or were turned down.
pub proof fn every_call_gets_a_result(
    session: SessionView,
    calls: PendingCallsView,
    result: ToolResultView,
    progress: Progress,
    fresh: FreshIds,
)
    requires
        ready(session, ResumptionView::Resolve { calls, result }, progress),
        next_use(last_content(session.history), calls.at as int) >= last_content(
            session.history,
        ).len(),
    ensures
        ({
            let next = ResumptionView::Resolve { calls, result };
            let (after, effect) = resume(session, next, fresh);
            let content = last_content(session.history);
            &&& call_ids(content).len() > 0
            &&& after.phase matches PhaseView::Performing { next, queue } && {
                &&& next matches ResumptionView::KeepResults { message, turn } && {
                    &&& message.role == Role::User
                    &&& results_of(message.content, call_ids(content))
                    &&& turn == calls.turn
                }
                &&& queue.len() == 0
            }
        }),
{
    let content = last_content(session.history);
    let current = calls.at - 1;
    let results = calls.results.push(ContentBlockView::ToolResult(result));
    lemma_call_ids_take(content, current);
    lemma_next_use(content, calls.at as int);
    assert(content.take(content.len() as int) =~= content);
    let ids = call_ids(content);
    assert forall|i: int| 0 <= i < ids.len() implies is_result_of(#[trigger] results[i], ids[i]) by {
        if i < ids.len() - 1 {
            assert(is_result_of(calls.results[i], call_ids(content.take(current))[i]));
        }
    }
}

} // verus!
