//! What may follow what in a journal: for each record, where it is accepted, and what it changes.
use crate::journal::id::{ApprovalId, ProviderRoundId, RunId, TurnId};
use crate::journal::lifecycle::{
    all_text, asks_for_tools, assistant_fault, is_call, is_result_of, lemma_requested_calls,
    progress_after, projection, requested_calls, results_fault, step, ApprovalModel, Progress,
    ProjectionErrorView, ProjectionWarning, RecordedDecision, ToolCallModel, ToolState, TurnModel,
};
use crate::journal::schema::{JournalRecord, RunEnded};
use crate::journal::view::{
    ApprovalDecidedView, ApprovalRequestedView, AuthorizationView, CommitOutcomeView, DecisionView,
    EntryView, MessageAddedView, ProviderRoundCompletedView, ProviderRoundStartedView,
    RunStartedView, ToolRejectedView, ToolStartedView, TurnAbortedView, TurnCommittedView,
    TurnStartedView,
};
use crate::message::{ContentBlockView, Role, StopReasonView};
use crate::protocol::ApprovalScopeView;
use vstd::prelude::*;

verus! {

/// Whether this turn is open, in some run.
pub open spec fn is_open(progress: Progress, turn_id: TurnId) -> bool {
    progress.run is Some && progress.run->0.turn is Some && progress.run->0.turn->0.id == turn_id
}

/// Whether this turn is open in this run.
pub open spec fn is_open_in(progress: Progress, run_id: RunId, turn_id: TurnId) -> bool {
    is_open(progress, turn_id) && progress.run->0.id == run_id
}

/// The open turn.
pub open spec fn open_turn(progress: Progress) -> TurnModel {
    progress.run->0.turn->0
}

/// Whether nothing has changed but the open turn.
pub open spec fn only_turn_changed(before: Progress, after: Progress) -> bool {
    &&& after.messages == before.messages
    &&& after.run is Some
    &&& after.run->0.id == before.run->0.id
    &&& after.run->0.run_approvals == before.run->0.run_approvals
    &&& after.run->0.turn is Some
    &&& after.run->0.turn->0.id == before.run->0.turn->0.id
}

/// A session starts once. A run starts where none is open, with nothing approved and no turn, and
/// ends where it is the one that is open and no turn is.
pub proof fn runs_follow_each_other(
    progress: Progress,
    started: RunStartedView,
    ended: RunEnded,
)
    ensures
        ({
            let after = step(progress, EntryView::RunStarted(started));
            &&& after is Ok <==> progress.run is None
            &&& after is Ok ==> {
                &&& after->Ok_0.messages == progress.messages
                &&& after->Ok_0.run is Some
                &&& after->Ok_0.run->0.id == started.run_id
                &&& after->Ok_0.run->0.turn is None
                &&& after->Ok_0.run->0.run_approvals.dom() == Set::<
                    ApprovalId,
                >::empty()
            }
        }),
        ({
            let after = step(progress, EntryView::RunEnded(ended));
            &&& after is Ok <==> progress.run is Some && progress.run->0.id == ended.run_id
                && progress.run->0.turn is None
            &&& after is Ok ==> after->Ok_0.run is None && after->Ok_0.messages
                == progress.messages
        }),
{
    if progress.run is None {
        let after = step(progress, EntryView::RunStarted(started))->Ok_0;
        assert(after.run->0.run_approvals.dom() =~= Set::empty());
    }
}

/// A turn starts in the open run where no other turn is open, with nothing said, asked or approved
/// in it. It ends by a commit, which adds its messages to the conversation, or by an abort, which
/// adds nothing.
pub proof fn turns_follow_each_other(
    progress: Progress,
    started: TurnStartedView,
    aborted: TurnAbortedView,
)
    ensures
        ({
            let after = step(progress, EntryView::TurnStarted(started));
            &&& after is Ok <==> progress.run is Some && progress.run->0.id == started.run_id
                && progress.run->0.turn is None
            &&& after is Ok ==> {
                let turn = open_turn(after->Ok_0);
                &&& is_open_in(after->Ok_0, started.run_id, started.turn_id)
                &&& after->Ok_0.messages == progress.messages
                &&& after->Ok_0.run->0.run_approvals == progress.run->0.run_approvals
                &&& turn.messages.len() == 0
                &&& turn.tool_calls == Map::<Seq<char>, ToolCallModel>::empty()
                &&& turn.approvals == Map::<
                    ApprovalId,
                    ApprovalModel,
                >::empty()
                &&& turn.provider_round is None
                &&& turn.awaiting_assistant is None
                &&& turn.last_assistant_stop is None
                &&& turn.provider_rounds == Set::<ProviderRoundId>::empty()
            }
        }),
        ({
            let after = step(progress, EntryView::TurnAborted(aborted));
            &&& after is Ok <==> is_open(progress, aborted.turn_id)
            &&& after is Ok ==> {
                &&& after->Ok_0.messages == progress.messages
                &&& after->Ok_0.run is Some
                &&& after->Ok_0.run->0.id == progress.run->0.id
                &&& after->Ok_0.run->0.run_approvals == progress.run->0.run_approvals
                &&& after->Ok_0.run->0.turn is None
            }
        }),
{
}

/// A turn is committed exactly where nothing in it is unresolved, and where it is said to be
/// completed as its last answer stopped.
pub proof fn resolved_turns_are_committed(progress: Progress, committed: TurnCommittedView)
    ensures
        ({
            let after = step(progress, EntryView::TurnCommitted(committed));
            let turn = open_turn(progress);
            &&& after is Ok <==> {
                &&& is_open(progress, committed.turn_id)
                &&& turn.provider_round is None
                &&& turn.awaiting_assistant is None
                &&& turn.tool_calls == Map::<Seq<char>, ToolCallModel>::empty()
                &&& forall|id: ApprovalId| #[trigger]
                    turn.approvals.contains_key(id) ==> turn.approvals[id].decision is Some
                &&& committed.outcome matches CommitOutcomeView::Completed { stop_reason }
                    ==> turn.last_assistant_stop == Some(stop_reason)
            }
            &&& after is Ok ==> {
                &&& after->Ok_0.messages == progress.messages + turn.messages
                &&& after->Ok_0.run is Some
                &&& after->Ok_0.run->0.id == progress.run->0.id
                &&& after->Ok_0.run->0.run_approvals == progress.run->0.run_approvals
                &&& after->Ok_0.run->0.turn is None
            }
        }),
{
    let turn = open_turn(progress);
    if exists|id: ApprovalId| #[trigger]
        turn.approvals.contains_key(id) && turn.approvals[id].decision is None {
        let id = choose|id: ApprovalId| #[trigger]
            turn.approvals.contains_key(id) && turn.approvals[id].decision is None;
        assert(turn.approvals.contains_key(id));
    }
}

/// A turn begins with what the user says, in text alone.
pub proof fn turns_begin_with_the_user(progress: Progress, added: MessageAddedView)
    requires
        is_open_in(progress, added.run_id, added.turn_id),
        open_turn(progress).messages.len() == 0,
        added.message.role == Role::User,
    ensures
        ({
            let after = step(progress, EntryView::MessageAdded(added));
            &&& after is Ok <==> forall|i: int|
                0 <= i < added.message.content.len() ==> (#[trigger] added.message.content[i])
                    is Text
            &&& after is Ok ==> only_turn_changed(progress, after->Ok_0) && open_turn(
                after->Ok_0,
            ).messages == seq![added.message]
        }),
{
    let content = added.message.content;
    assert(open_turn(progress).messages.push(added.message) =~= seq![added.message]);
    if forall|i: int| 0 <= i < content.len() ==> (#[trigger] content[i]) is Text {
        assert(all_text(content));
    }
}

/// Whether an answer is well formed: it holds no results, and no call twice.
pub open spec fn is_answer(content: Seq<ContentBlockView>) -> bool {
    &&& forall|i: int| 0 <= i < content.len() ==> !((#[trigger] content[i]) is ToolResult)
    &&& forall|i: int, j: int|
        0 <= i < j < content.len() && (#[trigger] content[i]) is ToolUse && (#[trigger] content[j])
            is ToolUse ==> content[i]->ToolUse_id != content[j]->ToolUse_id
}

proof fn lemma_answer(content: Seq<ContentBlockView>)
    ensures
        assistant_fault(content) is None <==> is_answer(content),
    decreases content.len(),
{
    if content.len() > 0 {
        let before = content.drop_last();
        let last = content.last();
        lemma_answer(before);
        lemma_requested_calls(before);
        assert(content[content.len() - 1] == last);
        if is_answer(content) {
            assert forall|i: int| 0 <= i < before.len() implies !((#[trigger] before[i])
                is ToolResult) by {
                assert(before[i] == content[i]);
            }
            assert forall|i: int, j: int|
                0 <= i < j < before.len() && (#[trigger] before[i]) is ToolUse && (
                #[trigger] before[j]) is ToolUse implies before[i]->ToolUse_id
                != before[j]->ToolUse_id by {
                assert(before[i] == content[i] && before[j] == content[j]);
            }
            assert(is_answer(before));
            if last is ToolUse && requested_calls(before).contains_key(last->ToolUse_id) {
                let at = choose|at: int|
                    0 <= at < before.len() && #[trigger] is_call(before[at], last->ToolUse_id);
                assert(before[at] == content[at]);
            }
        }
        if assistant_fault(content) is None {
            assert(is_answer(before));
            assert forall|i: int| 0 <= i < content.len() implies !((#[trigger] content[i])
                is ToolResult) by {
                if i < before.len() {
                    assert(before[i] == content[i]);
                }
            }
            assert forall|i: int, j: int|
                0 <= i < j < content.len() && (#[trigger] content[i]) is ToolUse && (
                #[trigger] content[j]) is ToolUse implies content[i]->ToolUse_id
                != content[j]->ToolUse_id by {
                assert(before[i] == content[i]);
                if j < before.len() {
                    assert(before[j] == content[j]);
                } else {
                    assert(is_call(before[i], content[i]->ToolUse_id));
                    assert(requested_calls(before).contains_key(content[i]->ToolUse_id));
                }
            }
        }
    }
}

proof fn lemma_asked(content: Seq<ContentBlockView>, at: int)
    requires
        is_answer(content),
        0 <= at < content.len(),
        content[at] is ToolUse,
    ensures
        requested_calls(content).contains_key(content[at]->ToolUse_id),
        requested_calls(content)[content[at]->ToolUse_id] == (ToolCallModel {
            name: content[at]->ToolUse_name,
            state: ToolState::Pending,
        }),
    decreases content.len(),
{
    let before = content.drop_last();
    if at < before.len() {
        assert forall|i: int| 0 <= i < before.len() implies !((#[trigger] before[i])
            is ToolResult) by {
            assert(before[i] == content[i]);
        }
        assert forall|i: int, j: int|
            0 <= i < j < before.len() && (#[trigger] before[i]) is ToolUse && (
            #[trigger] before[j]) is ToolUse implies before[i]->ToolUse_id
            != before[j]->ToolUse_id by {
            assert(before[i] == content[i] && before[j] == content[j]);
        }
        assert(before[at] == content[at]);
        lemma_asked(before, at);
        assert(content[content.len() - 1] == content.last());
    }
}

/// An answer of the model is accepted exactly where a completed round waits for it, no call is
/// open, it is well formed, and it asks for tools just where the round stopped for them. From then
/// on exactly the calls that it asks for are open, each under its name and still to be started.
pub proof fn answers_resolve_their_round(progress: Progress, added: MessageAddedView)
    requires
        is_open_in(progress, added.run_id, added.turn_id),
        added.message.role == Role::Assistant,
    ensures
        ({
            let after = step(progress, EntryView::MessageAdded(added));
            let turn = open_turn(progress);
            let content = added.message.content;
            &&& after is Ok <==> {
                &&& turn.awaiting_assistant is Some
                &&& turn.tool_calls == Map::<Seq<char>, ToolCallModel>::empty()
                &&& is_answer(content)
                &&& (exists|i: int| 0 <= i < content.len() && (#[trigger] content[i]) is ToolUse)
                    <==> turn.awaiting_assistant->0 == StopReasonView::ToolUse
            }
            &&& after is Ok ==> {
                let next = open_turn(after->Ok_0);
                &&& only_turn_changed(progress, after->Ok_0)
                &&& next.messages == turn.messages.push(added.message)
                &&& next.awaiting_assistant is None
                &&& next.last_assistant_stop == turn.awaiting_assistant
                &&& next.approvals == turn.approvals
                &&& forall|i: int|
                    0 <= i < content.len() && (#[trigger] content[i]) is ToolUse ==> {
                        &&& next.tool_calls.contains_key(content[i]->ToolUse_id)
                        &&& next.tool_calls[content[i]->ToolUse_id].name
                            == content[i]->ToolUse_name
                        &&& next.tool_calls[content[i]->ToolUse_id].state == ToolState::Pending
                    }
                &&& forall|id: Seq<char>| #[trigger]
                    next.tool_calls.contains_key(id) ==> exists|i: int|
                        0 <= i < content.len() && #[trigger] is_call(content[i], id)
            }
        }),
{
    let content = added.message.content;
    lemma_answer(content);
    lemma_requested_calls(content);
    if asks_for_tools(content) {
        let i = choose|i: int| 0 <= i < content.len() && content[i] is ToolUse;
        assert(content[i] is ToolUse);
    }
    if step(progress, EntryView::MessageAdded(added)) is Ok {
        assert forall|i: int| 0 <= i < content.len() && (#[trigger] content[i]) is ToolUse implies {
            &&& requested_calls(content).contains_key(content[i]->ToolUse_id)
            &&& requested_calls(content)[content[i]->ToolUse_id].name == content[i]->ToolUse_name
            &&& requested_calls(content)[content[i]->ToolUse_id].state == ToolState::Pending
        } by {
            lemma_asked(content, i);
        }
    }
}

/// Whether every block is the result of an open call that has come to its end, and no two are for
/// the same.
pub open spec fn are_results(
    calls: Map<Seq<char>, ToolCallModel>,
    content: Seq<ContentBlockView>,
) -> bool {
    &&& forall|i: int|
        0 <= i < content.len() ==> (#[trigger] content[i]) is ToolResult && calls.contains_key(
            content[i]->ToolResult_0.tool_use_id,
        ) && calls[content[i]->ToolResult_0.tool_use_id].state == ToolState::Terminal
    &&& forall|i: int, j: int|
        0 <= i < j < content.len() ==> (#[trigger] content[i])->ToolResult_0.tool_use_id != (
        #[trigger] content[j])->ToolResult_0.tool_use_id
}

proof fn lemma_results(calls: Map<Seq<char>, ToolCallModel>, content: Seq<ContentBlockView>)
    ensures
        results_fault(calls, content) is None <==> are_results(calls, content),
    decreases content.len(),
{
    if content.len() > 0 {
        let before = content.drop_last();
        let last = content.last();
        lemma_results(calls, before);
        assert(content[content.len() - 1] == last);
        if are_results(calls, content) {
            assert forall|i: int| 0 <= i < before.len() implies (#[trigger] before[i]) is ToolResult
                && calls.contains_key(before[i]->ToolResult_0.tool_use_id)
                && calls[before[i]->ToolResult_0.tool_use_id].state == ToolState::Terminal by {
                assert(before[i] == content[i]);
            }
            assert forall|i: int, j: int| 0 <= i < j < before.len() implies (
            #[trigger] before[i])->ToolResult_0.tool_use_id != (
            #[trigger] before[j])->ToolResult_0.tool_use_id by {
                assert(before[i] == content[i] && before[j] == content[j]);
            }
            assert(are_results(calls, before));
            let id = last->ToolResult_0.tool_use_id;
            assert forall|i: int| 0 <= i < before.len() implies !is_result_of(
                #[trigger] before[i],
                id,
            ) by {
                assert(before[i] == content[i]);
            }
        }
        if results_fault(calls, content) is None {
            assert(are_results(calls, before));
            assert forall|i: int| 0 <= i < content.len() implies (#[trigger] content[i])
                is ToolResult && calls.contains_key(content[i]->ToolResult_0.tool_use_id)
                && calls[content[i]->ToolResult_0.tool_use_id].state == ToolState::Terminal by {
                if i < before.len() {
                    assert(before[i] == content[i]);
                }
            }
            assert forall|i: int, j: int| 0 <= i < j < content.len() implies (
            #[trigger] content[i])->ToolResult_0.tool_use_id != (
            #[trigger] content[j])->ToolResult_0.tool_use_id by {
                assert(before[i] == content[i]);
                if j < before.len() {
                    assert(before[j] == content[j]);
                } else {
                    assert(!is_result_of(before[i], last->ToolResult_0.tool_use_id));
                }
            }
        }
    }
}

/// Behind the first message, the user's side speaks only to answer calls: with one result for
/// each open call, all of which have come to their end. Then no call is open.
pub proof fn results_resolve_their_calls(progress: Progress, added: MessageAddedView)
    requires
        is_open_in(progress, added.run_id, added.turn_id),
        open_turn(progress).messages.len() > 0,
        added.message.role == Role::User,
    ensures
        ({
            let after = step(progress, EntryView::MessageAdded(added));
            let turn = open_turn(progress);
            &&& after is Ok <==> {
                &&& turn.tool_calls != Map::<Seq<char>, ToolCallModel>::empty()
                &&& are_results(turn.tool_calls, added.message.content)
                &&& added.message.content.len() == turn.tool_calls.dom().len()
            }
            &&& after is Ok ==> {
                let next = open_turn(after->Ok_0);
                &&& only_turn_changed(progress, after->Ok_0)
                &&& next.messages == turn.messages.push(added.message)
                &&& next.tool_calls == Map::<Seq<char>, ToolCallModel>::empty()
                &&& next.approvals == turn.approvals
            }
        }),
{
    lemma_results(open_turn(progress).tool_calls, added.message.content);
}

/// A round starts behind a message of the user's side, where no other is unresolved, and under an
/// identifier that the turn has not seen; then it is the round that is under way.
pub proof fn rounds_follow_the_user(progress: Progress, started: ProviderRoundStartedView)
    ensures
        ({
            let after = step(progress, EntryView::ProviderRoundStarted(started));
            let turn = open_turn(progress);
            &&& after is Ok <==> {
                &&& is_open_in(progress, started.run_id, started.turn_id)
                &&& turn.provider_round is None
                &&& turn.awaiting_assistant is None
                &&& turn.messages.len() > 0
                &&& turn.messages.last().role == Role::User
                &&& !turn.provider_rounds.contains(started.provider_round_id)
            }
            &&& after is Ok ==> {
                let next = open_turn(after->Ok_0);
                &&& only_turn_changed(progress, after->Ok_0)
                &&& next.provider_round == Some(started.provider_round_id)
                &&& next.provider_rounds == turn.provider_rounds.insert(started.provider_round_id)
                &&& next.awaiting_assistant is None
                &&& next.messages == turn.messages
                &&& next.tool_calls == turn.tool_calls
                &&& next.approvals == turn.approvals
            }
        }),
{
}

/// Whether an entry ends this round without an answer.
pub open spec fn breaks_round(
    entry: EntryView,
    run_id: RunId,
    turn_id: TurnId,
    round: ProviderRoundId,
) -> bool {
    match entry {
        EntryView::ProviderRoundFailed(failed) => failed.run_id == run_id && failed.turn_id
            == turn_id && failed.provider_round_id == round,
        EntryView::ProviderRoundCancelled(cancelled) => cancelled.run_id == run_id
            && cancelled.turn_id == turn_id && cancelled.provider_round_id == round,
        _ => false,
    }
}

/// A round ends only where it is the one under way. Where it completed, an answer that stopped as
/// it did is waited for; where it failed or was cancelled, none is.
pub proof fn rounds_are_resolved_once(
    progress: Progress,
    completed: ProviderRoundCompletedView,
    broken: EntryView,
    run_id: RunId,
    turn_id: TurnId,
    round: ProviderRoundId,
)
    requires
        breaks_round(broken, run_id, turn_id, round),
    ensures
        ({
            let after = step(progress, EntryView::ProviderRoundCompleted(completed));
            let turn = open_turn(progress);
            &&& after is Ok <==> is_open_in(progress, completed.run_id, completed.turn_id)
                && turn.provider_round == Some(completed.provider_round_id)
            &&& after is Ok ==> {
                let next = open_turn(after->Ok_0);
                &&& only_turn_changed(progress, after->Ok_0)
                &&& next.provider_round is None
                &&& next.awaiting_assistant == Some(completed.stop_reason)
                &&& next.messages == turn.messages
                &&& next.tool_calls == turn.tool_calls
                &&& next.approvals == turn.approvals
            }
        }),
        ({
            let after = step(progress, broken);
            let turn = open_turn(progress);
            &&& after is Ok <==> is_open_in(progress, run_id, turn_id) && turn.provider_round
                == Some(round)
            &&& after is Ok ==> {
                let next = open_turn(after->Ok_0);
                &&& only_turn_changed(progress, after->Ok_0)
                &&& next.provider_round is None
                &&& next.awaiting_assistant == turn.awaiting_assistant
                &&& next.messages == turn.messages
                &&& next.tool_calls == turn.tool_calls
                &&& next.approvals == turn.approvals
            }
        }),
{
}

/// An approval is asked for an open call, under its own name and an identifier of its own, and is
/// then undecided.
pub proof fn approvals_are_asked_for_calls(progress: Progress, requested: ApprovalRequestedView)
    ensures
        ({
            let after = step(progress, EntryView::ApprovalRequested(requested));
            let turn = open_turn(progress);
            let call = requested.subject.call_id();
            &&& after is Ok <==> {
                &&& is_open(progress, requested.turn_id)
                &&& turn.tool_calls.contains_key(call)
                &&& turn.tool_calls[call].name == requested.subject.tool()
                &&& !turn.approvals.contains_key(requested.approval_id)
            }
            &&& after is Ok ==> {
                let next = open_turn(after->Ok_0);
                let approval = next.approvals[requested.approval_id];
                &&& only_turn_changed(progress, after->Ok_0)
                &&& next.approvals.dom() == turn.approvals.dom().insert(requested.approval_id)
                &&& approval.decision is None
                &&& approval.tool_call_id == call
                &&& approval.tool_name == requested.subject.tool()
                &&& next.tool_calls == turn.tool_calls
                &&& next.messages == turn.messages
            }
        }),
{
    let after = step(progress, EntryView::ApprovalRequested(requested));
    if after is Ok {
        assert(open_turn(after->Ok_0).approvals.dom() =~= open_turn(progress).approvals.dom().insert(
            requested.approval_id,
        ));
    }
}

/// Whether a decision lets the tool run for longer than the one call.
pub open spec fn is_for_the_run(decision: DecisionView) -> bool {
    match decision {
        DecisionView::AllowForRun => true,
        DecisionView::Grant { grant } => !(grant.scope is Invocation),
        _ => false,
    }
}

/// Whether a decision lets the one call run.
pub open spec fn is_for_the_call(decision: DecisionView) -> bool {
    match decision {
        DecisionView::AllowOnce => true,
        DecisionView::Grant { grant } => grant.scope is Invocation,
        _ => false,
    }
}

/// An approval is decided once. A decision for the run is kept for the tool beyond the turn, and
/// no other is.
pub proof fn approvals_are_decided_once(progress: Progress, decided: ApprovalDecidedView)
    ensures
        ({
            let after = step(progress, EntryView::ApprovalDecided(decided));
            let turn = open_turn(progress);
            let id = decided.approval_id;
            &&& after is Ok <==> {
                &&& progress.run is Some
                &&& progress.run->0.turn is Some
                &&& turn.approvals.contains_key(id)
                &&& turn.approvals[id].decision is None
            }
            &&& after is Ok ==> {
                let run = after->Ok_0.run->0;
                let next = open_turn(after->Ok_0);
                &&& after->Ok_0.messages == progress.messages
                &&& after->Ok_0.run is Some && run.id == progress.run->0.id
                &&& run.turn is Some && next.id == turn.id
                &&& next.approvals.contains_key(id)
                &&& next.approvals[id].tool_call_id == turn.approvals[id].tool_call_id
                &&& next.approvals[id].tool_name == turn.approvals[id].tool_name
                &&& is_for_the_run(decided.decision) ==> next.approvals[id].decision == Some(
                    RecordedDecision::AllowForRun,
                ) && run.run_approvals == progress.run->0.run_approvals.insert(
                    id,
                    turn.approvals[id].tool_name,
                )
                &&& is_for_the_call(decided.decision) ==> next.approvals[id].decision == Some(
                    RecordedDecision::AllowOnce,
                ) && run.run_approvals == progress.run->0.run_approvals
                &&& decided.decision is Deny ==> next.approvals[id].decision == Some(
                    RecordedDecision::Deny,
                ) && run.run_approvals == progress.run->0.run_approvals
                &&& next.tool_calls == turn.tool_calls
                &&& next.messages == turn.messages
            }
        }),
{
}

/// Whether what is written of a start lets this call start: nothing has to, or a decision for the
/// run that names the tool, or one for just this call.
pub open spec fn lets_start(progress: Progress, started: ToolStartedView) -> bool {
    let run = progress.run->0;
    let turn = open_turn(progress);
    let by_run = |id: ApprovalId|
        run.run_approvals.contains_key(id) && run.run_approvals[id] == started.tool_name;
    let by_call = |id: ApprovalId|
        turn.approvals.contains_key(id) && turn.approvals[id].decision == Some(
            RecordedDecision::AllowOnce,
        ) && turn.approvals[id].tool_call_id == started.tool_call_id
            && turn.approvals[id].tool_name == started.tool_name;
    match started.authorization {
        AuthorizationView::ApprovedForRun { approval_id } => by_run(approval_id),
        AuthorizationView::ApprovedOnce { approval_id } => by_call(approval_id),
        AuthorizationView::Granted { approval_id, grant } => if grant.scope is Invocation {
            by_call(approval_id)
        } else {
            by_run(approval_id)
        },
        AuthorizationView::NotRequired => true,
    }
}

/// Whether only this call has moved, and to this state.
pub open spec fn only_call_moved(
    before: TurnModel,
    after: TurnModel,
    id: Seq<char>,
    state: ToolState,
) -> bool {
    &&& after.tool_calls.dom() == before.tool_calls.dom()
    &&& after.tool_calls[id].name == before.tool_calls[id].name
    &&& after.tool_calls[id].state == state
    &&& forall|other: Seq<char>|
        other != id && #[trigger] before.tool_calls.contains_key(other) ==> after.tool_calls[other]
            == before.tool_calls[other]
    &&& after.messages == before.messages
    &&& after.approvals == before.approvals
    &&& after.provider_round == before.provider_round
    &&& after.awaiting_assistant == before.awaiting_assistant
}

/// An open call starts, under its name, where it has not been started or turned down and where it
/// is let; it is turned down under the same conditions, without being let.
pub proof fn calls_start_once(
    progress: Progress,
    started: ToolStartedView,
    rejected: ToolRejectedView,
)
    ensures
        ({
            let after = step(progress, EntryView::ToolStarted(started));
            let calls = open_turn(progress).tool_calls;
            &&& after is Ok <==> {
                &&& is_open(progress, started.turn_id)
                &&& lets_start(progress, started)
                &&& calls.contains_key(started.tool_call_id)
                &&& calls[started.tool_call_id].name == started.tool_name
                &&& calls[started.tool_call_id].state == ToolState::Pending
            }
            &&& after is Ok ==> only_turn_changed(progress, after->Ok_0) && only_call_moved(
                open_turn(progress),
                open_turn(after->Ok_0),
                started.tool_call_id,
                ToolState::Started,
            )
        }),
        ({
            let after = step(progress, EntryView::ToolRejected(rejected));
            let calls = open_turn(progress).tool_calls;
            &&& after is Ok <==> {
                &&& is_open(progress, rejected.turn_id)
                &&& calls.contains_key(rejected.tool_call_id)
                &&& calls[rejected.tool_call_id].name == rejected.tool_name
                &&& calls[rejected.tool_call_id].state == ToolState::Pending
            }
            &&& after is Ok ==> only_turn_changed(progress, after->Ok_0) && only_call_moved(
                open_turn(progress),
                open_turn(after->Ok_0),
                rejected.tool_call_id,
                ToolState::Terminal,
            )
        }),
{
    let calls = open_turn(progress).tool_calls;
    let begun = step(progress, EntryView::ToolStarted(started));
    if begun is Ok {
        assert(open_turn(begun->Ok_0).tool_calls.dom() =~= calls.dom());
    }
    let refused = step(progress, EntryView::ToolRejected(rejected));
    if refused is Ok {
        assert(open_turn(refused->Ok_0).tool_calls.dom() =~= calls.dom());
    }
    match started.authorization {
        AuthorizationView::Granted { approval_id, grant } => match grant.scope {
            ApprovalScopeView::Invocation { .. } => {},
            ApprovalScopeView::Run => {},
            ApprovalScopeView::Workspace => {},
        },
        _ => {},
    }
}

/// Whether an entry says that this call has come to its end.
pub open spec fn ends_call(entry: EntryView, turn_id: TurnId, id: Seq<char>) -> bool {
    match entry {
        EntryView::ToolCompleted(completed) => completed.turn_id == turn_id
            && completed.tool_call_id == id,
        EntryView::ToolFailed(failed) => failed.turn_id == turn_id && failed.tool_call_id == id,
        EntryView::ToolCancelled(cancelled) => cancelled.turn_id == turn_id
            && cancelled.tool_call_id == id,
        _ => false,
    }
}

/// A call comes to its end where it has started, and only once.
pub proof fn started_calls_end(
    progress: Progress,
    entry: EntryView,
    turn_id: TurnId,
    id: Seq<char>,
)
    requires
        ends_call(entry, turn_id, id),
    ensures
        ({
            let after = step(progress, entry);
            let calls = open_turn(progress).tool_calls;
            &&& after is Ok <==> is_open(progress, turn_id) && calls.contains_key(id)
                && calls[id].state == ToolState::Started
            &&& after is Ok ==> only_turn_changed(progress, after->Ok_0) && only_call_moved(
                open_turn(progress),
                open_turn(after->Ok_0),
                id,
                ToolState::Terminal,
            )
        }),
{
    let after = step(progress, entry);
    if after is Ok {
        assert(open_turn(after->Ok_0).tool_calls.dom() =~= open_turn(progress).tool_calls.dom());
    }
}

/// A journal projects where it begins with a session and each record is accepted behind those
/// before it. What it projects to are the instructions and the identifier of the session, and the
/// messages of its committed turns; what is left open at the end is warned of, the turn first.
pub proof fn journals_project_what_was_committed(records: Seq<JournalRecord>)
    ensures
        projection(records) is Ok <==> records.len() > 0 && records[0].entry is SessionStarted
            && progress_after(records, records.len()) is Ok,
        projection(records) matches Ok(projected) ==> {
            let progress = progress_after(records, records.len())->Ok_0;
            &&& projected.instructions == records[0].entry->SessionStarted_0.instructions@
            &&& projected.session_id == records[0].session_id
            &&& projected.messages == progress.messages
            &&& progress.run is None ==> projected.warnings.len() == 0
            &&& progress.run is Some && progress.run->0.turn is None ==> projected.warnings == seq![
                ProjectionWarning::UnterminatedRun { run_id: progress.run->0.id },
            ]
            &&& progress.run is Some && progress.run->0.turn is Some ==> projected.warnings == seq![
                ProjectionWarning::UnterminatedTurn { turn_id: progress.run->0.turn->0.id },
                ProjectionWarning::UnterminatedRun { run_id: progress.run->0.id },
            ]
        },
{
}

/// Behind the start of the session every record is a step. The first that is not accepted is
/// where the projection fails, under its own number.
pub proof fn records_are_taken_in_order(records: Seq<JournalRecord>, count: nat)
    requires
        1 <= count < records.len(),
        progress_after(records, count) is Ok,
    ensures
        progress_after(records, 1) == Ok::<_, ProjectionErrorView>(
            Progress { run: None, messages: Seq::empty() },
        ),
        ({
            let before = progress_after(records, count)->Ok_0;
            match step(before, records[count as int].entry@) {
                Ok(after) => progress_after(records, count + 1) == Ok::<
                    _,
                    ProjectionErrorView,
                >(after),
                Err(detail) => progress_after(records, count + 1) matches Err(error)
                    && error.detail == detail && error.sequence
                    == records[count as int].sequence,
            }
        }),
{
}

} // verus!
