//! The lifecycle that a journal must follow, and what a journal projects to.
use crate::journal::id::{ApprovalId, ProviderRoundId, RunId, SessionId, TurnId};
use crate::journal::schema::{JournalEntry, JournalRecord};
use crate::journal::view::{AuthorizationView, CommitOutcomeView, DecisionView, EntryView};
use crate::message::{ContentBlockView, MessageView, Role, StopReasonView};
use crate::protocol::ApprovalLifetime;
use vstd::prelude::*;
use vstd::set_lib::lemma_subset_equality;

verus! {

/// What a decision allows.
#[derive(Clone, Copy, Debug, PartialEq, Eq, Structural)]
pub enum RecordedDecision {
    AllowForRun,
    AllowOnce,
    Deny,
}

/// How far a tool call has come.
#[derive(Clone, Copy, Debug, PartialEq, Eq, Structural)]
pub enum ToolState {
    Pending,
    Started,
    Terminal,
}

#[derive(Clone, Copy, Debug, PartialEq, Eq, Structural)]
pub enum ProjectionWarning {
    UnterminatedRun { run_id: RunId },
    UnterminatedTurn { turn_id: TurnId },
}

pub struct ToolCallModel {
    pub name: Seq<char>,
    pub state: ToolState,
}

pub struct ApprovalModel {
    pub decision: Option<RecordedDecision>,
    pub tool_call_id: Seq<char>,
    pub tool_name: Seq<char>,
}

/// An active turn.
pub struct TurnModel {
    pub approvals: Map<ApprovalId, ApprovalModel>,
    pub awaiting_assistant: Option<StopReasonView>,
    pub id: TurnId,
    pub last_assistant_stop: Option<StopReasonView>,
    pub messages: Seq<MessageView>,
    pub provider_round: Option<ProviderRoundId>,
    pub provider_rounds: Set<ProviderRoundId>,
    pub tool_calls: Map<Seq<char>, ToolCallModel>,
}

/// An active run.
pub struct RunModel {
    pub id: RunId,
    pub run_approvals: Map<ApprovalId, Seq<char>>,
    pub turn: Option<TurnModel>,
}

/// What the records so far come to: the active run, and the messages of the committed turns.
pub struct Progress {
    pub run: Option<RunModel>,
    pub messages: Seq<MessageView>,
}

pub struct ProjectionView {
    pub instructions: Seq<char>,
    pub messages: Seq<MessageView>,
    pub session_id: SessionId,
    pub warnings: Seq<ProjectionWarning>,
}

pub struct ProjectionErrorView {
    pub detail: Seq<char>,
    pub sequence: u64,
}

/// A turn as it starts.
pub open spec fn fresh_turn(id: TurnId) -> TurnModel {
    TurnModel {
        approvals: Map::empty(),
        awaiting_assistant: None,
        id,
        last_assistant_stop: None,
        messages: Seq::empty(),
        provider_round: None,
        provider_rounds: Set::empty(),
        tool_calls: Map::empty(),
    }
}

pub open spec fn active_run(run: Option<RunModel>) -> Result<RunModel, Seq<char>> {
    match run {
        Some(run) => Ok(run),
        None => Err("record has no active run"@),
    }
}

/// The active run, where it is the one that the record names.
pub open spec fn named_run(run: Option<RunModel>, run_id: RunId) -> Result<RunModel, Seq<char>> {
    match active_run(run) {
        Err(detail) => Err(detail),
        Ok(run) => if run.id == run_id {
            Ok(run)
        } else {
            Err("record does not belong to the active run"@)
        },
    }
}

/// The active turn of a run, where it is the one that the record names.
pub open spec fn named_turn(run: RunModel, turn_id: TurnId) -> Result<TurnModel, Seq<char>> {
    match run.turn {
        None => Err("record has no active turn"@),
        Some(turn) => if turn.id == turn_id {
            Ok(turn)
        } else {
            Err("record does not belong to the active turn"@)
        },
    }
}

/// The active turn, where the record names it and its run.
pub open spec fn turn_of_run(
    run: Option<RunModel>,
    run_id: RunId,
    turn_id: TurnId,
) -> Result<TurnModel, Seq<char>> {
    match named_run(run, run_id) {
        Err(detail) => Err(detail),
        Ok(run) => named_turn(run, turn_id),
    }
}

/// The active turn, where the record names it.
pub open spec fn turn_of_any_run(run: Option<RunModel>, turn_id: TurnId) -> Result<
    TurnModel,
    Seq<char>,
> {
    match active_run(run) {
        Err(detail) => Err(detail),
        Ok(run) => named_turn(run, turn_id),
    }
}

impl Progress {
    /// The same progress with the active turn replaced.
    pub open spec fn with_turn(self, turn: TurnModel) -> Progress {
        Progress { run: Some(RunModel { turn: Some(turn), ..self.run->0 }), ..self }
    }

    /// The progress that replacing the active turn gives, or the error that stood in its way.
    pub open spec fn changing(self, turn: Result<TurnModel, Seq<char>>) -> Result<
        Progress,
        Seq<char>,
    > {
        match turn {
            Err(detail) => Err(detail),
            Ok(turn) => Ok(self.with_turn(turn)),
        }
    }
}

pub open spec fn all_text(content: Seq<ContentBlockView>) -> bool {
    forall|i: int| 0 <= i < content.len() ==> content[i] is Text
}

/// The tool calls that an assistant message asks for, each pending.
pub open spec fn requested_calls(content: Seq<ContentBlockView>) -> Map<Seq<char>, ToolCallModel>
    decreases content.len(),
{
    if content.len() == 0 {
        Map::empty()
    } else {
        let before = requested_calls(content.drop_last());
        match content.last() {
            ContentBlockView::ToolUse { id, name, .. } => before.insert(
                id,
                ToolCallModel { name, state: ToolState::Pending },
            ),
            _ => before,
        }
    }
}

/// Whether a block asks for the call `id`.
pub open spec fn is_call(block: ContentBlockView, id: Seq<char>) -> bool {
    block is ToolUse && block->ToolUse_id == id
}

/// The first fault among the blocks of an assistant message.
pub open spec fn assistant_fault(content: Seq<ContentBlockView>) -> Option<Seq<char>>
    decreases content.len(),
{
    if content.len() == 0 {
        None
    } else {
        match assistant_fault(content.drop_last()) {
            Some(detail) => Some(detail),
            None => match content.last() {
                ContentBlockView::Text { .. } => None,
                ContentBlockView::ToolUse { id, .. } => if requested_calls(
                    content.drop_last(),
                ).contains_key(id) {
                    Some("assistant message repeats a tool call ID"@)
                } else {
                    None
                },
                ContentBlockView::ToolResult(_) => Some(
                    "assistant message contains a tool result"@,
                ),
            },
        }
    }
}

pub open spec fn asks_for_tools(content: Seq<ContentBlockView>) -> bool {
    exists|i: int| 0 <= i < content.len() && content[i] is ToolUse
}

/// The turn after an assistant message: it answers a completed provider round, no earlier tool
/// call is open, and it asks for tools exactly where the round stopped for them.
pub open spec fn with_assistant(turn: TurnModel, content: Seq<ContentBlockView>) -> Result<
    TurnModel,
    Seq<char>,
> {
    match turn.awaiting_assistant {
        None => Err("assistant message has no completed provider round"@),
        Some(stop_reason) => if turn.tool_calls != Map::<Seq<char>, ToolCallModel>::empty() {
            Err("assistant message arrived before prior tool results"@)
        } else {
            match assistant_fault(content) {
                Some(detail) => Err(detail),
                None => if asks_for_tools(content) != (stop_reason == StopReasonView::ToolUse) {
                    Err("assistant tool calls do not agree with the provider stop reason"@)
                } else {
                    Ok(
                        TurnModel {
                            awaiting_assistant: None,
                            last_assistant_stop: Some(stop_reason),
                            tool_calls: requested_calls(content),
                            ..turn
                        },
                    )
                },
            }
        },
    }
}

/// Whether a block is the result of the call `id`.
pub open spec fn is_result_of(block: ContentBlockView, id: Seq<char>) -> bool {
    block matches ContentBlockView::ToolResult(result) && result.tool_use_id == id
}

/// The first fault among the blocks of a tool-result message.
pub open spec fn results_fault(
    calls: Map<Seq<char>, ToolCallModel>,
    content: Seq<ContentBlockView>,
) -> Option<Seq<char>>
    decreases content.len(),
{
    if content.len() == 0 {
        None
    } else {
        let before = content.drop_last();
        match results_fault(calls, before) {
            Some(detail) => Some(detail),
            None => match content.last() {
                ContentBlockView::ToolResult(result) => {
                    let id = result.tool_use_id;
                    if !calls.contains_key(id) {
                        Some("tool result refers to an unknown tool call"@)
                    } else if calls[id].state != ToolState::Terminal {
                        Some("tool result was recorded before its terminal lifecycle record"@)
                    } else if exists|i: int|
                        0 <= i < before.len() && is_result_of(#[trigger] before[i], id) {
                        Some("tool result ID is repeated"@)
                    } else {
                        None
                    }
                },
                _ => Some("tool-result message contains non-result content"@),
            },
        }
    }
}

/// The turn after a message that resolves its open tool calls: every call has come to its end
/// and has exactly one result in the message.
pub open spec fn with_results(turn: TurnModel, content: Seq<ContentBlockView>) -> Result<
    TurnModel,
    Seq<char>,
> {
    if turn.tool_calls == Map::<Seq<char>, ToolCallModel>::empty() {
        Err("additional user message has no pending tool calls"@)
    } else {
        match results_fault(turn.tool_calls, content) {
            Some(detail) => Err(detail),
            None => if content.len() != turn.tool_calls.dom().len() {
                Err("tool-result message does not resolve every tool call"@)
            } else {
                Ok(TurnModel { tool_calls: Map::empty(), ..turn })
            },
        }
    }
}

/// The turn after a message.
pub open spec fn with_message(turn: TurnModel, message: MessageView) -> Result<
    TurnModel,
    Seq<char>,
> {
    let checked = match message.role {
        Role::User => if turn.messages.len() == 0 {
            if all_text(message.content) {
                Ok(turn)
            } else {
                Err("the first turn message must contain only user text"@)
            }
        } else {
            with_results(turn, message.content)
        },
        Role::Assistant => with_assistant(turn, message.content),
    };
    match checked {
        Err(detail) => Err(detail),
        Ok(turn) => Ok(TurnModel { messages: turn.messages.push(message), ..turn }),
    }
}

pub open spec fn with_round_started(turn: TurnModel, round: ProviderRoundId) -> Result<
    TurnModel,
    Seq<char>,
> {
    if turn.provider_round is Some || turn.awaiting_assistant is Some {
        Err("provider round started before the previous round was resolved"@)
    } else if turn.messages.len() == 0 || turn.messages.last().role != Role::User {
        Err("provider round started without a preceding user message"@)
    } else if turn.provider_rounds.contains(round) {
        Err("provider round ID is reused within a turn"@)
    } else {
        Ok(
            TurnModel {
                provider_round: Some(round),
                provider_rounds: turn.provider_rounds.insert(round),
                ..turn
            },
        )
    }
}

pub open spec fn with_round_finished(turn: TurnModel, round: ProviderRoundId) -> Result<
    TurnModel,
    Seq<char>,
> {
    if turn.provider_round == Some(round) {
        Ok(TurnModel { provider_round: None, ..turn })
    } else {
        Err("provider terminal record does not match the active round"@)
    }
}

pub open spec fn with_round_completed(
    turn: TurnModel,
    round: ProviderRoundId,
    stop_reason: StopReasonView,
) -> Result<TurnModel, Seq<char>> {
    match with_round_finished(turn, round) {
        Err(detail) => Err(detail),
        Ok(turn) => Ok(TurnModel { awaiting_assistant: Some(stop_reason), ..turn }),
    }
}

pub open spec fn with_approval_requested(
    turn: TurnModel,
    approval_id: ApprovalId,
    tool_call_id: Seq<char>,
    tool_name: Seq<char>,
) -> Result<TurnModel, Seq<char>> {
    if !turn.tool_calls.contains_key(tool_call_id) {
        Err("approval refers to an unknown tool call"@)
    } else if turn.tool_calls[tool_call_id].name != tool_name {
        Err("approval tool name does not match its tool call"@)
    } else if turn.approvals.contains_key(approval_id) {
        Err("approval ID is reused"@)
    } else {
        Ok(
            TurnModel {
                approvals: turn.approvals.insert(
                    approval_id,
                    ApprovalModel { decision: None, tool_call_id, tool_name },
                ),
                ..turn
            },
        )
    }
}

/// What a recorded decision allows. A grant for one invocation allows one call; a longer one
/// allows the tool for the rest of the run.
pub open spec fn decision_of(decision: DecisionView) -> RecordedDecision {
    match decision {
        DecisionView::AllowForRun => RecordedDecision::AllowForRun,
        DecisionView::AllowOnce => RecordedDecision::AllowOnce,
        DecisionView::Deny { .. } => RecordedDecision::Deny,
        DecisionView::Grant { grant } => if grant.scope.lasts()
            == ApprovalLifetime::Invocation {
            RecordedDecision::AllowOnce
        } else {
            RecordedDecision::AllowForRun
        },
    }
}

/// The run after an approval is decided. Each request is decided once, and a decision for the
/// run is kept beyond the turn.
pub open spec fn with_decision(
    run: RunModel,
    approval_id: ApprovalId,
    decision: RecordedDecision,
) -> Result<RunModel, Seq<char>> {
    match run.turn {
        None => Err("record has no active turn"@),
        Some(turn) => if !turn.approvals.contains_key(approval_id) {
            Err("approval decision has no matching request"@)
        } else if turn.approvals[approval_id].decision is Some {
            Err("approval is decided more than once"@)
        } else {
            let approval = turn.approvals[approval_id];
            Ok(
                RunModel {
                    run_approvals: if decision == RecordedDecision::AllowForRun {
                        run.run_approvals.insert(approval_id, approval.tool_name)
                    } else {
                        run.run_approvals
                    },
                    turn: Some(
                        TurnModel {
                            approvals: turn.approvals.insert(
                                approval_id,
                                ApprovalModel { decision: Some(decision), ..approval },
                            ),
                            ..turn
                        },
                    ),
                    ..run
                },
            )
        },
    }
}

/// Why an approval for the run does not authorize a tool, if it does not.
pub open spec fn run_authorization_fault(
    run_approvals: Map<ApprovalId, Seq<char>>,
    approval_id: ApprovalId,
    tool_name: Seq<char>,
) -> Option<Seq<char>> {
    if run_approvals.contains_key(approval_id) && run_approvals[approval_id] == tool_name {
        None
    } else {
        Some("run approval does not authorize this tool"@)
    }
}

/// Why a one-time approval does not authorize a call, if it does not.
pub open spec fn once_authorization_fault(
    approvals: Map<ApprovalId, ApprovalModel>,
    approval_id: ApprovalId,
    tool_call_id: Seq<char>,
    tool_name: Seq<char>,
) -> Option<Seq<char>> {
    if !approvals.contains_key(approval_id) {
        Some("tool authorization has no matching approval decision"@)
    } else if approvals[approval_id] != (ApprovalModel {
        decision: Some(RecordedDecision::AllowOnce),
        tool_call_id,
        tool_name,
    }) {
        Some("one-time approval does not authorize this tool call"@)
    } else {
        None
    }
}

/// Why a tool start is not authorized, if it is not.
pub open spec fn authorization_fault(
    run_approvals: Map<ApprovalId, Seq<char>>,
    approvals: Map<ApprovalId, ApprovalModel>,
    authorization: AuthorizationView,
    tool_call_id: Seq<char>,
    tool_name: Seq<char>,
) -> Option<Seq<char>> {
    match authorization {
        AuthorizationView::ApprovedForRun { approval_id } => run_authorization_fault(
            run_approvals,
            approval_id,
            tool_name,
        ),
        AuthorizationView::ApprovedOnce { approval_id } => once_authorization_fault(
            approvals,
            approval_id,
            tool_call_id,
            tool_name,
        ),
        AuthorizationView::Granted { approval_id, grant } => if grant.scope.lasts()
            == ApprovalLifetime::Invocation {
            once_authorization_fault(approvals, approval_id, tool_call_id, tool_name)
        } else {
            run_authorization_fault(run_approvals, approval_id, tool_name)
        },
        AuthorizationView::NotRequired => None,
    }
}

/// The turn after the call `id` of the tool `name` moves from pending to `next`.
pub open spec fn with_pending_moved(
    turn: TurnModel,
    id: Seq<char>,
    name: Seq<char>,
    next: ToolState,
    otherwise: Seq<char>,
) -> Result<TurnModel, Seq<char>> {
    if !turn.tool_calls.contains_key(id) {
        Err("record refers to an unknown tool call"@)
    } else if turn.tool_calls[id].name != name {
        Err("tool name does not match its tool call"@)
    } else if turn.tool_calls[id].state != ToolState::Pending {
        Err(otherwise)
    } else {
        Ok(
            TurnModel {
                tool_calls: turn.tool_calls.insert(id, ToolCallModel { name, state: next }),
                ..turn
            },
        )
    }
}

/// The turn after a started tool call comes to its end.
pub open spec fn with_tool_finished(turn: TurnModel, id: Seq<char>) -> Result<
    TurnModel,
    Seq<char>,
> {
    if !turn.tool_calls.contains_key(id) {
        Err("tool terminal record refers to an unknown tool call"@)
    } else if turn.tool_calls[id].state != ToolState::Started {
        Err("tool terminal record has no matching tool start"@)
    } else {
        Ok(
            TurnModel {
                tool_calls: turn.tool_calls.insert(
                    id,
                    ToolCallModel { state: ToolState::Terminal, ..turn.tool_calls[id] },
                ),
                ..turn
            },
        )
    }
}

/// Why a turn cannot be committed, if it cannot.
pub open spec fn commit_fault(turn: TurnModel, outcome: CommitOutcomeView) -> Option<Seq<char>> {
    if turn.provider_round is Some || turn.awaiting_assistant is Some {
        Some("turn committed with an unresolved provider round"@)
    } else if turn.tool_calls != Map::<Seq<char>, ToolCallModel>::empty() {
        Some("turn committed with unresolved tool calls"@)
    } else if exists|id: ApprovalId| #[trigger]
        turn.approvals.contains_key(id) && turn.approvals[id].decision is None {
        Some("turn committed with an undecided approval"@)
    } else {
        match outcome {
            CommitOutcomeView::Completed { stop_reason } => if turn.last_assistant_stop == Some(
                stop_reason,
            ) {
                None
            } else {
                Some("completed turn outcome does not match its assistant stop reason"@)
            },
            CommitOutcomeView::Paused { .. } => None,
        }
    }
}

/// The progress after one more record.
pub open spec fn step(progress: Progress, entry: EntryView) -> Result<Progress, Seq<char>> {
    match entry {
        EntryView::SessionStarted(_) => Err("session_started appears more than once"@),
        EntryView::RunStarted(started) => if progress.run is Some {
            Err("run_started appears while another run is active"@)
        } else {
            Ok(
                Progress {
                    run: Some(
                        RunModel {
                            id: started.run_id,
                            run_approvals: Map::empty(),
                            turn: None,
                        },
                    ),
                    ..progress
                },
            )
        },
        EntryView::TurnStarted(started) => match named_run(progress.run, started.run_id) {
            Err(detail) => Err(detail),
            Ok(run) => if run.turn is Some {
                Err("turn_started appears while another turn is active"@)
            } else {
                Ok(progress.with_turn(fresh_turn(started.turn_id)))
            },
        },
        EntryView::MessageAdded(added) => match turn_of_run(
            progress.run,
            added.run_id,
            added.turn_id,
        ) {
            Err(detail) => Err(detail),
            Ok(turn) => progress.changing(with_message(turn, added.message)),
        },
        EntryView::ProviderRoundStarted(started) => match turn_of_run(
            progress.run,
            started.run_id,
            started.turn_id,
        ) {
            Err(detail) => Err(detail),
            Ok(turn) => progress.changing(with_round_started(turn, started.provider_round_id)),
        },
        EntryView::ProviderRoundCompleted(completed) => match turn_of_run(
            progress.run,
            completed.run_id,
            completed.turn_id,
        ) {
            Err(detail) => Err(detail),
            Ok(turn) => progress.changing(
                with_round_completed(turn, completed.provider_round_id, completed.stop_reason),
            ),
        },
        EntryView::ProviderRoundFailed(failed) => match turn_of_run(
            progress.run,
            failed.run_id,
            failed.turn_id,
        ) {
            Err(detail) => Err(detail),
            Ok(turn) => progress.changing(with_round_finished(turn, failed.provider_round_id)),
        },
        EntryView::ProviderRoundCancelled(cancelled) => match turn_of_run(
            progress.run,
            cancelled.run_id,
            cancelled.turn_id,
        ) {
            Err(detail) => Err(detail),
            Ok(turn) => progress.changing(with_round_finished(turn, cancelled.provider_round_id)),
        },
        EntryView::ApprovalRequested(requested) => match turn_of_any_run(
            progress.run,
            requested.turn_id,
        ) {
            Err(detail) => Err(detail),
            Ok(turn) => progress.changing(
                with_approval_requested(
                    turn,
                    requested.approval_id,
                    requested.subject.call_id(),
                    requested.subject.tool(),
                ),
            ),
        },
        EntryView::ApprovalDecided(decided) => match active_run(progress.run) {
            Err(detail) => Err(detail),
            Ok(run) => match with_decision(
                run,
                decided.approval_id,
                decision_of(decided.decision),
            ) {
                Err(detail) => Err(detail),
                Ok(run) => Ok(Progress { run: Some(run), ..progress }),
            },
        },
        EntryView::ToolStarted(started) => match turn_of_any_run(
            progress.run,
            started.turn_id,
        ) {
            Err(detail) => Err(detail),
            Ok(turn) => match authorization_fault(
                progress.run->0.run_approvals,
                turn.approvals,
                started.authorization,
                started.tool_call_id,
                started.tool_name,
            ) {
                Some(detail) => Err(detail),
                None => progress.changing(
                    with_pending_moved(
                        turn,
                        started.tool_call_id,
                        started.tool_name,
                        ToolState::Started,
                        "tool call is started more than once"@,
                    ),
                ),
            },
        },
        EntryView::ToolCompleted(completed) => match turn_of_any_run(
            progress.run,
            completed.turn_id,
        ) {
            Err(detail) => Err(detail),
            Ok(turn) => progress.changing(with_tool_finished(turn, completed.tool_call_id)),
        },
        EntryView::ToolFailed(failed) => match turn_of_any_run(progress.run, failed.turn_id) {
            Err(detail) => Err(detail),
            Ok(turn) => progress.changing(with_tool_finished(turn, failed.tool_call_id)),
        },
        EntryView::ToolCancelled(cancelled) => match turn_of_any_run(
            progress.run,
            cancelled.turn_id,
        ) {
            Err(detail) => Err(detail),
            Ok(turn) => progress.changing(with_tool_finished(turn, cancelled.tool_call_id)),
        },
        EntryView::ToolRejected(rejected) => match turn_of_any_run(
            progress.run,
            rejected.turn_id,
        ) {
            Err(detail) => Err(detail),
            Ok(turn) => progress.changing(
                with_pending_moved(
                    turn,
                    rejected.tool_call_id,
                    rejected.tool_name,
                    ToolState::Terminal,
                    "rejected tool call was already started or resolved"@,
                ),
            ),
        },
        EntryView::TurnCommitted(committed) => match active_run(progress.run) {
            Err(detail) => Err(detail),
            Ok(run) => match run.turn {
                None => Err("turn commit has no active turn"@),
                Some(turn) => if turn.id != committed.turn_id {
                    Err("turn commit does not match the active turn"@)
                } else {
                    match commit_fault(turn, committed.outcome) {
                        Some(detail) => Err(detail),
                        None => Ok(
                            Progress {
                                run: Some(RunModel { turn: None, ..run }),
                                messages: progress.messages + turn.messages,
                            },
                        ),
                    }
                },
            },
        },
        EntryView::TurnAborted(aborted) => match active_run(progress.run) {
            Err(detail) => Err(detail),
            Ok(run) => match run.turn {
                None => Err("turn abort has no active turn"@),
                Some(turn) => if turn.id != aborted.turn_id {
                    Err("turn abort does not match the active turn"@)
                } else {
                    Ok(Progress { run: Some(RunModel { turn: None, ..run }), ..progress })
                },
            },
        },
        EntryView::RunEnded(ended) => match progress.run {
            None => Err("run end has no active run"@),
            Some(run) => if run.id != ended.run_id {
                Err("run end does not match the active run"@)
            } else if run.turn is Some {
                Err("run ended while a turn is still active"@)
            } else {
                Ok(Progress { run: None, ..progress })
            },
        },
    }
}

/// The progress after the first `count` records, the first of which starts the session.
pub open spec fn progress_after(records: Seq<JournalRecord>, count: nat) -> Result<
    Progress,
    ProjectionErrorView,
>
    decreases count,
{
    if count <= 1 {
        Ok(Progress { run: None, messages: Seq::empty() })
    } else {
        let record = records[count - 1];
        match progress_after(records, (count - 1) as nat) {
            Err(error) => Err(error),
            Ok(progress) => match step(progress, record.entry@) {
                Err(detail) => Err(ProjectionErrorView { detail, sequence: record.sequence }),
                Ok(next) => Ok(next),
            },
        }
    }
}

/// What is still open at the end: the turn, then the run.
pub open spec fn open_warnings(run: Option<RunModel>) -> Seq<ProjectionWarning> {
    match run {
        None => Seq::empty(),
        Some(run) => match run.turn {
            None => seq![ProjectionWarning::UnterminatedRun { run_id: run.id }],
            Some(turn) => seq![
                ProjectionWarning::UnterminatedTurn { turn_id: turn.id },
                ProjectionWarning::UnterminatedRun { run_id: run.id },
            ],
        },
    }
}

/// What a journal projects to.
pub open spec fn projection(records: Seq<JournalRecord>) -> Result<
    ProjectionView,
    ProjectionErrorView,
> {
    if records.len() == 0 {
        Err(ProjectionErrorView { detail: "journal is empty"@, sequence: 0 })
    } else {
        match records[0].entry {
            JournalEntry::SessionStarted(started) => match progress_after(records, records.len()) {
                Err(error) => Err(error),
                Ok(progress) => Ok(
                    ProjectionView {
                        instructions: started.instructions@,
                        messages: progress.messages,
                        session_id: records[0].session_id,
                        warnings: open_warnings(progress.run),
                    },
                ),
            },
            _ => Err(
                ProjectionErrorView {
                    detail: "first record is not session_started"@,
                    sequence: records[0].sequence,
                },
            ),
        }
    }
}

/// Only a commit adds messages to the conversation, and it adds exactly those of the turn that it
/// commits; an abort, the end of a run and every other record leave the conversation as it was.
pub proof fn only_commits_add_messages(progress: Progress, entry: EntryView)
    requires
        step(progress, entry) is Ok,
    ensures
        entry is TurnCommitted ==> step(progress, entry)->Ok_0.messages == progress.messages
            + progress.run->0.turn->0.messages,
        !(entry is TurnCommitted) ==> step(progress, entry)->Ok_0.messages == progress.messages,
{
}

/// What was committed stays: the messages of a longer journal start with those of each of its
/// beginnings.
pub proof fn committed_messages_stay(records: Seq<JournalRecord>, early: nat, late: nat)
    requires
        early <= late,
        progress_after(records, late) is Ok,
    ensures
        progress_after(records, early) is Ok,
        progress_after(records, early)->Ok_0.messages.is_prefix_of(
            progress_after(records, late)->Ok_0.messages,
        ),
    decreases late,
{
    if early < late {
        committed_messages_stay(records, early, (late - 1) as nat);
        let shorter = progress_after(records, early)->Ok_0.messages;
        let before = progress_after(records, (late - 1) as nat)->Ok_0.messages;
        let after = progress_after(records, late)->Ok_0.messages;
        if late > 1 {
            only_commits_add_messages(
                progress_after(records, (late - 1) as nat)->Ok_0,
                records[late - 1].entry@,
            );
        }
        assert(before =~= after.subrange(0, before.len() as int));
        assert(shorter =~= after.subrange(0, shorter.len() as int)) by {
            assert(shorter == before.subrange(0, shorter.len() as int));
        }
    }
}

/// A stretch of records without a commit adds nothing: what an aborted or unterminated turn said
/// is not part of the conversation.
pub proof fn uncommitted_messages_are_not_projected(
    records: Seq<JournalRecord>,
    early: nat,
    late: nat,
)
    requires
        early <= late,
        progress_after(records, late) is Ok,
        forall|i: int| early <= i < late ==> !(#[trigger] records[i].entry is TurnCommitted),
    ensures
        progress_after(records, early) is Ok,
        progress_after(records, late)->Ok_0.messages == progress_after(
            records,
            early,
        )->Ok_0.messages,
    decreases late,
{
    if early < late {
        uncommitted_messages_are_not_projected(records, early, (late - 1) as nat);
        if late > 1 {
            only_commits_add_messages(
                progress_after(records, (late - 1) as nat)->Ok_0,
                records[late - 1].entry@,
            );
        }
    }
}

/// Whether the block at `at`, and no other, is the result of the call `id`.
pub open spec fn is_only_result(content: Seq<ContentBlockView>, id: Seq<char>, at: int) -> bool {
    &&& 0 <= at < content.len()
    &&& is_result_of(content[at], id)
    &&& forall|i: int| 0 <= i < content.len() && is_result_of(#[trigger] content[i], id) ==> i == at
}

/// The results answer the calls: each call has exactly one result, and nothing else is there.
pub open spec fn answers(calls: Seq<ContentBlockView>, results: Seq<ContentBlockView>) -> bool {
    &&& forall|i: int|
        0 <= i < calls.len() && (#[trigger] calls[i]) is ToolUse ==> exists|at: int| #[trigger]
            is_only_result(results, calls[i]->ToolUse_id, at)
    &&& forall|i: int|
        0 <= i < results.len() ==> (#[trigger] results[i]) is ToolResult && exists|at: int|
            0 <= at < calls.len() && #[trigger] is_call(
                calls[at],
                results[i]->ToolResult_0.tool_use_id,
            )
}

/// The message at `at` asks for no tools, or the next one is the user's and answers its calls.
pub open spec fn is_answered(messages: Seq<MessageView>, at: int) -> bool {
    asks_for_tools(messages[at].content) ==> at + 1 < messages.len() && messages[at + 1].role
        == Role::User && answers(messages[at].content, messages[at + 1].content)
}

/// Every message that asks for tools is followed by a message of the user that answers its calls.
pub open spec fn calls_answered(messages: Seq<MessageView>) -> bool {
    forall|i: int| 0 <= i < messages.len() ==> #[trigger] is_answered(messages, i)
}

/// The calls of a turn are answered but for those that are open, which its last message asks for.
spec fn calls_tracked(turn: TurnModel) -> bool {
    if turn.tool_calls == Map::<Seq<char>, ToolCallModel>::empty() {
        calls_answered(turn.messages)
    } else {
        &&& turn.messages.len() > 0
        &&& turn.tool_calls.dom() == requested_calls(turn.messages.last().content).dom()
        &&& calls_answered(turn.messages.drop_last())
    }
}

spec fn progress_tracked(progress: Progress) -> bool {
    &&& calls_answered(progress.messages)
    &&& progress.run matches Some(run) ==> run.turn matches Some(turn) ==> calls_tracked(turn)
}

/// What an assistant message asks for are its calls.
pub proof fn lemma_requested_calls(content: Seq<ContentBlockView>)
    ensures
        requested_calls(content).dom().finite(),
        forall|id: Seq<char>| #[trigger]
            requested_calls(content).contains_key(id) <==> exists|at: int|
                0 <= at < content.len() && #[trigger] is_call(content[at], id),
        asks_for_tools(content) <==> requested_calls(content) != Map::<
            Seq<char>,
            ToolCallModel,
        >::empty(),
    decreases content.len(),
{
    if content.len() > 0 {
        let before = content.drop_last();
        lemma_requested_calls(before);
        assert forall|id: Seq<char>| #[trigger]
            requested_calls(content).contains_key(id) <==> exists|at: int|
                0 <= at < content.len() && #[trigger] is_call(content[at], id) by {
            if requested_calls(content).contains_key(id) {
                if requested_calls(before).contains_key(id) {
                    let at = choose|at: int|
                        0 <= at < before.len() && #[trigger] is_call(before[at], id);
                    assert(is_call(content[at], id));
                } else {
                    assert(is_call(content[content.len() - 1], id));
                }
            }
            if exists|at: int| 0 <= at < content.len() && #[trigger] is_call(content[at], id) {
                let at = choose|at: int|
                    0 <= at < content.len() && #[trigger] is_call(content[at], id);
                if at < before.len() {
                    assert(is_call(before[at], id));
                }
            }
        }
    }
    if asks_for_tools(content) {
        let at = choose|at: int| 0 <= at < content.len() && content[at] is ToolUse;
        let id = content[at]->ToolUse_id;
        assert(is_call(content[at], id));
        assert(requested_calls(content).contains_key(id));
    } else {
        assert(requested_calls(content) =~= Map::empty()) by {
            assert forall|id: Seq<char>| !requested_calls(content).contains_key(id) by {
                if requested_calls(content).contains_key(id) {
                    let at = choose|at: int|
                        0 <= at < content.len() && #[trigger] is_call(content[at], id);
                    assert(content[at] is ToolUse);
                }
            }
        }
    }
}

/// Results without a fault are results of calls, each of another call.
proof fn lemma_faultless_results(
    calls: Map<Seq<char>, ToolCallModel>,
    content: Seq<ContentBlockView>,
)
    requires
        results_fault(calls, content) is None,
    ensures
        forall|i: int|
            0 <= i < content.len() ==> (#[trigger] content[i]) is ToolResult && calls.contains_key(
                content[i]->ToolResult_0.tool_use_id,
            ),
        forall|i: int, j: int|
            0 <= i < j < content.len() ==> (#[trigger] content[i])->ToolResult_0.tool_use_id != (
            #[trigger] content[j])->ToolResult_0.tool_use_id,
    decreases content.len(),
{
    if content.len() > 0 {
        let before = content.drop_last();
        lemma_faultless_results(calls, before);
        assert forall|i: int| 0 <= i < content.len() implies (#[trigger] content[i]) is ToolResult
            && calls.contains_key(content[i]->ToolResult_0.tool_use_id) by {
            if i < before.len() {
                assert(before[i] == content[i]);
            }
        }
        assert forall|i: int, j: int| 0 <= i < j < content.len() implies (
        #[trigger] content[i])->ToolResult_0.tool_use_id != (
        #[trigger] content[j])->ToolResult_0.tool_use_id by {
            assert(before[i] == content[i]);
            if j < before.len() {
                assert(before[j] == content[j]);
            } else {
                assert(!is_result_of(before[i], content.last()->ToolResult_0.tool_use_id));
            }
        }
    }
}

/// As many results as there are calls, without a fault, answer every call.
proof fn lemma_results_answer(
    open: Map<Seq<char>, ToolCallModel>,
    calls: Seq<ContentBlockView>,
    results: Seq<ContentBlockView>,
)
    requires
        open.dom() == requested_calls(calls).dom(),
        results_fault(open, results) is None,
        results.len() == open.dom().len(),
    ensures
        answers(calls, results),
{
    lemma_requested_calls(calls);
    lemma_faultless_results(open, results);
    let ids = Seq::new(results.len(), |i: int| results[i]->ToolResult_0.tool_use_id);
    assert(ids.no_duplicates());
    ids.unique_seq_to_set();
    assert(ids.to_set().subset_of(open.dom())) by {
        assert forall|id: Seq<char>| ids.to_set().contains(id) implies open.dom().contains(id) by {
            let i = choose|i: int| 0 <= i < ids.len() && ids[i] == id;
            assert(open.contains_key(results[i]->ToolResult_0.tool_use_id));
        }
    }
    lemma_subset_equality(ids.to_set(), open.dom());
    assert forall|i: int| 0 <= i < calls.len() && (#[trigger] calls[i]) is ToolUse implies exists|
        at: int,
    | #[trigger] is_only_result(results, calls[i]->ToolUse_id, at) by {
        let id = calls[i]->ToolUse_id;
        assert(is_call(calls[i], id));
        assert(requested_calls(calls).contains_key(id));
        assert(ids.to_set().contains(id));
        let at = choose|at: int| 0 <= at < ids.len() && ids[at] == id;
        assert forall|k: int|
            0 <= k < results.len() && is_result_of(#[trigger] results[k], id) implies k == at by {
            assert(ids[k] == ids[at]);
        }
        assert(is_only_result(results, id, at));
    }
    assert forall|i: int| 0 <= i < results.len() implies (#[trigger] results[i]) is ToolResult
        && exists|at: int|
        0 <= at < calls.len() && #[trigger] is_call(
            calls[at],
            results[i]->ToolResult_0.tool_use_id,
        ) by {
        assert(requested_calls(calls).contains_key(results[i]->ToolResult_0.tool_use_id));
    }
}

/// A message that asks for no tools keeps everything answered.
proof fn lemma_answered_pushed(messages: Seq<MessageView>, message: MessageView)
    requires
        calls_answered(messages),
        !asks_for_tools(message.content),
    ensures
        calls_answered(messages.push(message)),
{
    let longer = messages.push(message);
    assert forall|i: int| 0 <= i < longer.len() implies #[trigger] is_answered(longer, i) by {
        if i < messages.len() {
            assert(is_answered(messages, i));
            assert(longer[i] == messages[i]);
            if i + 1 < messages.len() {
                assert(longer[i + 1] == messages[i + 1]);
            }
        }
    }
}

/// A message that answers the last one leaves nothing unanswered.
proof fn lemma_answered_by(messages: Seq<MessageView>, message: MessageView)
    requires
        messages.len() > 0,
        calls_answered(messages.drop_last()),
        message.role == Role::User,
        answers(messages.last().content, message.content),
        !asks_for_tools(message.content),
    ensures
        calls_answered(messages.push(message)),
{
    let before = messages.drop_last();
    let longer = messages.push(message);
    assert forall|i: int| 0 <= i < longer.len() implies #[trigger] is_answered(longer, i) by {
        if i < before.len() {
            assert(is_answered(before, i));
            assert(longer[i] == before[i]);
            if i + 1 < before.len() {
                assert(longer[i + 1] == before[i + 1]);
            }
        } else if i == before.len() {
            assert(longer[i] == messages.last());
            assert(longer[i + 1] == message);
        } else {
            assert(longer[i] == message);
        }
    }
}

proof fn lemma_assistant_keeps_track(turn: TurnModel, message: MessageView)
    requires
        calls_tracked(turn),
        message.role == Role::Assistant,
        with_message(turn, message) is Ok,
    ensures
        calls_tracked(with_message(turn, message)->Ok_0),
{
    let after = with_message(turn, message)->Ok_0;
    lemma_requested_calls(message.content);
    assert(after.messages.drop_last() =~= turn.messages);
    if !asks_for_tools(message.content) {
        lemma_answered_pushed(turn.messages, message);
    }
}

proof fn lemma_user_keeps_track(turn: TurnModel, message: MessageView)
    requires
        calls_tracked(turn),
        message.role == Role::User,
        with_message(turn, message) is Ok,
    ensures
        calls_tracked(with_message(turn, message)->Ok_0),
{
    if turn.messages.len() == 0 {
        lemma_answered_pushed(turn.messages, message);
    } else {
        lemma_results_answer(turn.tool_calls, turn.messages.last().content, message.content);
        lemma_answered_by(turn.messages, message);
    }
}

proof fn lemma_answered_joined(first: Seq<MessageView>, second: Seq<MessageView>)
    requires
        calls_answered(first),
        calls_answered(second),
    ensures
        calls_answered(first + second),
{
    let both = first + second;
    assert forall|i: int| 0 <= i < both.len() implies #[trigger] is_answered(both, i) by {
        if i < first.len() {
            assert(is_answered(first, i));
            assert(both[i] == first[i]);
            if i + 1 < first.len() {
                assert(both[i + 1] == first[i + 1]);
            }
        } else {
            let at = i - first.len();
            assert(is_answered(second, at));
            assert(both[i] == second[at]);
            if at + 1 < second.len() {
                assert(both[i + 1] == second[at + 1]);
            }
        }
    }
}

proof fn lemma_step_keeps_track(progress: Progress, entry: EntryView)
    requires
        progress_tracked(progress),
        step(progress, entry) is Ok,
    ensures
        progress_tracked(step(progress, entry)->Ok_0),
{
    let after = step(progress, entry)->Ok_0;
    match entry {
        EntryView::MessageAdded(added) => {
            if added.message.role == Role::Assistant {
                lemma_assistant_keeps_track(progress.run->0.turn->0, added.message);
            } else {
                lemma_user_keeps_track(progress.run->0.turn->0, added.message);
            }
        },
        EntryView::TurnCommitted(_) => {
            lemma_answered_joined(progress.messages, progress.run->0.turn->0.messages);
        },
        EntryView::ToolStarted(_) | EntryView::ToolCompleted(_) | EntryView::ToolFailed(_)
        | EntryView::ToolCancelled(_) | EntryView::ToolRejected(_) => {
            let open = progress.run->0.turn->0.tool_calls;
            let moved = after.run->0.turn->0.tool_calls;
            assert(moved.dom() =~= open.dom());
        },
        _ => {},
    }
}

proof fn lemma_progress_tracked(records: Seq<JournalRecord>, count: nat)
    requires
        progress_after(records, count) is Ok,
    ensures
        progress_tracked(progress_after(records, count)->Ok_0),
    decreases count,
{
    if count > 1 {
        lemma_progress_tracked(records, (count - 1) as nat);
        lemma_step_keeps_track(
            progress_after(records, (count - 1) as nat)->Ok_0,
            records[count - 1].entry@,
        );
    }
}

/// In the conversation that a journal projects to, the message after one that asks for tools
/// answers every call exactly once.
pub proof fn projected_calls_are_answered(records: Seq<JournalRecord>)
    requires
        projection(records) is Ok,
    ensures
        calls_answered(projection(records)->Ok_0.messages),
{
    lemma_progress_tracked(records, records.len());
}

/// An approval for the run outlives its turn: as long as the run goes on and no other decision is
/// recorded, it authorizes every call of the tool that it names.
pub proof fn run_approvals_cross_turns(
    progress: Progress,
    entry: EntryView,
    approval_id: ApprovalId,
    tool_name: Seq<char>,
)
    requires
        progress.run is Some,
        step(progress, entry) is Ok,
        step(progress, entry)->Ok_0.run is Some,
        !(entry is ApprovalDecided),
        run_authorization_fault(progress.run->0.run_approvals, approval_id, tool_name) is None,
    ensures
        run_authorization_fault(
            step(progress, entry)->Ok_0.run->0.run_approvals,
            approval_id,
            tool_name,
        ) is None,
{
}

/// A one-time approval authorizes the one call that it was asked for, and none in a later turn.
pub proof fn one_time_approvals_are_call_specific(
    turn: TurnModel,
    approval_id: ApprovalId,
    tool_call_id: Seq<char>,
    tool_name: Seq<char>,
    next_turn: TurnId,
)
    ensures
        once_authorization_fault(turn.approvals, approval_id, tool_call_id, tool_name) is None
            ==> turn.approvals[approval_id].tool_call_id == tool_call_id
            && turn.approvals[approval_id].tool_name == tool_name,
        once_authorization_fault(
            fresh_turn(next_turn).approvals,
            approval_id,
            tool_call_id,
            tool_name,
        ) is Some,
{
}

/// A tool call starts at most once, and only where it was authorized: after a start was accepted,
/// no second start of the same call is.
pub proof fn a_call_starts_once(
    progress: Progress,
    first: EntryView,
    second: EntryView,
)
    requires
        first is ToolStarted,
        second is ToolStarted,
        first->ToolStarted_0.tool_call_id == second->ToolStarted_0.tool_call_id,
        step(progress, first) is Ok,
    ensures
        step(step(progress, first)->Ok_0, second) is Err,
{
}

/// A turn is committed only when nothing in it is left open, and nothing of it remains active.
pub proof fn commits_leave_nothing_open(progress: Progress, entry: EntryView)
    requires
        entry is TurnCommitted,
        step(progress, entry) is Ok,
    ensures
        ({
            let turn = progress.run->0.turn->0;
            &&& turn.provider_round is None
            &&& turn.awaiting_assistant is None
            &&& turn.tool_calls == Map::<Seq<char>, ToolCallModel>::empty()
            &&& forall|id: ApprovalId| #[trigger]
                turn.approvals.contains_key(id) ==> turn.approvals[id].decision is Some
            &&& step(progress, entry)->Ok_0.run->0.turn is None
        }),
{
}

/// The calls that a message asks for are those of its tool-use blocks.
pub proof fn lemma_requested(content: Seq<ContentBlockView>, id: Seq<char>)
    ensures
        requested_calls(content).contains_key(id) <==> exists|i: int|
            0 <= i < content.len() && is_call(#[trigger] content[i], id),
    decreases content.len(),
{
    if content.len() > 0 {
        let before = content.drop_last();
        lemma_requested(before, id);
        assert(content[content.len() - 1] == content.last());
        if requested_calls(before).contains_key(id) {
            let i = choose|i: int| 0 <= i < before.len() && is_call(#[trigger] before[i], id);
            assert(is_call(content[i], id));
        }
        if exists|i: int| 0 <= i < content.len() && is_call(#[trigger] content[i], id) {
            let i = choose|i: int| 0 <= i < content.len() && is_call(#[trigger] content[i], id);
            if i < before.len() {
                assert(is_call(before[i], id));
            }
        }
    }
}

} // verus!
