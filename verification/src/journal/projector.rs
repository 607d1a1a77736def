//! Projecting a journal: replaying its records into the conversation that was committed.
use crate::entries::{
    entries_map, keys_distinct, lemma_entries_count, lemma_entries_have_keys, lemma_entries_push,
    lemma_entries_update, lemma_entry_at, lemma_latest_entry,
};
use crate::journal::id::{ApprovalId, ProviderRoundId, RunId, SessionId, TurnId};
use crate::journal::lifecycle::{
    active_run, all_text, asks_for_tools, assistant_fault, authorization_fault, commit_fault,
    decision_of, fresh_turn, is_result_of, named_run, named_turn, once_authorization_fault,
    open_warnings, progress_after, projection, requested_calls, results_fault,
    run_authorization_fault, step, turn_of_any_run, turn_of_run, with_approval_requested,
    with_assistant, with_decision, with_message, with_pending_moved, with_results,
    with_round_completed, with_round_finished, with_round_started, with_tool_finished,
    ApprovalModel, Progress, ProjectionErrorView, ProjectionView, ProjectionWarning,
    RecordedDecision, RunModel, ToolCallModel, ToolState, TurnModel,
};
use crate::journal::schema::{
    JournalApprovalDecision, JournalEntry, JournalRecord, ToolAuthorization, TurnCommitOutcome,
};
use crate::message::{
    block_views, message_views, ContentBlock, ContentBlockView, Message, Role, StopReason,
    StopReasonView,
};
use crate::protocol::ApprovalLifetime;
use crate::text::{decimal, push_decimal, same_text};
use vstd::prelude::*;
use vstd::string::StringExecFns;

verus! {

/// The conversation that a journal holds, and what it left open.
#[derive(Clone, Debug, PartialEq, Eq)]
pub struct SessionProjection {
    pub instructions: String,
    pub messages: Vec<Message>,
    pub session_id: SessionId,
    pub warnings: Vec<ProjectionWarning>,
}

impl View for SessionProjection {
    type V = ProjectionView;

    open spec fn view(&self) -> ProjectionView {
        ProjectionView {
            instructions: self.instructions@,
            messages: message_views(self.messages@),
            session_id: self.session_id,
            warnings: self.warnings@,
        }
    }
}

/// The record at which a journal breaks its lifecycle, and how.
#[derive(Clone, Debug, PartialEq, Eq)]
pub struct ProjectionError {
    pub detail: String,
    pub sequence: u64,
}

impl ProjectionError {
    /// The error in words.
    pub fn describe(&self) -> (words: String)
        ensures
            words@ == "invalid journal lifecycle at sequence "@ + decimal(self.sequence as nat)
                + ": "@ + self.detail@,
    {
        let mut words = "invalid journal lifecycle at sequence ".to_owned();
        push_decimal(&mut words, self.sequence);
        words.concat(": ").concat(self.detail.as_str())
    }
}

impl View for ProjectionError {
    type V = ProjectionErrorView;

    open spec fn view(&self) -> ProjectionErrorView {
        ProjectionErrorView { detail: self.detail@, sequence: self.sequence }
    }
}

/// A tool call of the active turn.
pub struct ToolCallState {
    pub id: String,
    pub name: String,
    pub state: ToolState,
}

/// An approval of the active turn.
pub struct ApprovalState {
    pub approval_id: ApprovalId,
    pub decision: Option<RecordedDecision>,
    pub tool_call_id: String,
    pub tool_name: String,
}

/// A tool that is allowed for the rest of the run.
pub struct RunApproval {
    pub approval_id: ApprovalId,
    pub tool_name: String,
}

pub open spec fn call_entries(calls: Seq<ToolCallState>) -> Seq<(Seq<char>, ToolCallModel)> {
    Seq::new(
        calls.len(),
        |i: int|
            (calls[i].id@, ToolCallModel { name: calls[i].name@, state: calls[i].state }),
    )
}

pub open spec fn approval_entries(approvals: Seq<ApprovalState>) -> Seq<
    (ApprovalId, ApprovalModel),
> {
    Seq::new(
        approvals.len(),
        |i: int|
            (
                approvals[i].approval_id,
                ApprovalModel {
                    decision: approvals[i].decision,
                    tool_call_id: approvals[i].tool_call_id@,
                    tool_name: approvals[i].tool_name@,
                },
            ),
    )
}

pub open spec fn run_approval_entries(approvals: Seq<RunApproval>) -> Seq<(ApprovalId, Seq<char>)> {
    Seq::new(approvals.len(), |i: int| (approvals[i].approval_id, approvals[i].tool_name@))
}

pub open spec fn stop_view(stop: Option<StopReason>) -> Option<StopReasonView> {
    match stop {
        None => None,
        Some(reason) => Some(reason@),
    }
}

/// The active turn.
pub struct TurnState {
    pub approvals: Vec<ApprovalState>,
    pub awaiting_assistant: Option<StopReason>,
    pub id: TurnId,
    pub last_assistant_stop: Option<StopReason>,
    pub messages: Vec<Message>,
    pub provider_round: Option<ProviderRoundId>,
    pub provider_rounds: Vec<ProviderRoundId>,
    pub tool_calls: Vec<ToolCallState>,
}

impl View for TurnState {
    type V = TurnModel;

    open spec fn view(&self) -> TurnModel {
        TurnModel {
            approvals: entries_map(approval_entries(self.approvals@)),
            awaiting_assistant: stop_view(self.awaiting_assistant),
            id: self.id,
            last_assistant_stop: stop_view(self.last_assistant_stop),
            messages: message_views(self.messages@),
            provider_round: self.provider_round,
            provider_rounds: self.provider_rounds@.to_set(),
            tool_calls: entries_map(call_entries(self.tool_calls@)),
        }
    }
}

impl TurnState {
    /// Tool calls and approvals are listed once each.
    pub open spec fn wf(self) -> bool {
        &&& keys_distinct(call_entries(self.tool_calls@))
        &&& keys_distinct(approval_entries(self.approvals@))
    }
}

/// The active run.
pub struct RunState {
    pub id: RunId,
    pub run_approvals: Vec<RunApproval>,
    pub turn: Option<TurnState>,
}

pub open spec fn turn_view(turn: Option<TurnState>) -> Option<TurnModel> {
    match turn {
        None => None,
        Some(turn) => Some(turn@),
    }
}

impl View for RunState {
    type V = RunModel;

    open spec fn view(&self) -> RunModel {
        RunModel {
            id: self.id,
            run_approvals: entries_map(run_approval_entries(self.run_approvals@)),
            turn: turn_view(self.turn),
        }
    }
}

impl RunState {
    pub open spec fn wf(self) -> bool {
        self.turn is Some ==> self.turn->0.wf()
    }
}

pub open spec fn run_view(run: Option<RunState>) -> Option<RunModel> {
    match run {
        None => None,
        Some(run) => Some(run@),
    }
}

pub open spec fn run_wf(run: Option<RunState>) -> bool {
    run is Some ==> run->0.wf()
}

/// Whether `outcome` is `expected`, with an error placed at `sequence`.
pub open spec fn turn_outcome(
    outcome: Result<TurnState, ProjectionError>,
    expected: Result<TurnModel, Seq<char>>,
    sequence: u64,
) -> bool {
    match expected {
        Ok(turn) => outcome is Ok && outcome->Ok_0@ == turn && outcome->Ok_0.wf(),
        Err(detail) => outcome is Err && outcome->Err_0@ == (ProjectionErrorView {
            detail,
            sequence,
        }),
    }
}

/// Whether `outcome` is free of the fault, or is the fault placed at `sequence`.
pub open spec fn fault_outcome(
    outcome: Result<(), ProjectionError>,
    expected: Option<Seq<char>>,
    sequence: u64,
) -> bool {
    match expected {
        None => outcome is Ok,
        Some(detail) => outcome is Err && outcome->Err_0@ == (ProjectionErrorView {
            detail,
            sequence,
        }),
    }
}

fn invalid(sequence: u64, detail: &str) -> (error: ProjectionError)
    ensures
        error@ == (ProjectionErrorView { detail: detail@, sequence }),
{
    ProjectionError { detail: detail.to_owned(), sequence }
}

fn find_call(calls: &Vec<ToolCallState>, id: &str) -> (found: Option<usize>)
    requires
        keys_distinct(call_entries(calls@)),
    ensures
        match found {
            None => !entries_map(call_entries(calls@)).contains_key(id@),
            Some(at) => at < calls@.len() && calls@[at as int].id@ == id@ && entries_map(
                call_entries(calls@),
            ).contains_key(id@) && entries_map(call_entries(calls@))[id@]
                == call_entries(calls@)[at as int].1,
        },
{
    let mut index: usize = 0;
    while index < calls.len()
        invariant
            index <= calls.len(),
            keys_distinct(call_entries(calls@)),
            forall|i: int| 0 <= i < index ==> calls@[i].id@ != id@,
        decreases calls.len() - index,
    {
        if same_text(calls[index].id.as_str(), id) {
            proof {
                lemma_entry_at(call_entries(calls@), index as int);
            }
            return Some(index);
        }
        index += 1;
    }
    proof {
        lemma_entries_have_keys(call_entries(calls@));
    }
    None
}

fn find_approval(approvals: &Vec<ApprovalState>, id: ApprovalId) -> (found: Option<usize>)
    requires
        keys_distinct(approval_entries(approvals@)),
    ensures
        match found {
            None => !entries_map(approval_entries(approvals@)).contains_key(id),
            Some(at) => at < approvals@.len() && approvals@[at as int].approval_id == id
                && entries_map(approval_entries(approvals@)).contains_key(id) && entries_map(
                approval_entries(approvals@),
            )[id] == approval_entries(approvals@)[at as int].1,
        },
{
    let mut index: usize = 0;
    while index < approvals.len()
        invariant
            index <= approvals.len(),
            keys_distinct(approval_entries(approvals@)),
            forall|i: int| 0 <= i < index ==> approvals@[i].approval_id != id,
        decreases approvals.len() - index,
    {
        if approvals[index].approval_id == id {
            proof {
                lemma_entry_at(approval_entries(approvals@), index as int);
            }
            return Some(index);
        }
        index += 1;
    }
    proof {
        lemma_entries_have_keys(approval_entries(approvals@));
    }
    None
}

fn find_run_approval(approvals: &Vec<RunApproval>, id: ApprovalId) -> (found: Option<usize>)
    ensures
        match found {
            None => !entries_map(run_approval_entries(approvals@)).contains_key(id),
            Some(at) => at < approvals@.len() && entries_map(
                run_approval_entries(approvals@),
            ).contains_key(id) && entries_map(run_approval_entries(approvals@))[id]
                == approvals@[at as int].tool_name@,
        },
{
    let mut index: usize = approvals.len();
    while index > 0
        invariant
            index <= approvals.len(),
            forall|i: int| index <= i < approvals.len() ==> approvals@[i].approval_id != id,
        decreases index,
    {
        index -= 1;
        if approvals[index].approval_id == id {
            proof {
                lemma_latest_entry(run_approval_entries(approvals@), index as int);
            }
            return Some(index);
        }
    }
    proof {
        lemma_entries_have_keys(run_approval_entries(approvals@));
    }
    None
}

/// The tool calls that an assistant message asks for.
fn collect_calls(content: &Vec<ContentBlock>, sequence: u64) -> (collected: Result<
    Vec<ToolCallState>,
    ProjectionError,
>)
    ensures
        match assistant_fault(block_views(content@)) {
            Some(detail) => collected is Err && collected->Err_0@ == (ProjectionErrorView {
                detail,
                sequence,
            }),
            None => collected is Ok && keys_distinct(call_entries(collected->Ok_0@))
                && entries_map(call_entries(collected->Ok_0@)) == requested_calls(
                block_views(content@),
            ) && (collected->Ok_0@.len() > 0 <==> asks_for_tools(block_views(content@))),
        },
{
    let mut calls: Vec<ToolCallState> = Vec::new();
    let mut index: usize = 0;
    let ghost views = block_views(content@);
    assert(views.take(0) =~= Seq::empty());
    while index < content.len()
        invariant
            index <= content.len(),
            views == block_views(content@),
            assistant_fault(views.take(index as int)) is None,
            keys_distinct(call_entries(calls@)),
            entries_map(call_entries(calls@)) == requested_calls(views.take(index as int)),
            calls@.len() > 0 <==> exists|i: int| 0 <= i < index && views[i] is ToolUse,
        decreases content.len() - index,
    {
        let ghost here = views.take(index + 1);
        let ghost before = calls@;
        proof {
            assert(here.drop_last() =~= views.take(index as int));
            assert(here.last() == content@[index as int]@);
        }
        match &content[index] {
            ContentBlock::Text { .. } => {},
            ContentBlock::ToolUse { id, name, .. } => {
                if find_call(&calls, id.as_str()).is_some() {
                    proof {
                        assert(assistant_fault(here) == Some(
                            "assistant message repeats a tool call ID"@,
                        ));
                        lemma_first_fault_stays(views, index + 1);
                    }
                    return Err(invalid(sequence, "assistant message repeats a tool call ID"));
                }
                calls.push(
                    ToolCallState {
                        id: id.clone(),
                        name: name.clone(),
                        state: ToolState::Pending,
                    },
                );
                proof {
                    let model = ToolCallModel { name: name@, state: ToolState::Pending };
                    assert(call_entries(calls@) =~= call_entries(before).push((id@, model)));
                    lemma_entries_push(call_entries(before), id@, model);
                    assert(views[index as int] is ToolUse);
                }
            },
            ContentBlock::ToolResult(_) => {
                proof {
                    assert(assistant_fault(here) == Some(
                        "assistant message contains a tool result"@,
                    ));
                    lemma_first_fault_stays(views, index + 1);
                }
                return Err(invalid(sequence, "assistant message contains a tool result"));
            },
        }
        index += 1;
    }
    assert(views.take(views.len() as int) =~= views);
    Ok(calls)
}

/// A fault among the first blocks is the fault of the whole message.
proof fn lemma_first_fault_stays(
    content: Seq<ContentBlockView>,
    count: int,
)
    requires
        0 <= count <= content.len(),
        assistant_fault(content.take(count)) is Some,
    ensures
        assistant_fault(content) == assistant_fault(content.take(count)),
    decreases content.len(),
{
    if count == content.len() {
        assert(content.take(count) =~= content);
    } else {
        assert(content.drop_last().take(count) =~= content.take(count));
        lemma_first_fault_stays(content.drop_last(), count);
    }
}

fn add_assistant_message(turn: TurnState, message: &Message, sequence: u64) -> (outcome: Result<
    TurnState,
    ProjectionError,
>)
    requires
        turn.wf(),
    ensures
        turn_outcome(outcome, with_assistant(turn@, message@.content), sequence),
{
    let mut turn = turn;
    let stop_reason = match turn.awaiting_assistant.take() {
        None => {
            return Err(invalid(sequence, "assistant message has no completed provider round"));
        },
        Some(stop_reason) => stop_reason,
    };
    if turn.tool_calls.len() > 0 {
        proof {
            lemma_entry_at(call_entries(turn.tool_calls@), 0);
        }
        return Err(invalid(sequence, "assistant message arrived before prior tool results"));
    }
    let calls = match collect_calls(&message.content, sequence) {
        Ok(calls) => calls,
        Err(error) => {
            return Err(error);
        },
    };
    if (calls.len() > 0) != stop_reason.is_tool_use() {
        return Err(
            invalid(
                sequence,
                "assistant tool calls do not agree with the provider stop reason",
            ),
        );
    }
    turn.tool_calls = calls;
    turn.last_assistant_stop = Some(stop_reason);
    Ok(turn)
}

/// A fault among the first blocks is the fault of the whole message.
proof fn lemma_first_result_fault_stays(
    calls: Map<Seq<char>, ToolCallModel>,
    content: Seq<ContentBlockView>,
    count: int,
)
    requires
        0 <= count <= content.len(),
        results_fault(calls, content.take(count)) is Some,
    ensures
        results_fault(calls, content) == results_fault(calls, content.take(count)),
    decreases content.len(),
{
    if count == content.len() {
        assert(content.take(count) =~= content);
    } else {
        assert(content.drop_last().take(count) =~= content.take(count));
        lemma_first_result_fault_stays(calls, content.drop_last(), count);
    }
}

/// Whether one of the first `count` blocks is the result of the call `id`.
fn has_result(content: &Vec<ContentBlock>, count: usize, id: &str) -> (found: bool)
    requires
        count <= content@.len(),
    ensures
        found <==> exists|i: int|
            0 <= i < count && is_result_of(#[trigger] block_views(content@).take(count as int)[i], id@),
{
    let ghost before = block_views(content@).take(count as int);
    let mut index: usize = 0;
    while index < count
        invariant
            index <= count <= content.len(),
            before == block_views(content@).take(count as int),
            forall|i: int| 0 <= i < index ==> !is_result_of(#[trigger] before[i], id@),
        decreases count - index,
    {
        assert(before[index as int] == content@[index as int]@);
        match &content[index] {
            ContentBlock::ToolResult(result) => {
                if same_text(result.tool_use_id.as_str(), id) {
                    assert(is_result_of(before[index as int], id@));
                    return true;
                }
            },
            _ => {},
        }
        index += 1;
    }
    false
}

fn check_results(turn: &TurnState, content: &Vec<ContentBlock>, sequence: u64) -> (outcome: Result<
    (),
    ProjectionError,
>)
    requires
        turn.wf(),
    ensures
        fault_outcome(outcome, results_fault(turn@.tool_calls, block_views(content@)), sequence),
{
    let ghost calls = turn@.tool_calls;
    let ghost views = block_views(content@);
    let mut index: usize = 0;
    assert(views.take(0) =~= Seq::empty());
    while index < content.len()
        invariant
            index <= content.len(),
            turn.wf(),
            calls == turn@.tool_calls,
            views == block_views(content@),
            results_fault(calls, views.take(index as int)) is None,
        decreases content.len() - index,
    {
        let ghost here = views.take(index + 1);
        proof {
            assert(here.drop_last() =~= views.take(index as int));
            assert(here.last() == content@[index as int]@);
            if results_fault(calls, here) is Some {
                lemma_first_result_fault_stays(calls, views, index + 1);
            }
        }
        match &content[index] {
            ContentBlock::ToolResult(result) => {
                match find_call(&turn.tool_calls, result.tool_use_id.as_str()) {
                    None => {
                        return Err(invalid(sequence, "tool result refers to an unknown tool call"));
                    },
                    Some(at) => {
                        if turn.tool_calls[at].state != ToolState::Terminal {
                            return Err(
                                invalid(
                                    sequence,
                                    "tool result was recorded before its terminal lifecycle record",
                                ),
                            );
                        }
                    },
                }
                if has_result(content, index, result.tool_use_id.as_str()) {
                    return Err(invalid(sequence, "tool result ID is repeated"));
                }
            },
            _ => {
                return Err(invalid(sequence, "tool-result message contains non-result content"));
            },
        }
        index += 1;
    }
    assert(views.take(views.len() as int) =~= views);
    Ok(())
}

fn add_tool_results(turn: TurnState, message: &Message, sequence: u64) -> (outcome: Result<
    TurnState,
    ProjectionError,
>)
    requires
        turn.wf(),
    ensures
        turn_outcome(outcome, with_results(turn@, message@.content), sequence),
{
    let mut turn = turn;
    if turn.tool_calls.len() == 0 {
        return Err(invalid(sequence, "additional user message has no pending tool calls"));
    }
    proof {
        lemma_entry_at(call_entries(turn.tool_calls@), 0);
        lemma_entries_count(call_entries(turn.tool_calls@));
    }
    match check_results(&turn, &message.content, sequence) {
        Err(error) => {
            return Err(error);
        },
        Ok(()) => {},
    }
    if message.content.len() != turn.tool_calls.len() {
        return Err(
            invalid(sequence, "tool-result message does not resolve every tool call"),
        );
    }
    turn.tool_calls.clear();
    Ok(turn)
}

fn only_text(content: &Vec<ContentBlock>) -> (only: bool)
    ensures
        only == all_text(block_views(content@)),
{
    let ghost views = block_views(content@);
    let mut index: usize = 0;
    while index < content.len()
        invariant
            index <= content.len(),
            views == block_views(content@),
            forall|i: int| 0 <= i < index ==> views[i] is Text,
        decreases content.len() - index,
    {
        match &content[index] {
            ContentBlock::Text { .. } => {},
            _ => {
                assert(!(views[index as int] is Text));
                return false;
            },
        }
        index += 1;
    }
    true
}

fn add_message(turn: TurnState, message: &Message, sequence: u64) -> (outcome: Result<
    TurnState,
    ProjectionError,
>)
    requires
        turn.wf(),
    ensures
        turn_outcome(outcome, with_message(turn@, message@), sequence),
{
    let checked = match message.role {
        Role::User => {
            if turn.messages.len() == 0 {
                if only_text(&message.content) {
                    Ok(turn)
                } else {
                    Err(invalid(sequence, "the first turn message must contain only user text"))
                }
            } else {
                add_tool_results(turn, message, sequence)
            }
        },
        Role::Assistant => add_assistant_message(turn, message, sequence),
    };
    match checked {
        Err(error) => Err(error),
        Ok(turn) => {
            let mut turn = turn;
            let ghost before = turn.messages@;
            turn.messages.push(message.clone());
            assert(message_views(turn.messages@) =~= message_views(before).push(message@));
            Ok(turn)
        },
    }
}

fn knows_round(rounds: &Vec<ProviderRoundId>, round: ProviderRoundId) -> (known: bool)
    ensures
        known == rounds@.to_set().contains(round),
{
    let mut index: usize = 0;
    while index < rounds.len()
        invariant
            index <= rounds.len(),
            forall|i: int| 0 <= i < index ==> rounds@[i] != round,
        decreases rounds.len() - index,
    {
        if rounds[index] == round {
            assert(rounds@.contains(round));
            return true;
        }
        index += 1;
    }
    false
}

fn start_provider_round(turn: TurnState, round: ProviderRoundId, sequence: u64) -> (outcome: Result<
    TurnState,
    ProjectionError,
>)
    requires
        turn.wf(),
    ensures
        turn_outcome(outcome, with_round_started(turn@, round), sequence),
{
    let mut turn = turn;
    if turn.provider_round.is_some() || turn.awaiting_assistant.is_some() {
        return Err(
            invalid(sequence, "provider round started before the previous round was resolved"),
        );
    }
    let count = turn.messages.len();
    if count == 0 || turn.messages[count - 1].role != Role::User {
        return Err(
            invalid(sequence, "provider round started without a preceding user message"),
        );
    }
    if knows_round(&turn.provider_rounds, round) {
        return Err(invalid(sequence, "provider round ID is reused within a turn"));
    }
    let ghost before = turn.provider_rounds@;
    turn.provider_rounds.push(round);
    proof {
        assert(turn.provider_rounds@.to_set() =~= before.to_set().insert(round)) by {
            assert forall|id: ProviderRoundId|
                turn.provider_rounds@.contains(id) <==> before.contains(id) || id == round by {
                if before.contains(id) {
                    let i = choose|i: int| 0 <= i < before.len() && before[i] == id;
                    assert(turn.provider_rounds@[i] == id);
                }
                if id == round {
                    assert(turn.provider_rounds@[before.len() as int] == id);
                }
            }
        }
    }
    turn.provider_round = Some(round);
    Ok(turn)
}

fn finish_provider_round(turn: TurnState, round: ProviderRoundId, sequence: u64) -> (outcome:
    Result<TurnState, ProjectionError>)
    requires
        turn.wf(),
    ensures
        turn_outcome(outcome, with_round_finished(turn@, round), sequence),
{
    let mut turn = turn;
    match turn.provider_round {
        Some(active) if active == round => {
            turn.provider_round = None;
            Ok(turn)
        },
        _ => Err(invalid(sequence, "provider terminal record does not match the active round")),
    }
}

fn request_approval(
    turn: TurnState,
    approval_id: ApprovalId,
    tool_call_id: &str,
    tool_name: &str,
    sequence: u64,
) -> (outcome: Result<TurnState, ProjectionError>)
    requires
        turn.wf(),
    ensures
        turn_outcome(
            outcome,
            with_approval_requested(turn@, approval_id, tool_call_id@, tool_name@),
            sequence,
        ),
{
    let mut turn = turn;
    match find_call(&turn.tool_calls, tool_call_id) {
        None => {
            return Err(invalid(sequence, "approval refers to an unknown tool call"));
        },
        Some(at) => {
            if !same_text(turn.tool_calls[at].name.as_str(), tool_name) {
                return Err(invalid(sequence, "approval tool name does not match its tool call"));
            }
        },
    }
    if find_approval(&turn.approvals, approval_id).is_some() {
        return Err(invalid(sequence, "approval ID is reused"));
    }
    let ghost before = turn.approvals@;
    turn.approvals.push(
        ApprovalState {
            approval_id,
            decision: None,
            tool_call_id: tool_call_id.to_owned(),
            tool_name: tool_name.to_owned(),
        },
    );
    proof {
        let model = ApprovalModel {
            decision: None,
            tool_call_id: tool_call_id@,
            tool_name: tool_name@,
        };
        assert(approval_entries(turn.approvals@) =~= approval_entries(before).push(
            (approval_id, model),
        ));
        lemma_entries_push(approval_entries(before), approval_id, model);
    }
    Ok(turn)
}

fn recorded_decision(decision: &JournalApprovalDecision) -> (recorded: RecordedDecision)
    ensures
        recorded == decision_of(decision@),
{
    match decision {
        JournalApprovalDecision::AllowForRun => RecordedDecision::AllowForRun,
        JournalApprovalDecision::AllowOnce => RecordedDecision::AllowOnce,
        JournalApprovalDecision::Deny { .. } => RecordedDecision::Deny,
        JournalApprovalDecision::Grant { grant } => if grant.lifetime()
            == ApprovalLifetime::Invocation {
            RecordedDecision::AllowOnce
        } else {
            RecordedDecision::AllowForRun
        },
    }
}

fn decide_approval(
    run: RunState,
    approval_id: ApprovalId,
    decision: RecordedDecision,
    sequence: u64,
) -> (outcome: Result<RunState, ProjectionError>)
    requires
        run.wf(),
    ensures
        match with_decision(run@, approval_id, decision) {
            Ok(expected) => outcome is Ok && outcome->Ok_0@ == expected && outcome->Ok_0.wf(),
            Err(detail) => outcome is Err && outcome->Err_0@ == (ProjectionErrorView {
                detail,
                sequence,
            }),
        },
{
    let mut run = run;
    let mut turn = match run.turn.take() {
        None => {
            return Err(invalid(sequence, "record has no active turn"));
        },
        Some(turn) => turn,
    };
    let at = match find_approval(&turn.approvals, approval_id) {
        None => {
            return Err(invalid(sequence, "approval decision has no matching request"));
        },
        Some(at) => at,
    };
    if turn.approvals[at].decision.is_some() {
        return Err(invalid(sequence, "approval is decided more than once"));
    }
    let tool_call_id = turn.approvals[at].tool_call_id.clone();
    let tool_name = turn.approvals[at].tool_name.clone();
    if decision == RecordedDecision::AllowForRun {
        let ghost before = run.run_approvals@;
        run.run_approvals.push(RunApproval { approval_id, tool_name: tool_name.clone() });
        proof {
            assert(run_approval_entries(run.run_approvals@) =~= run_approval_entries(before).push(
                (approval_id, tool_name@),
            ));
            lemma_entries_push(run_approval_entries(before), approval_id, tool_name@);
        }
    }
    let ghost before = turn.approvals@;
    turn.approvals[at] = ApprovalState {
        approval_id,
        decision: Some(decision),
        tool_call_id,
        tool_name,
    };
    proof {
        let model = ApprovalModel {
            decision: Some(decision),
            ..approval_entries(before)[at as int].1
        };
        assert(approval_entries(turn.approvals@) =~= approval_entries(before).update(
            at as int,
            (approval_id, model),
        ));
        lemma_entries_update(approval_entries(before), at as int, model);
    }
    run.turn = Some(turn);
    Ok(run)
}

fn authorize_for_run(
    run_approvals: &Vec<RunApproval>,
    approval_id: ApprovalId,
    tool_name: &str,
    sequence: u64,
) -> (outcome: Result<(), ProjectionError>)
    ensures
        fault_outcome(
            outcome,
            run_authorization_fault(
                entries_map(run_approval_entries(run_approvals@)),
                approval_id,
                tool_name@,
            ),
            sequence,
        ),
{
    match find_run_approval(run_approvals, approval_id) {
        Some(at) if same_text(run_approvals[at].tool_name.as_str(), tool_name) => Ok(()),
        _ => Err(invalid(sequence, "run approval does not authorize this tool")),
    }
}

fn authorize_once(
    turn: &TurnState,
    approval_id: ApprovalId,
    tool_call_id: &str,
    tool_name: &str,
    sequence: u64,
) -> (outcome: Result<(), ProjectionError>)
    requires
        turn.wf(),
    ensures
        fault_outcome(
            outcome,
            once_authorization_fault(turn@.approvals, approval_id, tool_call_id@, tool_name@),
            sequence,
        ),
{
    match find_approval(&turn.approvals, approval_id) {
        None => Err(invalid(sequence, "tool authorization has no matching approval decision")),
        Some(at) => {
            let approval = &turn.approvals[at];
            let allowed_once = match approval.decision {
                Some(decision) => decision == RecordedDecision::AllowOnce,
                None => false,
            };
            if allowed_once && same_text(approval.tool_call_id.as_str(), tool_call_id)
                && same_text(approval.tool_name.as_str(), tool_name) {
                Ok(())
            } else {
                Err(invalid(sequence, "one-time approval does not authorize this tool call"))
            }
        },
    }
}

/// Whether a tool start is authorized: by an approval for the run that names the tool, by a
/// one-time approval of this very call, or by needing none.
pub fn authorize_tool_start(
    run_approvals: &Vec<RunApproval>,
    turn: &TurnState,
    authorization: &ToolAuthorization,
    tool_call_id: &str,
    tool_name: &str,
    sequence: u64,
) -> (outcome: Result<(), ProjectionError>)
    requires
        turn.wf(),
    ensures
        fault_outcome(
            outcome,
            authorization_fault(
                entries_map(run_approval_entries(run_approvals@)),
                turn@.approvals,
                authorization@,
                tool_call_id@,
                tool_name@,
            ),
            sequence,
        ),
{
    match authorization {
        ToolAuthorization::ApprovedForRun { approval_id } => authorize_for_run(
            run_approvals,
            *approval_id,
            tool_name,
            sequence,
        ),
        ToolAuthorization::ApprovedOnce { approval_id } => authorize_once(
            turn,
            *approval_id,
            tool_call_id,
            tool_name,
            sequence,
        ),
        ToolAuthorization::Granted { approval_id, grant } => if grant.lifetime()
            == ApprovalLifetime::Invocation {
            authorize_once(turn, *approval_id, tool_call_id, tool_name, sequence)
        } else {
            authorize_for_run(run_approvals, *approval_id, tool_name, sequence)
        },
        ToolAuthorization::NotRequired => Ok(()),
    }
}

fn move_call(turn: TurnState, at: usize, state: ToolState) -> (moved: TurnState)
    requires
        turn.wf(),
        at < turn.tool_calls@.len(),
    ensures
        moved.wf(),
        moved@ == (TurnModel {
            tool_calls: turn@.tool_calls.insert(
                turn.tool_calls@[at as int].id@,
                ToolCallModel { name: turn.tool_calls@[at as int].name@, state },
            ),
            ..turn@
        }),
{
    let mut turn = turn;
    let ghost before = turn.tool_calls@;
    let id = turn.tool_calls[at].id.clone();
    let name = turn.tool_calls[at].name.clone();
    turn.tool_calls[at] = ToolCallState { id, name, state };
    proof {
        let model = ToolCallModel { name: name@, state };
        assert(call_entries(turn.tool_calls@) =~= call_entries(before).update(
            at as int,
            (id@, model),
        ));
        lemma_entries_update(call_entries(before), at as int, model);
    }
    turn
}

fn move_pending_call(
    turn: TurnState,
    id: &str,
    name: &str,
    next: ToolState,
    otherwise: &str,
    sequence: u64,
) -> (outcome: Result<TurnState, ProjectionError>)
    requires
        turn.wf(),
    ensures
        turn_outcome(
            outcome,
            with_pending_moved(turn@, id@, name@, next, otherwise@),
            sequence,
        ),
{
    match find_call(&turn.tool_calls, id) {
        None => Err(invalid(sequence, "record refers to an unknown tool call")),
        Some(at) => if !same_text(turn.tool_calls[at].name.as_str(), name) {
            Err(invalid(sequence, "tool name does not match its tool call"))
        } else if turn.tool_calls[at].state != ToolState::Pending {
            Err(invalid(sequence, otherwise))
        } else {
            Ok(move_call(turn, at, next))
        },
    }
}

fn finish_tool(turn: TurnState, id: &str, sequence: u64) -> (outcome: Result<
    TurnState,
    ProjectionError,
>)
    requires
        turn.wf(),
    ensures
        turn_outcome(outcome, with_tool_finished(turn@, id@), sequence),
{
    match find_call(&turn.tool_calls, id) {
        None => Err(invalid(sequence, "tool terminal record refers to an unknown tool call")),
        Some(at) => if turn.tool_calls[at].state != ToolState::Started {
            Err(invalid(sequence, "tool terminal record has no matching tool start"))
        } else {
            Ok(move_call(turn, at, ToolState::Terminal))
        },
    }
}

fn has_undecided(approvals: &Vec<ApprovalState>) -> (undecided: bool)
    requires
        keys_distinct(approval_entries(approvals@)),
    ensures
        undecided <==> exists|id: ApprovalId| #[trigger]
            entries_map(approval_entries(approvals@)).contains_key(id) && entries_map(
                approval_entries(approvals@),
            )[id].decision is None,
{
    let ghost entries = approval_entries(approvals@);
    let mut index: usize = 0;
    while index < approvals.len()
        invariant
            index <= approvals.len(),
            entries == approval_entries(approvals@),
            keys_distinct(entries),
            forall|i: int| 0 <= i < index ==> approvals@[i].decision is Some,
        decreases approvals.len() - index,
    {
        if approvals[index].decision.is_none() {
            proof {
                lemma_entry_at(entries, index as int);
            }
            return true;
        }
        index += 1;
    }
    proof {
        lemma_entries_have_keys(entries);
        assert forall|id: ApprovalId| #[trigger]
            entries_map(entries).contains_key(id) implies entries_map(
            entries,
        )[id].decision is Some by {
            let i = choose|i: int| 0 <= i < entries.len() && entries[i].0 == id;
            lemma_entry_at(entries, i);
        }
    }
    false
}

fn validate_commit(turn: &TurnState, outcome: &TurnCommitOutcome, sequence: u64) -> (checked: Result<
    (),
    ProjectionError,
>)
    requires
        turn.wf(),
    ensures
        fault_outcome(checked, commit_fault(turn@, outcome@), sequence),
{
    if turn.provider_round.is_some() || turn.awaiting_assistant.is_some() {
        return Err(invalid(sequence, "turn committed with an unresolved provider round"));
    }
    if turn.tool_calls.len() > 0 {
        proof {
            lemma_entry_at(call_entries(turn.tool_calls@), 0);
        }
        return Err(invalid(sequence, "turn committed with unresolved tool calls"));
    }
    if has_undecided(&turn.approvals) {
        return Err(invalid(sequence, "turn committed with an undecided approval"));
    }
    match outcome {
        TurnCommitOutcome::Completed { stop_reason } => {
            let agrees = match &turn.last_assistant_stop {
                Some(last) => last.same(stop_reason),
                None => false,
            };
            if !agrees {
                return Err(
                    invalid(
                        sequence,
                        "completed turn outcome does not match its assistant stop reason",
                    ),
                );
            }
        },
        TurnCommitOutcome::Paused { .. } => {},
    }
    Ok(())
}

/// What the records so far come to.
pub struct ProjectorState {
    pub run: Option<RunState>,
    pub messages: Vec<Message>,
}

impl View for ProjectorState {
    type V = Progress;

    open spec fn view(&self) -> Progress {
        Progress { run: run_view(self.run), messages: message_views(self.messages@) }
    }
}

impl ProjectorState {
    pub open spec fn wf(self) -> bool {
        run_wf(self.run)
    }
}

/// Whether `outcome` is `expected`, with an error placed at `sequence`.
pub open spec fn step_outcome(
    outcome: Result<ProjectorState, ProjectionError>,
    expected: Result<Progress, Seq<char>>,
    sequence: u64,
) -> bool {
    match expected {
        Ok(progress) => outcome is Ok && outcome->Ok_0@ == progress && outcome->Ok_0.wf(),
        Err(detail) => outcome is Err && outcome->Err_0@ == (ProjectionErrorView {
            detail,
            sequence,
        }),
    }
}

/// Whether `taken` is the run and its turn `expected` taken out of it.
pub open spec fn turn_taken(
    taken: Result<(RunState, TurnState), ProjectionError>,
    run: Option<RunState>,
    expected: Result<TurnModel, Seq<char>>,
    sequence: u64,
) -> bool {
    match expected {
        Ok(turn) => {
            &&& run is Some
            &&& taken is Ok
            &&& taken->Ok_0.0@ == (RunModel { turn: None, ..run->0@ })
            &&& taken->Ok_0.1@ == turn
            &&& taken->Ok_0.1.wf()
        },
        Err(detail) => taken is Err && taken->Err_0@ == (ProjectionErrorView { detail, sequence }),
    }
}

fn take_turn(run: RunState, turn_id: TurnId, sequence: u64) -> (taken: Result<
    (RunState, TurnState),
    ProjectionError,
>)
    requires
        run.wf(),
    ensures
        turn_taken(taken, Some(run), named_turn(run@, turn_id), sequence),
{
    let mut run = run;
    match run.turn.take() {
        None => Err(invalid(sequence, "record has no active turn")),
        Some(turn) => if turn.id != turn_id {
            Err(invalid(sequence, "record does not belong to the active turn"))
        } else {
            Ok((run, turn))
        },
    }
}

fn require_run(run: Option<RunState>, run_id: RunId, sequence: u64) -> (required: Result<
    RunState,
    ProjectionError,
>)
    ensures
        match named_run(run_view(run), run_id) {
            Ok(_) => run is Some && required is Ok && required->Ok_0 == run->0,
            Err(detail) => required is Err && required->Err_0@ == (ProjectionErrorView {
                detail,
                sequence,
            }),
        },
{
    match run {
        None => Err(invalid(sequence, "record has no active run")),
        Some(run) => if run.id != run_id {
            Err(invalid(sequence, "record does not belong to the active run"))
        } else {
            Ok(run)
        },
    }
}

fn take_turn_of_run(
    run: Option<RunState>,
    run_id: RunId,
    turn_id: TurnId,
    sequence: u64,
) -> (taken: Result<(RunState, TurnState), ProjectionError>)
    requires
        run_wf(run),
    ensures
        turn_taken(taken, run, turn_of_run(run_view(run), run_id, turn_id), sequence),
{
    match require_run(run, run_id, sequence) {
        Err(error) => Err(error),
        Ok(run) => take_turn(run, turn_id, sequence),
    }
}

fn take_active_turn(run: Option<RunState>, turn_id: TurnId, sequence: u64) -> (taken: Result<
    (RunState, TurnState),
    ProjectionError,
>)
    requires
        run_wf(run),
    ensures
        turn_taken(taken, run, turn_of_any_run(run_view(run), turn_id), sequence),
{
    match run {
        None => Err(invalid(sequence, "record has no active run")),
        Some(run) => take_turn(run, turn_id, sequence),
    }
}

/// The run with its turn put back as it has become.
fn put_turn(
    run: RunState,
    changed: Result<TurnState, ProjectionError>,
    messages: Vec<Message>,
) -> (outcome: Result<ProjectorState, ProjectionError>)
    requires
        changed is Ok ==> changed->Ok_0.wf(),
    ensures
        match changed {
            Ok(turn) => outcome is Ok && outcome->Ok_0.wf() && outcome->Ok_0@ == (Progress {
                run: Some(RunModel { turn: Some(turn@), ..run@ }),
                messages: message_views(messages@),
            }),
            Err(error) => outcome == Err::<ProjectorState, ProjectionError>(error),
        },
{
    match changed {
        Err(error) => Err(error),
        Ok(turn) => {
            let mut run = run;
            run.turn = Some(turn);
            Ok(ProjectorState { run: Some(run), messages })
        },
    }
}

fn start_turn(state: ProjectorState, run_id: RunId, turn_id: TurnId, sequence: u64) -> (outcome:
    Result<ProjectorState, ProjectionError>)
    requires
        state.wf(),
    ensures
        step_outcome(
            outcome,
            match named_run(state@.run, run_id) {
                Err(detail) => Err(detail),
                Ok(run) => if run.turn is Some {
                    Err("turn_started appears while another turn is active"@)
                } else {
                    Ok(state@.with_turn(fresh_turn(turn_id)))
                },
            },
            sequence,
        ),
{
    match require_run(state.run, run_id, sequence) {
        Err(error) => Err(error),
        Ok(run) => {
            if run.turn.is_some() {
                return Err(
                    invalid(sequence, "turn_started appears while another turn is active"),
                );
            }
            let turn = TurnState {
                approvals: Vec::new(),
                awaiting_assistant: None,
                id: turn_id,
                last_assistant_stop: None,
                messages: Vec::new(),
                provider_round: None,
                provider_rounds: Vec::new(),
                tool_calls: Vec::new(),
            };
            proof {
                assert(message_views(turn.messages@) =~= Seq::empty());
                assert(turn.provider_rounds@.to_set() =~= Set::empty());
                assert(turn@ == fresh_turn(turn_id));
            }
            put_turn(run, Ok(turn), state.messages)
        },
    }
}

fn commit_turn(
    state: ProjectorState,
    turn_id: TurnId,
    outcome: &TurnCommitOutcome,
    sequence: u64,
) -> (committed: Result<ProjectorState, ProjectionError>)
    requires
        state.wf(),
    ensures
        step_outcome(
            committed,
            match active_run(state@.run) {
                Err(detail) => Err(detail),
                Ok(run) => match run.turn {
                    None => Err("turn commit has no active turn"@),
                    Some(turn) => if turn.id != turn_id {
                        Err("turn commit does not match the active turn"@)
                    } else {
                        match commit_fault(turn, outcome@) {
                            Some(detail) => Err(detail),
                            None => Ok(
                                Progress {
                                    run: Some(RunModel { turn: None, ..run }),
                                    messages: state@.messages + turn.messages,
                                },
                            ),
                        }
                    },
                },
            },
            sequence,
        ),
{
    let mut run = match state.run {
        None => {
            return Err(invalid(sequence, "record has no active run"));
        },
        Some(run) => run,
    };
    let mut turn = match run.turn.take() {
        None => {
            return Err(invalid(sequence, "turn commit has no active turn"));
        },
        Some(turn) => turn,
    };
    if turn.id != turn_id {
        return Err(invalid(sequence, "turn commit does not match the active turn"));
    }
    match validate_commit(&turn, outcome, sequence) {
        Err(error) => {
            return Err(error);
        },
        Ok(()) => {},
    }
    let mut messages = state.messages;
    let ghost before = messages@;
    let ghost added = turn.messages@;
    messages.append(&mut turn.messages);
    assert(message_views(messages@) =~= message_views(before) + message_views(added));
    Ok(ProjectorState { run: Some(run), messages })
}

fn abort_turn(state: ProjectorState, turn_id: TurnId, sequence: u64) -> (outcome: Result<
    ProjectorState,
    ProjectionError,
>)
    requires
        state.wf(),
    ensures
        step_outcome(
            outcome,
            match active_run(state@.run) {
                Err(detail) => Err(detail),
                Ok(run) => match run.turn {
                    None => Err("turn abort has no active turn"@),
                    Some(turn) => if turn.id != turn_id {
                        Err("turn abort does not match the active turn"@)
                    } else {
                        Ok(Progress { run: Some(RunModel { turn: None, ..run }), ..state@ })
                    },
                },
            },
            sequence,
        ),
{
    let mut run = match state.run {
        None => {
            return Err(invalid(sequence, "record has no active run"));
        },
        Some(run) => run,
    };
    match run.turn.take() {
        None => Err(invalid(sequence, "turn abort has no active turn")),
        Some(turn) => if turn.id != turn_id {
            Err(invalid(sequence, "turn abort does not match the active turn"))
        } else {
            Ok(ProjectorState { run: Some(run), messages: state.messages })
        },
    }
}

fn end_run(state: ProjectorState, run_id: RunId, sequence: u64) -> (outcome: Result<
    ProjectorState,
    ProjectionError,
>)
    requires
        state.wf(),
    ensures
        step_outcome(
            outcome,
            match state@.run {
                None => Err("run end has no active run"@),
                Some(run) => if run.id != run_id {
                    Err("run end does not match the active run"@)
                } else if run.turn is Some {
                    Err("run ended while a turn is still active"@)
                } else {
                    Ok(Progress { run: None, ..state@ })
                },
            },
            sequence,
        ),
{
    match state.run {
        None => Err(invalid(sequence, "run end has no active run")),
        Some(run) => if run.id != run_id {
            Err(invalid(sequence, "run end does not match the active run"))
        } else if run.turn.is_some() {
            Err(invalid(sequence, "run ended while a turn is still active"))
        } else {
            Ok(ProjectorState { run: None, messages: state.messages })
        },
    }
}

fn start_tool(
    state: ProjectorState,
    authorization: &ToolAuthorization,
    tool_call_id: &str,
    tool_name: &str,
    turn_id: TurnId,
    sequence: u64,
) -> (outcome: Result<ProjectorState, ProjectionError>)
    requires
        state.wf(),
    ensures
        step_outcome(
            outcome,
            match turn_of_any_run(state@.run, turn_id) {
                Err(detail) => Err(detail),
                Ok(turn) => match authorization_fault(
                    state@.run->0.run_approvals,
                    turn.approvals,
                    authorization@,
                    tool_call_id@,
                    tool_name@,
                ) {
                    Some(detail) => Err(detail),
                    None => state@.changing(
                        with_pending_moved(
                            turn,
                            tool_call_id@,
                            tool_name@,
                            ToolState::Started,
                            "tool call is started more than once"@,
                        ),
                    ),
                },
            },
            sequence,
        ),
{
    match take_active_turn(state.run, turn_id, sequence) {
        Err(error) => Err(error),
        Ok((run, turn)) => {
            match authorize_tool_start(
                &run.run_approvals,
                &turn,
                authorization,
                tool_call_id,
                tool_name,
                sequence,
            ) {
                Err(error) => {
                    return Err(error);
                },
                Ok(()) => {},
            }
            put_turn(
                run,
                move_pending_call(
                    turn,
                    tool_call_id,
                    tool_name,
                    ToolState::Started,
                    "tool call is started more than once",
                    sequence,
                ),
                state.messages,
            )
        },
    }
}

fn complete_provider_round(
    turn: TurnState,
    round: ProviderRoundId,
    stop_reason: &StopReason,
    sequence: u64,
) -> (outcome: Result<TurnState, ProjectionError>)
    requires
        turn.wf(),
    ensures
        turn_outcome(outcome, with_round_completed(turn@, round, stop_reason@), sequence),
{
    match finish_provider_round(turn, round, sequence) {
        Err(error) => Err(error),
        Ok(turn) => {
            let mut turn = turn;
            turn.awaiting_assistant = Some(stop_reason.clone());
            Ok(turn)
        },
    }
}

/// Replays one record.
fn apply_entry(state: ProjectorState, entry: &JournalEntry, sequence: u64) -> (outcome: Result<
    ProjectorState,
    ProjectionError,
>)
    requires
        state.wf(),
    ensures
        step_outcome(outcome, step(state@, entry@), sequence),
{
    match entry {
        JournalEntry::SessionStarted(_) => Err(
            invalid(sequence, "session_started appears more than once"),
        ),
        JournalEntry::RunStarted(started) => {
            if state.run.is_some() {
                return Err(invalid(sequence, "run_started appears while another run is active"));
            }
            Ok(
                ProjectorState {
                    run: Some(
                        RunState { id: started.run_id, run_approvals: Vec::new(), turn: None },
                    ),
                    messages: state.messages,
                },
            )
        },
        JournalEntry::TurnStarted(started) => start_turn(
            state,
            started.run_id,
            started.turn_id,
            sequence,
        ),
        JournalEntry::MessageAdded(added) => match take_turn_of_run(
            state.run,
            added.run_id,
            added.turn_id,
            sequence,
        ) {
            Err(error) => Err(error),
            Ok((run, turn)) => put_turn(
                run,
                add_message(turn, &added.message, sequence),
                state.messages,
            ),
        },
        JournalEntry::ProviderRoundStarted(started) => match take_turn_of_run(
            state.run,
            started.run_id,
            started.turn_id,
            sequence,
        ) {
            Err(error) => Err(error),
            Ok((run, turn)) => put_turn(
                run,
                start_provider_round(turn, started.provider_round_id, sequence),
                state.messages,
            ),
        },
        JournalEntry::ProviderRoundCompleted(completed) => match take_turn_of_run(
            state.run,
            completed.run_id,
            completed.turn_id,
            sequence,
        ) {
            Err(error) => Err(error),
            Ok((run, turn)) => put_turn(
                run,
                complete_provider_round(
                    turn,
                    completed.provider_round_id,
                    &completed.stop_reason,
                    sequence,
                ),
                state.messages,
            ),
        },
        JournalEntry::ProviderRoundFailed(failed) => match take_turn_of_run(
            state.run,
            failed.run_id,
            failed.turn_id,
            sequence,
        ) {
            Err(error) => Err(error),
            Ok((run, turn)) => put_turn(
                run,
                finish_provider_round(turn, failed.provider_round_id, sequence),
                state.messages,
            ),
        },
        JournalEntry::ProviderRoundCancelled(cancelled) => match take_turn_of_run(
            state.run,
            cancelled.run_id,
            cancelled.turn_id,
            sequence,
        ) {
            Err(error) => Err(error),
            Ok((run, turn)) => put_turn(
                run,
                finish_provider_round(turn, cancelled.provider_round_id, sequence),
                state.messages,
            ),
        },
        JournalEntry::ApprovalRequested(requested) => match take_active_turn(
            state.run,
            requested.turn_id,
            sequence,
        ) {
            Err(error) => Err(error),
            Ok((run, turn)) => put_turn(
                run,
                request_approval(
                    turn,
                    requested.approval_id,
                    requested.subject.tool_call_id(),
                    requested.subject.tool_name(),
                    sequence,
                ),
                state.messages,
            ),
        },
        JournalEntry::ApprovalDecided(decided) => match state.run {
            None => Err(invalid(sequence, "record has no active run")),
            Some(run) => match decide_approval(
                run,
                decided.approval_id,
                recorded_decision(&decided.decision),
                sequence,
            ) {
                Err(error) => Err(error),
                Ok(run) => Ok(ProjectorState { run: Some(run), messages: state.messages }),
            },
        },
        JournalEntry::ToolStarted(started) => start_tool(
            state,
            &started.authorization,
            started.tool_call_id.as_str(),
            started.tool_name.as_str(),
            started.turn_id,
            sequence,
        ),
        JournalEntry::ToolCompleted(completed) => match take_active_turn(
            state.run,
            completed.turn_id,
            sequence,
        ) {
            Err(error) => Err(error),
            Ok((run, turn)) => put_turn(
                run,
                finish_tool(turn, completed.tool_call_id.as_str(), sequence),
                state.messages,
            ),
        },
        JournalEntry::ToolFailed(failed) => match take_active_turn(
            state.run,
            failed.turn_id,
            sequence,
        ) {
            Err(error) => Err(error),
            Ok((run, turn)) => put_turn(
                run,
                finish_tool(turn, failed.tool_call_id.as_str(), sequence),
                state.messages,
            ),
        },
        JournalEntry::ToolCancelled(cancelled) => match take_active_turn(
            state.run,
            cancelled.turn_id,
            sequence,
        ) {
            Err(error) => Err(error),
            Ok((run, turn)) => put_turn(
                run,
                finish_tool(turn, cancelled.tool_call_id.as_str(), sequence),
                state.messages,
            ),
        },
        JournalEntry::ToolRejected(rejected) => match take_active_turn(
            state.run,
            rejected.turn_id,
            sequence,
        ) {
            Err(error) => Err(error),
            Ok((run, turn)) => put_turn(
                run,
                move_pending_call(
                    turn,
                    rejected.tool_call_id.as_str(),
                    rejected.tool_name.as_str(),
                    ToolState::Terminal,
                    "rejected tool call was already started or resolved",
                    sequence,
                ),
                state.messages,
            ),
        },
        JournalEntry::TurnCommitted(committed) => commit_turn(
            state,
            committed.turn_id,
            &committed.outcome,
            sequence,
        ),
        JournalEntry::TurnAborted(aborted) => abort_turn(state, aborted.turn_id, sequence),
        JournalEntry::RunEnded(ended) => end_run(state, ended.run_id, sequence),
    }
}

/// A fault at an early record is the fault of the whole journal.
proof fn lemma_first_error_stays(records: Seq<JournalRecord>, early: nat, late: nat)
    requires
        early <= late,
        progress_after(records, early) is Err,
    ensures
        progress_after(records, late) == progress_after(records, early),
    decreases late,
{
    if early < late {
        lemma_first_error_stays(records, early, (late - 1) as nat);
    }
}

/// Whether `outcome` is what the journal projects to.
pub open spec fn projected(
    outcome: Result<SessionProjection, ProjectionError>,
    expected: Result<ProjectionView, ProjectionErrorView>,
) -> bool {
    match expected {
        Ok(view) => outcome is Ok && outcome->Ok_0@ == view,
        Err(view) => outcome is Err && outcome->Err_0@ == view,
    }
}

fn warnings_of(run: &Option<RunState>) -> (warnings: Vec<ProjectionWarning>)
    ensures
        warnings@ == open_warnings(run_view(*run)),
{
    let mut warnings: Vec<ProjectionWarning> = Vec::new();
    if let Some(run) = run {
        if let Some(turn) = &run.turn {
            warnings.push(ProjectionWarning::UnterminatedTurn { turn_id: turn.id });
        }
        warnings.push(ProjectionWarning::UnterminatedRun { run_id: run.id });
    }
    assert(warnings@ =~= open_warnings(run_view(*run)));
    warnings
}

/// Replays a journal: the messages of its committed turns, in order, and what it left open. The
/// first record that breaks the lifecycle is reported instead, with its sequence number.
pub fn project_journal(records: &[JournalRecord]) -> (outcome: Result<
    SessionProjection,
    ProjectionError,
>)
    ensures
        projected(outcome, projection(records@)),
{
    if records.len() == 0 {
        return Err(invalid(0, "journal is empty"));
    }
    let first = &records[0];
    let started = match &first.entry {
        JournalEntry::SessionStarted(started) => started,
        _ => {
            return Err(invalid(first.sequence, "first record is not session_started"));
        },
    };
    let mut state = ProjectorState { run: None, messages: Vec::new() };
    assert(message_views(state.messages@) =~= Seq::empty());
    let mut index: usize = 1;
    while index < records.len()
        invariant
            1 <= index <= records.len(),
            records@[0].entry is SessionStarted,
            state.wf(),
            progress_after(records@, index as nat) == Ok::<Progress, ProjectionErrorView>(state@),
        decreases records.len() - index,
    {
        let record = &records[index];
        match apply_entry(state, &record.entry, record.sequence) {
            Err(error) => {
                proof {
                    assert(progress_after(records@, (index + 1) as nat) is Err);
                    lemma_first_error_stays(records@, (index + 1) as nat, records@.len());
                }
                return Err(error);
            },
            Ok(next) => {
                state = next;
            },
        }
        index += 1;
    }
    let warnings = warnings_of(&state.run);
    Ok(
        SessionProjection {
            instructions: started.instructions.clone(),
            messages: state.messages,
            session_id: first.session_id,
            warnings,
        },
    )
}

} // verus!
