//! The journal of one run: the entries that it is made of.
use crate::journal::id::{ApprovalId, ProviderRoundId, RunId, SessionId, TurnId};
use crate::journal::schema::{
    ApprovalDecided, ApprovalRequested, ErrorDetail, JournalApprovalDecision, JournalEntry,
    JournalRecord, MessageAdded, ProviderRoundCancelled, ProviderRoundCompleted,
    ProviderRoundFailed, ProviderRoundStarted, RunEndReason, RunEnded, ToolAuthorization,
    ToolCancelled, ToolCompleted, ToolExecutionCompleted, ToolExecutionStarted, ToolFailed,
    ToolRejected, ToolStarted, TurnAbortOutcome, TurnAborted, TurnCommitOutcome, TurnCommitted,
    TurnStarted,
};
use crate::journal::view::{
    execution_view, optional_view, ApprovalDecidedView, ApprovalRequestedView, EntryView,
    MessageAddedView, ProviderRoundCancelledView, ProviderRoundCompletedView,
    ProviderRoundFailedView, ProviderRoundStartedView, ToolCancelledView, ToolCompletedView,
    ToolFailedView, ToolRejectedView, ToolStartedView, TurnAbortedView, TurnCommittedView,
    TurnStartedView,
};
use crate::journal::writer::{
    after_append, append_finished, next_record, AppendOutcome, JournalError, JournalState,
    SessionJournal,
};
use crate::message::Message;
use crate::path::HostPath;
use crate::protocol::{ApprovalLifetime, ApprovalSubject};
use crate::provider::{ModelTurn, ProviderDescriptor, ReportedCost};
use jiff::Timestamp;
use vstd::prelude::*;

verus! {

/// The journal of a session, with what every entry of one run repeats.
pub struct RunJournal {
    journal: SessionJournal,
    model: String,
    provider: ProviderDescriptor,
    run_id: RunId,
}

pub struct RunJournalView {
    pub log: JournalState,
    pub model: Seq<char>,
    pub provider: ProviderDescriptor,
    pub run_id: RunId,
}

impl View for RunJournal {
    type V = RunJournalView;

    closed spec fn view(&self) -> RunJournalView {
        RunJournalView {
            log: self.journal@,
            model: self.model@,
            provider: self.provider,
            run_id: self.run_id,
        }
    }
}

fn copy_cost(cost: &Option<ReportedCost>) -> (copy: Option<ReportedCost>)
    ensures
        copy == *cost,
{
    match cost {
        None => None,
        Some(cost) => Some(cost.clone()),
    }
}

fn copy_text(text: &Option<String>) -> (copy: Option<String>)
    ensures
        optional_view(copy) == optional_view(*text),
{
    match text {
        None => None,
        Some(text) => Some(text.clone()),
    }
}

impl RunJournal {
    pub fn new(
        journal: SessionJournal,
        model: String,
        provider: ProviderDescriptor,
        run_id: RunId,
    ) -> (run: Self)
        ensures
            run@ == (RunJournalView { log: journal@, model: model@, provider, run_id }),
    {
        RunJournal { journal, model, provider, run_id }
    }

    pub fn path(&self) -> (path: &HostPath)
        ensures
            path@ == self@.log.path,
    {
        self.journal.path()
    }

    pub fn session_id(&self) -> (session_id: &SessionId)
        ensures
            *session_id == self@.log.session_id,
    {
        self.journal.session_id()
    }

    /// The record to write next.
    pub fn prepare(&self, recorded_at: Timestamp, entry: JournalEntry) -> (prepared: Result<
        JournalRecord,
        JournalError,
    >)
        ensures
            match prepared {
                Ok(record) => !self@.log.poisoned && record == next_record(
                    self@.log,
                    recorded_at,
                    entry,
                ),
                Err(error) => self@.log.poisoned && match error {
                    JournalError::Unusable { path } => path@ == self@.log.path,
                    _ => false,
                },
            },
    {
        self.journal.prepare(recorded_at, entry)
    }

    /// Takes note of how writing the prepared record went.
    pub fn finish(&mut self, outcome: AppendOutcome) -> (finished: Result<(), JournalError>)
        requires
            outcome is Written ==> old(self)@.log.next_sequence < u64::MAX,
        ensures
            final(self)@ == (RunJournalView {
                log: after_append(old(self)@.log, outcome),
                ..old(self)@
            }),
            append_finished(old(self)@.log, outcome, finished),
    {
        self.journal.finish(outcome)
    }

    pub fn end_run(&self, reason: RunEndReason) -> (entry: JournalEntry)
        ensures
            entry@ == EntryView::RunEnded(RunEnded { reason, run_id: self@.run_id }),
    {
        JournalEntry::RunEnded(RunEnded { reason, run_id: self.run_id })
    }

    /// The two entries that start a turn with the user's message.
    pub fn start_turn(&self, turn_id: TurnId, message: &Message) -> (entries: (
        JournalEntry,
        JournalEntry,
    ))
        ensures
            entries.0@ == EntryView::TurnStarted(
                TurnStartedView { run_id: self@.run_id, turn_id },
            ),
            entries.1@ == EntryView::MessageAdded(
                MessageAddedView { message: message@, run_id: self@.run_id, turn_id },
            ),
    {
        (self.turn_started(turn_id), self.message_added(message, turn_id))
    }

    pub fn abort_turn(&self, turn_id: TurnId, outcome: TurnAbortOutcome) -> (entry: JournalEntry)
        ensures
            entry@ == EntryView::TurnAborted(
                TurnAbortedView {
                    outcome: outcome@,
                    turn_id,
                },
            ),
    {
        JournalEntry::TurnAborted(
            TurnAborted {
                outcome,
                turn_id,
            },
        )
    }

    pub fn approval_decided(
        &self,
        approval_id: ApprovalId,
        decision: JournalApprovalDecision,
    ) -> (entry: JournalEntry)
        ensures
            entry@ == EntryView::ApprovalDecided(
                ApprovalDecidedView {
                    approval_id,
                    decision: decision@,
                },
            ),
    {
        JournalEntry::ApprovalDecided(
            ApprovalDecided {
                approval_id,
                decision,
            },
        )
    }

    pub fn approval_requested(
        &self,
        approval_id: ApprovalId,
        available_lifetimes: Vec<ApprovalLifetime>,
        subject: ApprovalSubject,
        turn_id: TurnId,
    ) -> (entry: JournalEntry)
        ensures
            entry@ == EntryView::ApprovalRequested(
                ApprovalRequestedView {
                    approval_id,
                    available_lifetimes: available_lifetimes@,
                    subject: subject@,
                    turn_id,
                },
            ),
    {
        JournalEntry::ApprovalRequested(
            ApprovalRequested {
                approval_id,
                available_lifetimes,
                subject,
                turn_id,
            },
        )
    }

    pub fn commit_turn(&self, turn_id: TurnId, outcome: TurnCommitOutcome) -> (entry: JournalEntry)
        ensures
            entry@ == EntryView::TurnCommitted(
                TurnCommittedView {
                    outcome: outcome@,
                    turn_id,
                },
            ),
    {
        JournalEntry::TurnCommitted(
            TurnCommitted {
                outcome,
                turn_id,
            },
        )
    }

    pub fn message_added(&self, message: &Message, turn_id: TurnId) -> (entry: JournalEntry)
        ensures
            entry@ == EntryView::MessageAdded(
                MessageAddedView {
                    message: message@,
                    run_id: self@.run_id,
                    turn_id,
                },
            ),
    {
        JournalEntry::MessageAdded(
            MessageAdded {
                message: message.clone(),
                run_id: self.run_id,
                turn_id,
            },
        )
    }

    pub fn provider_round_cancelled(
        &self,
        latency_ms: u64,
        provider_round_id: ProviderRoundId,
        turn_id: TurnId,
    ) -> (entry: JournalEntry)
        ensures
            entry@ == EntryView::ProviderRoundCancelled(
                ProviderRoundCancelledView {
                    latency_ms,
                    provider_round_id,
                    run_id: self@.run_id,
                    turn_id,
                },
            ),
    {
        JournalEntry::ProviderRoundCancelled(
            ProviderRoundCancelled {
                latency_ms,
                provider_round_id,
                run_id: self.run_id,
                turn_id,
            },
        )
    }

    pub fn provider_round_completed(
        &self,
        latency_ms: u64,
        provider_round_id: ProviderRoundId,
        turn: &ModelTurn,
        turn_id: TurnId,
    ) -> (entry: JournalEntry)
        ensures
            entry@ == EntryView::ProviderRoundCompleted(
                ProviderRoundCompletedView {
                    latency_ms,
                    provider_cost: turn.provider_cost,
                    provider_round_id,
                    request_id: optional_view(turn.request_id),
                    run_id: self@.run_id,
                    stop_reason: turn.stop_reason@,
                    turn_id,
                    usage: turn.usage,
                },
            ),
    {
        JournalEntry::ProviderRoundCompleted(
            ProviderRoundCompleted {
                latency_ms,
                provider_cost: copy_cost(&turn.provider_cost),
                provider_round_id,
                request_id: copy_text(&turn.request_id),
                run_id: self.run_id,
                stop_reason: turn.stop_reason.clone(),
                turn_id,
                usage: turn.usage,
            },
        )
    }

    pub fn provider_round_failed(
        &self,
        error: ErrorDetail,
        latency_ms: u64,
        provider_round_id: ProviderRoundId,
        request_id: Option<String>,
        turn_id: TurnId,
    ) -> (entry: JournalEntry)
        ensures
            entry@ == EntryView::ProviderRoundFailed(
                ProviderRoundFailedView {
                    error: error@,
                    latency_ms,
                    provider_round_id,
                    request_id: optional_view(request_id),
                    run_id: self@.run_id,
                    turn_id,
                },
            ),
    {
        JournalEntry::ProviderRoundFailed(
            ProviderRoundFailed {
                error,
                latency_ms,
                provider_round_id,
                request_id,
                run_id: self.run_id,
                turn_id,
            },
        )
    }

    pub fn provider_round_started(
        &self,
        turn_id: TurnId,
        provider_round_id: ProviderRoundId,
    ) -> (entry: JournalEntry)
        ensures
            entry@ == EntryView::ProviderRoundStarted(
                ProviderRoundStartedView {
                    model: self@.model,
                    provider: self@.provider,
                    provider_round_id,
                    run_id: self@.run_id,
                    turn_id,
                },
            ),
    {
        JournalEntry::ProviderRoundStarted(
            ProviderRoundStarted {
                model: self.model.clone(),
                provider: self.provider.clone(),
                provider_round_id,
                run_id: self.run_id,
                turn_id,
            },
        )
    }

    fn turn_started(&self, turn_id: TurnId) -> (entry: JournalEntry)
        ensures
            entry@ == EntryView::TurnStarted(
                TurnStartedView {
                    run_id: self@.run_id,
                    turn_id,
                },
            ),
    {
        JournalEntry::TurnStarted(
            TurnStarted {
                run_id: self.run_id,
                turn_id,
            },
        )
    }

    pub fn tool_cancelled(
        &self,
        duration_ms: u64,
        tool_call_id: &str,
        turn_id: TurnId,
    ) -> (entry: JournalEntry)
        ensures
            entry@ == EntryView::ToolCancelled(
                ToolCancelledView {
                    duration_ms,
                    tool_call_id: tool_call_id@,
                    turn_id,
                },
            ),
    {
        JournalEntry::ToolCancelled(
            ToolCancelled {
                duration_ms,
                tool_call_id: tool_call_id.to_owned(),
                turn_id,
            },
        )
    }

    pub fn tool_completed(
        &self,
        duration_ms: u64,
        execution: Option<ToolExecutionCompleted>,
        tool_call_id: &str,
        turn_id: TurnId,
    ) -> (entry: JournalEntry)
        ensures
            entry@ == EntryView::ToolCompleted(
                ToolCompletedView {
                    duration_ms,
                    execution,
                    tool_call_id: tool_call_id@,
                    turn_id,
                },
            ),
    {
        JournalEntry::ToolCompleted(
            ToolCompleted {
                duration_ms,
                execution,
                tool_call_id: tool_call_id.to_owned(),
                turn_id,
            },
        )
    }

    pub fn tool_failed(
        &self,
        duration_ms: u64,
        error_category: &str,
        tool_call_id: &str,
        turn_id: TurnId,
    ) -> (entry: JournalEntry)
        ensures
            entry@ == EntryView::ToolFailed(
                ToolFailedView {
                    duration_ms,
                    error_category: error_category@,
                    tool_call_id: tool_call_id@,
                    turn_id,
                },
            ),
    {
        JournalEntry::ToolFailed(
            ToolFailed {
                duration_ms,
                error_category: error_category.to_owned(),
                tool_call_id: tool_call_id.to_owned(),
                turn_id,
            },
        )
    }

    pub fn tool_rejected(
        &self,
        error_category: &str,
        tool_call_id: &str,
        tool_name: &str,
        turn_id: TurnId,
    ) -> (entry: JournalEntry)
        ensures
            entry@ == EntryView::ToolRejected(
                ToolRejectedView {
                    error_category: error_category@,
                    tool_call_id: tool_call_id@,
                    tool_name: tool_name@,
                    turn_id,
                },
            ),
    {
        JournalEntry::ToolRejected(
            ToolRejected {
                error_category: error_category.to_owned(),
                tool_call_id: tool_call_id.to_owned(),
                tool_name: tool_name.to_owned(),
                turn_id,
            },
        )
    }

    pub fn tool_started(
        &self,
        authorization: ToolAuthorization,
        execution: Option<ToolExecutionStarted>,
        tool_call_id: &str,
        tool_name: &str,
        turn_id: TurnId,
    ) -> (entry: JournalEntry)
        ensures
            entry@ == EntryView::ToolStarted(
                ToolStartedView {
                    authorization: authorization@,
                    execution: execution_view(execution),
                    tool_call_id: tool_call_id@,
                    tool_name: tool_name@,
                    turn_id,
                },
            ),
    {
        JournalEntry::ToolStarted(
            ToolStarted {
                authorization,
                execution,
                tool_call_id: tool_call_id.to_owned(),
                tool_name: tool_name.to_owned(),
                turn_id,
            },
        )
    }
}

} // verus!
