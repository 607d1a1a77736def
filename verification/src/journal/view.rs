//! What the records of a journal say, apart from how it is stored.
use crate::journal::id::{ApprovalId, ProviderRoundId, RunId, TurnId};
use crate::journal::schema::{
    ApprovalDecided, ApprovalRequested, EffectiveApprovalGrant, ErrorDetail, ExecutionCapability,
    GitContext, JournalApprovalDecision, JournalEntry, MessageAdded, ProviderRoundCancelled,
    ProviderRoundCompleted, ProviderRoundFailed, ProviderRoundStarted, RunEnded, RunStarted,
    SessionStarted, ShellBoundaries, ShellExposedRoot, ShellMode, ShellPolicy, ShellSandboxBackend,
    ToolAuthorization, ToolCancelled, ToolCompleted, ToolExecutionCompleted, ToolExecutionStarted,
    ToolFailed, ToolRejected, ToolStarted, TurnAbortOutcome, TurnAborted, TurnCommitOutcome,
    TurnCommitted, TurnStarted,
};
use crate::message::{MessageView, StopReasonView};
use crate::protocol::{ApprovalGrantView, ApprovalLifetime, ApprovalSubjectView};
use crate::provider::{ModelUsage, ProviderDescriptor, ReportedCost};
use crate::tools::ToolDefinition;
use vstd::prelude::*;

verus! {

pub open spec fn optional_view(text: Option<String>) -> Option<Seq<char>> {
    match text {
        None => None,
        Some(text) => Some(text@),
    }
}

pub struct ErrorView {
    pub category: Seq<char>,
    pub message: Seq<char>,
}

impl View for ErrorDetail {
    type V = ErrorView;

    open spec fn view(&self) -> ErrorView {
        ErrorView { category: self.category@, message: self.message@ }
    }
}

pub enum DecisionView {
    AllowForRun,
    AllowOnce,
    Deny { reason: Seq<char> },
    Grant { grant: ApprovalGrantView },
}

impl View for JournalApprovalDecision {
    type V = DecisionView;

    open spec fn view(&self) -> DecisionView {
        match self {
            JournalApprovalDecision::AllowForRun => DecisionView::AllowForRun,
            JournalApprovalDecision::AllowOnce => DecisionView::AllowOnce,
            JournalApprovalDecision::Deny { reason } => DecisionView::Deny { reason: reason@ },
            JournalApprovalDecision::Grant { grant } => DecisionView::Grant { grant: grant@ },
        }
    }
}

pub enum AuthorizationView {
    ApprovedForRun { approval_id: ApprovalId },
    ApprovedOnce { approval_id: ApprovalId },
    Granted { approval_id: ApprovalId, grant: ApprovalGrantView },
    NotRequired,
}

impl View for ToolAuthorization {
    type V = AuthorizationView;

    open spec fn view(&self) -> AuthorizationView {
        match self {
            ToolAuthorization::ApprovedForRun { approval_id } =>
                AuthorizationView::ApprovedForRun { approval_id: *approval_id },
            ToolAuthorization::ApprovedOnce { approval_id } =>
                AuthorizationView::ApprovedOnce { approval_id: *approval_id },
            ToolAuthorization::Granted { approval_id, grant } =>
                AuthorizationView::Granted { approval_id: *approval_id, grant: grant@ },
            ToolAuthorization::NotRequired => AuthorizationView::NotRequired,
        }
    }
}

pub enum CommitOutcomeView {
    Completed { stop_reason: StopReasonView },
    Paused { reason: Seq<char> },
}

impl View for TurnCommitOutcome {
    type V = CommitOutcomeView;

    open spec fn view(&self) -> CommitOutcomeView {
        match self {
            TurnCommitOutcome::Completed { stop_reason } =>
                CommitOutcomeView::Completed { stop_reason: stop_reason@ },
            TurnCommitOutcome::Paused { reason } =>
                CommitOutcomeView::Paused { reason: reason@ },
        }
    }
}

pub enum AbortOutcomeView {
    Failed { error: Option<ErrorView> },
    Cancelled,
}

impl View for TurnAbortOutcome {
    type V = AbortOutcomeView;

    open spec fn view(&self) -> AbortOutcomeView {
        match self {
            TurnAbortOutcome::Failed { error } => AbortOutcomeView::Failed {
                error: match error {
                    None => None,
                    Some(error) => Some(error@),
                },
            },
            TurnAbortOutcome::Cancelled => AbortOutcomeView::Cancelled,
        }
    }
}

pub struct ShellPolicyView {
    pub backend: Option<ShellSandboxBackend>,
    pub boundaries: ShellBoundaries,
    pub exposed_roots: Seq<ShellExposedRoot>,
    pub mode: ShellMode,
}

impl View for ShellPolicy {
    type V = ShellPolicyView;

    open spec fn view(&self) -> ShellPolicyView {
        ShellPolicyView {
            backend: self.backend,
            boundaries: self.boundaries,
            exposed_roots: self.exposed_roots@,
            mode: self.mode,
        }
    }
}

pub struct RunStartedView {
    pub approval_grants: Seq<EffectiveApprovalGrant>,
    pub git: Option<GitContext>,
    pub max_output_tokens: u32,
    pub model: Seq<char>,
    pub provider: ProviderDescriptor,
    pub run_id: RunId,
    pub shell_policy: Option<ShellPolicyView>,
    pub tool_catalog: Seq<ToolDefinition>,
}

impl View for RunStarted {
    type V = RunStartedView;

    open spec fn view(&self) -> RunStartedView {
        RunStartedView {
            approval_grants: self.approval_grants@,
            git: self.git,
            max_output_tokens: self.max_output_tokens,
            model: self.model@,
            provider: self.provider,
            run_id: self.run_id,
            shell_policy: match self.shell_policy {
                None => None,
                Some(policy) => Some(policy@),
            },
            tool_catalog: self.tool_catalog@,
        }
    }
}

pub struct TurnStartedView {
    pub run_id: RunId,
    pub turn_id: TurnId,
}

impl View for TurnStarted {
    type V = TurnStartedView;

    open spec fn view(&self) -> TurnStartedView {
        TurnStartedView {
            run_id: self.run_id,
            turn_id: self.turn_id,
        }
    }
}

pub struct MessageAddedView {
    pub message: MessageView,
    pub run_id: RunId,
    pub turn_id: TurnId,
}

impl View for MessageAdded {
    type V = MessageAddedView;

    open spec fn view(&self) -> MessageAddedView {
        MessageAddedView {
            message: self.message@,
            run_id: self.run_id,
            turn_id: self.turn_id,
        }
    }
}

pub struct ProviderRoundStartedView {
    pub model: Seq<char>,
    pub provider: ProviderDescriptor,
    pub provider_round_id: ProviderRoundId,
    pub run_id: RunId,
    pub turn_id: TurnId,
}

impl View for ProviderRoundStarted {
    type V = ProviderRoundStartedView;

    open spec fn view(&self) -> ProviderRoundStartedView {
        ProviderRoundStartedView {
            model: self.model@,
            provider: self.provider,
            provider_round_id: self.provider_round_id,
            run_id: self.run_id,
            turn_id: self.turn_id,
        }
    }
}

pub struct ProviderRoundCompletedView {
    pub latency_ms: u64,
    pub provider_cost: Option<ReportedCost>,
    pub provider_round_id: ProviderRoundId,
    pub request_id: Option<Seq<char>>,
    pub run_id: RunId,
    pub stop_reason: StopReasonView,
    pub turn_id: TurnId,
    pub usage: Option<ModelUsage>,
}

impl View for ProviderRoundCompleted {
    type V = ProviderRoundCompletedView;

    open spec fn view(&self) -> ProviderRoundCompletedView {
        ProviderRoundCompletedView {
            latency_ms: self.latency_ms,
            provider_cost: self.provider_cost,
            provider_round_id: self.provider_round_id,
            request_id: optional_view(self.request_id),
            run_id: self.run_id,
            stop_reason: self.stop_reason@,
            turn_id: self.turn_id,
            usage: self.usage,
        }
    }
}

pub struct ProviderRoundFailedView {
    pub error: ErrorView,
    pub latency_ms: u64,
    pub provider_round_id: ProviderRoundId,
    pub request_id: Option<Seq<char>>,
    pub run_id: RunId,
    pub turn_id: TurnId,
}

impl View for ProviderRoundFailed {
    type V = ProviderRoundFailedView;

    open spec fn view(&self) -> ProviderRoundFailedView {
        ProviderRoundFailedView {
            error: self.error@,
            latency_ms: self.latency_ms,
            provider_round_id: self.provider_round_id,
            request_id: optional_view(self.request_id),
            run_id: self.run_id,
            turn_id: self.turn_id,
        }
    }
}

pub struct ProviderRoundCancelledView {
    pub latency_ms: u64,
    pub provider_round_id: ProviderRoundId,
    pub run_id: RunId,
    pub turn_id: TurnId,
}

impl View for ProviderRoundCancelled {
    type V = ProviderRoundCancelledView;

    open spec fn view(&self) -> ProviderRoundCancelledView {
        ProviderRoundCancelledView {
            latency_ms: self.latency_ms,
            provider_round_id: self.provider_round_id,
            run_id: self.run_id,
            turn_id: self.turn_id,
        }
    }
}

pub struct ApprovalRequestedView {
    pub approval_id: ApprovalId,
    pub available_lifetimes: Seq<ApprovalLifetime>,
    pub subject: ApprovalSubjectView,
    pub turn_id: TurnId,
}

impl View for ApprovalRequested {
    type V = ApprovalRequestedView;

    open spec fn view(&self) -> ApprovalRequestedView {
        ApprovalRequestedView {
            approval_id: self.approval_id,
            available_lifetimes: self.available_lifetimes@,
            subject: self.subject@,
            turn_id: self.turn_id,
        }
    }
}

pub struct ApprovalDecidedView {
    pub approval_id: ApprovalId,
    pub decision: DecisionView,
}

impl View for ApprovalDecided {
    type V = ApprovalDecidedView;

    open spec fn view(&self) -> ApprovalDecidedView {
        ApprovalDecidedView {
            approval_id: self.approval_id,
            decision: self.decision@,
        }
    }
}

pub enum ExecutionStartedView {
    Shell { capabilities: Seq<ExecutionCapability> },
}

impl View for ToolExecutionStarted {
    type V = ExecutionStartedView;

    open spec fn view(&self) -> ExecutionStartedView {
        match self {
            ToolExecutionStarted::Shell { capabilities } => ExecutionStartedView::Shell {
                capabilities: capabilities@,
            },
        }
    }
}

pub open spec fn execution_view(
    execution: Option<ToolExecutionStarted>,
) -> Option<ExecutionStartedView> {
    match execution {
        None => None,
        Some(execution) => Some(execution@),
    }
}

pub struct ToolStartedView {
    pub authorization: AuthorizationView,
    pub execution: Option<ExecutionStartedView>,
    pub tool_call_id: Seq<char>,
    pub tool_name: Seq<char>,
    pub turn_id: TurnId,
}

impl View for ToolStarted {
    type V = ToolStartedView;

    open spec fn view(&self) -> ToolStartedView {
        ToolStartedView {
            authorization: self.authorization@,
            execution: execution_view(self.execution),
            tool_call_id: self.tool_call_id@,
            tool_name: self.tool_name@,
            turn_id: self.turn_id,
        }
    }
}

pub struct ToolCompletedView {
    pub duration_ms: u64,
    pub execution: Option<ToolExecutionCompleted>,
    pub tool_call_id: Seq<char>,
    pub turn_id: TurnId,
}

impl View for ToolCompleted {
    type V = ToolCompletedView;

    open spec fn view(&self) -> ToolCompletedView {
        ToolCompletedView {
            duration_ms: self.duration_ms,
            execution: self.execution,
            tool_call_id: self.tool_call_id@,
            turn_id: self.turn_id,
        }
    }
}

pub struct ToolFailedView {
    pub duration_ms: u64,
    pub error_category: Seq<char>,
    pub tool_call_id: Seq<char>,
    pub turn_id: TurnId,
}

impl View for ToolFailed {
    type V = ToolFailedView;

    open spec fn view(&self) -> ToolFailedView {
        ToolFailedView {
            duration_ms: self.duration_ms,
            error_category: self.error_category@,
            tool_call_id: self.tool_call_id@,
            turn_id: self.turn_id,
        }
    }
}

pub struct ToolCancelledView {
    pub duration_ms: u64,
    pub tool_call_id: Seq<char>,
    pub turn_id: TurnId,
}

impl View for ToolCancelled {
    type V = ToolCancelledView;

    open spec fn view(&self) -> ToolCancelledView {
        ToolCancelledView {
            duration_ms: self.duration_ms,
            tool_call_id: self.tool_call_id@,
            turn_id: self.turn_id,
        }
    }
}

pub struct ToolRejectedView {
    pub error_category: Seq<char>,
    pub tool_call_id: Seq<char>,
    pub tool_name: Seq<char>,
    pub turn_id: TurnId,
}

impl View for ToolRejected {
    type V = ToolRejectedView;

    open spec fn view(&self) -> ToolRejectedView {
        ToolRejectedView {
            error_category: self.error_category@,
            tool_call_id: self.tool_call_id@,
            tool_name: self.tool_name@,
            turn_id: self.turn_id,
        }
    }
}

pub struct TurnCommittedView {
    pub outcome: CommitOutcomeView,
    pub turn_id: TurnId,
}

impl View for TurnCommitted {
    type V = TurnCommittedView;

    open spec fn view(&self) -> TurnCommittedView {
        TurnCommittedView {
            outcome: self.outcome@,
            turn_id: self.turn_id,
        }
    }
}

pub struct TurnAbortedView {
    pub outcome: AbortOutcomeView,
    pub turn_id: TurnId,
}

impl View for TurnAborted {
    type V = TurnAbortedView;

    open spec fn view(&self) -> TurnAbortedView {
        TurnAbortedView {
            outcome: self.outcome@,
            turn_id: self.turn_id,
        }
    }
}

/// What a record says happened.
pub enum EntryView {
    SessionStarted(SessionStarted),
    RunStarted(RunStartedView),
    TurnStarted(TurnStartedView),
    MessageAdded(MessageAddedView),
    ProviderRoundStarted(ProviderRoundStartedView),
    ProviderRoundCompleted(ProviderRoundCompletedView),
    ProviderRoundFailed(ProviderRoundFailedView),
    ProviderRoundCancelled(ProviderRoundCancelledView),
    ApprovalRequested(ApprovalRequestedView),
    ApprovalDecided(ApprovalDecidedView),
    ToolStarted(ToolStartedView),
    ToolCompleted(ToolCompletedView),
    ToolFailed(ToolFailedView),
    ToolCancelled(ToolCancelledView),
    ToolRejected(ToolRejectedView),
    TurnCommitted(TurnCommittedView),
    TurnAborted(TurnAbortedView),
    RunEnded(RunEnded),
}

impl View for JournalEntry {
    type V = EntryView;

    open spec fn view(&self) -> EntryView {
        match self {
            JournalEntry::SessionStarted(started) => EntryView::SessionStarted(*started),
            JournalEntry::RunStarted(started) => EntryView::RunStarted(started@),
            JournalEntry::TurnStarted(entry) => EntryView::TurnStarted(entry@),
            JournalEntry::MessageAdded(entry) => EntryView::MessageAdded(entry@),
            JournalEntry::ProviderRoundStarted(entry) => EntryView::ProviderRoundStarted(entry@),
            JournalEntry::ProviderRoundCompleted(entry) => EntryView::ProviderRoundCompleted(entry@),
            JournalEntry::ProviderRoundFailed(entry) => EntryView::ProviderRoundFailed(entry@),
            JournalEntry::ProviderRoundCancelled(entry) => EntryView::ProviderRoundCancelled(entry@),
            JournalEntry::ApprovalRequested(entry) => EntryView::ApprovalRequested(entry@),
            JournalEntry::ApprovalDecided(entry) => EntryView::ApprovalDecided(entry@),
            JournalEntry::ToolStarted(entry) => EntryView::ToolStarted(entry@),
            JournalEntry::ToolCompleted(entry) => EntryView::ToolCompleted(entry@),
            JournalEntry::ToolFailed(entry) => EntryView::ToolFailed(entry@),
            JournalEntry::ToolCancelled(entry) => EntryView::ToolCancelled(entry@),
            JournalEntry::ToolRejected(entry) => EntryView::ToolRejected(entry@),
            JournalEntry::TurnCommitted(entry) => EntryView::TurnCommitted(entry@),
            JournalEntry::TurnAborted(entry) => EntryView::TurnAborted(entry@),
            JournalEntry::RunEnded(ended) => EntryView::RunEnded(*ended),
        }
    }
}

} // verus!
