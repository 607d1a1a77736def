//! The records of a session journal.
use crate::journal::id::{ApprovalId, ProviderRoundId, RunId, SessionId, TurnId};
use crate::message::{Message, StopReason};
use crate::protocol::{ApprovalGrant, ApprovalLifetime, ApprovalSubject, NamedCapability};
use crate::provider::{ModelUsage, ProviderDescriptor, ReportedCost};
use crate::tools::ToolDefinition;
use jiff::Timestamp;
use vstd::prelude::*;

verus! {

pub const JOURNAL_SCHEMA_VERSION: u32 = 1;

/// One line of the journal.
#[derive(Debug, PartialEq, Eq)]
pub struct JournalRecord {
    pub entry: JournalEntry,
    pub recorded_at: Timestamp,
    pub schema_version: u32,
    pub sequence: u64,
    pub session_id: SessionId,
}

impl JournalRecord {
    pub fn new(
        sequence: u64,
        recorded_at: Timestamp,
        session_id: SessionId,
        entry: JournalEntry,
    ) -> (record: Self)
        ensures
            record == (JournalRecord {
                entry,
                recorded_at,
                schema_version: JOURNAL_SCHEMA_VERSION,
                sequence,
                session_id,
            }),
    {
        JournalRecord {
            entry,
            recorded_at,
            schema_version: JOURNAL_SCHEMA_VERSION,
            sequence,
            session_id,
        }
    }
}

impl Clone for JournalRecord {
    fn clone(&self) -> (copy: Self)
        ensures
            copy.entry@ == self.entry@,
            copy.recorded_at == self.recorded_at,
            copy.schema_version == self.schema_version,
            copy.sequence == self.sequence,
            copy.session_id == self.session_id,
    {
        JournalRecord {
            entry: self.entry.clone(),
            recorded_at: self.recorded_at,
            schema_version: self.schema_version,
            sequence: self.sequence,
            session_id: self.session_id,
        }
    }
}

/// What a record says happened.
#[derive(Debug, PartialEq, Eq)]
pub enum JournalEntry {
    SessionStarted(SessionStarted),
    RunStarted(RunStarted),
    TurnStarted(TurnStarted),
    MessageAdded(MessageAdded),
    ProviderRoundStarted(ProviderRoundStarted),
    ProviderRoundCompleted(ProviderRoundCompleted),
    ProviderRoundFailed(ProviderRoundFailed),
    ProviderRoundCancelled(ProviderRoundCancelled),
    ApprovalRequested(ApprovalRequested),
    ApprovalDecided(ApprovalDecided),
    ToolStarted(ToolStarted),
    ToolCompleted(ToolCompleted),
    ToolFailed(ToolFailed),
    ToolCancelled(ToolCancelled),
    ToolRejected(ToolRejected),
    TurnCommitted(TurnCommitted),
    TurnAborted(TurnAborted),
    RunEnded(RunEnded),
}

impl Clone for JournalEntry {
    fn clone(&self) -> (copy: Self)
        ensures
            copy@ == self@,
    {
        match self {
            JournalEntry::SessionStarted(entry) => JournalEntry::SessionStarted(entry.clone()),
            JournalEntry::RunStarted(entry) => JournalEntry::RunStarted(entry.clone()),
            JournalEntry::TurnStarted(entry) => JournalEntry::TurnStarted(entry.clone()),
            JournalEntry::MessageAdded(entry) => JournalEntry::MessageAdded(entry.clone()),
            JournalEntry::ProviderRoundStarted(entry) =>
                JournalEntry::ProviderRoundStarted(entry.clone()),
            JournalEntry::ProviderRoundCompleted(entry) =>
                JournalEntry::ProviderRoundCompleted(entry.clone()),
            JournalEntry::ProviderRoundFailed(entry) =>
                JournalEntry::ProviderRoundFailed(entry.clone()),
            JournalEntry::ProviderRoundCancelled(entry) =>
                JournalEntry::ProviderRoundCancelled(entry.clone()),
            JournalEntry::ApprovalRequested(entry) =>
                JournalEntry::ApprovalRequested(entry.clone()),
            JournalEntry::ApprovalDecided(entry) => JournalEntry::ApprovalDecided(entry.clone()),
            JournalEntry::ToolStarted(entry) => JournalEntry::ToolStarted(entry.clone()),
            JournalEntry::ToolCompleted(entry) => JournalEntry::ToolCompleted(entry.clone()),
            JournalEntry::ToolFailed(entry) => JournalEntry::ToolFailed(entry.clone()),
            JournalEntry::ToolCancelled(entry) => JournalEntry::ToolCancelled(entry.clone()),
            JournalEntry::ToolRejected(entry) => JournalEntry::ToolRejected(entry.clone()),
            JournalEntry::TurnCommitted(entry) => JournalEntry::TurnCommitted(entry.clone()),
            JournalEntry::TurnAborted(entry) => JournalEntry::TurnAborted(entry.clone()),
            JournalEntry::RunEnded(entry) => JournalEntry::RunEnded(entry.clone()),
        }
    }
}

#[derive(Debug, PartialEq, Eq)]
pub struct SessionStarted {
    pub cane_version: String,
    pub instructions: String,
    pub workspace: String,
}

impl Clone for SessionStarted {
    fn clone(&self) -> (copy: Self)
        ensures
            copy == *self,
    {
        SessionStarted {
            cane_version: self.cane_version.clone(),
            instructions: self.instructions.clone(),
            workspace: self.workspace.clone(),
        }
    }
}

#[derive(Debug, PartialEq, Eq)]
pub struct RunStarted {
    pub approval_grants: Vec<EffectiveApprovalGrant>,
    pub git: Option<GitContext>,
    pub max_output_tokens: u32,
    pub model: String,
    pub provider: ProviderDescriptor,
    pub run_id: RunId,
    pub shell_policy: Option<ShellPolicy>,
    pub tool_catalog: Vec<ToolDefinition>,
}

impl Clone for RunStarted {
    fn clone(&self) -> (copy: Self)
        ensures
            copy@ == self@,
    {
        let approval_grants = self.approval_grants.clone();
        assert(approval_grants@ =~= self.approval_grants@);
        let tool_catalog = self.tool_catalog.clone();
        assert(tool_catalog@ =~= self.tool_catalog@);
        RunStarted {
            approval_grants,
            git: self.git.clone(),
            max_output_tokens: self.max_output_tokens,
            model: self.model.clone(),
            provider: self.provider.clone(),
            run_id: self.run_id,
            shell_policy: self.shell_policy.clone(),
            tool_catalog,
        }
    }
}

#[derive(Debug, PartialEq, Eq)]
pub struct EffectiveApprovalGrant {
    pub grant: ApprovalGrant,
    pub source: ApprovalGrantSource,
}

impl Clone for EffectiveApprovalGrant {
    fn clone(&self) -> (copy: Self)
        ensures
            copy == *self,
    {
        EffectiveApprovalGrant { grant: self.grant.clone(), source: self.source }
    }
}

#[derive(Clone, Copy, Debug, PartialEq, Eq, Structural)]
pub enum ApprovalGrantSource {
    WorkspaceConfiguration,
}

#[derive(Debug, PartialEq, Eq)]
pub struct GitContext {
    pub branch: Option<String>,
    pub dirty: Option<bool>,
    pub head: Option<String>,
    pub repository_root: Option<String>,
}

impl Clone for GitContext {
    fn clone(&self) -> (copy: Self)
        ensures
            copy == *self,
    {
        GitContext {
            branch: self.branch.clone(),
            dirty: self.dirty,
            head: self.head.clone(),
            repository_root: self.repository_root.clone(),
        }
    }
}

#[derive(Debug, PartialEq, Eq)]
pub struct TurnStarted {
    pub run_id: RunId,
    pub turn_id: TurnId,
}

impl Clone for TurnStarted {
    fn clone(&self) -> (copy: Self)
        ensures
            copy == *self,
    {
        TurnStarted { run_id: self.run_id, turn_id: self.turn_id }
    }
}

#[derive(Debug, PartialEq, Eq)]
pub struct MessageAdded {
    pub message: Message,
    pub run_id: RunId,
    pub turn_id: TurnId,
}

impl Clone for MessageAdded {
    fn clone(&self) -> (copy: Self)
        ensures
            copy@ == self@,
    {
        MessageAdded { message: self.message.clone(), run_id: self.run_id, turn_id: self.turn_id }
    }
}

#[derive(Debug, PartialEq, Eq)]
pub struct ProviderRoundStarted {
    pub model: String,
    pub provider: ProviderDescriptor,
    pub provider_round_id: ProviderRoundId,
    pub run_id: RunId,
    pub turn_id: TurnId,
}

impl Clone for ProviderRoundStarted {
    fn clone(&self) -> (copy: Self)
        ensures
            copy == *self,
    {
        ProviderRoundStarted {
            model: self.model.clone(),
            provider: self.provider.clone(),
            provider_round_id: self.provider_round_id,
            run_id: self.run_id,
            turn_id: self.turn_id,
        }
    }
}

#[derive(Debug, PartialEq, Eq)]
pub struct ProviderRoundCompleted {
    pub latency_ms: u64,
    pub provider_cost: Option<ReportedCost>,
    pub provider_round_id: ProviderRoundId,
    pub request_id: Option<String>,
    pub run_id: RunId,
    pub stop_reason: StopReason,
    pub turn_id: TurnId,
    pub usage: Option<ModelUsage>,
}

impl Clone for ProviderRoundCompleted {
    fn clone(&self) -> (copy: Self)
        ensures
            copy == *self,
    {
        ProviderRoundCompleted {
            latency_ms: self.latency_ms,
            provider_cost: self.provider_cost.clone(),
            provider_round_id: self.provider_round_id,
            request_id: self.request_id.clone(),
            run_id: self.run_id,
            stop_reason: self.stop_reason.clone(),
            turn_id: self.turn_id,
            usage: self.usage,
        }
    }
}

#[derive(Debug, PartialEq, Eq)]
pub struct ProviderRoundFailed {
    pub error: ErrorDetail,
    pub latency_ms: u64,
    pub provider_round_id: ProviderRoundId,
    pub request_id: Option<String>,
    pub run_id: RunId,
    pub turn_id: TurnId,
}

impl Clone for ProviderRoundFailed {
    fn clone(&self) -> (copy: Self)
        ensures
            copy == *self,
    {
        ProviderRoundFailed {
            error: self.error.clone(),
            latency_ms: self.latency_ms,
            provider_round_id: self.provider_round_id,
            request_id: self.request_id.clone(),
            run_id: self.run_id,
            turn_id: self.turn_id,
        }
    }
}

#[derive(Debug, PartialEq, Eq)]
pub struct ProviderRoundCancelled {
    pub latency_ms: u64,
    pub provider_round_id: ProviderRoundId,
    pub run_id: RunId,
    pub turn_id: TurnId,
}

impl Clone for ProviderRoundCancelled {
    fn clone(&self) -> (copy: Self)
        ensures
            copy == *self,
    {
        ProviderRoundCancelled {
            latency_ms: self.latency_ms,
            provider_round_id: self.provider_round_id,
            run_id: self.run_id,
            turn_id: self.turn_id,
        }
    }
}

#[derive(Debug, PartialEq, Eq)]
pub struct ApprovalRequested {
    pub approval_id: ApprovalId,
    pub available_lifetimes: Vec<ApprovalLifetime>,
    pub subject: ApprovalSubject,
    pub turn_id: TurnId,
}

impl Clone for ApprovalRequested {
    fn clone(&self) -> (copy: Self)
        ensures
            copy@ == self@,
    {
        let available_lifetimes = self.available_lifetimes.clone();
        assert(available_lifetimes@ =~= self.available_lifetimes@);
        ApprovalRequested {
            approval_id: self.approval_id,
            available_lifetimes,
            subject: self.subject.clone(),
            turn_id: self.turn_id,
        }
    }
}

/// The lifetimes on offer in a request that does not list any.
pub fn legacy_approval_lifetimes() -> (lifetimes: Vec<ApprovalLifetime>)
    ensures
        lifetimes@ == seq![ApprovalLifetime::Invocation, ApprovalLifetime::Run],
{
    vec![ApprovalLifetime::Invocation, ApprovalLifetime::Run]
}

#[derive(Debug, PartialEq, Eq)]
pub struct ApprovalDecided {
    pub approval_id: ApprovalId,
    pub decision: JournalApprovalDecision,
}

impl Clone for ApprovalDecided {
    fn clone(&self) -> (copy: Self)
        ensures
            copy == *self,
    {
        ApprovalDecided { approval_id: self.approval_id, decision: self.decision.clone() }
    }
}

#[derive(Debug, PartialEq, Eq)]
pub enum JournalApprovalDecision {
    AllowForRun,
    AllowOnce,
    Deny { reason: String },
    Grant { grant: ApprovalGrant },
}

impl Clone for JournalApprovalDecision {
    fn clone(&self) -> (copy: Self)
        ensures
            copy == *self,
    {
        match self {
            JournalApprovalDecision::AllowForRun => JournalApprovalDecision::AllowForRun,
            JournalApprovalDecision::AllowOnce => JournalApprovalDecision::AllowOnce,
            JournalApprovalDecision::Deny { reason } => JournalApprovalDecision::Deny {
                reason: reason.clone(),
            },
            JournalApprovalDecision::Grant { grant } => JournalApprovalDecision::Grant {
                grant: grant.clone(),
            },
        }
    }
}

#[derive(Debug, PartialEq, Eq)]
pub struct ToolStarted {
    pub authorization: ToolAuthorization,
    pub execution: Option<ToolExecutionStarted>,
    pub tool_call_id: String,
    pub tool_name: String,
    pub turn_id: TurnId,
}

impl Clone for ToolStarted {
    fn clone(&self) -> (copy: Self)
        ensures
            copy@ == self@,
    {
        ToolStarted {
            authorization: self.authorization.clone(),
            execution: self.execution.clone(),
            tool_call_id: self.tool_call_id.clone(),
            tool_name: self.tool_name.clone(),
            turn_id: self.turn_id,
        }
    }
}

#[derive(Debug, PartialEq, Eq)]
pub enum ToolAuthorization {
    ApprovedForRun {
        approval_id: ApprovalId,
    },
    ApprovedOnce {
        approval_id: ApprovalId,
    },
    Granted {
        approval_id: ApprovalId,
        grant: ApprovalGrant,
    },
    NotRequired,
}

impl Clone for ToolAuthorization {
    fn clone(&self) -> (copy: Self)
        ensures
            copy == *self,
    {
        match self {
            ToolAuthorization::ApprovedForRun { approval_id } => ToolAuthorization::ApprovedForRun {
                approval_id: *approval_id,
            },
            ToolAuthorization::ApprovedOnce { approval_id } => ToolAuthorization::ApprovedOnce {
                approval_id: *approval_id,
            },
            ToolAuthorization::Granted { approval_id, grant } => ToolAuthorization::Granted {
                approval_id: *approval_id,
                grant: grant.clone(),
            },
            ToolAuthorization::NotRequired => ToolAuthorization::NotRequired,
        }
    }
}

#[derive(Debug, PartialEq, Eq)]
pub struct ToolCompleted {
    pub duration_ms: u64,
    pub execution: Option<ToolExecutionCompleted>,
    pub tool_call_id: String,
    pub turn_id: TurnId,
}

impl Clone for ToolCompleted {
    fn clone(&self) -> (copy: Self)
        ensures
            copy == *self,
    {
        ToolCompleted {
            duration_ms: self.duration_ms,
            execution: self.execution.clone(),
            tool_call_id: self.tool_call_id.clone(),
            turn_id: self.turn_id,
        }
    }
}

#[derive(Debug, PartialEq, Eq)]
pub struct ShellPolicy {
    pub backend: Option<ShellSandboxBackend>,
    pub boundaries: ShellBoundaries,
    pub exposed_roots: Vec<ShellExposedRoot>,
    pub mode: ShellMode,
}

impl Clone for ShellPolicy {
    fn clone(&self) -> (copy: Self)
        ensures
            copy@ == self@,
    {
        let exposed_roots = self.exposed_roots.clone();
        assert(exposed_roots@ =~= self.exposed_roots@);
        ShellPolicy {
            backend: self.backend.clone(),
            boundaries: self.boundaries.clone(),
            exposed_roots,
            mode: self.mode,
        }
    }
}

#[derive(Debug, PartialEq, Eq)]
pub struct ShellSandboxBackend {
    pub name: String,
    pub version: Option<String>,
}

impl Clone for ShellSandboxBackend {
    fn clone(&self) -> (copy: Self)
        ensures
            copy == *self,
    {
        ShellSandboxBackend { name: self.name.clone(), version: self.version.clone() }
    }
}

#[derive(Debug, PartialEq, Eq)]
pub struct ShellBoundaries {
    pub environment: BoundaryEnforcement,
    pub filesystem: BoundaryEnforcement,
    pub network: BoundaryEnforcement,
    pub process: BoundaryEnforcement,
}

impl Clone for ShellBoundaries {
    fn clone(&self) -> (copy: Self)
        ensures
            copy == *self,
    {
        ShellBoundaries {
            environment: self.environment.clone(),
            filesystem: self.filesystem.clone(),
            network: self.network.clone(),
            process: self.process.clone(),
        }
    }
}

#[derive(Debug, PartialEq, Eq)]
pub enum BoundaryEnforcement {
    Enforced { mechanism: String },
    NotApplicable,
    Unrestricted,
}

impl Clone for BoundaryEnforcement {
    fn clone(&self) -> (copy: Self)
        ensures
            copy == *self,
    {
        match self {
            BoundaryEnforcement::Enforced { mechanism } => BoundaryEnforcement::Enforced {
                mechanism: mechanism.clone(),
            },
            BoundaryEnforcement::NotApplicable => BoundaryEnforcement::NotApplicable,
            BoundaryEnforcement::Unrestricted => BoundaryEnforcement::Unrestricted,
        }
    }
}

#[derive(Debug, PartialEq, Eq)]
pub struct ShellExposedRoot {
    pub access: FilesystemAccess,
    pub path: String,
}

impl Clone for ShellExposedRoot {
    fn clone(&self) -> (copy: Self)
        ensures
            copy == *self,
    {
        ShellExposedRoot { access: self.access, path: self.path.clone() }
    }
}

#[derive(Clone, Copy, Debug, PartialEq, Eq, Structural)]
pub enum FilesystemAccess {
    ReadOnly,
    ReadWrite,
}

#[derive(Clone, Copy, Debug, PartialEq, Eq, Structural)]
pub enum ShellMode {
    Disabled,
    Sandboxed,
    Unsafe,
}

#[derive(Debug, PartialEq, Eq)]
pub enum ToolExecutionStarted {
    Shell {
        capabilities: Vec<ExecutionCapability>,
    },
}

impl Clone for ToolExecutionStarted {
    fn clone(&self) -> (copy: Self)
        ensures
            copy@ == self@,
    {
        match self {
            ToolExecutionStarted::Shell { capabilities } => {
                let copied = capabilities.clone();
                assert(copied@ =~= capabilities@);
                ToolExecutionStarted::Shell { capabilities: copied }
            },
        }
    }
}

#[derive(Debug, PartialEq, Eq, Hash)]
pub struct ExecutionCapability {
    pub capability: NamedCapability,
    pub source: CapabilityAuthorizationSource,
}

impl Clone for ExecutionCapability {
    fn clone(&self) -> (copy: Self)
        ensures
            copy == *self,
    {
        ExecutionCapability { capability: self.capability.clone(), source: self.source.clone() }
    }
}

#[derive(Debug, PartialEq, Eq, Hash)]
pub enum CapabilityAuthorizationSource {
    Approval { approval_id: ApprovalId },
    WorkspaceConfiguration,
}

impl Clone for CapabilityAuthorizationSource {
    fn clone(&self) -> (copy: Self)
        ensures
            copy == *self,
    {
        match self {
            CapabilityAuthorizationSource::Approval { approval_id } =>
                CapabilityAuthorizationSource::Approval { approval_id: *approval_id },
            CapabilityAuthorizationSource::WorkspaceConfiguration =>
                CapabilityAuthorizationSource::WorkspaceConfiguration,
        }
    }
}

#[derive(Debug, PartialEq, Eq)]
pub enum ToolExecutionCompleted {
    Shell {
        stderr: CapturedStream,
        stdout: CapturedStream,
        termination: CommandTermination,
    },
}

impl Clone for ToolExecutionCompleted {
    fn clone(&self) -> (copy: Self)
        ensures
            copy == *self,
    {
        match self {
            ToolExecutionCompleted::Shell { stderr, stdout, termination } =>
                ToolExecutionCompleted::Shell {
                    stderr: stderr.clone(),
                    stdout: stdout.clone(),
                    termination: termination.clone(),
                },
        }
    }
}

#[derive(Debug, PartialEq, Eq)]
pub struct CapturedStream {
    pub bytes: u64,
    pub truncated: bool,
}

impl Clone for CapturedStream {
    fn clone(&self) -> (copy: Self)
        ensures
            copy == *self,
    {
        CapturedStream { bytes: self.bytes, truncated: self.truncated }
    }
}

#[derive(Debug, PartialEq, Eq)]
pub enum CommandTermination {
    Exited { code: i32 },
    Signaled { signal: i32 },
    TimedOut,
}

impl Clone for CommandTermination {
    fn clone(&self) -> (copy: Self)
        ensures
            copy == *self,
    {
        match self {
            CommandTermination::Exited { code } => CommandTermination::Exited { code: *code },
            CommandTermination::Signaled { signal } => CommandTermination::Signaled {
                signal: *signal,
            },
            CommandTermination::TimedOut => CommandTermination::TimedOut,
        }
    }
}

#[derive(Debug, PartialEq, Eq)]
pub struct ToolFailed {
    pub duration_ms: u64,
    pub error_category: String,
    pub tool_call_id: String,
    pub turn_id: TurnId,
}

impl Clone for ToolFailed {
    fn clone(&self) -> (copy: Self)
        ensures
            copy == *self,
    {
        ToolFailed {
            duration_ms: self.duration_ms,
            error_category: self.error_category.clone(),
            tool_call_id: self.tool_call_id.clone(),
            turn_id: self.turn_id,
        }
    }
}

#[derive(Debug, PartialEq, Eq)]
pub struct ToolCancelled {
    pub duration_ms: u64,
    pub tool_call_id: String,
    pub turn_id: TurnId,
}

impl Clone for ToolCancelled {
    fn clone(&self) -> (copy: Self)
        ensures
            copy == *self,
    {
        ToolCancelled {
            duration_ms: self.duration_ms,
            tool_call_id: self.tool_call_id.clone(),
            turn_id: self.turn_id,
        }
    }
}

#[derive(Debug, PartialEq, Eq)]
pub struct ToolRejected {
    pub error_category: String,
    pub tool_call_id: String,
    pub tool_name: String,
    pub turn_id: TurnId,
}

impl Clone for ToolRejected {
    fn clone(&self) -> (copy: Self)
        ensures
            copy == *self,
    {
        ToolRejected {
            error_category: self.error_category.clone(),
            tool_call_id: self.tool_call_id.clone(),
            tool_name: self.tool_name.clone(),
            turn_id: self.turn_id,
        }
    }
}

#[derive(Debug, PartialEq, Eq)]
pub struct TurnCommitted {
    pub outcome: TurnCommitOutcome,
    pub turn_id: TurnId,
}

impl Clone for TurnCommitted {
    fn clone(&self) -> (copy: Self)
        ensures
            copy == *self,
    {
        TurnCommitted { outcome: self.outcome.clone(), turn_id: self.turn_id }
    }
}

#[derive(Debug, PartialEq, Eq)]
pub enum TurnCommitOutcome {
    Completed { stop_reason: StopReason },
    Paused { reason: String },
}

impl Clone for TurnCommitOutcome {
    fn clone(&self) -> (copy: Self)
        ensures
            copy == *self,
    {
        match self {
            TurnCommitOutcome::Completed { stop_reason } => TurnCommitOutcome::Completed {
                stop_reason: stop_reason.clone(),
            },
            TurnCommitOutcome::Paused { reason } => TurnCommitOutcome::Paused {
                reason: reason.clone(),
            },
        }
    }
}

#[derive(Debug, PartialEq, Eq)]
pub struct TurnAborted {
    pub outcome: TurnAbortOutcome,
    pub turn_id: TurnId,
}

impl Clone for TurnAborted {
    fn clone(&self) -> (copy: Self)
        ensures
            copy == *self,
    {
        TurnAborted { outcome: self.outcome.clone(), turn_id: self.turn_id }
    }
}

#[derive(Debug, PartialEq, Eq)]
pub enum TurnAbortOutcome {
    Failed {
        error: Option<ErrorDetail>,
    },
    Cancelled,
}

impl Clone for TurnAbortOutcome {
    fn clone(&self) -> (copy: Self)
        ensures
            copy == *self,
    {
        match self {
            TurnAbortOutcome::Failed { error } => TurnAbortOutcome::Failed { error: error.clone() },
            TurnAbortOutcome::Cancelled => TurnAbortOutcome::Cancelled,
        }
    }
}

#[derive(Debug, PartialEq, Eq)]
pub struct ErrorDetail {
    pub category: String,
    pub message: String,
}

impl Clone for ErrorDetail {
    fn clone(&self) -> (copy: Self)
        ensures
            copy == *self,
    {
        ErrorDetail { category: self.category.clone(), message: self.message.clone() }
    }
}

#[derive(Debug, PartialEq, Eq)]
pub struct RunEnded {
    pub reason: RunEndReason,
    pub run_id: RunId,
}

impl Clone for RunEnded {
    fn clone(&self) -> (copy: Self)
        ensures
            copy == *self,
    {
        RunEnded { reason: self.reason.clone(), run_id: self.run_id }
    }
}

#[derive(Debug, PartialEq, Eq)]
pub enum RunEndReason {
    ActiveTurnCancelled,
    FrontendDisconnected,
    IdleCancelled,
    InputClosed,
    UserQuit,
}

impl Clone for RunEndReason {
    fn clone(&self) -> (copy: Self)
        ensures
            copy == *self,
    {
        match self {
            RunEndReason::ActiveTurnCancelled => RunEndReason::ActiveTurnCancelled,
            RunEndReason::FrontendDisconnected => RunEndReason::FrontendDisconnected,
            RunEndReason::IdleCancelled => RunEndReason::IdleCancelled,
            RunEndReason::InputClosed => RunEndReason::InputClosed,
            RunEndReason::UserQuit => RunEndReason::UserQuit,
        }
    }
}

} // verus!
