//! What the agent remembers between one thing it does and the next, what it does, and what it
//! hears back.
use crate::agent::rules::{TurnBudget, TurnResult, TurnResultView};
use crate::approval::ApprovalReply;
use crate::journal::id::{ApprovalId, ProviderRoundId, TurnId};
use crate::journal::schema::{JournalEntry, RunEndReason, ToolAuthorization};
use crate::journal::view::{AuthorizationView, EntryView};
use crate::message::{
    block_views, ContentBlock, ContentBlockView, Message, MessageView, StopReason, StopReasonView,
    ToolResultData, ToolResultView,
};
use crate::protocol::{
    AgentCommand, AgentEvent, AgentEventView, AgentExit, AgentExitView, ApprovalLifetime,
    ApprovalRequirement, ApprovalSubject, ApprovalSubjectView,
};
use crate::provider::{ModelTurn, ProviderError};
use crate::tools::ToolExecutionError;
use vstd::prelude::*;

verus! {

/// Identifiers that were not used before, for whatever the next step starts.
#[derive(Clone, Copy, Debug, PartialEq, Eq, Structural)]
pub struct FreshIds {
    pub approval: ApprovalId,
    pub round: ProviderRoundId,
    pub turn: TurnId,
}

impl FreshIds {
    /// Three identifiers, each as the generator of its domain gave it.
    pub fn generate() -> (fresh: Self)
        ensures
            call_ensures(ApprovalId::generate, (), fresh.approval),
            call_ensures(ProviderRoundId::generate, (), fresh.round),
            call_ensures(TurnId::generate, (), fresh.turn),
    {
        let approval = ApprovalId::generate();
        let round = ProviderRoundId::generate();
        let turn = TurnId::generate();
        FreshIds { approval, round, turn }
    }
}

/// The turn that is going on, and where in the history it starts.
#[derive(Clone, Copy, Debug, PartialEq, Eq, Structural)]
pub struct ActiveTurn {
    pub budget: TurnBudget,
    pub id: TurnId,
    pub start: usize,
}

/// The tool calls of the last answer: the block to look at next, and the results so far.
pub struct PendingCalls {
    pub at: usize,
    pub results: Vec<ContentBlock>,
    pub turn: ActiveTurn,
}

pub struct PendingCallsView {
    pub at: usize,
    pub results: Seq<ContentBlockView>,
    pub turn: ActiveTurn,
}

impl View for PendingCalls {
    type V = PendingCallsView;

    open spec fn view(&self) -> PendingCallsView {
        PendingCallsView { at: self.at, results: block_views(self.results@), turn: self.turn }
    }
}

/// The tool call that is being dealt with.
pub struct ActiveCall {
    pub calls: PendingCalls,
    pub id: String,
    pub input: serde_json::Value,
    pub name: String,
}

pub struct ActiveCallView {
    pub calls: PendingCallsView,
    pub id: Seq<char>,
    pub input: serde_json::Value,
    pub name: Seq<char>,
}

impl View for ActiveCall {
    type V = ActiveCallView;

    open spec fn view(&self) -> ActiveCallView {
        ActiveCallView {
            calls: self.calls@,
            id: self.id@,
            input: self.input,
            name: self.name@,
        }
    }
}

impl ActiveCallView {
    pub open spec fn subject(self) -> ApprovalSubjectView {
        ApprovalSubjectView::ToolCall { tool_call_id: self.id, tool_name: self.name }
    }
}

/// Something for the host to do. What comes of it is the next stimulus.
pub enum AgentEffect {
    /// Wait for a command, for cancellation or for the frontend to go away.
    AwaitInput,
    /// Write an entry to the journal.
    Journal(JournalEntry),
    /// Hand an event to the frontend.
    Emit(AgentEvent),
    /// Hand a last event to the frontend; it does not matter whether anyone takes it.
    EmitLast(AgentEvent),
    /// Ask the provider for the answer to the history.
    StreamMessage,
    /// Find a tool and check its arguments.
    PrepareTool { input: serde_json::Value, name: String },
    /// Ask the user for a decision and wait for the reply.
    RequestApproval {
        available_lifetimes: Vec<ApprovalLifetime>,
        input: serde_json::Value,
        subject: ApprovalSubject,
    },
    /// Run the tool that was prepared last.
    ExecuteTool,
    /// The run is over.
    Finish(Option<AgentExit>),
}

pub enum AgentEffectView {
    AwaitInput,
    Journal(EntryView),
    Emit(AgentEventView),
    EmitLast(AgentEventView),
    StreamMessage,
    PrepareTool { input: serde_json::Value, name: Seq<char> },
    RequestApproval {
        available_lifetimes: Seq<ApprovalLifetime>,
        input: serde_json::Value,
        subject: ApprovalSubjectView,
    },
    ExecuteTool,
    Finish(Option<AgentExitView>),
}

pub open spec fn exit_view(exit: Option<AgentExit>) -> Option<AgentExitView> {
    match exit {
        None => None,
        Some(exit) => Some(exit@),
    }
}

impl View for AgentEffect {
    type V = AgentEffectView;

    open spec fn view(&self) -> AgentEffectView {
        match self {
            AgentEffect::AwaitInput => AgentEffectView::AwaitInput,
            AgentEffect::Journal(entry) => AgentEffectView::Journal(entry@),
            AgentEffect::Emit(event) => AgentEffectView::Emit(event@),
            AgentEffect::EmitLast(event) => AgentEffectView::EmitLast(event@),
            AgentEffect::StreamMessage => AgentEffectView::StreamMessage,
            AgentEffect::PrepareTool { input, name } =>
                AgentEffectView::PrepareTool { input: *input, name: name@ },
            AgentEffect::RequestApproval { available_lifetimes, input, subject } =>
                AgentEffectView::RequestApproval {
                    available_lifetimes: available_lifetimes@,
                    input: *input,
                    subject: subject@,
                },
            AgentEffect::ExecuteTool => AgentEffectView::ExecuteTool,
            AgentEffect::Finish(exit) => AgentEffectView::Finish(exit_view(*exit)),
        }
    }
}

pub open spec fn effect_views(effects: Seq<AgentEffect>) -> Seq<AgentEffectView> {
    Seq::new(effects.len(), |i: int| effects[i]@)
}

/// What the host reports back.
#[allow(inconsistent_fields)]
pub enum AgentStimulus {
    /// The run was cancelled while it waited for input.
    Cancelled,
    /// The frontend sent a command.
    Command(AgentCommand),
    /// No more commands will come.
    CommandsClosed,
    /// The frontend takes no more events.
    FrontendClosed,
    /// The entry stands in the journal.
    Journaled,
    JournalFailed(String),
    /// The event was handed over, or was a last one.
    Emitted,
    Streamed { answer: ModelTurn, latency_ms: u64 },
    StreamFailed { error: ProviderError, latency_ms: u64 },
    Prepared { available_lifetimes: Vec<ApprovalLifetime>, requirement: ApprovalRequirement },
    NotPrepared { error: String },
    Replied(ApprovalReply),
    Executed { duration_ms: u64, result: Result<String, ToolExecutionError> },
    /// The tool was stopped because the run was cancelled or the frontend went away.
    Interrupted { disconnected: bool, duration_ms: u64 },
}

/// What to do once everything that was asked for is done.
#[allow(inconsistent_fields)]
pub enum Resumption {
    StartRound { turn: ActiveTurn },
    Stream { round: ProviderRoundId, turn: ActiveTurn },
    TakeAnswer { message: Message, stop_reason: StopReason, turn: ActiveTurn },
    KeepAnswer { message: Message, stop_reason: StopReason, turn: ActiveTurn },
    AskDecision {
        approval_id: ApprovalId,
        available_lifetimes: Vec<ApprovalLifetime>,
        call: ActiveCall,
    },
    StartTool { authorization: ToolAuthorization, call: ActiveCall },
    Execute { call: ActiveCall },
    Resolve { calls: PendingCalls, result: ToolResultData },
    KeepResults { message: Message, turn: ActiveTurn },
    FinishTurn { result: TurnResult, turn: ActiveTurn },
    LeaveTurn { disconnected: bool, turn: ActiveTurn },
    AwaitInput,
    EndRun { exit: Option<AgentExit>, reason: RunEndReason },
    Stop { exit: Option<AgentExit> },
}

#[allow(inconsistent_fields)]
pub enum ResumptionView {
    StartRound { turn: ActiveTurn },
    Stream { round: ProviderRoundId, turn: ActiveTurn },
    TakeAnswer { message: MessageView, stop_reason: StopReasonView, turn: ActiveTurn },
    KeepAnswer { message: MessageView, stop_reason: StopReasonView, turn: ActiveTurn },
    AskDecision {
        approval_id: ApprovalId,
        available_lifetimes: Seq<ApprovalLifetime>,
        call: ActiveCallView,
    },
    StartTool { authorization: AuthorizationView, call: ActiveCallView },
    Execute { call: ActiveCallView },
    Resolve { calls: PendingCallsView, result: ToolResultView },
    KeepResults { message: MessageView, turn: ActiveTurn },
    FinishTurn { result: TurnResultView, turn: ActiveTurn },
    LeaveTurn { disconnected: bool, turn: ActiveTurn },
    AwaitInput,
    EndRun { exit: Option<AgentExitView>, reason: RunEndReason },
    Stop { exit: Option<AgentExitView> },
}

impl View for Resumption {
    type V = ResumptionView;

    open spec fn view(&self) -> ResumptionView {
        match self {
            Resumption::StartRound { turn } => ResumptionView::StartRound { turn: *turn },
            Resumption::Stream { round, turn } =>
                ResumptionView::Stream { round: *round, turn: *turn },
            Resumption::TakeAnswer { message, stop_reason, turn } =>
                ResumptionView::TakeAnswer {
                    message: message@,
                    stop_reason: stop_reason@,
                    turn: *turn,
                },
            Resumption::KeepAnswer { message, stop_reason, turn } =>
                ResumptionView::KeepAnswer {
                    message: message@,
                    stop_reason: stop_reason@,
                    turn: *turn,
                },
            Resumption::AskDecision { approval_id, available_lifetimes, call } =>
                ResumptionView::AskDecision {
                    approval_id: *approval_id,
                    available_lifetimes: available_lifetimes@,
                    call: call@,
                },
            Resumption::StartTool { authorization, call } =>
                ResumptionView::StartTool { authorization: authorization@, call: call@ },
            Resumption::Execute { call } => ResumptionView::Execute { call: call@ },
            Resumption::Resolve { calls, result } =>
                ResumptionView::Resolve { calls: calls@, result: result@ },
            Resumption::KeepResults { message, turn } =>
                ResumptionView::KeepResults { message: message@, turn: *turn },
            Resumption::FinishTurn { result, turn } =>
                ResumptionView::FinishTurn { result: result@, turn: *turn },
            Resumption::LeaveTurn { disconnected, turn } =>
                ResumptionView::LeaveTurn { disconnected: *disconnected, turn: *turn },
            Resumption::AwaitInput => ResumptionView::AwaitInput,
            Resumption::EndRun { exit, reason } =>
                ResumptionView::EndRun { exit: exit_view(*exit), reason: *reason },
            Resumption::Stop { exit } => ResumptionView::Stop { exit: exit_view(*exit) },
        }
    }
}

/// What the agent is waiting for.
pub enum Phase {
    Idle,
    /// For an entry to be written or an event to be handed over; more may be queued.
    Performing { next: Resumption, queue: Vec<AgentEffect> },
    Streaming { round: ProviderRoundId, turn: ActiveTurn },
    Preparing { call: ActiveCall },
    Deciding {
        approval_id: ApprovalId,
        available_lifetimes: Vec<ApprovalLifetime>,
        call: ActiveCall,
    },
    Executing { call: ActiveCall },
    Stopped,
}

pub enum PhaseView {
    Idle,
    Performing { next: ResumptionView, queue: Seq<AgentEffectView> },
    Streaming { round: ProviderRoundId, turn: ActiveTurn },
    Preparing { call: ActiveCallView },
    Deciding {
        approval_id: ApprovalId,
        available_lifetimes: Seq<ApprovalLifetime>,
        call: ActiveCallView,
    },
    Executing { call: ActiveCallView },
    Stopped,
}

impl View for Phase {
    type V = PhaseView;

    open spec fn view(&self) -> PhaseView {
        match self {
            Phase::Idle => PhaseView::Idle,
            Phase::Performing { next, queue } =>
                PhaseView::Performing { next: next@, queue: effect_views(queue@) },
            Phase::Streaming { round, turn } =>
                PhaseView::Streaming { round: *round, turn: *turn },
            Phase::Preparing { call } => PhaseView::Preparing { call: call@ },
            Phase::Deciding { approval_id, available_lifetimes, call } => PhaseView::Deciding {
                approval_id: *approval_id,
                available_lifetimes: available_lifetimes@,
                call: call@,
            },
            Phase::Executing { call } => PhaseView::Executing { call: call@ },
            Phase::Stopped => PhaseView::Stopped,
        }
    }
}

} // verus!
