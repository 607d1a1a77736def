//! What the agent and its frontend say to each other, and the vocabulary of approvals: what may
//! be asked for, and how far a grant reaches.
use crate::checklist::Checklist;
use crate::command::output::CommandOutputChunk;
use crate::journal::writer::JournalError;
use crate::message::{StopReason, StopReasonView};
use crate::text::same_text;
use vstd::prelude::*;
use vstd::string::StringExecFns;

verus! {

/// How a turn ended.
#[derive(Debug, PartialEq)]
pub enum TurnOutcome {
    Completed { stop_reason: StopReason },
    Paused { reason: String },
    Failed,
    Cancelled,
}

pub enum TurnOutcomeView {
    Completed { stop_reason: StopReasonView },
    Paused { reason: Seq<char> },
    Failed,
    Cancelled,
}

impl View for TurnOutcome {
    type V = TurnOutcomeView;

    open spec fn view(&self) -> TurnOutcomeView {
        match self {
            TurnOutcome::Completed { stop_reason } =>
                TurnOutcomeView::Completed { stop_reason: stop_reason@ },
            TurnOutcome::Paused { reason } => TurnOutcomeView::Paused { reason: reason@ },
            TurnOutcome::Failed => TurnOutcomeView::Failed,
            TurnOutcome::Cancelled => TurnOutcomeView::Cancelled,
        }
    }
}

/// Why the agent stops before its command stream ends.
#[derive(Debug, PartialEq)]
pub enum AgentExit {
    /// The command stream or the event stream closed; a clean shutdown.
    Disconnected,
    /// The authoritative journal could no longer be written.
    JournalFailed(String),
    /// Cancellation was asked for while a turn was active.
    Cancelled,
}

pub enum AgentExitView {
    Disconnected,
    JournalFailed(Seq<char>),
    Cancelled,
}

impl View for AgentExit {
    type V = AgentExitView;

    open spec fn view(&self) -> AgentExitView {
        match self {
            AgentExit::Disconnected => AgentExitView::Disconnected,
            AgentExit::JournalFailed(message) => AgentExitView::JournalFailed(message@),
            AgentExit::Cancelled => AgentExitView::Cancelled,
        }
    }
}

impl AgentExit {
    /// The exit in words.
    pub fn describe(&self) -> (words: String)
        ensures
            words@ == match self {
                AgentExit::Disconnected => "Command channel or event channel closed"@,
                AgentExit::JournalFailed(message) => "Session journal failed: "@ + message@,
                AgentExit::Cancelled => "Cancellation token tripped"@,
            },
    {
        match self {
            AgentExit::Disconnected => "Command channel or event channel closed".to_owned(),
            AgentExit::JournalFailed(message) => "Session journal failed: ".to_owned().concat(
                message.as_str(),
            ),
            AgentExit::Cancelled => "Cancellation token tripped".to_owned(),
        }
    }
}

impl From<JournalError> for AgentExit {
    fn from(error: JournalError) -> (exit: AgentExit)
        ensures
            exit@ == AgentExitView::JournalFailed(error.words()),
    {
        AgentExit::JournalFailed(error.describe())
    }
}

// A text is known by its characters alone, so that no one exit can be named: what `from` gives is
// what its own `ensures` says.
impl vstd::std_specs::convert::FromSpecImpl<JournalError> for AgentExit {
    open spec fn obeys_from_spec() -> bool {
        false
    }

    open spec fn from_spec(error: JournalError) -> AgentExit {
        choose|exit: AgentExit| exit@ == AgentExitView::JournalFailed(error.words())
    }
}

/// The frontend no longer takes events.
#[derive(Clone, Copy, Debug, PartialEq, Eq, Structural)]
pub struct FrontendGone;

impl From<FrontendGone> for AgentExit {
    fn from(gone: FrontendGone) -> (exit: AgentExit)
        ensures
            exit == AgentExit::Disconnected,
    {
        AgentExit::Disconnected
    }
}

impl vstd::std_specs::convert::FromSpecImpl<FrontendGone> for AgentExit {
    open spec fn obeys_from_spec() -> bool {
        true
    }

    open spec fn from_spec(gone: FrontendGone) -> AgentExit {
        AgentExit::Disconnected
    }
}

/// What the frontend asks of the agent.
#[derive(Debug, PartialEq)]
pub enum AgentCommand {
    Shutdown(ShutdownReason),
    UserInput(String),
}

/// An observation that the agent reports to its frontend.
#[derive(Debug)]
pub enum AgentEvent {
    ApprovalRequest {
        available_lifetimes: Vec<ApprovalLifetime>,
        input: serde_json::Value,
        subject: ApprovalSubject,
    },
    ChecklistUpdated(Checklist),
    CommandOutput(CommandOutputChunk),
    TextDelta(String),
    ToolStarted { input: serde_json::Value, name: String },
    ToolFinished { is_error: bool, name: String, output: String },
    ToolDenied { name: String, reason: String },
    ToolRejected { name: String, error: String },
    TurnComplete { outcome: TurnOutcome },
    Warning(String),
    Error(String),
}

/// What an event says. A checklist and a chunk of output stand for themselves.
pub enum AgentEventView {
    ApprovalRequest {
        available_lifetimes: Seq<ApprovalLifetime>,
        input: serde_json::Value,
        subject: ApprovalSubjectView,
    },
    ChecklistUpdated(Checklist),
    CommandOutput(CommandOutputChunk),
    TextDelta(Seq<char>),
    ToolStarted { input: serde_json::Value, name: Seq<char> },
    ToolFinished { is_error: bool, name: Seq<char>, output: Seq<char> },
    ToolDenied { name: Seq<char>, reason: Seq<char> },
    ToolRejected { name: Seq<char>, error: Seq<char> },
    TurnComplete { outcome: TurnOutcomeView },
    Warning(Seq<char>),
    Error(Seq<char>),
}

impl View for AgentEvent {
    type V = AgentEventView;

    open spec fn view(&self) -> AgentEventView {
        match self {
            AgentEvent::ApprovalRequest { available_lifetimes, input, subject } =>
                AgentEventView::ApprovalRequest {
                    available_lifetimes: available_lifetimes@,
                    input: *input,
                    subject: subject@,
                },
            AgentEvent::ChecklistUpdated(checklist) =>
                AgentEventView::ChecklistUpdated(*checklist),
            AgentEvent::CommandOutput(chunk) => AgentEventView::CommandOutput(*chunk),
            AgentEvent::TextDelta(text) => AgentEventView::TextDelta(text@),
            AgentEvent::ToolStarted { input, name } =>
                AgentEventView::ToolStarted { input: *input, name: name@ },
            AgentEvent::ToolFinished { is_error, name, output } =>
                AgentEventView::ToolFinished {
                    is_error: *is_error,
                    name: name@,
                    output: output@,
                },
            AgentEvent::ToolDenied { name, reason } =>
                AgentEventView::ToolDenied { name: name@, reason: reason@ },
            AgentEvent::ToolRejected { name, error } =>
                AgentEventView::ToolRejected { name: name@, error: error@ },
            AgentEvent::TurnComplete { outcome } =>
                AgentEventView::TurnComplete { outcome: outcome@ },
            AgentEvent::Warning(text) => AgentEventView::Warning(text@),
            AgentEvent::Error(text) => AgentEventView::Error(text@),
        }
    }
}

#[derive(Clone, Copy, Debug, PartialEq, Eq, Structural)]
pub enum ShutdownReason {
    InputClosed,
    UserQuit,
}

/// How long a grant lasts.
#[derive(Clone, Copy, Debug, PartialEq, Eq, Hash, Structural)]
pub enum ApprovalLifetime {
    Invocation,
    Run,
    Workspace,
}

#[derive(Clone, Copy, Debug, PartialEq, Eq, Hash, Structural)]
pub enum CapabilityKind {
    DockerDaemon,
}

/// A capability together with the exact resource it reaches.
#[derive(Debug, PartialEq, Eq, Hash)]
pub struct NamedCapability {
    kind: CapabilityKind,
    resource: String,
}

pub struct NamedCapabilityView {
    pub kind: CapabilityKind,
    pub resource: Seq<char>,
}

impl View for NamedCapability {
    type V = NamedCapabilityView;

    closed spec fn view(&self) -> NamedCapabilityView {
        NamedCapabilityView { kind: self.kind, resource: self.resource@ }
    }
}

impl Clone for NamedCapability {
    fn clone(&self) -> (copy: Self)
        ensures
            copy == *self,
    {
        NamedCapability { kind: self.kind, resource: self.resource.clone() }
    }
}

impl NamedCapability {
    pub fn new(kind: CapabilityKind, resource: &str) -> (capability: Self)
        ensures
            capability@ == (NamedCapabilityView { kind, resource: resource@ }),
    {
        NamedCapability { kind, resource: resource.to_owned() }
    }

    pub fn docker_daemon(resource: &str) -> (capability: Self)
        ensures
            capability@ == (NamedCapabilityView {
                kind: CapabilityKind::DockerDaemon,
                resource: resource@,
            }),
    {
        Self::new(CapabilityKind::DockerDaemon, resource)
    }

    pub fn kind(&self) -> (kind: CapabilityKind)
        ensures
            kind == self@.kind,
    {
        self.kind
    }

    pub fn resource(&self) -> (resource: &str)
        ensures
            resource@ == self@.resource,
    {
        self.resource.as_str()
    }

    /// Whether both name the same capability on the same resource.
    pub fn same(&self, other: &NamedCapability) -> (same: bool)
        ensures
            same == (self@ == other@),
    {
        self.kind == other.kind && same_text(self.resource.as_str(), other.resource.as_str())
    }
}

/// What one approval is asked for: a tool call, or a capability that a tool call needs.
#[derive(Debug, PartialEq, Eq, Hash)]
pub enum ApprovalSubject {
    Capability { capability: NamedCapability, tool_call_id: String, tool_name: String },
    ToolCall { tool_call_id: String, tool_name: String },
}

pub enum ApprovalSubjectView {
    Capability {
        capability: NamedCapabilityView,
        tool_call_id: Seq<char>,
        tool_name: Seq<char>,
    },
    ToolCall { tool_call_id: Seq<char>, tool_name: Seq<char> },
}

impl View for ApprovalSubject {
    type V = ApprovalSubjectView;

    open spec fn view(&self) -> ApprovalSubjectView {
        match self {
            ApprovalSubject::Capability { capability, tool_call_id, tool_name } =>
                ApprovalSubjectView::Capability {
                    capability: capability@,
                    tool_call_id: tool_call_id@,
                    tool_name: tool_name@,
                },
            ApprovalSubject::ToolCall { tool_call_id, tool_name } =>
                ApprovalSubjectView::ToolCall {
                    tool_call_id: tool_call_id@,
                    tool_name: tool_name@,
                },
        }
    }
}

impl ApprovalSubjectView {
    /// The call that the approval is asked for.
    pub open spec fn call_id(self) -> Seq<char> {
        match self {
            ApprovalSubjectView::Capability { tool_call_id, .. } => tool_call_id,
            ApprovalSubjectView::ToolCall { tool_call_id, .. } => tool_call_id,
        }
    }

    /// The tool that the call names.
    pub open spec fn tool(self) -> Seq<char> {
        match self {
            ApprovalSubjectView::Capability { tool_name, .. } => tool_name,
            ApprovalSubjectView::ToolCall { tool_name, .. } => tool_name,
        }
    }

    /// What a grant for this subject matches: the capability itself, or the tool by name.
    pub open spec fn matched_by(self) -> ApprovalMatcherView {
        match self {
            ApprovalSubjectView::Capability { capability, .. } =>
                ApprovalMatcherView::Capability { capability },
            ApprovalSubjectView::ToolCall { tool_name, .. } =>
                ApprovalMatcherView::Tool { tool_name },
        }
    }

    /// The grant for this subject that lasts for `lifetime`.
    pub open spec fn granted_for(self, lifetime: ApprovalLifetime) -> ApprovalGrantView {
        ApprovalGrantView {
            matcher: self.matched_by(),
            scope: match lifetime {
                ApprovalLifetime::Invocation => ApprovalScopeView::Invocation {
                    tool_call_id: self.call_id(),
                    tool_name: self.tool(),
                },
                ApprovalLifetime::Run => ApprovalScopeView::Run,
                ApprovalLifetime::Workspace => ApprovalScopeView::Workspace,
            },
        }
    }
}

impl Clone for ApprovalSubject {
    fn clone(&self) -> (copy: Self)
        ensures
            copy == *self,
    {
        match self {
            ApprovalSubject::Capability { capability, tool_call_id, tool_name } =>
                ApprovalSubject::Capability {
                    capability: capability.clone(),
                    tool_call_id: tool_call_id.clone(),
                    tool_name: tool_name.clone(),
                },
            ApprovalSubject::ToolCall { tool_call_id, tool_name } => ApprovalSubject::ToolCall {
                tool_call_id: tool_call_id.clone(),
                tool_name: tool_name.clone(),
            },
        }
    }
}

impl ApprovalSubject {
    pub fn capability(
        capability: NamedCapability,
        tool_call_id: &str,
        tool_name: &str,
    ) -> (subject: Self)
        ensures
            subject@ == (ApprovalSubjectView::Capability {
                capability: capability@,
                tool_call_id: tool_call_id@,
                tool_name: tool_name@,
            }),
    {
        ApprovalSubject::Capability {
            capability,
            tool_call_id: tool_call_id.to_owned(),
            tool_name: tool_name.to_owned(),
        }
    }

    pub fn tool_call(tool_call_id: &str, tool_name: &str) -> (subject: Self)
        ensures
            subject@ == (ApprovalSubjectView::ToolCall {
                tool_call_id: tool_call_id@,
                tool_name: tool_name@,
            }),
    {
        ApprovalSubject::ToolCall {
            tool_call_id: tool_call_id.to_owned(),
            tool_name: tool_name.to_owned(),
        }
    }

    pub fn tool_call_id(&self) -> (id: &str)
        ensures
            id@ == self@.call_id(),
    {
        match self {
            ApprovalSubject::Capability { tool_call_id, .. } => tool_call_id.as_str(),
            ApprovalSubject::ToolCall { tool_call_id, .. } => tool_call_id.as_str(),
        }
    }

    pub fn tool_name(&self) -> (name: &str)
        ensures
            name@ == self@.tool(),
    {
        match self {
            ApprovalSubject::Capability { tool_name, .. } => tool_name.as_str(),
            ApprovalSubject::ToolCall { tool_name, .. } => tool_name.as_str(),
        }
    }

    /// The grant for this subject that lasts for `lifetime`.
    pub fn grant(&self, lifetime: ApprovalLifetime) -> (grant: ApprovalGrant)
        ensures
            grant@ == self@.granted_for(lifetime),
    {
        let matcher = self.matcher();
        let scope = match lifetime {
            ApprovalLifetime::Invocation => ApprovalScope::Invocation {
                tool_call_id: self.tool_call_id().to_owned(),
                tool_name: self.tool_name().to_owned(),
            },
            ApprovalLifetime::Run => ApprovalScope::Run,
            ApprovalLifetime::Workspace => ApprovalScope::Workspace,
        };
        ApprovalGrant { matcher, scope }
    }

    fn matcher(&self) -> (matcher: ApprovalMatcher)
        ensures
            matcher@ == self@.matched_by(),
    {
        match self {
            ApprovalSubject::Capability { capability, .. } => ApprovalMatcher::Capability {
                capability: capability.clone(),
            },
            ApprovalSubject::ToolCall { tool_name, .. } => ApprovalMatcher::Tool {
                tool_name: tool_name.clone(),
            },
        }
    }
}

/// What a grant is about.
#[derive(Debug, PartialEq, Eq, Hash)]
pub enum ApprovalMatcher {
    Capability { capability: NamedCapability },
    Tool { tool_name: String },
}

pub enum ApprovalMatcherView {
    Capability { capability: NamedCapabilityView },
    Tool { tool_name: Seq<char> },
}

impl View for ApprovalMatcher {
    type V = ApprovalMatcherView;

    open spec fn view(&self) -> ApprovalMatcherView {
        match self {
            ApprovalMatcher::Capability { capability } =>
                ApprovalMatcherView::Capability { capability: capability@ },
            ApprovalMatcher::Tool { tool_name } =>
                ApprovalMatcherView::Tool { tool_name: tool_name@ },
        }
    }
}

impl Clone for ApprovalMatcher {
    fn clone(&self) -> (copy: Self)
        ensures
            copy == *self,
    {
        match self {
            ApprovalMatcher::Capability { capability } =>
                ApprovalMatcher::Capability { capability: capability.clone() },
            ApprovalMatcher::Tool { tool_name } =>
                ApprovalMatcher::Tool { tool_name: tool_name.clone() },
        }
    }
}

impl ApprovalMatcher {
    fn same(&self, other: &ApprovalMatcher) -> (same: bool)
        ensures
            same == (self@ == other@),
    {
        match (self, other) {
            (
                ApprovalMatcher::Capability { capability },
                ApprovalMatcher::Capability { capability: other_capability },
            ) => capability.same(other_capability),
            (
                ApprovalMatcher::Tool { tool_name },
                ApprovalMatcher::Tool { tool_name: other_name },
            ) => same_text(tool_name.as_str(), other_name.as_str()),
            _ => false,
        }
    }

    fn matches(&self, subject: &ApprovalSubject) -> (matches: bool)
        ensures
            matches == (self@ == subject@.matched_by()),
    {
        self.same(&subject.matcher())
    }
}

/// How far a grant reaches: one invocation, the run, or every run in the workspace.
#[derive(Debug, PartialEq, Eq, Hash)]
pub enum ApprovalScope {
    Invocation { tool_call_id: String, tool_name: String },
    Run,
    Workspace,
}

pub enum ApprovalScopeView {
    Invocation { tool_call_id: Seq<char>, tool_name: Seq<char> },
    Run,
    Workspace,
}

impl View for ApprovalScope {
    type V = ApprovalScopeView;

    open spec fn view(&self) -> ApprovalScopeView {
        match self {
            ApprovalScope::Invocation { tool_call_id, tool_name } =>
                ApprovalScopeView::Invocation {
                    tool_call_id: tool_call_id@,
                    tool_name: tool_name@,
                },
            ApprovalScope::Run => ApprovalScopeView::Run,
            ApprovalScope::Workspace => ApprovalScopeView::Workspace,
        }
    }
}

impl ApprovalScopeView {
    pub open spec fn lasts(self) -> ApprovalLifetime {
        match self {
            ApprovalScopeView::Invocation { .. } => ApprovalLifetime::Invocation,
            ApprovalScopeView::Run => ApprovalLifetime::Run,
            ApprovalScopeView::Workspace => ApprovalLifetime::Workspace,
        }
    }

    /// An invocation scope reaches the one call it names; the others reach every call.
    pub open spec fn reaches(self, subject: ApprovalSubjectView) -> bool {
        match self {
            ApprovalScopeView::Invocation { tool_call_id, tool_name } =>
                tool_call_id == subject.call_id() && tool_name == subject.tool(),
            _ => true,
        }
    }
}

impl Clone for ApprovalScope {
    fn clone(&self) -> (copy: Self)
        ensures
            copy == *self,
    {
        match self {
            ApprovalScope::Invocation { tool_call_id, tool_name } => ApprovalScope::Invocation {
                tool_call_id: tool_call_id.clone(),
                tool_name: tool_name.clone(),
            },
            ApprovalScope::Run => ApprovalScope::Run,
            ApprovalScope::Workspace => ApprovalScope::Workspace,
        }
    }
}

impl ApprovalScope {
    fn includes(&self, subject: &ApprovalSubject) -> (includes: bool)
        ensures
            includes == self@.reaches(subject@),
    {
        match self {
            ApprovalScope::Invocation { tool_call_id, tool_name } => same_text(
                tool_call_id.as_str(),
                subject.tool_call_id(),
            ) && same_text(tool_name.as_str(), subject.tool_name()),
            ApprovalScope::Run | ApprovalScope::Workspace => true,
        }
    }

    pub fn lifetime(&self) -> (lifetime: ApprovalLifetime)
        ensures
            lifetime == self@.lasts(),
    {
        match self {
            ApprovalScope::Invocation { .. } => ApprovalLifetime::Invocation,
            ApprovalScope::Run => ApprovalLifetime::Run,
            ApprovalScope::Workspace => ApprovalLifetime::Workspace,
        }
    }
}

/// A permission that was given.
#[derive(Debug, PartialEq, Eq, Hash)]
pub struct ApprovalGrant {
    pub matcher: ApprovalMatcher,
    pub scope: ApprovalScope,
}

pub struct ApprovalGrantView {
    pub matcher: ApprovalMatcherView,
    pub scope: ApprovalScopeView,
}

impl View for ApprovalGrant {
    type V = ApprovalGrantView;

    open spec fn view(&self) -> ApprovalGrantView {
        ApprovalGrantView { matcher: self.matcher@, scope: self.scope@ }
    }
}

impl ApprovalGrantView {
    /// A grant covers a subject that it matches and that lies in its scope.
    pub open spec fn covers(self, subject: ApprovalSubjectView) -> bool {
        self.matcher == subject.matched_by() && self.scope.reaches(subject)
    }
}

impl Clone for ApprovalGrant {
    fn clone(&self) -> (copy: Self)
        ensures
            copy == *self,
    {
        ApprovalGrant { matcher: self.matcher.clone(), scope: self.scope.clone() }
    }
}

impl ApprovalGrant {
    pub fn authorizes(&self, subject: &ApprovalSubject) -> (authorizes: bool)
        ensures
            authorizes == self@.covers(subject@),
    {
        self.matcher.matches(subject) && self.scope.includes(subject)
    }

    pub fn lifetime(&self) -> (lifetime: ApprovalLifetime)
        ensures
            lifetime == self@.scope.lasts(),
    {
        self.scope.lifetime()
    }
}

/// The answer to an approval request.
#[derive(Clone, Debug, PartialEq)]
pub enum ApprovalDecision {
    Grant(ApprovalGrant),
    Deny { reason: String },
}

#[derive(Clone, Copy, Debug, PartialEq, Eq, Structural)]
pub enum ApprovalRequirement {
    NotRequired,
    Required,
}

/// The grant made for a subject has the lifetime that was asked for and covers the subject.
pub proof fn grant_covers_its_subject(subject: ApprovalSubjectView, lifetime: ApprovalLifetime)
    ensures
        subject.granted_for(lifetime).covers(subject),
        subject.granted_for(lifetime).scope.lasts() == lifetime,
{
}

/// A grant for one invocation covers no other call.
pub proof fn invocation_grant_covers_one_call(
    subject: ApprovalSubjectView,
    other: ApprovalSubjectView,
)
    requires
        subject.granted_for(ApprovalLifetime::Invocation).covers(other),
    ensures
        other.call_id() == subject.call_id(),
        other.tool() == subject.tool(),
{
}

/// A grant that outlasts one invocation follows what it matches from call to call, and nothing
/// else.
pub proof fn lasting_grant_follows_its_matcher(
    subject: ApprovalSubjectView,
    lifetime: ApprovalLifetime,
    other: ApprovalSubjectView,
)
    requires
        lifetime != ApprovalLifetime::Invocation,
    ensures
        subject.granted_for(lifetime).covers(other) <==> subject.matched_by()
            == other.matched_by(),
{
}

/// A grant for a tool covers the calls of that tool and no other subject; a grant for a capability
/// covers that capability, of that kind and resource, and no other. Where it is for one
/// invocation, it covers only the call that it names.
pub proof fn grants_cover_what_they_name(
    grant: ApprovalGrantView,
    subject: ApprovalSubjectView,
)
    ensures
        grant.covers(subject) <==> {
            &&& match (grant.matcher, subject) {
                (
                    ApprovalMatcherView::Tool { tool_name },
                    ApprovalSubjectView::ToolCall { tool_name: called, .. },
                ) => tool_name == called,
                (
                    ApprovalMatcherView::Capability { capability },
                    ApprovalSubjectView::Capability { capability: wanted, .. },
                ) => capability.kind == wanted.kind && capability.resource == wanted.resource,
                _ => false,
            }
            &&& grant.scope matches ApprovalScopeView::Invocation { tool_call_id, tool_name }
                ==> match subject {
                ApprovalSubjectView::ToolCall { tool_call_id: id, tool_name: name } => id
                    == tool_call_id && name == tool_name,
                ApprovalSubjectView::Capability { tool_call_id: id, tool_name: name, .. } => id
                    == tool_call_id && name == tool_name,
            }
        },
{
}

} // verus!
