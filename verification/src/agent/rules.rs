//! What the agent decides on its own: how many rounds a turn may take, which answers it accepts,
//! and what it writes down.
use crate::approval::{ApprovalAuthorization, ApprovalAuthorizationView, ApprovalDecisionView};
use crate::journal::lifecycle::{asks_for_tools, assistant_fault, is_call, lemma_requested};
use crate::journal::schema::{
    ErrorDetail, JournalApprovalDecision, RunEndReason, ToolAuthorization, TurnAbortOutcome,
    TurnCommitOutcome,
};
use crate::journal::view::{
    AbortOutcomeView, AuthorizationView, CommitOutcomeView, DecisionView, ErrorView,
};
use crate::message::{
    block_views, ContentBlock, ContentBlockView, Message, StopReason, StopReasonView,
    ToolResultData, ToolResultView,
};
use crate::protocol::{ApprovalDecision, ShutdownReason, TurnOutcome, TurnOutcomeView};
use crate::provider::{ProviderError, ProviderErrorKind};
use crate::text::{same_text, trim, trimmed_text};
use vstd::prelude::*;
use vstd::string::StringExecFns;

verus! {

pub const MAX_PROVIDER_ROUNDS_PER_TURN: usize = 24;

/// How many rounds a turn has taken so far.
#[derive(Clone, Copy, Debug, PartialEq, Eq, Structural)]
pub struct TurnBudget {
    pub provider_rounds: usize,
}

impl Default for TurnBudget {
    fn default() -> (budget: Self)
        ensures
            budget.provider_rounds == 0,
    {
        TurnBudget { provider_rounds: 0 }
    }
}

/// What is said when a turn has used up its rounds.
pub open spec fn pause_text() -> Seq<char> {
    "turn paused after 24 provider rounds; send another message to continue with the existing context"@
}

impl TurnBudget {
    /// Takes one more round from the budget, unless it is used up.
    pub fn begin_provider_round(&mut self) -> (begun: Result<(), String>)
        ensures
            match begun {
                Ok(_) => old(self).provider_rounds < MAX_PROVIDER_ROUNDS_PER_TURN
                    && final(self).provider_rounds == old(self).provider_rounds + 1,
                Err(reason) => old(self).provider_rounds >= MAX_PROVIDER_ROUNDS_PER_TURN
                    && *final(self) == *old(self) && reason@ == pause_text(),
            },
    {
        if self.provider_rounds >= MAX_PROVIDER_ROUNDS_PER_TURN {
            return Err(
                "turn paused after 24 provider rounds; send another message to continue with the existing context".to_owned(),
            );
        }
        self.provider_rounds = self.provider_rounds + 1;
        Ok(())
    }
}

/// How a turn went, with what the journal keeps of a failure.
#[derive(Debug, PartialEq, Eq)]
pub enum TurnResult {
    Completed { stop_reason: StopReason },
    Paused { reason: String },
    Failed { error: Option<ErrorDetail> },
    Cancelled,
}

pub enum TurnResultView {
    Completed { stop_reason: StopReasonView },
    Paused { reason: Seq<char> },
    Failed { error: Option<ErrorView> },
    Cancelled,
}

impl View for TurnResult {
    type V = TurnResultView;

    open spec fn view(&self) -> TurnResultView {
        match self {
            TurnResult::Completed { stop_reason } =>
                TurnResultView::Completed { stop_reason: stop_reason@ },
            TurnResult::Paused { reason } => TurnResultView::Paused { reason: reason@ },
            TurnResult::Failed { error } => TurnResultView::Failed {
                error: match error {
                    None => None,
                    Some(error) => Some(error@),
                },
            },
            TurnResult::Cancelled => TurnResultView::Cancelled,
        }
    }
}

impl TurnResultView {
    /// What the frontend is told of it.
    pub open spec fn outcome(self) -> TurnOutcomeView {
        match self {
            TurnResultView::Completed { stop_reason } =>
                TurnOutcomeView::Completed { stop_reason },
            TurnResultView::Paused { reason } => TurnOutcomeView::Paused { reason },
            TurnResultView::Failed { .. } => TurnOutcomeView::Failed,
            TurnResultView::Cancelled => TurnOutcomeView::Cancelled,
        }
    }
}

/// A failure of the given category.
pub open spec fn failure(category: Seq<char>, message: Seq<char>) -> TurnResultView {
    TurnResultView::Failed { error: Some(ErrorView { category, message }) }
}

impl TurnResult {
    pub fn outcome(&self) -> (outcome: TurnOutcome)
        ensures
            outcome@ == self@.outcome(),
    {
        match self {
            TurnResult::Completed { stop_reason } => TurnOutcome::Completed {
                stop_reason: stop_reason.clone(),
            },
            TurnResult::Paused { reason } => TurnOutcome::Paused { reason: reason.clone() },
            TurnResult::Failed { .. } => TurnOutcome::Failed,
            TurnResult::Cancelled => TurnOutcome::Cancelled,
        }
    }

    pub fn failed(category: &str, message: &str) -> (result: Self)
        ensures
            result@ == failure(category@, message@),
    {
        TurnResult::Failed {
            error: Some(
                ErrorDetail { category: category.to_owned(), message: message.to_owned() },
            ),
        }
    }

    pub fn unattributed_failure() -> (result: Self)
        ensures
            result@ == (TurnResultView::Failed { error: None }),
    {
        TurnResult::Failed { error: None }
    }
}

/// How the journal closes a turn: a turn that completed or paused is committed, another aborted.
pub enum TurnClosing {
    Commit(TurnCommitOutcome),
    Abort(TurnAbortOutcome),
}

pub enum TurnClosingView {
    Commit(CommitOutcomeView),
    Abort(AbortOutcomeView),
}

impl View for TurnClosing {
    type V = TurnClosingView;

    open spec fn view(&self) -> TurnClosingView {
        match self {
            TurnClosing::Commit(outcome) => TurnClosingView::Commit(outcome@),
            TurnClosing::Abort(outcome) => TurnClosingView::Abort(outcome@),
        }
    }
}

impl TurnResultView {
    pub open spec fn closing(self) -> TurnClosingView {
        match self {
            TurnResultView::Completed { stop_reason } => TurnClosingView::Commit(
                CommitOutcomeView::Completed { stop_reason },
            ),
            TurnResultView::Paused { reason } => TurnClosingView::Commit(
                CommitOutcomeView::Paused { reason },
            ),
            TurnResultView::Failed { error } => TurnClosingView::Abort(
                AbortOutcomeView::Failed { error },
            ),
            TurnResultView::Cancelled => TurnClosingView::Abort(AbortOutcomeView::Cancelled),
        }
    }
}

impl TurnResult {
    /// How the journal closes the turn.
    pub fn closing(self) -> (closing: TurnClosing)
        ensures
            closing@ == self@.closing(),
    {
        match self {
            TurnResult::Completed { stop_reason } => TurnClosing::Commit(
                TurnCommitOutcome::Completed { stop_reason },
            ),
            TurnResult::Paused { reason } => TurnClosing::Commit(
                TurnCommitOutcome::Paused { reason },
            ),
            TurnResult::Failed { error } => TurnClosing::Abort(TurnAbortOutcome::Failed { error }),
            TurnResult::Cancelled => TurnClosing::Abort(TurnAbortOutcome::Cancelled),
        }
    }
}

/// Why an answer of the model is not accepted, if it is not.
pub open spec fn answer_fault(
    content: Seq<ContentBlockView>,
    stop_reason: StopReasonView,
) -> Option<Seq<char>> {
    match assistant_fault(content) {
        Some(detail) => Some(detail),
        None => if asks_for_tools(content) != (stop_reason == StopReasonView::ToolUse) {
            Some("assistant tool calls do not agree with the provider stop reason"@)
        } else {
            None
        },
    }
}

/// Whether one of the first `count` blocks asks for the call `id`.
fn asks_for_call(content: &Vec<ContentBlock>, count: usize, id: &str) -> (asks: bool)
    requires
        count <= content@.len(),
    ensures
        asks == exists|i: int|
            0 <= i < count && is_call(#[trigger] block_views(content@)[i], id@),
{
    let mut index: usize = 0;
    while index < count
        invariant
            index <= count <= content@.len(),
            forall|i: int|
                0 <= i < index ==> !is_call(#[trigger] block_views(content@)[i], id@),
        decreases count - index,
    {
        assert(block_views(content@)[index as int] == content@[index as int]@);
        match &content[index] {
            ContentBlock::ToolUse { id: other, .. } => {
                if same_text(other.as_str(), id) {
                    return true;
                }
            },
            _ => {},
        }
        index += 1;
    }
    false
}

proof fn lemma_fault_stays(content: Seq<ContentBlockView>, count: int)
    requires
        0 <= count <= content.len(),
        assistant_fault(content.take(count)) is Some,
    ensures
        assistant_fault(content) == assistant_fault(content.take(count)),
    decreases content.len(),
{
    if count == content.len() {
        assert(content.take(count) =~= content);
    } else {
        assert(content.drop_last().take(count) =~= content.take(count));
        lemma_fault_stays(content.drop_last(), count);
    }
}

/// Whether an answer holds text and tool calls alone, each call under an identifier of its own,
/// and asks for tools exactly where the model stopped for them.
pub fn validate_assistant_message(message: &Message, stop_reason: &StopReason) -> (checked: Result<
    (),
    &'static str,
>)
    ensures
        match answer_fault(message@.content, stop_reason@) {
            Some(detail) => checked is Err && checked->Err_0@ == detail,
            None => checked is Ok,
        },
{
    let content = &message.content;
    let ghost views = message@.content;
    let mut has_tool_use = false;
    let mut index: usize = 0;
    assert(views.take(0) =~= Seq::empty());
    while index < content.len()
        invariant
            index <= content@.len(),
            views == block_views(content@),
            views == message@.content,
            assistant_fault(views.take(index as int)) is None,
            has_tool_use == exists|i: int| 0 <= i < index && views[i] is ToolUse,
        decreases content@.len() - index,
    {
        let ghost here = views.take(index + 1);
        assert(here.drop_last() =~= views.take(index as int));
        assert(here.last() == content@[index as int]@);
        assert(views[index as int] == content@[index as int]@);
        match &content[index] {
            ContentBlock::Text { .. } => {},
            ContentBlock::ToolUse { id, .. } => {
                proof {
                    lemma_requested(here.drop_last(), id@);
                    assert forall|i: int| 0 <= i < index implies here.drop_last()[i]
                        == #[trigger] views[i] by {}
                }
                if asks_for_call(content, index, id.as_str()) {
                    proof {
                        let i = choose|i: int|
                            0 <= i < index && is_call(#[trigger] block_views(content@)[i], id@);
                        assert(is_call(here.drop_last()[i], id@));
                        lemma_fault_stays(views, index + 1);
                    }
                    return Err("assistant message repeats a tool call ID");
                }
                has_tool_use = true;
            },
            ContentBlock::ToolResult(_) => {
                proof {
                    lemma_fault_stays(views, index + 1);
                }
                return Err("assistant message contains a tool result");
            },
        }
        index += 1;
    }
    assert(views.take(views.len() as int) =~= views);
    if has_tool_use != stop_reason.is_tool_use() {
        return Err("assistant tool calls do not agree with the provider stop reason");
    }
    Ok(())
}

/// The result that tells the model of a call that could not be carried out.
pub fn failed_tool_result(id: &str, error: String) -> (result: ToolResultData)
    ensures
        result@ == (ToolResultView { tool_use_id: id@, is_error: true, content: error@ }),
{
    ToolResultData { content: error, is_error: true, tool_use_id: id.to_owned() }
}

/// What the model is told of a call that the user declined.
pub open spec fn denial_text(reason: Seq<char>) -> Seq<char> {
    if trimmed_text(reason).len() == 0 {
        "The user declined this tool call. Do not assume the tool ran. Continue without it or ask the user what they prefer."@
    } else {
        "The user declined this tool call and said: \""@ + reason
            + "\". Do not assume the tool ran. Address their feedback, then retry if appropriate."@
    }
}

/// The result that tells the model of a call that the user declined.
pub fn denied_tool_result(id: &str, reason: &str) -> (result: ToolResultData)
    ensures
        result@ == (ToolResultView {
            tool_use_id: id@,
            is_error: false,
            content: denial_text(reason@),
        }),
{
    let content = if trim(reason).unicode_len() == 0 {
        "The user declined this tool call. Do not assume the tool ran. Continue without it or ask the user what they prefer.".to_owned()
    } else {
        "The user declined this tool call and said: \"".to_owned().concat(reason).concat(
            "\". Do not assume the tool ran. Address their feedback, then retry if appropriate.",
        )
    };
    ToolResultData { content, is_error: false, tool_use_id: id.to_owned() }
}

/// What the model is told of arguments that are not JSON.
pub open spec fn invalid_input_text(name: Seq<char>, raw: Seq<char>) -> Seq<char> {
    "invalid input for tool `"@ + name + "`: arguments are not valid JSON: "@ + raw
}

pub fn invalid_input_error(name: &str, raw: &str) -> (error: String)
    ensures
        error@ == invalid_input_text(name@, raw@),
{
    "invalid input for tool `".to_owned().concat(name).concat(
        "`: arguments are not valid JSON: ",
    ).concat(raw)
}

/// The decision as the journal records it.
pub open spec fn recorded(decision: ApprovalDecisionView) -> DecisionView {
    match decision {
        ApprovalDecisionView::Grant(grant) => DecisionView::Grant { grant },
        ApprovalDecisionView::Deny { reason } => DecisionView::Deny { reason },
    }
}

pub fn journal_approval_decision(decision: &ApprovalDecision) -> (entry: JournalApprovalDecision)
    ensures
        entry@ == recorded(decision@),
{
    match decision {
        ApprovalDecision::Grant(grant) => JournalApprovalDecision::Grant { grant: grant.clone() },
        ApprovalDecision::Deny { reason } => JournalApprovalDecision::Deny {
            reason: reason.clone(),
        },
    }
}

/// Why the run ends when the frontend asks for it.
pub fn shutdown_reason(reason: ShutdownReason) -> (ended: RunEndReason)
    ensures
        ended == match reason {
            ShutdownReason::InputClosed => RunEndReason::InputClosed,
            ShutdownReason::UserQuit => RunEndReason::UserQuit,
        },
{
    match reason {
        ShutdownReason::InputClosed => RunEndReason::InputClosed,
        ShutdownReason::UserQuit => RunEndReason::UserQuit,
    }
}

/// The category under which the journal keeps a provider's failure.
pub open spec fn provider_category(kind: ProviderErrorKind) -> Seq<char> {
    match kind {
        ProviderErrorKind::Api => "api"@,
        ProviderErrorKind::Cancelled => "cancelled"@,
        ProviderErrorKind::InvalidBaseUrl => "invalid_base_url"@,
        ProviderErrorKind::Network => "network"@,
        ProviderErrorKind::Parsing => "parsing"@,
        ProviderErrorKind::Protocol => "protocol"@,
    }
}

pub fn provider_error_detail(error: &ProviderError) -> (detail: ErrorDetail)
    ensures
        detail@ == (ErrorView {
            category: provider_category(error.kind),
            message: error.message@,
        }),
{
    let category = match error.kind {
        ProviderErrorKind::Api => "api",
        ProviderErrorKind::Cancelled => "cancelled",
        ProviderErrorKind::InvalidBaseUrl => "invalid_base_url",
        ProviderErrorKind::Network => "network",
        ProviderErrorKind::Parsing => "parsing",
        ProviderErrorKind::Protocol => "protocol",
    };
    ErrorDetail { category: category.to_owned(), message: error.message.clone() }
}

/// The authorization as the journal records it. The journal has no word for a grant out of the
/// workspace's configuration.
pub open spec fn recorded_authorization(
    authorization: ApprovalAuthorizationView,
) -> Option<AuthorizationView> {
    match authorization {
        ApprovalAuthorizationView::Granted { approval_id, grant } => Some(
            AuthorizationView::Granted { approval_id, grant },
        ),
        ApprovalAuthorizationView::WorkspaceConfigured { .. } => None,
        ApprovalAuthorizationView::NotRequired => Some(AuthorizationView::NotRequired),
    }
}

pub fn tool_authorization(authorization: ApprovalAuthorization) -> (entry: Option<
    ToolAuthorization,
>)
    ensures
        match recorded_authorization(authorization@) {
            None => entry is None,
            Some(expected) => entry is Some && entry->0@ == expected,
        },
{
    match authorization {
        ApprovalAuthorization::Granted { approval_id, grant } => Some(
            ToolAuthorization::Granted { approval_id, grant },
        ),
        ApprovalAuthorization::WorkspaceConfigured { .. } => None,
        ApprovalAuthorization::NotRequired => Some(ToolAuthorization::NotRequired),
    }
}

/// Milliseconds as the journal keeps them.
pub fn elapsed_ms(milliseconds: u128) -> (elapsed: u64)
    ensures
        elapsed == (if milliseconds <= u64::MAX {
            milliseconds
        } else {
            u64::MAX as u128
        }),
{
    if milliseconds <= u64::MAX as u128 {
        milliseconds as u64
    } else {
        u64::MAX
    }
}

} // verus!
