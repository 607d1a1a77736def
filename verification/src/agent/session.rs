//! The agent as it runs: it hears what happened and says what to do next.
use crate::agent::model::{
    admit_call, answer_calls, apply_decision, begin_turn, cancel_tool, complete_round, end_run,
    enter, expects, fail_journal, fail_round, finish_tool, finish_turn, keep_answer, last_content,
    leave_turn, lose_frontend, next_call, next_use, open_turn, perform, react, react_deciding,
    react_executing, react_idle, react_performing, react_preparing, react_streaming, reject_call,
    remembering, resume, rolled_back, start_round, start_tool, take_answer, user_granted,
    SessionView,
};
use crate::agent::rules::{
    denied_tool_result, failed_tool_result, invalid_input_error, journal_approval_decision,
    provider_error_detail, shutdown_reason, tool_authorization, validate_assistant_message,
    TurnBudget, TurnClosing, TurnResult,
};
use crate::agent::state::{
    effect_views, exit_view, ActiveCall, ActiveCallView, ActiveTurn, AgentEffect, AgentEffectView,
    AgentStimulus, FreshIds, PendingCalls, Phase, PhaseView, Resumption, ResumptionView,
};
use crate::approval::{
    first_covering, gate_check, gate_outcome, retained_after, ApprovalAuthorizationView,
    ApprovalCheck, ApprovalCheckView, ApprovalGate, ApprovalOutcome, ApprovalReply,
};
use crate::journal::id::{ApprovalId, ProviderRoundId};
use crate::journal::run::{RunJournal, RunJournalView};
use crate::journal::schema::{JournalEntry, JournalRecord, RunEndReason, ToolAuthorization};
use crate::journal::writer::{
    after_append, append_finished, next_record, AppendOutcome, JournalError,
};
use crate::message::{
    block_views, message_views, ContentBlock, ContentBlockView, Message, Role, StopReason,
    ToolInput, ToolResultData,
};
use crate::protocol::{
    AgentCommand, AgentEvent, AgentExit, ApprovalDecision, ApprovalLifetime, ApprovalRequirement,
    ApprovalSubject, ApprovalSubjectView,
};
use crate::provider::{ModelTurn, ProviderError, ProviderErrorKind};
use crate::tools::ToolExecutionError;
use jiff::Timestamp;
use vstd::prelude::*;
use vstd::string::StringExecFns;

verus! {

/// The approvals of a run: what is retained was granted by the user.
struct RunGate {
    gate: ApprovalGate,
}

impl RunGate {
    #[verifier::type_invariant]
    spec fn retains_user_grants(self) -> bool {
        user_granted(self.gate@)
    }

    fn new() -> (gate: Self)
        ensures
            gate.gate@ == Seq::<ApprovalAuthorizationView>::empty(),
    {
        RunGate { gate: ApprovalGate::new() }
    }

    fn check(&self, requirement: ApprovalRequirement, subject: &ApprovalSubject) -> (check:
        ApprovalCheck)
        ensures
            check@ == gate_check(self.gate@, requirement, subject@),
            !(check@ matches ApprovalCheckView::Authorized(
                ApprovalAuthorizationView::WorkspaceConfigured { .. },
            )),
    {
        proof {
            use_type_invariant(self);
            lemma_found_granted(self.gate@, subject@);
        }
        self.gate.check(requirement, subject)
    }

    /// The approvals after a decision, and what the decision comes to.
    fn decided(
        self,
        available_lifetimes: &[ApprovalLifetime],
        approval_id: ApprovalId,
        decision: &ApprovalDecision,
        subject: &ApprovalSubject,
    ) -> (decided: (Self, ApprovalOutcome))
        ensures
            decided.1@ == gate_outcome(available_lifetimes@, approval_id, decision@, subject@),
            decided.0.gate@ == retained_after(self.gate@, decided.1@),
    {
        proof {
            use_type_invariant(&self);
        }
        let mut gate = self.gate;
        let outcome = gate.apply_decision(available_lifetimes, approval_id, decision, subject);
        (RunGate { gate }, outcome)
    }
}

/// A run of the agent.
pub struct AgentSession {
    gate: RunGate,
    history: Vec<Message>,
    journal: RunJournal,
    phase: Phase,
}

impl View for AgentSession {
    type V = SessionView;

    closed spec fn view(&self) -> SessionView {
        SessionView {
            history: message_views(self.history@),
            journal: self.journal@,
            phase: self.phase@,
            retained: self.gate.gate@,
        }
    }
}

/// The session with nothing to wait for.
pub open spec fn stopped(session: SessionView) -> SessionView {
    SessionView { phase: PhaseView::Stopped, ..session }
}

/// Copies a list of lifetimes.
fn copy_lifetimes(lifetimes: &Vec<ApprovalLifetime>) -> (copy: Vec<ApprovalLifetime>)
    ensures
        copy@ == lifetimes@,
{
    let mut copy: Vec<ApprovalLifetime> = Vec::new();
    let mut index: usize = 0;
    while index < lifetimes.len()
        invariant
            index <= lifetimes@.len(),
            copy@ == lifetimes@.take(index as int),
        decreases lifetimes@.len() - index,
    {
        copy.push(lifetimes[index]);
        index += 1;
        assert(copy@ =~= lifetimes@.take(index as int));
    }
    assert(lifetimes@.take(index as int) =~= lifetimes@);
    copy
}

fn no_effects() -> (queue: Vec<AgentEffect>)
    ensures
        effect_views(queue@) == Seq::<AgentEffectView>::empty(),
{
    let queue: Vec<AgentEffect> = Vec::new();
    assert(effect_views(queue@) =~= Seq::<AgentEffectView>::empty());
    queue
}

fn one_effect(effect: AgentEffect) -> (queue: Vec<AgentEffect>)
    ensures
        effect_views(queue@) == seq![effect@],
{
    let queue = vec![effect];
    assert(effect_views(queue@) =~= seq![effect@]);
    queue
}

impl AgentSession {
    /// An agent that has heard nothing yet. It waits for input.
    pub fn new(journal: RunJournal) -> (session: Self)
        ensures
            session@ == (SessionView {
                history: Seq::empty(),
                journal: journal@,
                phase: PhaseView::Idle,
                retained: Seq::empty(),
            }),
    {
        let session = AgentSession {
            gate: RunGate::new(),
            history: Vec::new(),
            journal,
            phase: Phase::Idle,
        };
        assert(session@.history =~= Seq::empty());
        session
    }

    /// The conversation so far.
    pub fn history(&self) -> (history: &Vec<Message>)
        ensures
            message_views(history@) == self@.history,
    {
        &self.history
    }

    pub fn journal(&self) -> (journal: &RunJournal)
        ensures
            journal@ == self@.journal,
    {
        &self.journal
    }

    /// The record to write for an entry.
    pub fn prepare_record(&self, recorded_at: Timestamp, entry: JournalEntry) -> (prepared: Result<
        JournalRecord,
        JournalError,
    >)
        ensures
            match prepared {
                Ok(record) => !self@.journal.log.poisoned && record == next_record(
                    self@.journal.log,
                    recorded_at,
                    entry,
                ),
                Err(error) => self@.journal.log.poisoned && match error {
                    JournalError::Unusable { path } => path@ == self@.journal.log.path,
                    _ => false,
                },
            },
    {
        self.journal.prepare(recorded_at, entry)
    }

    /// Takes note of how writing the record went, and turns that into the stimulus to hear next.
    pub fn finish_record(&mut self, outcome: AppendOutcome) -> (stimulus: AgentStimulus)
        requires
            outcome is Written ==> old(self)@.journal.log.next_sequence < u64::MAX,
        ensures
            final(self)@ == (SessionView {
                journal: RunJournalView {
                    log: after_append(old(self)@.journal.log, outcome),
                    ..old(self)@.journal
                },
                ..old(self)@
            }),
            match stimulus {
                AgentStimulus::Journaled => append_finished(
                    old(self)@.journal.log,
                    outcome,
                    Ok(()),
                ),
                AgentStimulus::JournalFailed(message) => exists|error: JournalError|
                    #[trigger] append_finished(old(self)@.journal.log, outcome, Err(error))
                        && message@ == error.words(),
                _ => false,
            },
    {
        match self.journal.finish(outcome) {
            Ok(_) => AgentStimulus::Journaled,
            Err(error) => AgentStimulus::JournalFailed(error.describe()),
        }
    }

    fn enter(&mut self, phase: Phase, effect: AgentEffect) -> (done: AgentEffect)
        ensures
            (final(self)@, done@) == enter(old(self)@, phase@, effect@),
    {
        self.phase = phase;
        effect
    }

    fn perform(
        &mut self,
        first: AgentEffect,
        queue: Vec<AgentEffect>,
        next: Resumption,
    ) -> (done: AgentEffect)
        ensures
            (final(self)@, done@) == perform(
                old(self)@,
                first@,
                effect_views(queue@),
                next@,
            ),
    {
        self.phase = Phase::Performing { next, queue };
        first
    }

    fn remember(&mut self, message: Message)
        ensures
            final(self)@ == remembering(old(self)@, message@),
    {
        let ghost before = message_views(self.history@);
        self.history.push(message);
        assert(message_views(self.history@) =~= before.push(message@));
    }

    fn roll_back(&mut self, turn: ActiveTurn)
        ensures
            final(self)@ == rolled_back(old(self)@, turn),
    {
        let ghost before = message_views(self.history@);
        let length = self.history.len();
        self.history.truncate(turn.start);
        proof {
            if turn.start <= length {
                assert(message_views(self.history@) =~= before.take(turn.start as int));
            } else {
                assert(message_views(self.history@) =~= before);
            }
        }
    }

    fn finish_turn(&mut self, turn: ActiveTurn, result: TurnResult) -> (done: AgentEffect)
        ensures
            (final(self)@, done@) == finish_turn(old(self)@, turn, result@),
            final(self)@.retained == old(self)@.retained,
    {
        let outcome = result.outcome();
        let (commits, cancelled) = match &result {
            TurnResult::Completed { .. } | TurnResult::Paused { .. } => (true, false),
            TurnResult::Failed { .. } => (false, false),
            TurnResult::Cancelled => (false, true),
        };
        let closing = match result.closing() {
            TurnClosing::Commit(outcome) => self.journal.commit_turn(turn.id, outcome),
            TurnClosing::Abort(outcome) => self.journal.abort_turn(turn.id, outcome),
        };
        let told = AgentEvent::TurnComplete { outcome };
        if !commits {
            self.roll_back(turn);
        }
        if cancelled {
            self.perform(
                AgentEffect::Journal(closing),
                one_effect(AgentEffect::EmitLast(told)),
                Resumption::EndRun {
                    exit: Some(AgentExit::Cancelled),
                    reason: RunEndReason::ActiveTurnCancelled,
                },
            )
        } else {
            self.perform(
                AgentEffect::Journal(closing),
                one_effect(AgentEffect::Emit(told)),
                Resumption::AwaitInput,
            )
        }
    }

    fn leave_turn(&mut self, turn: ActiveTurn, disconnected: bool) -> (done: AgentEffect)
        ensures
            (final(self)@, done@) == leave_turn(old(self)@, turn, disconnected),
            final(self)@.retained == old(self)@.retained,
    {
        if !disconnected {
            return self.finish_turn(turn, TurnResult::Cancelled);
        }
        let result = TurnResult::failed(
            "frontend_disconnected",
            "frontend disconnected during the active turn",
        );
        let closing = match result.closing() {
            TurnClosing::Commit(outcome) => self.journal.commit_turn(turn.id, outcome),
            TurnClosing::Abort(outcome) => self.journal.abort_turn(turn.id, outcome),
        };
        self.roll_back(turn);
        self.perform(
            AgentEffect::Journal(closing),
            no_effects(),
            Resumption::EndRun {
                exit: Some(AgentExit::Disconnected),
                reason: RunEndReason::FrontendDisconnected,
            },
        )
    }

    fn start_round(&mut self, turn: ActiveTurn, fresh: FreshIds) -> (done: AgentEffect)
        ensures
            (final(self)@, done@) == start_round(old(self)@, turn, fresh),
            final(self)@.retained == old(self)@.retained,
    {
        let mut budget = turn.budget;
        match budget.begin_provider_round() {
            Err(reason) => self.finish_turn(turn, TurnResult::Paused { reason }),
            Ok(_) => {
                let entry = self.journal.provider_round_started(turn.id, fresh.round);
                self.perform(
                    AgentEffect::Journal(entry),
                    no_effects(),
                    Resumption::Stream {
                        round: fresh.round,
                        turn: ActiveTurn { budget, id: turn.id, start: turn.start },
                    },
                )
            },
        }
    }

    fn reject_call(
        &mut self,
        calls: PendingCalls,
        id: &str,
        name: &str,
        category: &str,
        error: String,
    ) -> (done: AgentEffect)
        ensures
            (final(self)@, done@) == reject_call(
                old(self)@,
                calls@,
                id@,
                name@,
                category@,
                error@,
            ),
            final(self)@.retained == old(self)@.retained,
    {
        let entry = self.journal.tool_rejected(category, id, name, calls.turn.id);
        let told = AgentEvent::ToolRejected { name: name.to_owned(), error: error.clone() };
        let result = failed_tool_result(id, error);
        self.perform(
            AgentEffect::Journal(entry),
            one_effect(AgentEffect::Emit(told)),
            Resumption::Resolve { calls, result },
        )
    }

    fn answer_calls(&mut self, calls: PendingCalls) -> (done: AgentEffect)
        ensures
            (final(self)@, done@) == answer_calls(old(self)@, calls@),
            final(self)@.retained == old(self)@.retained,
    {
        if calls.results.len() == 0 {
            return self.perform(
                AgentEffect::Emit(
                    AgentEvent::Error("no tool results were generated".to_owned()),
                ),
                no_effects(),
                Resumption::FinishTurn {
                    result: TurnResult::failed(
                        "agent_invariant",
                        "no tool results were generated",
                    ),
                    turn: calls.turn,
                },
            );
        }
        let turn = calls.turn;
        let message = Message { role: Role::User, content: calls.results };
        let entry = self.journal.message_added(&message, turn.id);
        self.perform(
            AgentEffect::Journal(entry),
            no_effects(),
            Resumption::KeepResults { message, turn },
        )
    }

    /// The next tool call of the last message, from the block `at` on.
    fn find_call(&self, at: usize) -> (found: Option<(usize, String, String, ToolInput)>)
        ensures
            ({
                let content = last_content(self@.history);
                let next = next_use(content, at as int);
                match found {
                    None => next >= content.len(),
                    Some((found, id, name, input)) => found == next && next < content.len()
                        && found < usize::MAX
                        && content[next]->ToolUse_id == id@ && content[next]->ToolUse_name
                        == name@ && content[next]->ToolUse_input == input@,
                }
            }),
    {
        let ghost history = self@.history;
        let ghost content = last_content(history);
        let length = self.history.len();
        if length == 0 {
            return None;
        }
        let blocks = &self.history[length - 1].content;
        assert(history.last() == self.history@[length - 1]@);
        assert(content == block_views(blocks@));
        let mut index: usize = at;
        while index < blocks.len()
            invariant
                content == last_content(self@.history),
                content == block_views(blocks@),
                at <= index,
                next_use(content, at as int) == next_use(content, index as int),
            decreases blocks@.len() - index,
        {
            assert(content[index as int] == blocks@[index as int]@);
            match &blocks[index] {
                ContentBlock::ToolUse { id, name, input } => {
                    return Some((index, id.clone(), name.clone(), input.clone()));
                },
                _ => {},
            }
            index += 1;
        }
        None
    }

    fn next_call(&mut self, calls: PendingCalls) -> (done: AgentEffect)
        ensures
            (final(self)@, done@) == next_call(old(self)@, calls@),
            final(self)@.retained == old(self)@.retained,
    {
        match self.find_call(calls.at) {
            None => self.answer_calls(calls),
            Some((found, id, name, input)) => {
                let calls = PendingCalls {
                    at: found + 1,
                    results: calls.results,
                    turn: calls.turn,
                };
                match input {
                    ToolInput::Valid(input) => {
                        let effect = AgentEffect::PrepareTool {
                            input: input.clone(),
                            name: name.clone(),
                        };
                        self.enter(
                            Phase::Preparing { call: ActiveCall { calls, id, input, name } },
                            effect,
                        )
                    },
                    ToolInput::Invalid(raw) => {
                        let error = invalid_input_error(name.as_str(), raw.as_str());
                        self.reject_call(
                            calls,
                            id.as_str(),
                            name.as_str(),
                            "invalid_input",
                            error,
                        )
                    },
                }
            },
        }
    }

    fn take_answer(
        &mut self,
        turn: ActiveTurn,
        message: Message,
        stop_reason: StopReason,
    ) -> (done: AgentEffect)
        ensures
            (final(self)@, done@) == take_answer(old(self)@, turn, message@, stop_reason@),
            final(self)@.retained == old(self)@.retained,
    {
        match validate_assistant_message(&message, &stop_reason) {
            Err(detail) => self.perform(
                AgentEffect::Emit(AgentEvent::Error(detail.to_owned())),
                no_effects(),
                Resumption::FinishTurn {
                    result: TurnResult::failed("invalid_assistant_message", detail),
                    turn,
                },
            ),
            Ok(_) => {
                let entry = self.journal.message_added(&message, turn.id);
                self.perform(
                    AgentEffect::Journal(entry),
                    no_effects(),
                    Resumption::KeepAnswer { message, stop_reason, turn },
                )
            },
        }
    }

    fn keep_answer(
        &mut self,
        turn: ActiveTurn,
        message: Message,
        stop_reason: StopReason,
    ) -> (done: AgentEffect)
        ensures
            (final(self)@, done@) == keep_answer(old(self)@, turn, message@, stop_reason@),
            final(self)@.retained == old(self)@.retained,
    {
        self.remember(message);
        if !stop_reason.is_tool_use() {
            return self.finish_turn(turn, TurnResult::Completed { stop_reason });
        }
        let calls = PendingCalls { at: 0, results: Vec::new(), turn };
        assert(calls@.results =~= Seq::empty());
        self.next_call(calls)
    }

    fn start_tool(&mut self, call: ActiveCall, authorization: ToolAuthorization) -> (done:
        AgentEffect)
        ensures
            (final(self)@, done@) == start_tool(old(self)@, call@, authorization@),
            final(self)@.retained == old(self)@.retained,
    {
        let entry = self.journal.tool_started(
            authorization,
            None,
            call.id.as_str(),
            call.name.as_str(),
            call.calls.turn.id,
        );
        let told = AgentEvent::ToolStarted { input: call.input.clone(), name: call.name.clone() };
        self.perform(
            AgentEffect::Journal(entry),
            one_effect(AgentEffect::Emit(told)),
            Resumption::Execute { call },
        )
    }

    fn end_run(&mut self, reason: RunEndReason, exit: Option<AgentExit>) -> (done: AgentEffect)
        ensures
            (final(self)@, done@) == end_run(old(self)@, reason, exit_view(exit)),
            final(self)@.retained == old(self)@.retained,
    {
        let entry = self.journal.end_run(reason);
        self.perform(AgentEffect::Journal(entry), no_effects(), Resumption::Stop { exit })
    }

    fn resume(&mut self, next: Resumption, fresh: FreshIds) -> (done: AgentEffect)
        ensures
            (final(self)@, done@) == resume(old(self)@, next@, fresh),
            final(self)@.retained == old(self)@.retained,
    {
        match next {
            Resumption::StartRound { turn } => self.start_round(turn, fresh),
            Resumption::Stream { round, turn } => self.enter(
                Phase::Streaming { round, turn },
                AgentEffect::StreamMessage,
            ),
            Resumption::TakeAnswer { message, stop_reason, turn } => self.take_answer(
                turn,
                message,
                stop_reason,
            ),
            Resumption::KeepAnswer { message, stop_reason, turn } => self.keep_answer(
                turn,
                message,
                stop_reason,
            ),
            Resumption::AskDecision { approval_id, available_lifetimes, call } => {
                let effect = AgentEffect::RequestApproval {
                    available_lifetimes: copy_lifetimes(&available_lifetimes),
                    input: call.input.clone(),
                    subject: ApprovalSubject::tool_call(call.id.as_str(), call.name.as_str()),
                };
                self.enter(Phase::Deciding { approval_id, available_lifetimes, call }, effect)
            },
            Resumption::StartTool { authorization, call } => self.start_tool(call, authorization),
            Resumption::Execute { call } => self.enter(
                Phase::Executing { call },
                AgentEffect::ExecuteTool,
            ),
            Resumption::Resolve { calls, result } => {
                let ghost before = block_views(calls.results@);
                let mut results = calls.results;
                results.push(ContentBlock::ToolResult(result));
                let calls = PendingCalls { at: calls.at, results, turn: calls.turn };
                assert(calls@.results =~= before.push(
                    ContentBlockView::ToolResult(result@),
                ));
                self.next_call(calls)
            },
            Resumption::KeepResults { message, turn } => {
                self.remember(message);
                self.start_round(turn, fresh)
            },
            Resumption::FinishTurn { result, turn } => self.finish_turn(turn, result),
            Resumption::LeaveTurn { disconnected, turn } => self.leave_turn(turn, disconnected),
            Resumption::AwaitInput => self.enter(Phase::Idle, AgentEffect::AwaitInput),
            Resumption::EndRun { exit, reason } => self.end_run(reason, exit),
            Resumption::Stop { exit } => self.enter(Phase::Stopped, AgentEffect::Finish(exit)),
        }
    }

    fn fail_journal(&mut self, message: String) -> (done: AgentEffect)
        ensures
            (final(self)@, done@) == fail_journal(old(self)@, message@),
            final(self)@.retained == old(self)@.retained,
    {
        let told = AgentEvent::Error(
            "session journal failed: ".to_owned().concat(message.as_str()),
        );
        self.perform(
            AgentEffect::EmitLast(told),
            no_effects(),
            Resumption::Stop { exit: Some(AgentExit::JournalFailed(message)) },
        )
    }

    fn lose_frontend(&mut self, next: Resumption) -> (done: AgentEffect)
        ensures
            (final(self)@, done@) == lose_frontend(old(self)@, next@),
            final(self)@.retained == old(self)@.retained,
    {
        let turn = match next {
            Resumption::StartRound { turn } => Some(turn),
            Resumption::Stream { turn, .. } => Some(turn),
            Resumption::TakeAnswer { turn, .. } => Some(turn),
            Resumption::KeepAnswer { turn, .. } => Some(turn),
            Resumption::AskDecision { call, .. } => Some(call.calls.turn),
            Resumption::StartTool { call, .. } => Some(call.calls.turn),
            Resumption::Execute { call } => Some(call.calls.turn),
            Resumption::Resolve { calls, .. } => Some(calls.turn),
            Resumption::KeepResults { turn, .. } => Some(turn),
            Resumption::FinishTurn { turn, .. } => Some(turn),
            Resumption::LeaveTurn { turn, .. } => Some(turn),
            Resumption::AwaitInput => None,
            Resumption::EndRun { .. } => None,
            Resumption::Stop { .. } => None,
        };
        assert(turn == open_turn(next@));
        match turn {
            Some(turn) => self.leave_turn(turn, true),
            None => self.end_run(
                RunEndReason::FrontendDisconnected,
                Some(AgentExit::Disconnected),
            ),
        }
    }

    fn begin_turn(&mut self, prompt: String, fresh: FreshIds) -> (done: AgentEffect)
        ensures
            (final(self)@, done@) == begin_turn(old(self)@, prompt@, fresh.turn),
            final(self)@.retained == old(self)@.retained,
    {
        let start = self.history.len();
        let message = Message {
            role: Role::User,
            content: vec![ContentBlock::Text { text: prompt }],
        };
        assert(message@.content =~= seq![
            ContentBlockView::Text { text: prompt@ },
        ]);
        let (started, added) = self.journal.start_turn(fresh.turn, &message);
        self.remember(message);
        self.perform(
            AgentEffect::Journal(started),
            one_effect(AgentEffect::Journal(added)),
            Resumption::StartRound {
                turn: ActiveTurn { budget: TurnBudget::default(), id: fresh.turn, start },
            },
        )
    }

    fn react_idle(&mut self, stimulus: AgentStimulus, fresh: FreshIds) -> (done: AgentEffect)
        ensures
            (final(self)@, done@) == react_idle(old(self)@, stimulus, fresh),
            final(self)@.retained == old(self)@.retained,
    {
        match stimulus {
            AgentStimulus::Cancelled => self.end_run(RunEndReason::IdleCancelled, None),
            AgentStimulus::Command(AgentCommand::Shutdown(reason)) => self.end_run(
                shutdown_reason(reason),
                None,
            ),
            AgentStimulus::Command(AgentCommand::UserInput(prompt)) => self.begin_turn(
                prompt,
                fresh,
            ),
            _ => self.end_run(RunEndReason::FrontendDisconnected, Some(AgentExit::Disconnected)),
        }
    }

    fn react_performing(
        &mut self,
        next: Resumption,
        queue: Vec<AgentEffect>,
        stimulus: AgentStimulus,
        fresh: FreshIds,
    ) -> (done: AgentEffect)
        ensures
            (final(self)@, done@) == react_performing(
                old(self)@,
                next@,
                effect_views(queue@),
                stimulus,
                fresh,
            ),
            final(self)@.retained == old(self)@.retained,
    {
        match stimulus {
            AgentStimulus::JournalFailed(message) => self.fail_journal(message),
            AgentStimulus::FrontendClosed => self.lose_frontend(next),
            _ => {
                if queue.len() > 0 {
                    let ghost views = effect_views(queue@);
                    let mut queue = queue;
                    let first = queue.remove(0);
                    assert(effect_views(queue@) =~= views.skip(1));
                    self.perform(first, queue, next)
                } else {
                    self.resume(next, fresh)
                }
            },
        }
    }

    fn complete_round(
        &mut self,
        round: ProviderRoundId,
        turn: ActiveTurn,
        answer: ModelTurn,
        latency_ms: u64,
    ) -> (done: AgentEffect)
        ensures
            (final(self)@, done@) == complete_round(old(self)@, round, turn, answer, latency_ms),
            final(self)@.retained == old(self)@.retained,
    {
        let entry = self.journal.provider_round_completed(latency_ms, round, &answer, turn.id);
        self.perform(
            AgentEffect::Journal(entry),
            no_effects(),
            Resumption::TakeAnswer {
                message: answer.message,
                stop_reason: answer.stop_reason,
                turn,
            },
        )
    }

    fn fail_round(
        &mut self,
        round: ProviderRoundId,
        turn: ActiveTurn,
        error: ProviderError,
        latency_ms: u64,
    ) -> (done: AgentEffect)
        ensures
            (final(self)@, done@) == fail_round(old(self)@, round, turn, error, latency_ms),
            final(self)@.retained == old(self)@.retained,
    {
        let cancelled = error.kind == ProviderErrorKind::Cancelled;
        let entry = if cancelled {
            self.journal.provider_round_cancelled(latency_ms, round, turn.id)
        } else {
            self.journal.provider_round_failed(
                provider_error_detail(&error),
                latency_ms,
                round,
                None,
                turn.id,
            )
        };
        let result = if cancelled {
            TurnResult::Cancelled
        } else {
            TurnResult::unattributed_failure()
        };
        self.perform(
            AgentEffect::Journal(entry),
            one_effect(AgentEffect::Emit(AgentEvent::Error(error.message))),
            Resumption::FinishTurn { result, turn },
        )
    }

    fn admit_call(
        &mut self,
        call: ActiveCall,
        requirement: ApprovalRequirement,
        available_lifetimes: Vec<ApprovalLifetime>,
        approval_id: ApprovalId,
    ) -> (done: AgentEffect)
        ensures
            (final(self)@, done@) == admit_call(
                old(self)@,
                call@,
                requirement,
                available_lifetimes@,
                approval_id,
            ),
            final(self)@.retained == old(self)@.retained,
    {
        let subject = ApprovalSubject::tool_call(call.id.as_str(), call.name.as_str());
        match self.gate.check(requirement, &subject) {
            ApprovalCheck::Authorized(authorization) => {
                match tool_authorization(authorization) {
                    Some(authorization) => self.start_tool(call, authorization),
                    None => {
                        assert(false);
                        self.enter(Phase::Stopped, AgentEffect::Finish(None))
                    },
                }
            },
            ApprovalCheck::RequiresDecision => {
                let entry = self.journal.approval_requested(
                    approval_id,
                    copy_lifetimes(&available_lifetimes),
                    subject,
                    call.calls.turn.id,
                );
                self.perform(
                    AgentEffect::Journal(entry),
                    no_effects(),
                    Resumption::AskDecision { approval_id, available_lifetimes, call },
                )
            },
        }
    }

    fn apply_decision(
        &mut self,
        call: ActiveCall,
        approval_id: ApprovalId,
        available_lifetimes: Vec<ApprovalLifetime>,
        decision: ApprovalDecision,
    ) -> (done: AgentEffect)
        ensures
            (final(self)@, done@) == apply_decision(
                old(self)@,
                call@,
                approval_id,
                available_lifetimes@,
                decision@,
            ),
    {
        let subject = ApprovalSubject::tool_call(call.id.as_str(), call.name.as_str());
        let turn_id = call.calls.turn.id;
        let mut gate = RunGate::new();
        std::mem::swap(&mut gate, &mut self.gate);
        let (gate, outcome) = gate.decided(
            available_lifetimes.as_slice(),
            approval_id,
            &decision,
            &subject,
        );
        self.gate = gate;
        let entry = self.journal.approval_decided(
            approval_id,
            journal_approval_decision(&decision),
        );
        match outcome {
            ApprovalOutcome::Authorized(authorization) => {
                match tool_authorization(authorization) {
                    Some(authorization) => self.perform(
                        AgentEffect::Journal(entry),
                        no_effects(),
                        Resumption::StartTool { authorization, call },
                    ),
                    None => {
                        assert(false);
                        self.enter(Phase::Stopped, AgentEffect::Finish(None))
                    },
                }
            },
            ApprovalOutcome::Denied { reason } => {
                let rejected = self.journal.tool_rejected(
                    "approval_denied",
                    call.id.as_str(),
                    call.name.as_str(),
                    turn_id,
                );
                let result = denied_tool_result(call.id.as_str(), reason.as_str());
                let told = AgentEvent::ToolDenied { name: call.name, reason };
                let ghost expected = seq![
                    AgentEffectView::Journal(rejected@),
                    AgentEffectView::Emit(told@),
                ];
                let queue = vec![AgentEffect::Journal(rejected), AgentEffect::Emit(told)];
                assert(effect_views(queue@) =~= expected);
                self.perform(
                    AgentEffect::Journal(entry),
                    queue,
                    Resumption::Resolve { calls: call.calls, result },
                )
            },
            ApprovalOutcome::InvalidGrant { reason } => self.reject_call(
                call.calls,
                call.id.as_str(),
                call.name.as_str(),
                "invalid_approval_grant",
                reason,
            ),
        }
    }

    fn cancel_tool(
        &mut self,
        call: ActiveCall,
        duration_ms: u64,
        disconnected: bool,
    ) -> (done: AgentEffect)
        ensures
            (final(self)@, done@) == cancel_tool(old(self)@, call@, duration_ms, disconnected),
            final(self)@.retained == old(self)@.retained,
    {
        let turn = call.calls.turn;
        let entry = self.journal.tool_cancelled(duration_ms, call.id.as_str(), turn.id);
        self.perform(
            AgentEffect::Journal(entry),
            no_effects(),
            Resumption::LeaveTurn { disconnected, turn },
        )
    }

    fn finish_tool(
        &mut self,
        call: ActiveCall,
        duration_ms: u64,
        output: String,
        is_error: bool,
    ) -> (done: AgentEffect)
        ensures
            (final(self)@, done@) == finish_tool(
                old(self)@,
                call@,
                duration_ms,
                output@,
                is_error,
            ),
            final(self)@.retained == old(self)@.retained,
    {
        let turn_id = call.calls.turn.id;
        let entry = if is_error {
            self.journal.tool_failed(duration_ms, "tool_error", call.id.as_str(), turn_id)
        } else {
            self.journal.tool_completed(duration_ms, None, call.id.as_str(), turn_id)
        };
        let told = AgentEvent::ToolFinished {
            is_error,
            name: call.name,
            output: output.clone(),
        };
        self.perform(
            AgentEffect::Journal(entry),
            one_effect(AgentEffect::Emit(told)),
            Resumption::Resolve {
                calls: call.calls,
                result: ToolResultData { content: output, is_error, tool_use_id: call.id },
            },
        )
    }

    fn react_executing(&mut self, call: ActiveCall, stimulus: AgentStimulus) -> (done: AgentEffect)
        ensures
            (final(self)@, done@) == react_executing(old(self)@, call@, stimulus),
            final(self)@.retained == old(self)@.retained,
    {
        match stimulus {
            AgentStimulus::Executed { duration_ms, result } => match result {
                Ok(output) => self.finish_tool(call, duration_ms, output, false),
                Err(ToolExecutionError::ToolError(error)) => self.finish_tool(
                    call,
                    duration_ms,
                    error,
                    true,
                ),
                Err(ToolExecutionError::Cancelled) => self.cancel_tool(call, duration_ms, false),
            },
            AgentStimulus::Interrupted { disconnected, duration_ms } => self.cancel_tool(
                call,
                duration_ms,
                disconnected,
            ),
            _ => self.leave_turn(call.calls.turn, true),
        }
    }

    /// Whether the stimulus can follow what the agent is waiting for.
    pub fn expects(&self, stimulus: &AgentStimulus) -> (expected: bool)
        ensures
            expected == expects(self@.phase, *stimulus),
    {
        match &self.phase {
            Phase::Idle => match stimulus {
                AgentStimulus::Cancelled | AgentStimulus::Command(_)
                | AgentStimulus::CommandsClosed | AgentStimulus::FrontendClosed => true,
                _ => false,
            },
            Phase::Performing { next, .. } => match stimulus {
                AgentStimulus::Journaled | AgentStimulus::Emitted
                | AgentStimulus::JournalFailed(_) => true,
                AgentStimulus::FrontendClosed => match next {
                    Resumption::EndRun { .. } | Resumption::Stop { .. } => false,
                    _ => true,
                },
                _ => false,
            },
            Phase::Streaming { .. } => match stimulus {
                AgentStimulus::FrontendClosed | AgentStimulus::Streamed { .. }
                | AgentStimulus::StreamFailed { .. } => true,
                _ => false,
            },
            Phase::Preparing { .. } => match stimulus {
                AgentStimulus::Prepared { .. } | AgentStimulus::NotPrepared { .. } => true,
                _ => false,
            },
            Phase::Deciding { .. } => match stimulus {
                AgentStimulus::Replied(_) => true,
                _ => false,
            },
            Phase::Executing { .. } => match stimulus {
                AgentStimulus::Executed { .. } | AgentStimulus::Interrupted { .. } => true,
                _ => false,
            },
            Phase::Stopped => false,
        }
    }

    fn react_streaming(
        &mut self,
        round: ProviderRoundId,
        turn: ActiveTurn,
        stimulus: AgentStimulus,
    ) -> (done: AgentEffect)
        ensures
            (final(self)@, done@) == react_streaming(old(self)@, round, turn, stimulus),
            final(self)@.retained == old(self)@.retained,
    {
        match stimulus {
            AgentStimulus::Streamed { answer, latency_ms } => self.complete_round(
                round,
                turn,
                answer,
                latency_ms,
            ),
            AgentStimulus::StreamFailed { error, latency_ms } => self.fail_round(
                round,
                turn,
                error,
                latency_ms,
            ),
            _ => self.leave_turn(turn, true),
        }
    }

    fn react_preparing(
        &mut self,
        call: ActiveCall,
        stimulus: AgentStimulus,
        fresh: FreshIds,
    ) -> (done: AgentEffect)
        ensures
            (final(self)@, done@) == react_preparing(old(self)@, call@, stimulus, fresh),
            final(self)@.retained == old(self)@.retained,
    {
        match stimulus {
            AgentStimulus::Prepared { available_lifetimes, requirement } => self.admit_call(
                call,
                requirement,
                available_lifetimes,
                fresh.approval,
            ),
            AgentStimulus::NotPrepared { error } => self.reject_call(
                call.calls,
                call.id.as_str(),
                call.name.as_str(),
                "preparation_failed",
                error,
            ),
            _ => self.leave_turn(call.calls.turn, true),
        }
    }

    fn react_deciding(
        &mut self,
        approval_id: ApprovalId,
        available_lifetimes: Vec<ApprovalLifetime>,
        call: ActiveCall,
        stimulus: AgentStimulus,
    ) -> (done: AgentEffect)
        ensures
            (final(self)@, done@) == react_deciding(
                old(self)@,
                approval_id,
                available_lifetimes@,
                call@,
                stimulus,
            ),
    {
        match stimulus {
            AgentStimulus::Replied(ApprovalReply::Decided(decision)) => self.apply_decision(
                call,
                approval_id,
                available_lifetimes,
                decision,
            ),
            AgentStimulus::Replied(ApprovalReply::Cancelled) => self.leave_turn(
                call.calls.turn,
                false,
            ),
            _ => self.leave_turn(call.calls.turn, true),
        }
    }

    /// Hears what happened and says what to do next.
    pub fn react(&mut self, stimulus: AgentStimulus, fresh: FreshIds) -> (effect: AgentEffect)
        requires
            expects(old(self)@.phase, stimulus),
        ensures
            (final(self)@, effect@) == react(old(self)@, stimulus, fresh),
            user_granted(final(self)@.retained),
    {
        let ghost before = self@;
        let mut phase = Phase::Stopped;
        std::mem::swap(&mut phase, &mut self.phase);
        assert(self@ == stopped(before));
        let effect = match phase {
            Phase::Idle => {
                proof {
                    lemma_idle_replaces_phase(before, stimulus, fresh);
                }
                self.react_idle(stimulus, fresh)
            },
            Phase::Performing { next, queue } => {
                proof {
                    lemma_performing_replaces_phase(
                        before,
                        next@,
                        effect_views(queue@),
                        stimulus,
                        fresh,
                    );
                }
                self.react_performing(next, queue, stimulus, fresh)
            },
            Phase::Streaming { round, turn } => {
                proof {
                    lemma_streaming_replaces_phase(before, round, turn, stimulus);
                }
                self.react_streaming(round, turn, stimulus)
            },
            Phase::Preparing { call } => {
                proof {
                    lemma_preparing_replaces_phase(before, call@, stimulus, fresh);
                }
                self.react_preparing(call, stimulus, fresh)
            },
            Phase::Deciding { approval_id, available_lifetimes, call } => {
                proof {
                    lemma_deciding_replaces_phase(
                        before,
                        approval_id,
                        available_lifetimes@,
                        call@,
                        stimulus,
                    );
                }
                self.react_deciding(approval_id, available_lifetimes, call, stimulus)
            },
            Phase::Executing { call } => {
                proof {
                    lemma_executing_replaces_phase(before, call@, stimulus);
                }
                self.react_executing(call, stimulus)
            },
            Phase::Stopped => self.enter(Phase::Stopped, AgentEffect::Finish(None)),
        };
        proof {
            use_type_invariant(&self.gate);
        }
        effect
    }
}

/// What is found among grants of the user is one of them.
proof fn lemma_found_granted(
    retained: Seq<ApprovalAuthorizationView>,
    subject: ApprovalSubjectView,
)
    requires
        user_granted(retained),
    ensures
        first_covering(retained, subject) matches Some(found) ==> found is Granted,
    decreases retained.len(),
{
    if retained.len() > 0 {
        let before = retained.drop_last();
        assert forall|i: int| 0 <= i < before.len() implies (#[trigger] before[i]) is Granted by {
            assert(before[i] == retained[i]);
        }
        lemma_found_granted(before, subject);
        assert(retained[retained.len() - 1] == retained.last());
    }
}

proof fn lemma_idle_replaces_phase(session: SessionView, stimulus: AgentStimulus, fresh: FreshIds)
    ensures
        react_idle(stopped(session), stimulus, fresh) == react_idle(session, stimulus, fresh),
{
}

proof fn lemma_resume_replaces_phase(session: SessionView, next: ResumptionView, fresh: FreshIds)
    ensures
        resume(stopped(session), next, fresh) == resume(session, next, fresh),
{
}

proof fn lemma_performing_replaces_phase(
    session: SessionView,
    next: ResumptionView,
    queue: Seq<AgentEffectView>,
    stimulus: AgentStimulus,
    fresh: FreshIds,
)
    ensures
        react_performing(stopped(session), next, queue, stimulus, fresh) == react_performing(
            session,
            next,
            queue,
            stimulus,
            fresh,
        ),
{
    lemma_resume_replaces_phase(session, next, fresh);
}

proof fn lemma_streaming_replaces_phase(
    session: SessionView,
    round: ProviderRoundId,
    turn: ActiveTurn,
    stimulus: AgentStimulus,
)
    ensures
        react_streaming(stopped(session), round, turn, stimulus) == react_streaming(
            session,
            round,
            turn,
            stimulus,
        ),
{
}

proof fn lemma_preparing_replaces_phase(
    session: SessionView,
    call: ActiveCallView,
    stimulus: AgentStimulus,
    fresh: FreshIds,
)
    ensures
        react_preparing(stopped(session), call, stimulus, fresh) == react_preparing(
            session,
            call,
            stimulus,
            fresh,
        ),
{
}

proof fn lemma_deciding_replaces_phase(
    session: SessionView,
    approval_id: ApprovalId,
    available_lifetimes: Seq<ApprovalLifetime>,
    call: ActiveCallView,
    stimulus: AgentStimulus,
)
    ensures
        react_deciding(
            stopped(session),
            approval_id,
            available_lifetimes,
            call,
            stimulus,
        ) == react_deciding(session, approval_id, available_lifetimes, call, stimulus),
{
}

proof fn lemma_executing_replaces_phase(
    session: SessionView,
    call: ActiveCallView,
    stimulus: AgentStimulus,
)
    ensures
        react_executing(stopped(session), call, stimulus) == react_executing(
            session,
            call,
            stimulus,
        ),
{
}

} // verus!
