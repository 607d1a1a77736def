use cane::agent::rules::{
    denied_tool_result, elapsed_ms, failed_tool_result, journal_approval_decision,
    provider_error_detail, shutdown_reason, tool_authorization, validate_assistant_message,
    TurnBudget, TurnResult, MAX_PROVIDER_ROUNDS_PER_TURN,
};
use cane::agent::session::AgentSession;
use cane::agent::start::{run_started, session_started, AgentStartError};
use cane::agent::state::{AgentEffect, AgentStimulus, FreshIds};
use cane::approval::{ApprovalAuthorization, ApprovalReply};
use cane::journal::id::{ApprovalId, RunId, SessionId};
use cane::journal::projector::{project_journal, SessionProjection};
use cane::journal::run::RunJournal;
use cane::journal::schema::{
    ErrorDetail, JournalApprovalDecision, JournalEntry, JournalRecord, RunEndReason,
    ToolAuthorization, TurnAbortOutcome, TurnCommitOutcome,
};
use cane::journal::writer::{AppendOutcome, SessionJournal};
use cane::message::{ContentBlock, Message, Role, StopReason, ToolInput, ToolResultData};
use cane::path::HostPath;
use cane::protocol::{
    AgentCommand, AgentEvent, AgentExit, ApprovalDecision, ApprovalLifetime, ApprovalRequirement,
    ApprovalSubject, ShutdownReason, TurnOutcome,
};
use cane::provider::{
    ModelTurn, ProviderAdapter, ProviderDescriptor, ProviderError, ProviderErrorKind,
};
use cane::tools::ToolExecutionError;

fn empty_object() -> serde_json::Value {
    serde_json::Value::Object(serde_json::Map::new())
}

fn assistant_tool_call(id: &str) -> ContentBlock {
    ContentBlock::ToolUse {
        id: id.to_string(),
        input: ToolInput::Valid(empty_object()),
        name: "test_tool".to_string(),
    }
}

#[test]
fn assistant_tool_calls_require_a_tool_use_stop_reason() {
    let message = Message {
        content: vec![assistant_tool_call("call_1")],
        role: Role::Assistant,
    };

    let result = validate_assistant_message(&message, &StopReason::MaxTokens);

    assert_eq!(
        result,
        Err("assistant tool calls do not agree with the provider stop reason")
    );
}

#[test]
fn assistant_tool_call_ids_must_be_unique_within_a_message() {
    let message = Message {
        content: vec![assistant_tool_call("call_1"), assistant_tool_call("call_1")],
        role: Role::Assistant,
    };

    let result = validate_assistant_message(&message, &StopReason::ToolUse);

    assert_eq!(result, Err("assistant message repeats a tool call ID"));
}

#[test]
fn denied_tool_results_only_quote_a_nonempty_reason() {
    let tool_call_id = "call_1";

    let unexplained = denied_tool_result(tool_call_id, " \t");
    let explained = denied_tool_result(tool_call_id, "use the existing build output");

    assert_eq!(
        unexplained,
        ToolResultData {
            content: "The user declined this tool call. Do not assume the tool ran. Continue without it or ask the user what they prefer."
                .to_string(),
            is_error: false,
            tool_use_id: tool_call_id.to_string(),
        }
    );
    assert_eq!(
        explained,
        ToolResultData {
            content: "The user declined this tool call and said: \"use the existing build output\". Do not assume the tool ran. Address their feedback, then retry if appropriate."
                .to_string(),
            is_error: false,
            tool_use_id: tool_call_id.to_string(),
        }
    );
}

#[test]
fn answers_hold_text_and_tool_calls_alone() {
    let with_result = Message {
        content: vec![ContentBlock::ToolResult(failed_tool_result(
            "call_1",
            "no".to_string(),
        ))],
        role: Role::Assistant,
    };
    let text = Message {
        content: vec![ContentBlock::Text { text: "done".to_string() }],
        role: Role::Assistant,
    };
    let call = Message {
        content: vec![assistant_tool_call("call_1"), assistant_tool_call("call_2")],
        role: Role::Assistant,
    };

    assert_eq!(
        validate_assistant_message(&with_result, &StopReason::EndTurn),
        Err("assistant message contains a tool result")
    );
    assert_eq!(validate_assistant_message(&text, &StopReason::EndTurn), Ok(()));
    assert_eq!(validate_assistant_message(&call, &StopReason::ToolUse), Ok(()));
    assert_eq!(
        validate_assistant_message(&text, &StopReason::ToolUse),
        Err("assistant tool calls do not agree with the provider stop reason")
    );
}

#[test]
fn a_turn_takes_at_most_its_budget_of_rounds() {
    let mut budget = TurnBudget::default();

    for _ in 0..MAX_PROVIDER_ROUNDS_PER_TURN {
        assert_eq!(budget.begin_provider_round(), Ok(()));
    }

    assert_eq!(
        budget.begin_provider_round(),
        Err("turn paused after 24 provider rounds; send another message to continue with the existing context".to_string())
    );
    assert_eq!(budget.provider_rounds, 24);
}

#[test]
fn turn_results_tell_the_frontend_their_outcome() {
    assert_eq!(
        TurnResult::Completed { stop_reason: StopReason::EndTurn }.outcome(),
        TurnOutcome::Completed { stop_reason: StopReason::EndTurn }
    );
    assert_eq!(
        TurnResult::Paused { reason: "later".to_string() }.outcome(),
        TurnOutcome::Paused { reason: "later".to_string() }
    );
    assert_eq!(TurnResult::failed("api", "500").outcome(), TurnOutcome::Failed);
    assert_eq!(TurnResult::unattributed_failure().outcome(), TurnOutcome::Failed);
    assert_eq!(TurnResult::Cancelled.outcome(), TurnOutcome::Cancelled);
}

#[test]
fn the_journal_keeps_decisions_and_reasons_in_its_own_words() {
    let subject = ApprovalSubject::tool_call("call_1", "write_file");
    let grant = subject.grant(ApprovalLifetime::Run);
    let id = ApprovalId::from_ulid(7);

    assert_eq!(
        journal_approval_decision(&ApprovalDecision::Grant(grant.clone())),
        JournalApprovalDecision::Grant { grant: grant.clone() }
    );
    assert_eq!(
        journal_approval_decision(&ApprovalDecision::Deny { reason: "no".to_string() }),
        JournalApprovalDecision::Deny { reason: "no".to_string() }
    );
    assert_eq!(
        tool_authorization(ApprovalAuthorization::Granted { approval_id: id, grant: grant.clone() }),
        Some(ToolAuthorization::Granted { approval_id: id, grant: grant.clone() })
    );
    assert_eq!(
        tool_authorization(ApprovalAuthorization::NotRequired),
        Some(ToolAuthorization::NotRequired)
    );
    assert_eq!(
        tool_authorization(ApprovalAuthorization::WorkspaceConfigured { grant }),
        None
    );
    assert_eq!(shutdown_reason(ShutdownReason::InputClosed), RunEndReason::InputClosed);
    assert_eq!(shutdown_reason(ShutdownReason::UserQuit), RunEndReason::UserQuit);
}

#[test]
fn provider_failures_are_kept_by_category() {
    let kinds = [
        (ProviderErrorKind::Api, "api"),
        (ProviderErrorKind::Cancelled, "cancelled"),
        (ProviderErrorKind::InvalidBaseUrl, "invalid_base_url"),
        (ProviderErrorKind::Network, "network"),
        (ProviderErrorKind::Parsing, "parsing"),
        (ProviderErrorKind::Protocol, "protocol"),
    ];

    for (kind, category) in kinds {
        assert_eq!(
            provider_error_detail(&ProviderError { kind, message: "broke".to_string() }),
            ErrorDetail { category: category.to_string(), message: "broke".to_string() }
        );
    }
}

#[test]
fn elapsed_time_is_capped_at_what_the_journal_can_hold() {
    assert_eq!(elapsed_ms(1_500), 1_500);
    assert_eq!(elapsed_ms(u64::MAX as u128), u64::MAX);
    assert_eq!(elapsed_ms(u64::MAX as u128 + 1), u64::MAX);
}

#[test]
fn sessions_start_only_in_a_workspace_that_text_can_name() {
    let broken = HostPath::from_bytes(vec![b'/', 0xff]);

    let refused = session_started(&broken, "0.1.0", "Be helpful.").unwrap_err();

    assert_eq!(refused, AgentStartError::WorkspacePath { path: broken });
    assert_eq!(
        refused.describe(),
        "workspace path is not valid UTF-8: '/\u{fffd}'"
    );
}

/// A host that performs what the agent asks for, as far as it needs no answer from outside.
struct Host {
    events: Vec<AgentEvent>,
    failing_writes: bool,
    fresh: u128,
    records: Vec<JournalRecord>,
    session: AgentSession,
}

fn provider() -> ProviderDescriptor {
    ProviderDescriptor {
        adapter: ProviderAdapter::OpenAiCompatible,
        endpoint: "https://example.test".to_string(),
    }
}

impl Host {
    fn start() -> Host {
        let run_id = RunId::from_ulid(2);
        let mut journal = SessionJournal::create(
            &HostPath::from_text("/sessions"),
            SessionId::from_ulid(1),
        );
        let opening = [
            session_started(&HostPath::from_text("/workspace"), "0.1.0", "Be helpful.").unwrap(),
            run_started(1234, "test-model", &provider(), run_id, Vec::new()),
        ];
        let mut records = Vec::new();
        for entry in opening {
            records.push(journal.prepare(now(), entry).unwrap());
            journal.finish(AppendOutcome::Written).unwrap();
        }
        let run = RunJournal::new(journal, "test-model".to_string(), provider(), run_id);
        Host {
            events: Vec::new(),
            failing_writes: false,
            fresh: 100,
            records,
            session: AgentSession::new(run),
        }
    }

    fn fresh(&mut self) -> FreshIds {
        self.fresh += 1;
        FreshIds {
            approval: ApprovalId::from_ulid(self.fresh),
            round: cane::journal::id::ProviderRoundId::from_ulid(self.fresh),
            turn: cane::journal::id::TurnId::from_ulid(self.fresh),
        }
    }

    /// Reacts until something has to come from outside.
    fn hear(&mut self, stimulus: AgentStimulus) -> AgentEffect {
        let mut stimulus = stimulus;
        loop {
            assert!(self.session.expects(&stimulus));
            let fresh = self.fresh();
            match self.session.react(stimulus, fresh) {
                AgentEffect::Journal(entry) => {
                    let record = self.session.prepare_record(now(), entry).unwrap();
                    stimulus = if self.failing_writes {
                        self.session.finish_record(AppendOutcome::NotFlushed {
                            source: "disk full".to_string(),
                        })
                    } else {
                        self.records.push(record);
                        self.session.finish_record(AppendOutcome::Written)
                    };
                }
                AgentEffect::Emit(event) | AgentEffect::EmitLast(event) => {
                    self.events.push(event);
                    stimulus = AgentStimulus::Emitted;
                }
                effect => return effect,
            }
        }
    }

    fn say(&mut self, prompt: &str) -> AgentEffect {
        self.hear(AgentStimulus::Command(AgentCommand::UserInput(prompt.to_string())))
    }

    fn answer(&mut self, content: Vec<ContentBlock>, stop_reason: StopReason) -> AgentEffect {
        self.hear(AgentStimulus::Streamed {
            answer: ModelTurn {
                message: Message { role: Role::Assistant, content },
                provider_cost: None,
                request_id: None,
                stop_reason,
                usage: None,
            },
            latency_ms: 5,
        })
    }

    fn prepared(&mut self, requirement: ApprovalRequirement) -> AgentEffect {
        self.hear(AgentStimulus::Prepared {
            available_lifetimes: vec![ApprovalLifetime::Invocation, ApprovalLifetime::Run],
            requirement,
        })
    }

    fn executed(&mut self, output: &str) -> AgentEffect {
        self.hear(AgentStimulus::Executed { duration_ms: 3, result: Ok(output.to_string()) })
    }

    fn projection(&self) -> SessionProjection {
        project_journal(&self.records).unwrap()
    }

    fn last_entry(&self) -> &JournalEntry {
        &self.records.last().unwrap().entry
    }

    fn kinds(&self) -> Vec<&'static str> {
        self.records
            .iter()
            .map(|record| match record.entry {
                JournalEntry::SessionStarted(_) => "session",
                JournalEntry::RunStarted(_) => "run",
                JournalEntry::TurnStarted(_) => "turn",
                JournalEntry::MessageAdded(_) => "message",
                JournalEntry::ProviderRoundStarted(_) => "round",
                JournalEntry::ProviderRoundCompleted(_) => "answered",
                JournalEntry::ProviderRoundFailed(_) => "round failed",
                JournalEntry::ProviderRoundCancelled(_) => "round cancelled",
                JournalEntry::ApprovalRequested(_) => "asked",
                JournalEntry::ApprovalDecided(_) => "decided",
                JournalEntry::ToolStarted(_) => "tool",
                JournalEntry::ToolCompleted(_) => "tool done",
                JournalEntry::ToolFailed(_) => "tool failed",
                JournalEntry::ToolCancelled(_) => "tool cancelled",
                JournalEntry::ToolRejected(_) => "tool rejected",
                JournalEntry::TurnCommitted(_) => "commit",
                JournalEntry::TurnAborted(_) => "abort",
                JournalEntry::RunEnded(_) => "end",
            })
            .collect()
    }
}

fn now() -> jiff::Timestamp {
    "2026-07-27T12:00:00.123Z".parse().unwrap()
}

fn text(words: &str) -> Vec<ContentBlock> {
    vec![ContentBlock::Text { text: words.to_string() }]
}

fn call(id: &str, name: &str) -> ContentBlock {
    ContentBlock::ToolUse {
        id: id.to_string(),
        name: name.to_string(),
        input: ToolInput::Valid(empty_object()),
    }
}

#[test]
fn a_text_turn_is_committed_and_projects_to_the_history() {
    let mut host = Host::start();

    let asked = host.say("hello");
    let idle = host.answer(text("hi"), StopReason::EndTurn);

    assert!(matches!(asked, AgentEffect::StreamMessage));
    assert!(matches!(idle, AgentEffect::AwaitInput));
    assert_eq!(
        host.kinds(),
        ["session", "run", "turn", "message", "round", "answered", "message", "commit"]
    );
    assert_eq!(host.projection().messages, *host.session.history());
    assert_eq!(host.session.history().len(), 2);
    assert!(matches!(
        host.events.last(),
        Some(AgentEvent::TurnComplete {
            outcome: TurnOutcome::Completed { stop_reason: StopReason::EndTurn }
        })
    ));
}

#[test]
fn a_failed_round_leaves_no_trace_in_the_history() {
    let mut host = Host::start();
    host.say("hello");

    let idle = host.hear(AgentStimulus::StreamFailed {
        error: ProviderError {
            kind: ProviderErrorKind::Api,
            message: "provider fell over".to_string(),
        },
        latency_ms: 9,
    });

    assert!(matches!(idle, AgentEffect::AwaitInput));
    assert!(host.session.history().is_empty());
    assert!(host.projection().messages.is_empty());
    assert_eq!(
        host.kinds(),
        ["session", "run", "turn", "message", "round", "round failed", "abort"]
    );
    assert!(matches!(&host.events[0], AgentEvent::Error(error) if error == "provider fell over"));
    assert!(matches!(
        &host.events[1],
        AgentEvent::TurnComplete { outcome: TurnOutcome::Failed }
    ));
}

#[test]
fn an_answer_that_is_not_accepted_aborts_the_turn_with_its_reason() {
    let mut host = Host::start();
    host.say("hello");

    host.answer(vec![call("call_1", "read_file")], StopReason::EndTurn);

    assert!(matches!(
        host.last_entry(),
        JournalEntry::TurnAborted(aborted) if aborted.outcome == TurnAbortOutcome::Failed {
            error: Some(ErrorDetail {
                category: "invalid_assistant_message".to_string(),
                message: "assistant tool calls do not agree with the provider stop reason"
                    .to_string(),
            }),
        }
    ));
}

#[test]
fn a_tool_turn_runs_the_tool_and_hands_its_result_to_the_model() {
    let mut host = Host::start();
    host.say("read it");

    let prepare = host.answer(vec![call("call_1", "read_file")], StopReason::ToolUse);
    let execute = host.prepared(ApprovalRequirement::NotRequired);
    let again = host.executed("contents");
    host.answer(text("it says contents"), StopReason::EndTurn);

    assert!(matches!(&prepare, AgentEffect::PrepareTool { name, .. } if name == "read_file"));
    assert!(matches!(execute, AgentEffect::ExecuteTool));
    assert!(matches!(again, AgentEffect::StreamMessage));
    assert_eq!(
        host.session.history()[2],
        Message {
            role: Role::User,
            content: vec![ContentBlock::ToolResult(ToolResultData {
                tool_use_id: "call_1".to_string(),
                is_error: false,
                content: "contents".to_string(),
            })],
        }
    );
    assert_eq!(host.projection().messages, *host.session.history());
}

#[test]
fn a_denied_call_is_not_started_and_its_reason_reaches_the_model() {
    let mut host = Host::start();
    host.say("write it");
    host.answer(vec![call("call_1", "write_file")], StopReason::ToolUse);

    let request = host.prepared(ApprovalRequirement::Required);
    let again = host.hear(AgentStimulus::Replied(ApprovalReply::Decided(
        ApprovalDecision::Deny { reason: "not now".to_string() },
    )));
    host.answer(text("understood"), StopReason::EndTurn);

    assert!(matches!(
        &request,
        AgentEffect::RequestApproval { available_lifetimes, subject, .. }
            if *subject == ApprovalSubject::tool_call("call_1", "write_file")
                && available_lifetimes == &[ApprovalLifetime::Invocation, ApprovalLifetime::Run]
    ));
    assert!(matches!(again, AgentEffect::StreamMessage));
    assert!(!host.kinds().contains(&"tool"));
    assert!(host.kinds().contains(&"tool rejected"));
    assert!(host.events.iter().any(
        |event| matches!(event, AgentEvent::ToolDenied { reason, .. } if reason == "not now")
    ));
    assert!(matches!(
        &host.session.history()[2].content[0],
        ContentBlock::ToolResult(result) if !result.is_error && result.content.contains("not now")
    ));
    assert_eq!(host.projection().messages, *host.session.history());
}

#[test]
fn a_grant_for_the_run_carries_over_to_later_turns() {
    let mut host = Host::start();
    host.say("write it");
    host.answer(vec![call("call_1", "write_file")], StopReason::ToolUse);
    host.prepared(ApprovalRequirement::Required);
    let grant = ApprovalSubject::tool_call("call_1", "write_file").grant(ApprovalLifetime::Run);
    host.hear(AgentStimulus::Replied(ApprovalReply::Decided(ApprovalDecision::Grant(grant))));
    host.executed("written");
    host.answer(text("done"), StopReason::EndTurn);

    host.say("again");
    host.answer(vec![call("call_2", "write_file")], StopReason::ToolUse);
    let second = host.prepared(ApprovalRequirement::Required);
    host.executed("written again");
    host.answer(text("done"), StopReason::EndTurn);

    assert!(matches!(second, AgentEffect::ExecuteTool));
    assert_eq!(host.projection().messages, *host.session.history());
    assert_eq!(host.kinds().iter().filter(|kind| **kind == "asked").count(), 1);
}

#[test]
fn a_grant_for_one_call_does_not_cover_the_next() {
    let mut host = Host::start();
    host.say("write it");
    host.answer(
        vec![call("call_1", "write_file"), call("call_2", "write_file")],
        StopReason::ToolUse,
    );
    host.prepared(ApprovalRequirement::Required);
    let grant =
        ApprovalSubject::tool_call("call_1", "write_file").grant(ApprovalLifetime::Invocation);
    let execute =
        host.hear(AgentStimulus::Replied(ApprovalReply::Decided(ApprovalDecision::Grant(grant))));
    let prepare = host.executed("written");

    let second = host.prepared(ApprovalRequirement::Required);

    assert!(matches!(execute, AgentEffect::ExecuteTool));
    assert!(matches!(prepare, AgentEffect::PrepareTool { .. }));
    assert!(matches!(second, AgentEffect::RequestApproval { .. }));
}

#[test]
fn a_grant_that_was_not_offered_is_turned_down() {
    let mut host = Host::start();
    host.say("write it");
    host.answer(vec![call("call_1", "write_file")], StopReason::ToolUse);
    host.prepared(ApprovalRequirement::Required);
    let grant =
        ApprovalSubject::tool_call("call_1", "write_file").grant(ApprovalLifetime::Workspace);

    let again =
        host.hear(AgentStimulus::Replied(ApprovalReply::Decided(ApprovalDecision::Grant(grant))));

    assert!(matches!(again, AgentEffect::StreamMessage));
    assert!(matches!(
        &host.session.history()[2].content[0],
        ContentBlock::ToolResult(result) if result.is_error
            && result.content == "approval grant uses a lifetime that was not offered"
    ));
}

#[test]
fn every_call_gets_a_result_in_order() {
    let mut host = Host::start();
    host.say("do it all");
    let broken = ContentBlock::ToolUse {
        id: "call_1".to_string(),
        name: "read_file".to_string(),
        input: ToolInput::Invalid("{oops".to_string()),
    };
    host.answer(
        vec![broken, call("call_2", "missing"), call("call_3", "grep")],
        StopReason::ToolUse,
    );
    host.hear(AgentStimulus::NotPrepared { error: "unknown tool `missing`".to_string() });
    host.prepared(ApprovalRequirement::NotRequired);

    let again = host.hear(AgentStimulus::Executed {
        duration_ms: 1,
        result: Err(ToolExecutionError::ToolError("no matches".to_string())),
    });
    host.answer(text("sorry"), StopReason::EndTurn);

    assert!(matches!(again, AgentEffect::StreamMessage));
    let results: Vec<(String, bool, String)> = host.session.history()[2]
        .content
        .iter()
        .map(|block| match block {
            ContentBlock::ToolResult(result) => (
                result.tool_use_id.clone(),
                result.is_error,
                result.content.clone(),
            ),
            _ => unreachable!(),
        })
        .collect();
    assert_eq!(
        results,
        [
            (
                "call_1".to_string(),
                true,
                "invalid input for tool `read_file`: arguments are not valid JSON: {oops"
                    .to_string()
            ),
            ("call_2".to_string(), true, "unknown tool `missing`".to_string()),
            ("call_3".to_string(), true, "no matches".to_string()),
        ]
    );
    assert_eq!(host.projection().messages, *host.session.history());
}

#[test]
fn a_turn_pauses_after_its_rounds_and_the_next_one_starts_afresh() {
    let mut host = Host::start();
    let mut effect = host.say("start");
    for round in 0..MAX_PROVIDER_ROUNDS_PER_TURN {
        assert!(matches!(effect, AgentEffect::StreamMessage));
        host.answer(vec![call(&format!("call_{round}"), "grep")], StopReason::ToolUse);
        host.prepared(ApprovalRequirement::NotRequired);
        effect = host.executed("nothing");
    }

    assert!(matches!(effect, AgentEffect::AwaitInput));
    assert!(matches!(
        host.last_entry(),
        JournalEntry::TurnCommitted(committed)
            if matches!(committed.outcome, TurnCommitOutcome::Paused { .. })
    ));
    assert_eq!(host.session.history().len(), 1 + 2 * MAX_PROVIDER_ROUNDS_PER_TURN);
    assert_eq!(host.projection().messages, *host.session.history());
    assert!(matches!(host.say("Continue"), AgentEffect::StreamMessage));
}

#[test]
fn cancelling_an_approval_ends_the_turn_and_the_run() {
    let mut host = Host::start();
    host.say("write it");
    host.answer(vec![call("call_1", "write_file")], StopReason::ToolUse);
    host.prepared(ApprovalRequirement::Required);

    let finished = host.hear(AgentStimulus::Replied(ApprovalReply::Cancelled));

    assert!(matches!(finished, AgentEffect::Finish(Some(AgentExit::Cancelled))));
    assert!(host.kinds().ends_with(&["asked", "abort", "end"]));
    assert!(matches!(
        host.events.last(),
        Some(AgentEvent::TurnComplete { outcome: TurnOutcome::Cancelled })
    ));
    assert!(matches!(
        host.last_entry(),
        JournalEntry::RunEnded(ended) if ended.reason == RunEndReason::ActiveTurnCancelled
    ));
    assert!(host.projection().messages.is_empty());
}

#[test]
fn a_cancelled_tool_shows_no_result() {
    let mut host = Host::start();
    host.say("run it");
    host.answer(vec![call("call_1", "shell")], StopReason::ToolUse);
    host.prepared(ApprovalRequirement::NotRequired);

    let finished = host.hear(AgentStimulus::Executed {
        duration_ms: 8,
        result: Err(ToolExecutionError::Cancelled),
    });

    assert!(matches!(finished, AgentEffect::Finish(Some(AgentExit::Cancelled))));
    assert!(host.kinds().ends_with(&["tool", "tool cancelled", "abort", "end"]));
    assert!(!host
        .events
        .iter()
        .any(|event| matches!(event, AgentEvent::ToolFinished { .. })));
}

#[test]
fn a_frontend_that_leaves_while_a_tool_runs_ends_the_run() {
    let mut host = Host::start();
    host.say("run it");
    host.answer(vec![call("call_1", "shell")], StopReason::ToolUse);
    host.prepared(ApprovalRequirement::NotRequired);

    let finished = host.hear(AgentStimulus::Interrupted { disconnected: true, duration_ms: 8 });

    assert!(matches!(finished, AgentEffect::Finish(Some(AgentExit::Disconnected))));
    assert!(host.kinds().ends_with(&["tool", "tool cancelled", "abort", "end"]));
    assert!(matches!(
        host.last_entry(),
        JournalEntry::RunEnded(ended) if ended.reason == RunEndReason::FrontendDisconnected
    ));
}

#[test]
fn a_frontend_that_leaves_while_the_model_speaks_ends_the_run() {
    let mut host = Host::start();
    host.say("hello");

    let finished = host.hear(AgentStimulus::FrontendClosed);

    assert!(matches!(finished, AgentEffect::Finish(Some(AgentExit::Disconnected))));
    assert!(host.kinds().ends_with(&["round", "abort", "end"]));
    assert!(host.projection().messages.is_empty());
}

#[test]
fn an_idle_run_ends_as_it_is_asked_to() {
    let cases = [
        (
            AgentStimulus::Command(AgentCommand::Shutdown(ShutdownReason::UserQuit)),
            RunEndReason::UserQuit,
            None,
        ),
        (
            AgentStimulus::Command(AgentCommand::Shutdown(ShutdownReason::InputClosed)),
            RunEndReason::InputClosed,
            None,
        ),
        (AgentStimulus::Cancelled, RunEndReason::IdleCancelled, None),
        (
            AgentStimulus::CommandsClosed,
            RunEndReason::FrontendDisconnected,
            Some(AgentExit::Disconnected),
        ),
    ];

    for (stimulus, reason, exit) in cases {
        let mut host = Host::start();
        let finished = host.hear(stimulus);
        assert!(matches!(finished, AgentEffect::Finish(found) if found == exit));
        assert!(matches!(
            host.last_entry(),
            JournalEntry::RunEnded(ended) if ended.reason == reason
        ));
        assert!(host.events.is_empty());
    }
}

#[test]
fn a_journal_that_fails_before_a_tool_starts_stops_the_run() {
    let mut host = Host::start();
    host.say("run it");
    host.answer(vec![call("call_1", "shell")], StopReason::ToolUse);
    host.failing_writes = true;

    let finished = host.prepared(ApprovalRequirement::NotRequired);

    assert!(matches!(
        finished,
        AgentEffect::Finish(Some(AgentExit::JournalFailed(message)))
            if message == "failed to flush session journal '/sessions/sess_00000000000000000000000001.jsonl': disk full"
    ));
    assert!(matches!(
        host.events.last(),
        Some(AgentEvent::Error(error)) if error.starts_with("session journal failed: failed to flush")
    ));
    assert!(!host.kinds().contains(&"tool"));
}

#[test]
fn stimuli_out_of_turn_are_not_expected() {
    let mut host = Host::start();

    assert!(!host.session.expects(&AgentStimulus::Journaled));
    host.say("hello");
    assert!(!host.session.expects(&AgentStimulus::Cancelled));
    assert!(host.session.expects(&AgentStimulus::FrontendClosed));
}
