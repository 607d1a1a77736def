use cane::journal::id::{
    ApprovalId, IdParseError, ProviderRoundId, RunId, SessionId, TurnId, UlidError,
};
use cane::journal::lifecycle::{ProjectionWarning, RecordedDecision};
use cane::journal::projector::{
    authorize_tool_start, project_journal, ApprovalState, RunApproval, TurnState,
};
use cane::journal::reader::{journal_lines, parse_journal, JournalReadError};
use cane::journal::schema::{
    legacy_approval_lifetimes, ErrorDetail, JournalEntry, JournalRecord, MessageAdded,
    ProviderRoundCompleted, ProviderRoundFailed, ProviderRoundStarted, RunEndReason, RunEnded,
    RunStarted, SessionStarted, ToolAuthorization, ToolCompleted, ToolRejected, ToolStarted,
    TurnAbortOutcome, TurnAborted, TurnCommitOutcome, TurnCommitted, TurnStarted,
    JOURNAL_SCHEMA_VERSION,
};
use cane::journal::writer::{
    frame_record, journal_path, AppendOutcome, JournalError, SessionJournal,
};
use cane::message::{ContentBlock, Message, Role, StopReason, ToolInput, ToolResultData};
use cane::path::HostPath;
use cane::protocol::ApprovalLifetime;
use cane::provider::{ProviderAdapter, ProviderDescriptor};

fn session_id() -> SessionId {
    SessionId::parse("sess_01ARZ3NDEKTSV4RRFFQ69G5FAV").unwrap()
}

fn run_id() -> RunId {
    RunId::parse("run_01ARZ3NDEKTSV4RRFFQ69G5FAW").unwrap()
}

fn turn_id() -> TurnId {
    TurnId::parse("turn_01ARZ3NDEKTSV4RRFFQ69G5FAX").unwrap()
}

fn round_id() -> ProviderRoundId {
    ProviderRoundId::parse("round_01ARZ3NDEKTSV4RRFFQ69G5FAY").unwrap()
}

fn recorded_at() -> jiff::Timestamp {
    "2026-07-27T12:00:00.123Z".parse().unwrap()
}

fn record(sequence: u64, entry: JournalEntry) -> JournalRecord {
    JournalRecord::new(sequence, recorded_at(), session_id(), entry)
}

fn records(entries: Vec<JournalEntry>) -> Vec<JournalRecord> {
    entries
        .into_iter()
        .enumerate()
        .map(|(index, entry)| record((index + 1) as u64, entry))
        .collect()
}

fn session_started() -> JournalEntry {
    JournalEntry::SessionStarted(SessionStarted {
        cane_version: "0.1.0".to_string(),
        instructions: "Be helpful.".to_string(),
        workspace: "/workspace".to_string(),
    })
}

fn provider() -> ProviderDescriptor {
    ProviderDescriptor {
        adapter: ProviderAdapter::OpenAiCompatible,
        endpoint: "https://example.test/v1/chat/completions".to_string(),
    }
}

fn run_started() -> JournalEntry {
    JournalEntry::RunStarted(RunStarted {
        approval_grants: Vec::new(),
        git: None,
        max_output_tokens: 32_000,
        model: "test-model".to_string(),
        provider: provider(),
        run_id: run_id(),
        shell_policy: None,
        tool_catalog: Vec::new(),
    })
}

fn turn_started() -> JournalEntry {
    JournalEntry::TurnStarted(TurnStarted { run_id: run_id(), turn_id: turn_id() })
}

fn text(role: Role, text: &str) -> Message {
    Message { content: vec![ContentBlock::Text { text: text.to_string() }], role }
}

fn user_text(content: &str) -> Message {
    text(Role::User, content)
}

fn assistant_text(content: &str) -> Message {
    text(Role::Assistant, content)
}

fn message_added(message: Message) -> JournalEntry {
    JournalEntry::MessageAdded(MessageAdded { message, run_id: run_id(), turn_id: turn_id() })
}

fn provider_started() -> JournalEntry {
    JournalEntry::ProviderRoundStarted(ProviderRoundStarted {
        model: "test-model".to_string(),
        provider: provider(),
        provider_round_id: round_id(),
        run_id: run_id(),
        turn_id: turn_id(),
    })
}

fn completed_round(provider_round_id: ProviderRoundId, stop_reason: StopReason) -> JournalEntry {
    JournalEntry::ProviderRoundCompleted(ProviderRoundCompleted {
        latency_ms: 10,
        provider_cost: None,
        provider_round_id,
        request_id: None,
        run_id: run_id(),
        stop_reason,
        turn_id: turn_id(),
        usage: None,
    })
}

fn provider_completed(stop_reason: StopReason) -> JournalEntry {
    completed_round(round_id(), stop_reason)
}

fn run_ended() -> JournalEntry {
    JournalEntry::RunEnded(RunEnded { reason: RunEndReason::UserQuit, run_id: run_id() })
}

#[test]
fn a_committed_turn_projects_its_messages_and_session_instructions() {
    let user = user_text("Hello");
    let assistant = assistant_text("Hi");
    let journal = records(vec![
        session_started(),
        run_started(),
        turn_started(),
        message_added(user.clone()),
        provider_started(),
        provider_completed(StopReason::EndTurn),
        message_added(assistant.clone()),
        JournalEntry::TurnCommitted(TurnCommitted {
            outcome: TurnCommitOutcome::Completed { stop_reason: StopReason::EndTurn },
            turn_id: turn_id(),
        }),
        run_ended(),
    ]);

    let projection = project_journal(&journal).unwrap();

    assert_eq!(projection.instructions, "Be helpful.");
    assert_eq!(projection.messages, vec![user, assistant]);
    assert_eq!(projection.session_id, session_id());
    assert!(projection.warnings.is_empty());
}

#[test]
fn a_paused_tool_turn_projects_only_after_its_commit() {
    let user = user_text("Read Cargo.toml");
    let mut input = serde_json::Map::new();
    input.insert("path".to_string(), serde_json::Value::from("Cargo.toml"));
    let assistant = Message {
        content: vec![ContentBlock::ToolUse {
            id: "call-1".to_string(),
            input: ToolInput::Valid(serde_json::Value::Object(input)),
            name: "read_file".to_string(),
        }],
        role: Role::Assistant,
    };
    let result = Message {
        content: vec![ContentBlock::ToolResult(ToolResultData {
            content: "contents".to_string(),
            is_error: false,
            tool_use_id: "call-1".to_string(),
        })],
        role: Role::User,
    };
    let journal = records(vec![
        session_started(),
        run_started(),
        turn_started(),
        message_added(user.clone()),
        provider_started(),
        provider_completed(StopReason::ToolUse),
        message_added(assistant.clone()),
        JournalEntry::ToolStarted(ToolStarted {
            authorization: ToolAuthorization::NotRequired,
            execution: None,
            tool_call_id: "call-1".to_string(),
            tool_name: "read_file".to_string(),
            turn_id: turn_id(),
        }),
        JournalEntry::ToolCompleted(ToolCompleted {
            duration_ms: 5,
            execution: None,
            tool_call_id: "call-1".to_string(),
            turn_id: turn_id(),
        }),
        message_added(result.clone()),
        JournalEntry::TurnCommitted(TurnCommitted {
            outcome: TurnCommitOutcome::Paused { reason: "provider round limit".to_string() },
            turn_id: turn_id(),
        }),
        run_ended(),
    ]);

    let projection = project_journal(&journal).unwrap();

    assert_eq!(projection.messages, vec![user, assistant, result]);
    assert!(projection.warnings.is_empty());
}

#[test]
fn aborted_and_unterminated_turns_do_not_project_their_messages() {
    let aborted = records(vec![
        session_started(),
        run_started(),
        turn_started(),
        message_added(user_text("Do work")),
        provider_started(),
        JournalEntry::ProviderRoundFailed(ProviderRoundFailed {
            error: ErrorDetail {
                category: "provider".to_string(),
                message: "failed".to_string(),
            },
            latency_ms: 10,
            provider_round_id: round_id(),
            request_id: None,
            run_id: run_id(),
            turn_id: turn_id(),
        }),
        JournalEntry::TurnAborted(TurnAborted {
            outcome: TurnAbortOutcome::Failed { error: None },
            turn_id: turn_id(),
        }),
        run_ended(),
    ]);
    let unterminated = records(vec![
        session_started(),
        run_started(),
        turn_started(),
        message_added(user_text("Do unfinished work")),
    ]);

    let aborted_projection = project_journal(&aborted).unwrap();
    let unterminated_projection = project_journal(&unterminated).unwrap();

    assert!(aborted_projection.messages.is_empty());
    assert!(aborted_projection.warnings.is_empty());
    assert!(unterminated_projection.messages.is_empty());
    assert_eq!(
        unterminated_projection.warnings,
        vec![
            ProjectionWarning::UnterminatedTurn { turn_id: turn_id() },
            ProjectionWarning::UnterminatedRun { run_id: run_id() },
        ]
    );
}

#[test]
fn malformed_lifecycle_records_are_rejected() {
    let message_without_turn =
        records(vec![session_started(), run_started(), message_added(user_text("Hello"))]);
    let mismatched_provider_terminal = records(vec![
        session_started(),
        run_started(),
        turn_started(),
        message_added(user_text("Hello")),
        provider_started(),
        completed_round(
            ProviderRoundId::parse("round_01ARZ3NDEKTSV4RRFFQ69G5FAZ").unwrap(),
            StopReason::EndTurn,
        ),
    ]);

    let missing_turn_error = project_journal(&message_without_turn).unwrap_err();
    let provider_error = project_journal(&mismatched_provider_terminal).unwrap_err();

    assert_eq!(missing_turn_error.sequence, 3);
    assert!(missing_turn_error.detail.contains("active turn"));
    assert_eq!(provider_error.sequence, 6);
    assert!(provider_error.detail.contains("active round"));
    assert!(provider_error
        .describe()
        .starts_with("invalid journal lifecycle at sequence 6: "));
}

#[test]
fn run_approvals_cross_turns_but_one_time_approvals_remain_call_specific() {
    let approval_id = ApprovalId::parse("appr_01ARZ3NDEKTSV4RRFFQ69G5FAZ").unwrap();
    let run_approvals =
        vec![RunApproval { approval_id, tool_name: "write_file".to_string() }];
    let turn = TurnState {
        approvals: vec![ApprovalState {
            approval_id,
            decision: Some(RecordedDecision::AllowOnce),
            tool_call_id: "call-1".to_string(),
            tool_name: "write_file".to_string(),
        }],
        awaiting_assistant: None,
        id: turn_id(),
        last_assistant_stop: None,
        messages: Vec::new(),
        provider_round: None,
        provider_rounds: Vec::new(),
        tool_calls: Vec::new(),
    };

    let run_approval_result = authorize_tool_start(
        &run_approvals,
        &turn,
        &ToolAuthorization::ApprovedForRun { approval_id },
        "call-2",
        "write_file",
        1,
    );
    let reused_once_result = authorize_tool_start(
        &run_approvals,
        &turn,
        &ToolAuthorization::ApprovedOnce { approval_id },
        "call-2",
        "write_file",
        2,
    );

    assert!(run_approval_result.is_ok());
    assert!(reused_once_result.is_err());
}

fn set(object: &mut serde_json::Map<String, serde_json::Value>, key: &str, value: &str) {
    object.insert(key.to_string(), serde_json::Value::from(value));
}

/// The two kinds of records that these journals hold, as JSON.
fn record_value(record: &JournalRecord) -> serde_json::Value {
    let mut data = serde_json::Map::new();
    let mut object = serde_json::Map::new();
    match &record.entry {
        JournalEntry::SessionStarted(started) => {
            set(&mut object, "type", "session_started");
            set(&mut data, "cane_version", &started.cane_version);
            set(&mut data, "instructions", &started.instructions);
            set(&mut data, "workspace", &started.workspace);
        }
        JournalEntry::RunEnded(ended) => {
            set(&mut object, "type", "run_ended");
            set(&mut data, "run_id", &ended.run_id.to_text());
        }
        _ => unreachable!(),
    }
    object.insert("data".to_string(), serde_json::Value::Object(data));
    set(&mut object, "recorded_at", &record.recorded_at.to_string());
    object.insert("schema_version".to_string(), serde_json::Value::from(record.schema_version));
    object.insert("sequence".to_string(), serde_json::Value::from(record.sequence));
    set(&mut object, "session_id", &record.session_id.to_text());
    serde_json::Value::Object(object)
}

fn text_of(value: &serde_json::Value, key: &str) -> Result<String, String> {
    value[key].as_str().map(str::to_string).ok_or_else(|| format!("no {key}"))
}

fn decode(line: &Vec<u8>) -> Result<JournalRecord, String> {
    let value: serde_json::Value =
        serde_json::from_slice(line).map_err(|error| error.to_string())?;
    let data = &value["data"];
    let entry = match text_of(&value, "type")?.as_str() {
        "session_started" => JournalEntry::SessionStarted(SessionStarted {
            cane_version: text_of(data, "cane_version")?,
            instructions: text_of(data, "instructions")?,
            workspace: text_of(data, "workspace")?,
        }),
        _ => JournalEntry::RunEnded(RunEnded {
            reason: RunEndReason::UserQuit,
            run_id: RunId::parse(&text_of(data, "run_id")?).map_err(|error| error.describe())?,
        }),
    };
    Ok(JournalRecord {
        entry,
        recorded_at: text_of(&value, "recorded_at")?
            .parse()
            .map_err(|error: jiff::Error| error.to_string())?,
        schema_version: value["schema_version"].as_u64().ok_or("no version")? as u32,
        sequence: value["sequence"].as_u64().ok_or("no sequence")?,
        session_id: SessionId::parse(&text_of(&value, "session_id")?)
            .map_err(|error| error.describe())?,
    })
}

fn encode(records: &[JournalRecord]) -> Vec<u8> {
    let mut encoded = Vec::new();
    for record in records {
        encoded.extend(frame_record(serde_json::to_vec(&record_value(record)).unwrap()));
    }
    encoded
}

#[test]
fn parse_accepts_complete_contiguous_records() {
    let records = vec![record(1, session_started()), record(2, run_ended())];
    let encoded = encode(&records);

    let parsed = parse_journal(&encoded, decode).unwrap();

    assert_eq!(parsed, records);
}

#[test]
fn parse_rejects_an_unsupported_version_sequence_gap_and_session_mismatch() {
    let mut unsupported = record(1, session_started());
    unsupported.schema_version = JOURNAL_SCHEMA_VERSION + 1;

    let sequence_gap = vec![record(1, session_started()), record(3, session_started())];

    let mut mismatched = record(2, session_started());
    mismatched.session_id = SessionId::parse("sess_01ARZ3NDEKTSV4RRFFQ69G5FAW").unwrap();
    let mismatched = vec![record(1, session_started()), mismatched];

    let unsupported_error = parse_journal(&encode(&[unsupported]), decode).unwrap_err();
    let sequence_error = parse_journal(&encode(&sequence_gap), decode).unwrap_err();
    let mismatch_error = parse_journal(&encode(&mismatched), decode).unwrap_err();

    assert!(matches!(
        unsupported_error,
        JournalReadError::UnsupportedVersion { line: 1, .. }
    ));
    assert!(matches!(
        sequence_error,
        JournalReadError::SequenceGap { expected: 2, actual: 3, line: 2 }
    ));
    assert!(matches!(
        mismatch_error,
        JournalReadError::MismatchedSession { line: 2, .. }
    ));
}

#[test]
fn parse_rejects_malformed_complete_lines_and_unterminated_tails() {
    let malformed = b"{not json}\n";
    let unterminated = b"{\"otherwise\":\"valid\"}";
    let mut invalid_timestamp = record_value(&record(1, session_started()));
    invalid_timestamp["recorded_at"] = serde_json::Value::from("not-a-timestamp");
    let mut invalid_timestamp = serde_json::to_vec(&invalid_timestamp).unwrap();
    invalid_timestamp.push(b'\n');

    let malformed_error = parse_journal(malformed, decode).unwrap_err();
    let unterminated_error = parse_journal(unterminated, decode).unwrap_err();
    let timestamp_error = parse_journal(&invalid_timestamp, decode).unwrap_err();

    assert!(matches!(
        malformed_error,
        JournalReadError::MalformedLine { line: 1, .. }
    ));
    assert!(matches!(unterminated_error, JournalReadError::UnterminatedTail));
    assert!(matches!(
        timestamp_error,
        JournalReadError::MalformedLine { line: 1, .. }
    ));
}

#[test]
fn parse_requires_session_started_as_the_first_record() {
    let encoded = encode(&[record(1, run_ended())]);

    let error = parse_journal(&encoded, decode).unwrap_err();

    assert!(matches!(error, JournalReadError::InvalidFirstRecord));
}

#[test]
fn parse_rejects_an_empty_journal() {
    let encoded = [];

    let error = parse_journal(&encoded, decode).unwrap_err();

    assert!(matches!(error, JournalReadError::Empty));
}

#[test]
fn journal_lines_lose_their_line_feeds_alone() {
    assert_eq!(
        journal_lines(b"a\n\n b\r\n").unwrap(),
        [b"a".to_vec(), b"".to_vec(), b" b\r".to_vec()]
    );
}

#[test]
fn prefixed_ids_reject_the_wrong_domain_and_invalid_ulids() {
    let wrong_domain = "run_01ARZ3NDEKTSV4RRFFQ69G5FAV";
    let invalid_ulid = "sess_not-a-ulid";

    let wrong_domain_error = wrong_domain.parse::<SessionId>().unwrap_err();
    let invalid_ulid_error = invalid_ulid.parse::<SessionId>().unwrap_err();

    assert!(matches!(
        wrong_domain_error,
        IdParseError::InvalidPrefix { expected_prefix: "sess_", .. }
    ));
    assert!(matches!(invalid_ulid_error, IdParseError::InvalidUlid { .. }));
}

#[test]
fn generated_ids_use_the_domain_prefix_and_round_trip() {
    let generated = ApprovalId::generate();

    let serialized = serde_json::to_string(&generated.to_text()).unwrap();
    let unserialized: String = serde_json::from_str(&serialized).unwrap();

    assert!(serialized.starts_with("\"appr_"));
    assert_eq!(unserialized.parse::<ApprovalId>(), Ok(generated));
}

#[test]
fn ids_are_written_as_their_ulid() {
    let id = TurnId::from_ulid(0x0156_3E3A_B5D3_D676_4C61_EFB9_9302_BD5B);

    assert_eq!(id.to_text(), "turn_01ARZ3NDEKTSV4RRFFQ69G5FAV");
    assert_eq!(TurnId::parse("turn_01ARZ3NDEKTSV4RRFFQ69G5FAV"), Ok(id));
    assert_eq!(RunId::from_ulid(0).to_text(), "run_00000000000000000000000000");
}

#[test]
fn broken_ids_say_what_is_wrong() {
    assert_eq!(
        SessionId::parse("run_1").unwrap_err().describe(),
        "ID 'run_1' must start with 'sess_'"
    );
    assert!(matches!(
        RunId::parse("run_1"),
        Err(IdParseError::InvalidUlid { source: UlidError::InvalidLength, .. })
    ));
    assert!(matches!(
        RunId::parse("run_U1ARZ3NDEKTSV4RRFFQ69G5FAV"),
        Err(IdParseError::InvalidUlid { source: UlidError::InvalidChar, .. })
    ));
}

fn sessions() -> HostPath {
    HostPath::from_text("/home/.cane/sessions")
}

#[test]
fn a_session_has_its_journal_in_the_sessions_directory() {
    assert_eq!(
        journal_path(&sessions(), session_id()),
        HostPath::from_text("/home/.cane/sessions/sess_01ARZ3NDEKTSV4RRFFQ69G5FAV.jsonl")
    );
}

#[test]
fn append_assigns_contiguous_sequences_while_the_writer_is_live() {
    let mut journal = SessionJournal::create(&sessions(), session_id());

    let first = journal.prepare(recorded_at(), session_started()).unwrap();
    assert_eq!(journal.finish(AppendOutcome::Written), Ok(()));
    let second = journal.prepare(recorded_at(), run_ended()).unwrap();
    assert_eq!(journal.finish(AppendOutcome::Written), Ok(()));

    assert_eq!(first, record(1, session_started()));
    assert_eq!(second, record(2, run_ended()));
    assert_eq!(parse_journal(&encode(&[first, second]), decode).unwrap().len(), 2);
}

#[test]
fn a_failed_flush_poisons_the_writer_against_retries() {
    let mut journal = SessionJournal::create(&sessions(), session_id());
    let path = journal.path().clone();

    let failure = journal.finish(AppendOutcome::NotFlushed { source: "disk full".to_string() });
    let retry = journal.prepare(recorded_at(), session_started());

    assert_eq!(
        failure,
        Err(JournalError::Io {
            operation: "flush session journal",
            path: path.clone(),
            source: "disk full".to_string(),
        })
    );
    assert_eq!(retry, Err(JournalError::Unusable { path: path.clone() }));
    assert_eq!(
        journal.finish(AppendOutcome::Written),
        Err(JournalError::Unusable { path })
    );
}

#[test]
fn every_failed_write_names_its_step() {
    let mut unserialized = SessionJournal::create(&sessions(), session_id());
    let mut unwritten = SessionJournal::create(&sessions(), session_id());

    assert!(matches!(
        unserialized.finish(AppendOutcome::NotSerialized { source: "nan".to_string() }),
        Err(JournalError::Serialize { .. })
    ));
    assert!(matches!(
        unwritten.finish(AppendOutcome::NotWritten { source: "gone".to_string() }),
        Err(JournalError::Io { operation: "append to session journal", .. })
    ));
}

#[test]
fn requests_without_lifetimes_offer_the_invocation_and_the_run() {
    assert_eq!(
        legacy_approval_lifetimes(),
        [ApprovalLifetime::Invocation, ApprovalLifetime::Run]
    );
}

#[test]
fn every_kind_of_id_is_read_from_text() {
    let ulid = 0x0156_3E3A_B5D3_D676_4C61_EFB9_9302_BD5B;
    let text = "01ARZ3NDEKTSV4RRFFQ69G5FAV";

    assert_eq!(format!("sess_{text}").parse(), Ok(SessionId::from_ulid(ulid)));
    assert_eq!(format!("run_{text}").parse(), Ok(RunId::from_ulid(ulid)));
    assert_eq!(format!("turn_{text}").parse(), Ok(TurnId::from_ulid(ulid)));
    assert_eq!(format!("round_{text}").parse(), Ok(ProviderRoundId::from_ulid(ulid)));
    assert_eq!(format!("appr_{text}").parse(), Ok(ApprovalId::from_ulid(ulid)));
    assert!(matches!(
        format!("turn_{text}").parse::<RunId>(),
        Err(IdParseError::InvalidPrefix { expected_prefix: "run_", .. })
    ));
    assert!(matches!(
        "appr_0".parse::<ApprovalId>(),
        Err(IdParseError::InvalidUlid { .. })
    ));
}

#[test]
fn framed_lines_are_the_lines_that_are_read() {
    let lines = [b"{}".to_vec(), b"".to_vec(), b"a b".to_vec()];
    let bytes: Vec<u8> = lines.iter().cloned().flat_map(frame_record).collect();

    assert_eq!(bytes, b"{}\n\na b\n");
    assert_eq!(journal_lines(&bytes).unwrap(), lines);
}

#[test]
fn a_journal_without_the_end_of_its_last_line_is_refused() {
    let records = records(vec![session_started(), session_started()]);
    let encoded = encode(&records);
    let torn = encoded.len() - encode(&records[1..]).len() + 1..encoded.len();

    assert_eq!(parse_journal(&encoded, decode).unwrap(), records);
    for kept in torn {
        assert_eq!(
            parse_journal(&encoded[..kept], decode),
            Err(JournalReadError::UnterminatedTail)
        );
    }
}

#[test]
fn a_copied_record_is_the_same_record() {
    let record = record(3, session_started());

    assert_eq!(record.clone(), record);
}

#[test]
fn ulids_are_numbers_to_the_base_of_32() {
    let read = |text: &str| format!("run_{text}").parse::<RunId>();

    assert_eq!(read("0000000000000000000000000z"), Ok(RunId::from_ulid(31)));
    assert_eq!(read("00000000000000000000000010"), Ok(RunId::from_ulid(32)));
    assert_eq!(read("000000000000000000HJKMNPTV"), {
        let digits = [17_u128, 18, 19, 20, 21, 22, 26, 27];
        Ok(RunId::from_ulid(digits.iter().fold(0, |value, digit| value * 32 + digit)))
    });
    assert_eq!(read("7ZZZZZZZZZZZZZZZZZZZZZZZZZ"), Ok(RunId::from_ulid(u128::MAX)));
    assert_eq!(read("ZZZZZZZZZZZZZZZZZZZZZZZZZZ"), Ok(RunId::from_ulid(u128::MAX)));
    assert_eq!(read("80000000000000000000000001"), Ok(RunId::from_ulid(1)));
    assert_eq!(
        RunId::from_ulid(u128::MAX).to_text(),
        "run_7ZZZZZZZZZZZZZZZZZZZZZZZZZ"
    );
    assert!(matches!(
        read("0000000000000000000000000u"),
        Err(IdParseError::InvalidUlid { source: UlidError::InvalidChar, .. })
    ));
    assert!(matches!(
        read("é000000000000000000000000"),
        Err(IdParseError::InvalidUlid { source: UlidError::InvalidChar, .. })
    ));
}

fn rejected_call(id: &str) -> JournalEntry {
    JournalEntry::ToolRejected(ToolRejected {
        error_category: "approval_denied".to_string(),
        tool_call_id: id.to_string(),
        tool_name: "read_file".to_string(),
        turn_id: turn_id(),
    })
}

fn two_call_journal(answered: &[&str]) -> Vec<JournalRecord> {
    let calls = ["call-1", "call-2"].map(|id| ContentBlock::ToolUse {
        id: id.to_string(),
        input: ToolInput::Valid(serde_json::Value::Null),
        name: "read_file".to_string(),
    });
    let results = answered
        .iter()
        .map(|id| {
            ContentBlock::ToolResult(ToolResultData {
                content: "denied".to_string(),
                is_error: true,
                tool_use_id: id.to_string(),
            })
        })
        .collect();
    records(vec![
        session_started(),
        run_started(),
        turn_started(),
        message_added(user_text("Read both")),
        provider_started(),
        provider_completed(StopReason::ToolUse),
        message_added(Message { content: calls.to_vec(), role: Role::Assistant }),
        rejected_call("call-1"),
        rejected_call("call-2"),
        message_added(Message { content: results, role: Role::User }),
        JournalEntry::TurnCommitted(TurnCommitted {
            outcome: TurnCommitOutcome::Paused { reason: "provider round limit".to_string() },
            turn_id: turn_id(),
        }),
    ])
}

#[test]
fn projected_calls_have_one_result_each() {
    let projection = project_journal(&two_call_journal(&["call-2", "call-1"])).unwrap();

    let answers: Vec<&str> = projection.messages[2]
        .content
        .iter()
        .map(|block| match block {
            ContentBlock::ToolResult(result) => result.tool_use_id.as_str(),
            _ => panic!("expected a tool result"),
        })
        .collect();
    assert_eq!(answers, ["call-2", "call-1"]);
    for answered in [
        &["call-1"][..],
        &["call-1", "call-1"],
        &["call-1", "call-2", "call-2"],
        &["call-1", "call-3"],
        &[],
    ] {
        assert!(project_journal(&two_call_journal(answered)).is_err());
    }
}

#[test]
fn copied_entries_are_the_same_entries() {
    for record in two_call_journal(&["call-1", "call-2"]) {
        assert_eq!(record.clone(), record);
        assert_eq!(record.entry.clone(), record.entry);
    }
}
