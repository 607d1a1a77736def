//! Reading a journal: its lines, and what every record of a journal must agree on.
use crate::bytes::{byte_views, split_on};
use crate::journal::id::{ulid_encoded, SessionId};
use crate::journal::schema::{JournalEntry, JournalRecord, JOURNAL_SCHEMA_VERSION};
use crate::text::{decimal, push_decimal};
use vstd::prelude::*;
use vstd::string::StringExecFns;

verus! {

/// Why bytes are not a journal.
#[allow(inconsistent_fields)]
#[derive(Debug, PartialEq, Eq)]
pub enum JournalReadError {
    Empty,
    InvalidFirstRecord,
    MalformedLine { line: usize, source: String },
    MismatchedSession {
        actual_session_id: SessionId,
        expected_session_id: SessionId,
        line: usize,
    },
    SequenceGap { actual: u64, expected: u64, line: usize },
    UnterminatedTail,
    UnsupportedVersion { actual: u32, line: usize, supported: u32 },
}

impl JournalReadError {
    /// The error in words.
    pub open spec fn words(self) -> Seq<char> {
        match self {
            JournalReadError::Empty => "session journal is empty"@,
            JournalReadError::InvalidFirstRecord =>
                "session journal does not begin with session_started"@,
            JournalReadError::MalformedLine { line, source } =>
                "malformed JSON on journal line "@ + decimal(line as nat) + ": "@ + source@,
            JournalReadError::MismatchedSession {
                actual_session_id,
                expected_session_id,
                line,
            } => "journal line "@ + decimal(line as nat) + " belongs to "@ + ("sess_"@
                + ulid_encoded(actual_session_id.ulid())) + ", expected "@ + ("sess_"@
                + ulid_encoded(expected_session_id.ulid())),
            JournalReadError::SequenceGap { actual, expected, line } => "journal line "@
                + decimal(line as nat) + " has sequence "@ + decimal(actual as nat)
                + ", expected "@ + decimal(expected as nat),
            JournalReadError::UnterminatedTail =>
                "session journal has a non-newline-terminated tail"@,
            JournalReadError::UnsupportedVersion { actual, line, supported } => "journal line "@
                + decimal(line as nat) + " uses unsupported schema version "@ + decimal(
                actual as nat,
            ) + "; this build supports "@ + decimal(supported as nat),
        }
    }

    /// The error in words.
    pub fn describe(&self) -> (words: String)
        ensures
            words@ == self.words(),
    {
        match self {
            JournalReadError::Empty => "session journal is empty".to_owned(),
            JournalReadError::InvalidFirstRecord =>
                "session journal does not begin with session_started".to_owned(),
            JournalReadError::MalformedLine { line, source } => {
                let mut words = "malformed JSON on journal line ".to_owned();
                push_decimal(&mut words, *line as u64);
                words.concat(": ").concat(source.as_str())
            },
            JournalReadError::MismatchedSession {
                actual_session_id,
                expected_session_id,
                line,
            } => {
                let mut words = "journal line ".to_owned();
                push_decimal(&mut words, *line as u64);
                words.concat(" belongs to ").concat(actual_session_id.to_text().as_str()).concat(
                    ", expected ",
                ).concat(expected_session_id.to_text().as_str())
            },
            JournalReadError::SequenceGap { actual, expected, line } => {
                let mut words = "journal line ".to_owned();
                push_decimal(&mut words, *line as u64);
                let mut words = words.concat(" has sequence ");
                push_decimal(&mut words, *actual);
                let mut words = words.concat(", expected ");
                push_decimal(&mut words, *expected);
                words
            },
            JournalReadError::UnterminatedTail =>
                "session journal has a non-newline-terminated tail".to_owned(),
            JournalReadError::UnsupportedVersion { actual, line, supported } => {
                let mut words = "journal line ".to_owned();
                push_decimal(&mut words, *line as u64);
                let mut words = words.concat(" uses unsupported schema version ");
                push_decimal(&mut words, *actual as u64);
                let mut words = words.concat("; this build supports ");
                push_decimal(&mut words, *supported as u64);
                words
            },
        }
    }
}

/// The lines of a journal, without their line feeds.
pub open spec fn lines_of(input: Seq<u8>) -> Seq<Seq<u8>> {
    split_on(input.drop_last(), 10)
}

/// Splits a journal into its lines, each of which a line feed must end.
pub fn journal_lines(input: &[u8]) -> (lines: Result<Vec<Vec<u8>>, JournalReadError>)
    ensures
        match lines {
            Ok(lines) => input@.len() > 0 && input@.last() == 10 && byte_views(lines@) == lines_of(
                input@,
            ),
            Err(JournalReadError::Empty) => input@.len() == 0,
            Err(JournalReadError::UnterminatedTail) => input@.len() > 0 && input@.last() != 10,
            Err(_) => false,
        },
{
    let length = input.len();
    if length == 0 {
        return Err(JournalReadError::Empty);
    }
    if input[length - 1] != 10 {
        return Err(JournalReadError::UnterminatedTail);
    }
    let ghost body = input@.drop_last();
    let mut lines: Vec<Vec<u8>> = Vec::new();
    let mut line: Vec<u8> = Vec::new();
    let mut index: usize = 0;
    assert(byte_views(lines@).push(line@) =~= split_on(body.take(0), 10));
    while index < length - 1
        invariant
            length == input@.len(),
            0 <= index < length,
            body == input@.drop_last(),
            byte_views(lines@).push(line@) == split_on(body.take(index as int), 10),
        decreases length - index,
    {
        let byte = input[index];
        let ghost here = body.take(index + 1);
        let ghost before = byte_views(lines@).push(line@);
        proof {
            assert(here.drop_last() =~= body.take(index as int));
            assert(here.last() == byte);
            assert(before.drop_last() =~= byte_views(lines@));
        }
        if byte == 10 {
            lines.push(line);
            line = Vec::new();
            assert(byte_views(lines@) =~= before);
            assert(byte_views(lines@).push(line@) =~= before.push(Seq::empty()));
        } else {
            line.push(byte);
        }
        index += 1;
    }
    assert(body.take(body.len() as int) =~= body);
    let ghost before = byte_views(lines@).push(line@);
    lines.push(line);
    assert(byte_views(lines@) =~= before);
    Ok(lines)
}

/// What is wrong with the line at `at`, if anything is: it does not decode, or its record has the
/// wrong version, the wrong sequence number or another session than the first.
pub open spec fn line_fault(
    decoded: Seq<Result<JournalRecord, String>>,
    at: int,
) -> Option<JournalReadError> {
    match decoded[at] {
        Err(source) => Some(JournalReadError::MalformedLine { line: (at + 1) as usize, source }),
        Ok(record) => if record.schema_version != JOURNAL_SCHEMA_VERSION {
            Some(
                JournalReadError::UnsupportedVersion {
                    actual: record.schema_version,
                    line: (at + 1) as usize,
                    supported: JOURNAL_SCHEMA_VERSION,
                },
            )
        } else if record.sequence != at + 1 {
            Some(
                JournalReadError::SequenceGap {
                    actual: record.sequence,
                    expected: (at + 1) as u64,
                    line: (at + 1) as usize,
                },
            )
        } else if record.session_id != decoded[0]->Ok_0.session_id {
            Some(
                JournalReadError::MismatchedSession {
                    actual_session_id: record.session_id,
                    expected_session_id: decoded[0]->Ok_0.session_id,
                    line: (at + 1) as usize,
                },
            )
        } else {
            None
        },
    }
}

/// The first `count` lines are without fault.
pub open spec fn faultless(decoded: Seq<Result<JournalRecord, String>>, count: int) -> bool {
    forall|i: int| 0 <= i < count ==> line_fault(decoded, i) is None
}

pub open spec fn starts_session(decoded: Seq<Result<JournalRecord, String>>) -> bool {
    decoded.len() > 0 && decoded[0] is Ok && decoded[0]->Ok_0.entry is SessionStarted
}

/// Whether `outcome` is what the decoded lines come to: the records, where every line is without
/// fault and the first starts the session, and otherwise the first fault.
pub open spec fn records_checked(
    decoded: Seq<Result<JournalRecord, String>>,
    outcome: Result<Vec<JournalRecord>, JournalReadError>,
) -> bool {
    match outcome {
        Ok(records) => {
            &&& faultless(decoded, decoded.len() as int)
            &&& starts_session(decoded)
            &&& records@.len() == decoded.len()
            &&& forall|i: int|
                0 <= i < decoded.len() ==> decoded[i] == Ok::<JournalRecord, String>(
                    #[trigger] records@[i],
                )
        },
        Err(error) => {
            ||| error is InvalidFirstRecord && faultless(decoded, decoded.len() as int)
                && !starts_session(decoded)
            ||| exists|i: int|
                0 <= i < decoded.len() && faultless(decoded, i) && #[trigger] line_fault(
                    decoded,
                    i,
                ) == Some(error)
        },
    }
}

/// Checks the decoded lines of a journal against each other.
pub fn check_records(decoded: Vec<Result<JournalRecord, String>>) -> (outcome: Result<
    Vec<JournalRecord>,
    JournalReadError,
>)
    ensures
        records_checked(decoded@, outcome),
{
    let ghost all = decoded@;
    let count = decoded.len();
    let mut records: Vec<JournalRecord> = Vec::new();
    let mut expected_session_id: Option<SessionId> = None;
    let mut index: usize = 0;
    for line in iterator: decoded
        invariant
            iterator.seq() == all,
            count == all.len(),
            index == iterator.index(),
            index == records@.len(),
            faultless(all, index as int),
            forall|i: int|
                0 <= i < index ==> all[i] == Ok::<JournalRecord, String>(#[trigger] records@[i]),
            expected_session_id == (if index == 0 {
                None
            } else {
                Some(all[0]->Ok_0.session_id)
            }),
    {
        assert(line == all[index as int]);
        let line_number: usize = index + 1;
        let expected_sequence: u64 = line_number as u64;
        let record = match line {
            Err(source) => {
                let error = JournalReadError::MalformedLine { line: line_number, source };
                assert(line_fault(all, index as int) == Some(error));
                return Err(error);
            },
            Ok(record) => record,
        };
        if record.schema_version != JOURNAL_SCHEMA_VERSION {
            let error = JournalReadError::UnsupportedVersion {
                actual: record.schema_version,
                line: line_number,
                supported: JOURNAL_SCHEMA_VERSION,
            };
            assert(line_fault(all, index as int) == Some(error));
            return Err(error);
        }
        if record.sequence != expected_sequence {
            let error = JournalReadError::SequenceGap {
                actual: record.sequence,
                expected: expected_sequence,
                line: line_number,
            };
            assert(line_fault(all, index as int) == Some(error));
            return Err(error);
        }
        match expected_session_id {
            Some(session_id) => {
                if record.session_id != session_id {
                    let error = JournalReadError::MismatchedSession {
                        actual_session_id: record.session_id,
                        expected_session_id: session_id,
                        line: line_number,
                    };
                    assert(line_fault(all, index as int) == Some(error));
                    return Err(error);
                }
            },
            None => {
                expected_session_id = Some(record.session_id);
            },
        }
        records.push(record);
        index += 1;
    }
    if records.len() == 0 {
        return Err(JournalReadError::InvalidFirstRecord);
    }
    match &records[0].entry {
        JournalEntry::SessionStarted(_) => {},
        _ => {
            return Err(JournalReadError::InvalidFirstRecord);
        },
    }
    Ok(records)
}

/// Whether `decoded` is what `decode` makes of each of the lines.
pub open spec fn lines_decoded<D: Fn(&Vec<u8>) -> Result<JournalRecord, String>>(
    decode: D,
    lines: Seq<Vec<u8>>,
    decoded: Seq<Result<JournalRecord, String>>,
) -> bool {
    &&& decoded.len() == lines.len()
    &&& forall|i: int|
        0 <= i < lines.len() ==> call_ensures(decode, (&lines[i],), #[trigger] decoded[i])
}

/// Whether `outcome` is what the bytes of a journal come to: they must end with a line feed, and
/// the records that their lines decode to must be without fault.
pub open spec fn journal_parsed<D: Fn(&Vec<u8>) -> Result<JournalRecord, String>>(
    input: Seq<u8>,
    decode: D,
    outcome: Result<Vec<JournalRecord>, JournalReadError>,
) -> bool {
    if input.len() == 0 {
        outcome == Err::<Vec<JournalRecord>, JournalReadError>(JournalReadError::Empty)
    } else if input.last() != 10 {
        outcome == Err::<Vec<JournalRecord>, JournalReadError>(JournalReadError::UnterminatedTail)
    } else {
        exists|lines: Seq<Vec<u8>>, decoded: Seq<Result<JournalRecord, String>>|
            byte_views(lines) == lines_of(input) && #[trigger] lines_decoded(
                decode,
                lines,
                decoded,
            ) && records_checked(decoded, outcome)
    }
}

/// Reads a journal, with `decode` to make a record out of each line: the lines are framed by line
/// feeds, and the records that they decode to are checked against each other.
pub fn parse_journal<D: Fn(&Vec<u8>) -> Result<JournalRecord, String>>(
    input: &[u8],
    decode: D,
) -> (outcome: Result<Vec<JournalRecord>, JournalReadError>)
    requires
        forall|line: &Vec<u8>| call_requires(decode, (line,)),
    ensures
        journal_parsed(input@, decode, outcome),
{
    let lines = match journal_lines(input) {
        Err(error) => {
            return Err(error);
        },
        Ok(lines) => lines,
    };
    let mut decoded: Vec<Result<JournalRecord, String>> = Vec::new();
    let mut index: usize = 0;
    while index < lines.len()
        invariant
            index <= lines.len(),
            decoded@.len() == index,
            forall|line: &Vec<u8>| call_requires(decode, (line,)),
            forall|i: int|
                0 <= i < index ==> call_ensures(decode, (&lines@[i],), #[trigger] decoded@[i]),
        decreases lines.len() - index,
    {
        decoded.push(decode(&lines[index]));
        index += 1;
    }
    assert(lines_decoded(decode, lines@, decoded@));
    check_records(decoded)
}

/// A journal is read exactly where every line decodes to a record of the first version of the
/// schema, the records are numbered from one on without a gap, all belong to one session, and the
/// first starts it. What is read are the records, in order.
pub proof fn sound_journals_are_read(
    decoded: Seq<Result<JournalRecord, String>>,
    outcome: Result<Vec<JournalRecord>, JournalReadError>,
)
    requires
        records_checked(decoded, outcome),
    ensures
        outcome is Ok <==> {
            &&& decoded.len() > 0
            &&& forall|i: int| 0 <= i < decoded.len() ==> (#[trigger] decoded[i]) is Ok
            &&& forall|i: int|
                0 <= i < decoded.len() ==> {
                    let record = (#[trigger] decoded[i])->Ok_0;
                    &&& record.schema_version == 1
                    &&& record.sequence == i + 1
                    &&& record.session_id == decoded[0]->Ok_0.session_id
                }
            &&& decoded[0]->Ok_0.entry is SessionStarted
        },
        outcome matches Ok(records) ==> records@.len() == decoded.len() && forall|i: int|
            0 <= i < decoded.len() ==> decoded[i]->Ok_0 == #[trigger] records@[i],
{
    if outcome is Ok {
        assert forall|i: int| 0 <= i < decoded.len() implies (#[trigger] decoded[i]) is Ok && {
            let record = decoded[i]->Ok_0;
            &&& record.schema_version == 1
            &&& record.sequence == i + 1
            &&& record.session_id == decoded[0]->Ok_0.session_id
        } by {
            assert(line_fault(decoded, i) is None);
        }
    }
}

/// The first line with which something is wrong is the one that is named.
pub proof fn the_first_fault_is_named(
    decoded: Seq<Result<JournalRecord, String>>,
    outcome: Result<Vec<JournalRecord>, JournalReadError>,
    at: int,
)
    requires
        records_checked(decoded, outcome),
        0 <= at < decoded.len() < u64::MAX,
        decoded.len() <= usize::MAX,
        faultless(decoded, at),
        line_fault(decoded, at) is Some,
    ensures
        outcome is Err,
        decoded[at] matches Err(source) ==> outcome->Err_0 == (JournalReadError::MalformedLine {
            line: (at + 1) as usize,
            source,
        }),
        decoded[at] matches Ok(record) ==> {
            let first = decoded[0]->Ok_0.session_id;
            &&& record.schema_version != 1 ==> outcome->Err_0 == (
            JournalReadError::UnsupportedVersion {
                actual: record.schema_version,
                line: (at + 1) as usize,
                supported: 1,
            })
            &&& record.schema_version == 1 && record.sequence != at + 1 ==> outcome->Err_0 == (
            JournalReadError::SequenceGap {
                actual: record.sequence,
                expected: (at + 1) as u64,
                line: (at + 1) as usize,
            })
            &&& record.schema_version == 1 && record.sequence == at + 1 ==> outcome->Err_0 == (
            JournalReadError::MismatchedSession {
                actual_session_id: record.session_id,
                expected_session_id: first,
                line: (at + 1) as usize,
            })
        },
{
    if outcome is Err {
        let error = outcome->Err_0;
        if exists|i: int|
            0 <= i < decoded.len() && faultless(decoded, i) && #[trigger] line_fault(decoded, i)
                == Some(error) {
            let i = choose|i: int|
                0 <= i < decoded.len() && faultless(decoded, i) && #[trigger] line_fault(
                    decoded,
                    i,
                ) == Some(error);
            assert(i == at) by {
                if i < at {
                    assert(line_fault(decoded, i) is None);
                } else if at < i {
                    assert(line_fault(decoded, at) is None);
                }
            }
        }
    }
}

} // verus!
