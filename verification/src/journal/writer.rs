//! Writing a journal: which record comes next, how it is framed, and what a failure means.
use crate::bytes::{byte_views, split_on};
use crate::journal::id::{ulid_encoded, SessionId};
use crate::journal::reader::{
    journal_parsed, line_fault, lines_decoded, lines_of, records_checked, JournalReadError,
};
use crate::journal::schema::{JournalEntry, JournalRecord, JOURNAL_SCHEMA_VERSION};
use crate::path::{joined_path, HostPath};
use crate::text::readable;
use jiff::Timestamp;
use vstd::prelude::*;
use vstd::string::StringExecFns;
use vstd::utf8::encode_utf8;

verus! {

/// The permissions of the directory that holds the journals.
pub const DIRECTORY_MODE: u32 = 448;

/// The permissions of a journal.
pub const FILE_MODE: u32 = 384;

/// Why a record could not be written.
#[derive(Debug, PartialEq, Eq)]
pub enum JournalError {
    Io { operation: &'static str, path: HostPath, source: String },
    Serialize { path: HostPath, source: String },
    /// An earlier write failed, and what the file holds is no longer known.
    Unusable { path: HostPath },
}

impl JournalError {
    /// The error in words.
    pub open spec fn words(self) -> Seq<char> {
        match self {
            JournalError::Io { operation, path, source } => "failed to "@ + operation@ + " '"@
                + readable(path@) + "': "@ + source@,
            JournalError::Serialize { path, source } => "failed to serialize session journal '"@
                + readable(path@) + "': "@ + source@,
            JournalError::Unusable { path } => "session journal '"@ + readable(path@)
                + "' is unusable after an earlier write failure"@,
        }
    }

    /// The error in words.
    pub fn describe(&self) -> (words: String)
        ensures
            words@ == self.words(),
    {
        match self {
            JournalError::Io { operation, path, source } => "failed to ".to_owned().concat(
                operation,
            ).concat(" '").concat(path.display().as_str()).concat("': ").concat(source.as_str()),
            JournalError::Serialize { path, source } =>
                "failed to serialize session journal '".to_owned().concat(
                    path.display().as_str(),
                ).concat("': ").concat(source.as_str()),
            JournalError::Unusable { path } => "session journal '".to_owned().concat(
                path.display().as_str(),
            ).concat("' is unusable after an earlier write failure"),
        }
    }
}

/// Where the journal of a session lies.
pub open spec fn journal_location(sessions_directory: Seq<u8>, session_id: SessionId) -> Seq<u8> {
    joined_path(
        sessions_directory,
        encode_utf8("sess_"@ + ulid_encoded(session_id.ulid()) + ".jsonl"@),
    )
}

pub fn journal_path(sessions_directory: &HostPath, session_id: SessionId) -> (path: HostPath)
    ensures
        path@ == journal_location(sessions_directory@, session_id),
{
    let name = session_id.to_text().concat(".jsonl");
    sessions_directory.join(&HostPath::from_text(name.as_str()))
}

/// How writing one record went.
#[derive(Debug, PartialEq, Eq)]
pub enum AppendOutcome {
    /// The record was written and flushed.
    Written,
    NotSerialized { source: String },
    NotWritten { source: String },
    NotFlushed { source: String },
}

pub struct JournalState {
    pub next_sequence: u64,
    pub path: Seq<u8>,
    pub poisoned: bool,
    pub session_id: SessionId,
}

/// The state of a journal that is being written.
pub struct SessionJournal {
    next_sequence: u64,
    path: HostPath,
    poisoned: bool,
    session_id: SessionId,
}

impl View for SessionJournal {
    type V = JournalState;

    closed spec fn view(&self) -> JournalState {
        JournalState {
            next_sequence: self.next_sequence,
            path: self.path@,
            poisoned: self.poisoned,
            session_id: self.session_id,
        }
    }
}

/// The journal right after its file was created.
pub open spec fn fresh_journal(sessions_directory: Seq<u8>, session_id: SessionId) -> JournalState {
    JournalState {
        next_sequence: 1,
        path: journal_location(sessions_directory, session_id),
        poisoned: false,
        session_id,
    }
}

/// The record that an entry becomes.
pub open spec fn next_record(
    state: JournalState,
    recorded_at: Timestamp,
    entry: JournalEntry,
) -> JournalRecord {
    JournalRecord {
        entry,
        recorded_at,
        schema_version: JOURNAL_SCHEMA_VERSION,
        sequence: state.next_sequence,
        session_id: state.session_id,
    }
}

/// The journal after an attempt to write the next record: it moves on where that succeeded, and
/// else cannot be used again.
pub open spec fn after_append(state: JournalState, outcome: AppendOutcome) -> JournalState {
    if state.poisoned {
        state
    } else if outcome is Written {
        JournalState { next_sequence: (state.next_sequence + 1) as u64, ..state }
    } else {
        JournalState { poisoned: true, ..state }
    }
}

/// Whether `finished` is what an attempt to write the next record comes to: nothing where it was
/// written, and else the step that failed.
pub open spec fn append_finished(
    state: JournalState,
    outcome: AppendOutcome,
    finished: Result<(), JournalError>,
) -> bool {
    match finished {
        Ok(_) => !state.poisoned && outcome is Written,
        Err(JournalError::Unusable { path }) => state.poisoned && path@ == state.path,
        Err(JournalError::Serialize { path, source }) => !state.poisoned && path@ == state.path
            && outcome == (AppendOutcome::NotSerialized { source }),
        Err(JournalError::Io { operation, path, source }) => !state.poisoned && path@
            == state.path && (outcome == (AppendOutcome::NotWritten { source }) && operation@
            == "append to session journal"@ || outcome == (AppendOutcome::NotFlushed { source })
            && operation@ == "flush session journal"@),
    }
}

impl SessionJournal {
    /// The state of the journal of a session, whose file was just created.
    pub fn create(sessions_directory: &HostPath, session_id: SessionId) -> (journal: Self)
        ensures
            journal@ == fresh_journal(sessions_directory@, session_id),
    {
        SessionJournal {
            next_sequence: 1,
            path: journal_path(sessions_directory, session_id),
            poisoned: false,
            session_id,
        }
    }

    pub fn path(&self) -> (path: &HostPath)
        ensures
            path@ == self@.path,
    {
        &self.path
    }

    pub fn session_id(&self) -> (session_id: &SessionId)
        ensures
            *session_id == self@.session_id,
    {
        &self.session_id
    }

    /// The record to write next. A journal on which a write failed takes no more.
    pub fn prepare(&self, recorded_at: Timestamp, entry: JournalEntry) -> (prepared: Result<
        JournalRecord,
        JournalError,
    >)
        ensures
            match prepared {
                Ok(record) => !self@.poisoned && record == next_record(self@, recorded_at, entry),
                Err(error) => self@.poisoned && match error {
                    JournalError::Unusable { path } => path@ == self@.path,
                    _ => false,
                },
            },
    {
        if self.poisoned {
            return Err(JournalError::Unusable { path: self.path.clone() });
        }
        Ok(JournalRecord::new(self.next_sequence, recorded_at, self.session_id, entry))
    }

    /// Takes note of how writing the prepared record went.
    pub fn finish(&mut self, outcome: AppendOutcome) -> (finished: Result<(), JournalError>)
        requires
            outcome is Written ==> old(self)@.next_sequence < u64::MAX,
        ensures
            final(self)@ == after_append(old(self)@, outcome),
            append_finished(old(self)@, outcome, finished),
    {
        if self.poisoned {
            return Err(JournalError::Unusable { path: self.path.clone() });
        }
        match outcome {
            AppendOutcome::Written => {
                self.next_sequence = self.next_sequence + 1;
                Ok(())
            },
            AppendOutcome::NotSerialized { source } => {
                self.poisoned = true;
                Err(JournalError::Serialize { path: self.path.clone(), source })
            },
            AppendOutcome::NotWritten { source } => {
                self.poisoned = true;
                Err(
                    JournalError::Io {
                        operation: "append to session journal",
                        path: self.path.clone(),
                        source,
                    },
                )
            },
            AppendOutcome::NotFlushed { source } => {
                self.poisoned = true;
                Err(
                    JournalError::Io {
                        operation: "flush session journal",
                        path: self.path.clone(),
                        source,
                    },
                )
            },
        }
    }
}

/// The bytes of one record as they stand in the file: a line feed ends them.
pub fn frame_record(encoded: Vec<u8>) -> (framed: Vec<u8>)
    ensures
        framed@ == encoded@.push(10),
{
    let mut framed = encoded;
    framed.push(10);
    framed
}

/// A journal after `count` records were written, one after the other.
pub open spec fn after_written(state: JournalState, count: nat) -> JournalState
    decreases count,
{
    if count == 0 {
        state
    } else {
        after_append(after_written(state, (count - 1) as nat), AppendOutcome::Written)
    }
}

/// The records that entries become when they are written one after the other.
pub open spec fn written_records(
    state: JournalState,
    entries: Seq<(Timestamp, JournalEntry)>,
) -> Seq<JournalRecord> {
    Seq::new(
        entries.len(),
        |i: int| next_record(after_written(state, i as nat), entries[i].0, entries[i].1),
    )
}

proof fn lemma_written(state: JournalState, count: nat)
    requires
        !state.poisoned,
        state.next_sequence + count <= u64::MAX,
    ensures
        after_written(state, count) == (JournalState {
            next_sequence: (state.next_sequence + count) as u64,
            ..state
        }),
    decreases count,
{
    if count > 0 {
        lemma_written(state, (count - 1) as nat);
    }
}

/// The bytes of a journal whose records are encoded so: each line is ended by a line feed.
pub open spec fn framed_lines(encoded: Seq<Seq<u8>>) -> Seq<u8>
    decreases encoded.len(),
{
    if encoded.len() == 0 {
        Seq::empty()
    } else {
        framed_lines(encoded.drop_last()) + encoded.last().push(10)
    }
}

/// No line holds a line feed.
pub open spec fn are_single_lines(encoded: Seq<Seq<u8>>) -> bool {
    forall|i: int| 0 <= i < encoded.len() ==> !(#[trigger] encoded[i]).contains(10)
}

proof fn lemma_split_framed(encoded: Seq<Seq<u8>>, tail: Seq<u8>)
    requires
        are_single_lines(encoded),
        !tail.contains(10),
    ensures
        split_on(framed_lines(encoded) + tail, 10) == encoded.push(tail),
    decreases encoded.len(), tail.len(),
{
    let whole = framed_lines(encoded) + tail;
    if tail.len() > 0 {
        let shorter = tail.drop_last();
        assert(tail.contains(tail.last()));
        lemma_split_framed(encoded, shorter);
        assert(whole.drop_last() =~= framed_lines(encoded) + shorter);
        assert(shorter.push(tail.last()) =~= tail);
        assert(encoded.push(shorter).drop_last() =~= encoded);
    } else if encoded.len() > 0 {
        let before = encoded.drop_last();
        assert(!encoded[encoded.len() - 1].contains(10));
        lemma_split_framed(before, encoded.last());
        assert(whole.drop_last() =~= framed_lines(before) + encoded.last());
        assert(before.push(encoded.last()) =~= encoded);
        assert(tail =~= Seq::empty());
    } else {
        assert(whole =~= Seq::empty());
        assert(tail =~= Seq::empty());
        assert(encoded.push(tail) =~= seq![Seq::empty()]);
    }
}

/// The lines that were framed are the lines that a reader finds.
pub proof fn framed_lines_come_back(encoded: Seq<Seq<u8>>)
    requires
        encoded.len() > 0,
        are_single_lines(encoded),
    ensures
        framed_lines(encoded).len() > 0,
        framed_lines(encoded).last() == 10,
        lines_of(framed_lines(encoded)) == encoded,
{
    let before = encoded.drop_last();
    assert(!encoded[encoded.len() - 1].contains(10));
    lemma_split_framed(before, encoded.last());
    assert(framed_lines(encoded).drop_last() =~= framed_lines(before) + encoded.last());
    assert(before.push(encoded.last()) =~= encoded);
}

/// A decoder gives each record back from the line that it was encoded to.
pub open spec fn decodes_back<D: Fn(&Vec<u8>) -> Result<JournalRecord, String>>(
    decode: D,
    encoded: Seq<Seq<u8>>,
    records: Seq<JournalRecord>,
) -> bool {
    forall|i: int, line: Vec<u8>, decoded: Result<JournalRecord, String>|
        0 <= i < encoded.len() && line@ == #[trigger] encoded[i] && #[trigger] call_ensures(
            decode,
            (&line,),
            decoded,
        ) ==> decoded == Ok::<JournalRecord, String>(records[i])
}

/// The records of one session, from its start on and without a gap.
pub open spec fn are_contiguous(records: Seq<JournalRecord>) -> bool {
    &&& records.len() > 0
    &&& records[0].entry is SessionStarted
    &&& forall|i: int|
        0 <= i < records.len() ==> (#[trigger] records[i]).schema_version == JOURNAL_SCHEMA_VERSION
            && records[i].sequence == i + 1 && records[i].session_id == records[0].session_id
}

/// A reader of the bytes of contiguous records gets exactly those records back.
pub proof fn contiguous_journals_are_readable<D: Fn(&Vec<u8>) -> Result<JournalRecord, String>>(
    records: Seq<JournalRecord>,
    encoded: Seq<Seq<u8>>,
    decode: D,
    read: Result<Vec<JournalRecord>, JournalReadError>,
)
    requires
        are_contiguous(records),
        encoded.len() == records.len(),
        are_single_lines(encoded),
        decodes_back(decode, encoded, records),
        journal_parsed(framed_lines(encoded), decode, read),
    ensures
        read is Ok,
        read->Ok_0@ == records,
{
    framed_lines_come_back(encoded);
    let (lines, decoded) = choose|
        lines: Seq<Vec<u8>>,
        decoded: Seq<Result<JournalRecord, String>>,
    |
        byte_views(lines) == lines_of(framed_lines(encoded)) && #[trigger] lines_decoded(
            decode,
            lines,
            decoded,
        ) && records_checked(decoded, read);
    assert(byte_views(lines).len() == lines.len());
    assert forall|i: int| 0 <= i < records.len() implies #[trigger] decoded[i] == Ok::<
        JournalRecord,
        String,
    >(records[i]) by {
        assert(byte_views(lines)[i] == lines[i]@);
        assert(lines[i]@ == encoded[i]);
        assert(call_ensures(decode, (&lines[i],), decoded[i]));
    }
    assert forall|i: int| 0 <= i < records.len() implies line_fault(decoded, i) is None by {
        assert(decoded[i] == Ok::<JournalRecord, String>(records[i]));
        assert(decoded[0] == Ok::<JournalRecord, String>(records[0]));
    }
    assert(decoded[0] == Ok::<JournalRecord, String>(records[0]));
    if read is Ok {
        assert forall|i: int| 0 <= i < records.len() implies read->Ok_0@[i] == records[i] by {
            assert(decoded[i] == Ok::<JournalRecord, String>(records[i]));
        }
        assert(read->Ok_0@ =~= records);
    }
}

/// The records of a journal are numbered from one without a gap, and a reader of its bytes gets
/// exactly those records back, where the first of them starts the session.
pub proof fn written_journals_are_readable<D: Fn(&Vec<u8>) -> Result<JournalRecord, String>>(
    sessions_directory: Seq<u8>,
    session_id: SessionId,
    entries: Seq<(Timestamp, JournalEntry)>,
    encoded: Seq<Seq<u8>>,
    decode: D,
    read: Result<Vec<JournalRecord>, JournalReadError>,
)
    requires
        0 < entries.len() < u64::MAX,
        entries[0].1 is SessionStarted,
        encoded.len() == entries.len(),
        are_single_lines(encoded),
        decodes_back(
            decode,
            encoded,
            written_records(fresh_journal(sessions_directory, session_id), entries),
        ),
        journal_parsed(framed_lines(encoded), decode, read),
    ensures
        forall|i: int|
            0 <= i < entries.len() ==> (#[trigger] written_records(
                fresh_journal(sessions_directory, session_id),
                entries,
            )[i]).sequence == i + 1,
        read is Ok,
        read->Ok_0@ == written_records(fresh_journal(sessions_directory, session_id), entries),
{
    let state = fresh_journal(sessions_directory, session_id);
    let records = written_records(state, entries);
    assert forall|i: int| 0 <= i < entries.len() implies (#[trigger] records[i]).sequence == i + 1
        && records[i].session_id == session_id && records[i].schema_version
        == JOURNAL_SCHEMA_VERSION by {
        lemma_written(state, i as nat);
    }
    assert(records[0].session_id == session_id);
    contiguous_journals_are_readable(records, encoded, decode, read);
}

/// A journal that lost the end of its last line is refused, whatever its lines decode to.
pub proof fn torn_journals_are_refused<D: Fn(&Vec<u8>) -> Result<JournalRecord, String>>(
    encoded: Seq<Seq<u8>>,
    decode: D,
    kept: int,
    read: Result<Vec<JournalRecord>, JournalReadError>,
)
    requires
        encoded.len() > 0,
        are_single_lines(encoded),
        0 < kept <= encoded.last().len(),
        journal_parsed(
            framed_lines(encoded.drop_last()) + encoded.last().take(kept),
            decode,
            read,
        ),
    ensures
        (framed_lines(encoded.drop_last()) + encoded.last().take(kept)).is_prefix_of(
            framed_lines(encoded),
        ),
        read == Err::<Vec<JournalRecord>, JournalReadError>(JournalReadError::UnterminatedTail),
{
    let torn = framed_lines(encoded.drop_last()) + encoded.last().take(kept);
    assert(torn.last() == encoded.last()[kept - 1]);
    assert(!encoded[encoded.len() - 1].contains(10));
    assert(encoded.last().contains(encoded.last()[kept - 1]));
    assert(torn =~= framed_lines(encoded).subrange(0, torn.len() as int));
}

/// Once a write has failed, no later write changes the journal.
pub proof fn failures_are_final(state: JournalState, outcome: AppendOutcome, later: AppendOutcome)
    requires
        !(outcome is Written),
    ensures
        after_append(state, outcome).poisoned,
        after_append(after_append(state, outcome), later) == after_append(state, outcome),
{
}

/// A record holds the entry and the time that it is given, under the session's identifier, the
/// next number and the first version of the schema. A journal on which a write failed gives none.
pub proof fn records_hold_their_entry(
    journal: &SessionJournal,
    recorded_at: Timestamp,
    entry: JournalEntry,
    prepared: Result<JournalRecord, JournalError>,
)
    requires
        call_ensures(SessionJournal::prepare, (journal, recorded_at, entry), prepared),
    ensures
        prepared is Ok <==> !journal@.poisoned,
        prepared matches Ok(record) ==> {
            &&& record.entry == entry
            &&& record.recorded_at == recorded_at
            &&& record.session_id == journal@.session_id
            &&& record.sequence == journal@.next_sequence
            &&& record.schema_version == 1
        },
{
}

/// A journal that is created takes its first record under the number one, and lies under the name
/// of its session with the extension `jsonl`.
pub proof fn journals_are_named_after_their_session(
    sessions_directory: Seq<u8>,
    session_id: SessionId,
)
    ensures
        ({
            let journal = fresh_journal(sessions_directory, session_id);
            &&& journal.next_sequence == 1
            &&& !journal.poisoned
            &&& journal.session_id == session_id
            &&& journal.path == joined_path(
                sessions_directory,
                encode_utf8("sess_"@ + ulid_encoded(session_id.ulid()) + ".jsonl"@),
            )
        }),
{
}

/// A record that was written moves the journal on by one. One that was not leaves the number where
/// it is, and the journal takes no more.
pub proof fn only_written_records_count(state: JournalState, outcome: AppendOutcome)
    requires
        !state.poisoned,
        state.next_sequence < u64::MAX,
    ensures
        ({
            let after = after_append(state, outcome);
            &&& outcome is Written ==> after.next_sequence == state.next_sequence + 1
                && !after.poisoned
            &&& !(outcome is Written) ==> after.next_sequence == state.next_sequence
                && after.poisoned
            &&& after.path == state.path
            &&& after.session_id == state.session_id
        }),
{
}

/// The writer is told of the step that failed, and where.
pub proof fn failed_steps_are_named(
    state: JournalState,
    outcome: AppendOutcome,
    finished: Result<(), JournalError>,
)
    requires
        append_finished(state, outcome, finished),
    ensures
        finished is Ok <==> !state.poisoned && outcome is Written,
        state.poisoned ==> (finished matches Err(JournalError::Unusable { path }) && path@
            == state.path),
        !state.poisoned ==> match outcome {
            AppendOutcome::Written => true,
            AppendOutcome::NotSerialized { source } => finished matches Err(
                JournalError::Serialize { path, source: said },
            ) && path@ == state.path && said == source,
            AppendOutcome::NotWritten { source } => finished matches Err(
                JournalError::Io { operation, path, source: said },
            ) && operation@ == "append to session journal"@ && path@ == state.path && said
                == source,
            AppendOutcome::NotFlushed { source } => finished matches Err(
                JournalError::Io { operation, path, source: said },
            ) && operation@ == "flush session journal"@ && path@ == state.path && said == source,
        },
{
}

} // verus!
