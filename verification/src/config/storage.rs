//! A configuration file: its sidecars, and what may be done to it.
use crate::bytes::same_bytes;
use crate::config::document::{
    extract_version, has_version, load, load_error_words, loads_to, parses_as, DocumentCodec,
    FoundDocument, InvalidVersion, LoadFailure, LoadIoError, LoadOutcome, LoadedDocument,
};
use crate::config::json::{document_bytes, json_of, pretty_json_value};
use crate::path::{
    extension_of, extensions_follow_the_last_dot, extensions_keep_the_directory, file_name_of,
    is_name, joined_path, lemma_different_ends, parent_of, replaced_extension, same_path, HostPath,
};
use crate::text::{decimal, push_decimal, readable};
use vstd::prelude::*;
use vstd::string::StringExecFns;
use vstd::utf8::{encode_utf8, is_ascii_chars_encode_utf8};

verus! {

/// How long a writer waits for the lock, in nanoseconds.
pub const DEFAULT_LOCK_TIMEOUT: u128 = 5_000_000_000;

/// How long a writer sleeps between two attempts at the lock, in nanoseconds.
pub const LOCK_POLL_INTERVAL: u128 = 10_000_000;

/// Why a path cannot be that of a configuration document.
#[derive(Debug, PartialEq, Eq)]
pub enum ConfigFileError {
    MissingParent(HostPath),
    MissingFileName(HostPath),
    /// A sidecar would take the place of the document.
    DerivedPathCollision { document: HostPath, sidecar_kind: &'static str },
}

pub enum ConfigFileErrorView {
    MissingParent(Seq<u8>),
    MissingFileName(Seq<u8>),
    DerivedPathCollision { document: Seq<u8>, sidecar_kind: Seq<char> },
}

impl View for ConfigFileError {
    type V = ConfigFileErrorView;

    open spec fn view(&self) -> ConfigFileErrorView {
        match self {
            ConfigFileError::MissingParent(path) => ConfigFileErrorView::MissingParent(path@),
            ConfigFileError::MissingFileName(path) => ConfigFileErrorView::MissingFileName(path@),
            ConfigFileError::DerivedPathCollision { document, sidecar_kind } =>
                ConfigFileErrorView::DerivedPathCollision {
                    document: document@,
                    sidecar_kind: sidecar_kind@,
                },
        }
    }
}

impl ConfigFileError {
    /// The error in words.
    pub fn describe(&self) -> (words: String)
        ensures
            words@ == match self {
                ConfigFileError::MissingParent(path) =>
                    "configuration document path has no parent: "@ + readable(path@),
                ConfigFileError::MissingFileName(path) =>
                    "configuration document path has no file name: "@ + readable(path@),
                ConfigFileError::DerivedPathCollision { document, sidecar_kind } => "derived "@
                    + sidecar_kind@ + " path aliases configuration document "@ + readable(
                    document@,
                ),
            },
    {
        match self {
            ConfigFileError::MissingParent(path) =>
                "configuration document path has no parent: ".to_owned().concat(
                    path.display().as_str(),
                ),
            ConfigFileError::MissingFileName(path) =>
                "configuration document path has no file name: ".to_owned().concat(
                    path.display().as_str(),
                ),
            ConfigFileError::DerivedPathCollision { document, sidecar_kind } =>
                "derived ".to_owned().concat(sidecar_kind).concat(
                    " path aliases configuration document ",
                ).concat(document.display().as_str()),
        }
    }
}

/// The lower-case form of a byte that is an ASCII letter.
pub open spec fn lower(byte: u8) -> u8 {
    if 65 <= byte <= 90 {
        (byte + 32) as u8
    } else {
        byte
    }
}

/// Whether an extension is `lock`, in any case.
pub open spec fn is_lock_extension(extension: Seq<u8>) -> bool {
    extension.len() == 4 && lower(extension[0]) == 108 && lower(extension[1]) == 111 && lower(
        extension[2],
    ) == 99 && lower(extension[3]) == 107
}

fn lower_byte(byte: u8) -> (lowered: u8)
    ensures
        lowered == lower(byte),
{
    if 65 <= byte && byte <= 90 {
        byte + 32
    } else {
        byte
    }
}

fn names_lock(extension: &Vec<u8>) -> (names: bool)
    ensures
        names == is_lock_extension(extension@),
{
    extension.len() == 4 && lower_byte(extension[0]) == 108 && lower_byte(extension[1]) == 111
        && lower_byte(extension[2]) == 99 && lower_byte(extension[3]) == 107
}

pub open spec fn lock_path_of(document: Seq<u8>) -> Seq<u8> {
    replaced_extension(document, encode_utf8("lock"@))
}

pub open spec fn schema_path_of(document: Seq<u8>) -> Seq<u8> {
    replaced_extension(document, encode_utf8("schema.json"@))
}

/// Whether a path names a containing directory.
pub open spec fn has_directory(path: Seq<u8>) -> bool {
    parent_of(path) is Some && parent_of(path)->0.len() > 0
}

/// Why a path cannot be that of a configuration document, if it cannot.
pub open spec fn document_fault(document: Seq<u8>) -> Option<ConfigFileErrorView> {
    if !has_directory(document) {
        Some(ConfigFileErrorView::MissingParent(document))
    } else if file_name_of(document) is None {
        Some(ConfigFileErrorView::MissingFileName(document))
    } else if extension_of(document) is Some && is_lock_extension(extension_of(document)->0) {
        Some(ConfigFileErrorView::DerivedPathCollision { document, sidecar_kind: "lock"@ })
    } else if same_path(lock_path_of(document), document) {
        Some(ConfigFileErrorView::DerivedPathCollision { document, sidecar_kind: "lock"@ })
    } else if same_path(schema_path_of(document), document) {
        Some(ConfigFileErrorView::DerivedPathCollision { document, sidecar_kind: "schema"@ })
    } else {
        None
    }
}

/// One versioned document with its lock and its schema beside it.
#[derive(Clone, Debug)]
pub struct ConfigFile {
    document_path: HostPath,
    lock_path: HostPath,
    lock_timeout: u128,
    schema_path: HostPath,
}

pub struct ConfigFileView {
    pub document_path: Seq<u8>,
    pub lock_path: Seq<u8>,
    pub lock_timeout: u128,
    pub schema_path: Seq<u8>,
}

impl View for ConfigFile {
    type V = ConfigFileView;

    closed spec fn view(&self) -> ConfigFileView {
        ConfigFileView {
            document_path: self.document_path@,
            lock_path: self.lock_path@,
            lock_timeout: self.lock_timeout,
            schema_path: self.schema_path@,
        }
    }
}

/// What to do about a lock that another writer holds.
#[derive(Clone, Copy, Debug, PartialEq, Eq, Structural)]
pub enum LockWait {
    TimedOut,
    /// Sleep for so many nanoseconds and try again.
    Sleep(u128),
}

/// What to do about a lock that is still held after `waited` nanoseconds.
pub open spec fn wait_of(file: ConfigFileView, waited: u128) -> LockWait {
    if waited >= file.lock_timeout {
        LockWait::TimedOut
    } else if LOCK_POLL_INTERVAL <= file.lock_timeout - waited {
        LockWait::Sleep(LOCK_POLL_INTERVAL)
    } else {
        LockWait::Sleep((file.lock_timeout - waited) as u128)
    }
}

impl ConfigFile {
    /// The file at a path, with its sidecars: for `settings.json` these are `settings.lock` and
    /// `settings.schema.json`.
    pub fn new(document_path: HostPath) -> (outcome: Result<Self, ConfigFileError>)
        ensures
            match document_fault(document_path@) {
                Some(error) => outcome is Err && outcome->Err_0@ == error,
                None => outcome is Ok && outcome->Ok_0@ == (ConfigFileView {
                    document_path: document_path@,
                    lock_path: lock_path_of(document_path@),
                    lock_timeout: DEFAULT_LOCK_TIMEOUT,
                    schema_path: schema_path_of(document_path@),
                }),
            },
    {
        let has_directory = match document_path.parent() {
            None => false,
            Some(parent) => parent.as_bytes().len() > 0,
        };
        if !has_directory {
            return Err(ConfigFileError::MissingParent(document_path));
        }
        if document_path.file_name().is_none() {
            return Err(ConfigFileError::MissingFileName(document_path));
        }
        if let Some(extension) = document_path.extension() {
            if names_lock(&extension) {
                return Err(
                    ConfigFileError::DerivedPathCollision {
                        document: document_path,
                        sidecar_kind: "lock",
                    },
                );
            }
        }
        let lock_path = document_path.with_extension("lock");
        if lock_path.same(&document_path) {
            return Err(
                ConfigFileError::DerivedPathCollision {
                    document: document_path,
                    sidecar_kind: "lock",
                },
            );
        }
        let schema_path = document_path.with_extension("schema.json");
        if schema_path.same(&document_path) {
            return Err(
                ConfigFileError::DerivedPathCollision {
                    document: document_path,
                    sidecar_kind: "schema",
                },
            );
        }
        Ok(
            ConfigFile {
                document_path,
                lock_path,
                lock_timeout: DEFAULT_LOCK_TIMEOUT,
                schema_path,
            },
        )
    }

    /// The same file with another time to wait for its lock. Without any, a lock that is free is
    /// still taken.
    #[must_use]
    pub fn with_lock_timeout(self, timeout: u128) -> (file: Self)
        ensures
            file@ == (ConfigFileView { lock_timeout: timeout, ..self@ }),
    {
        ConfigFile {
            document_path: self.document_path,
            lock_path: self.lock_path,
            lock_timeout: timeout,
            schema_path: self.schema_path,
        }
    }

    pub fn lock_timeout(&self) -> (timeout: u128)
        ensures
            timeout == self@.lock_timeout,
    {
        self.lock_timeout
    }

    pub fn document_path(&self) -> (path: &HostPath)
        ensures
            path@ == self@.document_path,
    {
        &self.document_path
    }

    pub fn lock_path(&self) -> (path: &HostPath)
        ensures
            path@ == self@.lock_path,
    {
        &self.lock_path
    }

    pub fn schema_path(&self) -> (path: &HostPath)
        ensures
            path@ == self@.schema_path,
    {
        &self.schema_path
    }

    /// What to do about a lock that is still held after `waited` nanoseconds: give up once the
    /// time is over, and never sleep beyond that.
    pub fn await_lock(&self, waited: u128) -> (wait: LockWait)
        ensures
            wait == wait_of(self@, waited),
    {
        if waited >= self.lock_timeout {
            return LockWait::TimedOut;
        }
        let left = self.lock_timeout - waited;
        if LOCK_POLL_INTERVAL <= left {
            LockWait::Sleep(LOCK_POLL_INTERVAL)
        } else {
            LockWait::Sleep(left)
        }
    }

    /// Whether an archive would lie in the directory of the document.
    pub fn is_adjacent(&self, archive: &HostPath) -> (adjacent: bool)
        ensures
            adjacent == lies_beside(self@.document_path, archive@),
    {
        match (archive.parent(), self.document_path.parent()) {
            (Some(archive_parent), Some(document_parent)) => document_parent.as_bytes().len() > 0
                && archive_parent.same(&document_parent),
            _ => false,
        }
    }
}

/// Whether two paths have the same directory, and the first has one.
pub open spec fn lies_beside(document: Seq<u8>, other: Seq<u8>) -> bool {
    has_directory(document) && parent_of(other) is Some && same_path(
        parent_of(other)->0,
        parent_of(document)->0,
    )
}

/// Whether the schema beside a document has to be written.
#[derive(Clone, Copy, Debug, PartialEq, Eq, Structural)]
pub enum RefreshOutcome {
    Unchanged,
    Written,
}

/// The schema is written where there is none, or another.
pub fn plan_refresh(existing: &Option<Vec<u8>>, generated: &Vec<u8>) -> (plan: RefreshOutcome)
    ensures
        plan == (match existing {
            Some(bytes) => if bytes@ == generated@ {
                RefreshOutcome::Unchanged
            } else {
                RefreshOutcome::Written
            },
            None => RefreshOutcome::Written,
        }),
{
    match existing {
        Some(bytes) => if same_bytes(bytes.as_slice(), generated.as_slice()) {
            RefreshOutcome::Unchanged
        } else {
            RefreshOutcome::Written
        },
        None => RefreshOutcome::Written,
    }
}

/// Why a document is left where it is.
#[derive(Clone, Copy, Debug, PartialEq, Eq, Structural)]
pub enum ArchiveRefusal {
    Missing,
    Valid,
    UnsupportedVersion { version: u64 },
}

/// The words for why a document is left where it is.
pub open spec fn refusal_words(refusal: ArchiveRefusal) -> Seq<char> {
    match refusal {
        ArchiveRefusal::Missing => "the document is missing"@,
        ArchiveRefusal::Valid => "the document is valid"@,
        ArchiveRefusal::UnsupportedVersion { version } => "schema version "@ + decimal(
            version as nat,
        ) + " is unsupported"@,
    }
}

impl ArchiveRefusal {
    /// The refusal in words.
    pub fn describe(&self) -> (words: String)
        ensures
            words@ == refusal_words(*self),
    {
        match self {
            ArchiveRefusal::Missing => "the document is missing".to_owned(),
            ArchiveRefusal::Valid => "the document is valid".to_owned(),
            ArchiveRefusal::UnsupportedVersion { version } => {
                let mut words = "schema version ".to_owned();
                push_decimal(&mut words, *version);
                words.concat(" is unsupported")
            },
        }
    }
}

/// Why an archive is not made.
#[derive(Debug, PartialEq, Eq)]
pub enum ArchiveError {
    Refused(ArchiveRefusal),
    Load(LoadIoError),
    NotAdjacent { archive: HostPath, document: HostPath },
}

impl ArchiveError {
    /// The error in words.
    pub fn describe(&self) -> (words: String)
        ensures
            words@ == match self {
                ArchiveError::Refused(refusal) => refusal_words(*refusal),
                ArchiveError::Load(error) => load_error_words(*error),
                ArchiveError::NotAdjacent { archive, document } => "archive "@ + readable(
                    archive@,
                ) + " is not adjacent to document "@ + readable(document@),
            },
    {
        match self {
            ArchiveError::Refused(refusal) => refusal.describe(),
            ArchiveError::Load(error) => error.describe(),
            ArchiveError::NotAdjacent { archive, document } => "archive ".to_owned().concat(
                archive.display().as_str(),
            ).concat(" is not adjacent to document ").concat(document.display().as_str()),
        }
    }
}

/// Whether a document may be archived: only one that the codec finds invalid, and only beside
/// itself.
pub fn plan_archive<T, E>(
    file: &ConfigFile,
    loaded: LoadOutcome<T, E>,
    archive: &HostPath,
) -> (plan: Result<(), ArchiveError>)
    ensures
        match loaded {
            LoadOutcome::Missing => plan == Err::<(), ArchiveError>(
                ArchiveError::Refused(ArchiveRefusal::Missing),
            ),
            LoadOutcome::Loaded(_) => plan == Err::<(), ArchiveError>(
                ArchiveError::Refused(ArchiveRefusal::Valid),
            ),
            LoadOutcome::UnsupportedVersion { version } => plan == Err::<(), ArchiveError>(
                ArchiveError::Refused(ArchiveRefusal::UnsupportedVersion { version }),
            ),
            LoadOutcome::Io(error) => plan == Err::<(), ArchiveError>(ArchiveError::Load(error)),
            LoadOutcome::Invalid(_) => match plan {
                Ok(_) => lies_beside(file@.document_path, archive@),
                Err(ArchiveError::NotAdjacent { archive: outside, document }) => !lies_beside(
                    file@.document_path,
                    archive@,
                ) && outside@ == archive@ && document@ == file@.document_path,
                _ => false,
            },
        },
{
    match loaded {
        LoadOutcome::Missing => Err(ArchiveError::Refused(ArchiveRefusal::Missing)),
        LoadOutcome::Loaded(_) => Err(ArchiveError::Refused(ArchiveRefusal::Valid)),
        LoadOutcome::UnsupportedVersion { version } => Err(
            ArchiveError::Refused(ArchiveRefusal::UnsupportedVersion { version }),
        ),
        LoadOutcome::Io(error) => Err(ArchiveError::Load(error)),
        LoadOutcome::Invalid(_) => if file.is_adjacent(archive) {
            Ok(())
        } else {
            Err(
                ArchiveError::NotAdjacent {
                    archive: archive.clone(),
                    document: file.document_path().clone(),
                },
            )
        },
    }
}

/// What an update starts from: the document that is there, or nothing. Anything else stops it
/// before it begins.
pub fn start_update<T, E>(loaded: LoadOutcome<T, E>) -> (current: Result<
    Option<T>,
    LoadFailure<E>,
>)
    ensures
        match loaded {
            LoadOutcome::Missing => current == Ok::<Option<T>, LoadFailure<E>>(None),
            LoadOutcome::Loaded(loaded) => current == Ok::<Option<T>, LoadFailure<E>>(
                Some(loaded.document),
            ),
            LoadOutcome::Invalid(error) => current == Err::<Option<T>, LoadFailure<E>>(
                LoadFailure::Invalid(error),
            ),
            LoadOutcome::UnsupportedVersion { version } => current == Err::<
                Option<T>,
                LoadFailure<E>,
            >(LoadFailure::UnsupportedVersion { version }),
            LoadOutcome::Io(error) => current == Err::<Option<T>, LoadFailure<E>>(
                LoadFailure::Io(error),
            ),
        },
{
    match loaded {
        LoadOutcome::Missing => Ok(None),
        LoadOutcome::Loaded(loaded) => Ok(Some(loaded.document)),
        LoadOutcome::Invalid(error) => Err(LoadFailure::Invalid(error)),
        LoadOutcome::UnsupportedVersion { version } => Err(
            LoadFailure::UnsupportedVersion { version },
        ),
        LoadOutcome::Io(error) => Err(LoadFailure::Io(error)),
    }
}

/// Why a document is not written.
#[derive(Debug, PartialEq, Eq)]
pub enum UpdateError<E> {
    /// It does not carry the version that the codec writes.
    CurrentVersion { expected: u64, found: Option<u64> },
    /// The codec does not take the version that it writes.
    UnsupportedCurrentVersion { version: u64 },
    /// The codec does not accept it.
    InvalidCurrent(E),
    Serialize(String),
}

impl<E> UpdateError<E> {
    /// The error in words. Why the codec does not accept a document is for the codec to say.
    pub fn describe(&self) -> (words: String)
        ensures
            words@ == match self {
                UpdateError::CurrentVersion { expected, found } =>
                    "current document must contain schema_version "@ + decimal(*expected as nat)
                        + ", found "@ + match found {
                        None => "None"@,
                        Some(version) => "Some("@ + decimal(*version as nat) + ")"@,
                    },
                UpdateError::UnsupportedCurrentVersion { version } =>
                    "document codec does not support its current schema version "@ + decimal(
                        *version as nat,
                    ),
                UpdateError::InvalidCurrent(_) =>
                    "serialized current document failed validation"@,
                UpdateError::Serialize(source) => "failed to serialize JSON: "@ + source@,
            },
    {
        match self {
            UpdateError::CurrentVersion { expected, found } => {
                let mut words = "current document must contain schema_version ".to_owned();
                push_decimal(&mut words, *expected);
                let words = words.concat(", found ");
                match found {
                    None => words.concat("None"),
                    Some(version) => {
                        let mut number = "Some(".to_owned();
                        push_decimal(&mut number, *version);
                        words.concat(number.concat(")").as_str())
                    },
                }
            },
            UpdateError::UnsupportedCurrentVersion { version } => {
                let mut words =
                    "document codec does not support its current schema version ".to_owned();
                push_decimal(&mut words, *version);
                words
            },
            UpdateError::InvalidCurrent(_) =>
                "serialized current document failed validation".to_owned(),
            UpdateError::Serialize(source) => "failed to serialize JSON: ".to_owned().concat(
                source.as_str(),
            ),
        }
    }
}

/// The version that a value carries, if it carries one.
pub open spec fn carries(value: serde_json::Value, found: Option<u64>) -> bool {
    match found {
        Some(version) => has_version(json_of(value), Ok(version)),
        None => exists|error: InvalidVersion| #[trigger]
            has_version(json_of(value), Err(error)),
    }
}

/// Whether `outcome` is what writing a value may come to: its bytes, where it carries the version
/// that the codec writes and the codec accepts it, and else what stands in the way.
pub open spec fn update_checked<C: DocumentCodec>(
    value: serde_json::Value,
    codec: &C,
    current: u64,
    outcome: Result<Vec<u8>, UpdateError<C::Error>>,
) -> bool {
    match outcome {
        Err(UpdateError::CurrentVersion { expected, found }) => expected == current && carries(
            value,
            found,
        ) && found != Some(current),
        Err(UpdateError::UnsupportedCurrentVersion { version }) => version == current && carries(
            value,
            Some(current),
        ) && call_ensures(C::supports_version, (codec, current), false),
        Err(UpdateError::InvalidCurrent(error)) => carries(value, Some(current)) && call_ensures(
            C::supports_version,
            (codec, current),
            true,
        ) && call_ensures(C::decode, (codec, current, value), Err(error)),
        Err(UpdateError::Serialize(words)) => carries(value, Some(current)) && call_ensures(
            C::supports_version,
            (codec, current),
            true,
        ) && document_bytes(json_of(value)) == Err::<Seq<u8>, Seq<char>>(words@) && exists|
            document: C::Current,
        | #[trigger] call_ensures(C::decode, (codec, current, value), Ok(document)),
        Ok(bytes) => carries(value, Some(current)) && call_ensures(
            C::supports_version,
            (codec, current),
            true,
        ) && document_bytes(json_of(value)) == Ok::<Seq<u8>, Seq<char>>(bytes@) && exists|
            document: C::Current,
        | #[trigger] call_ensures(C::decode, (codec, current, value), Ok(document)),
    }
}

/// Checks a serialized document before it is written, and gives the bytes to write.
pub fn finish_update<C: DocumentCodec>(value: &serde_json::Value, codec: &C) -> (outcome: Result<
    Vec<u8>,
    UpdateError<C::Error>,
>)
    ensures
        exists|current: u64| #[trigger]
            call_ensures(C::current_version, (codec,), current) && update_checked(
                *value,
                codec,
                current,
                outcome,
            ),
{
    let current = codec.current_version();
    assert(call_ensures(C::current_version, (codec,), current));
    let found = match extract_version(value) {
        Ok(version) => Some(version),
        Err(error) => {
            assert(has_version(json_of(*value), Err(error)));
            None
        },
    };
    assert(carries(*value, found));
    if found.is_none() || found.unwrap() != current {
        return Err(UpdateError::CurrentVersion { expected: current, found });
    }
    if !codec.supports_version(current) {
        return Err(UpdateError::UnsupportedCurrentVersion { version: current });
    }
    match codec.decode(current, value.clone()) {
        Err(error) => {
            return Err(UpdateError::InvalidCurrent(error));
        },
        Ok(document) => {
            assert(call_ensures(C::decode, (codec, current, *value), Ok(document)));
        },
    }
    match pretty_json_value(value) {
        Err(words) => Err(UpdateError::Serialize(words)),
        Ok(bytes) => Ok(bytes),
    }
}

/// An update that is ready to be written.
#[derive(Debug, PartialEq, Eq)]
pub struct PreparedUpdate<T> {
    /// The bytes that take the place of the file's.
    pub bytes: Vec<u8>,
    /// The document that they hold.
    pub document: T,
}

/// Why there is nothing to write.
#[derive(Debug, PartialEq, Eq)]
pub enum PrepareUpdateError<E, M> {
    /// The document could not be reloaded.
    Load(LoadFailure<E>),
    /// The mutation failed.
    Mutation(M),
    /// The document that the mutation made is not written.
    Refused(UpdateError<E>),
}

/// Whether `outcome` is what the document may be written as: what it is serialized to must pass
/// the codec.
pub open spec fn written_as<C: DocumentCodec, S: FnOnce(&C::Current) -> Result<
    serde_json::Value,
    String,
>>(
    document: C::Current,
    codec: &C,
    serialize: S,
    outcome: Result<Vec<u8>, UpdateError<C::Error>>,
) -> bool {
    exists|serialized: Result<serde_json::Value, String>| #[trigger]
        call_ensures(serialize, (&document,), serialized) && match serialized {
            Err(words) => outcome == Err::<Vec<u8>, UpdateError<C::Error>>(
                UpdateError::Serialize(words),
            ),
            Ok(value) => exists|current: u64| #[trigger]
                call_ensures(C::current_version, (codec,), current) && update_checked(
                    value,
                    codec,
                    current,
                    outcome,
                ),
        }
}

/// Whether `outcome` is what an update may come to that starts from `current`.
pub open spec fn updated_from<C, F, S, M>(
    current: Option<C::Current>,
    codec: &C,
    mutate: F,
    serialize: S,
    outcome: Result<PreparedUpdate<C::Current>, PrepareUpdateError<C::Error, M>>,
) -> bool where
    C: DocumentCodec,
    F: FnOnce(Option<C::Current>) -> Result<C::Current, M>,
    S: FnOnce(&C::Current) -> Result<serde_json::Value, String>,
 {
    match outcome {
        Err(PrepareUpdateError::Load(_)) => false,
        Err(PrepareUpdateError::Mutation(error)) => call_ensures(mutate, (current,), Err(error)),
        Err(PrepareUpdateError::Refused(refusal)) => exists|document: C::Current| #[trigger]
            call_ensures(mutate, (current,), Ok(document)) && written_as(
                document,
                codec,
                serialize,
                Err(refusal),
            ),
        Ok(update) => call_ensures(mutate, (current,), Ok(update.document)) && written_as(
            update.document,
            codec,
            serialize,
            Ok(update.bytes),
        ),
    }
}

/// Whether `outcome` is what an update of what was found may come to: a document that cannot be
/// loaded is never handed to the mutation.
pub open spec fn update_prepared<C, P, F, S, M>(
    found: FoundDocument,
    parse: P,
    codec: &C,
    mutate: F,
    serialize: S,
    outcome: Result<PreparedUpdate<C::Current>, PrepareUpdateError<C::Error, M>>,
) -> bool where
    C: DocumentCodec,
    P: Fn(&Vec<u8>) -> Result<serde_json::Value, String>,
    F: FnOnce(Option<C::Current>) -> Result<C::Current, M>,
    S: FnOnce(&C::Current) -> Result<serde_json::Value, String>,
 {
    exists|loaded: LoadOutcome<C::Current, C::Error>| #[trigger]
        loads_to(found, parse, codec, loaded) && match loaded {
            LoadOutcome::Missing => updated_from(None, codec, mutate, serialize, outcome),
            LoadOutcome::Loaded(loaded) => updated_from(
                Some(loaded.document),
                codec,
                mutate,
                serialize,
                outcome,
            ),
            LoadOutcome::Invalid(error) => outcome == Err::<
                PreparedUpdate<C::Current>,
                PrepareUpdateError<C::Error, M>,
            >(PrepareUpdateError::Load(LoadFailure::Invalid(error))),
            LoadOutcome::UnsupportedVersion { version } => outcome == Err::<
                PreparedUpdate<C::Current>,
                PrepareUpdateError<C::Error, M>,
            >(PrepareUpdateError::Load(LoadFailure::UnsupportedVersion { version })),
            LoadOutcome::Io(error) => outcome == Err::<
                PreparedUpdate<C::Current>,
                PrepareUpdateError<C::Error, M>,
            >(PrepareUpdateError::Load(LoadFailure::Io(error))),
        }
}

/// Prepares an update of what was found under the writer lock: the mutation is handed the document
/// that is there, or nothing, and what it makes of it is checked before it is written.
pub fn prepare_update<C, P, F, S, M>(
    found: FoundDocument,
    parse: P,
    codec: &C,
    mutate: F,
    serialize: S,
) -> (outcome: Result<PreparedUpdate<C::Current>, PrepareUpdateError<C::Error, M>>) where
    C: DocumentCodec,
    P: Fn(&Vec<u8>) -> Result<serde_json::Value, String>,
    F: FnOnce(Option<C::Current>) -> Result<C::Current, M>,
    S: FnOnce(&C::Current) -> Result<serde_json::Value, String>,

    requires
        forall|bytes: &Vec<u8>| call_requires(parse, (bytes,)),
        forall|current: Option<C::Current>| call_requires(mutate, (current,)),
        forall|document: &C::Current| call_requires(serialize, (document,)),
    ensures
        update_prepared(found, parse, codec, mutate, serialize, outcome),
{
    let current = match start_update(load(found, parse, codec)) {
        Err(failure) => {
            return Err(PrepareUpdateError::Load(failure));
        },
        Ok(current) => current,
    };
    let document = match mutate(current) {
        Err(error) => {
            return Err(PrepareUpdateError::Mutation(error));
        },
        Ok(document) => document,
    };
    let value = match serialize(&document) {
        Err(words) => {
            return Err(PrepareUpdateError::Refused(UpdateError::Serialize(words)));
        },
        Ok(value) => value,
    };
    match finish_update(&value, codec) {
        Err(refusal) => Err(PrepareUpdateError::Refused(refusal)),
        Ok(bytes) => Ok(PreparedUpdate { bytes, document }),
    }
}

/// A document that was accepted for writing is one that loading may give back, with the version
/// that the codec writes as its source, where its bytes may be parsed as what was written.
pub proof fn written_documents_can_be_loaded<C, P>(
    value: serde_json::Value,
    parse: P,
    codec: &C,
    current: u64,
    bytes: Vec<u8>,
) where C: DocumentCodec, P: Fn(&Vec<u8>) -> Result<serde_json::Value, String>
    requires
        update_checked(value, codec, current, Ok(bytes)),
        call_ensures(parse, (&bytes,), Ok(value)),
    ensures
        exists|loaded: LoadedDocument<C::Current>|
            loaded.source_version == current && #[trigger] loads_to(
                FoundDocument::Read(bytes),
                parse,
                codec,
                LoadOutcome::Loaded(loaded),
            ),
{
    let document = choose|document: C::Current| #[trigger]
        call_ensures(C::decode, (codec, current, value), Ok(document));
    let loaded = LoadedDocument { source_version: current, document };
    assert(loads_to(FoundDocument::Read(bytes), parse, codec, LoadOutcome::Loaded(loaded)));
}

/// A document that was accepted for writing is loaded as a current one, never as an older one that
/// is brought up to date, where its bytes parse as what was written and the codec keeps to the
/// answers that it gave.
pub proof fn written_documents_load_back<C, P>(
    value: serde_json::Value,
    parse: P,
    codec: &C,
    current: u64,
    bytes: Vec<u8>,
    outcome: LoadOutcome<C::Current, C::Error>,
) where C: DocumentCodec, P: Fn(&Vec<u8>) -> Result<serde_json::Value, String>
    requires
        update_checked(value, codec, current, Ok(bytes)),
        parses_as(bytes, parse, value),
        !call_ensures(C::supports_version, (codec, current), false),
        forall|error: C::Error| !call_ensures(C::decode, (codec, current, value), Err(error)),
        loads_to(FoundDocument::Read(bytes), parse, codec, outcome),
    ensures
        outcome is Loaded,
        outcome->Loaded_0.source_version == current,
        call_ensures(C::decode, (codec, current, value), Ok(outcome->Loaded_0.document)),
{
}

/// The bytes of an update are those that the document is written as, and loading may give them
/// back with the version that the codec writes as their source, where they may be parsed as what
/// was written.
pub proof fn prepared_updates_can_be_loaded<C, P, F, S, M>(
    found: FoundDocument,
    parse: P,
    codec: &C,
    mutate: F,
    serialize: S,
    update: PreparedUpdate<C::Current>,
) where
    C: DocumentCodec,
    P: Fn(&Vec<u8>) -> Result<serde_json::Value, String>,
    F: FnOnce(Option<C::Current>) -> Result<C::Current, M>,
    S: FnOnce(&C::Current) -> Result<serde_json::Value, String>,

    requires
        update_prepared::<C, P, F, S, M>(found, parse, codec, mutate, serialize, Ok(update)),
    ensures
        exists|value: serde_json::Value, current: u64|
            #[trigger] call_ensures(serialize, (&update.document,), Ok(value)) && #[trigger]
                call_ensures(C::current_version, (codec,), current) && document_bytes(
                json_of(value),
            ) == Ok::<Seq<u8>, Seq<char>>(update.bytes@) && (call_ensures(
                parse,
                (&update.bytes,),
                Ok(value),
            ) ==> exists|loaded: LoadedDocument<C::Current>|
                loaded.source_version == current && #[trigger] loads_to(
                    FoundDocument::Read(update.bytes),
                    parse,
                    codec,
                    LoadOutcome::Loaded(loaded),
                )),
{
    let serialized = choose|serialized: Result<serde_json::Value, String>| #[trigger]
        call_ensures(serialize, (&update.document,), serialized) && match serialized {
            Err(_) => false,
            Ok(value) => exists|current: u64| #[trigger]
                call_ensures(C::current_version, (codec,), current) && update_checked(
                    value,
                    codec,
                    current,
                    Ok(update.bytes),
                ),
        };
    let value = serialized->Ok_0;
    let current = choose|current: u64| #[trigger]
        call_ensures(C::current_version, (codec,), current) && update_checked(
            value,
            codec,
            current,
            Ok(update.bytes),
        );
    if call_ensures(parse, (&update.bytes,), Ok(value)) {
        written_documents_can_be_loaded(value, parse, codec, current, update.bytes);
    }
}

/// The sidecars of an accepted document are files of their own, each beside the document.
pub proof fn sidecars_are_adjacent_and_distinct(document: Seq<u8>)
    requires
        document_fault(document) is None,
    ensures
        !same_path(lock_path_of(document), document),
        !same_path(schema_path_of(document), document),
        !same_path(lock_path_of(document), schema_path_of(document)),
        parent_of(lock_path_of(document)) == parent_of(document),
        parent_of(schema_path_of(document)) == parent_of(document),
        lies_beside(document, lock_path_of(document)),
        lies_beside(document, schema_path_of(document)),
{
    let lock = encode_utf8("lock"@);
    let schema = encode_utf8("schema.json"@);
    lemma_sidecar_extensions();
    extensions_keep_the_directory(document, lock);
    extensions_keep_the_directory(document, schema);
    lemma_different_ends(lock_path_of(document), schema_path_of(document));
}

/// The extensions of the sidecars hold no separator, and end in different letters.
proof fn lemma_sidecar_extensions()
    ensures
        encode_utf8("lock"@).len() == 4,
        encode_utf8("lock"@).last() == 107,
        forall|i: int| 0 <= i < 4 ==> #[trigger] encode_utf8("lock"@)[i] != 47,
        encode_utf8("schema.json"@).len() == 11,
        encode_utf8("schema.json"@).last() == 110,
        forall|i: int| 0 <= i < 11 ==> #[trigger] encode_utf8("schema.json"@)[i] != 47,
{
    reveal_strlit("lock");
    reveal_strlit("schema.json");
    let lock = "lock"@;
    let schema = "schema.json"@;
    assert(lock[3] == 'k');
    assert(schema[10] == 'n');
    is_ascii_chars_encode_utf8(lock);
    is_ascii_chars_encode_utf8(schema);
    assert forall|i: int| 0 <= i < 4 implies #[trigger] encode_utf8(lock)[i] != 47 by {
        assert(lock[i] as u8 == encode_utf8(lock)[i]);
    }
    assert forall|i: int| 0 <= i < 11 implies #[trigger] encode_utf8(schema)[i] != 47 by {
        assert(schema[i] as u8 == encode_utf8(schema)[i]);
    }
}

/// A writer gives up once its time is over and not before, and never sleeps beyond it.
pub proof fn lock_waits_end(file: ConfigFileView, waited: u128)
    ensures
        wait_of(file, waited) is TimedOut <==> waited >= file.lock_timeout,
        wait_of(file, waited) matches LockWait::Sleep(sleep) ==> 0 < sleep && waited + sleep
            <= file.lock_timeout,
{
}

/// For a document `settings.json` the lock is `settings.lock` and the schema is
/// `settings.schema.json`, in the same directory: only what follows the last dot is replaced.
pub proof fn sidecars_are_named_after_the_document(
    directory: Seq<u8>,
    stem: Seq<u8>,
    extension: Seq<u8>,
)
    requires
        directory.len() > 0,
        stem.len() > 0,
        !extension.contains(46),
        is_name(stem.push(46) + extension),
    ensures
        ({
            let document = joined_path(directory, stem.push(46) + extension);
            &&& lock_path_of(document) == joined_path(
                directory,
                stem.push(46) + encode_utf8("lock"@),
            )
            &&& schema_path_of(document) == joined_path(
                directory,
                stem.push(46) + encode_utf8("schema.json"@),
            )
        }),
{
    let lock = encode_utf8("lock"@);
    let schema = encode_utf8("schema.json"@);
    lemma_sidecar_extensions();
    let name = stem.push(46) + extension;
    assert forall|i: int| 0 <= i < stem.len() implies #[trigger] stem[i] != 47 by {
        assert(name[i] == stem[i]);
    }
    lemma_named(stem, lock);
    lemma_named(stem, schema);
    extensions_follow_the_last_dot(directory, stem, extension, lock);
    extensions_follow_the_last_dot(directory, stem, extension, schema);
}

proof fn lemma_named(stem: Seq<u8>, extension: Seq<u8>)
    requires
        stem.len() > 0,
        extension.len() >= 2,
        forall|i: int| 0 <= i < stem.len() ==> #[trigger] stem[i] != 47,
        forall|i: int| 0 <= i < extension.len() ==> #[trigger] extension[i] != 47,
    ensures
        is_name(stem.push(46) + extension),
{
    let name = stem.push(46) + extension;
    assert(name.len() >= 4);
    assert forall|i: int| 0 <= i < name.len() implies #[trigger] name[i] != 47 by {
        if i < stem.len() {
            assert(name[i] == stem[i]);
        } else if i > stem.len() {
            assert(name[i] == extension[i - stem.len() - 1]);
        }
    }
}

/// A document is accepted exactly where it has a directory and a name, is not itself called a
/// lock, and is none of its own sidecars. Its lock is waited for five seconds, unless another time
/// is set.
pub proof fn documents_have_a_place_and_a_name(
    document: HostPath,
    outcome: Result<ConfigFile, ConfigFileError>,
)
    requires
        call_ensures(ConfigFile::new, (document,), outcome),
    ensures
        outcome is Ok <==> {
            &&& parent_of(document@) is Some && parent_of(document@)->0.len() > 0
            &&& file_name_of(document@) is Some
            &&& extension_of(document@) matches Some(extension) ==> !is_lock_extension(extension)
            &&& !same_path(lock_path_of(document@), document@)
            &&& !same_path(schema_path_of(document@), document@)
        },
        outcome matches Ok(file) ==> {
            &&& file@.document_path == document@
            &&& file@.lock_path == lock_path_of(document@)
            &&& file@.schema_path == schema_path_of(document@)
            &&& file@.lock_timeout == 5_000_000_000
        },
{
}

/// An extension is that of a lock where it reads `lock`, in small letters or large.
pub proof fn lock_extensions_ignore_case(extension: Seq<u8>)
    ensures
        is_lock_extension(extension) <==> {
            &&& extension.len() == 4
            &&& extension[0] == 'l' as u8 || extension[0] == 'L' as u8
            &&& extension[1] == 'o' as u8 || extension[1] == 'O' as u8
            &&& extension[2] == 'c' as u8 || extension[2] == 'C' as u8
            &&& extension[3] == 'k' as u8 || extension[3] == 'K' as u8
        },
{
}

/// A writer tries the lock again every ten milliseconds, or sooner where less time is left.
pub proof fn locks_are_tried_again(file: ConfigFileView, waited: u128)
    requires
        waited < file.lock_timeout,
    ensures
        file.lock_timeout - waited >= 10_000_000 ==> wait_of(file, waited) == LockWait::Sleep(
            10_000_000,
        ),
        file.lock_timeout - waited < 10_000_000 ==> wait_of(file, waited) == LockWait::Sleep(
            (file.lock_timeout - waited) as u128,
        ),
{
}

/// A schema is left alone exactly where it is already what would be written.
pub proof fn schemas_are_written_where_they_differ(
    existing: &Option<Vec<u8>>,
    generated: &Vec<u8>,
    plan: RefreshOutcome,
)
    requires
        call_ensures(plan_refresh, (existing, generated), plan),
    ensures
        plan == RefreshOutcome::Unchanged <==> existing is Some && existing->0@ == generated@,
{
}

/// Only a document that the codec finds invalid is archived, and only into its own directory.
pub proof fn only_invalid_documents_are_archived<T, E>(
    file: &ConfigFile,
    loaded: LoadOutcome<T, E>,
    archive: &HostPath,
    plan: Result<(), ArchiveError>,
)
    requires
        call_ensures(plan_archive::<T, E>, (file, loaded, archive), plan),
    ensures
        plan is Ok <==> {
            &&& loaded is Invalid
            &&& parent_of(file@.document_path) is Some
            &&& parent_of(file@.document_path)->0.len() > 0
            &&& parent_of(archive@) is Some
            &&& same_path(parent_of(archive@)->0, parent_of(file@.document_path)->0)
        },
{
}

/// An update starts from the document that is there, or from nothing where there is none, and from
/// nothing else.
pub proof fn updates_start_from_what_is_there<T, E>(
    loaded: LoadOutcome<T, E>,
    current: Result<Option<T>, LoadFailure<E>>,
)
    requires
        call_ensures(start_update::<T, E>, (loaded,), current),
    ensures
        loaded is Missing ==> current is Ok && current->Ok_0 is None,
        loaded matches LoadOutcome::Loaded(read) ==> current is Ok && current->Ok_0 == Some(
            read.document,
        ),
        current is Ok <==> loaded is Missing || loaded is Loaded,
{
}

/// A document is written only where it carries the version that the codec writes, and where the
/// codec reads it back; it is written with its keys in order.
pub proof fn only_current_documents_are_written<C: DocumentCodec>(
    value: serde_json::Value,
    codec: &C,
    current: u64,
    bytes: Vec<u8>,
)
    requires
        update_checked(value, codec, current, Ok(bytes)),
    ensures
        has_version(json_of(value), Ok(current)),
        call_ensures(C::supports_version, (codec, current), true),
        exists|document: C::Current| #[trigger]
            call_ensures(C::decode, (codec, current, value), Ok(document)),
        document_bytes(json_of(value)) == Ok::<Seq<u8>, Seq<char>>(bytes@),
{
}

/// What an update writes is what the mutation made of the document that was found, or of nothing
/// where none was.
pub proof fn updates_write_what_the_mutation_made<C, P, F, S, M>(
    found: FoundDocument,
    parse: P,
    codec: &C,
    mutate: F,
    serialize: S,
    update: PreparedUpdate<C::Current>,
) where
    C: DocumentCodec,
    P: Fn(&Vec<u8>) -> Result<serde_json::Value, String>,
    F: FnOnce(Option<C::Current>) -> Result<C::Current, M>,
    S: FnOnce(&C::Current) -> Result<serde_json::Value, String>,

    requires
        update_prepared::<C, P, F, S, M>(found, parse, codec, mutate, serialize, Ok(update)),
    ensures
        !(found is Unreadable),
        found is Missing ==> call_ensures(mutate, (None,), Ok(update.document)),
        found is Read ==> exists|loaded: LoadedDocument<C::Current>|
            loads_to(found, parse, codec, LoadOutcome::Loaded(loaded)) && #[trigger] call_ensures(
                mutate,
                (Some(loaded.document),),
                Ok(update.document),
            ),
{
    let loaded = choose|loaded: LoadOutcome<C::Current, C::Error>| #[trigger]
        loads_to(found, parse, codec, loaded) && match loaded {
            LoadOutcome::Missing => updated_from::<C, F, S, M>(
                None,
                codec,
                mutate,
                serialize,
                Ok(update),
            ),
            LoadOutcome::Loaded(loaded) => updated_from::<C, F, S, M>(
                Some(loaded.document),
                codec,
                mutate,
                serialize,
                Ok(update),
            ),
            _ => false,
        };
    if let LoadOutcome::Loaded(read) = loaded {
        assert(call_ensures(mutate, (Some(read.document),), Ok(update.document)));
    }
}

} // verus!
