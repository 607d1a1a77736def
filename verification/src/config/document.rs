//! Versioned documents: which version a document has, and what a codec makes of it.
use crate::config::json::{
    as_unsigned, get_member, is_member_at, is_object, json_of, keys_unique, JsonView, MemberView,
};
use crate::path::HostPath;
use crate::text::{readable, same_text, text_views};
use vstd::prelude::*;
use vstd::string::StringExecFns;

verus! {

/// Turns the supported versions of a persisted document into one current model.
///
/// What goes beyond JSON syntax and `schema_version` is for `decode` to check. Loading calls it
/// without writing the document back.
pub trait DocumentCodec {
    /// The current model.
    type Current;

    /// Why a document is not accepted.
    type Error;

    /// The version that is written when the current model is saved.
    fn current_version(&self) -> (version: u64);

    /// Whether a version can be decoded and brought up to date.
    fn supports_version(&self, version: u64) -> (supported: bool);

    /// Decodes and checks a document, and brings it up to date where its version is older.
    fn decode(&self, version: u64, document: serde_json::Value) -> (decoded: Result<
        Self::Current,
        Self::Error,
    >);
}

/// A document that was loaded.
#[derive(Debug, PartialEq, Eq)]
pub struct LoadedDocument<T> {
    /// The version that the persisted document has.
    pub source_version: u64,
    /// The current model.
    pub document: T,
}

impl<T> LoadedDocument<T> {
    /// Whether loading brought an older version up to date.
    pub fn was_migrated<C: DocumentCodec<Current = T>>(&self, codec: &C) -> (migrated: bool)
        ensures
            exists|current: u64| #[trigger]
                call_ensures(C::current_version, (codec,), current) && migrated == (
                self.source_version != current),
    {
        let current = codec.current_version();
        assert(call_ensures(C::current_version, (codec,), current));
        self.source_version != current
    }
}

/// What is wrong with the `schema_version` of a document.
#[derive(Clone, Copy, Debug, PartialEq, Eq, Structural)]
pub enum InvalidVersion {
    RootNotObject,
    Missing,
    NotUnsignedInteger,
}

impl InvalidVersion {
    /// The error in words.
    pub fn describe(&self) -> (words: &'static str)
        ensures
            words@ == match self {
                InvalidVersion::RootNotObject => "the document root must be a JSON object"@,
                InvalidVersion::Missing => "the document is missing schema_version"@,
                InvalidVersion::NotUnsignedInteger =>
                    "schema_version must be an unsigned integer"@,
            },
    {
        match self {
            InvalidVersion::RootNotObject => "the document root must be a JSON object",
            InvalidVersion::Missing => "the document is missing schema_version",
            InvalidVersion::NotUnsignedInteger => "schema_version must be an unsigned integer",
        }
    }
}

/// Why a document that exists is not valid.
#[derive(Debug, PartialEq, Eq)]
pub enum InvalidDocument<E> {
    /// The bytes are not JSON, or an object in them has a key twice.
    MalformedJson(String),
    InvalidVersion(InvalidVersion),
    /// The codec does not accept the document.
    Rejected(E),
}

/// A file operation that failed while a document was loaded.
#[derive(Debug, PartialEq, Eq)]
pub struct LoadIoError {
    pub operation: &'static str,
    pub path: HostPath,
    pub source: String,
}

/// The words for a file operation that failed.
pub open spec fn load_error_words(error: LoadIoError) -> Seq<char> {
    "failed to "@ + error.operation@ + " "@ + readable(error.path@) + ": "@ + error.source@
}

impl LoadIoError {
    pub fn operation(&self) -> (operation: &'static str)
        ensures
            operation@ == self.operation@,
    {
        self.operation
    }

    pub fn path(&self) -> (path: &HostPath)
        ensures
            *path == self.path,
    {
        &self.path
    }

    pub fn source_error(&self) -> (source: &str)
        ensures
            source@ == self.source@,
    {
        self.source.as_str()
    }

    /// The error in words.
    pub fn describe(&self) -> (words: String)
        ensures
            words@ == load_error_words(*self),
    {
        "failed to ".to_owned().concat(self.operation).concat(" ").concat(
            self.path.display().as_str(),
        ).concat(": ").concat(self.source.as_str())
    }
}

/// What loading a document came to.
#[derive(Debug, PartialEq, Eq)]
pub enum LoadOutcome<T, E> {
    Missing,
    Loaded(LoadedDocument<T>),
    Invalid(InvalidDocument<E>),
    UnsupportedVersion { version: u64 },
    Io(LoadIoError),
}

/// Why a document could not be loaded for an update.
#[derive(Debug, PartialEq, Eq)]
pub enum LoadFailure<E> {
    Invalid(InvalidDocument<E>),
    UnsupportedVersion { version: u64 },
    Io(LoadIoError),
}

/// Why bytes do not decode.
#[derive(Debug, PartialEq, Eq)]
pub enum DecodeFailure<E> {
    Invalid(InvalidDocument<E>),
    UnsupportedVersion(u64),
}

/// Whether `version` is what a document says of its version. No key stands in an object twice.
pub open spec fn has_version(json: JsonView, version: Result<u64, InvalidVersion>) -> bool {
    match json {
        JsonView::Object(members) => keys_unique(members) && match version {
            Ok(number) => exists|at: int| #[trigger]
                is_member_at(members, "schema_version"@, at) && members[at].value
                    == JsonView::Unsigned(number),
            Err(InvalidVersion::Missing) => forall|at: int|
                !#[trigger] is_member_at(members, "schema_version"@, at),
            Err(InvalidVersion::NotUnsignedInteger) => exists|at: int| #[trigger]
                is_member_at(members, "schema_version"@, at) && !(members[at].value is Unsigned),
            Err(InvalidVersion::RootNotObject) => false,
        },
        _ => version == Err::<u64, InvalidVersion>(InvalidVersion::RootNotObject),
    }
}

/// The version of a document.
pub fn extract_version(value: &serde_json::Value) -> (version: Result<u64, InvalidVersion>)
    ensures
        has_version(json_of(*value), version),
{
    if !is_object(value) {
        return Err(InvalidVersion::RootNotObject);
    }
    match get_member(value, "schema_version") {
        None => Err(InvalidVersion::Missing),
        Some(member) => match as_unsigned(member) {
            None => Err(InvalidVersion::NotUnsignedInteger),
            Some(version) => Ok(version),
        },
    }
}

/// Whether `decoded` is what the codec may make of what was parsed: malformed JSON and a document
/// without a version come to nothing, a version that is not supported is not decoded, and else
/// the codec decides.
pub open spec fn decodes_to<C: DocumentCodec>(
    parsed: Result<serde_json::Value, String>,
    codec: &C,
    decoded: Result<LoadedDocument<C::Current>, DecodeFailure<C::Error>>,
) -> bool {
    match parsed {
        Err(words) => match decoded {
            Err(DecodeFailure::Invalid(InvalidDocument::MalformedJson(said))) => said@ == words@,
            _ => false,
        },
        Ok(value) => match decoded {
            Err(DecodeFailure::Invalid(InvalidDocument::MalformedJson(_))) => false,
            Err(DecodeFailure::Invalid(InvalidDocument::InvalidVersion(error))) => has_version(
                json_of(value),
                Err(error),
            ),
            Err(DecodeFailure::UnsupportedVersion(version)) => has_version(
                json_of(value),
                Ok(version),
            ) && call_ensures(C::supports_version, (codec, version), false),
            Err(DecodeFailure::Invalid(InvalidDocument::Rejected(error))) => exists|version: u64|
                #[trigger] has_version(json_of(value), Ok(version)) && call_ensures(
                    C::supports_version,
                    (codec, version),
                    true,
                ) && call_ensures(C::decode, (codec, version, value), Err(error)),
            Ok(loaded) => has_version(json_of(value), Ok(loaded.source_version)) && call_ensures(
                C::supports_version,
                (codec, loaded.source_version),
                true,
            ) && call_ensures(
                C::decode,
                (codec, loaded.source_version, value),
                Ok(loaded.document),
            ),
        },
    }
}

/// Whether `decoded` is what the bytes of a document may decode to: `parse` makes JSON of them,
/// without a repeated key, or says why it cannot.
pub open spec fn bytes_decode_to<C: DocumentCodec, P: Fn(&Vec<u8>) -> Result<
    serde_json::Value,
    String,
>>(
    bytes: Vec<u8>,
    parse: P,
    codec: &C,
    decoded: Result<LoadedDocument<C::Current>, DecodeFailure<C::Error>>,
) -> bool {
    exists|parsed: Result<serde_json::Value, String>| #[trigger]
        call_ensures(parse, (&bytes,), parsed) && decodes_to(parsed, codec, decoded)
}

/// Decodes the bytes of a document.
pub fn decode_document<C: DocumentCodec, P: Fn(&Vec<u8>) -> Result<serde_json::Value, String>>(
    bytes: &Vec<u8>,
    parse: P,
    codec: &C,
) -> (decoded: Result<LoadedDocument<C::Current>, DecodeFailure<C::Error>>)
    requires
        forall|bytes: &Vec<u8>| call_requires(parse, (bytes,)),
    ensures
        bytes_decode_to(*bytes, parse, codec, decoded),
{
    let value = match parse(bytes) {
        Err(words) => {
            return Err(DecodeFailure::Invalid(InvalidDocument::MalformedJson(words)));
        },
        Ok(value) => value,
    };
    let version = match extract_version(&value) {
        Err(error) => {
            return Err(DecodeFailure::Invalid(InvalidDocument::InvalidVersion(error)));
        },
        Ok(version) => version,
    };
    if !codec.supports_version(version) {
        return Err(DecodeFailure::UnsupportedVersion(version));
    }
    match codec.decode(version, value) {
        Err(error) => Err(DecodeFailure::Invalid(InvalidDocument::Rejected(error))),
        Ok(document) => Ok(LoadedDocument { source_version: version, document }),
    }
}

/// What was found where a document should be.
pub enum FoundDocument {
    Missing,
    Read(Vec<u8>),
    Unreadable(LoadIoError),
}

/// Whether `outcome` is what loading what was found may come to.
pub open spec fn loads_to<C: DocumentCodec, P: Fn(&Vec<u8>) -> Result<serde_json::Value, String>>(
    found: FoundDocument,
    parse: P,
    codec: &C,
    outcome: LoadOutcome<C::Current, C::Error>,
) -> bool {
    match found {
        FoundDocument::Missing => outcome is Missing,
        FoundDocument::Unreadable(error) => outcome == LoadOutcome::<C::Current, C::Error>::Io(
            error,
        ),
        FoundDocument::Read(bytes) => match outcome {
            LoadOutcome::Loaded(loaded) => bytes_decode_to(bytes, parse, codec, Ok(loaded)),
            LoadOutcome::Invalid(error) => bytes_decode_to(
                bytes,
                parse,
                codec,
                Err(DecodeFailure::Invalid(error)),
            ),
            LoadOutcome::UnsupportedVersion { version } => bytes_decode_to(
                bytes,
                parse,
                codec,
                Err(DecodeFailure::UnsupportedVersion(version)),
            ),
            _ => false,
        },
    }
}

/// Loads what was found. Nothing is written back.
pub fn load<C: DocumentCodec, P: Fn(&Vec<u8>) -> Result<serde_json::Value, String>>(
    found: FoundDocument,
    parse: P,
    codec: &C,
) -> (outcome: LoadOutcome<C::Current, C::Error>)
    requires
        forall|bytes: &Vec<u8>| call_requires(parse, (bytes,)),
    ensures
        loads_to(found, parse, codec, outcome),
{
    match found {
        FoundDocument::Missing => LoadOutcome::Missing,
        FoundDocument::Unreadable(error) => LoadOutcome::Io(error),
        FoundDocument::Read(bytes) => match decode_document(&bytes, parse, codec) {
            Ok(document) => LoadOutcome::Loaded(document),
            Err(DecodeFailure::Invalid(error)) => LoadOutcome::Invalid(error),
            Err(DecodeFailure::UnsupportedVersion(version)) => LoadOutcome::UnsupportedVersion {
                version,
            },
        },
    }
}

/// Whether `key` is new to an object; it is remembered where it is.
pub fn admit_key(keys: &mut Vec<String>, key: &str) -> (admitted: bool)
    ensures
        admitted == !text_views(old(keys)@).contains(key@),
        text_views(final(keys)@) == (if admitted {
            text_views(old(keys)@).push(key@)
        } else {
            text_views(old(keys)@)
        }),
{
    let ghost before = text_views(keys@);
    let mut index: usize = 0;
    while index < keys.len()
        invariant
            index <= keys@.len(),
            before == text_views(keys@),
            forall|i: int| 0 <= i < index ==> before[i] != key@,
        decreases keys@.len() - index,
    {
        assert(before[index as int] == keys@[index as int]@);
        if same_text(keys[index].as_str(), key) {
            assert(before.contains(key@));
            return false;
        }
        index += 1;
    }
    keys.push(key.to_owned());
    assert(text_views(keys@) =~= before.push(key@));
    true
}

/// The bytes parse as `value`, and as nothing else.
pub open spec fn parses_as<P: Fn(&Vec<u8>) -> Result<serde_json::Value, String>>(
    bytes: Vec<u8>,
    parse: P,
    value: serde_json::Value,
) -> bool {
    forall|parsed: Result<serde_json::Value, String>| #[trigger]
        call_ensures(parse, (&bytes,), parsed) ==> parsed == Ok::<serde_json::Value, String>(value)
}

/// Loading has no outcome but those that the document and the codec account for: a document
/// whose version is not an unsigned integer is never decoded.
pub proof fn versions_come_first<
    C: DocumentCodec,
    P: Fn(&Vec<u8>) -> Result<serde_json::Value, String>,
>(
    bytes: Vec<u8>,
    parse: P,
    value: serde_json::Value,
    codec: &C,
    outcome: LoadOutcome<C::Current, C::Error>,
    error: InvalidVersion,
)
    requires
        parses_as(bytes, parse, value),
        loads_to(FoundDocument::Read(bytes), parse, codec, outcome),
        has_version(json_of(value), Err(error)),
    ensures
        outcome == LoadOutcome::<C::Current, C::Error>::Invalid(
            InvalidDocument::InvalidVersion(error),
        ),
{
}

/// The version of a document is the number that stands under `schema_version`, whatever else the
/// document holds and wherever it stands.
pub proof fn versions_stand_under_their_key(members: Seq<MemberView>, at: int, number: u64)
    requires
        keys_unique(members),
        0 <= at < members.len(),
        members[at].key == "schema_version"@,
    ensures
        has_version(JsonView::Object(members), Ok(number)) <==> members[at].value
            == JsonView::Unsigned(number),
        has_version(JsonView::Object(members), Err(InvalidVersion::NotUnsignedInteger))
            <==> !(members[at].value is Unsigned),
        !has_version(JsonView::Object(members), Err(InvalidVersion::Missing)),
        !has_version(JsonView::Object(members), Err(InvalidVersion::RootNotObject)),
{
    assert(is_member_at(members, "schema_version"@, at));
    assert forall|other: int| #[trigger] is_member_at(members, "schema_version"@, other) implies other
        == at by {
        if other < at {
            assert(members[other].key != members[at].key);
        } else if at < other {
            assert(members[at].key != members[other].key);
        }
    }
}

/// A document without the key has no version, and neither has one that is no object.
pub proof fn versions_can_be_missing(json: JsonView, number: u64)
    requires
        json matches JsonView::Object(members) ==> keys_unique(members) && forall|i: int|
            0 <= i < members.len() ==> (#[trigger] members[i]).key != "schema_version"@,
    ensures
        !has_version(json, Ok(number)),
        json is Object ==> has_version(json, Err(InvalidVersion::Missing)),
        !(json is Object) ==> has_version(json, Err(InvalidVersion::RootNotObject)),
{
}

/// A document is loaded only in a version that the codec takes, and as what the codec reads it as
/// in that version; a version that it does not take is named.
pub proof fn documents_are_read_in_their_version<
    C: DocumentCodec,
    P: Fn(&Vec<u8>) -> Result<serde_json::Value, String>,
>(
    bytes: Vec<u8>,
    parse: P,
    value: serde_json::Value,
    codec: &C,
    outcome: LoadOutcome<C::Current, C::Error>,
)
    requires
        parses_as(bytes, parse, value),
        loads_to(FoundDocument::Read(bytes), parse, codec, outcome),
    ensures
        outcome matches LoadOutcome::Loaded(loaded) ==> {
            &&& has_version(json_of(value), Ok(loaded.source_version))
            &&& call_ensures(C::supports_version, (codec, loaded.source_version), true)
            &&& call_ensures(
                C::decode,
                (codec, loaded.source_version, value),
                Ok(loaded.document),
            )
        },
        outcome matches LoadOutcome::UnsupportedVersion { version } ==> has_version(
            json_of(value),
            Ok(version),
        ) && call_ensures(C::supports_version, (codec, version), false),
        !(outcome is Missing),
        !(outcome is Io),
{
}

/// What is missing or cannot be read is never parsed.
pub proof fn missing_documents_are_not_parsed<
    C: DocumentCodec,
    P: Fn(&Vec<u8>) -> Result<serde_json::Value, String>,
>(
    found: FoundDocument,
    parse: P,
    codec: &C,
    outcome: LoadOutcome<C::Current, C::Error>,
)
    requires
        loads_to(found, parse, codec, outcome),
    ensures
        found is Missing <==> outcome is Missing,
        found is Unreadable <==> outcome is Io,
        found matches FoundDocument::Unreadable(error) ==> outcome->Io_0 == error,
{
}

} // verus!
