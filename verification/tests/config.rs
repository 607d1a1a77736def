use cane::config::document::{
    admit_key, load, DocumentCodec, FoundDocument, InvalidDocument, InvalidVersion, LoadFailure,
    LoadIoError, LoadOutcome,
};
use cane::config::json::{pretty_json_value, sort_object_keys};
use cane::config::storage::{
    finish_update, plan_archive, plan_refresh, prepare_update, start_update, ArchiveError,
    ArchiveRefusal, ConfigFile, ConfigFileError, LockWait, PrepareUpdateError, PreparedUpdate,
    RefreshOutcome, UpdateError, DEFAULT_LOCK_TIMEOUT, LOCK_POLL_INTERVAL,
};
use cane::path::HostPath;
use serde::de::{Deserialize, Deserializer, MapAccess, SeqAccess, Visitor};
use serde_json::{Number, Value};

const CURRENT_VERSION: u64 = 1;

#[derive(Debug, Clone, PartialEq, Eq)]
struct CurrentDocument {
    schema_version: u64,
    values: Vec<String>,
}

fn object(members: &[(&str, Value)]) -> Value {
    let mut object = serde_json::Map::new();
    for (key, value) in members {
        object.insert((*key).to_string(), value.clone());
    }
    Value::Object(object)
}

fn encode(document: &CurrentDocument) -> Value {
    object(&[
        ("schema_version", Value::from(document.schema_version)),
        ("values", Value::from(document.values.clone())),
    ])
}

fn texts(value: &Value) -> Option<Vec<String>> {
    value
        .as_array()?
        .iter()
        .map(|item| item.as_str().map(str::to_string))
        .collect()
}

#[derive(Debug, Clone, Copy)]
struct TestCodec;

impl DocumentCodec for TestCodec {
    type Current = CurrentDocument;
    type Error = String;

    fn current_version(&self) -> u64 {
        CURRENT_VERSION
    }

    fn supports_version(&self, version: u64) -> bool {
        matches!(version, 0 | CURRENT_VERSION)
    }

    fn decode(&self, version: u64, document: Value) -> Result<Self::Current, Self::Error> {
        match version {
            0 => Ok(CurrentDocument {
                schema_version: CURRENT_VERSION,
                values: vec![document["value"].as_str().ok_or("no value")?.to_string()],
            }),
            CURRENT_VERSION => Ok(CurrentDocument {
                schema_version: version,
                values: texts(&document["values"]).ok_or("no values")?,
            }),
            _ => unreachable!(),
        }
    }
}

#[derive(Debug, Clone, Copy)]
struct LimitedCodec;

impl DocumentCodec for LimitedCodec {
    type Current = CurrentDocument;
    type Error = String;

    fn current_version(&self) -> u64 {
        TestCodec.current_version()
    }

    fn supports_version(&self, version: u64) -> bool {
        TestCodec.supports_version(version)
    }

    fn decode(&self, version: u64, document: Value) -> Result<Self::Current, Self::Error> {
        let document = TestCodec.decode(version, document)?;
        if document.values.len() > 1 {
            return Err("too many values".to_owned());
        }
        Ok(document)
    }
}

#[derive(Debug, Clone, Copy)]
struct UnsupportedCurrentCodec;

impl DocumentCodec for UnsupportedCurrentCodec {
    type Current = CurrentDocument;
    type Error = String;

    fn current_version(&self) -> u64 {
        2
    }

    fn supports_version(&self, version: u64) -> bool {
        version == CURRENT_VERSION
    }

    fn decode(&self, _version: u64, _document: Value) -> Result<Self::Current, Self::Error> {
        panic!("an unsupported current version must be rejected before decoding")
    }
}

/// A JSON value in which no object has a key twice.
struct UniqueValue(Value);

impl<'de> Deserialize<'de> for UniqueValue {
    fn deserialize<D: Deserializer<'de>>(deserializer: D) -> Result<Self, D::Error> {
        deserializer.deserialize_any(UniqueValueVisitor)
    }
}

struct UniqueValueVisitor;

impl<'de> Visitor<'de> for UniqueValueVisitor {
    type Value = UniqueValue;

    fn expecting(&self, formatter: &mut std::fmt::Formatter<'_>) -> std::fmt::Result {
        formatter.write_str("a JSON value without duplicate object keys")
    }

    fn visit_bool<E>(self, value: bool) -> Result<Self::Value, E> {
        Ok(UniqueValue(Value::Bool(value)))
    }

    fn visit_u64<E>(self, value: u64) -> Result<Self::Value, E> {
        Ok(UniqueValue(Value::Number(Number::from(value))))
    }

    fn visit_str<E>(self, value: &str) -> Result<Self::Value, E> {
        Ok(UniqueValue(Value::String(value.to_owned())))
    }

    fn visit_seq<A: SeqAccess<'de>>(self, mut sequence: A) -> Result<Self::Value, A::Error> {
        let mut values = Vec::new();
        while let Some(value) = sequence.next_element::<UniqueValue>()? {
            values.push(value.0);
        }
        Ok(UniqueValue(Value::Array(values)))
    }

    fn visit_map<A: MapAccess<'de>>(self, mut map: A) -> Result<Self::Value, A::Error> {
        let mut keys = Vec::new();
        let mut values = serde_json::Map::new();
        while let Some(key) = map.next_key::<String>()? {
            if !admit_key(&mut keys, &key) {
                return Err(serde::de::Error::custom(format!("duplicate object key {key:?}")));
            }
            let value = map.next_value::<UniqueValue>()?;
            values.insert(key, value.0);
        }
        Ok(UniqueValue(Value::Object(values)))
    }
}

fn read(contents: &[u8]) -> FoundDocument {
    FoundDocument::Read(contents.to_vec())
}

fn parse(bytes: &Vec<u8>) -> Result<Value, String> {
    serde_json::from_slice::<UniqueValue>(bytes)
        .map(|unique| unique.0)
        .map_err(|error| error.to_string())
}

fn fixture() -> ConfigFile {
    ConfigFile::new(HostPath::from_text("/root/config/settings.json")).unwrap()
}

fn current(values: &[&str]) -> CurrentDocument {
    CurrentDocument {
        schema_version: CURRENT_VERSION,
        values: values.iter().map(|value| (*value).to_owned()).collect(),
    }
}

#[test]
fn sidecar_paths_are_derived_and_distinct() {
    let document = HostPath::from_text("/root/config/settings.json");

    let config = ConfigFile::new(document.clone()).unwrap();

    assert_eq!(config.document_path(), &document);
    assert_eq!(config.lock_path(), &HostPath::from_text("/root/config/settings.lock"));
    assert_eq!(
        config.schema_path(),
        &HostPath::from_text("/root/config/settings.schema.json")
    );
    assert_ne!(config.document_path(), config.lock_path());
    assert_ne!(config.document_path(), config.schema_path());
    assert_ne!(config.lock_path(), config.schema_path());
    assert_eq!(config.lock_timeout(), DEFAULT_LOCK_TIMEOUT);
}

#[test]
fn constructor_rejects_a_document_that_would_alias_its_lock_sidecar() {
    for file_name in ["settings.lock", "settings.LOCK"] {
        let document =
            HostPath::from_text("/root/config").join(&HostPath::from_text(file_name));

        let result = ConfigFile::new(document.clone());

        assert!(matches!(
            result,
            Err(ConfigFileError::DerivedPathCollision {
                document: rejected,
                sidecar_kind: "lock"
            }) if rejected == document
        ));
    }
}

#[test]
fn documents_need_a_directory_and_a_name() {
    let bare = HostPath::from_text("settings.json");
    let unnamed = HostPath::from_text("/root/config/..");

    assert_eq!(
        ConfigFile::new(bare.clone()).unwrap_err(),
        ConfigFileError::MissingParent(bare)
    );
    let error = ConfigFile::new(unnamed.clone()).unwrap_err();
    assert_eq!(
        error.describe(),
        "configuration document path has no file name: /root/config/.."
    );
    assert_eq!(error, ConfigFileError::MissingFileName(unnamed));
}

#[test]
fn missing_document_has_a_distinct_outcome() {
    let outcome = load(FoundDocument::Missing, parse, &TestCodec);

    assert!(matches!(outcome, LoadOutcome::Missing));
}

#[test]
fn malformed_and_duplicate_key_documents_are_invalid() {
    for contents in [
        br#"{"schema_version":1,"values":["unfinished"]"#.as_slice(),
        br#"{"schema_version":1,"schema_version":1,"values":[]}"#.as_slice(),
    ] {
        let outcome = load(read(contents), parse, &TestCodec);

        assert!(matches!(
            outcome,
            LoadOutcome::Invalid(InvalidDocument::MalformedJson(_))
        ));
    }
}

#[test]
fn current_document_loads_into_the_current_model() {
    let outcome = load(read(br#"{"schema_version":1,"values":["current"]}"#), parse, &TestCodec);

    let LoadOutcome::Loaded(loaded) = outcome else {
        panic!("expected a loaded document");
    };
    assert_eq!(loaded.source_version, CURRENT_VERSION);
    assert_eq!(loaded.document, current(&["current"]));
    assert!(!loaded.was_migrated(&TestCodec));
}

#[test]
fn supported_old_document_migrates_without_rewriting_during_load() {
    let found = read(br#"{"schema_version":0,"value":"old formatting"}"#);

    let outcome = load(found, parse, &TestCodec);

    let LoadOutcome::Loaded(loaded) = outcome else {
        panic!("expected a loaded document");
    };
    assert_eq!(loaded.document, current(&["old formatting"]));
    assert!(loaded.was_migrated(&TestCodec));
}

#[test]
fn next_successful_update_after_migration_writes_the_current_version() {
    let found = load(read(br#"{"schema_version":0,"value":"old"}"#), parse, &TestCodec);

    let mut document = start_update(found).unwrap().unwrap();
    document.values.push("new".to_owned());
    let bytes = finish_update(&encode(&document), &TestCodec).unwrap();

    let persisted: Value = serde_json::from_slice(&bytes).unwrap();
    assert_eq!(persisted["schema_version"], CURRENT_VERSION);
    assert_eq!(texts(&persisted["values"]).unwrap(), ["old", "new"]);
}

#[test]
fn unsupported_document_has_a_distinct_outcome() {
    let outcome = load(read(br#"{"schema_version":99,"future":true}"#), parse, &TestCodec);

    assert!(matches!(outcome, LoadOutcome::UnsupportedVersion { version: 99 }));
}

#[test]
fn documents_without_a_usable_version_are_invalid() {
    let cases = [
        (b"[1]".as_slice(), InvalidVersion::RootNotObject),
        (br#"{"values":[]}"#.as_slice(), InvalidVersion::Missing),
        (br#"{"schema_version":"1"}"#.as_slice(), InvalidVersion::NotUnsignedInteger),
    ];

    for (contents, expected) in cases {
        assert_eq!(
            load(read(contents), parse, &TestCodec),
            LoadOutcome::Invalid(InvalidDocument::InvalidVersion(expected))
        );
    }
}

#[test]
fn documents_that_the_codec_rejects_are_invalid() {
    assert_eq!(
        load(read(br#"{"schema_version":1}"#), parse, &TestCodec),
        LoadOutcome::Invalid(InvalidDocument::Rejected("no values".to_string()))
    );
}

#[test]
fn unreadable_shape_has_a_distinct_io_outcome() {
    let config = fixture();
    let found = FoundDocument::Unreadable(LoadIoError {
        operation: "read",
        path: config.document_path().clone(),
        source: "Is a directory".to_string(),
    });

    let outcome = load(found, parse, &TestCodec);

    let LoadOutcome::Io(error) = outcome else {
        panic!("expected an I/O outcome");
    };
    assert_eq!(error.operation(), "read");
    assert_eq!(error.path(), config.document_path());
    assert_eq!(error.source_error(), "Is a directory");
    assert_eq!(
        error.describe(),
        "failed to read /root/config/settings.json: Is a directory"
    );
}

#[test]
fn pretty_json_is_canonical_and_has_one_trailing_newline() {
    let first = object(&[
        ("z", object(&[("second", Value::from(2)), ("first", Value::from(1))])),
        ("a", Value::from(true)),
    ]);
    let second = object(&[
        ("a", Value::from(true)),
        ("z", object(&[("first", Value::from(1)), ("second", Value::from(2))])),
    ]);

    let first_bytes = pretty_json_value(&first).unwrap();
    let second_bytes = pretty_json_value(&second).unwrap();

    assert_eq!(first_bytes, second_bytes);
    assert_eq!(
        String::from_utf8(first_bytes).unwrap(),
        "{\n  \"a\": true,\n  \"z\": {\n    \"first\": 1,\n    \"second\": 2\n  }\n}\n"
    );
}

#[test]
fn ordering_keys_leaves_everything_else() {
    let value: Value =
        serde_json::from_str(r#"[null,{"b":[{"d":-1,"c":"text"}],"a":false},2.5]"#).unwrap();

    let sorted = sort_object_keys(value.clone());

    assert_eq!(sorted, value);
    assert_eq!(
        serde_json::to_string(&sorted).unwrap(),
        r#"[null,{"a":false,"b":[{"c":"text","d":-1}]},2.5]"#
    );
}

#[test]
fn schema_refresh_writes_only_when_content_differs() {
    let generated = b"{}\n".to_vec();

    assert_eq!(plan_refresh(&None, &generated), RefreshOutcome::Written);
    assert_eq!(
        plan_refresh(&Some(generated.clone()), &generated),
        RefreshOutcome::Unchanged
    );
    assert_eq!(
        plan_refresh(&Some(b"stale schema\n".to_vec()), &generated),
        RefreshOutcome::Written
    );
}

#[test]
fn a_writer_waits_for_its_lock_until_its_time_is_over() {
    let config = fixture();
    let impatient = fixture().with_lock_timeout(0);

    assert_eq!(config.await_lock(0), LockWait::Sleep(LOCK_POLL_INTERVAL));
    assert_eq!(config.await_lock(DEFAULT_LOCK_TIMEOUT - 3), LockWait::Sleep(3));
    assert_eq!(config.await_lock(DEFAULT_LOCK_TIMEOUT), LockWait::TimedOut);
    assert_eq!(impatient.await_lock(0), LockWait::TimedOut);
    assert_eq!(impatient.lock_timeout(), 0);
}

#[test]
fn locked_update_refuses_an_invalid_document_before_mutation() {
    let result = start_update(load(read(b"not json"), parse, &TestCodec));

    assert!(matches!(result, Err(LoadFailure::Invalid(_))));
}

#[test]
fn an_update_starts_from_what_is_there() {
    assert_eq!(start_update(load(FoundDocument::Missing, parse, &TestCodec)), Ok(None));
    assert_eq!(
        start_update(load(read(br#"{"schema_version":1,"values":["a"]}"#), parse, &TestCodec)),
        Ok(Some(current(&["a"])))
    );
    assert_eq!(
        start_update(load(read(br#"{"schema_version":7}"#), parse, &TestCodec)),
        Err(LoadFailure::UnsupportedVersion { version: 7 })
    );
}

#[test]
fn update_rejects_a_model_that_does_not_emit_the_current_version() {
    let result = finish_update(
        &encode(&CurrentDocument { schema_version: 0, values: Vec::new() }),
        &TestCodec,
    );

    let error = result.unwrap_err();
    assert_eq!(
        error,
        UpdateError::CurrentVersion { expected: CURRENT_VERSION, found: Some(0) }
    );
    assert_eq!(
        error.describe(),
        "current document must contain schema_version 1, found Some(0)"
    );
    assert_eq!(
        finish_update(&Value::Null, &TestCodec).unwrap_err().describe(),
        "current document must contain schema_version 1, found None"
    );
}

#[test]
fn update_rejects_a_codec_that_does_not_support_its_current_version() {
    let result = finish_update(
        &encode(&CurrentDocument { schema_version: 2, values: Vec::new() }),
        &UnsupportedCurrentCodec,
    );

    assert!(matches!(
        result,
        Err(UpdateError::UnsupportedCurrentVersion { version: 2 })
    ));
}

#[test]
fn update_rejects_a_current_document_that_the_codec_cannot_load() {
    let existing = finish_update(&encode(&current(&["existing"])), &LimitedCodec).unwrap();
    let found = start_update(load(read(&existing), parse, &LimitedCodec)).unwrap();
    assert_eq!(found, Some(current(&["existing"])));

    let result = finish_update(&encode(&current(&["one", "two"])), &LimitedCodec);

    assert!(matches!(
        result,
        Err(UpdateError::InvalidCurrent(error)) if error == "too many values"
    ));
}

#[test]
fn invalid_document_is_archived_only_by_explicit_operation() {
    let config = fixture();
    let archive = config.document_path().with_extension("invalid.json");

    let loaded = load(read(b"{ definitely invalid"), parse, &TestCodec);
    let plan = plan_archive(&config, loaded, &archive);

    assert_eq!(plan, Ok(()));
}

#[test]
fn archiving_refuses_valid_and_unsupported_documents() {
    for (contents, expected) in [
        (br#"{"schema_version":1,"values":[]}"#.as_slice(), ArchiveRefusal::Valid),
        (
            br#"{"schema_version":42}"#.as_slice(),
            ArchiveRefusal::UnsupportedVersion { version: 42 },
        ),
    ] {
        let config = fixture();
        let archive = config.document_path().with_extension("invalid.json");

        let result = plan_archive(&config, load(read(contents), parse, &TestCodec), &archive);

        assert!(matches!(
            result,
            Err(ArchiveError::Refused(actual)) if actual == expected
        ));
    }
    assert_eq!(
        plan_archive(
            &fixture(),
            load(FoundDocument::Missing, parse, &TestCodec),
            &HostPath::from_text("/root/config/x"),
        )
        .unwrap_err()
        .describe(),
        "the document is missing"
    );
}

#[test]
fn archiving_rejects_a_nonadjacent_destination_without_moving_the_document() {
    let config = fixture();
    let archive = HostPath::from_text("/root/elsewhere/invalid.json");

    let result = plan_archive(&config, load(read(b"{ invalid"), parse, &TestCodec), &archive);

    assert_eq!(
        result.unwrap_err().describe(),
        "archive /root/elsewhere/invalid.json is not adjacent to document /root/config/settings.json"
    );
}

fn serialize(document: &CurrentDocument) -> Result<Value, String> {
    Ok(encode(document))
}

#[test]
fn an_update_hands_the_document_to_the_mutation_and_loads_back_as_current() {
    let found = read(br#"{"schema_version":0,"value":"old"}"#);

    let update = prepare_update(
        found,
        parse,
        &TestCodec,
        |document: Option<CurrentDocument>| {
            let mut document = document.ok_or("nothing to change")?;
            document.values.push("new".to_string());
            Ok::<CurrentDocument, &str>(document)
        },
        serialize,
    )
    .unwrap();

    assert_eq!(update.document, current(&["old", "new"]));
    assert_eq!(update.bytes, pretty_json_value(&encode(&update.document)).unwrap());
    let LoadOutcome::Loaded(loaded) = load(read(&update.bytes), parse, &TestCodec) else {
        panic!("expected a loaded document");
    };
    assert_eq!(loaded.source_version, CURRENT_VERSION);
    assert_eq!(loaded.document, update.document);
    assert!(!loaded.was_migrated(&TestCodec));
}

#[test]
fn an_update_of_nothing_starts_without_a_document() {
    let update = prepare_update(
        FoundDocument::Missing,
        parse,
        &TestCodec,
        |document| {
            assert_eq!(document, None);
            Ok::<CurrentDocument, String>(current(&["first"]))
        },
        serialize,
    );

    assert_eq!(
        update,
        Ok(PreparedUpdate {
            bytes: b"{\n  \"schema_version\": 1,\n  \"values\": [\n    \"first\"\n  ]\n}\n"
                .to_vec(),
            document: current(&["first"]),
        })
    );
}

#[test]
fn a_failed_update_has_nothing_to_write() {
    let never = |_: Option<CurrentDocument>| -> Result<CurrentDocument, String> { unreachable!() };

    assert!(matches!(
        prepare_update(read(b"not json"), parse, &TestCodec, never, serialize),
        Err(PrepareUpdateError::Load(LoadFailure::Invalid(_)))
    ));
    assert_eq!(
        prepare_update(read(br#"{"schema_version":7}"#), parse, &TestCodec, never, serialize),
        Err(PrepareUpdateError::Load(LoadFailure::UnsupportedVersion { version: 7 }))
    );
    assert_eq!(
        prepare_update(
            FoundDocument::Missing,
            parse,
            &TestCodec,
            |_| Err("not now".to_string()),
            serialize,
        ),
        Err(PrepareUpdateError::Mutation("not now".to_string()))
    );
    assert_eq!(
        prepare_update(
            FoundDocument::Missing,
            parse,
            &TestCodec,
            |_| Ok::<CurrentDocument, String>(current(&[])),
            |_: &CurrentDocument| Err("key must be a string".to_string()),
        ),
        Err(PrepareUpdateError::Refused(UpdateError::Serialize(
            "key must be a string".to_string()
        )))
    );
    assert!(matches!(
        prepare_update(
            FoundDocument::Missing,
            parse,
            &LimitedCodec,
            |_| Ok::<CurrentDocument, String>(current(&["one", "two"])),
            serialize,
        ),
        Err(PrepareUpdateError::Refused(UpdateError::InvalidCurrent(error)))
            if error == "too many values"
    ));
}
