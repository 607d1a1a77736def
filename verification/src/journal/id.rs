//! Identifiers: a domain prefix, an underscore and a ULID.
use crate::text::strip_prefix;
use vstd::prelude::*;
use vstd::string::StringExecFns;
use vstd::utf8::{encode_utf8, is_ascii_chars, is_ascii_chars_encode_utf8};

verus! {

/// Why a text is not a ULID.
#[derive(Clone, Copy, Debug, PartialEq, Eq, Structural)]
pub enum UlidError {
    InvalidLength,
    InvalidChar,
}

impl UlidError {
    /// The error in words.
    pub fn describe(&self) -> (words: &'static str)
        ensures
            words@ == match self {
                UlidError::InvalidLength => "invalid length"@,
                UlidError::InvalidChar => "invalid character"@,
            },
    {
        match self {
            UlidError::InvalidLength => "invalid length",
            UlidError::InvalidChar => "invalid character",
        }
    }
}

/// The characters that may stand in a ULID, in either case: digits and the letters other than
/// `I`, `L`, `O` and `U`.
pub open spec fn is_ulid_character(character: char) -> bool {
    ||| '0' <= character <= '9'
    ||| 'A' <= character <= 'Z' && character != 'I' && character != 'L' && character != 'O'
        && character != 'U'
    ||| 'a' <= character <= 'z' && character != 'i' && character != 'l' && character != 'o'
        && character != 'u'
}

/// Why a text is not a ULID, if it is none: it has to hold 26 bytes, and ULID characters alone.
pub open spec fn ulid_fault(encoded: Seq<char>) -> Option<UlidError> {
    if encode_utf8(encoded).len() != 26 {
        Some(UlidError::InvalidLength)
    } else if exists|i: int| 0 <= i < encoded.len() && !is_ulid_character(#[trigger] encoded[i]) {
        Some(UlidError::InvalidChar)
    } else {
        None
    }
}

/// The number that a ULID character stands for: the digits and then the letters that may stand in
/// a ULID count from 0 to 31, in either case.
pub open spec fn ulid_digit(character: char) -> int {
    let code: int = if 'a' <= character <= 'z' {
        character as u32 - 32
    } else {
        character as u32 as int
    };
    if code <= '9' as u32 {
        code - 48
    } else if code < 'I' as u32 {
        code - 55
    } else if code < 'L' as u32 {
        code - 56
    } else if code < 'O' as u32 {
        code - 57
    } else if code < 'U' as u32 {
        code - 58
    } else {
        code - 59
    }
}

/// The number that ULID characters stand for, to the base of 32.
pub open spec fn ulid_number(encoded: Seq<char>) -> int
    decreases encoded.len(),
{
    if encoded.len() == 0 {
        0
    } else {
        32 * ulid_number(encoded.drop_last()) + ulid_digit(encoded.last())
    }
}

/// What a text reads as a ULID: its number, as far as 128 bits hold it.
pub open spec fn ulid_decoded(encoded: Seq<char>) -> Result<u128, UlidError> {
    match ulid_fault(encoded) {
        Some(error) => Err(error),
        None => Ok((ulid_number(encoded) % (u128::MAX + 1)) as u128),
    }
}

/// The last `count` digits of a number to the base of 32, as ULID characters.
pub open spec fn ulid_characters(number: int, count: nat) -> Seq<char>
    decreases count,
{
    if count == 0 {
        Seq::empty()
    } else {
        ulid_characters(number / 32, (count - 1) as nat).push(
            "0123456789ABCDEFGHJKMNPQRSTVWXYZ"@[number % 32],
        )
    }
}

/// The 26 characters of a ULID.
pub open spec fn ulid_encoded(value: u128) -> Seq<char> {
    ulid_characters(value as int, 26)
}

/// `ulid::Ulid::from_string` reads a text of 26 bytes that holds ULID characters alone as a number
/// to the base of 32, and drops what 128 bits do not hold of it. A text of another length is
/// refused for its length, and one that holds another character for that.
#[verifier::external_body]
fn decode_ulid(encoded: &str) -> (decoded: Result<u128, UlidError>)
    ensures
        decoded == ulid_decoded(encoded@),
{
    match ulid::Ulid::from_string(encoded) {
        Ok(value) => Ok(value.0),
        Err(ulid::DecodeError::InvalidLength) => Err(UlidError::InvalidLength),
        Err(ulid::DecodeError::InvalidChar) => Err(UlidError::InvalidChar),
    }
}

/// `ulid::Ulid::to_string` writes a value as 26 digits to the base of 32, with letters in upper
/// case.
#[verifier::external_body]
fn encode_ulid(value: u128) -> (encoded: String)
    ensures
        encoded@ == ulid_encoded(value),
{
    ulid::Ulid(value).to_string()
}

proof fn lemma_ulid_alphabet(digit: int)
    requires
        0 <= digit < 32,
    ensures
        ({
            let character = "0123456789ABCDEFGHJKMNPQRSTVWXYZ"@[digit];
            &&& is_ulid_character(character)
            &&& ulid_digit(character) == digit
        }),
{
    reveal_strlit("0123456789ABCDEFGHJKMNPQRSTVWXYZ");
}

/// How many numbers `count` digits to the base of 32 can tell apart.
spec fn ulid_capacity(count: nat) -> int
    decreases count,
{
    if count == 0 {
        1
    } else {
        32 * ulid_capacity((count - 1) as nat)
    }
}

proof fn lemma_ulid_characters(number: int, count: nat)
    requires
        0 <= number < ulid_capacity(count),
    ensures
        ulid_characters(number, count).len() == count,
        ulid_number(ulid_characters(number, count)) == number,
        forall|i: int|
            0 <= i < count ==> is_ulid_character(#[trigger] ulid_characters(number, count)[i]),
    decreases count,
{
    if count > 0 {
        let rest = ulid_characters(number / 32, (count - 1) as nat);
        lemma_ulid_alphabet(number % 32);
        lemma_ulid_characters(number / 32, (count - 1) as nat);
        assert(ulid_characters(number, count).drop_last() =~= rest);
    }
}

/// Reading what was written for a value gives the value back.
pub proof fn ulids_round_trip(value: u128)
    ensures
        ulid_encoded(value).len() == 26,
        ulid_decoded(ulid_encoded(value)) == Ok::<u128, UlidError>(value),
{
    assert(ulid_capacity(26) > u128::MAX) by {
        reveal_with_fuel(ulid_capacity, 27);
    }
    lemma_ulid_characters(value as int, 26);
    assert(is_ascii_chars(ulid_encoded(value)));
    is_ascii_chars_encode_utf8(ulid_encoded(value));
}

/// `ulid::Ulid::generate` makes a fresh value out of the time and chance: any value may come out.
#[verifier::external_body]
fn generate_ulid() -> (value: u128) {
    ulid::Ulid::generate().0
}

/// The value is one that the generator gave.
pub closed spec fn is_drawn(value: u128) -> bool {
    call_ensures(generate_ulid, (), value)
}

/// Why a text is not an identifier of the expected domain.
#[derive(Debug, PartialEq, Eq)]
pub enum IdParseError {
    InvalidPrefix { expected_prefix: &'static str, value: String },
    InvalidUlid { source: UlidError, value: String },
}

impl IdParseError {
    /// The error in words.
    pub fn describe(&self) -> (words: String)
        ensures
            words@ == match self {
                IdParseError::InvalidPrefix { expected_prefix, value } => "ID '"@ + value@
                    + "' must start with '"@ + expected_prefix@ + "'"@,
                IdParseError::InvalidUlid { source, value } => "ID '"@ + value@
                    + "' does not contain a valid ULID: "@ + match source {
                    UlidError::InvalidLength => "invalid length"@,
                    UlidError::InvalidChar => "invalid character"@,
                },
            },
    {
        match self {
            IdParseError::InvalidPrefix { expected_prefix, value } => "ID '".to_owned().concat(
                value.as_str(),
            ).concat("' must start with '").concat(expected_prefix).concat("'"),
            IdParseError::InvalidUlid { source, value } => "ID '".to_owned().concat(
                value.as_str(),
            ).concat("' does not contain a valid ULID: ").concat(source.describe()),
        }
    }
}

/// What a text reads as an identifier whose prefix, underscore included, is `prefix`: nothing
/// where it does not start with the prefix, and else what the rest reads as a ULID.
pub open spec fn id_value(prefix: Seq<char>, text: Seq<char>) -> Option<Result<u128, UlidError>> {
    if prefix.is_prefix_of(text) {
        Some(ulid_decoded(text.skip(prefix.len() as int)))
    } else {
        None
    }
}

/// What parsing `text` with `prefix` must come to.
pub open spec fn id_parsed(
    prefix: Seq<char>,
    text: Seq<char>,
    parsed: Result<u128, IdParseError>,
) -> bool {
    let rest = text.skip(prefix.len() as int);
    match parsed {
        Ok(value) => prefix.is_prefix_of(text) && ulid_fault(rest) is None && id_value(
            prefix,
            text,
        ) == Some(Ok::<u128, UlidError>(value)),
        Err(IdParseError::InvalidPrefix { expected_prefix, value }) => !prefix.is_prefix_of(text)
            && expected_prefix@ == prefix && value@ == text,
        Err(IdParseError::InvalidUlid { source, value }) => prefix.is_prefix_of(text)
            && ulid_fault(rest) == Some(source) && value@ == text,
    }
}

fn parse_id(expected_prefix: &'static str, value: &str) -> (parsed: Result<u128, IdParseError>)
    ensures
        id_parsed(expected_prefix@, value@, parsed),
{
    match strip_prefix(value, expected_prefix) {
        None => Err(IdParseError::InvalidPrefix { expected_prefix, value: value.to_owned() }),
        Some(encoded) => match decode_ulid(encoded.as_str()) {
            Ok(decoded) => Ok(decoded),
            Err(source) => Err(IdParseError::InvalidUlid { source, value: value.to_owned() }),
        },
    }
}

fn render_id(prefix: &str, value: u128) -> (text: String)
    ensures
        text@ == prefix@ + ulid_encoded(value),
        id_value(prefix@, text@) == Some(Ok::<u128, UlidError>(value)),
{
    let encoded = encode_ulid(value);
    let text = prefix.to_owned().concat(encoded.as_str());
    proof {
        ulids_round_trip(value);
        assert(prefix@ =~= text@.subrange(0, prefix@.len() as int));
        assert(text@.skip(prefix@.len() as int) =~= encoded@);
    }
    text
}

/// The identifier of a session.
#[derive(Clone, Copy, Debug, PartialEq, Eq, PartialOrd, Ord, Hash, Structural)]
pub struct SessionId {
    value: u128,
}

impl SessionId {
    pub closed spec fn ulid(self) -> u128 {
        self.value
    }

    pub fn from_ulid(value: u128) -> (id: Self)
        ensures
            id.ulid() == value,
    {
        SessionId { value }
    }

    /// A fresh identifier.
    pub fn generate() -> (id: Self)
        ensures
            is_drawn(id.ulid()),
    {
        SessionId { value: generate_ulid() }
    }

    /// Reads an identifier that starts with `sess_`.
    pub fn parse(value: &str) -> (parsed: Result<Self, IdParseError>)
        ensures
            id_parsed(
                "sess_"@,
                value@,
                match parsed {
                    Ok(id) => Ok(id.ulid()),
                    Err(error) => Err(error),
                },
            ),
    {
        match parse_id("sess_", value) {
            Ok(value) => Ok(SessionId { value }),
            Err(error) => Err(error),
        }
    }

    /// The identifier as text. Parsing the text gives the identifier back.
    pub fn to_text(&self) -> (text: String)
        ensures
            text@ == "sess_"@ + ulid_encoded(self.ulid()),
            id_value("sess_"@, text@) == Some(Ok::<u128, UlidError>(self.ulid())),
    {
        render_id("sess_", self.value)
    }
}

impl std::str::FromStr for SessionId {
    type Err = IdParseError;

    fn from_str(value: &str) -> (parsed: Result<Self, IdParseError>)
        ensures
            id_parsed(
                "sess_"@,
                value@,
                match parsed {
                    Ok(id) => Ok(id.ulid()),
                    Err(error) => Err(error),
                },
            ),
    {
        Self::parse(value)
    }
}

/// The identifier of a run.
#[derive(Clone, Copy, Debug, PartialEq, Eq, PartialOrd, Ord, Hash, Structural)]
pub struct RunId {
    value: u128,
}

impl RunId {
    pub closed spec fn ulid(self) -> u128 {
        self.value
    }

    pub fn from_ulid(value: u128) -> (id: Self)
        ensures
            id.ulid() == value,
    {
        RunId { value }
    }

    /// A fresh identifier.
    pub fn generate() -> (id: Self)
        ensures
            is_drawn(id.ulid()),
    {
        RunId { value: generate_ulid() }
    }

    /// Reads an identifier that starts with `run_`.
    pub fn parse(value: &str) -> (parsed: Result<Self, IdParseError>)
        ensures
            id_parsed(
                "run_"@,
                value@,
                match parsed {
                    Ok(id) => Ok(id.ulid()),
                    Err(error) => Err(error),
                },
            ),
    {
        match parse_id("run_", value) {
            Ok(value) => Ok(RunId { value }),
            Err(error) => Err(error),
        }
    }

    /// The identifier as text. Parsing the text gives the identifier back.
    pub fn to_text(&self) -> (text: String)
        ensures
            text@ == "run_"@ + ulid_encoded(self.ulid()),
            id_value("run_"@, text@) == Some(Ok::<u128, UlidError>(self.ulid())),
    {
        render_id("run_", self.value)
    }
}

impl std::str::FromStr for RunId {
    type Err = IdParseError;

    fn from_str(value: &str) -> (parsed: Result<Self, IdParseError>)
        ensures
            id_parsed(
                "run_"@,
                value@,
                match parsed {
                    Ok(id) => Ok(id.ulid()),
                    Err(error) => Err(error),
                },
            ),
    {
        Self::parse(value)
    }
}

/// The identifier of a turn.
#[derive(Clone, Copy, Debug, PartialEq, Eq, PartialOrd, Ord, Hash, Structural)]
pub struct TurnId {
    value: u128,
}

impl TurnId {
    pub closed spec fn ulid(self) -> u128 {
        self.value
    }

    pub fn from_ulid(value: u128) -> (id: Self)
        ensures
            id.ulid() == value,
    {
        TurnId { value }
    }

    /// A fresh identifier.
    pub fn generate() -> (id: Self)
        ensures
            is_drawn(id.ulid()),
    {
        TurnId { value: generate_ulid() }
    }

    /// Reads an identifier that starts with `turn_`.
    pub fn parse(value: &str) -> (parsed: Result<Self, IdParseError>)
        ensures
            id_parsed(
                "turn_"@,
                value@,
                match parsed {
                    Ok(id) => Ok(id.ulid()),
                    Err(error) => Err(error),
                },
            ),
    {
        match parse_id("turn_", value) {
            Ok(value) => Ok(TurnId { value }),
            Err(error) => Err(error),
        }
    }

    /// The identifier as text. Parsing the text gives the identifier back.
    pub fn to_text(&self) -> (text: String)
        ensures
            text@ == "turn_"@ + ulid_encoded(self.ulid()),
            id_value("turn_"@, text@) == Some(Ok::<u128, UlidError>(self.ulid())),
    {
        render_id("turn_", self.value)
    }
}

impl std::str::FromStr for TurnId {
    type Err = IdParseError;

    fn from_str(value: &str) -> (parsed: Result<Self, IdParseError>)
        ensures
            id_parsed(
                "turn_"@,
                value@,
                match parsed {
                    Ok(id) => Ok(id.ulid()),
                    Err(error) => Err(error),
                },
            ),
    {
        Self::parse(value)
    }
}

/// The identifier of a provider round.
#[derive(Clone, Copy, Debug, PartialEq, Eq, PartialOrd, Ord, Hash, Structural)]
pub struct ProviderRoundId {
    value: u128,
}

impl ProviderRoundId {
    pub closed spec fn ulid(self) -> u128 {
        self.value
    }

    pub fn from_ulid(value: u128) -> (id: Self)
        ensures
            id.ulid() == value,
    {
        ProviderRoundId { value }
    }

    /// A fresh identifier.
    pub fn generate() -> (id: Self)
        ensures
            is_drawn(id.ulid()),
    {
        ProviderRoundId { value: generate_ulid() }
    }

    /// Reads an identifier that starts with `round_`.
    pub fn parse(value: &str) -> (parsed: Result<Self, IdParseError>)
        ensures
            id_parsed(
                "round_"@,
                value@,
                match parsed {
                    Ok(id) => Ok(id.ulid()),
                    Err(error) => Err(error),
                },
            ),
    {
        match parse_id("round_", value) {
            Ok(value) => Ok(ProviderRoundId { value }),
            Err(error) => Err(error),
        }
    }

    /// The identifier as text. Parsing the text gives the identifier back.
    pub fn to_text(&self) -> (text: String)
        ensures
            text@ == "round_"@ + ulid_encoded(self.ulid()),
            id_value("round_"@, text@) == Some(Ok::<u128, UlidError>(self.ulid())),
    {
        render_id("round_", self.value)
    }
}

impl std::str::FromStr for ProviderRoundId {
    type Err = IdParseError;

    fn from_str(value: &str) -> (parsed: Result<Self, IdParseError>)
        ensures
            id_parsed(
                "round_"@,
                value@,
                match parsed {
                    Ok(id) => Ok(id.ulid()),
                    Err(error) => Err(error),
                },
            ),
    {
        Self::parse(value)
    }
}

/// The identifier of an approval.
#[derive(Clone, Copy, Debug, PartialEq, Eq, PartialOrd, Ord, Hash, Structural)]
pub struct ApprovalId {
    value: u128,
}

impl ApprovalId {
    pub closed spec fn ulid(self) -> u128 {
        self.value
    }

    pub fn from_ulid(value: u128) -> (id: Self)
        ensures
            id.ulid() == value,
    {
        ApprovalId { value }
    }

    /// A fresh identifier.
    pub fn generate() -> (id: Self)
        ensures
            is_drawn(id.ulid()),
    {
        ApprovalId { value: generate_ulid() }
    }

    /// Reads an identifier that starts with `appr_`.
    pub fn parse(value: &str) -> (parsed: Result<Self, IdParseError>)
        ensures
            id_parsed(
                "appr_"@,
                value@,
                match parsed {
                    Ok(id) => Ok(id.ulid()),
                    Err(error) => Err(error),
                },
            ),
    {
        match parse_id("appr_", value) {
            Ok(value) => Ok(ApprovalId { value }),
            Err(error) => Err(error),
        }
    }

    /// The identifier as text. Parsing the text gives the identifier back.
    pub fn to_text(&self) -> (text: String)
        ensures
            text@ == "appr_"@ + ulid_encoded(self.ulid()),
            id_value("appr_"@, text@) == Some(Ok::<u128, UlidError>(self.ulid())),
    {
        render_id("appr_", self.value)
    }
}

impl std::str::FromStr for ApprovalId {
    type Err = IdParseError;

    fn from_str(value: &str) -> (parsed: Result<Self, IdParseError>)
        ensures
            id_parsed(
                "appr_"@,
                value@,
                match parsed {
                    Ok(id) => Ok(id.ulid()),
                    Err(error) => Err(error),
                },
            ),
    {
        Self::parse(value)
    }
}

/// An identifier of one domain is never read as one of another: whatever follows its prefix, the
/// other domain's prefix does not start the text.
pub proof fn domains_are_disjoint(rest: Seq<char>)
    ensures
        id_value("run_"@, "sess_"@ + rest) is None,
        id_value("turn_"@, "sess_"@ + rest) is None,
        id_value("round_"@, "sess_"@ + rest) is None,
        id_value("appr_"@, "sess_"@ + rest) is None,
        id_value("sess_"@, "run_"@ + rest) is None,
        id_value("turn_"@, "run_"@ + rest) is None,
        id_value("round_"@, "run_"@ + rest) is None,
        id_value("appr_"@, "run_"@ + rest) is None,
        id_value("sess_"@, "turn_"@ + rest) is None,
        id_value("run_"@, "turn_"@ + rest) is None,
        id_value("round_"@, "turn_"@ + rest) is None,
        id_value("appr_"@, "turn_"@ + rest) is None,
        id_value("sess_"@, "round_"@ + rest) is None,
        id_value("run_"@, "round_"@ + rest) is None,
        id_value("turn_"@, "round_"@ + rest) is None,
        id_value("appr_"@, "round_"@ + rest) is None,
        id_value("sess_"@, "appr_"@ + rest) is None,
        id_value("run_"@, "appr_"@ + rest) is None,
        id_value("turn_"@, "appr_"@ + rest) is None,
        id_value("round_"@, "appr_"@ + rest) is None,
{
    reveal_strlit("sess_");
    reveal_strlit("run_");
    reveal_strlit("turn_");
    reveal_strlit("round_");
    reveal_strlit("appr_");
    assert forall|own: Seq<char>, other: Seq<char>, at: int|
        0 <= at < own.len() && at < other.len() && own[at] != #[trigger] other[at]
            && #[trigger] other.is_prefix_of(own + rest) implies false by {
        assert(other[at] == (own + rest).subrange(0, other.len() as int)[at]);
    }
    assert("sess_"@[0] == 's' && "run_"@[0] == 'r' && "run_"@[1] == 'u' && "turn_"@[0] == 't'
        && "round_"@[0] == 'r' && "round_"@[1] == 'o' && "appr_"@[0] == 'a');
}

} // verus!
