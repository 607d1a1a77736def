//! Recognising shell commands that are one plain invocation, and commands that call a given
//! executable directly.
use crate::text::{characters, is_white_space, is_whitespace, same_text, text_views};
use vstd::prelude::*;

verus! {

#[derive(Clone, Debug, PartialEq, Eq)]
pub enum CommandClassification {
    Complex,
    Simple(SimpleCommand),
}

/// A command of plain words, and which of them is the executable.
#[derive(Clone, Debug, PartialEq, Eq)]
pub struct SimpleCommand {
    pub executable_index: usize,
    pub words: Vec<String>,
}

impl SimpleCommand {
    pub open spec fn wf(self) -> bool {
        self.executable_index < self.words@.len()
    }

    pub fn executable(&self) -> (executable: &str)
        requires
            self.wf(),
        ensures
            executable@ == self.words@[self.executable_index as int]@,
    {
        self.words[self.executable_index].as_str()
    }

    pub fn words(&self) -> (words: &[String])
        ensures
            words@ == self.words@,
    {
        self.words.as_slice()
    }
}

impl CommandClassification {
    pub open spec fn wf(self) -> bool {
        self matches CommandClassification::Simple(command) ==> command.wf()
    }

    pub fn is_simple_docker_invocation(&self) -> (docker: bool)
        requires
            self.wf(),
        ensures
            docker == match self {
                CommandClassification::Complex => false,
                CommandClassification::Simple(command) => {
                    let executable = command.words@[command.executable_index as int]@;
                    executable == "docker"@ || executable == "docker-compose"@
                },
            },
    {
        match self {
            CommandClassification::Complex => false,
            CommandClassification::Simple(command) => same_text(command.executable(), "docker")
                || same_text(command.executable(), "docker-compose"),
        }
    }
}

/// What quotes a character stands in.
#[derive(Clone, Copy, Debug, PartialEq, Eq, Structural)]
pub enum Quote {
    Double,
    Single,
    Unquoted,
}

/// Where the reading of a simple command stands: the words that are finished, the word that is
/// being read if one has started, and how the next character is quoted.
pub struct SimpleScan {
    pub current: Seq<char>,
    pub escaped: bool,
    pub quote: Quote,
    pub started: bool,
    pub words: Seq<Seq<char>>,
}

/// Characters that mean something to the shell where they stand unquoted.
pub open spec fn is_shell_syntax(character: char) -> bool {
    ||| character == '$'
    ||| character == '`'
    ||| character == '|'
    ||| character == '&'
    ||| character == ';'
    ||| character == '<'
    ||| character == '>'
    ||| character == '('
    ||| character == ')'
    ||| character == '{'
    ||| character == '}'
    ||| character == '*'
    ||| character == '?'
    ||| character == '['
    ||| character == ']'
    ||| character == '~'
}

/// Characters that a backslash escapes inside double quotes.
pub open spec fn is_escapable_in_double_quotes(character: char) -> bool {
    character == '$' || character == '`' || character == '"' || character == '\\'
}

pub open spec fn finish_simple_word(scan: SimpleScan) -> SimpleScan {
    if scan.started {
        SimpleScan {
            current: Seq::empty(),
            started: false,
            words: scan.words.push(scan.current),
            ..scan
        }
    } else {
        scan
    }
}

/// Reading one more character of a simple command; nothing where the command is not simple.
pub open spec fn simple_step(scan: SimpleScan, character: char) -> Option<SimpleScan> {
    if character == '\n' || character == '\r' {
        None
    } else if scan.escaped {
        if scan.quote == Quote::Double {
            Some(
                SimpleScan {
                    current: if is_escapable_in_double_quotes(character) {
                        scan.current.push(character)
                    } else {
                        scan.current.push('\\').push(character)
                    },
                    escaped: false,
                    ..scan
                },
            )
        } else {
            Some(
                SimpleScan {
                    current: scan.current.push(character),
                    escaped: false,
                    started: true,
                    ..scan
                },
            )
        }
    } else {
        match scan.quote {
            Quote::Single => if character == '\'' {
                Some(SimpleScan { quote: Quote::Unquoted, ..scan })
            } else {
                Some(SimpleScan { current: scan.current.push(character), ..scan })
            },
            Quote::Double => if character == '"' {
                Some(SimpleScan { quote: Quote::Unquoted, ..scan })
            } else if character == '$' || character == '`' {
                None
            } else if character == '\\' {
                Some(SimpleScan { escaped: true, ..scan })
            } else {
                Some(SimpleScan { current: scan.current.push(character), ..scan })
            },
            Quote::Unquoted => if character == '\'' {
                Some(SimpleScan { quote: Quote::Single, started: true, ..scan })
            } else if character == '"' {
                Some(SimpleScan { quote: Quote::Double, started: true, ..scan })
            } else if character == '\\' {
                Some(SimpleScan { escaped: true, ..scan })
            } else if is_shell_syntax(character) {
                None
            } else if character == '#' && !scan.started {
                None
            } else if is_white_space(character) {
                Some(finish_simple_word(scan))
            } else {
                Some(
                    SimpleScan { current: scan.current.push(character), started: true, ..scan },
                )
            },
        }
    }
}

/// Reading a command from its start.
pub open spec fn simple_scan(command: Seq<char>) -> Option<SimpleScan>
    decreases command.len(),
{
    if command.len() == 0 {
        Some(
            SimpleScan {
                current: Seq::empty(),
                escaped: false,
                quote: Quote::Unquoted,
                started: false,
                words: Seq::empty(),
            },
        )
    } else {
        match simple_scan(command.drop_last()) {
            None => None,
            Some(scan) => simple_step(scan, command.last()),
        }
    }
}

/// The words of a command, where it holds nothing but words.
pub open spec fn simple_words(command: Seq<char>) -> Option<Seq<Seq<char>>> {
    match simple_scan(command) {
        None => None,
        Some(scan) => if scan.escaped || scan.quote != Quote::Unquoted {
            None
        } else {
            Some(finish_simple_word(scan).words)
        },
    }
}

pub open spec fn is_ascii_letter(character: char) -> bool {
    'a' <= character <= 'z' || 'A' <= character <= 'Z'
}

pub open spec fn is_ascii_digit(character: char) -> bool {
    '0' <= character <= '9'
}

pub open spec fn is_name_character(character: char) -> bool {
    character == '_' || is_ascii_letter(character) || is_ascii_digit(character)
}

/// A variable assignment: a name, an equals sign and anything.
pub open spec fn is_assignment_word(word: Seq<char>) -> bool {
    exists|at: int|
        0 < at < word.len() && #[trigger] word[at] == '=' && !is_ascii_digit(word[0]) && forall|
            i: int,
        |
            0 <= i < at ==> is_name_character(#[trigger] word[i])
}

/// The words that the shell reserves.
pub open spec fn is_reserved(word: Seq<char>) -> bool {
    ||| word == "!"@
    ||| word == "case"@
    ||| word == "coproc"@
    ||| word == "do"@
    ||| word == "done"@
    ||| word == "elif"@
    ||| word == "else"@
    ||| word == "esac"@
    ||| word == "fi"@
    ||| word == "for"@
    ||| word == "function"@
    ||| word == "if"@
    ||| word == "in"@
    ||| word == "select"@
    ||| word == "then"@
    ||| word == "time"@
    ||| word == "until"@
    ||| word == "while"@
}

/// The executable of a simple command: its first word that is not an assignment.
pub open spec fn is_executable_at(words: Seq<Seq<char>>, at: int) -> bool {
    &&& 0 <= at < words.len()
    &&& !is_assignment_word(words[at])
    &&& forall|i: int| 0 <= i < at ==> is_assignment_word(#[trigger] words[i])
}

/// Whether the command is the simple command of these words with this executable.
pub open spec fn is_simple(command: Seq<char>, words: Seq<Seq<char>>, at: int) -> bool {
    &&& simple_words(command) == Some(words)
    &&& is_executable_at(words, at)
    &&& !is_reserved(words[at])
}

fn is_shell_character(character: char) -> (syntax: bool)
    ensures
        syntax == is_shell_syntax(character),
{
    match character {
        '$' | '`' | '|' | '&' | ';' | '<' | '>' | '(' | ')' | '{' | '}' | '*' | '?' | '[' | ']'
        | '~' => true,
        _ => false,
    }
}

/// The reading of a simple command, as `SimpleScan` describes it.
struct SimpleReader {
    current: String,
    escaped: bool,
    quote: Quote,
    started: bool,
    words: Vec<String>,
}

impl SimpleReader {
    spec fn scan(self) -> SimpleScan {
        SimpleScan {
            current: self.current@,
            escaped: self.escaped,
            quote: self.quote,
            started: self.started,
            words: text_views(self.words@),
        }
    }

    /// Between words nothing is being read.
    spec fn wf(self) -> bool {
        !self.started ==> self.current@.len() == 0
    }

    fn finish_word(self) -> (finished: SimpleReader)
        requires
            self.wf(),
        ensures
            finished.wf(),
            finished.scan() == finish_simple_word(self.scan()),
    {
        if !self.started {
            return self;
        }
        let mut words = self.words;
        let ghost before = words@;
        words.push(self.current);
        assert(text_views(words@) =~= text_views(before).push(self.current@));
        SimpleReader {
            current: String::new(),
            escaped: self.escaped,
            quote: self.quote,
            started: false,
            words,
        }
    }

    fn read(self, character: char) -> (next: Option<SimpleReader>)
        requires
            self.wf(),
            self.quote != Quote::Unquoted ==> self.started,
        ensures
            match simple_step(self.scan(), character) {
                None => next is None,
                Some(scan) => next is Some && next->0.scan() == scan && next->0.wf() && (
                next->0.quote != Quote::Unquoted ==> next->0.started),
            },
    {
        let mut reader = self;
        if character == '\n' || character == '\r' {
            return None;
        }
        if reader.escaped {
            reader.escaped = false;
            if reader.quote == Quote::Double {
                match character {
                    '$' | '`' | '"' | '\\' => {},
                    _ => {
                        reader.current.push('\\');
                    },
                }
            } else {
                reader.started = true;
            }
            reader.current.push(character);
            return Some(reader);
        }
        match reader.quote {
            Quote::Single => {
                if character == '\'' {
                    reader.quote = Quote::Unquoted;
                } else {
                    reader.current.push(character);
                }
            },
            Quote::Double => match character {
                '"' => {
                    reader.quote = Quote::Unquoted;
                },
                '$' | '`' => {
                    return None;
                },
                '\\' => {
                    reader.escaped = true;
                },
                _ => {
                    reader.current.push(character);
                },
            },
            Quote::Unquoted => {
                if character == '\'' {
                    reader.quote = Quote::Single;
                    reader.started = true;
                } else if character == '"' {
                    reader.quote = Quote::Double;
                    reader.started = true;
                } else if character == '\\' {
                    reader.escaped = true;
                } else if is_shell_character(character) {
                    return None;
                } else if character == '#' && !reader.started {
                    return None;
                } else if is_whitespace(character) {
                    reader = reader.finish_word();
                } else {
                    reader.current.push(character);
                    reader.started = true;
                }
            },
        }
        Some(reader)
    }
}

/// Where a fault lies in a beginning, it lies in the whole.
proof fn lemma_rejection_stays(command: Seq<char>, count: int)
    requires
        0 <= count <= command.len(),
        simple_scan(command.take(count)) is None,
    ensures
        simple_scan(command) is None,
    decreases command.len(),
{
    if count == command.len() {
        assert(command.take(count) =~= command);
    } else {
        assert(command.drop_last().take(count) =~= command.take(count));
        lemma_rejection_stays(command.drop_last(), count);
    }
}

fn split_simple_words(command: &str) -> (words: Option<Vec<String>>)
    ensures
        match simple_words(command@) {
            None => words is None,
            Some(views) => words is Some && text_views(words->0@) == views,
        },
{
    let characters = characters(command);
    let mut reader = SimpleReader {
        current: String::new(),
        escaped: false,
        quote: Quote::Unquoted,
        started: false,
        words: Vec::new(),
    };
    assert(text_views(reader.words@) =~= Seq::empty());
    assert(command@.take(0) =~= Seq::empty());
    let mut index: usize = 0;
    while index < characters.len()
        invariant
            characters@ == command@,
            index <= characters@.len(),
            reader.wf(),
            reader.quote != Quote::Unquoted ==> reader.started,
            simple_scan(command@.take(index as int)) == Some(reader.scan()),
        decreases characters.len() - index,
    {
        let character = characters[index];
        proof {
            let here = command@.take(index + 1);
            assert(here.drop_last() =~= command@.take(index as int));
            assert(here.last() == character);
        }
        match reader.read(character) {
            None => {
                proof {
                    lemma_rejection_stays(command@, index + 1);
                }
                return None;
            },
            Some(next) => {
                reader = next;
            },
        }
        index += 1;
    }
    assert(command@.take(command@.len() as int) =~= command@);
    if reader.escaped || reader.quote != Quote::Unquoted {
        return None;
    }
    Some(reader.finish_word().words)
}

fn is_assignment(word: &str) -> (assignment: bool)
    ensures
        assignment == is_assignment_word(word@),
{
    let characters = characters(word);
    let mut index: usize = 0;
    while index < characters.len()
        invariant
            characters@ == word@,
            index <= characters@.len(),
            forall|i: int| 0 <= i < index ==> is_name_character(#[trigger] word@[i]),
            index > 0 ==> !is_ascii_digit(word@[0]),
        decreases characters.len() - index,
    {
        let character = characters[index];
        if character == '=' {
            if index > 0 {
                assert(word@[index as int] == '=');
            } else {
                assert(!is_name_character(word@[0]));
            }
            return index > 0;
        }
        let digit = '0' <= character && character <= '9';
        let letter = ('a' <= character && character <= 'z') || ('A' <= character && character
            <= 'Z');
        if !(character == '_' || letter || digit) || (digit && index == 0) {
            assert(index == 0 || !is_name_character(word@[index as int]));
            return false;
        }
        index += 1;
    }
    false
}

fn is_reserved_word(word: &str) -> (reserved: bool)
    ensures
        reserved == is_reserved(word@),
{
    same_text(word, "!")
        || same_text(word, "case")
        || same_text(word, "coproc")
        || same_text(word, "do")
        || same_text(word, "done")
        || same_text(word, "elif")
        || same_text(word, "else")
        || same_text(word, "esac")
        || same_text(word, "fi")
        || same_text(word, "for")
        || same_text(word, "function")
        || same_text(word, "if")
        || same_text(word, "in")
        || same_text(word, "select")
        || same_text(word, "then")
        || same_text(word, "time")
        || same_text(word, "until")
        || same_text(word, "while")
}

fn parse_simple_command(command: &str) -> (parsed: Option<SimpleCommand>)
    ensures
        match parsed {
            Some(simple) => simple.wf() && is_simple(
                command@,
                text_views(simple.words@),
                simple.executable_index as int,
            ),
            None => forall|words: Seq<Seq<char>>, at: int| !is_simple(command@, words, at),
        },
{
    let words = match split_simple_words(command) {
        None => {
            return None;
        },
        Some(words) => words,
    };
    let ghost views = text_views(words@);
    let mut index: usize = 0;
    while index < words.len()
        invariant
            index <= words@.len(),
            views == text_views(words@),
            simple_words(command@) == Some(views),
            forall|i: int| 0 <= i < index ==> is_assignment_word(#[trigger] views[i]),
        decreases words.len() - index,
    {
        if !is_assignment(words[index].as_str()) {
            assert(is_executable_at(views, index as int));
            if is_reserved_word(words[index].as_str()) {
                assert forall|other: Seq<Seq<char>>, at: int| !is_simple(command@, other, at) by {
                    if is_simple(command@, other, at) {
                        assert(other == views);
                        if at < index {
                            assert(is_assignment_word(views[at]));
                        }
                        if index < at {
                            assert(is_assignment_word(views[index as int]));
                        }
                    }
                }
                return None;
            }
            return Some(SimpleCommand { executable_index: index, words });
        }
        index += 1;
    }
    None
}

/// Classifies a command: simple, where it is one invocation of plain words whose executable is
/// not a reserved word, and complex otherwise.
pub fn classify_command(command: &str) -> (classification: CommandClassification)
    ensures
        classification.wf(),
        match classification {
            CommandClassification::Simple(simple) => is_simple(
                command@,
                text_views(simple.words@),
                simple.executable_index as int,
            ),
            CommandClassification::Complex => forall|words: Seq<Seq<char>>, at: int|
                !is_simple(command@, words, at),
        },
{
    match parse_simple_command(command) {
        Some(simple) => CommandClassification::Simple(simple),
        None => CommandClassification::Complex,
    }
}

/// A simple command stands on one line.
pub proof fn simple_commands_are_one_line(command: Seq<char>, words: Seq<Seq<char>>, at: int)
    requires
        is_simple(command, words, at),
    ensures
        !command.contains('\n'),
        !command.contains('\r'),
{
    assert forall|i: int| 0 <= i < command.len() implies command[i] != '\n' && command[i]
        != '\r' by {
        if command[i] == '\n' || command[i] == '\r' {
            let here = command.take(i + 1);
            assert(here.last() == command[i]);
            assert(simple_scan(here) is None);
            lemma_rejection_stays(command, i + 1);
        }
    }
}

/// Text in single quotes is one word, whatever it holds besides a single quote and line ends.
pub proof fn single_quotes_make_one_word(text: Seq<char>)
    requires
        forall|i: int|
            0 <= i < text.len() ==> #[trigger] text[i] != '\'' && text[i] != '\n' && text[i]
                != '\r',
    ensures
        simple_words(seq!['\''] + text + seq!['\'']) == Some(seq![text]),
{
    let opened = seq!['\''] + text;
    let whole = opened + seq!['\''];
    lemma_single_quoted(text);
    assert(whole.drop_last() =~= opened);
    assert(whole.last() == '\'');
    let scan = simple_scan(whole)->0;
    assert(finish_simple_word(scan).words =~= seq![text]);
}

proof fn lemma_single_quoted(text: Seq<char>)
    requires
        forall|i: int|
            0 <= i < text.len() ==> #[trigger] text[i] != '\'' && text[i] != '\n' && text[i]
                != '\r',
    ensures
        simple_scan(seq!['\''] + text) == Some(
            SimpleScan {
                current: text,
                escaped: false,
                quote: Quote::Single,
                started: true,
                words: Seq::empty(),
            },
        ),
    decreases text.len(),
{
    let opened = seq!['\''] + text;
    if text.len() == 0 {
        assert(opened =~= seq!['\'']);
        assert(opened.drop_last() =~= Seq::empty());
        assert(text =~= Seq::empty());
        reveal_with_fuel(simple_scan, 2);
    } else {
        lemma_single_quoted(text.drop_last());
        assert(opened.drop_last() =~= seq!['\''] + text.drop_last());
        assert(opened.last() == text.last());
        assert(text =~= text.drop_last().push(text.last()));
    }
}

/// A token of a command line, as far as it tells where commands stand.
#[derive(Debug, PartialEq, Eq)]
pub enum CommandToken {
    Boundary,
    Redirection,
    Word(String),
}

pub enum CommandTokenView {
    Boundary,
    Redirection,
    Word(Seq<char>),
}

impl View for CommandToken {
    type V = CommandTokenView;

    open spec fn view(&self) -> CommandTokenView {
        match self {
            CommandToken::Boundary => CommandTokenView::Boundary,
            CommandToken::Redirection => CommandTokenView::Redirection,
            CommandToken::Word(word) => CommandTokenView::Word(word@),
        }
    }
}

pub open spec fn token_views(tokens: Seq<CommandToken>) -> Seq<CommandTokenView> {
    Seq::new(tokens.len(), |i: int| tokens[i]@)
}

pub open spec fn is_line_end(character: char) -> bool {
    character == '\n' || character == '\r'
}

/// Whether `character` stands at `at`.
pub open spec fn stands_at(text: Seq<char>, at: int, character: char) -> bool {
    at < text.len() && text[at] == character
}

/// The word that is being read, with one more character.
pub open spec fn extended(word: Option<Seq<char>>, character: char) -> Option<Seq<char>> {
    match word {
        None => Some(seq![character]),
        Some(word) => Some(word.push(character)),
    }
}

/// The word that is being read, started if it was not.
pub open spec fn started(word: Option<Seq<char>>) -> Option<Seq<char>> {
    match word {
        None => Some(Seq::empty()),
        Some(word) => Some(word),
    }
}

pub open spec fn word_token(word: Option<Seq<char>>) -> Seq<CommandTokenView> {
    match word {
        None => Seq::empty(),
        Some(word) => seq![CommandTokenView::Word(word)],
    }
}

/// How many characters the redirection operator at the start of `rest` takes, if one stands
/// there: `<` or `>`, doubled or not, with or without `&`, and `&>` or `&>>`.
pub open spec fn redirection_length(rest: Seq<char>) -> int {
    if stands_at(rest, 0, '<') || stands_at(rest, 0, '>') {
        let doubled: int = if stands_at(rest, 1, rest[0]) {
            2
        } else {
            1
        };
        if stands_at(rest, doubled, '&') {
            doubled + 1
        } else {
            doubled
        }
    } else if stands_at(rest, 0, '&') && stands_at(rest, 1, '>') {
        if stands_at(rest, 2, '>') {
            3
        } else {
            2
        }
    } else {
        0
    }
}

/// How many characters the operator at the start of `rest` takes that ends a command, if one
/// stands there: a line end, `;`, `|` or `&`, doubled or not.
pub open spec fn boundary_length(rest: Seq<char>) -> int {
    if rest.len() > 0 && (is_line_end(rest[0]) || rest[0] == ';' || rest[0] == '|' || rest[0]
        == '&') {
        if stands_at(rest, 1, rest[0]) {
            2
        } else {
            1
        }
    } else {
        0
    }
}

/// How many characters stand before the end of the line.
pub open spec fn line_length(rest: Seq<char>) -> int
    decreases rest.len(),
{
    if rest.len() == 0 || is_line_end(rest[0]) {
        0
    } else {
        1 + line_length(rest.skip(1))
    }
}

/// A substitution starts at the start of `rest`, which no static reading can see through.
pub open spec fn starts_substitution(rest: Seq<char>) -> bool {
    stands_at(rest, 0, '`') || stands_at(rest, 0, '$') && stands_at(rest, 1, '(')
}

/// The tokens before those of the rest, if the rest has any.
pub open spec fn preceded(
    first: Seq<CommandTokenView>,
    rest: Option<Seq<CommandTokenView>>,
) -> Option<Seq<CommandTokenView>> {
    match rest {
        None => None,
        Some(rest) => Some(first + rest),
    }
}

/// The tokens of `rest`, read on inside `quote` with `word` begun; nothing where the commands
/// cannot be told apart.
pub open spec fn tokens_from(
    rest: Seq<char>,
    quote: Quote,
    word: Option<Seq<char>>,
) -> Option<Seq<CommandTokenView>>
    decreases rest.len(),
{
    if rest.len() == 0 {
        if quote == Quote::Unquoted {
            Some(word_token(word))
        } else {
            None
        }
    } else if quote == Quote::Single {
        if rest[0] == '\'' {
            tokens_from(rest.skip(1), Quote::Unquoted, word)
        } else {
            tokens_from(rest.skip(1), quote, extended(word, rest[0]))
        }
    } else if starts_substitution(rest) {
        None
    } else if rest[0] == '\\' {
        if rest.len() == 1 || is_line_end(rest[1]) {
            None
        } else {
            tokens_from(rest.skip(2), quote, extended(word, rest[1]))
        }
    } else if quote == Quote::Double {
        if rest[0] == '"' {
            tokens_from(rest.skip(1), Quote::Unquoted, word)
        } else {
            tokens_from(rest.skip(1), quote, extended(word, rest[0]))
        }
    } else if rest[0] == '\'' {
        tokens_from(rest.skip(1), Quote::Single, started(word))
    } else if rest[0] == '"' {
        tokens_from(rest.skip(1), Quote::Double, started(word))
    } else if rest[0] == '<' && stands_at(rest, 1, '<') {
        None
    } else if redirection_length(rest) > 0 {
        preceded(
            word_token(word).push(CommandTokenView::Redirection),
            tokens_from(rest.skip(redirection_length(rest)), quote, None),
        )
    } else if boundary_length(rest) > 0 {
        preceded(
            word_token(word).push(CommandTokenView::Boundary),
            tokens_from(rest.skip(boundary_length(rest)), quote, None),
        )
    } else if rest[0] == '(' || rest[0] == ')' || rest[0] == '{' || rest[0] == '}' {
        None
    } else if rest[0] == '#' && word is None {
        let comment = 1 + line_length(rest.skip(1));
        if 1 <= comment < rest.len() {
            preceded(
                seq![CommandTokenView::Boundary],
                tokens_from(rest.skip(comment + 1), quote, None),
            )
        } else {
            Some(Seq::empty())
        }
    } else if is_white_space(rest[0]) {
        preceded(word_token(word), tokens_from(rest.skip(1), quote, None))
    } else {
        tokens_from(rest.skip(1), quote, extended(word, rest[0]))
    }
}

pub open spec fn word_view(word: Option<String>) -> Option<Seq<char>> {
    match word {
        None => None,
        Some(word) => Some(word@),
    }
}

fn extend_word(word: Option<String>, character: char) -> (longer: Option<String>)
    ensures
        word_view(longer) == extended(word_view(word), character),
{
    let mut text = match word {
        Some(text) => text,
        None => String::new(),
    };
    text.push(character);
    assert(word is None ==> text@ =~= seq![character]);
    Some(text)
}

fn start_word(word: Option<String>) -> (begun: Option<String>)
    ensures
        word_view(begun) == started(word_view(word)),
{
    match word {
        Some(text) => Some(text),
        None => Some(String::new()),
    }
}

fn finish_token(word: Option<String>, tokens: &mut Vec<CommandToken>)
    ensures
        token_views(final(tokens)@) == token_views(old(tokens)@) + word_token(word_view(word)),
{
    if let Some(text) = word {
        tokens.push(CommandToken::Word(text));
    }
    assert(token_views(tokens@) =~= token_views(old(tokens)@) + word_token(word_view(word)));
}

fn push_token(token: CommandToken, tokens: &mut Vec<CommandToken>)
    ensures
        token_views(final(tokens)@) == token_views(old(tokens)@).push(token@),
{
    tokens.push(token);
    assert(token_views(tokens@) =~= token_views(old(tokens)@).push(token@));
}

fn character_is(characters: &[char], at: usize, character: char) -> (is: bool)
    ensures
        is == stands_at(characters@, at as int, character),
{
    at < characters.len() && characters[at] == character
}

fn measure_redirection(characters: &[char], at: usize) -> (length: usize)
    requires
        at < characters@.len(),
    ensures
        length == redirection_length(characters@.skip(at as int)),
        at + length <= characters@.len(),
{
    let first = characters[at];
    if first == '<' || first == '>' {
        let doubled: usize = if character_is(characters, at + 1, first) {
            2
        } else {
            1
        };
        if character_is(characters, at + doubled, '&') {
            doubled + 1
        } else {
            doubled
        }
    } else if first == '&' && character_is(characters, at + 1, '>') {
        if character_is(characters, at + 2, '>') {
            3
        } else {
            2
        }
    } else {
        0
    }
}

fn measure_boundary(characters: &[char], at: usize) -> (length: usize)
    requires
        at < characters@.len(),
    ensures
        length == boundary_length(characters@.skip(at as int)),
        at + length <= characters@.len(),
{
    let first = characters[at];
    if first == '\n' || first == '\r' || first == ';' || first == '|' || first == '&' {
        if character_is(characters, at + 1, first) {
            2
        } else {
            1
        }
    } else {
        0
    }
}

fn find_line_end(characters: &[char], start: usize) -> (end: usize)
    requires
        start <= characters@.len(),
    ensures
        start <= end <= characters@.len(),
        end - start == line_length(characters@.skip(start as int)),
{
    let mut end: usize = start;
    while end < characters.len() && characters[end] != '\n' && characters[end] != '\r'
        invariant
            start <= end <= characters@.len(),
            line_length(characters@.skip(start as int)) == end - start + line_length(
                characters@.skip(end as int),
            ),
        decreases characters.len() - end,
    {
        assert(characters@.skip(end as int).skip(1) =~= characters@.skip(end + 1));
        end += 1;
    }
    end
}

/// The tokens of a command line; nothing where its commands cannot be told apart without running
/// anything.
#[verifier::rlimit(40)]
pub fn tokenize_command_positions(command: &str) -> (tokens: Option<Vec<CommandToken>>)
    ensures
        match tokens_from(command@, Quote::Unquoted, None) {
            None => tokens is None,
            Some(views) => tokens is Some && token_views(tokens->0@) == views,
        },
{
    let characters = characters(command);
    let characters = characters.as_slice();
    let mut tokens: Vec<CommandToken> = Vec::new();
    let mut quote = Quote::Unquoted;
    let mut word: Option<String> = None;
    let mut index: usize = 0;
    let ghost whole = tokens_from(command@, Quote::Unquoted, None);
    proof {
        assert(command@.skip(0) =~= command@);
        if whole is Some {
            assert(token_views(tokens@) + whole->0 =~= whole->0);
        }
    }
    while index < characters.len()
        invariant
            characters@ == command@,
                index <= characters@.len(),
            whole == tokens_from(command@, Quote::Unquoted, None),
            whole == preceded(
                token_views(tokens@),
                tokens_from(characters@.skip(index as int), quote, word_view(word)),
            ),
        decreases characters.len() - index,
    {
        let character = characters[index];
        let ghost rest = characters@.skip(index as int);
        let ghost before = token_views(tokens@);
        let ghost begun = word_view(word);
        let ghost old_quote = quote;
        let ghost old_index = index as int;
        let ghost mut produced: Seq<CommandTokenView> = Seq::empty();
        proof {
            assert(forall|k: int| 0 <= k <= rest.len() ==> #[trigger] rest.skip(k) =~= characters@.skip(
                index + k,
            ));
            assert(rest.len() > 1 ==> rest[1] == characters@[index + 1]);
        }
        if quote == Quote::Single {
            if character == '\'' {
                quote = Quote::Unquoted;
            } else {
                word = extend_word(word, character);
            }
            index += 1;
        } else if character == '`' || (character == '$' && character_is(
            characters,
            index + 1,
            '(',
        )) {
            return None;
        } else if character == '\\' {
            if index + 1 == characters.len() {
                return None;
            }
            let escaped = characters[index + 1];
            if escaped == '\n' || escaped == '\r' {
                return None;
            }
            word = extend_word(word, escaped);
            index += 2;
        } else if quote == Quote::Double {
            if character == '"' {
                quote = Quote::Unquoted;
            } else {
                word = extend_word(word, character);
            }
            index += 1;
        } else if character == '\'' {
            quote = Quote::Single;
            word = start_word(word);
            index += 1;
        } else if character == '"' {
            quote = Quote::Double;
            word = start_word(word);
            index += 1;
        } else if character == '<' && character_is(characters, index + 1, '<') {
            return None;
        } else {
            let redirection = measure_redirection(characters, index);
            let boundary = measure_boundary(characters, index);
            if redirection > 0 {
                finish_token(word, &mut tokens);
                word = None;
                push_token(CommandToken::Redirection, &mut tokens);
                index += redirection;
                proof {
                    produced = word_token(begun).push(CommandTokenView::Redirection);
                }
            } else if boundary > 0 {
                finish_token(word, &mut tokens);
                word = None;
                push_token(CommandToken::Boundary, &mut tokens);
                index += boundary;
                proof {
                    produced = word_token(begun).push(CommandTokenView::Boundary);
                }
            } else if character == '(' || character == ')' || character == '{' || character
                == '}' {
                return None;
            } else if character == '#' && word.is_none() {
                let end = find_line_end(characters, index + 1);
                if end == characters.len() {
                    proof {
                        assert(tokens_from(rest, old_quote, begun) == Some(
                            Seq::<CommandTokenView>::empty(),
                        ));
                        assert(before + Seq::<CommandTokenView>::empty() =~= before);
                    }
                    return Some(tokens);
                }
                push_token(CommandToken::Boundary, &mut tokens);
                index = end + 1;
                proof {
                    produced = seq![CommandTokenView::Boundary];
                }
            } else if is_whitespace(character) {
                finish_token(word, &mut tokens);
                word = None;
                index += 1;
                proof {
                    produced = word_token(begun);
                }
            } else {
                word = extend_word(word, character);
                index += 1;
            }
        }
        proof {
            let tail = tokens_from(characters@.skip(index as int), quote, word_view(word));
            assert(rest.skip(index - old_index) == characters@.skip(index as int));
            assert(token_views(tokens@) =~= before + produced);
            assert(produced.len() == 0 ==> produced =~= Seq::empty());
            if produced.len() == 0 {
                assert(tokens_from(rest, old_quote, begun) == tail || tokens_from(
                    rest,
                    old_quote,
                    begun,
                ) == preceded(produced, tail));
            } else {
                assert(tokens_from(rest, old_quote, begun) == preceded(produced, tail));
            }
            if tail is Some {
                assert(before + (produced + tail->0) =~= before + produced + tail->0);
                assert(produced.len() == 0 ==> produced + tail->0 =~= tail->0);
            }
        }
    }
    proof {
        assert(characters@.skip(index as int) =~= Seq::empty());
    }
    if quote != Quote::Unquoted {
        return None;
    }
    finish_token(word, &mut tokens);
    Some(tokens)
}

/// Two lines, one under the other.
pub open spec fn two_lines(first: Seq<char>, second: Seq<char>) -> Seq<char> {
    first + seq!['\n'] + second
}

proof fn lemma_operators_end_with_their_line(rest: Seq<char>, second: Seq<char>)
    requires
        rest.len() > 0,
        rest.last() != '\n',
    ensures
        redirection_length(two_lines(rest, second)) == redirection_length(rest),
        boundary_length(two_lines(rest, second)) == boundary_length(rest),
        starts_substitution(two_lines(rest, second)) == starts_substitution(rest),
        stands_at(two_lines(rest, second), 1, '<') == stands_at(rest, 1, '<'),
        redirection_length(rest) <= rest.len(),
        boundary_length(rest) <= rest.len(),
{
    let whole = two_lines(rest, second);
    assert(forall|i: int| 0 <= i < rest.len() ==> #[trigger] whole[i] == rest[i]);
    assert(whole[rest.len() as int] == '\n');
}

proof fn lemma_comment_ends_with_its_line(rest: Seq<char>, second: Seq<char>)
    ensures
        line_length(two_lines(rest, second)) == line_length(rest),
        0 <= line_length(rest) <= rest.len(),
    decreases rest.len(),
{
    let whole = two_lines(rest, second);
    if rest.len() > 0 {
        assert(whole[0] == rest[0]);
        assert(whole.skip(1) =~= two_lines(rest.skip(1), second));
        lemma_comment_ends_with_its_line(rest.skip(1), second);
    } else {
        assert(whole[0] == '\n');
    }
}

proof fn lemma_lines_apart(
    rest: Seq<char>,
    quote: Quote,
    word: Option<Seq<char>>,
    second: Seq<char>,
    left: Seq<CommandTokenView>,
    right: Seq<CommandTokenView>,
)
    requires
        tokens_from(rest, quote, word) == Some(left),
        tokens_from(second, Quote::Unquoted, None) == Some(right),
        rest.len() > 0 ==> rest.last() != '\n',
        second.len() > 0 ==> second[0] != '\n',
    ensures
        tokens_from(two_lines(rest, second), quote, word) == Some(
            left.push(CommandTokenView::Boundary) + right,
        ),
    decreases rest.len(),
{
    let whole = two_lines(rest, second);
    let joint = left.push(CommandTokenView::Boundary) + right;
    if rest.len() == 0 {
        assert(whole[0] == '\n');
        assert(whole.skip(1) =~= second);
        assert(boundary_length(whole) == 1) by {
            assert(whole.len() > 1 ==> whole[1] == second[0]);
        }
    } else {
        lemma_operators_end_with_their_line(rest, second);
        assert(whole[0] == rest[0]);
        assert(forall|k: int|
            0 <= k <= rest.len() ==> #[trigger] whole.skip(k) =~= two_lines(rest.skip(k), second));
        assert(rest.len() > 1 ==> whole[1] == rest[1]);
        assert(forall|k: int|
            0 <= k < rest.len() ==> (#[trigger] rest.skip(k)).last() == rest.last());
        let redirection = redirection_length(rest);
        let boundary = boundary_length(rest);
        if quote == Quote::Single {
            if rest[0] == '\'' {
                lemma_lines_apart(rest.skip(1), Quote::Unquoted, word, second, left, right);
            } else {
                lemma_lines_apart(
                    rest.skip(1),
                    quote,
                    extended(word, rest[0]),
                    second,
                    left,
                    right,
                );
            }
        } else if rest[0] == '\\' {
            lemma_lines_apart(rest.skip(2), quote, extended(word, rest[1]), second, left, right);
        } else if quote == Quote::Double {
            if rest[0] == '"' {
                lemma_lines_apart(rest.skip(1), Quote::Unquoted, word, second, left, right);
            } else {
                lemma_lines_apart(
                    rest.skip(1),
                    quote,
                    extended(word, rest[0]),
                    second,
                    left,
                    right,
                );
            }
        } else if rest[0] == '\'' {
            lemma_lines_apart(rest.skip(1), Quote::Single, started(word), second, left, right);
        } else if rest[0] == '"' {
            lemma_lines_apart(rest.skip(1), Quote::Double, started(word), second, left, right);
        } else if redirection > 0 {
            let first = word_token(word).push(CommandTokenView::Redirection);
            let later = tokens_from(rest.skip(redirection), quote, None)->0;
            lemma_lines_apart(rest.skip(redirection), quote, None, second, later, right);
            assert(first + (later.push(CommandTokenView::Boundary) + right) =~= joint);
        } else if boundary > 0 {
            let first = word_token(word).push(CommandTokenView::Boundary);
            let later = tokens_from(rest.skip(boundary), quote, None)->0;
            lemma_lines_apart(rest.skip(boundary), quote, None, second, later, right);
            assert(first + (later.push(CommandTokenView::Boundary) + right) =~= joint);
        } else if rest[0] == '#' && word is None {
            let comment = 1 + line_length(rest.skip(1));
            lemma_comment_ends_with_its_line(rest.skip(1), second);
            assert(whole.skip(1) == two_lines(rest.skip(1), second));
            let first = seq![CommandTokenView::Boundary];
            if comment < rest.len() {
                let later = tokens_from(rest.skip(comment + 1), quote, None)->0;
                lemma_lines_apart(rest.skip(comment + 1), quote, None, second, later, right);
                assert(first + (later.push(CommandTokenView::Boundary) + right) =~= joint);
            } else {
                assert(whole.skip(comment + 1) =~= second);
                assert(first + right =~= joint);
            }
        } else if is_white_space(rest[0]) {
            let first = word_token(word);
            let later = tokens_from(rest.skip(1), quote, None)->0;
            lemma_lines_apart(rest.skip(1), quote, None, second, later, right);
            assert(first + (later.push(CommandTokenView::Boundary) + right) =~= joint);
        } else {
            lemma_lines_apart(rest.skip(1), quote, extended(word, rest[0]), second, left, right);
        }
    }
}

/// Two lines whose commands can be told apart stay apart one under the other: their tokens are
/// those of the first line, a boundary, and those of the second.
pub proof fn lines_are_tokenized_apart(
    first: Seq<char>,
    second: Seq<char>,
    left: Seq<CommandTokenView>,
    right: Seq<CommandTokenView>,
)
    requires
        tokens_from(first, Quote::Unquoted, None) == Some(left),
        tokens_from(second, Quote::Unquoted, None) == Some(right),
        first.len() > 0 ==> first.last() != '\n',
        second.len() > 0 ==> second[0] != '\n',
    ensures
        tokens_from(two_lines(first, second), Quote::Unquoted, None) == Some(
            left.push(CommandTokenView::Boundary) + right,
        ),
{
    lemma_lines_apart(first, Quote::Unquoted, None, second, left, right);
}

pub open spec fn all_digits(word: Seq<char>) -> bool {
    forall|i: int| 0 <= i < word.len() ==> is_ascii_digit(#[trigger] word[i])
}

/// Whether the tokens from `at` on call `executable`: in a place where a command may stand, after
/// assignments, `!` and redirections with their targets, and before any reserved word there.
pub open spec fn invoked_from(
    tokens: Seq<CommandTokenView>,
    at: int,
    command_position: bool,
    redirection_target: bool,
    executable: Seq<char>,
) -> bool
    decreases tokens.len() - at,
{
    if at < 0 || at >= tokens.len() {
        false
    } else {
        match tokens[at] {
            CommandTokenView::Boundary => invoked_from(tokens, at + 1, true, false, executable),
            CommandTokenView::Redirection => invoked_from(
                tokens,
                at + 1,
                command_position,
                true,
                executable,
            ),
            CommandTokenView::Word(word) => {
                let names_descriptor = all_digits(word) && at + 1 < tokens.len() && tokens[at
                    + 1] is Redirection;
                if redirection_target || !command_position || names_descriptor
                    || is_assignment_word(word) || word == "!"@ {
                    invoked_from(tokens, at + 1, command_position, false, executable)
                } else if is_reserved(word) {
                    false
                } else {
                    word == executable || invoked_from(tokens, at + 1, false, false, executable)
                }
            },
        }
    }
}

fn has_only_digits(word: &str) -> (digits: bool)
    ensures
        digits == all_digits(word@),
{
    let characters = characters(word);
    let mut index: usize = 0;
    while index < characters.len()
        invariant
            characters@ == word@,
            index <= characters@.len(),
            forall|i: int| 0 <= i < index ==> is_ascii_digit(#[trigger] word@[i]),
        decreases characters.len() - index,
    {
        let character = characters[index];
        if !('0' <= character && character <= '9') {
            assert(!is_ascii_digit(word@[index as int]));
            return false;
        }
        index += 1;
    }
    true
}

/// Whether a command line calls `executable` directly: in one of its commands, as far as they can
/// be told apart without running anything, the executable's word is `executable`.
pub fn invokes_direct_executable(command: &str, executable: &str) -> (invokes: bool)
    ensures
        invokes == match tokens_from(command@, Quote::Unquoted, None) {
            None => false,
            Some(tokens) => invoked_from(tokens, 0, true, false, executable@),
        },
{
    let tokens = match tokenize_command_positions(command) {
        None => {
            return false;
        },
        Some(tokens) => tokens,
    };
    let ghost views = token_views(tokens@);
    let mut command_position = true;
    let mut redirection_target = false;
    let mut index: usize = 0;
    while index < tokens.len()
        invariant
            index <= tokens@.len(),
            views == token_views(tokens@),
            tokens_from(command@, Quote::Unquoted, None) == Some(views),
            invoked_from(views, 0, true, false, executable@) == invoked_from(
                views,
                index as int,
                command_position,
                redirection_target,
                executable@,
            ),
        decreases tokens.len() - index,
    {
        assert(views[index as int] == tokens@[index as int]@);
        match &tokens[index] {
            CommandToken::Boundary => {
                command_position = true;
                redirection_target = false;
            },
            CommandToken::Redirection => {
                redirection_target = true;
            },
            CommandToken::Word(word) => {
                let word = word.as_str();
                if redirection_target {
                    redirection_target = false;
                } else if command_position {
                    let before_redirection = index + 1 < tokens.len() && matches!(
                        &tokens[index + 1],
                        CommandToken::Redirection
                    );
                    let names_descriptor = has_only_digits(word) && before_redirection;
                    if !names_descriptor && !is_assignment(word) && !same_text(word, "!") {
                        if is_reserved_word(word) {
                            return false;
                        }
                        if same_text(word, executable) {
                            return true;
                        }
                        command_position = false;
                    }
                }
            },
        }
        index += 1;
    }
    false
}

/// A character without a meaning of its own to the shell.
pub open spec fn is_plain(character: char) -> bool {
    &&& character != '\'' && character != '"' && character != '\\' && character != '`'
    &&& character != '$' && character != '<' && character != '>' && character != '&'
    &&& character != '|' && character != ';' && character != '(' && character != ')'
    &&& character != '{' && character != '}' && character != '#' && character != '\n'
    &&& character != '\r' && !is_white_space(character)
}

/// A word that is not empty and holds plain characters alone.
pub open spec fn is_plain_word(word: Seq<char>) -> bool {
    word.len() > 0 && forall|i: int| 0 <= i < word.len() ==> is_plain(#[trigger] word[i])
}

/// The tokens of a command line, read from its start.
pub open spec fn tokens_of(command: Seq<char>) -> Option<Seq<CommandTokenView>> {
    tokens_from(command, Quote::Unquoted, None)
}

proof fn lemma_plain_read(word: Seq<char>, rest: Seq<char>, begun: Seq<char>)
    requires
        forall|i: int| 0 <= i < word.len() ==> is_plain(#[trigger] word[i]),
    ensures
        tokens_from(word + rest, Quote::Unquoted, Some(begun)) == tokens_from(
            rest,
            Quote::Unquoted,
            Some(begun + word),
        ),
    decreases word.len(),
{
    let whole = word + rest;
    if word.len() == 0 {
        assert(whole =~= rest);
        assert(begun + word =~= begun);
    } else {
        let tail = word.skip(1);
        assert(is_plain(word[0]));
        assert(whole[0] == word[0]);
        assert(whole.skip(1) =~= tail + rest);
        assert(begun.push(word[0]) + tail =~= begun + word);
        assert forall|i: int| 0 <= i < tail.len() implies is_plain(#[trigger] tail[i]) by {
            assert(tail[i] == word[i + 1]);
        }
        lemma_plain_read(tail, rest, begun.push(word[0]));
    }
}

proof fn lemma_plain_word_read(word: Seq<char>, rest: Seq<char>)
    requires
        is_plain_word(word),
    ensures
        tokens_of(word + rest) == tokens_from(rest, Quote::Unquoted, Some(word)),
{
    let whole = word + rest;
    let tail = word.skip(1);
    assert(is_plain(word[0]));
    assert(whole[0] == word[0]);
    assert(whole.skip(1) =~= tail + rest);
    assert forall|i: int| 0 <= i < tail.len() implies is_plain(#[trigger] tail[i]) by {
        assert(tail[i] == word[i + 1]);
    }
    lemma_plain_read(tail, rest, seq![word[0]]);
    assert(seq![word[0]] + tail =~= word);
}

/// A plain word is one word, and a space or a tab ends it: what follows is read as if it stood
/// alone.
pub proof fn words_are_told_apart(word: Seq<char>, rest: Seq<char>)
    requires
        is_plain_word(word),
    ensures
        tokens_of(word) == Some(seq![CommandTokenView::Word(word)]),
        tokens_of(word + seq![' '] + rest) == preceded(
            seq![CommandTokenView::Word(word)],
            tokens_of(rest),
        ),
        tokens_of(word + seq!['\t'] + rest) == preceded(
            seq![CommandTokenView::Word(word)],
            tokens_of(rest),
        ),
{
    lemma_plain_word_read(word, Seq::empty());
    assert(word + Seq::<char>::empty() =~= word);
    let spaced = seq![' '] + rest;
    lemma_plain_word_read(word, spaced);
    assert(word + spaced =~= word + seq![' '] + rest);
    assert(spaced.skip(1) =~= rest);
    let tabbed = seq!['\t'] + rest;
    lemma_plain_word_read(word, tabbed);
    assert(word + tabbed =~= word + seq!['\t'] + rest);
    assert(tabbed.skip(1) =~= rest);
}

/// `;`, `|`, `||`, `&` and `&&` end a command: behind them another one starts.
pub proof fn operators_end_commands(word: Seq<char>, rest: Seq<char>)
    requires
        is_plain_word(word),
        rest.len() > 0 ==> rest[0] != ';' && rest[0] != '|' && rest[0] != '&' && rest[0] != '>',
    ensures
        ({
            let first = seq![CommandTokenView::Word(word), CommandTokenView::Boundary];
            &&& tokens_of(word + seq![';'] + rest) == preceded(first, tokens_of(rest))
            &&& tokens_of(word + seq!['|'] + rest) == preceded(first, tokens_of(rest))
            &&& tokens_of(word + seq!['|', '|'] + rest) == preceded(first, tokens_of(rest))
            &&& tokens_of(word + seq!['&'] + rest) == preceded(first, tokens_of(rest))
            &&& tokens_of(word + seq!['&', '&'] + rest) == preceded(first, tokens_of(rest))
        }),
{
    lemma_operator(word, seq![';'], rest);
    lemma_operator(word, seq!['|'], rest);
    lemma_operator(word, seq!['|', '|'], rest);
    lemma_operator(word, seq!['&'], rest);
    lemma_operator(word, seq!['&', '&'], rest);
}

proof fn lemma_operator(word: Seq<char>, operator: Seq<char>, rest: Seq<char>)
    requires
        is_plain_word(word),
        rest.len() > 0 ==> rest[0] != ';' && rest[0] != '|' && rest[0] != '&' && rest[0] != '>',
        operator == seq![';'] || operator == seq!['|'] || operator == seq!['|', '|'] || operator
            == seq!['&'] || operator == seq!['&', '&'],
    ensures
        tokens_of(word + operator + rest) == preceded(
            seq![CommandTokenView::Word(word), CommandTokenView::Boundary],
            tokens_of(rest),
        ),
{
    let tail = operator + rest;
    lemma_plain_word_read(word, tail);
    assert(word + tail =~= word + operator + rest);
    assert(tail[0] == operator[0]);
    if operator.len() == 2 {
        assert(tail[1] == operator[1]);
    } else if rest.len() > 0 {
        assert(tail[1] == rest[0]);
    }
    assert(redirection_length(tail) == 0);
    assert(boundary_length(tail) == operator.len());
    assert(tail.skip(operator.len() as int) =~= rest);
    assert(word_token(Some(word)).push(CommandTokenView::Boundary) =~= seq![
        CommandTokenView::Word(word),
        CommandTokenView::Boundary,
    ]);
}

/// `<`, `>` and `>>` redirect: they end the word before them but not the command. `<<` cannot be
/// read without running anything.
pub proof fn redirections_do_not_end_commands(word: Seq<char>, rest: Seq<char>)
    requires
        is_plain_word(word),
        rest.len() > 0 ==> rest[0] != '<' && rest[0] != '>' && rest[0] != '&',
    ensures
        ({
            let first = seq![CommandTokenView::Word(word), CommandTokenView::Redirection];
            &&& tokens_of(word + seq!['<'] + rest) == preceded(first, tokens_of(rest))
            &&& tokens_of(word + seq!['>'] + rest) == preceded(first, tokens_of(rest))
            &&& tokens_of(word + seq!['>', '>'] + rest) == preceded(first, tokens_of(rest))
            &&& tokens_of(word + seq!['<', '<'] + rest) is None
        }),
{
    lemma_redirection(word, seq!['<'], rest);
    lemma_redirection(word, seq!['>'], rest);
    lemma_redirection(word, seq!['>', '>'], rest);
    let tail = seq!['<', '<'] + rest;
    lemma_plain_word_read(word, tail);
    assert(word + tail =~= word + seq!['<', '<'] + rest);
    assert(tail[0] == '<' && tail[1] == '<');
}

proof fn lemma_redirection(word: Seq<char>, operator: Seq<char>, rest: Seq<char>)
    requires
        is_plain_word(word),
        rest.len() > 0 ==> rest[0] != '<' && rest[0] != '>' && rest[0] != '&',
        operator == seq!['<'] || operator == seq!['>'] || operator == seq!['>', '>'],
    ensures
        tokens_of(word + operator + rest) == preceded(
            seq![CommandTokenView::Word(word), CommandTokenView::Redirection],
            tokens_of(rest),
        ),
{
    let tail = operator + rest;
    lemma_plain_word_read(word, tail);
    assert(word + tail =~= word + operator + rest);
    assert(tail[0] == operator[0]);
    if operator.len() == 2 {
        assert(tail[1] == operator[1]);
        if rest.len() > 0 {
            assert(tail[2] == rest[0]);
        }
    } else if rest.len() > 0 {
        assert(tail[1] == rest[0]);
    }
    assert(redirection_length(tail) == operator.len());
    assert(tail.skip(operator.len() as int) =~= rest);
    assert(word_token(Some(word)).push(CommandTokenView::Redirection) =~= seq![
        CommandTokenView::Word(word),
        CommandTokenView::Redirection,
    ]);
}

/// Substitutions, groups and a backslash at the end cannot be read without running anything.
pub proof fn some_syntax_cannot_be_read(word: Seq<char>, rest: Seq<char>)
    requires
        is_plain_word(word),
    ensures
        tokens_of(word + seq!['`'] + rest) is None,
        tokens_of(word + seq!['$', '('] + rest) is None,
        tokens_of(word + seq!['('] + rest) is None,
        tokens_of(word + seq![')'] + rest) is None,
        tokens_of(word + seq!['{'] + rest) is None,
        tokens_of(word + seq!['}'] + rest) is None,
        tokens_of(word + seq!['\\']) is None,
        tokens_of(word + seq!['\\', '\n'] + rest) is None,
{
    lemma_unreadable(word, seq!['`'], rest);
    lemma_unreadable(word, seq!['$', '('], rest);
    lemma_unreadable(word, seq!['('], rest);
    lemma_unreadable(word, seq![')'], rest);
    lemma_unreadable(word, seq!['{'], rest);
    lemma_unreadable(word, seq!['}'], rest);
    lemma_unreadable(word, seq!['\\', '\n'], rest);
    lemma_plain_word_read(word, seq!['\\']);
}

proof fn lemma_unreadable(word: Seq<char>, syntax: Seq<char>, rest: Seq<char>)
    requires
        is_plain_word(word),
        syntax == seq!['`'] || syntax == seq!['$', '('] || syntax == seq!['('] || syntax
            == seq![')'] || syntax == seq!['{'] || syntax == seq!['}'] || syntax
            == seq!['\\', '\n'],
    ensures
        tokens_of(word + syntax + rest) is None,
{
    let tail = syntax + rest;
    lemma_plain_word_read(word, tail);
    assert(word + tail =~= word + syntax + rest);
    assert(tail[0] == syntax[0]);
    if syntax.len() == 2 {
        assert(tail[1] == syntax[1]);
    }
    assert(redirection_length(tail) == 0);
    assert(boundary_length(tail) == 0);
}

/// Double quotes are read to their end: what stands between them joins the word.
proof fn lemma_double_read(text: Seq<char>, rest: Seq<char>, begun: Seq<char>)
    requires
        forall|i: int|
            0 <= i < text.len() ==> #[trigger] text[i] != '"' && text[i] != '\\' && text[i] != '`',
        forall|i: int|
            0 <= i < text.len() - 1 ==> !(#[trigger] text[i] == '$' && text[i + 1] == '('),
    ensures
        tokens_from(text + seq!['"'] + rest, Quote::Double, Some(begun)) == tokens_from(
            rest,
            Quote::Unquoted,
            Some(begun + text),
        ),
    decreases text.len(),
{
    let whole = text + seq!['"'] + rest;
    if text.len() == 0 {
        assert(whole[0] == '"');
        assert(whole.skip(1) =~= rest);
        assert(begun + text =~= begun);
    } else {
        let tail = text.skip(1);
        assert(whole[0] == text[0]);
        if text.len() > 1 {
            assert(whole[1] == text[1]);
            assert(!(text[0] == '$' && text[0int + 1] == '('));
        } else {
            assert(whole[1] == '"');
        }
        assert(whole.skip(1) =~= tail + seq!['"'] + rest);
        assert(begun.push(text[0]) + tail =~= begun + text);
        assert forall|i: int| 0 <= i < tail.len() implies #[trigger] tail[i] != '"' && tail[i]
            != '\\' && tail[i] != '`' by {
            assert(tail[i] == text[i + 1]);
        }
        assert forall|i: int| 0 <= i < tail.len() - 1 implies !(#[trigger] tail[i] == '$' && tail[i
            + 1] == '(') by {
            assert(tail[i] == text[i + 1]);
            assert(tail[i + 1] == text[i + 2]);
            assert(!(text[i + 1] == '$' && text[i + 1 + 1] == '('));
        }
        lemma_double_read(tail, rest, begun.push(text[0]));
    }
}

/// Text in double quotes is one word, whatever operators and white space it holds, unless it holds
/// a double quote, a backslash or a substitution. Nothing in it starts another command.
pub proof fn double_quotes_make_one_token(text: Seq<char>)
    requires
        forall|i: int|
            0 <= i < text.len() ==> #[trigger] text[i] != '"' && text[i] != '\\' && text[i] != '`',
        forall|i: int|
            0 <= i < text.len() - 1 ==> !(#[trigger] text[i] == '$' && text[i + 1] == '('),
    ensures
        tokens_of(seq!['"'] + text + seq!['"']) == Some(seq![CommandTokenView::Word(text)]),
{
    let whole = seq!['"'] + text + seq!['"'];
    let tail = text + seq!['"'] + Seq::<char>::empty();
    assert(whole[0] == '"');
    assert(whole.skip(1) =~= tail);
    lemma_double_read(text, Seq::empty(), Seq::empty());
    assert(Seq::<char>::empty() + text =~= text);
}

proof fn lemma_single_read(text: Seq<char>, rest: Seq<char>, begun: Seq<char>)
    requires
        forall|i: int| 0 <= i < text.len() ==> #[trigger] text[i] != '\'',
    ensures
        tokens_from(text + seq!['\''] + rest, Quote::Single, Some(begun)) == tokens_from(
            rest,
            Quote::Unquoted,
            Some(begun + text),
        ),
    decreases text.len(),
{
    let whole = text + seq!['\''] + rest;
    if text.len() == 0 {
        assert(whole[0] == '\'');
        assert(whole.skip(1) =~= rest);
        assert(begun + text =~= begun);
    } else {
        let tail = text.skip(1);
        assert(whole[0] == text[0]);
        assert(whole.skip(1) =~= tail + seq!['\''] + rest);
        assert(begun.push(text[0]) + tail =~= begun + text);
        assert forall|i: int| 0 <= i < tail.len() implies #[trigger] tail[i] != '\'' by {
            assert(tail[i] == text[i + 1]);
        }
        lemma_single_read(tail, rest, begun.push(text[0]));
    }
}

/// Text in single quotes is one word, whatever it holds besides a single quote.
pub proof fn single_quotes_make_one_token(text: Seq<char>)
    requires
        forall|i: int| 0 <= i < text.len() ==> #[trigger] text[i] != '\'',
    ensures
        tokens_of(seq!['\''] + text + seq!['\'']) == Some(seq![CommandTokenView::Word(text)]),
{
    let whole = seq!['\''] + text + seq!['\''];
    let tail = text + seq!['\''] + Seq::<char>::empty();
    assert(whole[0] == '\'');
    assert(whole.skip(1) =~= tail);
    lemma_single_read(text, Seq::empty(), Seq::empty());
    assert(Seq::<char>::empty() + text =~= text);
}

/// Quotes that are not closed cannot be read.
pub proof fn open_quotes_cannot_be_read(text: Seq<char>)
    requires
        forall|i: int| 0 <= i < text.len() ==> #[trigger] text[i] != '\'' && text[i] != '"',
    ensures
        tokens_of(seq!['\''] + text) is None,
        tokens_of(seq!['"'] + text) is None,
{
    let single = seq!['\''] + text;
    let double = seq!['"'] + text;
    assert(single.skip(1) =~= text);
    assert(double.skip(1) =~= text);
    assert(single[0] == '\'' && double[0] == '"');
    lemma_open_quote(text, Quote::Single, Some(Seq::empty()));
    lemma_open_quote(text, Quote::Double, Some(Seq::empty()));
}

proof fn lemma_open_quote(text: Seq<char>, quote: Quote, word: Option<Seq<char>>)
    requires
        quote != Quote::Unquoted,
        forall|i: int| 0 <= i < text.len() ==> #[trigger] text[i] != '\'' && text[i] != '"',
    ensures
        tokens_from(text, quote, word) is None,
    decreases text.len(),
{
    if text.len() > 0 {
        assert forall|i: int| 0 <= i < text.skip(1).len() implies #[trigger] text.skip(1)[i] != '\''
            && text.skip(1)[i] != '"' by {
            assert(text.skip(1)[i] == text[i + 1]);
        }
        lemma_open_quote(text.skip(1), quote, extended(word, text[0]));
        if text.len() > 1 {
            assert forall|i: int| 0 <= i < text.skip(2).len() implies #[trigger] text.skip(2)[i]
                != '\'' && text.skip(2)[i] != '"' by {
                assert(text.skip(2)[i] == text[i + 2]);
            }
            lemma_open_quote(text.skip(2), quote, extended(word, text[1]));
        }
    }
}

/// A backslash takes the meaning from the character behind it, which joins the word.
pub proof fn backslashes_take_the_meaning(character: char, rest: Seq<char>)
    requires
        character != '\n',
        character != '\r',
    ensures
        tokens_of(seq!['\\', character] + rest) == tokens_from(
            rest,
            Quote::Unquoted,
            Some(seq![character]),
        ),
        tokens_of(seq!['\\', character]) == Some(
            seq![CommandTokenView::Word(seq![character])],
        ),
{
    let whole = seq!['\\', character] + rest;
    assert(whole[0] == '\\' && whole[1] == character);
    assert(whole.skip(2) =~= rest);
    let alone = seq!['\\', character];
    assert(alone[0] == '\\' && alone[1] == character && alone.len() == 2);
    assert(alone.skip(2) =~= Seq::empty());
    assert(tokens_of(alone) == tokens_from(
        alone.skip(2),
        Quote::Unquoted,
        extended(None, character),
    ));
}

/// A comment is not read; the end of its line ends a command.
pub proof fn comments_are_not_read(text: Seq<char>, rest: Seq<char>)
    requires
        forall|i: int| 0 <= i < text.len() ==> #[trigger] text[i] != '\n' && text[i] != '\r',
    ensures
        tokens_of(seq!['#'] + text) == Some(Seq::<CommandTokenView>::empty()),
        tokens_of(seq!['#'] + text + seq!['\n'] + rest) == preceded(
            seq![CommandTokenView::Boundary],
            tokens_of(rest),
        ),
{
    let alone = seq!['#'] + text;
    assert(alone[0] == '#');
    assert(alone.skip(1) =~= text);
    lemma_line_length(text, Seq::empty());
    assert(text + Seq::<char>::empty() =~= text);
    let more = seq!['\n'] + rest;
    let whole = seq!['#'] + text + seq!['\n'] + rest;
    assert(whole[0] == '#');
    assert(whole.skip(1) =~= text + more);
    lemma_line_length(text, more);
    assert(line_length(more) == 0);
    assert(whole.skip((text.len() + 2) as int) =~= rest);
}

proof fn lemma_line_length(text: Seq<char>, rest: Seq<char>)
    requires
        forall|i: int| 0 <= i < text.len() ==> #[trigger] text[i] != '\n' && text[i] != '\r',
    ensures
        line_length(text + rest) == text.len() + line_length(rest),
    decreases text.len(),
{
    let whole = text + rest;
    if text.len() == 0 {
        assert(whole =~= rest);
    } else {
        assert(whole[0] == text[0]);
        assert(whole.skip(1) =~= text.skip(1) + rest);
        assert forall|i: int| 0 <= i < text.skip(1).len() implies #[trigger] text.skip(1)[i] != '\n'
            && text.skip(1)[i] != '\r' by {
            assert(text.skip(1)[i] == text[i + 1]);
        }
        lemma_line_length(text.skip(1), rest);
    }
}

/// A word that names the executable of its command: no assignment, no `!`, and not reserved.
pub open spec fn is_ordinary(word: Seq<char>) -> bool {
    !is_assignment_word(word) && word != "!"@ && !is_reserved(word)
}

/// The executable is the first ordinary word of a command, not one of its arguments; behind a
/// boundary the next command counts as well.
pub proof fn executables_come_first(
    word: Seq<char>,
    arguments: Seq<Seq<char>>,
    rest: Seq<CommandTokenView>,
    executable: Seq<char>,
)
    requires
        is_ordinary(word),
    ensures
        ({
            let command = seq![CommandTokenView::Word(word)] + Seq::new(
                arguments.len(),
                |i: int| CommandTokenView::Word(arguments[i]),
            );
            &&& invoked_from(command, 0, true, false, executable) <==> word == executable
            &&& invoked_from(
                command.push(CommandTokenView::Boundary) + rest,
                0,
                true,
                false,
                executable,
            ) <==> word == executable || invoked_from(rest, 0, true, false, executable)
        }),
{
    let command = seq![CommandTokenView::Word(word)] + Seq::new(
        arguments.len(),
        |i: int| CommandTokenView::Word(arguments[i]),
    );
    let longer = command.push(CommandTokenView::Boundary) + rest;
    assert(command[0] == CommandTokenView::Word(word));
    assert(longer[0] == command[0]);
    lemma_arguments_skipped(command, 1, command.len() as int, executable);
    assert(!(command.len() > 1 && command[1] is Redirection));
    assert forall|i: int| 1 <= i < command.len() implies longer[i] is Word by {
        assert(longer[i] == command[i]);
    }
    lemma_arguments_skipped(longer, 1, command.len() as int, executable);
    assert(longer[command.len() as int] == CommandTokenView::Boundary);
    assert(!(longer[1] is Redirection)) by {
        if command.len() > 1 {
            assert(longer[1] == command[1]);
        }
    }
    lemma_invoked_shifted(longer, rest, (command.len() + 1) as int, 0, true, false, executable);
}

proof fn lemma_arguments_skipped(
    tokens: Seq<CommandTokenView>,
    start: int,
    end: int,
    executable: Seq<char>,
)
    requires
        0 <= start <= end <= tokens.len(),
        forall|i: int| start <= i < end ==> tokens[i] is Word,
    ensures
        invoked_from(tokens, start, false, false, executable) == invoked_from(
            tokens,
            end,
            false,
            false,
            executable,
        ),
    decreases end - start,
{
    if start < end {
        assert(tokens[start] is Word);
        lemma_arguments_skipped(tokens, start + 1, end, executable);
    }
}

proof fn lemma_invoked_shifted(
    whole: Seq<CommandTokenView>,
    rest: Seq<CommandTokenView>,
    offset: int,
    at: int,
    command_position: bool,
    redirection_target: bool,
    executable: Seq<char>,
)
    requires
        0 <= at <= rest.len(),
        0 <= offset,
        whole.len() == offset + rest.len(),
        forall|i: int| 0 <= i < rest.len() ==> whole[offset + i] == #[trigger] rest[i],
    ensures
        invoked_from(whole, offset + at, command_position, redirection_target, executable)
            == invoked_from(rest, at, command_position, redirection_target, executable),
    decreases rest.len() - at,
{
    if at < rest.len() {
        assert(whole[offset + at] == rest[at]);
        if at + 1 < rest.len() {
            assert(whole[offset + (at + 1)] == rest[at + 1]);
        }
        lemma_invoked_shifted(whole, rest, offset, at + 1, true, false, executable);
        lemma_invoked_shifted(whole, rest, offset, at + 1, false, false, executable);
        lemma_invoked_shifted(
            whole,
            rest,
            offset,
            at + 1,
            command_position,
            true,
            executable,
        );
        lemma_invoked_shifted(
            whole,
            rest,
            offset,
            at + 1,
            command_position,
            false,
            executable,
        );
    }
}

/// Assignments, `!` and redirections with their targets stand before a command and are not its
/// executable; a reserved word is no command whose executable can be told.
pub proof fn prefixes_are_passed_over(
    word: Seq<char>,
    target: Seq<char>,
    rest: Seq<CommandTokenView>,
    executable: Seq<char>,
)
    ensures
        is_assignment_word(word) ==> invoked_from(
            seq![CommandTokenView::Word(word)] + rest,
            0,
            true,
            false,
            executable,
        ) == invoked_from(rest, 0, true, false, executable),
        invoked_from(
            seq![CommandTokenView::Word("!"@)] + rest,
            0,
            true,
            false,
            executable,
        ) == invoked_from(rest, 0, true, false, executable),
        invoked_from(
            seq![CommandTokenView::Redirection, CommandTokenView::Word(target)] + rest,
            0,
            true,
            false,
            executable,
        ) == invoked_from(rest, 0, true, false, executable),
        is_reserved(word) && word != "!"@ && !is_assignment_word(word) && !(all_digits(word)
            && rest.len() > 0 && rest[0] is Redirection) ==> !invoked_from(
            seq![CommandTokenView::Word(word)] + rest,
            0,
            true,
            false,
            executable,
        ),
{
    let named = seq![CommandTokenView::Word(word)] + rest;
    let denied = seq![CommandTokenView::Word("!"@)] + rest;
    let redirected = seq![CommandTokenView::Redirection, CommandTokenView::Word(target)] + rest;
    assert(named[0] == CommandTokenView::Word(word));
    assert(denied[0] == CommandTokenView::Word("!"@));
    assert(redirected[0] == CommandTokenView::Redirection);
    assert(redirected[1] == CommandTokenView::Word(target));
    if rest.len() > 0 {
        assert(named[1] == rest[0]);
    }
    assert(invoked_from(redirected, 1, true, true, executable) == invoked_from(
        redirected,
        2,
        true,
        false,
        executable,
    ));
    lemma_invoked_shifted(named, rest, 1, 0, true, false, executable);
    lemma_invoked_shifted(denied, rest, 1, 0, true, false, executable);
    lemma_invoked_shifted(redirected, rest, 2, 0, true, false, executable);
}

/// An assignment is a name, an equals sign and anything; the name holds letters, digits and
/// underscores, and starts with no digit.
pub proof fn assignments_have_names(name: Seq<char>, value: Seq<char>, word: Seq<char>)
    requires
        name.len() > 0,
        !('0' <= name[0] <= '9'),
        forall|i: int|
            0 <= i < name.len() ==> (#[trigger] name[i]) == '_' || 'a' <= name[i] <= 'z' || 'A'
                <= name[i] <= 'Z' || '0' <= name[i] <= '9',
    ensures
        is_assignment_word(name + seq!['='] + value),
        !word.contains('=') ==> !is_assignment_word(word),
        word.len() > 0 && ('0' <= word[0] <= '9' || word[0] == '=') ==> !is_assignment_word(word),
        !is_assignment_word(seq!['-'] + word),
        !is_assignment_word(seq!['/'] + word),
{
    let assignment = name + seq!['='] + value;
    let at = name.len() as int;
    assert(assignment[at] == '=');
    assert(assignment[0] == name[0]);
    assert forall|i: int| 0 <= i < at implies is_name_character(#[trigger] assignment[i]) by {
        assert(assignment[i] == name[i]);
    }
    if is_assignment_word(word) {
        let found = choose|found: int|
            0 < found < word.len() && #[trigger] word[found] == '=' && !is_ascii_digit(word[0])
                && forall|i: int| 0 <= i < found ==> is_name_character(#[trigger] word[i]);
        assert(word.contains(word[found]));
        assert(is_name_character(word[0]));
    }
    let dashed = seq!['-'] + word;
    if is_assignment_word(dashed) {
        let found = choose|found: int|
            0 < found < dashed.len() && #[trigger] dashed[found] == '='
                && !is_ascii_digit(dashed[0]) && forall|i: int|
                0 <= i < found ==> is_name_character(#[trigger] dashed[i]);
        assert(is_name_character(dashed[0]));
        assert(dashed[0] == '-');
    }
    let slashed = seq!['/'] + word;
    if is_assignment_word(slashed) {
        let found = choose|found: int|
            0 < found < slashed.len() && #[trigger] slashed[found] == '='
                && !is_ascii_digit(slashed[0]) && forall|i: int|
                0 <= i < found ==> is_name_character(#[trigger] slashed[i]);
        assert(is_name_character(slashed[0]));
        assert(slashed[0] == '/');
    }
}

/// The words of a simple command grow by one plain word behind a space, and unquoted syntax of the
/// shell makes a command complex, whatever follows it.
pub proof fn simple_commands_grow_by_words(
    command: Seq<char>,
    words: Seq<Seq<char>>,
    word: Seq<char>,
    rest: Seq<char>,
)
    requires
        simple_words(command) == Some(words),
        is_plain_word(word),
        forall|i: int|
            0 <= i < word.len() ==> (#[trigger] word[i]) != '*' && word[i] != '?' && word[i] != '['
                && word[i] != ']' && word[i] != '~',
    ensures
        simple_words(command + seq![' '] + word) == Some(words.push(word)),
        simple_words(command + seq!['|'] + rest) is None,
        simple_words(command + seq!['&'] + rest) is None,
        simple_words(command + seq![';'] + rest) is None,
        simple_words(command + seq!['<'] + rest) is None,
        simple_words(command + seq!['>'] + rest) is None,
        simple_words(command + seq!['$'] + rest) is None,
        simple_words(command + seq!['`'] + rest) is None,
        simple_words(command + seq!['('] + rest) is None,
        simple_words(command + seq![')'] + rest) is None,
        simple_words(command + seq!['{'] + rest) is None,
        simple_words(command + seq!['}'] + rest) is None,
        simple_words(command + seq!['*'] + rest) is None,
        simple_words(command + seq!['?'] + rest) is None,
        simple_words(command + seq!['['] + rest) is None,
        simple_words(command + seq![']'] + rest) is None,
        simple_words(command + seq!['~'] + rest) is None,
        simple_words(command + seq!['\n'] + rest) is None,
{
    lemma_syntax_is_complex(command, '|', rest);
    lemma_syntax_is_complex(command, '&', rest);
    lemma_syntax_is_complex(command, ';', rest);
    lemma_syntax_is_complex(command, '<', rest);
    lemma_syntax_is_complex(command, '>', rest);
    lemma_syntax_is_complex(command, '$', rest);
    lemma_syntax_is_complex(command, '`', rest);
    lemma_syntax_is_complex(command, '(', rest);
    lemma_syntax_is_complex(command, ')', rest);
    lemma_syntax_is_complex(command, '{', rest);
    lemma_syntax_is_complex(command, '}', rest);
    lemma_syntax_is_complex(command, '*', rest);
    lemma_syntax_is_complex(command, '?', rest);
    lemma_syntax_is_complex(command, '[', rest);
    lemma_syntax_is_complex(command, ']', rest);
    lemma_syntax_is_complex(command, '~', rest);
    lemma_syntax_is_complex(command, '\n', rest);
    let spaced = command + seq![' '];
    assert(spaced.drop_last() =~= command);
    assert(spaced.last() == ' ');
    lemma_scan_between_words(command);
    let scan = simple_scan(command)->0;
    assert(!scan.started ==> scan.current =~= Seq::empty());
    assert(simple_scan(spaced) == simple_step(scan, ' '));
    assert(is_white_space(' '));
    lemma_simple_word_read(spaced, words, word, word.len() as int);
    assert(word.take(word.len() as int) =~= word);
}

/// Nothing has been read of a word that has not started.
proof fn lemma_scan_between_words(command: Seq<char>)
    ensures
        simple_scan(command) matches Some(scan) ==> (!scan.started ==> scan.current.len() == 0) && (
        scan.quote != Quote::Unquoted ==> scan.started),
    decreases command.len(),
{
    if command.len() > 0 {
        lemma_scan_between_words(command.drop_last());
    }
}

proof fn lemma_syntax_is_complex(command: Seq<char>, character: char, rest: Seq<char>)
    requires
        simple_words(command) is Some,
        is_shell_syntax(character) || character == '\n',
    ensures
        simple_words(command + seq![character] + rest) is None,
{
    let here = command + seq![character];
    assert(here.drop_last() =~= command);
    assert(here.last() == character);
    let whole = here + rest;
    assert(whole.take(here.len() as int) =~= here);
    lemma_rejection_stays(whole, here.len() as int);
}

proof fn lemma_simple_word_read(
    spaced: Seq<char>,
    words: Seq<Seq<char>>,
    word: Seq<char>,
    count: int,
)
    requires
        is_plain_word(word),
        forall|i: int|
            0 <= i < word.len() ==> (#[trigger] word[i]) != '*' && word[i] != '?' && word[i] != '['
                && word[i] != ']' && word[i] != '~',
        0 <= count <= word.len(),
        simple_scan(spaced) == Some(
            SimpleScan {
                current: Seq::empty(),
                escaped: false,
                quote: Quote::Unquoted,
                started: false,
                words,
            },
        ),
    ensures
        simple_scan(spaced + word.take(count)) == Some(
            SimpleScan {
                current: word.take(count),
                escaped: false,
                quote: Quote::Unquoted,
                started: count > 0,
                words,
            },
        ),
    decreases count,
{
    if count == 0 {
        assert(spaced + word.take(0) =~= spaced);
        assert(word.take(0) =~= Seq::empty());
    } else {
        lemma_simple_word_read(spaced, words, word, count - 1);
        let here = spaced + word.take(count);
        assert(here.drop_last() =~= spaced + word.take(count - 1));
        assert(here.last() == word[count - 1]);
        assert(is_plain(word[count - 1]));
        assert(word.take(count) =~= word.take(count - 1).push(word[count - 1]));
    }
}

/// Text in double quotes is one word of a simple command, unless it holds a double quote, a
/// backslash, a substitution or a line end.
pub proof fn double_quotes_make_one_word(text: Seq<char>)
    requires
        forall|i: int|
            0 <= i < text.len() ==> #[trigger] text[i] != '"' && text[i] != '\\' && text[i] != '`'
                && text[i] != '$' && text[i] != '\n' && text[i] != '\r',
    ensures
        simple_words(seq!['"'] + text + seq!['"']) == Some(seq![text]),
{
    let opened = seq!['"'] + text;
    let whole = opened + seq!['"'];
    lemma_double_quoted(text);
    assert(whole.drop_last() =~= opened);
    assert(whole.last() == '"');
    let scan = simple_scan(whole)->0;
    assert(finish_simple_word(scan).words =~= seq![text]);
}

proof fn lemma_double_quoted(text: Seq<char>)
    requires
        forall|i: int|
            0 <= i < text.len() ==> #[trigger] text[i] != '"' && text[i] != '\\' && text[i] != '`'
                && text[i] != '$' && text[i] != '\n' && text[i] != '\r',
    ensures
        simple_scan(seq!['"'] + text) == Some(
            SimpleScan {
                current: text,
                escaped: false,
                quote: Quote::Double,
                started: true,
                words: Seq::empty(),
            },
        ),
    decreases text.len(),
{
    let opened = seq!['"'] + text;
    if text.len() == 0 {
        assert(opened =~= seq!['"']);
        assert(opened.drop_last() =~= Seq::empty());
        assert(text =~= Seq::empty());
        reveal_with_fuel(simple_scan, 2);
    } else {
        lemma_double_quoted(text.drop_last());
        assert(opened.drop_last() =~= seq!['"'] + text.drop_last());
        assert(opened.last() == text.last());
        assert(text[text.len() - 1] == text.last());
        assert(text =~= text.drop_last().push(text.last()));
    }
}

/// Of a simple command, the executable is the first word that is no assignment, and a command of
/// assignments alone, or one that starts with a reserved word, is none.
pub proof fn simple_commands_have_executables(
    command: Seq<char>,
    assignments: Seq<Seq<char>>,
    word: Seq<char>,
    arguments: Seq<Seq<char>>,
)
    requires
        forall|i: int| 0 <= i < assignments.len() ==> is_assignment_word(#[trigger] assignments[i]),
        !is_assignment_word(word),
        simple_words(command) == Some(assignments.push(word) + arguments),
    ensures
        !is_reserved(word) ==> is_simple(
            command,
            assignments.push(word) + arguments,
            assignments.len() as int,
        ),
        is_reserved(word) ==> forall|words: Seq<Seq<char>>, at: int|
            !is_simple(command, words, at),
        forall|words: Seq<Seq<char>>, at: int| #[trigger]
            is_simple(command, words, at) ==> at == assignments.len(),
{
    let words = assignments.push(word) + arguments;
    let place = assignments.len() as int;
    assert(words[place] == word);
    assert forall|i: int| 0 <= i < place implies is_assignment_word(#[trigger] words[i]) by {
        assert(words[i] == assignments[i]);
    }
    assert forall|other: Seq<Seq<char>>, at: int| #[trigger]
        is_simple(command, other, at) implies at == place by {
        assert(other == words);
        if at < place {
            assert(is_assignment_word(words[at]));
        }
        if place < at {
            assert(is_assignment_word(words[place]));
        }
    }
}

/// Exactly these words are reserved.
pub proof fn reserved_words_are_known(word: Seq<char>)
    ensures
        is_reserved(word) <==> seq![
            "!"@,
            "case"@,
            "coproc"@,
            "do"@,
            "done"@,
            "elif"@,
            "else"@,
            "esac"@,
            "fi"@,
            "for"@,
            "function"@,
            "if"@,
            "in"@,
            "select"@,
            "then"@,
            "time"@,
            "until"@,
            "while"@,
        ].contains(word),
{
    let known = seq![
        "!"@,
        "case"@,
        "coproc"@,
        "do"@,
        "done"@,
        "elif"@,
        "else"@,
        "esac"@,
        "fi"@,
        "for"@,
        "function"@,
        "if"@,
        "in"@,
        "select"@,
        "then"@,
        "time"@,
        "until"@,
        "while"@,
    ];
    assert(known[0] == "!"@ && known[1] == "case"@ && known[2] == "coproc"@ && known[3] == "do"@
        && known[4] == "done"@ && known[5] == "elif"@ && known[6] == "else"@ && known[7]
        == "esac"@ && known[8] == "fi"@ && known[9] == "for"@ && known[10] == "function"@
        && known[11] == "if"@ && known[12] == "in"@ && known[13] == "select"@ && known[14]
        == "then"@ && known[15] == "time"@ && known[16] == "until"@ && known[17] == "while"@);
}

/// A character behind a backslash stands for itself, whatever it means to the shell. A command
/// with a comment is not simple.
pub proof fn escaped_characters_stand_for_themselves(
    command: Seq<char>,
    words: Seq<Seq<char>>,
    character: char,
)
    requires
        simple_words(command) == Some(words),
        character != '\n',
        character != '\r',
    ensures
        simple_words(command.push(' ').push('\\').push(character)) == Some(
            words.push(seq![character]),
        ),
        simple_words(command.push(' ').push('#')) is None,
        simple_words(command.push(' ').push('\\')) is None,
        simple_words(command.push(' ').push('"')) is None,
        simple_words(command.push(' ').push('\'')) is None,
{
    let spaced = command.push(' ');
    let begun = spaced.push('\\');
    let whole = begun.push(character);
    lemma_scan_between_words(command);
    assert(spaced.drop_last() =~= command);
    assert(begun.drop_last() =~= spaced);
    assert(whole.drop_last() =~= begun);
    assert(spaced.push('#').drop_last() =~= spaced);
    assert(spaced.push('"').drop_last() =~= spaced);
    assert(spaced.push('\'').drop_last() =~= spaced);
    let between = simple_scan(spaced)->0;
    assert(between.words == words);
    assert(!between.started && between.current =~= Seq::empty());
    let scan = simple_scan(whole)->0;
    assert(scan.current =~= seq![character]);
    assert(finish_simple_word(scan).words =~= words.push(seq![character]));
}

/// In double quotes a backslash escapes what would still mean something there, and stands for
/// itself before anything else.
pub proof fn double_quotes_keep_most_backslashes(character: char)
    requires
        character != '\n',
        character != '\r',
    ensures
        simple_words(seq!['"', '\\', character, '"']) == Some(
            seq![
                if character == '$' || character == '`' || character == '"' || character == '\\' {
                    seq![character]
                } else {
                    seq!['\\', character]
                },
            ],
        ),
{
    let one = seq!['"'];
    let two = one.push('\\');
    let three = two.push(character);
    let whole = three.push('"');
    lemma_double_quoted(Seq::empty());
    assert(one + Seq::<char>::empty() =~= one);
    assert(two.drop_last() =~= one);
    assert(three.drop_last() =~= two);
    assert(whole.drop_last() =~= three);
    assert(whole =~= seq!['"', '\\', character, '"']);
    let word = if is_escapable_in_double_quotes(character) {
        seq![character]
    } else {
        seq!['\\', character]
    };
    let opened = simple_scan(one)->0;
    assert(opened.quote == Quote::Double && opened.started && !opened.escaped);
    assert(simple_scan(two) == Some(SimpleScan { escaped: true, ..opened }));
    let read = simple_scan(three)->0;
    assert(read.current =~= word);
    assert(simple_scan(three) is Some && read.quote == Quote::Double && !read.escaped);
    let scan = simple_scan(whole)->0;
    assert(scan.current == word && scan.quote == Quote::Unquoted);
    assert(finish_simple_word(scan).words =~= seq![word]);
}

} // verus!
