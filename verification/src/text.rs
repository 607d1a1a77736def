//! Text: sequences of characters, as `String` and `&str` hold them.
use crate::bytes::same_bytes;
use vstd::prelude::*;
use vstd::utf8::{decode_utf8, encode_scalar, encode_utf8, is_ascii_chars, valid_utf8};
use vstd::string::StringExecFns;

verus! {

/// `String::push` appends one character to the end of the text.
pub assume_specification[ String::push ](text: &mut String, character: char)
    ensures
        final(text)@ == old(text)@.push(character),
;

/// Whether the two texts hold the same characters.
pub fn same_text(left: &str, right: &str) -> (same: bool)
    ensures
        same == (left@ == right@),
{
    broadcast use vstd::utf8::encode_utf8_decode_utf8;

    let left_bytes = left.as_bytes();
    let right_bytes = right.as_bytes();
    let same = same_bytes(left_bytes, right_bytes);
    proof {
        assert(vstd::utf8::decode_utf8(encode_utf8(left@)) == left@);
        assert(vstd::utf8::decode_utf8(encode_utf8(right@)) == right@);
    }
    same
}

/// The characters of a text.
pub fn characters(text: &str) -> (characters: Vec<char>)
    ensures
        characters@ == text@,
{
    let mut characters: Vec<char> = Vec::new();
    for character in iterator: text.chars()
        invariant
            characters@ == iterator.seq().take(iterator.index()),
            iterator.seq() == text@,
    {
        characters.push(character);
    }
    assert(text@.take(text@.len() as int) =~= text@);
    characters
}

/// Appends the characters from `start` up to `end`.
pub fn push_characters(text: &mut String, characters: &[char], start: usize, end: usize)
    requires
        start <= end <= characters@.len(),
    ensures
        final(text)@ == old(text)@ + characters@.subrange(start as int, end as int),
{
    let mut index: usize = start;
    while index < end
        invariant
            start <= index <= end <= characters@.len(),
            text@ == old(text)@ + characters@.subrange(start as int, index as int),
        decreases end - index,
    {
        text.push(characters[index]);
        proof {
            assert(characters@.subrange(start as int, index + 1)
                =~= characters@.subrange(start as int, index as int).push(characters@[index as int]));
        }
        index += 1;
    }
}

/// The text made of the characters from `start` up to `end`.
pub fn collect(characters: &[char], start: usize, end: usize) -> (text: String)
    requires
        start <= end <= characters@.len(),
    ensures
        text@ == characters@.subrange(start as int, end as int),
{
    let mut text = String::new();
    push_characters(&mut text, characters, start, end);
    text
}

/// The text after `prefix`, where it starts with `prefix`.
pub fn strip_prefix(text: &str, prefix: &str) -> (rest: Option<String>)
    ensures
        rest is Some <==> prefix@.is_prefix_of(text@),
        rest is Some ==> rest->0@ == text@.skip(prefix@.len() as int),
{
    let whole = characters(text);
    let start = characters(prefix);
    if whole.len() < start.len() {
        return None;
    }
    let mut index: usize = 0;
    while index < start.len()
        invariant
            whole@ == text@,
            start@ == prefix@,
            index <= start.len() <= whole.len(),
            forall|i: int| 0 <= i < index ==> whole@[i] == start@[i],
        decreases start.len() - index,
    {
        if whole[index] != start[index] {
            assert(start@[index as int] != whole@.subrange(0, start@.len() as int)[index as int]);
            return None;
        }
        index += 1;
    }
    assert(start@ =~= whole@.subrange(0, start@.len() as int));
    Some(collect(whole.as_slice(), start.len(), whole.len()))
}

/// The characters with the Unicode property `White_Space`.
pub open spec fn is_white_space(character: char) -> bool {
    ||| '\u{9}' <= character <= '\u{d}'
    ||| character == ' '
    ||| character == '\u{85}'
    ||| character == '\u{a0}'
    ||| character == '\u{1680}'
    ||| '\u{2000}' <= character <= '\u{200a}'
    ||| character == '\u{2028}'
    ||| character == '\u{2029}'
    ||| character == '\u{202f}'
    ||| character == '\u{205f}'
    ||| character == '\u{3000}'
}

pub fn is_whitespace(character: char) -> (white: bool)
    ensures
        white == is_white_space(character),
{
    ('\u{9}' <= character && character <= '\u{d}') || character == ' ' || character == '\u{85}'
        || character == '\u{a0}' || character == '\u{1680}' || ('\u{2000}' <= character
        && character <= '\u{200a}') || character == '\u{2028}' || character == '\u{2029}'
        || character == '\u{202f}' || character == '\u{205f}' || character == '\u{3000}'
}

/// The views of a list of texts.
pub open spec fn text_views(texts: Seq<String>) -> Seq<Seq<char>> {
    Seq::new(texts.len(), |i: int| texts[i]@)
}

/// The digit of a number below ten.
pub open spec fn digit_character(digit: nat) -> char {
    if digit == 0 {
        '0'
    } else if digit == 1 {
        '1'
    } else if digit == 2 {
        '2'
    } else if digit == 3 {
        '3'
    } else if digit == 4 {
        '4'
    } else if digit == 5 {
        '5'
    } else if digit == 6 {
        '6'
    } else if digit == 7 {
        '7'
    } else if digit == 8 {
        '8'
    } else {
        '9'
    }
}

/// A number in decimal digits.
pub open spec fn decimal(number: nat) -> Seq<char>
    decreases number,
{
    if number < 10 {
        seq![digit_character(number)]
    } else {
        decimal(number / 10).push(digit_character(number % 10))
    }
}

/// A number in decimal digits, with a minus sign where it is negative.
pub open spec fn signed_decimal(number: int) -> Seq<char> {
    if number < 0 {
        seq!['-'] + decimal((-number) as nat)
    } else {
        decimal(number as nat)
    }
}

fn render_digit(value: u64) -> (character: char)
    requires
        value < 10,
    ensures
        character == digit_character(value as nat),
{
    match value {
        0 => '0',
        1 => '1',
        2 => '2',
        3 => '3',
        4 => '4',
        5 => '5',
        6 => '6',
        7 => '7',
        8 => '8',
        _ => '9',
    }
}

pub fn push_decimal(text: &mut String, number: u64)
    ensures
        final(text)@ == old(text)@ + decimal(number as nat),
    decreases number,
{
    if number >= 10 {
        push_decimal(text, number / 10);
    }
    text.push(render_digit(number % 10));
    assert(text@ =~= old(text)@ + decimal(number as nat));
}

pub fn push_signed_decimal(text: &mut String, number: i32)
    ensures
        final(text)@ == old(text)@ + signed_decimal(number as int),
{
    let wide: i64 = number as i64;
    if wide < 0 {
        text.push('-');
        push_decimal(text, (-wide) as u64);
        assert(text@ =~= old(text)@ + signed_decimal(number as int));
    } else {
        push_decimal(text, wide as u64);
    }
}

/// The decimal digits of a number below the given power of ten are at most that many, and ASCII.
pub proof fn lemma_decimal_digits(number: nat, digits: nat)
    requires
        digits >= 1,
        number < vstd::arithmetic::power::pow(10, digits),
    ensures
        1 <= decimal(number).len() <= digits,
        is_ascii_chars(decimal(number)),
    decreases digits,
{
    if number >= 10 {
        vstd::arithmetic::power::lemma_pow1(10);
        assert(digits > 1);
        assert(vstd::arithmetic::power::pow(10, digits) == 10 * vstd::arithmetic::power::pow(
            10,
            (digits - 1) as nat,
        )) by {
            reveal(vstd::arithmetic::power::pow);
        }
        let shorter = (digits - 1) as nat;
        assert(number / 10 < vstd::arithmetic::power::pow(10, shorter));
        lemma_decimal_digits(number / 10, shorter);
    }
}

/// The digits of a `u64`: at most twenty, all ASCII.
pub proof fn lemma_decimal_u64(number: u64)
    ensures
        1 <= decimal(number as nat).len() <= 20,
        is_ascii_chars(decimal(number as nat)),
{
    assert(vstd::arithmetic::power::pow(10, 20) == 100000000000000000000) by {
        reveal_with_fuel(vstd::arithmetic::power::pow, 21);
    }
    lemma_decimal_digits(number as nat, 20);
}

/// How many bytes a text takes in UTF-8.
pub open spec fn utf8_length(text: Seq<char>) -> nat {
    encode_utf8(text).len()
}

pub proof fn lemma_utf8_concat(first: Seq<char>, second: Seq<char>)
    ensures
        encode_utf8(first + second) == encode_utf8(first) + encode_utf8(second),
        utf8_length(first + second) == utf8_length(first) + utf8_length(second),
    decreases first.len(),
{
    if first.len() == 0 {
        assert(first + second =~= second);
        assert(encode_utf8(first) =~= Seq::empty());
        assert(encode_utf8(first) + encode_utf8(second) =~= encode_utf8(second));
    } else {
        let whole = first + second;
        lemma_utf8_concat(first.drop_first(), second);
        assert(whole.drop_first() =~= first.drop_first() + second);
        assert(whole[0] == first[0]);
        assert(encode_utf8(whole) =~= encode_utf8(first) + encode_utf8(second));
    }
}

/// How many bytes a character takes in UTF-8.
pub fn utf8_width(character: char) -> (width: usize)
    ensures
        1 <= width <= 4,
        width == encode_scalar(character as u32).len(),
{
    broadcast use vstd::utf8::char_is_scalar;

    let scalar = character as u32;
    assert(vstd::utf8::is_scalar(scalar));
    if scalar < 0x80 {
        1
    } else if scalar < 0x800 {
        2
    } else if scalar < 0x10000 {
        3
    } else {
        4
    }
}

/// How many bytes a text takes in UTF-8.
pub fn byte_length(text: &str) -> (length: usize)
    ensures
        length == utf8_length(text@),
{
    text.as_bytes().len()
}

/// The longest end of a text that takes at most `budget` bytes in UTF-8.
pub open spec fn text_tail(text: Seq<char>, budget: nat) -> Seq<char>
    decreases text.len(),
{
    if text.len() == 0 || utf8_length(text) <= budget {
        text
    } else {
        text_tail(text.skip(1), budget)
    }
}

pub fn tail(text: &str, budget: usize) -> (end: String)
    ensures
        end@ == text_tail(text@, budget as nat),
{
    let characters = characters(text);
    let mut start: usize = characters.len();
    let mut used: usize = 0;
    let mut fits = true;
    proof {
        assert(text@.skip(text@.len() as int) =~= Seq::empty());
    }
    while start > 0 && fits
        invariant
            characters@ == text@,
            start <= text@.len(),
            used <= budget,
            used == utf8_length(text@.skip(start as int)),
            !fits ==> start > 0 && utf8_length(text@.skip(start - 1)) > budget,
        decreases start,
            (if fits {
                1int
            } else {
                0int
            }),
    {
        let width = utf8_width(characters[start - 1]);
        proof {
            let longer = text@.skip(start - 1);
            assert(longer.drop_first() =~= text@.skip(start as int));
            assert(longer[0] == text@[start - 1]);
        }
        if width <= budget - used {
            start -= 1;
            used += width;
        } else {
            fits = false;
        }
    }
    proof {
        if start > 0 {
            lemma_tail_starts(text@, start as int, budget as nat);
        } else {
            assert(text@.skip(0) =~= text@);
        }
    }
    collect(characters.as_slice(), start, characters.len())
}

/// The tail starts where one character more no longer fits.
proof fn lemma_tail_starts(text: Seq<char>, start: int, budget: nat)
    requires
        0 < start <= text.len(),
        utf8_length(text.skip(start)) <= budget,
        utf8_length(text.skip(start - 1)) > budget,
    ensures
        text_tail(text, budget) == text.skip(start),
    decreases text.len(),
{
    let rest = text.skip(1);
    lemma_utf8_concat(text.take(start - 1), text.skip(start - 1));
    assert(text.take(start - 1) + text.skip(start - 1) =~= text);
    assert(rest.skip(start - 1) =~= text.skip(start));
    if start == 1 {
        assert(rest =~= text.skip(start));
        assert(text_tail(rest, budget) == rest);
    } else {
        assert(rest.skip(start - 2) =~= text.skip(start - 1));
        lemma_tail_starts(rest, start - 1, budget);
    }
}

/// The tail fits the budget and ends the text.
pub proof fn lemma_tail_fits(text: Seq<char>, budget: nat)
    ensures
        utf8_length(text_tail(text, budget)) <= budget,
        text_tail(text, budget).is_suffix_of(text),
    decreases text.len(),
{
    if text.len() == 0 || utf8_length(text) <= budget {
        assert(text.subrange(0, text.len() as int) =~= text);
    } else {
        let rest = text.skip(1);
        lemma_tail_fits(rest, budget);
        let end = text_tail(rest, budget);
        assert(end =~= text.subrange(text.len() - end.len(), text.len() as int));
    }
}

/// What `String::from_utf8_lossy` makes of bytes.
pub uninterp spec fn lossy_text(bytes: Seq<u8>) -> Seq<char>;

/// `String::from_utf8_lossy` decodes UTF-8, with replacement characters where the bytes are not
/// valid: valid bytes are decoded exactly.
#[verifier::external_body]
pub(crate) fn decode_lossily(bytes: &[u8]) -> (text: String)
    ensures
        text@ == lossy_text(bytes@),
        valid_utf8(bytes@) ==> text@ == decode_utf8(bytes@),
{
    String::from_utf8_lossy(bytes).into_owned()
}

/// The text that bytes read as: valid UTF-8 is decoded exactly, and other bytes lossily.
pub open spec fn readable(bytes: Seq<u8>) -> Seq<char> {
    if valid_utf8(bytes) {
        decode_utf8(bytes)
    } else {
        lossy_text(bytes)
    }
}

/// The text without white space at its end.
pub open spec fn trimmed_end(text: Seq<char>) -> Seq<char>
    decreases text.len(),
{
    if text.len() > 0 && is_white_space(text.last()) {
        trimmed_end(text.drop_last())
    } else {
        text
    }
}

/// The text without white space at its start.
pub open spec fn trimmed_start(text: Seq<char>) -> Seq<char>
    decreases text.len(),
{
    if text.len() > 0 && is_white_space(text[0]) {
        trimmed_start(text.skip(1))
    } else {
        text
    }
}

/// The text without white space at either end.
pub open spec fn trimmed_text(text: Seq<char>) -> Seq<char> {
    trimmed_start(trimmed_end(text))
}

pub fn trim_end(text: &str) -> (kept: String)
    ensures
        kept@ == trimmed_end(text@),
{
    let characters = characters(text);
    let mut end: usize = characters.len();
    assert(text@.take(end as int) =~= text@);
    while end > 0 && is_whitespace(characters[end - 1])
        invariant
            characters@ == text@,
            end <= text@.len(),
            trimmed_end(text@.take(end as int)) == trimmed_end(text@),
        decreases end,
    {
        assert(text@.take(end as int).drop_last() =~= text@.take(end - 1));
        end -= 1;
    }
    assert(text@.subrange(0, end as int) =~= text@.take(end as int));
    collect(characters.as_slice(), 0, end)
}

pub fn trim(text: &str) -> (inner: String)
    ensures
        inner@ == trimmed_text(text@),
{
    let characters = characters(text);
    let mut end: usize = characters.len();
    assert(text@.take(end as int) =~= text@);
    while end > 0 && is_whitespace(characters[end - 1])
        invariant
            characters@ == text@,
            end <= text@.len(),
            trimmed_end(text@.take(end as int)) == trimmed_end(text@),
        decreases end,
    {
        assert(text@.take(end as int).drop_last() =~= text@.take(end - 1));
        end -= 1;
    }
    let ghost kept = text@.take(end as int);
    let mut start: usize = 0;
    assert(kept.skip(0) =~= kept);
    while start < end && is_whitespace(characters[start])
        invariant
            characters@ == text@,
            start <= end <= text@.len(),
            kept == text@.take(end as int),
            trimmed_start(kept.skip(start as int)) == trimmed_start(kept),
        decreases end - start,
    {
        assert(kept.skip(start as int).skip(1) =~= kept.skip(start + 1));
        start += 1;
    }
    assert(text@.subrange(start as int, end as int) =~= kept.skip(start as int));
    collect(characters.as_slice(), start, end)
}

/// Whether a text holds a character.
pub fn holds(text: &str, character: char) -> (held: bool)
    ensures
        held == text@.contains(character),
{
    let characters = characters(text);
    let mut index: usize = 0;
    while index < characters.len()
        invariant
            characters@ == text@,
            index <= text@.len(),
            forall|i: int| 0 <= i < index ==> text@[i] != character,
        decreases characters.len() - index,
    {
        if characters[index] == character {
            assert(text@[index as int] == character);
            return true;
        }
        index += 1;
    }
    false
}

/// The first `count` characters, or all where there are fewer.
pub fn take_characters(text: &str, count: usize) -> (start: String)
    ensures
        start@ == if text@.len() <= count {
            text@
        } else {
            text@.take(count as int)
        },
{
    let characters = characters(text);
    let end: usize = if characters.len() <= count {
        characters.len()
    } else {
        count
    };
    let start = collect(characters.as_slice(), 0, end);
    assert(text@.len() <= count ==> start@ =~= text@);
    start
}

/// The texts one after the other, with `separator` between them.
pub open spec fn joined_texts(texts: Seq<Seq<char>>, separator: Seq<char>) -> Seq<char>
    decreases texts.len(),
{
    if texts.len() == 0 {
        Seq::empty()
    } else if texts.len() == 1 {
        texts[0]
    } else {
        joined_texts(texts.drop_last(), separator) + separator + texts.last()
    }
}

pub fn join(texts: &Vec<String>, separator: &str) -> (joined: String)
    ensures
        joined@ == joined_texts(text_views(texts@), separator@),
{
    let ghost views = text_views(texts@);
    let mut joined = String::new();
    let mut index: usize = 0;
    assert(views.take(0) =~= Seq::empty());
    while index < texts.len()
        invariant
            index <= texts@.len(),
            views == text_views(texts@),
            joined@ == joined_texts(views.take(index as int), separator@),
        decreases texts.len() - index,
    {
        proof {
            let here = views.take(index + 1);
            assert(here.drop_last() =~= views.take(index as int));
            assert(here.last() == texts@[index as int]@);
        }
        if index > 0 {
            joined.append(separator);
        }
        joined.append(texts[index].as_str());
        assert(index == 0 ==> joined@ =~= texts@[0]@);
        index += 1;
    }
    assert(views.take(views.len() as int) =~= views);
    joined
}

/// `String::from_utf8` decodes bytes exactly where they are valid UTF-8.
#[verifier::external_body]
pub(crate) fn decode_strictly(bytes: Vec<u8>) -> (text: Option<String>)
    ensures
        text is Some <==> valid_utf8(bytes@),
        text is Some ==> text->0@ == decode_utf8(bytes@),
{
    String::from_utf8(bytes).ok()
}

/// What a digit counts.
pub open spec fn digit_value(character: char) -> int {
    character as int - '0' as int
}

/// What a row of digits counts, each place ten times the next.
pub open spec fn number_of(digits: Seq<char>) -> int
    decreases digits.len(),
{
    if digits.len() == 0 {
        0
    } else {
        10 * number_of(digits.drop_last()) + digit_value(digits.last())
    }
}

/// A number that is written in digits is read back as it was; it holds nothing but digits, and
/// begins with a zero only where it is zero.
pub proof fn numbers_are_read_back(number: nat)
    ensures
        number_of(decimal(number)) == number,
        decimal(number).len() > 0,
        forall|i: int| 0 <= i < decimal(number).len() ==> '0' <= #[trigger] decimal(number)[i] <= '9',
        decimal(number)[0] == '0' ==> number == 0,
    decreases number,
{
    reveal_with_fuel(number_of, 2);
    let digits = decimal(number);
    if number >= 10 {
        let before = decimal(number / 10);
        numbers_are_read_back(number / 10);
        assert(digits.drop_last() =~= before);
        assert(digits.last() == digit_character(number % 10));
        assert forall|i: int| 0 <= i < digits.len() implies '0' <= #[trigger] digits[i] <= '9' by {
            if i < before.len() {
                assert(digits[i] == before[i]);
            }
        }
    }
}

/// A negative number is written with a minus sign before its digits.
pub proof fn negative_numbers_have_a_sign(number: int)
    ensures
        number >= 0 ==> number_of(signed_decimal(number)) == number && signed_decimal(number)[0]
            != '-',
        number < 0 ==> signed_decimal(number)[0] == '-' && number_of(signed_decimal(number).skip(1))
            == -number,
{
    if number < 0 {
        numbers_are_read_back((-number) as nat);
        assert(signed_decimal(number).skip(1) =~= decimal((-number) as nat));
    } else {
        numbers_are_read_back(number as nat);
    }
}

/// Whether a text holds nothing but white space.
pub open spec fn is_blank(text: Seq<char>) -> bool {
    forall|i: int| 0 <= i < text.len() ==> is_white_space(#[trigger] text[i])
}

proof fn lemma_trimmed_end(text: Seq<char>)
    ensures
        trimmed_end(text).len() <= text.len(),
        text == trimmed_end(text) + text.skip(trimmed_end(text).len() as int),
        is_blank(text.skip(trimmed_end(text).len() as int)),
        trimmed_end(text).len() > 0 ==> !is_white_space(trimmed_end(text).last()),
    decreases text.len(),
{
    let kept = trimmed_end(text);
    if text.len() > 0 && is_white_space(text.last()) {
        let shorter = text.drop_last();
        lemma_trimmed_end(shorter);
        let cut = text.skip(kept.len() as int);
        assert forall|i: int| 0 <= i < cut.len() implies is_white_space(#[trigger] cut[i]) by {
            if i < cut.len() - 1 {
                assert(shorter.skip(kept.len() as int)[i] == cut[i]);
            }
        }
        assert(text =~= kept + cut) by {
            assert(shorter =~= kept + shorter.skip(kept.len() as int));
            assert forall|i: int| 0 <= i < kept.len() implies text[i] == kept[i] by {
                assert(shorter[i] == kept[i]);
            }
        }
    } else {
        assert(text =~= kept + text.skip(kept.len() as int));
    }
}

proof fn lemma_trimmed_start(text: Seq<char>)
    ensures
        trimmed_start(text).len() <= text.len(),
        trimmed_start(text) == text.skip(text.len() - trimmed_start(text).len()),
        is_blank(text.take(text.len() - trimmed_start(text).len())),
        trimmed_start(text).len() > 0 ==> !is_white_space(trimmed_start(text)[0]),
    decreases text.len(),
{
    if text.len() > 0 && is_white_space(text[0]) {
        let rest = text.skip(1);
        lemma_trimmed_start(rest);
        let cut = text.take(text.len() - trimmed_start(text).len());
        assert forall|i: int| 0 <= i < cut.len() implies is_white_space(#[trigger] cut[i]) by {
            if i > 0 {
                assert(rest.take(rest.len() - trimmed_start(rest).len())[i - 1] == cut[i]);
            }
        }
        assert(trimmed_start(text) =~= text.skip(text.len() - trimmed_start(text).len()));
    } else {
        assert(text.skip(0) =~= text);
    }
}

/// Trimming takes white space from both ends, all of it, and nothing else.
pub proof fn trimming_takes_white_space(text: Seq<char>)
    ensures
        exists|before: Seq<char>, after: Seq<char>|
            #![trigger is_blank(before), is_blank(after)]
            text == before + trimmed_text(text) + after && is_blank(before) && is_blank(after),
        trimmed_text(text).len() > 0 ==> !is_white_space(trimmed_text(text)[0])
            && !is_white_space(trimmed_text(text).last()),
        trimmed_text(text).len() == 0 <==> is_blank(text),
{
    let end = trimmed_end(text);
    let kept = trimmed_text(text);
    lemma_trimmed_end(text);
    lemma_trimmed_start(end);
    let before = end.take(end.len() - kept.len());
    let after = text.skip(end.len() as int);
    assert(is_blank(before) && is_blank(after));
    assert(text =~= before + kept + after);
    if kept.len() > 0 {
        assert(kept.last() == end.last());
        assert(text[before.len() as int] == kept[0]);
    } else {
        assert(text =~= before + after);
        assert forall|i: int| 0 <= i < text.len() implies is_white_space(#[trigger] text[i]) by {
            if i < before.len() {
                assert(text[i] == before[i]);
            } else {
                assert(text[i] == after[i - before.len()]);
            }
        }
    }
}

/// Texts are joined in order, with the separator between each and the next and nowhere else.
pub proof fn joined_texts_keep_their_order(
    texts: Seq<Seq<char>>,
    last: Seq<char>,
    separator: Seq<char>,
)
    ensures
        joined_texts(Seq::<Seq<char>>::empty(), separator).len() == 0,
        joined_texts(seq![last], separator) == last,
        texts.len() > 0 ==> joined_texts(texts.push(last), separator) == joined_texts(
            texts,
            separator,
        ) + separator + last,
{
    assert(texts.push(last).drop_last() =~= texts);
}

/// The tail of a text is the longest end of it that fits.
pub proof fn tails_are_longest(text: Seq<char>, budget: nat, start: int)
    requires
        0 <= start <= text.len(),
        utf8_length(text.skip(start)) <= budget,
    ensures
        text_tail(text, budget).len() >= text.len() - start,
        utf8_length(text_tail(text, budget)) <= budget,
        text_tail(text, budget).is_suffix_of(text),
    decreases text.len(),
{
    lemma_tail_fits(text, budget);
    if text.len() > 0 && utf8_length(text) > budget {
        if start == 0 {
            assert(text.skip(0) =~= text);
        } else {
            assert(text.skip(1).skip(start - 1) =~= text.skip(start));
            tails_are_longest(text.skip(1), budget, start - 1);
        }
    }
}

} // verus!
