//! The grammar: what parsing yields at each position of a text.
//!
//! Every function here takes the whole text and a position in it, and
//! gives either the value that starts there together with the position
//! after it, or the rejection. A rejection's offset is the position that
//! reading had reached when the fault was found.

use vstd::prelude::*;
use crate::error::{ParseErrorKind, Rejection};
use crate::scan::{hex_value, is_digit, is_hex_digit, run_end, skip_whitespace, CharClass};
use crate::value::{is_json_number, with_member, Json};

verus! {

/// A rejection of the given kind at the given offset.
pub open spec fn rejected<T>(kind: ParseErrorKind, offset: int) -> Result<(T, int), Rejection> {
    Err(Rejection { kind, offset })
}

/// What the first character of a value announces.
#[derive(Debug, Clone, Copy, PartialEq, Eq, Structural)]
pub enum Lead {
    Null,
    Boolean,
    String,
    Number,
    Array,
    Object,
    Other,
}

/// The kind of value that may start with `c`.
pub open spec fn lead_of(c: char) -> Lead {
    if c == 'n' {
        Lead::Null
    } else if c == 't' || c == 'f' {
        Lead::Boolean
    } else if c == '"' {
        Lead::String
    } else if is_digit(c) || c == '-' {
        Lead::Number
    } else if c == '[' {
        Lead::Array
    } else if c == '{' {
        Lead::Object
    } else {
        Lead::Other
    }
}

pub open spec fn null_word() -> Seq<char> {
    seq!['n', 'u', 'l', 'l']
}

pub open spec fn true_word() -> Seq<char> {
    seq!['t', 'r', 'u', 'e']
}

pub open spec fn false_word() -> Seq<char> {
    seq!['f', 'a', 'l', 's', 'e']
}

/// The position after the value that was read from `from` on: `next`,
/// which lies after `from` for every value that [`value_at`] and
/// [`escape_at`] yield (proved in [`crate::soundness`]).
pub open spec fn resume(text: Seq<char>, from: int, next: int) -> int {
    if from < next <= text.len() {
        next
    } else {
        from + 1
    }
}

/// `null`: the next four characters, or as many as are left, are read, and
/// have to spell the word.
pub open spec fn null_at(text: Seq<char>, pos: int) -> Result<(Json, int), Rejection> {
    let end = if pos + 4 <= text.len() { pos + 4 } else { text.len() as int };
    if text.subrange(pos, end) == null_word() {
        Ok((Json::Null, end))
    } else {
        rejected(ParseErrorKind::InvalidLiteral, end)
    }
}

/// `true` or `false`: the letters from `pos` on are read as far as they
/// go, and have to spell one of the two words.
pub open spec fn boolean_at(text: Seq<char>, pos: int) -> Result<(Json, int), Rejection> {
    let end = run_end(text, pos, CharClass::Letter);
    let word = text.subrange(pos, end);
    if word == true_word() {
        Ok((Json::Boolean(true), end))
    } else if word == false_word() {
        Ok((Json::Boolean(false), end))
    } else {
        rejected(ParseErrorKind::InvalidLiteral, end)
    }
}

/// A number: the number characters from `pos` on are read as far as they
/// go, and have to form a JSON number.
pub open spec fn number_at(text: Seq<char>, pos: int) -> Result<(Json, int), Rejection> {
    let end = run_end(text, pos, CharClass::Number);
    let literal = text.subrange(pos, end);
    if is_json_number(literal) {
        Ok((Json::Number(literal), end))
    } else {
        rejected(ParseErrorKind::InvalidNumber, end)
    }
}

/// The hexadecimal digit at `pos`.
pub open spec fn hex_digit_at(text: Seq<char>, pos: int) -> Result<(int, int), Rejection> {
    if !(0 <= pos < text.len()) {
        rejected(ParseErrorKind::UnterminatedString, pos)
    } else if !is_hex_digit(text[pos]) {
        rejected(ParseErrorKind::InvalidEscape, pos)
    } else {
        Ok((hex_value(text[pos]), pos + 1))
    }
}

/// The UTF-16 code unit that the four hexadecimal digits at `pos` denote.
pub open spec fn code_unit_at(text: Seq<char>, pos: int) -> Result<(int, int), Rejection> {
    match hex_digit_at(text, pos) {
        Err(rejection) => Err(rejection),
        Ok((a, _)) => match hex_digit_at(text, pos + 1) {
            Err(rejection) => Err(rejection),
            Ok((b, _)) => match hex_digit_at(text, pos + 2) {
                Err(rejection) => Err(rejection),
                Ok((c, _)) => match hex_digit_at(text, pos + 3) {
                    Err(rejection) => Err(rejection),
                    Ok((d, _)) => Ok((((a * 16 + b) * 16 + c) * 16 + d, pos + 4)),
                },
            },
        },
    }
}

pub open spec fn is_high_surrogate(unit: int) -> bool {
    0xD800 <= unit <= 0xDBFF
}

pub open spec fn is_low_surrogate(unit: int) -> bool {
    0xDC00 <= unit <= 0xDFFF
}

/// The code point that a surrogate pair encodes.
pub open spec fn surrogate_pair(high: int, low: int) -> int {
    0x10000 + (high - 0xD800) * 0x400 + (low - 0xDC00)
}

/// The character that a one-letter escape stands for.
pub open spec fn simple_escape(c: char) -> Option<char> {
    if c == '"' {
        Some('"')
    } else if c == '\\' {
        Some('\\')
    } else if c == '/' {
        Some('/')
    } else if c == 'b' {
        Some('\u{8}')
    } else if c == 'f' {
        Some('\u{c}')
    } else if c == 'n' {
        Some('\n')
    } else if c == 'r' {
        Some('\r')
    } else if c == 't' {
        Some('\t')
    } else {
        None
    }
}

/// The second half of a surrogate pair: `\u` and four digits that denote a
/// low surrogate have to follow the high surrogate `high`.
pub open spec fn low_surrogate_at(text: Seq<char>, pos: int, high: int) -> Result<
    (char, int),
    Rejection,
> {
    if !(0 <= pos < text.len()) {
        rejected(ParseErrorKind::UnterminatedString, pos)
    } else if text[pos] != '\\' {
        rejected(ParseErrorKind::InvalidEscape, pos)
    } else if !(pos + 1 < text.len()) {
        rejected(ParseErrorKind::UnterminatedString, pos + 1)
    } else if text[pos + 1] != 'u' {
        rejected(ParseErrorKind::InvalidEscape, pos + 1)
    } else {
        match code_unit_at(text, pos + 2) {
            Err(rejection) => Err(rejection),
            Ok((low, next)) => if is_low_surrogate(low) {
                Ok((surrogate_pair(high, low) as char, next))
            } else {
                rejected(ParseErrorKind::InvalidEscape, next)
            },
        }
    }
}

/// What follows `\u`: four digits that denote a character, or a surrogate
/// pair written as two such escapes. A surrogate on its own is rejected.
pub open spec fn unicode_escape_at(text: Seq<char>, pos: int) -> Result<(char, int), Rejection> {
    match code_unit_at(text, pos) {
        Err(rejection) => Err(rejection),
        Ok((unit, next)) => if is_high_surrogate(unit) {
            low_surrogate_at(text, next, unit)
        } else if is_low_surrogate(unit) {
            rejected(ParseErrorKind::InvalidEscape, next)
        } else {
            Ok((unit as char, next))
        },
    }
}

/// What follows a backslash inside a string.
pub open spec fn escape_at(text: Seq<char>, pos: int) -> Result<(char, int), Rejection> {
    if !(0 <= pos < text.len()) {
        rejected(ParseErrorKind::UnterminatedString, pos)
    } else if text[pos] == 'u' {
        unicode_escape_at(text, pos + 1)
    } else {
        match simple_escape(text[pos]) {
            Some(c) => Ok((c, pos + 1)),
            None => rejected(ParseErrorKind::InvalidEscape, pos),
        }
    }
}

/// The rest of a string whose characters up to `pos` gave `read`: up to
/// the closing quote, with every escape resolved.
pub open spec fn string_body_at(text: Seq<char>, pos: int, read: Seq<char>) -> Result<
    (Seq<char>, int),
    Rejection,
>
    decreases text.len() - pos,
{
    if !(0 <= pos < text.len()) {
        rejected(ParseErrorKind::UnterminatedString, pos)
    } else if text[pos] == '"' {
        Ok((read, pos + 1))
    } else if text[pos] == '\\' {
        match escape_at(text, pos + 1) {
            Err(rejection) => Err(rejection),
            Ok((c, next)) => string_body_at(text, resume(text, pos, next), read.push(c)),
        }
    } else {
        string_body_at(text, pos + 1, read.push(text[pos]))
    }
}

/// The characters of the string whose opening quote stands at `pos`.
pub open spec fn string_at(text: Seq<char>, pos: int) -> Result<(Seq<char>, int), Rejection> {
    if 0 <= pos < text.len() {
        string_body_at(text, pos + 1, Seq::empty())
    } else {
        rejected(ParseErrorKind::UnterminatedString, pos)
    }
}

/// The string at `pos` as a value.
pub open spec fn string_value_at(text: Seq<char>, pos: int) -> Result<(Json, int), Rejection> {
    match string_at(text, pos) {
        Ok((s, next)) => Ok((Json::String(s), next)),
        Err(rejection) => Err(rejection),
    }
}

/// The value that starts at the first character at or after `pos` that is
/// no whitespace.
pub open spec fn value_at(text: Seq<char>, pos: int) -> Result<(Json, int), Rejection>
    decreases text.len() - pos, 1nat,
{
    let start = skip_whitespace(text, pos);
    if 0 <= pos <= start < text.len() {
        match lead_of(text[start]) {
            Lead::Null => null_at(text, start),
            Lead::Boolean => boolean_at(text, start),
            Lead::String => string_value_at(text, start),
            Lead::Number => number_at(text, start),
            Lead::Array => array_at(text, start),
            Lead::Object => object_at(text, start),
            Lead::Other => rejected(ParseErrorKind::UnexpectedCharacter, start),
        }
    } else {
        rejected(ParseErrorKind::UnexpectedEndOfInput, start)
    }
}

/// The array whose opening bracket stands at `pos`.
pub open spec fn array_at(text: Seq<char>, pos: int) -> Result<(Json, int), Rejection>
    decreases text.len() - pos, 0nat,
{
    if 0 <= pos < text.len() {
        array_item_at(text, pos + 1, Seq::empty(), true)
    } else {
        rejected(ParseErrorKind::UnterminatedArray, pos)
    }
}

/// Inside an array, where an item has to start: after the opening bracket,
/// where the array `may_close` at once, or after a comma, where it may not.
pub open spec fn array_item_at(
    text: Seq<char>,
    pos: int,
    items: Seq<Json>,
    may_close: bool,
) -> Result<(Json, int), Rejection>
    decreases text.len() - pos, 2nat,
{
    let at = skip_whitespace(text, pos);
    if !(0 <= pos <= at < text.len()) {
        rejected(ParseErrorKind::UnterminatedArray, at)
    } else if text[at] == ']' && may_close {
        Ok((Json::Array(items), at + 1))
    } else if text[at] == ']' || text[at] == ',' {
        rejected(ParseErrorKind::UnexpectedToken, at)
    } else {
        match value_at(text, at) {
            Err(rejection) => Err(rejection),
            Ok((item, next)) => array_rest_at(text, resume(text, at, next), items.push(item)),
        }
    }
}

/// Inside an array, after an item: the closing bracket, or a comma and the
/// next item.
pub open spec fn array_rest_at(text: Seq<char>, pos: int, items: Seq<Json>) -> Result<
    (Json, int),
    Rejection,
>
    decreases text.len() - pos, 0nat,
{
    let at = skip_whitespace(text, pos);
    if !(0 <= pos <= at < text.len()) {
        rejected(ParseErrorKind::UnterminatedArray, at)
    } else if text[at] == ']' {
        Ok((Json::Array(items), at + 1))
    } else if text[at] == ',' {
        array_item_at(text, at + 1, items, false)
    } else {
        rejected(ParseErrorKind::UnexpectedToken, at)
    }
}

/// The object whose opening brace stands at `pos`.
pub open spec fn object_at(text: Seq<char>, pos: int) -> Result<(Json, int), Rejection>
    decreases text.len() - pos, 0nat,
{
    if !(0 <= pos < text.len()) {
        rejected(ParseErrorKind::UnterminatedObject, pos)
    } else if text[pos] != '{' {
        rejected(ParseErrorKind::InvalidObjectSyntax, pos)
    } else {
        object_member_at(text, pos + 1, Seq::empty(), true)
    }
}

/// Inside an object, where a member has to start: after the opening brace,
/// where the object `may_close` at once, or after a comma, where it may
/// not. A member is a string, a colon and a value; a key that is there
/// already gets the new value.
pub open spec fn object_member_at(
    text: Seq<char>,
    pos: int,
    members: Seq<(Seq<char>, Json)>,
    may_close: bool,
) -> Result<(Json, int), Rejection>
    decreases text.len() - pos, 2nat,
{
    let at = skip_whitespace(text, pos);
    if !(0 <= pos <= at < text.len()) {
        rejected(ParseErrorKind::UnterminatedObject, at)
    } else if text[at] == '}' && may_close {
        Ok((Json::Object(members), at + 1))
    } else if text[at] != '"' {
        rejected(ParseErrorKind::InvalidObjectSyntax, at)
    } else {
        match string_at(text, at) {
            Err(rejection) => Err(rejection),
            Ok((key, after_key)) => {
                let colon = skip_whitespace(text, after_key);
                if at < after_key <= colon < text.len() && text[colon] == ':' {
                    match value_at(text, colon + 1) {
                        Err(rejection) => Err(rejection),
                        Ok((value, next)) => object_rest_at(
                            text,
                            resume(text, colon, next),
                            with_member(members, key, value),
                        ),
                    }
                } else {
                    rejected(ParseErrorKind::ExpectedColon, colon)
                }
            },
        }
    }
}

/// Inside an object, after a member: the closing brace, or a comma and the
/// next member.
pub open spec fn object_rest_at(
    text: Seq<char>,
    pos: int,
    members: Seq<(Seq<char>, Json)>,
) -> Result<(Json, int), Rejection>
    decreases text.len() - pos, 0nat,
{
    let at = skip_whitespace(text, pos);
    if !(0 <= pos <= at < text.len()) {
        rejected(ParseErrorKind::UnterminatedObject, at)
    } else if text[at] == '}' {
        Ok((Json::Object(members), at + 1))
    } else if text[at] == ',' {
        object_member_at(text, at + 1, members, false)
    } else {
        rejected(ParseErrorKind::InvalidObjectSyntax, at)
    }
}

/// The document that `text` holds: one value, with nothing but whitespace
/// around it.
pub open spec fn document(text: Seq<char>) -> Result<Json, Rejection> {
    match value_at(text, 0) {
        Err(rejection) => Err(rejection),
        Ok((value, next)) => {
            let end = skip_whitespace(text, next);
            if end == text.len() {
                Ok(value)
            } else {
                Err(Rejection { kind: ParseErrorKind::UnexpectedCharacter, offset: end })
            }
        },
    }
}

} // verus!
