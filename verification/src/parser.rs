//! The parsers: one for each kind of value, the dispatcher that picks among
//! them, and [`parse`] for a whole document.

use vstd::prelude::*;
use crate::cursor::Cursor;
use crate::error::{ParseError, ParseErrorKind, Rejection};
use crate::grammar::{
    array_at, array_item_at, array_rest_at, boolean_at, code_unit_at, document, escape_at,
    false_word, hex_digit_at, is_high_surrogate, lead_of, low_surrogate_at, null_at, null_word,
    number_at, object_at, object_member_at, object_rest_at, simple_escape, string_at,
    string_body_at, string_value_at, true_word, unicode_escape_at, value_at, Lead,
};
use crate::scan::{hex_digit_value, CharClass};
use crate::soundness::{lemma_escape_at, lemma_string_at, lemma_value_at};
use crate::value::{
    digits_end, insert_member, is_json_number, items_model, lemma_array_model,
    lemma_object_model, members_model, Json, JsonValue,
};

verus! {

/// Whether `result`, with reading stopped at `stop`, is what the grammar
/// `expected`: the same value, with reading stopped after it, or the same
/// rejection, with reading stopped where it was found.
pub open spec fn yields<T: View>(
    result: Result<T, ParseError>,
    stop: int,
    expected: Result<(T::V, int), Rejection>,
) -> bool {
    match expected {
        Ok((value, next)) => result matches Ok(got) && got@ == value && stop == next,
        Err(rejection) => result matches Err(error) && error@ == rejection && stop
            == rejection.offset,
    }
}

/// As [`yields`], for a result that is its own model.
pub open spec fn yields_plain<T>(
    result: Result<T, ParseError>,
    stop: int,
    expected: Result<(T, int), Rejection>,
) -> bool {
    match expected {
        Ok((value, next)) => result == Ok::<T, ParseError>(value) && stop == next,
        Err(rejection) => result matches Err(error) && error@ == rejection && stop
            == rejection.offset,
    }
}

/// The error of the given kind at the place that `cursor` has reached.
fn fail_at<T>(cursor: &Cursor, kind: ParseErrorKind) -> (result: Result<T, ParseError>)
    ensures
        result matches Err(error) && error@ == (Rejection { kind, offset: cursor.position() }),
{
    Err(ParseError { kind, offset: cursor.offset() })
}

/// The kind of value that may start with `c`.
pub fn classify(c: char) -> (lead: Lead)
    ensures
        lead == lead_of(c),
{
    if c == 'n' {
        Lead::Null
    } else if c == 't' || c == 'f' {
        Lead::Boolean
    } else if c == '"' {
        Lead::String
    } else if ('0' <= c && c <= '9') || c == '-' {
        Lead::Number
    } else if c == '[' {
        Lead::Array
    } else if c == '{' {
        Lead::Object
    } else {
        Lead::Other
    }
}

fn is_char(read: Option<char>, expected: char) -> (b: bool)
    ensures
        b == (read == Some(expected)),
{
    match read {
        Some(c) => c == expected,
        None => false,
    }
}

/// Reads `null`.
pub fn parse_null(cursor: &mut Cursor) -> (result: Result<JsonValue, ParseError>)
    ensures
        final(cursor).text() == old(cursor).text(),
        yields(result, final(cursor).position(), null_at(old(cursor).text(), old(cursor).position())),
{
    let ghost text = cursor.text();
    let ghost start = cursor.position();
    let a = cursor.next();
    let b = cursor.next();
    let c = cursor.next();
    let d = cursor.next();
    let ghost end = cursor.position();
    if is_char(a, 'n') && is_char(b, 'u') && is_char(c, 'l') && is_char(d, 'l') {
        assert(text.subrange(start, end) =~= null_word());
        Ok(JsonValue::Null)
    } else {
        proof {
            let word = text.subrange(start, end);
            if word == null_word() {
                assert(word.len() == 4);
                assert(word[0] == 'n' && word[1] == 'u' && word[2] == 'l' && word[3] == 'l');
            }
        }
        fail_at(cursor, ParseErrorKind::InvalidLiteral)
    }
}

fn is_true_word(word: &Vec<char>) -> (b: bool)
    ensures
        b == (word@ == true_word()),
{
    let b = word.len() == 4 && word[0] == 't' && word[1] == 'r' && word[2] == 'u' && word[3]
        == 'e';
    proof {
        if b {
            assert(word@ =~= true_word());
        } else if word@ == true_word() {
            assert(word@.len() == 4);
            assert(word@[0] == 't' && word@[1] == 'r' && word@[2] == 'u' && word@[3] == 'e');
        }
    }
    b
}

fn is_false_word(word: &Vec<char>) -> (b: bool)
    ensures
        b == (word@ == false_word()),
{
    let b = word.len() == 5 && word[0] == 'f' && word[1] == 'a' && word[2] == 'l' && word[3]
        == 's' && word[4] == 'e';
    proof {
        if b {
            assert(word@ =~= false_word());
        } else if word@ == false_word() {
            assert(word@.len() == 5);
            assert(word@[0] == 'f' && word@[1] == 'a' && word@[2] == 'l' && word@[3] == 's'
                && word@[4] == 'e');
        }
    }
    b
}

/// Reads `true` or `false`.
pub fn parse_boolean(cursor: &mut Cursor) -> (result: Result<JsonValue, ParseError>)
    ensures
        final(cursor).text() == old(cursor).text(),
        yields(
            result,
            final(cursor).position(),
            boolean_at(old(cursor).text(), old(cursor).position()),
        ),
{
    let word = cursor.take_run(CharClass::Letter);
    if is_true_word(&word) {
        Ok(JsonValue::Boolean(true))
    } else if is_false_word(&word) {
        Ok(JsonValue::Boolean(false))
    } else {
        fail_at(cursor, ParseErrorKind::InvalidLiteral)
    }
}

/// Where the digits of `literal` that start at `from` end.
fn digits_end_in(literal: &[char], from: usize) -> (end: usize)
    requires
        from <= literal@.len(),
    ensures
        end == digits_end(literal@, from as int),
        from <= end <= literal@.len(),
{
    let mut end = from;
    while end < literal.len() && CharClass::Digit.holds(literal[end])
        invariant
            from <= end <= literal@.len(),
            digits_end(literal@, from as int) == digits_end(literal@, end as int),
        decreases literal@.len() - end,
    {
        end = end + 1;
    }
    end
}

/// Whether `literal` is a number of the JSON grammar.
pub fn is_number(literal: &[char]) -> (b: bool)
    ensures
        b == is_json_number(literal@),
{
    let len = literal.len();
    let int_start: usize = if len > 0 && literal[0] == '-' { 1 } else { 0 };
    let int_end = digits_end_in(literal, int_start);
    if int_end == int_start {
        return false;
    }
    if literal[int_start] == '0' && int_end != int_start + 1 {
        return false;
    }
    let mut frac_end = int_end;
    if int_end < len && literal[int_end] == '.' {
        frac_end = digits_end_in(literal, int_end + 1);
        if frac_end == int_end + 1 {
            return false;
        }
    }
    let mut exp_end = frac_end;
    if frac_end < len && (literal[frac_end] == 'e' || literal[frac_end] == 'E') {
        let exp_start: usize = if frac_end + 1 < len && (literal[frac_end + 1] == '+'
            || literal[frac_end + 1] == '-') {
            frac_end + 2
        } else {
            frac_end + 1
        };
        exp_end = digits_end_in(literal, exp_start);
        if exp_end == exp_start {
            return false;
        }
    }
    exp_end == len
}

/// The string that holds the characters of `chars`.
pub fn string_of(chars: &Vec<char>) -> (s: String)
    ensures
        s@ == chars@,
{
    let mut s = String::new();
    let mut i: usize = 0;
    while i < chars.len()
        invariant
            i <= chars@.len(),
            s@ == chars@.take(i as int),
        decreases chars@.len() - i,
    {
        s.push(chars[i]);
        i = i + 1;
        assert(s@ =~= chars@.take(i as int));
    }
    assert(chars@.take(chars@.len() as int) =~= chars@);
    s
}

/// Reads a number.
pub fn parse_number(cursor: &mut Cursor) -> (result: Result<JsonValue, ParseError>)
    ensures
        final(cursor).text() == old(cursor).text(),
        yields(
            result,
            final(cursor).position(),
            number_at(old(cursor).text(), old(cursor).position()),
        ),
{
    let run = cursor.take_run(CharClass::Number);
    if is_number(run.as_slice()) {
        Ok(JsonValue::Number(string_of(&run)))
    } else {
        fail_at(cursor, ParseErrorKind::InvalidNumber)
    }
}

/// Reads one hexadecimal digit.
fn read_hex_digit(cursor: &mut Cursor) -> (result: Result<u32, ParseError>)
    ensures
        final(cursor).text() == old(cursor).text(),
        match hex_digit_at(old(cursor).text(), old(cursor).position()) {
            Ok((value, next)) => result == Ok::<u32, ParseError>(value as u32) && value < 16
                && final(cursor).position() == next,
            Err(rejection) => result matches Err(error) && error@ == rejection
                && final(cursor).position() == rejection.offset,
        },
{
    match cursor.peek() {
        None => fail_at(cursor, ParseErrorKind::UnterminatedString),
        Some(c) => match hex_digit_value(c) {
            None => fail_at(cursor, ParseErrorKind::InvalidEscape),
            Some(value) => {
                cursor.next();
                Ok(value)
            },
        },
    }
}

/// Reads the four hexadecimal digits of a UTF-16 code unit.
fn read_code_unit(cursor: &mut Cursor) -> (result: Result<u32, ParseError>)
    ensures
        final(cursor).text() == old(cursor).text(),
        match code_unit_at(old(cursor).text(), old(cursor).position()) {
            Ok((unit, next)) => result == Ok::<u32, ParseError>(unit as u32) && 0 <= unit
                <= 0xFFFF && final(cursor).position() == next,
            Err(rejection) => result matches Err(error) && error@ == rejection
                && final(cursor).position() == rejection.offset,
        },
{
    let a = match read_hex_digit(cursor) {
        Ok(digit) => digit,
        Err(error) => return Err(error),
    };
    let b = match read_hex_digit(cursor) {
        Ok(digit) => digit,
        Err(error) => return Err(error),
    };
    let c = match read_hex_digit(cursor) {
        Ok(digit) => digit,
        Err(error) => return Err(error),
    };
    let d = match read_hex_digit(cursor) {
        Ok(digit) => digit,
        Err(error) => return Err(error),
    };
    Ok(((a * 16 + b) * 16 + c) * 16 + d)
}

/// The character that a one-letter escape stands for.
fn simple_escape_of(c: char) -> (escaped: Option<char>)
    ensures
        escaped == simple_escape(c),
{
    if c == '"' {
        Some('"')
    } else if c == '\\' {
        Some('\\')
    } else if c == '/' {
        Some('/')
    } else if c == 'b' {
        Some('\u{8}')
    } else if c == 'f' {
        Some('\u{c}')
    } else if c == 'n' {
        Some('\n')
    } else if c == 'r' {
        Some('\r')
    } else if c == 't' {
        Some('\t')
    } else {
        None
    }
}

/// Reads the second half of a surrogate pair.
fn parse_low_surrogate(cursor: &mut Cursor, high: u32) -> (result: Result<char, ParseError>)
    requires
        is_high_surrogate(high as int),
    ensures
        final(cursor).text() == old(cursor).text(),
        yields_plain(
            result,
            final(cursor).position(),
            low_surrogate_at(old(cursor).text(), old(cursor).position(), high as int),
        ),
{
    match cursor.peek() {
        None => {
            return fail_at(cursor, ParseErrorKind::UnterminatedString);
        },
        Some(c) => {
            if c != '\\' {
                return fail_at(cursor, ParseErrorKind::InvalidEscape);
            }
        },
    }
    cursor.next();
    match cursor.peek() {
        None => {
            return fail_at(cursor, ParseErrorKind::UnterminatedString);
        },
        Some(c) => {
            if c != 'u' {
                return fail_at(cursor, ParseErrorKind::InvalidEscape);
            }
        },
    }
    cursor.next();
    let low = match read_code_unit(cursor) {
        Ok(unit) => unit,
        Err(error) => return Err(error),
    };
    if 0xDC00 <= low && low <= 0xDFFF {
        let code: u32 = 0x10000 + (high - 0xD800) * 0x400 + (low - 0xDC00);
        match char::from_u32(code) {
            Some(c) => Ok(c),
            None => fail_at(cursor, ParseErrorKind::InvalidEscape),
        }
    } else {
        fail_at(cursor, ParseErrorKind::InvalidEscape)
    }
}

/// Reads what follows `\u`.
fn parse_unicode_escape(cursor: &mut Cursor) -> (result: Result<char, ParseError>)
    ensures
        final(cursor).text() == old(cursor).text(),
        yields_plain(
            result,
            final(cursor).position(),
            unicode_escape_at(old(cursor).text(), old(cursor).position()),
        ),
{
    let unit = match read_code_unit(cursor) {
        Ok(unit) => unit,
        Err(error) => return Err(error),
    };
    if 0xD800 <= unit && unit <= 0xDBFF {
        parse_low_surrogate(cursor, unit)
    } else if 0xDC00 <= unit && unit <= 0xDFFF {
        fail_at(cursor, ParseErrorKind::InvalidEscape)
    } else {
        match char::from_u32(unit) {
            Some(c) => Ok(c),
            None => fail_at(cursor, ParseErrorKind::InvalidEscape),
        }
    }
}

/// Reads what follows a backslash inside a string.
fn parse_escape(cursor: &mut Cursor) -> (result: Result<char, ParseError>)
    ensures
        final(cursor).text() == old(cursor).text(),
        yields_plain(
            result,
            final(cursor).position(),
            escape_at(old(cursor).text(), old(cursor).position()),
        ),
{
    match cursor.peek() {
        None => fail_at(cursor, ParseErrorKind::UnterminatedString),
        Some(c) => {
            if c == 'u' {
                cursor.next();
                parse_unicode_escape(cursor)
            } else {
                match simple_escape_of(c) {
                    Some(escaped) => {
                        cursor.next();
                        Ok(escaped)
                    },
                    None => fail_at(cursor, ParseErrorKind::InvalidEscape),
                }
            }
        },
    }
}

/// Reads a string, from its opening quote to its closing quote, and
/// returns its characters with every escape resolved.
pub fn parse_string_literal(cursor: &mut Cursor) -> (result: Result<String, ParseError>)
    ensures
        final(cursor).text() == old(cursor).text(),
        yields(
            result,
            final(cursor).position(),
            string_at(old(cursor).text(), old(cursor).position()),
        ),
{
    let ghost text = cursor.text();
    let ghost start = cursor.position();
    match cursor.next() {
        None => {
            return fail_at(cursor, ParseErrorKind::UnterminatedString);
        },
        Some(_) => {},
    }
    let mut read = String::new();
    loop
        invariant
            cursor.text() == text,
            text == old(cursor).text(),
            start == old(cursor).position(),
            0 <= cursor.position() <= text.len(),
            string_at(text, start) == string_body_at(text, cursor.position(), read@),
        decreases text.len() - cursor.position(),
    {
        let ghost here = cursor.position();
        let ghost before = read@;
        match cursor.next() {
            None => {
                return fail_at(cursor, ParseErrorKind::UnterminatedString);
            },
            Some(c) => {
                if c == '"' {
                    return Ok(read);
                } else if c == '\\' {
                    proof {
                        lemma_escape_at(text, here + 1);
                    }
                    match parse_escape(cursor) {
                        Ok(escaped) => {
                            read.push(escaped);
                            assert(string_body_at(text, here, before) == string_body_at(
                                text,
                                cursor.position(),
                                before.push(escaped),
                            ));
                        },
                        Err(error) => {
                            assert(string_body_at(text, here, before) == Err::<
                                (Seq<char>, int),
                                Rejection,
                            >(error@));
                            return Err(error);
                        },
                    }
                } else {
                    read.push(c);
                    assert(string_body_at(text, here, before) == string_body_at(
                        text,
                        here + 1,
                        before.push(c),
                    ));
                }
            },
        }
    }
}

/// Reads a string as a value.
pub fn parse_string(cursor: &mut Cursor) -> (result: Result<JsonValue, ParseError>)
    ensures
        final(cursor).text() == old(cursor).text(),
        yields(
            result,
            final(cursor).position(),
            string_value_at(old(cursor).text(), old(cursor).position()),
        ),
{
    match parse_string_literal(cursor) {
        Ok(s) => Ok(JsonValue::String(s)),
        Err(error) => Err(error),
    }
}

/// Reads the value that starts at the next character that is no
/// whitespace.
pub fn parse_value(cursor: &mut Cursor) -> (result: Result<JsonValue, ParseError>)
    ensures
        final(cursor).text() == old(cursor).text(),
        yields(
            result,
            final(cursor).position(),
            value_at(old(cursor).text(), old(cursor).position()),
        ),
    decreases old(cursor).text().len() - old(cursor).position(), 1nat,
{
    cursor.skip_run(CharClass::Whitespace);
    match cursor.peek() {
        None => fail_at(cursor, ParseErrorKind::UnexpectedEndOfInput),
        Some(c) => match classify(c) {
            Lead::Null => parse_null(cursor),
            Lead::Boolean => parse_boolean(cursor),
            Lead::String => parse_string(cursor),
            Lead::Number => parse_number(cursor),
            Lead::Array => parse_array(cursor),
            Lead::Object => parse_object(cursor),
            Lead::Other => fail_at(cursor, ParseErrorKind::UnexpectedCharacter),
        },
    }
}

/// Reads an array, from its opening bracket to its closing bracket.
pub fn parse_array(cursor: &mut Cursor) -> (result: Result<JsonValue, ParseError>)
    ensures
        final(cursor).text() == old(cursor).text(),
        yields(
            result,
            final(cursor).position(),
            array_at(old(cursor).text(), old(cursor).position()),
        ),
    decreases old(cursor).text().len() - old(cursor).position(), 0nat,
{
    let ghost text = cursor.text();
    let ghost start = cursor.position();
    match cursor.next() {
        None => {
            return fail_at(cursor, ParseErrorKind::UnterminatedArray);
        },
        Some(_) => {},
    }
    let mut items: Vec<JsonValue> = Vec::new();
    let mut may_close = true;
    let mut after_item = false;
    assert(items_model(items@) =~= Seq::<Json>::empty());
    loop
        invariant
            cursor.text() == text,
            text == old(cursor).text(),
            start == old(cursor).position(),
            0 <= start < cursor.position() <= text.len(),
            array_at(text, start) == (if after_item {
                array_rest_at(text, cursor.position(), items_model(items@))
            } else {
                array_item_at(text, cursor.position(), items_model(items@), may_close)
            }),
        decreases text.len() - cursor.position(),
    {
        let ghost before = items_model(items@);
        cursor.skip_run(CharClass::Whitespace);
        let ghost at = cursor.position();
        match cursor.peek() {
            None => {
                return fail_at(cursor, ParseErrorKind::UnterminatedArray);
            },
            Some(c) => {
                if after_item {
                    if c == ']' {
                        cursor.next();
                        proof {
                            lemma_array_model(items);
                        }
                        return Ok(JsonValue::Array(items));
                    } else if c == ',' {
                        cursor.next();
                        after_item = false;
                        may_close = false;
                    } else {
                        return fail_at(cursor, ParseErrorKind::UnexpectedToken);
                    }
                } else {
                    if c == ']' && may_close {
                        cursor.next();
                        proof {
                            lemma_array_model(items);
                        }
                        return Ok(JsonValue::Array(items));
                    } else if c == ']' || c == ',' {
                        return fail_at(cursor, ParseErrorKind::UnexpectedToken);
                    } else {
                        proof {
                            lemma_value_at(text, at);
                        }
                        match parse_value(cursor) {
                            Ok(item) => {
                                items.push(item);
                                after_item = true;
                                assert(items_model(items@) =~= before.push(item@));
                            },
                            Err(error) => {
                                return Err(error);
                            },
                        }
                    }
                }
            },
        }
    }
}

/// Reads an object, from its opening brace to its closing brace.
pub fn parse_object(cursor: &mut Cursor) -> (result: Result<JsonValue, ParseError>)
    ensures
        final(cursor).text() == old(cursor).text(),
        yields(
            result,
            final(cursor).position(),
            object_at(old(cursor).text(), old(cursor).position()),
        ),
    decreases old(cursor).text().len() - old(cursor).position(), 0nat,
{
    let ghost text = cursor.text();
    let ghost start = cursor.position();
    match cursor.peek() {
        None => {
            return fail_at(cursor, ParseErrorKind::UnterminatedObject);
        },
        Some(c) => {
            if c != '{' {
                return fail_at(cursor, ParseErrorKind::InvalidObjectSyntax);
            }
        },
    }
    cursor.next();
    let mut members: Vec<(String, JsonValue)> = Vec::new();
    let mut may_close = true;
    let mut after_member = false;
    assert(members_model(members@) =~= Seq::<(Seq<char>, Json)>::empty());
    loop
        invariant
            cursor.text() == text,
            text == old(cursor).text(),
            start == old(cursor).position(),
            0 <= start < cursor.position() <= text.len(),
            object_at(text, start) == (if after_member {
                object_rest_at(text, cursor.position(), members_model(members@))
            } else {
                object_member_at(text, cursor.position(), members_model(members@), may_close)
            }),
        decreases text.len() - cursor.position(),
    {
        let ghost before = members_model(members@);
        cursor.skip_run(CharClass::Whitespace);
        let ghost at = cursor.position();
        match cursor.peek() {
            None => {
                return fail_at(cursor, ParseErrorKind::UnterminatedObject);
            },
            Some(c) => {
                if after_member {
                    if c == '}' {
                        cursor.next();
                        proof {
                            lemma_object_model(members);
                        }
                        return Ok(JsonValue::Object(members));
                    } else if c == ',' {
                        cursor.next();
                        after_member = false;
                        may_close = false;
                    } else {
                        return fail_at(cursor, ParseErrorKind::InvalidObjectSyntax);
                    }
                } else {
                    if c == '}' && may_close {
                        cursor.next();
                        proof {
                            lemma_object_model(members);
                        }
                        return Ok(JsonValue::Object(members));
                    } else if c != '"' {
                        return fail_at(cursor, ParseErrorKind::InvalidObjectSyntax);
                    } else {
                        proof {
                            lemma_string_at(text, at);
                        }
                        let key = match parse_string_literal(cursor) {
                            Ok(key) => key,
                            Err(error) => {
                                return Err(error);
                            },
                        };
                        let ghost after_key = cursor.position();
                        cursor.skip_run(CharClass::Whitespace);
                        let ghost colon = cursor.position();
                        if !is_char(cursor.peek(), ':') {
                            return fail_at(cursor, ParseErrorKind::ExpectedColon);
                        }
                        cursor.next();
                        proof {
                            lemma_value_at(text, colon + 1);
                        }
                        match parse_value(cursor) {
                            Ok(value) => {
                                insert_member(&mut members, key, value);
                                after_member = true;
                            },
                            Err(error) => {
                                return Err(error);
                            },
                        }
                    }
                }
            },
        }
    }
}

/// Reads `text` as one JSON document: a value with nothing but whitespace
/// around it.
pub fn parse(text: &str) -> (result: Result<JsonValue, ParseError>)
    ensures
        match document(text@) {
            Ok(value) => result matches Ok(got) && got@ == value,
            Err(rejection) => result matches Err(error) && error@ == rejection,
        },
        result matches Ok(got) ==> got@.well_formed(),
{
    let mut cursor = Cursor::new(text);
    proof {
        lemma_value_at(text@, 0);
    }
    let value = match parse_value(&mut cursor) {
        Ok(value) => value,
        Err(error) => {
            return Err(error);
        },
    };
    cursor.skip_run(CharClass::Whitespace);
    match cursor.peek() {
        None => Ok(value),
        Some(_) => fail_at(&cursor, ParseErrorKind::UnexpectedCharacter),
    }
}

} // verus!
