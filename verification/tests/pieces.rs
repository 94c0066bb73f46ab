use json_parser::cursor::Cursor;
use json_parser::grammar::Lead;
use json_parser::parser::{
    classify, is_number, parse_array, parse_boolean, parse_null, parse_number, parse_object,
    parse_string, parse_string_literal, parse_value, string_of,
};
use json_parser::printer::write_value;
use json_parser::scan::{hex_digit_value, CharClass};
use json_parser::value::{find_member, insert_member};
use json_parser::{JsonValue, ParseError, ParseErrorKind};

fn number(literal: &str) -> JsonValue {
    JsonValue::Number(literal.to_string())
}

#[test]
fn cursor_peeks_without_reading() {
    let mut cursor = Cursor::new("ab");
    assert_eq!(cursor.offset(), 0);
    assert_eq!(cursor.peek(), Some('a'));
    assert_eq!(cursor.peek(), Some('a'));
    assert_eq!(cursor.offset(), 0);
    assert_eq!(cursor.next(), Some('a'));
    assert_eq!(cursor.offset(), 1);
    assert_eq!(cursor.peek(), Some('b'));
    assert_eq!(cursor.next(), Some('b'));
    assert_eq!(cursor.peek(), None);
    assert_eq!(cursor.next(), None);
    assert_eq!(cursor.next(), None);
    assert_eq!(cursor.offset(), 2);
}

#[test]
fn cursor_reads_characters_not_bytes() {
    let mut cursor = Cursor::new("\u{e9}\u{1F600}x");
    assert_eq!(cursor.next(), Some('\u{e9}'));
    assert_eq!(cursor.next(), Some('\u{1F600}'));
    assert_eq!(cursor.offset(), 2);
    assert_eq!(cursor.next(), Some('x'));
    assert_eq!(cursor.next(), None);
}

#[test]
fn cursor_takes_and_skips_runs() {
    let mut cursor = Cursor::new("  \t\n12ab-");
    cursor.skip_run(CharClass::Whitespace);
    assert_eq!(cursor.offset(), 4);
    cursor.skip_run(CharClass::Whitespace);
    assert_eq!(cursor.offset(), 4);
    assert_eq!(cursor.take_run(CharClass::Digit), vec!['1', '2']);
    assert_eq!(cursor.take_run(CharClass::Digit), Vec::<char>::new());
    assert_eq!(cursor.take_run(CharClass::Letter), vec!['a', 'b']);
    assert_eq!(cursor.take_run(CharClass::Number), vec!['-']);
    assert_eq!(cursor.peek(), None);
}

#[test]
fn classes_hold_their_characters() {
    for c in [' ', '\t', '\n', '\r'] {
        assert!(CharClass::Whitespace.holds(c));
    }
    for c in ['\u{b}', '\u{c}', '\u{a0}', 'a', '0'] {
        assert!(!CharClass::Whitespace.holds(c));
    }
    for c in ['a', 'z', 'A', 'Z', 'm'] {
        assert!(CharClass::Letter.holds(c));
    }
    for c in ['0', '_', '\u{e9}', '@', '[', '`', '{'] {
        assert!(!CharClass::Letter.holds(c));
    }
    for c in ['0', '5', '9'] {
        assert!(CharClass::Digit.holds(c));
    }
    for c in ['/', ':', 'a', '\u{661}'] {
        assert!(!CharClass::Digit.holds(c));
    }
    for c in ['0', '9', '-', '+', '.', 'e', 'E'] {
        assert!(CharClass::Number.holds(c));
    }
    for c in ['x', ',', ' ', 'f'] {
        assert!(!CharClass::Number.holds(c));
    }
}

#[test]
fn hex_digits_have_their_values() {
    assert_eq!(hex_digit_value('0'), Some(0));
    assert_eq!(hex_digit_value('9'), Some(9));
    assert_eq!(hex_digit_value('a'), Some(10));
    assert_eq!(hex_digit_value('f'), Some(15));
    assert_eq!(hex_digit_value('A'), Some(10));
    assert_eq!(hex_digit_value('F'), Some(15));
    assert_eq!(hex_digit_value('g'), None);
    assert_eq!(hex_digit_value('G'), None);
    assert_eq!(hex_digit_value(' '), None);
}

#[test]
fn first_character_decides_the_kind() {
    assert_eq!(classify('n'), Lead::Null);
    assert_eq!(classify('t'), Lead::Boolean);
    assert_eq!(classify('f'), Lead::Boolean);
    assert_eq!(classify('"'), Lead::String);
    assert_eq!(classify('-'), Lead::Number);
    assert_eq!(classify('0'), Lead::Number);
    assert_eq!(classify('9'), Lead::Number);
    assert_eq!(classify('['), Lead::Array);
    assert_eq!(classify('{'), Lead::Object);
    for c in ['+', '.', ' ', ']', '}', ',', ':', 'N', 'x'] {
        assert_eq!(classify(c), Lead::Other);
    }
}

#[test]
fn number_grammar() {
    let is = |s: &str| is_number(&s.chars().collect::<Vec<char>>());
    for good in ["0", "-0", "10", "0.0", "1.25", "1e9", "1E+9", "1e-9", "-12.5e+07"] {
        assert!(is(good), "{}", good);
    }
    for bad in ["", "-", "+1", "01", "1.", ".1", "1e", "1e+", "1.e1", "1..2", "1e1.5", "0x10",
        "1 ", "--1", "1-", "e5", "-e5"]
    {
        assert!(!is(bad), "{}", bad);
    }
}

#[test]
fn string_of_keeps_the_characters() {
    assert_eq!(string_of(&vec!['a', '\u{1F600}', 'b']), "a\u{1F600}b");
    assert_eq!(string_of(&vec![]), "");
}

#[test]
fn sub_parsers_stop_after_their_value() {
    let mut cursor = Cursor::new("nullx");
    assert_eq!(parse_null(&mut cursor), Ok(JsonValue::Null));
    assert_eq!(cursor.offset(), 4);

    let mut cursor = Cursor::new("true,");
    assert_eq!(parse_boolean(&mut cursor), Ok(JsonValue::Boolean(true)));
    assert_eq!(cursor.offset(), 4);

    let mut cursor = Cursor::new("12.5]");
    assert_eq!(parse_number(&mut cursor), Ok(number("12.5")));
    assert_eq!(cursor.offset(), 4);

    let mut cursor = Cursor::new("\"a\\nb\" :");
    assert_eq!(parse_string(&mut cursor), Ok(JsonValue::String("a\nb".to_string())));
    assert_eq!(cursor.offset(), 6);

    let mut cursor = Cursor::new("\"key\"rest");
    assert_eq!(parse_string_literal(&mut cursor), Ok("key".to_string()));
    assert_eq!(cursor.offset(), 5);

    let mut cursor = Cursor::new("[1, 2] tail");
    assert_eq!(parse_array(&mut cursor), Ok(JsonValue::Array(vec![number("1"), number("2")])));
    assert_eq!(cursor.offset(), 6);

    let mut cursor = Cursor::new("{\"a\": 1}}");
    assert_eq!(
        parse_object(&mut cursor),
        Ok(JsonValue::Object(vec![("a".to_string(), number("1"))]))
    );
    assert_eq!(cursor.offset(), 8);

    let mut cursor = Cursor::new("  7 8");
    assert_eq!(parse_value(&mut cursor), Ok(number("7")));
    assert_eq!(cursor.offset(), 3);
    assert_eq!(parse_value(&mut cursor), Ok(number("8")));
    assert_eq!(cursor.offset(), 5);
    assert_eq!(
        parse_value(&mut cursor),
        Err(ParseError { kind: ParseErrorKind::UnexpectedEndOfInput, offset: 5 })
    );
}

#[test]
fn sub_parsers_stop_where_they_fail() {
    let mut cursor = Cursor::new("nul");
    assert_eq!(
        parse_null(&mut cursor),
        Err(ParseError { kind: ParseErrorKind::InvalidLiteral, offset: 3 })
    );
    assert_eq!(cursor.offset(), 3);

    let mut cursor = Cursor::new("");
    assert_eq!(
        parse_boolean(&mut cursor),
        Err(ParseError { kind: ParseErrorKind::InvalidLiteral, offset: 0 })
    );

    let mut cursor = Cursor::new("x");
    assert_eq!(
        parse_number(&mut cursor),
        Err(ParseError { kind: ParseErrorKind::InvalidNumber, offset: 0 })
    );

    let mut cursor = Cursor::new("+1");
    assert_eq!(
        parse_number(&mut cursor),
        Err(ParseError { kind: ParseErrorKind::InvalidNumber, offset: 2 })
    );

    let mut cursor = Cursor::new("");
    assert_eq!(
        parse_string(&mut cursor),
        Err(ParseError { kind: ParseErrorKind::UnterminatedString, offset: 0 })
    );

    let mut cursor = Cursor::new("");
    assert_eq!(
        parse_array(&mut cursor),
        Err(ParseError { kind: ParseErrorKind::UnterminatedArray, offset: 0 })
    );

    let mut cursor = Cursor::new("");
    assert_eq!(
        parse_object(&mut cursor),
        Err(ParseError { kind: ParseErrorKind::UnterminatedObject, offset: 0 })
    );

    let mut cursor = Cursor::new("[1]");
    assert_eq!(
        parse_object(&mut cursor),
        Err(ParseError { kind: ParseErrorKind::InvalidObjectSyntax, offset: 0 })
    );
    assert_eq!(cursor.offset(), 0);
}

#[test]
fn insert_member_appends_or_replaces() {
    let mut members: Vec<(String, JsonValue)> = Vec::new();
    insert_member(&mut members, "a".to_string(), number("1"));
    insert_member(&mut members, "b".to_string(), number("2"));
    insert_member(&mut members, "a".to_string(), number("3"));
    insert_member(&mut members, "c".to_string(), JsonValue::Null);
    assert_eq!(
        members,
        vec![
            ("a".to_string(), number("3")),
            ("b".to_string(), number("2")),
            ("c".to_string(), JsonValue::Null),
        ]
    );
    assert_eq!(find_member(&members, &"a".to_string()), Some(0));
    assert_eq!(find_member(&members, &"c".to_string()), Some(2));
    assert_eq!(find_member(&members, &"d".to_string()), None);
    assert_eq!(find_member(&Vec::new(), &"a".to_string()), None);
}

#[test]
fn write_value_appends_to_what_is_there() {
    let mut out = String::from("x = ");
    write_value(&JsonValue::Array(vec![number("1"), JsonValue::Boolean(true)]), &mut out);
    assert_eq!(out, "x = [1, true]");
}
