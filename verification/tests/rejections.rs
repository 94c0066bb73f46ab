use json_parser::{parse, ParseError, ParseErrorKind};

fn rejected(text: &str) -> ParseError {
    match parse(text) {
        Ok(value) => panic!("{:?} was parsed as {:?}", text, value),
        Err(error) => error,
    }
}

fn check(text: &str, kind: ParseErrorKind, offset: usize) {
    assert_eq!(rejected(text), ParseError { kind, offset }, "{:?}", text);
}

#[test]
fn rejects_empty_input() {
    check("", ParseErrorKind::UnexpectedEndOfInput, 0);
    check(" \n\t ", ParseErrorKind::UnexpectedEndOfInput, 4);
}

#[test]
fn rejects_a_character_that_starts_no_value() {
    check("?", ParseErrorKind::UnexpectedCharacter, 0);
    check("  ]", ParseErrorKind::UnexpectedCharacter, 2);
    check("+1", ParseErrorKind::UnexpectedCharacter, 0);
    check(".5", ParseErrorKind::UnexpectedCharacter, 0);
    check("'a'", ParseErrorKind::UnexpectedCharacter, 0);
}

#[test]
fn rejects_text_after_the_document() {
    check("1 2", ParseErrorKind::UnexpectedCharacter, 2);
    check("nullx", ParseErrorKind::UnexpectedCharacter, 4);
    check("[] ,", ParseErrorKind::UnexpectedCharacter, 3);
    check("{}{}", ParseErrorKind::UnexpectedCharacter, 2);
    check("\"a\"\"b\"", ParseErrorKind::UnexpectedCharacter, 3);
}

#[test]
fn rejects_broken_literals() {
    check("tru", ParseErrorKind::InvalidLiteral, 3);
    check("truex", ParseErrorKind::InvalidLiteral, 5);
    check("fals", ParseErrorKind::InvalidLiteral, 4);
    check("falsetto", ParseErrorKind::InvalidLiteral, 8);
    check("True", ParseErrorKind::UnexpectedCharacter, 0);
    check("t", ParseErrorKind::InvalidLiteral, 1);
    check("nul", ParseErrorKind::InvalidLiteral, 3);
    check("nulx", ParseErrorKind::InvalidLiteral, 4);
    check("nil", ParseErrorKind::InvalidLiteral, 3);
    check("n", ParseErrorKind::InvalidLiteral, 1);
}

#[test]
fn rejects_broken_numbers() {
    check("01", ParseErrorKind::InvalidNumber, 2);
    check("1.", ParseErrorKind::InvalidNumber, 2);
    check("-", ParseErrorKind::InvalidNumber, 1);
    check("--1", ParseErrorKind::InvalidNumber, 3);
    check("1-2", ParseErrorKind::InvalidNumber, 3);
    check("1e", ParseErrorKind::InvalidNumber, 2);
    check("1e+", ParseErrorKind::InvalidNumber, 3);
    check("1.e5", ParseErrorKind::InvalidNumber, 4);
    check("1.5.2", ParseErrorKind::InvalidNumber, 5);
    check("-.5", ParseErrorKind::InvalidNumber, 3);
    check("1e5e5", ParseErrorKind::InvalidNumber, 5);
    check("1+", ParseErrorKind::InvalidNumber, 2);
    check("-01", ParseErrorKind::InvalidNumber, 3);
    check("00", ParseErrorKind::InvalidNumber, 2);
    check("[1.]", ParseErrorKind::InvalidNumber, 3);
}

#[test]
fn rejects_unterminated_strings() {
    check("\"abc", ParseErrorKind::UnterminatedString, 4);
    check("\"", ParseErrorKind::UnterminatedString, 1);
    check("\"abc\\", ParseErrorKind::UnterminatedString, 5);
    check("\"abc\\\"", ParseErrorKind::UnterminatedString, 6);
    check("\"\\u12", ParseErrorKind::UnterminatedString, 5);
    check("\"\\uD83D", ParseErrorKind::UnterminatedString, 7);
    check("\"\\uD83D\\", ParseErrorKind::UnterminatedString, 8);
    check("\"\\uD83D\\uDE", ParseErrorKind::UnterminatedString, 11);
}

#[test]
fn rejects_broken_escapes() {
    check("\"\\x\"", ParseErrorKind::InvalidEscape, 2);
    check("\"\\a\"", ParseErrorKind::InvalidEscape, 2);
    check("\"ab\\ \"", ParseErrorKind::InvalidEscape, 4);
    check("\"\\u12G4\"", ParseErrorKind::InvalidEscape, 5);
    check("\"\\u12\"", ParseErrorKind::InvalidEscape, 5);
    check("\"\\U0041\"", ParseErrorKind::InvalidEscape, 2);
}

#[test]
fn rejects_surrogates_that_stand_alone() {
    check("\"\\uD83D\"", ParseErrorKind::InvalidEscape, 7);
    check("\"\\uD83Dx\"", ParseErrorKind::InvalidEscape, 7);
    check("\"\\uD83D\\n\"", ParseErrorKind::InvalidEscape, 8);
    check("\"\\uD83D\\u0041\"", ParseErrorKind::InvalidEscape, 13);
    check("\"\\uD83D\\uD83D\"", ParseErrorKind::InvalidEscape, 13);
    check("\"\\uDE00\"", ParseErrorKind::InvalidEscape, 7);
    check("\"\\uDFFF\\uD800\"", ParseErrorKind::InvalidEscape, 7);
}

#[test]
fn rejects_stray_and_missing_commas_in_arrays() {
    check("[1,]", ParseErrorKind::UnexpectedToken, 3);
    check("[,1]", ParseErrorKind::UnexpectedToken, 1);
    check("[,]", ParseErrorKind::UnexpectedToken, 1);
    check("[1,,2]", ParseErrorKind::UnexpectedToken, 3);
    check("[1 2]", ParseErrorKind::UnexpectedToken, 3);
    check("[1 , , 2]", ParseErrorKind::UnexpectedToken, 5);
    check("[\"a\" \"b\"]", ParseErrorKind::UnexpectedToken, 5);
    check("[1}", ParseErrorKind::UnexpectedToken, 2);
}

#[test]
fn rejects_unterminated_arrays() {
    check("[1,2", ParseErrorKind::UnterminatedArray, 4);
    check("[", ParseErrorKind::UnterminatedArray, 1);
    check("[1,", ParseErrorKind::UnterminatedArray, 3);
    check("[1, ", ParseErrorKind::UnterminatedArray, 4);
    check("[[]", ParseErrorKind::UnterminatedArray, 3);
}

#[test]
fn rejects_a_key_without_colon() {
    check("{\"a\" 1}", ParseErrorKind::ExpectedColon, 5);
    check("{\"a\"}", ParseErrorKind::ExpectedColon, 4);
    check("{\"a\"", ParseErrorKind::ExpectedColon, 4);
    check("{\"a\",\"b\":1}", ParseErrorKind::ExpectedColon, 4);
    check("{\"a\"=1}", ParseErrorKind::ExpectedColon, 4);
}

#[test]
fn rejects_broken_objects() {
    check("{\"a\":1,}", ParseErrorKind::InvalidObjectSyntax, 7);
    check("{,}", ParseErrorKind::InvalidObjectSyntax, 1);
    check("{,\"a\":1}", ParseErrorKind::InvalidObjectSyntax, 1);
    check("{\"a\":1,,\"b\":2}", ParseErrorKind::InvalidObjectSyntax, 7);
    check("{\"a\":1 \"b\":2}", ParseErrorKind::InvalidObjectSyntax, 7);
    check("{1:2}", ParseErrorKind::InvalidObjectSyntax, 1);
    check("{a:2}", ParseErrorKind::InvalidObjectSyntax, 1);
    check("{\"a\":1]", ParseErrorKind::InvalidObjectSyntax, 6);
}

#[test]
fn rejects_unterminated_objects() {
    check("{\"a\":1", ParseErrorKind::UnterminatedObject, 6);
    check("{", ParseErrorKind::UnterminatedObject, 1);
    check("{ ", ParseErrorKind::UnterminatedObject, 2);
    check("{\"a\":1,", ParseErrorKind::UnterminatedObject, 7);
    check("{\"a\":{}", ParseErrorKind::UnterminatedObject, 7);
}

#[test]
fn a_fault_inside_a_value_is_reported_as_it_is() {
    check("{\"a\":", ParseErrorKind::UnexpectedEndOfInput, 5);
    check("{\"a\":}", ParseErrorKind::UnexpectedCharacter, 5);
    check("{\"a\":tru}", ParseErrorKind::InvalidLiteral, 8);
    check("[\"abc", ParseErrorKind::UnterminatedString, 5);
    check("{\"abc", ParseErrorKind::UnterminatedString, 5);
    check("[[1,]]", ParseErrorKind::UnexpectedToken, 4);
    check("{\"a\":[1,2}", ParseErrorKind::UnexpectedToken, 9);
}

#[test]
fn the_listed_rejections_have_kinds_that_tell_them_apart() {
    let cases = [
        ("tru", ParseErrorKind::InvalidLiteral),
        ("[1,]", ParseErrorKind::UnexpectedToken),
        ("{\"a\" 1}", ParseErrorKind::ExpectedColon),
        ("{\"a\":1,}", ParseErrorKind::InvalidObjectSyntax),
        ("01", ParseErrorKind::InvalidNumber),
        ("1.", ParseErrorKind::InvalidNumber),
        ("-", ParseErrorKind::InvalidNumber),
        ("\"abc", ParseErrorKind::UnterminatedString),
        ("[1,2", ParseErrorKind::UnterminatedArray),
        ("{\"a\":1", ParseErrorKind::UnterminatedObject),
    ];
    for (text, kind) in cases {
        assert_eq!(rejected(text).kind, kind, "{:?}", text);
    }
}

#[test]
fn offsets_count_characters_not_bytes() {
    check("\"\u{e9}\u{4eac}\u{1F600}", ParseErrorKind::UnterminatedString, 4);
    check("[\"\u{1F600}\" 1]", ParseErrorKind::UnexpectedToken, 5);
}

#[test]
fn every_kind_has_its_message() {
    assert_eq!(ParseErrorKind::UnexpectedEndOfInput.message(), "Unexpected end of input");
    assert_eq!(ParseErrorKind::UnexpectedCharacter.message(), "Unexpected character");
    assert_eq!(ParseErrorKind::InvalidLiteral.message(), "Invalid literal");
    assert_eq!(ParseErrorKind::InvalidEscape.message(), "Invalid escape sequence in string");
    assert_eq!(ParseErrorKind::UnterminatedString.message(), "Unterminated string");
    assert_eq!(ParseErrorKind::InvalidNumber.message(), "Invalid number format");
    assert_eq!(ParseErrorKind::UnexpectedToken.message(), "Unexpected token in array");
    assert_eq!(ParseErrorKind::UnterminatedArray.message(), "Unterminated array");
    assert_eq!(ParseErrorKind::ExpectedColon.message(), "Expected ':' after key in object");
    assert_eq!(ParseErrorKind::InvalidObjectSyntax.message(), "Invalid character in object");
    assert_eq!(ParseErrorKind::UnterminatedObject.message(), "Unterminated object");
}
