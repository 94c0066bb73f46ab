use json_parser::{parse, print, JsonValue};

fn number(literal: &str) -> JsonValue {
    JsonValue::Number(literal.to_string())
}

fn string(s: &str) -> JsonValue {
    JsonValue::String(s.to_string())
}

fn sample() -> JsonValue {
    JsonValue::Object(vec![
        ("name".to_string(), string("Alice")),
        ("age".to_string(), number("30")),
        ("isStudent".to_string(), JsonValue::Boolean(false)),
        ("hobbies".to_string(), JsonValue::Array(vec![string("reading"), string("swimming")])),
        (
            "address".to_string(),
            JsonValue::Object(vec![("city".to_string(), string("Wonderland"))]),
        ),
        ("nothing".to_string(), JsonValue::Null),
        ("empty".to_string(), JsonValue::Array(vec![])),
        ("bare".to_string(), JsonValue::Object(vec![])),
        ("odd \"key\"\n".to_string(), string("tab\there, slash /, back\\slash, bell \u{7}")),
    ])
}

#[test]
fn prints_the_leaves() {
    assert_eq!(print(&JsonValue::Null), "null");
    assert_eq!(print(&JsonValue::Boolean(true)), "true");
    assert_eq!(print(&JsonValue::Boolean(false)), "false");
    assert_eq!(print(&number("-1.5e3")), "-1.5e3");
    assert_eq!(print(&string("hi")), "\"hi\"");
    assert_eq!(print(&string("")), "\"\"");
}

#[test]
fn prints_arrays_with_comma_and_space() {
    assert_eq!(print(&JsonValue::Array(vec![])), "[]");
    assert_eq!(print(&JsonValue::Array(vec![number("1")])), "[1]");
    assert_eq!(
        print(&JsonValue::Array(vec![number("1"), string("a"), JsonValue::Null])),
        "[1, \"a\", null]"
    );
    assert_eq!(
        print(&JsonValue::Array(vec![JsonValue::Array(vec![]), JsonValue::Array(vec![number("2")])])),
        "[[], [2]]"
    );
}

#[test]
fn prints_objects_in_the_order_of_their_members() {
    assert_eq!(print(&JsonValue::Object(vec![])), "{}");
    assert_eq!(
        print(&JsonValue::Object(vec![
            ("k1".to_string(), number("1")),
            ("k2".to_string(), JsonValue::Array(vec![JsonValue::Boolean(true), JsonValue::Null])),
        ])),
        "{\"k1\": 1, \"k2\": [true, null]}"
    );
}

#[test]
fn escapes_quote_backslash_and_control_characters() {
    assert_eq!(print(&string("a\"b")), r#""a\"b""#);
    assert_eq!(print(&string("a\\b")), r#""a\\b""#);
    assert_eq!(print(&string("\u{8}\u{c}\n\r\t")), r#""\b\f\n\r\t""#);
    assert_eq!(print(&string("\u{0}\u{1}\u{b}\u{1f}")), r#""\u0000\u0001\u000b\u001f""#);
    assert_eq!(print(&string("/ \u{7f} \u{e9} \u{1F600}")), "\"/ \u{7f} \u{e9} \u{1F600}\"");
}

#[test]
fn escapes_keys_as_it_escapes_strings() {
    assert_eq!(
        print(&JsonValue::Object(vec![("a\"\n".to_string(), JsonValue::Null)])),
        r#"{"a\"\n": null}"#
    );
}

#[test]
fn printing_twice_gives_the_same_text() {
    let value = sample();
    assert_eq!(print(&value), print(&value));
}

#[test]
fn printed_text_parses_back_to_the_value() {
    let value = sample();
    assert_eq!(parse(&print(&value)), Ok(value));
}

#[test]
fn every_control_character_survives_the_round_trip() {
    let mut all = String::new();
    for code in 0u32..0x80 {
        all.push(char::from_u32(code).unwrap());
    }
    let value = string(&all);
    assert_eq!(parse(&print(&value)), Ok(value));
}

#[test]
fn parsed_value_survives_the_round_trip() {
    let texts = [
        "null",
        " [ ] ",
        "[1,2,[3,[4,{}]],{\"a\":[]}]",
        "{\"a\":1,\"a\":2,\"b\":{\"a\":-0.5e-3}}",
        r#""\uD83D\uDE00 \u0041\u0007\/\\""#,
        r#"{"name":"Alice","age":30,"isStudent":false,"hobbies":["reading","swimming"],"address":{"city":"Wonderland"}}"#,
    ];
    for text in texts {
        let value = parse(text).unwrap();
        let printed = print(&value);
        assert_eq!(parse(&printed), Ok(value), "{:?}", text);
        assert_eq!(print(&parse(&printed).unwrap()), printed, "{:?}", text);
    }
}

#[test]
fn prints_the_end_to_end_example() {
    let text = r#"{"name":"Alice","age":30,"isStudent":false,"hobbies":["reading","swimming"],"address":{"city":"Wonderland"}}"#;
    assert_eq!(
        print(&parse(text).unwrap()),
        r#"{"name": "Alice", "age": 30, "isStudent": false, "hobbies": ["reading", "swimming"], "address": {"city": "Wonderland"}}"#
    );
}
