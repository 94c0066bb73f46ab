//! The printer: the text that a value is written as.

use vstd::prelude::*;
use crate::grammar::{false_word, null_word, true_word};
use crate::value::{items_model, lemma_array_model, lemma_object_model, members_model, Json, JsonValue};

verus! {

/// The hexadecimal digit, in lower case, for a number below sixteen.
pub open spec fn hex_char(nibble: int) -> char {
    if nibble < 10 {
        ('0' as int + nibble) as char
    } else {
        ('a' as int + nibble - 10) as char
    }
}

/// How one character of a string is written: a quote, a backslash and the
/// control characters are escaped, every other character stands for itself.
pub open spec fn escaped(c: char) -> Seq<char> {
    if c == '"' {
        seq!['\\', '"']
    } else if c == '\\' {
        seq!['\\', '\\']
    } else if c == '\u{8}' {
        seq!['\\', 'b']
    } else if c == '\u{c}' {
        seq!['\\', 'f']
    } else if c == '\n' {
        seq!['\\', 'n']
    } else if c == '\r' {
        seq!['\\', 'r']
    } else if c == '\t' {
        seq!['\\', 't']
    } else if (c as int) < 0x20 {
        seq!['\\', 'u', '0', '0', hex_char(c as int / 16), hex_char(c as int % 16)]
    } else {
        seq![c]
    }
}

/// How the characters of `s` from `from` on are written.
pub open spec fn escaped_from(s: Seq<char>, from: int) -> Seq<char>
    decreases s.len() - from,
{
    if 0 <= from < s.len() {
        escaped(s[from]) + escaped_from(s, from + 1)
    } else {
        Seq::empty()
    }
}

/// How a string is written: between quotes, each character as
/// [`escaped`] says.
pub open spec fn quoted(s: Seq<char>) -> Seq<char> {
    seq!['"'] + escaped_from(s, 0) + seq!['"']
}

/// What stands before the item or member at `index`: nothing before the
/// first, a comma and a space before every other.
pub open spec fn separator(index: int) -> Seq<char> {
    if index == 0 {
        Seq::empty()
    } else {
        seq![',', ' ']
    }
}

/// The text that `value` is written as.
pub open spec fn printed(value: Json) -> Seq<char>
    decreases value, 0nat,
{
    match value {
        Json::Null => null_word(),
        Json::Boolean(b) => if b {
            true_word()
        } else {
            false_word()
        },
        Json::Number(literal) => literal,
        Json::String(s) => quoted(s),
        Json::Array(items) => seq!['['] + printed_items(items, 0) + seq![']'],
        Json::Object(members) => seq!['{'] + printed_members(members, 0) + seq!['}'],
    }
}

/// How the items of an array from `from` on are written.
pub open spec fn printed_items(items: Seq<Json>, from: int) -> Seq<char>
    decreases items, items.len() - from,
{
    if 0 <= from < items.len() {
        separator(from) + printed(items[from]) + printed_items(items, from + 1)
    } else {
        Seq::empty()
    }
}

/// How the members of an object from `from` on are written.
pub open spec fn printed_members(members: Seq<(Seq<char>, Json)>, from: int) -> Seq<char>
    decreases members, members.len() - from,
{
    if 0 <= from < members.len() {
        separator(from) + quoted(members[from].0) + seq![':', ' '] + printed(members[from].1)
            + printed_members(members, from + 1)
    } else {
        Seq::empty()
    }
}

/// The hexadecimal digit, in lower case, for a number below sixteen.
fn hex_digit(nibble: u32) -> (c: char)
    requires
        nibble < 16,
    ensures
        c == hex_char(nibble as int),
{
    if nibble == 0 {
        '0'
    } else if nibble == 1 {
        '1'
    } else if nibble == 2 {
        '2'
    } else if nibble == 3 {
        '3'
    } else if nibble == 4 {
        '4'
    } else if nibble == 5 {
        '5'
    } else if nibble == 6 {
        '6'
    } else if nibble == 7 {
        '7'
    } else if nibble == 8 {
        '8'
    } else if nibble == 9 {
        '9'
    } else if nibble == 10 {
        'a'
    } else if nibble == 11 {
        'b'
    } else if nibble == 12 {
        'c'
    } else if nibble == 13 {
        'd'
    } else if nibble == 14 {
        'e'
    } else {
        'f'
    }
}

/// Appends `c` to `out` as [`escaped`] writes it.
fn write_escaped(c: char, out: &mut String)
    ensures
        final(out)@ == old(out)@ + escaped(c),
{
    let ghost base = out@;
    if c == '"' {
        out.push('\\');
        out.push('"');
    } else if c == '\\' {
        out.push('\\');
        out.push('\\');
    } else if c == '\u{8}' {
        out.push('\\');
        out.push('b');
    } else if c == '\u{c}' {
        out.push('\\');
        out.push('f');
    } else if c == '\n' {
        out.push('\\');
        out.push('n');
    } else if c == '\r' {
        out.push('\\');
        out.push('r');
    } else if c == '\t' {
        out.push('\\');
        out.push('t');
    } else if (c as u32) < 0x20 {
        out.push('\\');
        out.push('u');
        out.push('0');
        out.push('0');
        out.push(hex_digit(c as u32 / 16));
        out.push(hex_digit(c as u32 % 16));
    } else {
        out.push(c);
    }
    assert(out@ =~= base + escaped(c));
}

/// Appends `s` to `out` as [`quoted`] writes it.
fn write_quoted(s: &str, out: &mut String)
    ensures
        final(out)@ == old(out)@ + quoted(s@),
{
    let ghost base = out@;
    out.push('"');
    for c in it: s.chars()
        invariant
            it.seq() == s@,
            out@ + escaped_from(s@, it.index()) == base + seq!['"'] + escaped_from(s@, 0),
    {
        let ghost before = out@;
        write_escaped(c, out);
        assert(out@ + escaped_from(s@, it.index() + 1) =~= before + escaped_from(
            s@,
            it.index(),
        ));
    }
    out.push('"');
    assert(out@ =~= base + quoted(s@));
}

/// Appends `word` to `out`.
fn write_word(word: &str, out: &mut String)
    ensures
        final(out)@ == old(out)@ + word@,
{
    let ghost base = out@;
    for c in it: word.chars()
        invariant
            it.seq() == word@,
            out@ == base + word@.take(it.index()),
    {
        out.push(c);
        assert(out@ =~= base + word@.take(it.index() + 1));
    }
    assert(word@.take(word@.len() as int) =~= word@);
}

/// Appends the text of `value` to `out`.
pub fn write_value(value: &JsonValue, out: &mut String)
    ensures
        final(out)@ == old(out)@ + printed(value@),
    decreases value,
{
    let ghost base = out@;
    match value {
        JsonValue::Null => {
            out.push('n');
            out.push('u');
            out.push('l');
            out.push('l');
            assert(out@ =~= base + null_word());
        },
        JsonValue::Boolean(b) => {
            if *b {
                out.push('t');
                out.push('r');
                out.push('u');
                out.push('e');
                assert(out@ =~= base + true_word());
            } else {
                out.push('f');
                out.push('a');
                out.push('l');
                out.push('s');
                out.push('e');
                assert(out@ =~= base + false_word());
            }
        },
        JsonValue::Number(literal) => {
            write_word(literal.as_str(), out);
        },
        JsonValue::String(s) => {
            write_quoted(s.as_str(), out);
        },
        JsonValue::Array(items) => {
            let ghost model = items_model(items@);
            proof {
                lemma_array_model(*items);
            }
            out.push('[');
            let mut i: usize = 0;
            while i < items.len()
                invariant
                    i <= items@.len(),
                    *value == JsonValue::Array(*items),
                    model == items_model(items@),
                    out@ + printed_items(model, i as int) == base + seq!['['] + printed_items(
                        model,
                        0,
                    ),
                decreases items@.len() - i,
            {
                let ghost before = out@;
                if i > 0 {
                    out.push(',');
                    out.push(' ');
                }
                proof {
                    assert(value is Array);
                    assert(value->Array_0 == *items);
                    assert(decreases_to!(*value => value->Array_0));
                }
                write_value(&items[i], out);
                i = i + 1;
                assert(out@ + printed_items(model, i as int) =~= before + printed_items(
                    model,
                    i - 1,
                ));
            }
            out.push(']');
            assert(out@ =~= base + printed(value@));
        },
        JsonValue::Object(members) => {
            let ghost model = members_model(members@);
            proof {
                lemma_object_model(*members);
            }
            out.push('{');
            let mut i: usize = 0;
            while i < members.len()
                invariant
                    i <= members@.len(),
                    *value == JsonValue::Object(*members),
                    model == members_model(members@),
                    out@ + printed_members(model, i as int) == base + seq!['{']
                        + printed_members(model, 0),
                decreases members@.len() - i,
            {
                let ghost before = out@;
                if i > 0 {
                    out.push(',');
                    out.push(' ');
                }
                write_quoted(members[i].0.as_str(), out);
                out.push(':');
                out.push(' ');
                proof {
                    assert(value is Object);
                    assert(value->Object_0 == *members);
                    assert(decreases_to!(*value => value->Object_0));
                    assert(decreases_to!(*members => members@[i as int]));
                    assert(decreases_to!(members@[i as int] => members@[i as int].1));
                }
                write_value(&members[i].1, out);
                i = i + 1;
                assert(out@ + printed_members(model, i as int) =~= before + printed_members(
                    model,
                    i - 1,
                ));
            }
            out.push('}');
            assert(out@ =~= base + printed(value@));
        },
    }
}

/// The text of `value`.
pub fn print(value: &JsonValue) -> (text: String)
    ensures
        text@ == printed(value@),
{
    let mut out = String::new();
    write_value(value, &mut out);
    assert(out@ =~= printed(value@));
    out
}

} // verus!
