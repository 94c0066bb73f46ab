//! What holds of everything that the grammar yields: a value ends after
//! the place where it starts and inside the text, and it is well formed.

use vstd::prelude::*;
use crate::grammar::{
    array_at, array_item_at, array_rest_at, boolean_at, code_unit_at, escape_at, false_word,
    null_at, null_word, number_at, object_at, object_member_at, object_rest_at, resume,
    string_at, string_body_at, true_word, value_at,
};
use crate::scan::{lemma_run_end_bounds, run_end, skip_whitespace, CharClass};
use crate::value::{
    is_json_number, key_index, key_index_from, lemma_array_well_formed,
    lemma_object_well_formed, with_member, Json,
};

verus! {

/// Whitespace is skipped forwards, and not beyond the end of the text.
pub proof fn lemma_skip_whitespace(text: Seq<char>, pos: int)
    requires
        0 <= pos <= text.len(),
    ensures
        pos <= skip_whitespace(text, pos) <= text.len(),
{
    lemma_run_end_bounds(text, pos, CharClass::Whitespace);
}

/// A JSON number has at least one character.
pub proof fn lemma_number_not_empty(s: Seq<char>)
    requires
        is_json_number(s),
    ensures
        s.len() > 0,
{
    let int_start = if s.len() > 0 && s[0] == '-' { 1int } else { 0int };
    lemma_run_end_bounds(s, int_start, CharClass::Digit);
}

/// Four hexadecimal digits end four characters on and denote a code unit.
pub proof fn lemma_code_unit_at(text: Seq<char>, pos: int)
    requires
        0 <= pos <= text.len(),
    ensures
        code_unit_at(text, pos) matches Ok((unit, next)) ==> next == pos + 4 && next <= text.len()
            && 0 <= unit <= 0xFFFF,
{
}

/// An escape ends after the place where it starts, inside the text.
pub proof fn lemma_escape_at(text: Seq<char>, pos: int)
    requires
        0 <= pos <= text.len(),
    ensures
        escape_at(text, pos) matches Ok((c, next)) ==> pos < next <= text.len(),
{
    if pos < text.len() && text[pos] == 'u' {
        lemma_code_unit_at(text, pos + 1);
        if code_unit_at(text, pos + 1) is Ok {
            let next = pos + 5;
            if next + 2 <= text.len() {
                lemma_code_unit_at(text, next + 2);
            }
        }
    }
}

/// A string ends after the place where it starts, inside the text.
pub proof fn lemma_string_body_at(text: Seq<char>, pos: int, read: Seq<char>)
    requires
        0 <= pos <= text.len(),
    ensures
        string_body_at(text, pos, read) matches Ok((s, next)) ==> pos < next <= text.len(),
    decreases text.len() - pos,
{
    if pos < text.len() {
        if text[pos] == '"' {
        } else if text[pos] == '\\' {
            lemma_escape_at(text, pos + 1);
            match escape_at(text, pos + 1) {
                Err(_) => {},
                Ok((c, next)) => {
                    lemma_string_body_at(text, resume(text, pos, next), read.push(c));
                },
            }
        } else {
            lemma_string_body_at(text, pos + 1, read.push(text[pos]));
        }
    }
}

/// A string ends after its opening quote, inside the text.
pub proof fn lemma_string_at(text: Seq<char>, pos: int)
    requires
        0 <= pos <= text.len(),
    ensures
        string_at(text, pos) matches Ok((s, next)) ==> pos + 1 < next <= text.len(),
{
    if pos < text.len() {
        lemma_string_body_at(text, pos + 1, Seq::empty());
    }
}

/// What a search for a key finds is the first member with that key.
pub proof fn lemma_key_index_from(members: Seq<(Seq<char>, Json)>, key: Seq<char>, from: int)
    requires
        0 <= from <= members.len(),
    ensures
        match key_index_from(members, key, from) {
            Some(i) => from <= i < members.len() && members[i].0 == key && forall|j: int|
                from <= j < i ==> (#[trigger] members[j]).0 != key,
            None => forall|j: int| from <= j < members.len() ==> (#[trigger] members[j]).0 != key,
        },
    decreases members.len() - from,
{
    if from < members.len() && members[from].0 != key {
        lemma_key_index_from(members, key, from + 1);
    }
}

/// Giving a key a value keeps an object well formed.
pub proof fn lemma_with_member(members: Seq<(Seq<char>, Json)>, key: Seq<char>, value: Json)
    requires
        Json::Object(members).well_formed(),
        value.well_formed(),
    ensures
        Json::Object(with_member(members, key, value)).well_formed(),
{
    lemma_key_index_from(members, key, 0);
    let after = with_member(members, key, value);
    lemma_object_well_formed(members);
    lemma_object_well_formed(after);
    assert forall|i: int, j: int| 0 <= i < j < after.len() implies (#[trigger] after[i]).0 != (
    #[trigger] after[j]).0 by {
        match key_index(members, key) {
            Some(k) => {
                assert(after[i].0 == members[i].0);
                assert(after[j].0 == members[j].0);
            },
            None => {
                if j < members.len() {
                    assert(after[i] == members[i]);
                    assert(after[j] == members[j]);
                } else {
                    assert(after[i] == members[i]);
                }
            },
        }
    }
    assert forall|i: int| 0 <= i < after.len() implies (#[trigger] after[i]).1.well_formed() by {
        match key_index(members, key) {
            Some(k) => {
                if i != k {
                    assert(after[i] == members[i]);
                }
            },
            None => {
                if i < members.len() {
                    assert(after[i] == members[i]);
                }
            },
        }
    }
}

/// `null` ends four characters on.
pub proof fn lemma_null_at(text: Seq<char>, pos: int)
    requires
        0 <= pos <= text.len(),
    ensures
        null_at(text, pos) matches Ok((v, next)) ==> next == pos + 4 && next <= text.len() && v
            == Json::Null,
{
    let end = if pos + 4 <= text.len() { pos + 4 } else { text.len() as int };
    if text.subrange(pos, end) == null_word() {
        assert(text.subrange(pos, end).len() == 4);
    }
}

/// A truth value ends after the place where it starts, inside the text.
pub proof fn lemma_boolean_at(text: Seq<char>, pos: int)
    requires
        0 <= pos <= text.len(),
    ensures
        boolean_at(text, pos) matches Ok((v, next)) ==> pos < next <= text.len() && v is Boolean,
{
    lemma_run_end_bounds(text, pos, CharClass::Letter);
    let end = run_end(text, pos, CharClass::Letter);
    let word = text.subrange(pos, end);
    if word == true_word() {
        assert(word.len() == 4);
    } else if word == false_word() {
        assert(word.len() == 5);
    }
}

/// A number ends after the place where it starts, inside the text, and
/// its literal is a JSON number.
pub proof fn lemma_number_at(text: Seq<char>, pos: int)
    requires
        0 <= pos <= text.len(),
    ensures
        number_at(text, pos) matches Ok((v, next)) ==> pos < next <= text.len()
            && v.well_formed(),
{
    lemma_run_end_bounds(text, pos, CharClass::Number);
    let end = run_end(text, pos, CharClass::Number);
    let literal = text.subrange(pos, end);
    if is_json_number(literal) {
        lemma_number_not_empty(literal);
    }
}

/// A value ends after the place where it starts, inside the text, and is
/// well formed.
pub proof fn lemma_value_at(text: Seq<char>, pos: int)
    requires
        0 <= pos <= text.len(),
    ensures
        value_at(text, pos) matches Ok((v, next)) ==> pos < next <= text.len() && v.well_formed(),
    decreases text.len() - pos, 1nat,
{
    lemma_skip_whitespace(text, pos);
    let start = skip_whitespace(text, pos);
    if start < text.len() {
        lemma_null_at(text, start);
        lemma_boolean_at(text, start);
        lemma_string_at(text, start);
        lemma_number_at(text, start);
        lemma_array_at(text, start);
        lemma_object_at(text, start);
    }
}

/// As [`lemma_value_at`], for an array.
pub proof fn lemma_array_at(text: Seq<char>, pos: int)
    requires
        0 <= pos <= text.len(),
    ensures
        array_at(text, pos) matches Ok((v, next)) ==> pos < next <= text.len() && v.well_formed(),
    decreases text.len() - pos, 0nat,
{
    if pos < text.len() {
        lemma_array_item_at(text, pos + 1, Seq::empty(), true);
    }
}

/// As [`lemma_value_at`], for the rest of an array from an item on.
pub proof fn lemma_array_item_at(text: Seq<char>, pos: int, items: Seq<Json>, may_close: bool)
    requires
        0 <= pos <= text.len(),
        Json::Array(items).well_formed(),
    ensures
        array_item_at(text, pos, items, may_close) matches Ok((v, next)) ==> pos < next
            <= text.len() && v.well_formed(),
    decreases text.len() - pos, 2nat,
{
    lemma_skip_whitespace(text, pos);
    let at = skip_whitespace(text, pos);
    if at < text.len() && text[at] != ']' && text[at] != ',' {
        lemma_value_at(text, at);
        match value_at(text, at) {
            Err(_) => {},
            Ok((item, next)) => {
                let longer = items.push(item);
                lemma_array_well_formed(items);
                lemma_array_well_formed(longer);
                assert forall|i: int| 0 <= i < longer.len() implies (
                #[trigger] longer[i]).well_formed() by {
                    if i < items.len() {
                        assert(longer[i] == items[i]);
                        assert(items[i].well_formed());
                    } else {
                        assert(longer[i] == item);
                    }
                }
                assert(Json::Array(longer).well_formed());
                lemma_array_rest_at(text, resume(text, at, next), longer);
            },
        }
    }
}

/// As [`lemma_value_at`], for the rest of an array after an item.
pub proof fn lemma_array_rest_at(text: Seq<char>, pos: int, items: Seq<Json>)
    requires
        0 <= pos <= text.len(),
        Json::Array(items).well_formed(),
    ensures
        array_rest_at(text, pos, items) matches Ok((v, next)) ==> pos < next <= text.len()
            && v.well_formed(),
    decreases text.len() - pos, 0nat,
{
    lemma_skip_whitespace(text, pos);
    let at = skip_whitespace(text, pos);
    if at < text.len() && text[at] == ',' {
        lemma_array_item_at(text, at + 1, items, false);
    }
}

/// As [`lemma_value_at`], for an object.
pub proof fn lemma_object_at(text: Seq<char>, pos: int)
    requires
        0 <= pos <= text.len(),
    ensures
        object_at(text, pos) matches Ok((v, next)) ==> pos < next <= text.len()
            && v.well_formed(),
    decreases text.len() - pos, 0nat,
{
    if pos < text.len() && text[pos] == '{' {
        lemma_object_member_at(text, pos + 1, Seq::empty(), true);
    }
}

/// As [`lemma_value_at`], for the rest of an object from a member on.
pub proof fn lemma_object_member_at(
    text: Seq<char>,
    pos: int,
    members: Seq<(Seq<char>, Json)>,
    may_close: bool,
)
    requires
        0 <= pos <= text.len(),
        Json::Object(members).well_formed(),
    ensures
        object_member_at(text, pos, members, may_close) matches Ok((v, next)) ==> pos < next
            <= text.len() && v.well_formed(),
    decreases text.len() - pos, 2nat,
{
    lemma_skip_whitespace(text, pos);
    let at = skip_whitespace(text, pos);
    if at < text.len() && text[at] == '"' {
        lemma_string_at(text, at);
        match string_at(text, at) {
            Err(_) => {},
            Ok((key, after_key)) => {
                lemma_skip_whitespace(text, after_key);
                let colon = skip_whitespace(text, after_key);
                if colon < text.len() && text[colon] == ':' {
                    lemma_value_at(text, colon + 1);
                    match value_at(text, colon + 1) {
                        Err(_) => {},
                        Ok((value, next)) => {
                            lemma_with_member(members, key, value);
                            lemma_object_rest_at(
                                text,
                                resume(text, colon, next),
                                with_member(members, key, value),
                            );
                        },
                    }
                }
            },
        }
    }
}

/// As [`lemma_value_at`], for the rest of an object after a member.
pub proof fn lemma_object_rest_at(text: Seq<char>, pos: int, members: Seq<(Seq<char>, Json)>)
    requires
        0 <= pos <= text.len(),
        Json::Object(members).well_formed(),
    ensures
        object_rest_at(text, pos, members) matches Ok((v, next)) ==> pos < next <= text.len()
            && v.well_formed(),
    decreases text.len() - pos, 0nat,
{
    lemma_skip_whitespace(text, pos);
    let at = skip_whitespace(text, pos);
    if at < text.len() && text[at] == ',' {
        lemma_object_member_at(text, at + 1, members, false);
    }
}

} // verus!
