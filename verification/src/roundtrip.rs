//! Why the text that the printer writes is read back as the value that
//! was written: the proof, value by value, that the grammar inverts the
//! printer.

use vstd::prelude::*;
use crate::error::Rejection;
use crate::grammar::{
    array_at, array_item_at, array_rest_at, boolean_at, code_unit_at, escape_at, false_word,
    hex_digit_at, lead_of, null_at, null_word, number_at, object_at, object_member_at,
    object_rest_at, resume, string_at, string_body_at, string_value_at,
    true_word, unicode_escape_at, value_at, Lead,
};
use crate::printer::{
    escaped, escaped_from, hex_char, printed, printed_items, printed_members, quoted,
};
use crate::scan::{
    hex_value, is_digit, is_hex_digit, is_letter, is_number_char, is_whitespace,
    lemma_run_end_bounds, lemma_run_end_is, lemma_run_members, run_end, skip_whitespace,
    CharClass,
};
use crate::soundness::lemma_key_index_from;
use crate::value::{
    digits_end, distinct_keys, is_json_number, key_index, lemma_array_well_formed,
    lemma_object_well_formed, with_member, Json,
};

verus! {

/// `piece` stands in `text` at `pos`.
#[verifier::opaque]
pub open spec fn stands_at(text: Seq<char>, pos: int, piece: Seq<char>) -> bool {
    &&& 0 <= pos
    &&& pos + piece.len() <= text.len()
    &&& text.subrange(pos, pos + piece.len()) == piece
}

/// No letter and no number character stands at `at`, so that a word or a
/// number that ends before `at` ends there.
pub open spec fn value_ends_at(text: Seq<char>, at: int) -> bool {
    at == text.len() || (0 <= at < text.len() && !is_letter(text[at]) && !is_number_char(
        text[at],
    ))
}

/// The kind of value that `value` is.
pub open spec fn lead_for(value: Json) -> Lead {
    match value {
        Json::Null => Lead::Null,
        Json::Boolean(_) => Lead::Boolean,
        Json::Number(_) => Lead::Number,
        Json::String(_) => Lead::String,
        Json::Array(_) => Lead::Array,
        Json::Object(_) => Lead::Object,
    }
}

/// What it means that a piece stands at a place.
proof fn lemma_stands_subrange(text: Seq<char>, pos: int, piece: Seq<char>)
    requires
        stands_at(text, pos, piece),
    ensures
        0 <= pos,
        pos + piece.len() <= text.len(),
        text.subrange(pos, pos + piece.len()) == piece,
{
    reveal(stands_at);
}

/// A text stands at its own start.
pub proof fn lemma_stands_whole(text: Seq<char>)
    ensures
        stands_at(text, 0, text),
{
    reveal(stands_at);
    assert(text.subrange(0, text.len() as int) =~= text);
}

proof fn lemma_stands_index(text: Seq<char>, pos: int, piece: Seq<char>, i: int)
    requires
        stands_at(text, pos, piece),
        0 <= i < piece.len(),
    ensures
        0 <= pos + i < text.len(),
        text[pos + i] == piece[i],
{
    reveal(stands_at);
    assert(text.subrange(pos, pos + piece.len())[i] == text[pos + i]);
}

proof fn lemma_stands_split(text: Seq<char>, pos: int, a: Seq<char>, b: Seq<char>)
    requires
        stands_at(text, pos, a + b),
    ensures
        stands_at(text, pos, a),
        stands_at(text, pos + a.len(), b),
{
    reveal(stands_at);
    let whole = text.subrange(pos, pos + (a + b).len());
    assert((a + b).len() == a.len() + b.len());
    assert forall|i: int| 0 <= i < a.len() implies text.subrange(pos, pos + a.len())[i]
        == a[i] by {
        assert(whole[i] == text[pos + i]);
        assert((a + b)[i] == a[i]);
    }
    assert(text.subrange(pos, pos + a.len()) =~= a);
    assert forall|i: int| 0 <= i < b.len() implies text.subrange(
        pos + a.len(),
        pos + a.len() + b.len(),
    )[i] == b[i] by {
        assert(whole[a.len() + i] == text[pos + a.len() + i]);
        assert((a + b)[a.len() + i] == b[i]);
    }
    assert(text.subrange(pos + a.len(), pos + a.len() + b.len()) =~= b);
}

/// Where no whitespace stands, none is skipped.
proof fn lemma_no_whitespace(text: Seq<char>, pos: int)
    requires
        0 <= pos <= text.len(),
        pos < text.len() ==> !is_whitespace(text[pos]),
    ensures
        skip_whitespace(text, pos) == pos,
{
}

/// One space before something else is skipped.
proof fn lemma_one_space(text: Seq<char>, pos: int)
    requires
        0 <= pos < text.len(),
        text[pos] == ' ',
        pos + 1 < text.len() ==> !is_whitespace(text[pos + 1]),
    ensures
        skip_whitespace(text, pos) == pos + 1,
{
    lemma_no_whitespace(text, pos + 1);
    assert(run_end(text, pos, CharClass::Whitespace) == run_end(
        text,
        pos + 1,
        CharClass::Whitespace,
    ));
}

/// A value is the same from wherever in the whitespace before it reading
/// starts.
pub proof fn lemma_value_after_whitespace(text: Seq<char>, pos: int, start: int)
    requires
        0 <= pos <= start <= text.len(),
        skip_whitespace(text, pos) == start,
        skip_whitespace(text, start) == start,
    ensures
        value_at(text, pos) == value_at(text, start),
{
}

/// A JSON number starts with a digit or a minus sign and is made of
/// number characters.
proof fn lemma_number_chars(s: Seq<char>)
    requires
        is_json_number(s),
    ensures
        s.len() > 0,
        is_digit(s[0]) || s[0] == '-',
        forall|i: int| 0 <= i < s.len() ==> is_number_char(#[trigger] s[i]),
{
    let int_start = if s.len() > 0 && s[0] == '-' { 1int } else { 0int };
    let int_end = digits_end(s, int_start);
    let frac_end = if int_end < s.len() && s[int_end] == '.' {
        digits_end(s, int_end + 1)
    } else {
        int_end
    };
    let exp_start = if frac_end < s.len() && (s[frac_end] == 'e' || s[frac_end] == 'E') {
        if frac_end + 1 < s.len() && (s[frac_end + 1] == '+' || s[frac_end + 1] == '-') {
            frac_end + 2
        } else {
            frac_end + 1
        }
    } else {
        frac_end
    };
    lemma_run_end_bounds(s, int_start, CharClass::Digit);
    lemma_run_members(s, int_start, CharClass::Digit);
    if int_end < s.len() && s[int_end] == '.' {
        lemma_run_end_bounds(s, int_end + 1, CharClass::Digit);
        lemma_run_members(s, int_end + 1, CharClass::Digit);
    }
    if exp_start > frac_end {
        lemma_run_end_bounds(s, exp_start, CharClass::Digit);
        lemma_run_members(s, exp_start, CharClass::Digit);
    }
    assert(CharClass::Digit.contains(s[int_start]));
    assert forall|i: int| 0 <= i < s.len() implies is_number_char(#[trigger] s[i]) by {
        if i < int_start {
        } else if i < int_end {
            assert(CharClass::Digit.contains(s[i]));
        } else if i < frac_end {
            if i > int_end {
                assert(CharClass::Digit.contains(s[i]));
            }
        } else if i < exp_start {
        } else {
            assert(CharClass::Digit.contains(s[i]));
        }
    }
}

/// The text of a value starts with a character that announces its kind.
proof fn lemma_printed_lead(value: Json)
    requires
        value.well_formed(),
    ensures
        printed(value).len() > 0,
        lead_of(printed(value)[0]) == lead_for(value),
{
    match value {
        Json::Number(literal) => {
            lemma_number_chars(literal);
        },
        _ => {},
    }
}

proof fn lemma_printed_null(text: Seq<char>, pos: int)
    requires
        stands_at(text, pos, null_word()),
    ensures
        null_at(text, pos) == Ok::<(Json, int), Rejection>((Json::Null, pos + 4)),
{
    lemma_stands_subrange(text, pos, null_word());
}

proof fn lemma_printed_word(text: Seq<char>, pos: int, word: Seq<char>)
    requires
        stands_at(text, pos, word),
        forall|i: int| 0 <= i < word.len() ==> is_letter(#[trigger] word[i]),
        value_ends_at(text, pos + word.len()),
    ensures
        run_end(text, pos, CharClass::Letter) == pos + word.len(),
{
    lemma_stands_subrange(text, pos, word);
    assert forall|i: int| pos <= i < pos + word.len() implies CharClass::Letter.contains(
        #[trigger] text[i],
    ) by {
        lemma_stands_index(text, pos, word, i - pos);
    }
    lemma_run_end_is(text, pos, pos + word.len(), CharClass::Letter);
}

proof fn lemma_printed_boolean(text: Seq<char>, pos: int, b: bool)
    requires
        stands_at(text, pos, printed(Json::Boolean(b))),
        value_ends_at(text, pos + printed(Json::Boolean(b)).len()),
    ensures
        boolean_at(text, pos) == Ok::<(Json, int), Rejection>(
            (Json::Boolean(b), pos + printed(Json::Boolean(b)).len()),
        ),
{
    let word = printed(Json::Boolean(b));
    lemma_stands_subrange(text, pos, word);
    lemma_printed_word(text, pos, word);
    if !b {
        assert(false_word().len() != true_word().len());
    }
}

proof fn lemma_printed_number(text: Seq<char>, pos: int, literal: Seq<char>)
    requires
        is_json_number(literal),
        stands_at(text, pos, literal),
        value_ends_at(text, pos + literal.len()),
    ensures
        number_at(text, pos) == Ok::<(Json, int), Rejection>(
            (Json::Number(literal), pos + literal.len()),
        ),
{
    lemma_number_chars(literal);
    lemma_stands_subrange(text, pos, literal);
    assert forall|i: int| pos <= i < pos + literal.len() implies CharClass::Number.contains(
        #[trigger] text[i],
    ) by {
        lemma_stands_index(text, pos, literal, i - pos);
    }
    lemma_run_end_is(text, pos, pos + literal.len(), CharClass::Number);
}

/// A hexadecimal digit that the printer writes is read as the number it
/// was written for.
proof fn lemma_hex_char(nibble: int)
    requires
        0 <= nibble < 16,
    ensures
        is_hex_digit(hex_char(nibble)),
        hex_value(hex_char(nibble)) == nibble,
{
}

/// One written character of a string is read back as that character.
proof fn lemma_escaped_char(text: Seq<char>, pos: int, c: char, read: Seq<char>)
    requires
        stands_at(text, pos, escaped(c)),
    ensures
        string_body_at(text, pos, read) == string_body_at(
            text,
            pos + escaped(c).len(),
            read.push(c),
        ),
{
    let piece = escaped(c);
    lemma_stands_index(text, pos, piece, 0);
    if piece.len() == 1 {
    } else if piece.len() == 2 {
        lemma_stands_index(text, pos, piece, 1);
        assert(escape_at(text, pos + 1) == Ok::<(char, int), Rejection>((c, pos + 2)));
    } else {
        lemma_stands_index(text, pos, piece, 1);
        lemma_stands_index(text, pos, piece, 2);
        lemma_stands_index(text, pos, piece, 3);
        lemma_stands_index(text, pos, piece, 4);
        lemma_stands_index(text, pos, piece, 5);
        let high = c as int / 16;
        let low = c as int % 16;
        lemma_hex_char(high);
        lemma_hex_char(low);
        assert(hex_digit_at(text, pos + 2) == Ok::<(int, int), Rejection>((0, pos + 3)));
        assert(hex_digit_at(text, pos + 3) == Ok::<(int, int), Rejection>((0, pos + 4)));
        assert(hex_digit_at(text, pos + 4) == Ok::<(int, int), Rejection>((high, pos + 5)));
        assert(hex_digit_at(text, pos + 5) == Ok::<(int, int), Rejection>((low, pos + 6)));
        assert(code_unit_at(text, pos + 2) == Ok::<(int, int), Rejection>((c as int, pos + 6)));
        assert(unicode_escape_at(text, pos + 2) == Ok::<(char, int), Rejection>((c, pos + 6)));
        assert(escape_at(text, pos + 1) == Ok::<(char, int), Rejection>((c, pos + 6)));
    }
}

proof fn lemma_printed_string_body(text: Seq<char>, pos: int, s: Seq<char>, from: int)
    requires
        0 <= from <= s.len(),
        stands_at(text, pos, escaped_from(s, from) + seq!['"']),
    ensures
        string_body_at(text, pos, s.take(from)) == Ok::<(Seq<char>, int), Rejection>(
            (s, pos + escaped_from(s, from).len() + 1),
        ),
    decreases s.len() - from,
{
    let tail = escaped_from(s, from) + seq!['"'];
    if from == s.len() {
        assert(tail =~= seq!['"']);
        lemma_stands_index(text, pos, tail, 0);
        assert(s.take(from) =~= s);
    } else {
        let c = s[from];
        let rest = escaped_from(s, from + 1) + seq!['"'];
        assert(tail =~= escaped(c) + rest);
        lemma_stands_split(text, pos, escaped(c), rest);
        lemma_escaped_char(text, pos, c, s.take(from));
        assert(s.take(from).push(c) =~= s.take(from + 1));
        lemma_printed_string_body(text, pos + escaped(c).len(), s, from + 1);
    }
}

/// A written string is read back as the string.
proof fn lemma_printed_string(text: Seq<char>, pos: int, s: Seq<char>)
    requires
        stands_at(text, pos, quoted(s)),
    ensures
        string_at(text, pos) == Ok::<(Seq<char>, int), Rejection>((s, pos + quoted(s).len())),
{
    let body = escaped_from(s, 0) + seq!['"'];
    assert(quoted(s) =~= seq!['"'] + body);
    lemma_stands_split(text, pos, seq!['"'], body);
    lemma_stands_index(text, pos, seq!['"'], 0);
    lemma_printed_string_body(text, pos + 1, s, 0);
    assert(s.take(0) =~= Seq::<char>::empty());
}

/// What follows an item or a member starts with a comma or with the
/// closing bracket.
proof fn lemma_items_tail_starts(items: Seq<Json>, from: int)
    requires
        0 < from <= items.len(),
    ensures
        (printed_items(items, from) + seq![']'])[0] == ',' || (printed_items(items, from)
            + seq![']'])[0] == ']',
{
}

proof fn lemma_members_tail_starts(members: Seq<(Seq<char>, Json)>, from: int)
    requires
        0 < from <= members.len(),
    ensures
        (printed_members(members, from) + seq!['}'])[0] == ',' || (printed_members(members, from)
            + seq!['}'])[0] == '}',
{
}

/// Where no whitespace stands, the first character decides what is read.
proof fn lemma_value_dispatch(text: Seq<char>, pos: int)
    requires
        0 <= pos < text.len(),
        lead_of(text[pos]) != Lead::Other,
    ensures
        value_at(text, pos) == (match lead_of(text[pos]) {
            Lead::Null => null_at(text, pos),
            Lead::Boolean => boolean_at(text, pos),
            Lead::String => string_value_at(text, pos),
            Lead::Number => number_at(text, pos),
            Lead::Array => array_at(text, pos),
            Lead::Object => object_at(text, pos),
            Lead::Other => value_at(text, pos),
        }),
{
    lemma_no_whitespace(text, pos);
}

proof fn lemma_printed_string_value(text: Seq<char>, pos: int, s: Seq<char>)
    requires
        stands_at(text, pos, quoted(s)),
    ensures
        string_value_at(text, pos) == Ok::<(Json, int), Rejection>(
            (Json::String(s), pos + quoted(s).len()),
        ),
{
    lemma_printed_string(text, pos, s);
}

/// A written array is read back as the array.
proof fn lemma_printed_array(text: Seq<char>, pos: int, items: Seq<Json>)
    requires
        Json::Array(items).well_formed(),
        stands_at(text, pos, seq!['['] + printed_items(items, 0) + seq![']']),
    ensures
        array_at(text, pos) == Ok::<(Json, int), Rejection>(
            (Json::Array(items), pos + printed_items(items, 0).len() + 2),
        ),
    decreases items, items.len() + 2, 0nat,
{
    let body = printed_items(items, 0) + seq![']'];
    assert(seq!['['] + printed_items(items, 0) + seq![']'] =~= seq!['['] + body);
    lemma_stands_split(text, pos, seq!['['], body);
    lemma_stands_index(text, pos, seq!['['], 0);
    lemma_printed_items(text, pos + 1, items);
    assert(array_at(text, pos) == array_item_at(text, pos + 1, Seq::empty(), true));
}

/// A written object is read back as the object.
proof fn lemma_printed_object(text: Seq<char>, pos: int, members: Seq<(Seq<char>, Json)>)
    requires
        Json::Object(members).well_formed(),
        stands_at(text, pos, seq!['{'] + printed_members(members, 0) + seq!['}']),
    ensures
        object_at(text, pos) == Ok::<(Json, int), Rejection>(
            (Json::Object(members), pos + printed_members(members, 0).len() + 2),
        ),
    decreases members, members.len() + 2, 0nat,
{
    let body = printed_members(members, 0) + seq!['}'];
    assert(seq!['{'] + printed_members(members, 0) + seq!['}'] =~= seq!['{'] + body);
    lemma_stands_split(text, pos, seq!['{'], body);
    lemma_stands_index(text, pos, seq!['{'], 0);
    lemma_printed_members(text, pos + 1, members);
    assert(object_at(text, pos) == object_member_at(text, pos + 1, Seq::empty(), true));
}

/// A written value is read back as the value, where what follows it
/// cannot be taken for a part of it.
pub proof fn lemma_printed_value(text: Seq<char>, pos: int, value: Json)
    requires
        value.well_formed(),
        stands_at(text, pos, printed(value)),
        value_ends_at(text, pos + printed(value).len()),
    ensures
        value_at(text, pos) == Ok::<(Json, int), Rejection>((value, pos + printed(value).len())),
    decreases value, 0nat, 0nat,
{
    lemma_printed_lead(value);
    lemma_stands_index(text, pos, printed(value), 0);
    lemma_value_dispatch(text, pos);
    match value {
        Json::Null => {
            lemma_printed_null(text, pos);
        },
        Json::Boolean(b) => {
            lemma_printed_boolean(text, pos, b);
        },
        Json::Number(literal) => {
            lemma_printed_number(text, pos, literal);
        },
        Json::String(s) => {
            lemma_printed_string_value(text, pos, s);
        },
        Json::Array(items) => {
            lemma_printed_array(text, pos, items);
        },
        Json::Object(members) => {
            lemma_printed_object(text, pos, members);
        },
    }
}

/// After an item, a closing bracket ends the array.
proof fn lemma_array_closes(text: Seq<char>, pos: int, items: Seq<Json>)
    requires
        0 <= pos < text.len(),
        text[pos] == ']',
    ensures
        array_rest_at(text, pos, items) == Ok::<(Json, int), Rejection>(
            (Json::Array(items), pos + 1),
        ),
{
    lemma_no_whitespace(text, pos);
}

/// After an item, a comma and a space lead to the next item.
proof fn lemma_array_continues(text: Seq<char>, pos: int, items: Seq<Json>)
    requires
        0 <= pos,
        pos + 2 < text.len(),
        text[pos] == ',',
        text[pos + 1] == ' ',
        !is_whitespace(text[pos + 2]),
    ensures
        array_rest_at(text, pos, items) == array_item_at(text, pos + 2, items, false),
{
    lemma_no_whitespace(text, pos);
    lemma_one_space(text, pos + 1);
    lemma_no_whitespace(text, pos + 2);
    assert(array_rest_at(text, pos, items) == array_item_at(text, pos + 1, items, false));
    assert(array_item_at(text, pos + 1, items, false) == array_item_at(
        text,
        pos + 2,
        items,
        false,
    ));
}

/// Where an item stands, reading goes on after it with one item more.
proof fn lemma_array_item(
    text: Seq<char>,
    at: int,
    items: Seq<Json>,
    may_close: bool,
    item: Json,
    next: int,
)
    requires
        0 <= at < next <= text.len(),
        lead_of(text[at]) != Lead::Other,
        value_at(text, at) == Ok::<(Json, int), Rejection>((item, next)),
    ensures
        array_item_at(text, at, items, may_close) == array_rest_at(text, next, items.push(item)),
{
    lemma_no_whitespace(text, at);
}

/// The written item at `from`, which stands at `at`, is read back, and
/// reading goes on after it with one item more.
proof fn lemma_printed_item(text: Seq<char>, at: int, items: Seq<Json>, from: int, may_close: bool)
    requires
        Json::Array(items).well_formed(),
        0 <= from < items.len(),
        stands_at(
            text,
            at,
            printed(items[from]) + (printed_items(items, from + 1) + seq![']']),
        ),
    ensures
        array_item_at(text, at, items.take(from), may_close) == Ok::<(Json, int), Rejection>(
            (
                Json::Array(items),
                at + printed(items[from]).len() + printed_items(items, from + 1).len() + 1,
            ),
        ),
    decreases items, items.len() - from, 0nat,
{
    let item = items[from];
    let piece = printed(item);
    let rest = printed_items(items, from + 1) + seq![']'];
    let next = at + piece.len();
    lemma_stands_split(text, at, piece, rest);
    lemma_array_well_formed(items);
    lemma_printed_lead(item);
    lemma_stands_index(text, at, piece, 0);
    lemma_items_tail_starts(items, from + 1);
    lemma_stands_index(text, next, rest, 0);
    lemma_printed_value(text, at, item);
    lemma_array_item(text, at, items.take(from), may_close, item, next);
    assert(items.take(from).push(item) =~= items.take(from + 1));
    lemma_printed_items_rest(text, next, items, from + 1);
}

/// The written items from `from` on, which stand at `pos` after an item,
/// are read back, and with those before them they make the array.
proof fn lemma_printed_items_rest(text: Seq<char>, pos: int, items: Seq<Json>, from: int)
    requires
        Json::Array(items).well_formed(),
        0 < from <= items.len(),
        stands_at(text, pos, printed_items(items, from) + seq![']']),
    ensures
        array_rest_at(text, pos, items.take(from)) == Ok::<(Json, int), Rejection>(
            (Json::Array(items), pos + printed_items(items, from).len() + 1),
        ),
    decreases items, items.len() - from, 1nat,
{
    let tail = printed_items(items, from) + seq![']'];
    lemma_stands_index(text, pos, tail, 0);
    if from == items.len() {
        assert(tail =~= seq![']']);
        assert(items.take(from) =~= items);
        lemma_array_closes(text, pos, items.take(from));
    } else {
        let piece = printed(items[from]);
        let rest = printed_items(items, from + 1) + seq![']'];
        assert(tail =~= seq![',', ' '] + (piece + rest));
        lemma_stands_split(text, pos, seq![',', ' '], piece + rest);
        lemma_stands_index(text, pos, seq![',', ' '], 0);
        lemma_stands_index(text, pos, seq![',', ' '], 1);
        lemma_array_well_formed(items);
        lemma_printed_lead(items[from]);
        lemma_stands_index(text, pos + 2, piece + rest, 0);
        lemma_array_continues(text, pos, items.take(from));
        lemma_printed_item(text, pos + 2, items, from, false);
    }
}

/// The written items of an array, which stand at `pos` after the opening
/// bracket, are read back as the array.
proof fn lemma_printed_items(text: Seq<char>, pos: int, items: Seq<Json>)
    requires
        Json::Array(items).well_formed(),
        stands_at(text, pos, printed_items(items, 0) + seq![']']),
    ensures
        array_item_at(text, pos, Seq::empty(), true) == Ok::<(Json, int), Rejection>(
            (Json::Array(items), pos + printed_items(items, 0).len() + 1),
        ),
    decreases items, items.len() + 1, 0nat,
{
    let tail = printed_items(items, 0) + seq![']'];
    assert(items.take(0) =~= Seq::<Json>::empty());
    if items.len() == 0 {
        assert(tail =~= seq![']']);
        lemma_stands_index(text, pos, tail, 0);
        lemma_no_whitespace(text, pos);
        assert(items =~= Seq::<Json>::empty());
    } else {
        let piece = printed(items[0]);
        let rest = printed_items(items, 1) + seq![']'];
        assert(tail =~= piece + rest);
        lemma_printed_item(text, pos, items, 0, true);
    }
}

/// A key that no earlier member has goes to the end.
proof fn lemma_new_member(members: Seq<(Seq<char>, Json)>, from: int)
    requires
        distinct_keys(members),
        0 <= from < members.len(),
    ensures
        with_member(members.take(from), members[from].0, members[from].1) == members.take(
            from + 1,
        ),
{
    let before = members.take(from);
    let key = members[from].0;
    lemma_key_index_from(before, key, 0);
    match key_index(before, key) {
        Some(i) => {
            assert(before[i] == members[i]);
            assert(members[i].0 != members[from].0);
        },
        None => {},
    }
    assert(before.push((key, members[from].1)) =~= members.take(from + 1));
}

/// After a member, a closing brace ends the object.
proof fn lemma_object_closes(text: Seq<char>, pos: int, members: Seq<(Seq<char>, Json)>)
    requires
        0 <= pos < text.len(),
        text[pos] == '}',
    ensures
        object_rest_at(text, pos, members) == Ok::<(Json, int), Rejection>(
            (Json::Object(members), pos + 1),
        ),
{
    lemma_no_whitespace(text, pos);
}

/// After a member, a comma and a space lead to the next member.
proof fn lemma_object_continues(text: Seq<char>, pos: int, members: Seq<(Seq<char>, Json)>)
    requires
        0 <= pos,
        pos + 2 < text.len(),
        text[pos] == ',',
        text[pos + 1] == ' ',
        !is_whitespace(text[pos + 2]),
    ensures
        object_rest_at(text, pos, members) == object_member_at(text, pos + 2, members, false),
{
    lemma_no_whitespace(text, pos);
    lemma_one_space(text, pos + 1);
    lemma_no_whitespace(text, pos + 2);
    assert(object_rest_at(text, pos, members) == object_member_at(text, pos + 1, members, false));
    assert(object_member_at(text, pos + 1, members, false) == object_member_at(
        text,
        pos + 2,
        members,
        false,
    ));
}

/// Where a key, a colon, a space and a value stand, reading goes on after
/// them with the key set to the value.
proof fn lemma_object_member(
    text: Seq<char>,
    at: int,
    members: Seq<(Seq<char>, Json)>,
    may_close: bool,
    key: Seq<char>,
    colon: int,
    value: Json,
    next: int,
)
    requires
        0 <= at < colon,
        colon + 2 < next <= text.len(),
        text[at] == '"',
        string_at(text, at) == Ok::<(Seq<char>, int), Rejection>((key, colon)),
        text[colon] == ':',
        text[colon + 1] == ' ',
        !is_whitespace(text[colon + 2]),
        value_at(text, colon + 2) == Ok::<(Json, int), Rejection>((value, next)),
    ensures
        object_member_at(text, at, members, may_close) == object_rest_at(
            text,
            next,
            with_member(members, key, value),
        ),
{
    lemma_no_whitespace(text, at);
    lemma_no_whitespace(text, colon);
    lemma_one_space(text, colon + 1);
    lemma_no_whitespace(text, colon + 2);
    lemma_value_after_whitespace(text, colon + 1, colon + 2);
    assert(resume(text, colon, next) == next);
}

/// The written member at `from`, which stands at `at`, is read back, and
/// reading goes on after it with one member more.
proof fn lemma_printed_member(
    text: Seq<char>,
    at: int,
    members: Seq<(Seq<char>, Json)>,
    from: int,
    may_close: bool,
)
    requires
        Json::Object(members).well_formed(),
        0 <= from < members.len(),
        stands_at(
            text,
            at,
            quoted(members[from].0) + (seq![':', ' '] + (printed(members[from].1) + (
            printed_members(members, from + 1) + seq!['}']))),
        ),
    ensures
        object_member_at(text, at, members.take(from), may_close) == Ok::<(Json, int), Rejection>(
            (
                Json::Object(members),
                at + quoted(members[from].0).len() + 2 + printed(members[from].1).len()
                    + printed_members(members, from + 1).len() + 1,
            ),
        ),
    decreases members, members.len() - from, 0nat,
{
    let key = members[from].0;
    let value = members[from].1;
    let name = quoted(key);
    let piece = printed(value);
    let rest = printed_members(members, from + 1) + seq!['}'];
    let colon = at + name.len();
    let next = colon + 2 + piece.len();
    lemma_object_well_formed(members);
    lemma_stands_split(text, at, name, seq![':', ' '] + (piece + rest));
    lemma_stands_split(text, colon, seq![':', ' '], piece + rest);
    lemma_stands_split(text, colon + 2, piece, rest);
    lemma_stands_index(text, at, name, 0);
    lemma_printed_string(text, at, key);
    lemma_stands_index(text, colon, seq![':', ' '], 0);
    lemma_stands_index(text, colon, seq![':', ' '], 1);
    lemma_printed_lead(value);
    lemma_stands_index(text, colon + 2, piece, 0);
    lemma_members_tail_starts(members, from + 1);
    lemma_stands_index(text, next, rest, 0);
    lemma_printed_value(text, colon + 2, value);
    lemma_object_member(text, at, members.take(from), may_close, key, colon, value, next);
    lemma_new_member(members, from);
    lemma_printed_members_rest(text, next, members, from + 1);
}

/// The written members from `from` on, which stand at `pos` after a
/// member, are read back, and with those before them they make the object.
proof fn lemma_printed_members_rest(
    text: Seq<char>,
    pos: int,
    members: Seq<(Seq<char>, Json)>,
    from: int,
)
    requires
        Json::Object(members).well_formed(),
        0 < from <= members.len(),
        stands_at(text, pos, printed_members(members, from) + seq!['}']),
    ensures
        object_rest_at(text, pos, members.take(from)) == Ok::<(Json, int), Rejection>(
            (Json::Object(members), pos + printed_members(members, from).len() + 1),
        ),
    decreases members, members.len() - from, 1nat,
{
    let tail = printed_members(members, from) + seq!['}'];
    lemma_stands_index(text, pos, tail, 0);
    if from == members.len() {
        assert(tail =~= seq!['}']);
        assert(members.take(from) =~= members);
        lemma_object_closes(text, pos, members.take(from));
    } else {
        let name = quoted(members[from].0);
        let piece = printed(members[from].1);
        let rest = printed_members(members, from + 1) + seq!['}'];
        let member = name + (seq![':', ' '] + (piece + rest));
        assert(tail =~= seq![',', ' '] + member);
        lemma_stands_split(text, pos, seq![',', ' '], member);
        lemma_stands_index(text, pos, seq![',', ' '], 0);
        lemma_stands_index(text, pos, seq![',', ' '], 1);
        lemma_stands_index(text, pos + 2, member, 0);
        lemma_object_continues(text, pos, members.take(from));
        lemma_printed_member(text, pos + 2, members, from, false);
    }
}

/// The written members of an object, which stand at `pos` after the
/// opening brace, are read back as the object.
proof fn lemma_printed_members(text: Seq<char>, pos: int, members: Seq<(Seq<char>, Json)>)
    requires
        Json::Object(members).well_formed(),
        stands_at(text, pos, printed_members(members, 0) + seq!['}']),
    ensures
        object_member_at(text, pos, Seq::empty(), true) == Ok::<(Json, int), Rejection>(
            (Json::Object(members), pos + printed_members(members, 0).len() + 1),
        ),
    decreases members, members.len() + 1, 0nat,
{
    let tail = printed_members(members, 0) + seq!['}'];
    assert(members.take(0) =~= Seq::<(Seq<char>, Json)>::empty());
    if members.len() == 0 {
        assert(tail =~= seq!['}']);
        lemma_stands_index(text, pos, tail, 0);
        lemma_no_whitespace(text, pos);
        assert(members =~= Seq::<(Seq<char>, Json)>::empty());
    } else {
        let name = quoted(members[0].0);
        let piece = printed(members[0].1);
        let rest = printed_members(members, 1) + seq!['}'];
        assert(tail =~= name + (seq![':', ' '] + (piece + rest)));
        lemma_printed_member(text, pos, members, 0, true);
    }
}

} // verus!
