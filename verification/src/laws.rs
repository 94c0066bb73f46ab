//! How parsing and printing relate.

use vstd::prelude::*;
use crate::grammar::{document, value_at};
use crate::printer::printed;
use crate::roundtrip::{lemma_printed_value, lemma_stands_whole, lemma_value_after_whitespace};
use crate::scan::{lemma_run_end_bounds, lemma_run_members, skip_whitespace, CharClass};
use crate::soundness::lemma_value_at;
use crate::value::Json;

verus! {

/// Whatever a document is parsed as is well formed: its numbers are JSON
/// numbers and none of its objects has a key twice.
pub proof fn law_parsed_is_well_formed(text: Seq<char>, value: Json)
    requires
        document(text) == Ok::<Json, crate::error::Rejection>(value),
    ensures
        value.well_formed(),
{
    lemma_value_at(text, 0);
}

/// The text of a well-formed value is a document, and parsing it gives the
/// value back: the same numbers, strings and truth values, the items and
/// the members in the same order.
pub proof fn law_print_then_parse(value: Json)
    requires
        value.well_formed(),
    ensures
        document(printed(value)) == Ok::<Json, crate::error::Rejection>(value),
{
    let text = printed(value);
    lemma_stands_whole(text);
    lemma_printed_value(text, 0, value);
    assert(skip_whitespace(text, text.len() as int) == text.len());
    assert(value_at(text, 0) == Ok::<(Json, int), crate::error::Rejection>(
        (value, text.len() as int),
    ));
}

/// Round trip: a value that came out of parsing some text comes out again
/// when its own text is parsed.
pub proof fn law_round_trip(text: Seq<char>, value: Json)
    requires
        document(text) == Ok::<Json, crate::error::Rejection>(value),
    ensures
        document(printed(value)) == Ok::<Json, crate::error::Rejection>(value),
{
    law_parsed_is_well_formed(text, value);
    law_print_then_parse(value);
}

/// Whitespace before a value does not count: the value that is read from
/// `pos` on is the value that is read from the end of the whitespace that
/// starts at `pos`.
pub proof fn law_whitespace_before_value(text: Seq<char>, pos: int)
    requires
        0 <= pos <= text.len(),
    ensures
        value_at(text, pos) == value_at(text, skip_whitespace(text, pos)),
{
    let start = skip_whitespace(text, pos);
    lemma_run_end_bounds(text, pos, CharClass::Whitespace);
    lemma_run_members(text, pos, CharClass::Whitespace);
    assert(skip_whitespace(text, start) == start);
    lemma_value_after_whitespace(text, pos, start);
}

/// Printing is repeatable: two texts printed from one value are the same
/// text.
pub proof fn law_print_is_repeatable(value: Json, first: Seq<char>, second: Seq<char>)
    requires
        first == printed(value),
        second == printed(value),
    ensures
        first == second,
{
}

/// Printing is stable: the value that the text of a well-formed value is
/// parsed as is printed as the same text again.
pub proof fn law_print_is_stable(value: Json)
    requires
        value.well_formed(),
    ensures
        document(printed(value)) matches Ok(again) && printed(again) == printed(value),
{
    law_print_then_parse(value);
}

} // verus!
