//! Character classes and maximal runs of characters of one class.

use vstd::prelude::*;

verus! {

/// The four characters that may stand between tokens.
pub open spec fn is_whitespace(c: char) -> bool {
    c == ' ' || c == '\t' || c == '\n' || c == '\r'
}

pub open spec fn is_digit(c: char) -> bool {
    '0' <= c <= '9'
}

/// An ASCII letter: what a literal word is made of.
pub open spec fn is_letter(c: char) -> bool {
    ('a' <= c <= 'z') || ('A' <= c <= 'Z')
}

/// A character that may occur somewhere in a number.
pub open spec fn is_number_char(c: char) -> bool {
    is_digit(c) || c == '-' || c == '+' || c == '.' || c == 'e' || c == 'E'
}

pub open spec fn is_hex_digit(c: char) -> bool {
    is_digit(c) || ('a' <= c <= 'f') || ('A' <= c <= 'F')
}

/// The number that a hexadecimal digit stands for.
pub open spec fn hex_value(c: char) -> int {
    if is_digit(c) {
        c as int - '0' as int
    } else if 'a' <= c <= 'f' {
        c as int - 'a' as int + 10
    } else {
        c as int - 'A' as int + 10
    }
}

/// The classes of characters that are read in runs.
#[derive(Debug, Clone, Copy, PartialEq, Eq, Structural)]
pub enum CharClass {
    Whitespace,
    Letter,
    Digit,
    Number,
}

impl CharClass {
    /// Whether `c` is of this class.
    pub open spec fn contains(self, c: char) -> bool {
        match self {
            CharClass::Whitespace => is_whitespace(c),
            CharClass::Letter => is_letter(c),
            CharClass::Digit => is_digit(c),
            CharClass::Number => is_number_char(c),
        }
    }

    /// Whether `c` is of this class.
    pub fn holds(&self, c: char) -> (b: bool)
        ensures
            b == self.contains(c),
    {
        match self {
            CharClass::Whitespace => c == ' ' || c == '\t' || c == '\n' || c == '\r',
            CharClass::Letter => ('a' <= c && c <= 'z') || ('A' <= c && c <= 'Z'),
            CharClass::Digit => '0' <= c && c <= '9',
            CharClass::Number => ('0' <= c && c <= '9') || c == '-' || c == '+' || c == '.'
                || c == 'e' || c == 'E',
        }
    }
}

/// Where the maximal run of characters of `class` that starts at `from`
/// ends: the first position at or after `from` that holds no such
/// character, or the end of the text.
pub open spec fn run_end(text: Seq<char>, from: int, class: CharClass) -> int
    decreases text.len() - from,
{
    if 0 <= from < text.len() && class.contains(text[from]) {
        run_end(text, from + 1, class)
    } else {
        from
    }
}

/// The first position at or after `from` that holds no whitespace.
pub open spec fn skip_whitespace(text: Seq<char>, from: int) -> int {
    run_end(text, from, CharClass::Whitespace)
}

/// A run ends inside the text, at or after its start.
pub proof fn lemma_run_end_bounds(text: Seq<char>, from: int, class: CharClass)
    requires
        0 <= from <= text.len(),
    ensures
        from <= run_end(text, from, class) <= text.len(),
    decreases text.len() - from,
{
    if from < text.len() && class.contains(text[from]) {
        lemma_run_end_bounds(text, from + 1, class);
    }
}

/// Every character of a run is of its class, and the character after it,
/// if there is one, is not.
pub proof fn lemma_run_members(text: Seq<char>, from: int, class: CharClass)
    requires
        0 <= from <= text.len(),
    ensures
        forall|i: int| from <= i < run_end(text, from, class) ==> class.contains(#[trigger] text[i]),
        run_end(text, from, class) < text.len() ==> !class.contains(text[run_end(text, from, class)]),
    decreases text.len() - from,
{
    lemma_run_end_bounds(text, from, class);
    if from < text.len() && class.contains(text[from]) {
        lemma_run_members(text, from + 1, class);
    }
}

/// A stretch of characters of the class that is followed by none of them is
/// the run that starts where the stretch starts.
pub proof fn lemma_run_end_is(text: Seq<char>, from: int, to: int, class: CharClass)
    requires
        0 <= from <= to <= text.len(),
        forall|i: int| from <= i < to ==> class.contains(#[trigger] text[i]),
        to < text.len() ==> !class.contains(text[to]),
    ensures
        run_end(text, from, class) == to,
    decreases to - from,
{
    if from < to {
        lemma_run_end_is(text, from + 1, to, class);
    }
}

/// The value of a hexadecimal digit, or `None` for any other character.
pub fn hex_digit_value(c: char) -> (value: Option<u32>)
    ensures
        value is Some <==> is_hex_digit(c),
        value matches Some(v) ==> v == hex_value(c) && v < 16,
{
    if '0' <= c && c <= '9' {
        Some(c as u32 - '0' as u32)
    } else if 'a' <= c && c <= 'f' {
        Some(c as u32 - 'a' as u32 + 10)
    } else if 'A' <= c && c <= 'F' {
        Some(c as u32 - 'A' as u32 + 10)
    } else {
        None
    }
}

} // verus!
