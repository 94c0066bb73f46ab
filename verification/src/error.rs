//! What a failed parse reports.

use vstd::prelude::*;

verus! {

/// The grammar rule that the input broke.
#[derive(Debug, Clone, Copy, PartialEq, Eq, Structural)]
pub enum ParseErrorKind {
    /// The input ended where a value had to start.
    UnexpectedEndOfInput,
    /// A character that starts no value, or text after the document.
    UnexpectedCharacter,
    /// A word that is none of `null`, `true` and `false`.
    InvalidLiteral,
    /// A backslash followed by something that is no escape sequence.
    InvalidEscape,
    /// The input ended inside a string.
    UnterminatedString,
    /// A run of number characters that is no JSON number.
    InvalidNumber,
    /// A stray or a missing comma in an array.
    UnexpectedToken,
    /// The input ended inside an array.
    UnterminatedArray,
    /// A key that is not followed by `:`.
    ExpectedColon,
    /// A character that cannot stand at this place in an object.
    InvalidObjectSyntax,
    /// The input ended inside an object.
    UnterminatedObject,
}

/// A failed parse: the rule that was broken and how many characters had
/// been consumed when it was found.
#[derive(Debug, Clone, Copy, PartialEq, Eq)]
pub struct ParseError {
    pub kind: ParseErrorKind,
    pub offset: usize,
}

/// The mathematical counterpart of [`ParseError`], with an unbounded offset.
pub struct Rejection {
    pub kind: ParseErrorKind,
    pub offset: int,
}

impl View for ParseError {
    type V = Rejection;

    open spec fn view(&self) -> Rejection {
        Rejection { kind: self.kind, offset: self.offset as int }
    }
}

impl ParseErrorKind {
    /// The sentence that [`ParseErrorKind::message`] returns.
    pub open spec fn message_text(self) -> Seq<char> {
        match self {
            ParseErrorKind::UnexpectedEndOfInput => "Unexpected end of input"@,
            ParseErrorKind::UnexpectedCharacter => "Unexpected character"@,
            ParseErrorKind::InvalidLiteral => "Invalid literal"@,
            ParseErrorKind::InvalidEscape => "Invalid escape sequence in string"@,
            ParseErrorKind::UnterminatedString => "Unterminated string"@,
            ParseErrorKind::InvalidNumber => "Invalid number format"@,
            ParseErrorKind::UnexpectedToken => "Unexpected token in array"@,
            ParseErrorKind::UnterminatedArray => "Unterminated array"@,
            ParseErrorKind::ExpectedColon => "Expected ':' after key in object"@,
            ParseErrorKind::InvalidObjectSyntax => "Invalid character in object"@,
            ParseErrorKind::UnterminatedObject => "Unterminated object"@,
        }
    }

    /// A short sentence for a person to read.
    pub fn message(&self) -> (text: &'static str)
        ensures
            text@ == self.message_text(),
    {
        match self {
            ParseErrorKind::UnexpectedEndOfInput => "Unexpected end of input",
            ParseErrorKind::UnexpectedCharacter => "Unexpected character",
            ParseErrorKind::InvalidLiteral => "Invalid literal",
            ParseErrorKind::InvalidEscape => "Invalid escape sequence in string",
            ParseErrorKind::UnterminatedString => "Unterminated string",
            ParseErrorKind::InvalidNumber => "Invalid number format",
            ParseErrorKind::UnexpectedToken => "Unexpected token in array",
            ParseErrorKind::UnterminatedArray => "Unterminated array",
            ParseErrorKind::ExpectedColon => "Expected ':' after key in object",
            ParseErrorKind::InvalidObjectSyntax => "Invalid character in object",
            ParseErrorKind::UnterminatedObject => "Unterminated object",
        }
    }
}

} // verus!
