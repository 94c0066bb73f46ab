//! Contracts for the two functions of the standard library that the
//! library calls and that come without one. Nothing here is proved: each
//! contract restates the function's documentation.

use vstd::prelude::*;

verus! {

/// `String::push` appends the given character to the end of the string and
/// leaves what was there untouched.
pub assume_specification[ std::string::String::push ](s: &mut std::string::String, c: char)
    ensures
        final(s)@ == old(s)@.push(c),
;

/// `char::from_u32` returns the character with the given code when the code
/// is a Unicode scalar value, that is anything up to `0x10FFFF` outside the
/// surrogate range `0xD800..=0xDFFF`, and `None` for every other number.
pub assume_specification[ std::primitive::char::from_u32 ](code: u32) -> (c: Option<char>)
    ensures
        c == (if code <= 0xD7FF || (0xE000 <= code && code <= 0x10FFFF) {
            Some(code as char)
        } else {
            None::<char>
        }),
;

} // verus!
