//! A JSON reader and writer with machine-checked contracts.
//!
//! [`parse`] turns text into a [`JsonValue`] tree or a [`ParseError`];
//! [`print`] renders a tree back to text. What each of them returns is
//! stated over the mathematical model [`Json`] by the functions of
//! [`grammar`] and [`printer`], and [`laws`] proves how the two relate.

pub mod cursor;
pub mod error;
pub mod grammar;
pub mod laws;
pub mod parser;
pub mod printer;
pub mod roundtrip;
pub mod scan;
pub mod soundness;
pub mod std_specs;
pub mod value;

pub use cursor::Cursor;
pub use error::{ParseError, ParseErrorKind, Rejection};
pub use parser::{
    parse, parse_array, parse_boolean, parse_null, parse_number, parse_object, parse_string,
    parse_value,
};
pub use printer::print;
pub use value::{Json, JsonValue};
