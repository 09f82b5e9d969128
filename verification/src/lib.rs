//! A parser for a single binary arithmetic expression: an integer, an
//! operator out of `+ - * /`, and a second integer, with optional whitespace
//! around the operator.
//!
//! Every parser takes the text that is left to read and returns what it did
//! not consume together with the value it built. Malformed input is reported
//! as a [`ParseError`]; no parser ever returns a partial value.
//!
//! Text is read character by character. Digits are the ASCII digits and
//! whitespace is the ASCII whitespace; any other character, inside ASCII or
//! outside it, ends a run of digits or of whitespace and is no operator.

pub mod error;
pub mod expression;
pub mod number;
pub mod operation;
pub mod utils;

pub use error::ParseError;
pub use expression::Expression;
pub use number::Number;
pub use operation::Operation;
