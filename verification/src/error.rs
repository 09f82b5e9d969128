use vstd::prelude::*;

verus! {

/// Why a parser refused its input.
#[derive(Debug, Clone, Copy, PartialEq, Eq, Structural)]
pub enum ParseError {
    /// An operator was required and the text was empty.
    EmptyInput,
    /// The text does not start with a digit, which is so where it is empty,
    /// or the leading digits denote a value beyond `i32::MAX`.
    InvalidDigits,
    /// The text is not empty and its first character is none of `+ - * /`.
    UnrecognizedOperator,
    /// One of the parts of an expression is missing or malformed.
    IncompleteExpression,
}

} // verus!
