//! The four arithmetic operations.

use vstd::prelude::*;
use vstd::string::StrSliceExecFns;
use crate::error::ParseError;
use crate::utils::extract_operator;

verus! {

/// An arithmetic operation on two numbers.
#[derive(Debug, Clone, Copy, PartialEq, Eq, Structural)]
pub enum Operation {
    Add,
    Subtract,
    Multiply,
    Divide,
}

impl Operation {
    /// The symbol that stands for the operation.
    pub open spec fn symbol(self) -> char {
        match self {
            Operation::Add => '+',
            Operation::Subtract => '-',
            Operation::Multiply => '*',
            Operation::Divide => '/',
        }
    }

    /// The operation that `c` stands for, if any.
    pub open spec fn of_symbol(c: char) -> Option<Operation> {
        if c == '+' {
            Some(Operation::Add)
        } else if c == '-' {
            Some(Operation::Subtract)
        } else if c == '*' {
            Some(Operation::Multiply)
        } else if c == '/' {
            Some(Operation::Divide)
        } else {
            None
        }
    }

    /// Parses the operator symbol at the start of `s` and returns the rest
    /// of `s` with the operation.
    ///
    /// Fails with `EmptyInput` where `s` is empty, and with
    /// `UnrecognizedOperator` where its first character is no operator
    /// symbol.
    pub fn new(s: &str) -> (res: Result<(&str, Operation), ParseError>)
        ensures
            match res {
                Ok((rest, operation)) => parse_operation(s@) == Ok::<_, ParseError>(
                    (rest@, operation),
                ),
                Err(e) => parse_operation(s@) == Err::<(Seq<char>, Operation), _>(e),
            },
    {
        let (rest, symbol) = match extract_operator(s) {
            Ok(parts) => parts,
            Err(e) => {
                return Err(e);
            },
        };
        let c = symbol.get_char(0);
        if c == '+' {
            Ok((rest, Operation::Add))
        } else if c == '-' {
            Ok((rest, Operation::Subtract))
        } else if c == '*' {
            Ok((rest, Operation::Multiply))
        } else if c == '/' {
            Ok((rest, Operation::Divide))
        } else {
            Err(ParseError::UnrecognizedOperator)
        }
    }
}

/// What `Operation::new` makes of `s`: the text after the first character
/// and the operation that this character stands for, or the reason why
/// there is none.
pub open spec fn parse_operation(s: Seq<char>) -> Result<(Seq<char>, Operation), ParseError> {
    if s.len() == 0 {
        Err(ParseError::EmptyInput)
    } else {
        match Operation::of_symbol(s[0]) {
            Some(operation) => Ok((s.skip(1), operation)),
            None => Err(ParseError::UnrecognizedOperator),
        }
    }
}

/// Where an operation is parsed, exactly one character was consumed, and
/// it is the symbol of the operation.
pub proof fn lemma_operation_consumes(s: Seq<char>)
    ensures
        match parse_operation(s) {
            Ok((rest, operation)) => {
                &&& rest.is_suffix_of(s)
                &&& rest.len() + 1 == s.len()
                &&& s[0] == operation.symbol()
            },
            Err(e) => e == ParseError::EmptyInput || e == ParseError::UnrecognizedOperator,
        },
{
}

/// The symbol of an operation, followed by any text, parses as that
/// operation and leaves the text.
pub proof fn lemma_symbol_parses(operation: Operation, rest: Seq<char>)
    ensures
        parse_operation(seq![operation.symbol()] + rest) == Ok::<_, ParseError>((rest, operation)),
{
    let s = seq![operation.symbol()] + rest;
    assert(s[0] == operation.symbol());
    assert(s.skip(1) =~= rest);
}

} // verus!
