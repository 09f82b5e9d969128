//! A binary expression: two numbers and the operation between them.

use vstd::prelude::*;
use crate::error::ParseError;
use crate::number::{
    decimal_value, lemma_number_consumes, lemma_numeral_parses, parse_number, Number,
};
use crate::operation::{
    lemma_operation_consumes, lemma_symbol_parses, parse_operation, Operation,
};
use crate::utils::{
    after_run, all_of, extract_whitespace, is_digit, leading_run, lemma_run_splits,
    lemma_run_then_rest, CharClass,
};

verus! {

/// Two numbers and the operation that joins them.
#[derive(Debug, Clone, Copy, PartialEq, Eq, Structural)]
pub struct Expression {
    pub left: Number,
    pub right: Number,
    pub operation: Operation,
}

/// What `Expression::new` makes of `s`: a number, whitespace, an operator,
/// whitespace and a number are read in this order, each from where the one
/// before it stopped. The result is the text after the second number and the
/// expression, or `IncompleteExpression` if any of the three parts is
/// refused.
pub open spec fn parse_expression(s: Seq<char>) -> Result<(Seq<char>, Expression), ParseError> {
    match parse_number(s) {
        Ok((after_left, left)) => match parse_operation(
            after_run(after_left, CharClass::Whitespace),
        ) {
            Ok((after_operation, operation)) => match parse_number(
                after_run(after_operation, CharClass::Whitespace),
            ) {
                Ok((after_right, right)) => Ok((after_right, Expression { left, right, operation })),
                Err(_) => Err(ParseError::IncompleteExpression),
            },
            Err(_) => Err(ParseError::IncompleteExpression),
        },
        Err(_) => Err(ParseError::IncompleteExpression),
    }
}

/// A numeral, whitespace, an operator symbol, whitespace and a numeral,
/// followed by text that does not go on with a digit, parse as the
/// expression of the two values and the operation, and leave that text.
/// Either stretch of whitespace may be empty.
pub proof fn lemma_parts_parse(
    left: Seq<char>,
    before: Seq<char>,
    operation: Operation,
    after: Seq<char>,
    right: Seq<char>,
    rest: Seq<char>,
)
    requires
        decimal_value(left) is Some,
        all_of(before, CharClass::Whitespace),
        all_of(after, CharClass::Whitespace),
        decimal_value(right) is Some,
        rest.len() > 0 ==> !is_digit(rest[0]),
    ensures
        parse_expression(left + before + seq![operation.symbol()] + after + right + rest) == Ok::<
            _,
            ParseError,
        >(
            (
                rest,
                Expression {
                    left: Number(decimal_value(left)->0),
                    right: Number(decimal_value(right)->0),
                    operation,
                },
            ),
        ),
{
    let from_right = right + rest;
    let from_after = after + from_right;
    let from_symbol = seq![operation.symbol()] + from_after;
    let from_before = before + from_symbol;
    assert(left + before + seq![operation.symbol()] + after + right + rest =~= left + from_before);
    assert(from_symbol[0] == operation.symbol());
    assert(from_right[0] == right[0]);
    assert(is_digit(right[0]));
    if before.len() > 0 {
        assert(from_before[0] == before[0]);
    } else {
        assert(from_before[0] == operation.symbol());
    }
    if after.len() > 0 {
        assert(from_after[0] == after[0]);
    } else {
        assert(from_after[0] == right[0]);
    }
    lemma_numeral_parses(left, from_before);
    lemma_run_then_rest(before, from_symbol, CharClass::Whitespace);
    lemma_symbol_parses(operation, from_after);
    lemma_run_then_rest(after, from_right, CharClass::Whitespace);
    lemma_numeral_parses(right, rest);
}

/// Whitespace around the operator changes nothing: the text parses as it
/// does without it.
pub proof fn lemma_whitespace_is_skipped(
    left: Seq<char>,
    before: Seq<char>,
    operation: Operation,
    after: Seq<char>,
    right: Seq<char>,
    rest: Seq<char>,
)
    requires
        decimal_value(left) is Some,
        all_of(before, CharClass::Whitespace),
        all_of(after, CharClass::Whitespace),
        decimal_value(right) is Some,
        rest.len() > 0 ==> !is_digit(rest[0]),
    ensures
        parse_expression(left + before + seq![operation.symbol()] + after + right + rest)
            == parse_expression(left + seq![operation.symbol()] + right + rest),
{
    let none = Seq::<char>::empty();
    lemma_parts_parse(left, before, operation, after, right, rest);
    lemma_parts_parse(left, none, operation, none, right, rest);
    assert(left + none + seq![operation.symbol()] + none + right + rest =~= left + seq![
        operation.symbol(),
    ] + right + rest);
}

/// A text that parses as an expression is made of a numeral, whitespace,
/// the symbol of the operation, whitespace, a numeral and the rest, and the
/// rest does not go on with a digit. The result holds the first numeral,
/// the whitespace before and after the symbol, and the second numeral.
pub proof fn lemma_parsed_parts(s: Seq<char>) -> (parts: (
    Seq<char>,
    Seq<char>,
    Seq<char>,
    Seq<char>,
))
    requires
        parse_expression(s) is Ok,
    ensures
        ({
            let (left, before, after, right) = parts;
            let (rest, expression) = parse_expression(s)->Ok_0;
            &&& s == left + before + seq![expression.operation.symbol()] + after + right + rest
            &&& decimal_value(left) == Some(expression.left.0)
            &&& all_of(before, CharClass::Whitespace)
            &&& all_of(after, CharClass::Whitespace)
            &&& decimal_value(right) == Some(expression.right.0)
            &&& rest.len() > 0 ==> !is_digit(rest[0])
        }),
{
    let (rest, expression) = parse_expression(s)->Ok_0;
    let left = leading_run(s, CharClass::Digit);
    let from_before = after_run(s, CharClass::Digit);
    let before = leading_run(from_before, CharClass::Whitespace);
    let from_symbol = after_run(from_before, CharClass::Whitespace);
    let from_after = from_symbol.skip(1);
    let after = leading_run(from_after, CharClass::Whitespace);
    let from_right = after_run(from_after, CharClass::Whitespace);
    let right = leading_run(from_right, CharClass::Digit);
    lemma_run_splits(s, CharClass::Digit);
    lemma_run_splits(from_before, CharClass::Whitespace);
    lemma_operation_consumes(from_symbol);
    lemma_run_splits(from_after, CharClass::Whitespace);
    lemma_run_splits(from_right, CharClass::Digit);
    assert(rest == after_run(from_right, CharClass::Digit));
    assert(from_symbol =~= seq![expression.operation.symbol()] + from_after);
    assert(s =~= left + before + seq![expression.operation.symbol()] + after + right + rest);
    (left, before, after, right)
}

/// Text added behind a text that parses as an expression comes back behind
/// the old rest, with the same expression, unless it would lengthen the
/// second numeral: the old rest is not empty, or the added text does not
/// start with a digit.
pub proof fn lemma_text_appended(s: Seq<char>, more: Seq<char>)
    requires
        parse_expression(s) is Ok,
        parse_expression(s)->Ok_0.0.len() > 0 || more.len() == 0 || !is_digit(more[0]),
    ensures
        parse_expression(s + more) == Ok::<_, ParseError>(
            (parse_expression(s)->Ok_0.0 + more, parse_expression(s)->Ok_0.1),
        ),
{
    let (rest, expression) = parse_expression(s)->Ok_0;
    let (left, before, after, right) = lemma_parsed_parts(s);
    let symbol = seq![expression.operation.symbol()];
    if rest.len() > 0 {
        assert((rest + more)[0] == rest[0]);
    } else if more.len() > 0 {
        assert((rest + more)[0] == more[0]);
    }
    lemma_parts_parse(left, before, expression.operation, after, right, rest + more);
    assert(s + more =~= left + before + symbol + after + right + (rest + more));
}

/// Where an expression is parsed, at least three characters were consumed:
/// the rest is a suffix of the text. Where none is parsed, the error is
/// `IncompleteExpression`.
pub proof fn lemma_expression_consumes(s: Seq<char>)
    ensures
        match parse_expression(s) {
            Ok((rest, expression)) => rest.is_suffix_of(s) && rest.len() + 3 <= s.len(),
            Err(e) => e == ParseError::IncompleteExpression,
        },
{
    lemma_number_consumes(s);
    if let Ok((after_left, _)) = parse_number(s) {
        let before_operation = after_run(after_left, CharClass::Whitespace);
        lemma_run_splits(after_left, CharClass::Whitespace);
        lemma_operation_consumes(before_operation);
        if let Ok((after_operation, _)) = parse_operation(before_operation) {
            let before_right = after_run(after_operation, CharClass::Whitespace);
            lemma_run_splits(after_operation, CharClass::Whitespace);
            lemma_number_consumes(before_right);
            if let Ok((after_right, _)) = parse_number(before_right) {
                lemma_suffix_of_suffix(before_operation, after_left, s);
                lemma_suffix_of_suffix(after_operation, before_operation, s);
                lemma_suffix_of_suffix(before_right, after_operation, s);
                lemma_suffix_of_suffix(after_right, before_right, s);
            }
        }
    }
}

/// A suffix of a suffix of `c` is a suffix of `c`.
proof fn lemma_suffix_of_suffix(a: Seq<char>, b: Seq<char>, c: Seq<char>)
    requires
        a.is_suffix_of(b),
        b.is_suffix_of(c),
    ensures
        a.is_suffix_of(c),
{
    assert(a =~= c.subrange(c.len() - a.len(), c.len() as int));
}

impl Expression {
    /// Parses an expression at the start of `s` and returns the rest of `s`
    /// with the expression. Text after the second number is not an error.
    ///
    /// Fails with `IncompleteExpression` where either number or the
    /// operator is missing or refused.
    pub fn new(s: &str) -> (res: Result<(&str, Expression), ParseError>)
        ensures
            match res {
                Ok((rest, expression)) => parse_expression(s@) == Ok::<_, ParseError>(
                    (rest@, expression),
                ),
                Err(e) => parse_expression(s@) == Err::<(Seq<char>, Expression), _>(e),
            },
    {
        let (after_left, left) = match Number::new(s) {
            Ok(parsed) => parsed,
            Err(_) => {
                return Err(ParseError::IncompleteExpression);
            },
        };
        let (before_operation, _) = extract_whitespace(after_left);
        let (after_operation, operation) = match Operation::new(before_operation) {
            Ok(parsed) => parsed,
            Err(_) => {
                return Err(ParseError::IncompleteExpression);
            },
        };
        let (before_right, _) = extract_whitespace(after_operation);
        let (after_right, right) = match Number::new(before_right) {
            Ok(parsed) => parsed,
            Err(_) => {
                return Err(ParseError::IncompleteExpression);
            },
        };
        Ok((after_right, Expression { left, right, operation }))
    }
}

} // verus!
