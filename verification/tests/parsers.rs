use expr_parser::{Expression, Number, Operation, ParseError};

fn expression(left: i32, operation: Operation, right: i32) -> Expression {
    Expression { left: Number(left), right: Number(right), operation }
}

#[test]
fn parse_number() {
    assert_eq!(Number::new("123"), Ok(("", Number(123))));
}

#[test]
fn parse_add_op() {
    assert_eq!(Operation::new("+"), Ok(("", Operation::Add)));
}

#[test]
fn parse_subtract_op() {
    assert_eq!(Operation::new("-"), Ok(("", Operation::Subtract)));
}

#[test]
fn parse_multiply_op() {
    assert_eq!(Operation::new("*"), Ok(("", Operation::Multiply)));
}

#[test]
fn parse_divide_op() {
    assert_eq!(Operation::new("/"), Ok(("", Operation::Divide)));
}

#[test]
fn parse_one_plus_two() {
    assert_eq!(
        Expression::new("1+2"),
        Ok((
            "",
            Expression {
                left: Number(1),
                right: Number(2),
                operation: Operation::Add,
            },
        )),
    );
}

#[test]
fn parse_expr_with_whitespace() {
    assert_eq!(
        Expression::new("2 * 2"),
        Ok((
            "",
            Expression {
                left: Number(2),
                right: Number(2),
                operation: Operation::Multiply,
            }
        ))
    )
}

#[test]
fn parse_expr_keeps_trailing_text() {
    assert_eq!(
        Expression::new("10-20rest"),
        Ok(("rest", expression(10, Operation::Subtract, 20)))
    );
}

#[test]
fn parse_number_stops_at_first_non_digit() {
    assert_eq!(Number::new("42 + 1"), Ok((" + 1", Number(42))));
    assert_eq!(Number::new("7x"), Ok(("x", Number(7))));
}

#[test]
fn parse_number_ignores_leading_zeros() {
    assert_eq!(Number::new("000123"), Ok(("", Number(123))));
    assert_eq!(Number::new("0"), Ok(("", Number(0))));
    assert_eq!(Number::new("00000000000000000001"), Ok(("", Number(1))));
}

#[test]
fn parse_number_at_the_limit() {
    assert_eq!(Number::new("2147483647"), Ok(("", Number(i32::MAX))));
    assert_eq!(Number::new("2147483647;"), Ok((";", Number(2147483647))));
}

#[test]
fn parse_number_beyond_the_limit() {
    assert_eq!(Number::new("2147483648"), Err(ParseError::InvalidDigits));
    assert_eq!(Number::new("99999999999999999999999"), Err(ParseError::InvalidDigits));
    assert_eq!(Number::new("21474836470"), Err(ParseError::InvalidDigits));
}

#[test]
fn parse_number_from_empty_text() {
    assert_eq!(Number::new(""), Err(ParseError::InvalidDigits));
}

#[test]
fn parse_number_without_digits() {
    assert_eq!(Number::new("abc"), Err(ParseError::InvalidDigits));
    assert_eq!(Number::new("-5"), Err(ParseError::InvalidDigits));
    assert_eq!(Number::new(" 5"), Err(ParseError::InvalidDigits));
    assert_eq!(Number::new("٣"), Err(ParseError::InvalidDigits));
}

#[test]
fn parse_operation_from_empty_text() {
    assert_eq!(Operation::new(""), Err(ParseError::EmptyInput));
}

#[test]
fn parse_unknown_operation() {
    assert_eq!(Operation::new("x"), Err(ParseError::UnrecognizedOperator));
    assert_eq!(Operation::new("%2"), Err(ParseError::UnrecognizedOperator));
    assert_eq!(Operation::new(" +"), Err(ParseError::UnrecognizedOperator));
    assert_eq!(Operation::new("×2"), Err(ParseError::UnrecognizedOperator));
}

#[test]
fn parse_operation_keeps_the_rest() {
    assert_eq!(Operation::new("+ 2"), Ok((" 2", Operation::Add)));
    assert_eq!(Operation::new("--"), Ok(("-", Operation::Subtract)));
    assert_eq!(Operation::new("*é"), Ok(("é", Operation::Multiply)));
    assert_eq!(Operation::new("/4"), Ok(("4", Operation::Divide)));
}

#[test]
fn parse_expr_with_each_operation() {
    assert_eq!(Expression::new("3+4"), Ok(("", expression(3, Operation::Add, 4))));
    assert_eq!(Expression::new("3-4"), Ok(("", expression(3, Operation::Subtract, 4))));
    assert_eq!(Expression::new("3*4"), Ok(("", expression(3, Operation::Multiply, 4))));
    assert_eq!(Expression::new("3/4"), Ok(("", expression(3, Operation::Divide, 4))));
}

#[test]
fn parse_expr_with_mixed_whitespace() {
    assert_eq!(
        Expression::new("12 \t\n/\r\n  34 tail"),
        Ok((" tail", expression(12, Operation::Divide, 34)))
    );
    assert_eq!(Expression::new("1 +2"), Ok(("", expression(1, Operation::Add, 2))));
    assert_eq!(Expression::new("1+ 2"), Ok(("", expression(1, Operation::Add, 2))));
}

#[test]
fn parse_expr_reads_one_operation_only() {
    assert_eq!(Expression::new("1+2+3"), Ok(("+3", expression(1, Operation::Add, 2))));
}

#[test]
fn parse_incomplete_expr() {
    assert_eq!(Expression::new(""), Err(ParseError::IncompleteExpression));
    assert_eq!(Expression::new("1"), Err(ParseError::IncompleteExpression));
    assert_eq!(Expression::new("1 "), Err(ParseError::IncompleteExpression));
    assert_eq!(Expression::new("1+"), Err(ParseError::IncompleteExpression));
    assert_eq!(Expression::new("1 + "), Err(ParseError::IncompleteExpression));
    assert_eq!(Expression::new("+2"), Err(ParseError::IncompleteExpression));
    assert_eq!(Expression::new(" 1+2"), Err(ParseError::IncompleteExpression));
}

#[test]
fn parse_malformed_expr() {
    assert_eq!(Expression::new("1 x 2"), Err(ParseError::IncompleteExpression));
    assert_eq!(Expression::new("1 2"), Err(ParseError::IncompleteExpression));
    assert_eq!(Expression::new("1+-2"), Err(ParseError::IncompleteExpression));
    assert_eq!(Expression::new("1+a"), Err(ParseError::IncompleteExpression));
    assert_eq!(Expression::new("2147483648+1"), Err(ParseError::IncompleteExpression));
    assert_eq!(Expression::new("1+2147483648"), Err(ParseError::IncompleteExpression));
}

#[test]
fn parse_twice_gives_the_same() {
    let text = "10 - 20 and more";
    assert_eq!(Expression::new(text), Expression::new(text));
    assert_eq!(Number::new(text), Number::new(text));
}

#[test]
fn parse_number_refuses_empty_text_as_it_does_letters() {
    assert_eq!(Number::new(""), Number::new("abc"));
    assert_eq!(Number::new(""), Err(ParseError::InvalidDigits));
}

#[test]
fn parse_expr_the_same_with_and_without_whitespace() {
    let bare = Expression::new("12/34;");
    assert_eq!(bare, Ok((";", expression(12, Operation::Divide, 34))));
    for text in ["12 /34;", "12/ 34;", "12 / 34;", "12\t/\n34;", "12   /\r\n 34;"] {
        assert_eq!(Expression::new(text), bare);
    }
}

#[test]
fn parse_expr_hands_back_added_text() {
    assert_eq!(Expression::new("7*8"), Ok(("", expression(7, Operation::Multiply, 8))));
    assert_eq!(Expression::new("7*8 and"), Ok((" and", expression(7, Operation::Multiply, 8))));
    assert_eq!(Expression::new("7*8 and9"), Ok((" and9", expression(7, Operation::Multiply, 8))));
    assert_eq!(Expression::new("7*89"), Ok(("", expression(7, Operation::Multiply, 89))));
}
