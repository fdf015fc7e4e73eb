use ternary_tools::ternary::{
    int_to_ternary, parse_expr, parse_number, skip_whitespace, tritjs_eval_expression, ParseError,
};

#[test]
fn evaluates_sum_in_base_three() {
    // 12 is five, 2 is two.
    assert_eq!(tritjs_eval_expression("12 + 2"), Ok(7));
    assert_eq!(int_to_ternary(7), "21");
}

#[test]
fn precedence_and_parentheses() {
    assert_eq!(tritjs_eval_expression("1 + 2 * 10"), Ok(7));
    assert_eq!(tritjs_eval_expression("(1 + 2) * 10"), Ok(9));
    assert_eq!(tritjs_eval_expression("  ( 2 - 10 ) / 2 "), Ok(-0));
    assert_eq!(tritjs_eval_expression("(2 - 100) / 2"), Ok(-3));
    assert_eq!(tritjs_eval_expression("\t22\n"), Ok(8));
}

#[test]
fn evaluator_errors() {
    assert_eq!(tritjs_eval_expression("   "), Err(ParseError::EmptyExpression));
    assert_eq!(tritjs_eval_expression("3"), Err(ParseError::InvalidDigit('3')));
    assert_eq!(tritjs_eval_expression("(1 + 2"), Err(ParseError::MissingClosingParen));
    assert_eq!(tritjs_eval_expression("2 / 0"), Err(ParseError::DivisionByZero));
    assert_eq!(tritjs_eval_expression("1 2"), Err(ParseError::UnexpectedChar('2')));
    assert_eq!(tritjs_eval_expression("1 +"), Err(ParseError::UnexpectedChar('\0')));
    assert_eq!(
        tritjs_eval_expression("2222222222222222222222"),
        Err(ParseError::Overflow)
    );
}

#[test]
fn ternary_text() {
    assert_eq!(int_to_ternary(0), "0");
    assert_eq!(int_to_ternary(-5), "-12");
    assert_eq!(int_to_ternary(9), "100");
    assert_eq!(int_to_ternary(i32::MIN), "-12112122212110202102");
    assert_eq!(int_to_ternary(i32::MAX), "12112122212110202101");
}

#[test]
fn parser_pieces() {
    let chars: Vec<char> = "  21 + 1".chars().collect();
    let mut pos = 0usize;
    skip_whitespace(&chars, &mut pos);
    assert_eq!(pos, 2);
    let mut p = 0usize;
    assert_eq!(parse_number(&chars, &mut p), Ok(7));
    assert_eq!(p, 4);
    let mut q = 0usize;
    assert_eq!(parse_expr(&chars, &mut q), Ok(8));
    assert_eq!(q, chars.len());
}

#[test]
fn error_messages() {
    assert_eq!(
        ParseError::InvalidDigit('7').message(),
        "Invalid digit '7': expected 0, 1, or 2"
    );
    assert_eq!(ParseError::UnexpectedChar('x').message(), "Unexpected character 'x'");
    assert_eq!(ParseError::MissingClosingParen.message(), "Missing closing parenthesis");
    assert_eq!(ParseError::DivisionByZero.message(), "Division by zero");
    assert_eq!(ParseError::EmptyExpression.message(), "Expression is empty");
    assert_eq!(ParseError::Overflow.message(), "Result does not fit in 32 bits");
}

#[test]
fn parse_number_error_positions() {
    let blank: Vec<char> = "   ".chars().collect();
    let mut p = 1usize;
    assert_eq!(parse_number(&blank, &mut p), Err(ParseError::UnexpectedChar('\0')));
    assert_eq!(p, 3);
    let bad: Vec<char> = "  x1".chars().collect();
    let mut q = 0usize;
    assert_eq!(parse_number(&bad, &mut q), Err(ParseError::InvalidDigit('x')));
    assert_eq!(q, 2);
}
