use acc_calc_mcp::arith::Request;
use acc_calc_mcp::token::{CalcError, Operator, PercentRounding, Token};
use acc_calc_mcp::tokenizer::{consume_number, tokenize_and_round};

fn parse_number(text: &str) -> Option<u64> {
    text.parse::<f64>().ok().map(f64::to_bits)
}

fn compute(request: Request) -> u64 {
    let value = match request {
        Request::PowerOfTen(exponent) => 10f64.powi(exponent as i32),
        Request::Round(value) => f64::from_bits(value).round(),
        Request::Binary(operator, lhs, rhs) => {
            let lhs = f64::from_bits(lhs);
            let rhs = f64::from_bits(rhs);
            match operator {
                Operator::Add => lhs + rhs,
                Operator::Subtract => lhs - rhs,
                Operator::Multiply => lhs * rhs,
                Operator::Divide => lhs / rhs,
            }
        }
    };
    value.to_bits()
}

fn tokens(expr: &str, decimals: u32) -> Result<Vec<Token>, CalcError> {
    tokenize_and_round(
        expr,
        decimals,
        PercentRounding::DivideBy100ThenRound,
        &parse_number,
        &compute,
    )
}

fn number(value: f64) -> Token {
    Token::Number(value.to_bits())
}

fn consume(text: &str, from: usize) -> (String, usize) {
    let chars: Vec<char> = text.chars().collect();
    let mut pos = from;
    let numeral = consume_number(&chars, &mut pos);
    (numeral, pos)
}

#[test]
fn a_numeral_runs_through_digits_and_separators() {
    assert_eq!(consume("1,234.56+1", 0), ("1234.56".to_string(), 8));
    assert_eq!(consume("12 + 3", 0), ("12".to_string(), 3));
    assert_eq!(consume("12 + 3", 5), ("3".to_string(), 6));
    assert_eq!(consume("1'000 000,5%", 0), ("1000000.5".to_string(), 11));
    assert_eq!(consume("7", 0), ("7".to_string(), 1));
    assert_eq!(consume("1 2 3", 0), ("123".to_string(), 5));
}

#[test]
fn a_numeral_begins_with_a_digit() {
    assert_eq!(consume(".5", 0), (String::new(), 0));
    assert_eq!(consume(",5", 0), (String::new(), 0));
    assert_eq!(consume(" 5", 0), (String::new(), 0));
    assert_eq!(consume("x", 0), (String::new(), 0));
    assert_eq!(consume("", 0), (String::new(), 0));
    assert_eq!(consume("12", 2), (String::new(), 2));
    assert_eq!(consume("12", 9), (String::new(), 9));
}

#[test]
fn symbols_and_numbers_become_tokens() {
    assert_eq!(
        tokens("(1 + 2) * 3 / 4 - 5", 0),
        Ok(vec![
            Token::LeftParen,
            number(1.0),
            Token::Add,
            number(2.0),
            Token::RightParen,
            Token::Multiply,
            number(3.0),
            Token::Divide,
            number(4.0),
            Token::Subtract,
            number(5.0),
        ])
    );
    assert_eq!(tokens("", 0), Ok(vec![]));
    assert_eq!(tokens(" \t\n", 0), Ok(vec![]));
}

#[test]
fn literals_are_rounded_as_they_are_read() {
    assert_eq!(tokens("1.235", 2), Ok(vec![number(1.24)]));
    assert_eq!(tokens("1.234", 2), Ok(vec![number(1.23)]));
    assert_eq!(tokens("0.5", 0), Ok(vec![number(1.0)]));
    assert_eq!(tokens("1,234.56", 1), Ok(vec![number(1234.6)]));
    assert_eq!(tokens("1.234,56", 1), Ok(vec![number(1234.6)]));
    assert_eq!(tokens("1.", 0), Ok(vec![number(1.0)]));
}

#[test]
fn a_percent_sign_belongs_to_the_literal_before_it() {
    assert_eq!(tokens("50%", 2), Ok(vec![number(0.5)]));
    assert_eq!(tokens("50.126%", 2), Ok(vec![number(0.5)]));
    assert_eq!(tokens("-50%", 2), Ok(vec![number(-0.5)]));
    assert_eq!(tokens("50 %", 2), Ok(vec![number(0.5)]));
    assert_eq!(
        tokenize_and_round(
            "50.126%",
            2,
            PercentRounding::RoundThenDivideBy100,
            &parse_number,
            &compute
        ),
        Ok(vec![number(50.13 / 100.0)])
    );
    assert_eq!(tokens("%", 2), Err(CalcError::InvalidCharacter('%')));
    assert_eq!(tokens("5%%", 2), Err(CalcError::InvalidCharacter('%')));
    assert_eq!(tokens("(5)%", 2), Err(CalcError::InvalidCharacter('%')));
}

#[test]
fn a_minus_is_unary_at_the_start_and_after_an_operator_or_left_parenthesis() {
    assert_eq!(tokens("-5", 0), Ok(vec![number(-5.0)]));
    assert_eq!(
        tokens("3-5", 0),
        Ok(vec![number(3.0), Token::Subtract, number(5.0)])
    );
    assert_eq!(
        tokens("3 - -5", 0),
        Ok(vec![number(3.0), Token::Subtract, number(-5.0)])
    );
    assert_eq!(
        tokens("3*-5", 0),
        Ok(vec![number(3.0), Token::Multiply, number(-5.0)])
    );
    assert_eq!(
        tokens("(-5)-2", 0),
        Ok(vec![
            Token::LeftParen,
            number(-5.0),
            Token::RightParen,
            Token::Subtract,
            number(2.0),
        ])
    );
    assert_eq!(tokens("-0", 0), Ok(vec![number(-0.0)]));
}

#[test]
fn a_unary_minus_needs_a_digit_right_after_it() {
    assert_eq!(tokens("-", 0), Err(CalcError::InvalidExpression));
    assert_eq!(tokens("- 5", 0), Err(CalcError::InvalidExpression));
    assert_eq!(tokens("-(5)", 0), Err(CalcError::InvalidExpression));
    assert_eq!(tokens("--5", 0), Err(CalcError::InvalidExpression));
    assert_eq!(tokens("1 + -", 0), Err(CalcError::InvalidExpression));
    assert_eq!(tokens("-.5", 0), Err(CalcError::InvalidExpression));
    assert_eq!(tokens("-&", 0), Err(CalcError::InvalidExpression));
}

#[test]
fn the_first_failure_in_the_text_is_reported() {
    assert_eq!(tokens("1 & -", 0), Err(CalcError::InvalidCharacter('&')));
    assert_eq!(tokens("- & 1", 0), Err(CalcError::InvalidExpression));
    assert_eq!(tokens("a b", 0), Err(CalcError::InvalidCharacter('a')));
    assert_eq!(tokens("1 + 2 @ #", 0), Err(CalcError::InvalidCharacter('@')));
    assert_eq!(tokens(".5", 0), Err(CalcError::InvalidCharacter('.')));
    assert_eq!(tokens("1\r+2", 0), Err(CalcError::InvalidCharacter('\r')));
}

#[test]
fn a_literal_that_cannot_be_read_is_an_invalid_expression() {
    let refuse = |_: &str| -> Option<u64> { None };
    let result = tokenize_and_round(
        "1 + 2",
        0,
        PercentRounding::DivideBy100ThenRound,
        &refuse,
        &compute,
    );
    assert_eq!(result, Err(CalcError::InvalidExpression));
    let result = tokenize_and_round(
        "( + )",
        0,
        PercentRounding::DivideBy100ThenRound,
        &refuse,
        &compute,
    );
    assert_eq!(
        result,
        Ok(vec![Token::LeftParen, Token::Add, Token::RightParen])
    );
}

#[test]
fn numerals_are_handed_on_in_plain_form() {
    let seen = std::cell::RefCell::new(Vec::new());
    let recording = |text: &str| {
        seen.borrow_mut().push(text.to_string());
        parse_number(text)
    };
    let result = tokenize_and_round(
        "1,234.56 + 1.000,5 * -2'000 - 7 %",
        2,
        PercentRounding::DivideBy100ThenRound,
        &recording,
        &compute,
    );
    assert!(result.is_ok());
    assert_eq!(*seen.borrow(), vec!["1234.56", "1000.5", "2000", "7"]);
}
