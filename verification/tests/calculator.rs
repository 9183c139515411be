use acc_calc_mcp::arith::Request;
use acc_calc_mcp::calculator;
use acc_calc_mcp::token::{CalcError, Operator, PercentRounding};

fn parse_number(text: &str) -> Option<u64> {
    text.parse::<f64>().ok().map(f64::to_bits)
}

fn compute(request: Request) -> u64 {
    let value = match request {
        Request::PowerOfTen(exponent) => 10f64.powi(exponent as i32),
        Request::Round(value) => f64::from_bits(value).round(),
        Request::Binary(operator, lhs, rhs) => {
            let lhs = f64::from_bits(lhs);
            let rhs = f64::from_bits(rhs);
            match operator {
                Operator::Add => lhs + rhs,
                Operator::Subtract => lhs - rhs,
                Operator::Multiply => lhs * rhs,
                Operator::Divide => lhs / rhs,
            }
        }
    };
    value.to_bits()
}

fn calculate(expr: &str, decimals: u32, strategy: PercentRounding) -> Result<f64, CalcError> {
    calculator::calculate(expr, decimals, strategy, &parse_number, &compute).map(f64::from_bits)
}

fn validate(expr: &str, expected: f64, decimals: u32, strategy: PercentRounding) -> bool {
    calculator::validate(expr, expected.to_bits(), decimals, strategy, &parse_number, &compute)
}

#[test]
fn test_basic_arithmetic() {
    assert_eq!(calculate("1 + 2", 0, PercentRounding::DivideBy100ThenRound), Ok(3.0));
    assert_eq!(calculate("5 - 3", 0, PercentRounding::DivideBy100ThenRound), Ok(2.0));
    assert_eq!(calculate("2 * 3", 0, PercentRounding::DivideBy100ThenRound), Ok(6.0));
    assert_eq!(calculate("8 / 2", 0, PercentRounding::DivideBy100ThenRound), Ok(4.0));
}

#[test]
fn test_parentheses() {
    assert_eq!(calculate("(1 + 2) * 3", 0, PercentRounding::DivideBy100ThenRound), Ok(9.0));
    assert_eq!(calculate("2 * (3 + 4)", 0, PercentRounding::DivideBy100ThenRound), Ok(14.0));
    assert_eq!(calculate("((1 + 2) * 3) / 3", 0, PercentRounding::DivideBy100ThenRound), Ok(3.0));
}

#[test]
fn test_operator_precedence() {
    assert_eq!(calculate("1 + 2 * 3", 0, PercentRounding::DivideBy100ThenRound), Ok(7.0));
    assert_eq!(calculate("2 * 3 + 1", 0, PercentRounding::DivideBy100ThenRound), Ok(7.0));
    assert_eq!(calculate("6 / 2 + 1", 0, PercentRounding::DivideBy100ThenRound), Ok(4.0));
}

#[test]
fn test_rounding() {
    assert_eq!(calculate("1.234 + 2.567", 2, PercentRounding::DivideBy100ThenRound), Ok(3.80));
    assert_eq!(calculate("1.235 + 2.564", 2, PercentRounding::DivideBy100ThenRound), Ok(3.80));
    assert_eq!(calculate("1.999 + 0.001", 2, PercentRounding::DivideBy100ThenRound), Ok(2.00));
}

#[test]
fn test_percentage_convert_then_round() {
    assert_eq!(calculate("50%", 2, PercentRounding::DivideBy100ThenRound), Ok(0.50));
    assert_eq!(calculate("50.126%", 2, PercentRounding::DivideBy100ThenRound), Ok(0.50));
    assert_eq!(calculate("50.126% + 25%", 2, PercentRounding::DivideBy100ThenRound), Ok(0.75));
}

#[test]
fn test_percentage_round_then_convert() {
    assert_eq!(calculate("50.126%", 2, PercentRounding::RoundThenDivideBy100), Ok(0.50));
    assert_eq!(calculate("50.124%", 2, PercentRounding::RoundThenDivideBy100), Ok(0.50));
}

#[test]
fn test_negative_numbers() {
    assert_eq!(calculate("-5 + 3", 0, PercentRounding::DivideBy100ThenRound), Ok(-2.0));
    assert_eq!(calculate("5 + -3", 0, PercentRounding::DivideBy100ThenRound), Ok(2.0));
    assert_eq!(calculate("-5 * -3", 0, PercentRounding::DivideBy100ThenRound), Ok(15.0));
    assert_eq!(calculate("(-5) * 3", 0, PercentRounding::DivideBy100ThenRound), Ok(-15.0));
}

#[test]
fn test_negative_percentage() {
    assert_eq!(calculate("-50%", 2, PercentRounding::DivideBy100ThenRound), Ok(-0.50));
    assert_eq!(calculate("-50.126%", 2, PercentRounding::DivideBy100ThenRound), Ok(-0.50));
}

#[test]
fn test_decimal_numbers() {
    assert_eq!(calculate("1.5 + 2.5", 1, PercentRounding::DivideBy100ThenRound), Ok(4.0));
    assert_eq!(calculate("3.14 * 2", 2, PercentRounding::DivideBy100ThenRound), Ok(6.28));
    assert_eq!(calculate("0.1 + 0.2", 1, PercentRounding::DivideBy100ThenRound), Ok(0.3));
}

#[test]
fn test_complex_expressions() {
    assert_eq!(calculate("(1.5 + 2.5) * 3 - 1", 1, PercentRounding::DivideBy100ThenRound), Ok(11.0));
    assert_eq!(calculate("100% - 50% + 25%", 2, PercentRounding::DivideBy100ThenRound), Ok(0.75));
    assert_eq!(calculate("(50% + 25%) * 2", 2, PercentRounding::DivideBy100ThenRound), Ok(1.50));
}

#[test]
fn test_division_by_zero() {
    assert_eq!(calculate("5 / 0", 0, PercentRounding::DivideBy100ThenRound), Err(CalcError::DivisionByZero));
    assert_eq!(calculate("1 / (2 - 2)", 0, PercentRounding::DivideBy100ThenRound), Err(CalcError::DivisionByZero));
}

#[test]
fn test_invalid_expressions() {
    assert_eq!(calculate("1 +", 0, PercentRounding::DivideBy100ThenRound), Err(CalcError::InvalidExpression));
    assert_eq!(calculate("* 2", 0, PercentRounding::DivideBy100ThenRound), Err(CalcError::InvalidExpression));
    assert_eq!(calculate("1 + + 2", 0, PercentRounding::DivideBy100ThenRound), Err(CalcError::InvalidExpression));
}

#[test]
fn test_mismatched_parentheses() {
    assert_eq!(calculate("(1 + 2", 0, PercentRounding::DivideBy100ThenRound), Err(CalcError::MismatchedParens));
    assert_eq!(calculate("1 + 2)", 0, PercentRounding::DivideBy100ThenRound), Err(CalcError::MismatchedParens));
    assert_eq!(calculate("((1 + 2)", 0, PercentRounding::DivideBy100ThenRound), Err(CalcError::MismatchedParens));
}

#[test]
fn test_invalid_characters() {
    assert_eq!(calculate("1 + 2 @", 0, PercentRounding::DivideBy100ThenRound), Err(CalcError::InvalidCharacter('@')));
    assert_eq!(calculate("1 & 2", 0, PercentRounding::DivideBy100ThenRound), Err(CalcError::InvalidCharacter('&')));
}

#[test]
fn test_whitespace_handling() {
    assert_eq!(calculate("  1  +  2  ", 0, PercentRounding::DivideBy100ThenRound), Ok(3.0));
    assert_eq!(calculate("1\t+\t2", 0, PercentRounding::DivideBy100ThenRound), Ok(3.0));
    assert_eq!(calculate("1\n+\n2", 0, PercentRounding::DivideBy100ThenRound), Ok(3.0));
}

#[test]
fn test_validate_function() {
    assert!(validate("1 + 2", 3.0, 0, PercentRounding::DivideBy100ThenRound));
    assert!(validate("1.234 + 2.567", 3.80, 2, PercentRounding::DivideBy100ThenRound));
    assert!(!validate("1 + 2", 4.0, 0, PercentRounding::DivideBy100ThenRound));
    assert!(!validate("1 / 0", 0.0, 0, PercentRounding::DivideBy100ThenRound));
}

#[test]
fn test_floating_point_precision() {
    assert!(validate("0.1 + 0.2", 0.3, 1, PercentRounding::DivideBy100ThenRound));
    assert!(validate("0.1 + 0.1 + 0.1", 0.3, 1, PercentRounding::DivideBy100ThenRound));
}

#[test]
fn test_thousand_separators() {
    assert_eq!(calculate("1,234.56 + 2,000.44", 2, PercentRounding::DivideBy100ThenRound), Ok(3235.00));
    assert_eq!(calculate("1.234,56 + 2.000,44", 2, PercentRounding::DivideBy100ThenRound), Ok(3235.00));
    assert_eq!(calculate("1,000,000.00 + 500,000.00", 0, PercentRounding::DivideBy100ThenRound), Ok(1500000.0));
    assert_eq!(calculate("1.000.000,50 + 500.000,25", 2, PercentRounding::DivideBy100ThenRound), Ok(1500000.75));
}

#[test]
fn test_thousand_separators_edge_cases() {
    assert_eq!(calculate("123,45 + 100", 2, PercentRounding::DivideBy100ThenRound), Ok(223.45));
    assert_eq!(calculate("123.45 + 100", 2, PercentRounding::DivideBy100ThenRound), Ok(223.45));
    assert_eq!(calculate("(1,234.56 + 2,000.44) / 2", 2, PercentRounding::DivideBy100ThenRound), Ok(1617.50));
}

#[test]
fn test_thousand_separators_with_percentage() {
    assert_eq!(calculate("100% + 50%", 2, PercentRounding::DivideBy100ThenRound), Ok(1.50));
    assert_eq!(calculate("1,234.56% / 100", 4, PercentRounding::DivideBy100ThenRound), Ok(0.1235));
}

#[test]
fn test_mixed_number_formats() {
    assert_eq!(calculate("1,234.56 + 1.000,44", 2, PercentRounding::DivideBy100ThenRound), Ok(2235.00));
    assert_eq!(calculate("1,234.56 + 100", 2, PercentRounding::DivideBy100ThenRound), Ok(1334.56));
    assert_eq!(calculate("1.234,56 + 100", 2, PercentRounding::DivideBy100ThenRound), Ok(1334.56));
    assert_eq!(calculate("(1,234.56 + 1.000,44) * 0.5", 2, PercentRounding::DivideBy100ThenRound), Ok(1117.50));
    assert_eq!(calculate("1,234.56 + 10% * 1.000,00", 2, PercentRounding::DivideBy100ThenRound), Ok(1334.56));
}

#[test]
fn test_batch_validation_logic() {
    let expressions = vec![
        "1 + 2|3".to_string(),
        "2 * 3|6".to_string(),
        "10 / 2|5".to_string(),
    ];

    for expr in &expressions {
        let parts: Vec<&str> = expr.split('|').collect();
        let expression = parts[0];
        let expected: f64 = parts[1].parse().unwrap();
        assert!(validate(expression, expected, 0, PercentRounding::DivideBy100ThenRound));
    }

    let expressions_with_decimals = vec![
        "1.234 + 2.567|3.80|2".to_string(),
        "50.126%|0.50|2".to_string(),
    ];

    for expr in &expressions_with_decimals {
        let parts: Vec<&str> = expr.split('|').collect();
        let expression = parts[0];
        let expected: f64 = parts[1].parse().unwrap();
        let decimals: u32 = parts[2].parse().unwrap();
        assert!(validate(expression, expected, decimals, PercentRounding::DivideBy100ThenRound));
    }
}

#[test]
fn test_expected_value_with_percentage() {
    assert!(validate("50%", 0.5, 2, PercentRounding::DivideBy100ThenRound));
    assert!(validate("50.126%", 0.5, 2, PercentRounding::DivideBy100ThenRound));
    assert!(validate("50.126%", 0.50, 2, PercentRounding::DivideBy100ThenRound));
    assert!(validate("50.126%", 0.50, 2, PercentRounding::RoundThenDivideBy100));
    assert!(validate("25% + 25%", 0.5, 2, PercentRounding::DivideBy100ThenRound));
}

#[test]
fn test_expected_value_with_thousand_separators() {
    assert!(validate("1000 + 234.56", 1234.56, 2, PercentRounding::DivideBy100ThenRound));
    assert!(validate("500000 + 500000", 1000000.0, 0, PercentRounding::DivideBy100ThenRound));
    assert!(validate("100 - 200", -100.0, 0, PercentRounding::DivideBy100ThenRound));
}

#[test]
fn test_mixed_expected_formats() {
    assert!(validate("1% * 100", 1.0, 2, PercentRounding::DivideBy100ThenRound));
    let result = calculate("0.5 * 100", 0, PercentRounding::DivideBy100ThenRound).unwrap();
    assert_eq!(result, 100.0);
    assert!(validate("0.5 * 100", 50.0, 1, PercentRounding::DivideBy100ThenRound));
    assert!(validate("1,000.00 / 10", 100.0, 2, PercentRounding::DivideBy100ThenRound));
    assert!(validate("50 * 2", 100.0, 0, PercentRounding::DivideBy100ThenRound));
}
