use acc_calc_mcp::arith::Request;
use acc_calc_mcp::calculator;
use acc_calc_mcp::token::{CalcError, Operator, PercentRounding};

fn parse_number(text: &str) -> Option<u64> {
    text.parse::<f64>().ok().map(f64::to_bits)
}

fn compute(request: Request) -> u64 {
    let value = match request {
        Request::PowerOfTen(exponent) => 10f64.powi(exponent as i32),
        Request::Round(value) => f64::from_bits(value).round(),
        Request::Binary(operator, lhs, rhs) => {
            let lhs = f64::from_bits(lhs);
            let rhs = f64::from_bits(rhs);
            match operator {
                Operator::Add => lhs + rhs,
                Operator::Subtract => lhs - rhs,
                Operator::Multiply => lhs * rhs,
                Operator::Divide => lhs / rhs,
            }
        }
    };
    value.to_bits()
}

fn calculate(expr: &str, decimals: u32, strategy: PercentRounding) -> Result<f64, CalcError> {
    calculator::calculate(expr, decimals, strategy, &parse_number, &compute).map(f64::from_bits)
}

fn validate(expr: &str, expected: f64, decimals: u32, strategy: PercentRounding) -> bool {
    calculator::validate(expr, expected.to_bits(), decimals, strategy, &parse_number, &compute)
}

const DIVIDE_FIRST: PercentRounding = PercentRounding::DivideBy100ThenRound;
const ROUND_FIRST: PercentRounding = PercentRounding::RoundThenDivideBy100;

#[test]
fn the_same_calculation_always_has_the_same_outcome() {
    let expressions = [
        "1 + 2 * 3",
        "(1,234.56 + 1.000,44) * 0.5",
        "50.126% + 25%",
        "-5 * -3",
        "5 / 0",
        "(1 + 2",
        "1 & 2",
        "1 +",
        "",
    ];
    for expr in expressions {
        for decimals in [0, 2, 5] {
            for policy in [DIVIDE_FIRST, ROUND_FIRST] {
                let first = calculator::calculate(expr, decimals, policy, &parse_number, &compute);
                let second = calculator::calculate(expr, decimals, policy, &parse_number, &compute);
                assert_eq!(first, second, "{}", expr);
            }
        }
    }
}

#[test]
fn operators_bind_by_precedence() {
    assert_eq!(calculate("1 + 2 * 3", 0, DIVIDE_FIRST), Ok(7.0));
    assert_eq!(calculate("(1 + 2) * 3", 0, DIVIDE_FIRST), Ok(9.0));
    assert_eq!(calculate("1 + 2 * 3", 0, ROUND_FIRST), Ok(7.0));
    assert_eq!(calculate("(1 + 2) * 3", 0, ROUND_FIRST), Ok(9.0));
    assert_eq!(calculate("10 - 4 - 3", 0, DIVIDE_FIRST), Ok(3.0));
    assert_eq!(calculate("24 / 4 / 2", 0, DIVIDE_FIRST), Ok(3.0));
    assert_eq!(calculate("2 + 3 * 4 - 6 / 2", 0, DIVIDE_FIRST), Ok(11.0));
    assert_eq!(calculate("2 * (3 + 4) * (5 - 1)", 0, DIVIDE_FIRST), Ok(56.0));
}

#[test]
fn literals_are_rounded_before_they_are_used() {
    assert_eq!(calculate("1.235 + 2.564", 2, DIVIDE_FIRST), Ok(3.80));
    assert_eq!(calculate("1.235 + 2.564", 2, ROUND_FIRST), Ok(3.80));
    assert_eq!(calculate("0.4 + 0.4", 0, DIVIDE_FIRST), Ok(0.0));
    assert_eq!(calculate("0.5 + 0.5", 0, DIVIDE_FIRST), Ok(2.0));
    assert_eq!(calculate("1.4 * 1.4", 0, DIVIDE_FIRST), Ok(1.0));
    assert_eq!(calculate("1 / 3", 3, DIVIDE_FIRST), Ok(0.333));
    assert_eq!(calculate("2 / 3", 3, DIVIDE_FIRST), Ok(0.667));
    assert_eq!(calculate("10 / 4", 0, DIVIDE_FIRST), Ok(3.0));
}

#[test]
fn the_two_percent_policies_agree_here_and_differ_there() {
    assert_eq!(calculate("50.126%", 2, DIVIDE_FIRST), Ok(0.50));
    assert_eq!(calculate("50.126%", 2, ROUND_FIRST), Ok(0.50));
    assert_eq!(calculate("49.5%", 0, DIVIDE_FIRST), Ok(0.0));
    assert_eq!(calculate("49.5%", 0, ROUND_FIRST), Ok(1.0));
    assert_eq!(calculate("50.126% * 100", 2, DIVIDE_FIRST), Ok(50.0));
    assert_eq!(calculate("50.126% * 100", 2, ROUND_FIRST), Ok(50.13));
    assert_ne!(
        calculate("50.126% * 100", 2, DIVIDE_FIRST),
        calculate("50.126% * 100", 2, ROUND_FIRST)
    );
}

#[test]
fn every_kind_of_error_has_its_input() {
    for policy in [DIVIDE_FIRST, ROUND_FIRST] {
        assert_eq!(calculate("5 / 0", 0, policy), Err(CalcError::DivisionByZero));
        assert_eq!(calculate("(1 + 2", 0, policy), Err(CalcError::MismatchedParens));
        assert_eq!(calculate("1 + + 2", 0, policy), Err(CalcError::InvalidExpression));
        assert_eq!(calculate("1 +", 0, policy), Err(CalcError::InvalidExpression));
        assert_eq!(calculate("1 & 2", 0, policy), Err(CalcError::InvalidCharacter('&')));
        assert_eq!(calculate("", 0, policy), Err(CalcError::InvalidExpression));
        assert_eq!(calculate("()", 0, policy), Err(CalcError::InvalidExpression));
        assert_eq!(calculate("1 2)", 0, policy), Err(CalcError::MismatchedParens));
    }
}

#[test]
fn errors_come_in_the_order_of_reading_reordering_and_evaluating() {
    assert_eq!(calculate("(1 / 0 &", 0, DIVIDE_FIRST), Err(CalcError::InvalidCharacter('&')));
    assert_eq!(calculate("(1 / 0", 0, DIVIDE_FIRST), Err(CalcError::MismatchedParens));
    assert_eq!(calculate("1 / 0 +", 0, DIVIDE_FIRST), Err(CalcError::DivisionByZero));
    assert_eq!(calculate("+ 1 / 0", 0, DIVIDE_FIRST), Err(CalcError::DivisionByZero));
    assert_eq!(calculate("* 1 / 0", 0, DIVIDE_FIRST), Err(CalcError::InvalidExpression));
}

#[test]
fn a_divisor_that_rounds_to_zero_is_zero() {
    assert_eq!(calculate("1 / 0.004", 2, DIVIDE_FIRST), Err(CalcError::DivisionByZero));
    assert_eq!(calculate("1 / 0.004", 3, DIVIDE_FIRST), Ok(250.0));
    assert_eq!(calculate("1 / 0.4%", 2, DIVIDE_FIRST), Err(CalcError::DivisionByZero));
    assert_eq!(calculate("1 / 0.4%", 2, ROUND_FIRST), Ok(250.0));
    assert_eq!(calculate("1 / (0.5 - 0.5)", 1, DIVIDE_FIRST), Err(CalcError::DivisionByZero));
}

#[test]
fn a_validation_never_fails_with_an_error() {
    let failing = ["5 / 0", "(1 + 2", "1 + + 2", "1 +", "1 & 2", "", "-", "1 / (2 - 2)"];
    for expr in failing {
        for policy in [DIVIDE_FIRST, ROUND_FIRST] {
            assert!(calculate(expr, 2, policy).is_err());
            for expected in [0.0, 1.0, -1.0, f64::NAN, f64::INFINITY] {
                assert!(!validate(expr, expected, 2, policy), "{}", expr);
            }
        }
    }
}

#[test]
fn a_validation_passes_within_the_tolerance_only() {
    assert!(validate("1 + 2", 3.0, 0, DIVIDE_FIRST));
    assert!(validate("1 + 2", 3.0 + 9e-10, 0, DIVIDE_FIRST));
    assert!(validate("1 + 2", 3.0 - 9e-10, 0, DIVIDE_FIRST));
    assert!(!validate("1 + 2", 3.0 + 1.1e-9, 0, DIVIDE_FIRST));
    assert!(!validate("1 + 2", 3.0 - 1.1e-9, 0, DIVIDE_FIRST));
    assert!(!validate("1 + 2", f64::NAN, 0, DIVIDE_FIRST));
    assert!(!validate("1 + 2", f64::INFINITY, 0, DIVIDE_FIRST));
    assert!(validate("0.1 + 0.2", 0.3, 1, ROUND_FIRST));
}
