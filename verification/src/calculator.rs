//! The two entry points of the engine: computing the value of an
//! expression, and checking it against an expected value.

use crate::arith::{is_negligible, negligible, round_value, Arithmetic, Request};
use crate::eval::{evaluate_rpn, lemma_run_errors, run};
use crate::normalize::plain_numeral;
use crate::shunting::{lemma_postfix, postfix, shunt_to_rpn};
use crate::token::{CalcError, Operator, PercentRounding};
use crate::tokenizer::{lemma_scan_errors, tokenize_and_round, tokens_of};
use vstd::prelude::*;

verus! {

/// The value of the expression `expr`, or the error that it ends in: the
/// tokens of the expression, with each literal scaled and rounded, are put
/// in postfix order and evaluated, and the result is rounded once more.
pub open spec fn calculation(
    arith: Arithmetic,
    expr: Seq<char>,
    decimals: u32,
    policy: PercentRounding,
) -> Result<u64, CalcError> {
    match tokens_of(arith, expr, decimals, policy) {
        Ok(tokens) => match postfix(tokens) {
            Ok(rpn) => match run(arith, Seq::empty(), rpn) {
                Ok(value) => Ok(arith.rounded(value, decimals)),
                Err(e) => Err(e),
            },
            Err(e) => Err(e),
        },
        Err(e) => Err(e),
    }
}

/// Whether the expression `expr` has the value `expected`: it has a value,
/// and the difference between the two is negligible.
pub open spec fn validation(
    arith: Arithmetic,
    expr: Seq<char>,
    expected: u64,
    decimals: u32,
    policy: PercentRounding,
) -> bool {
    match calculation(arith, expr, decimals, policy) {
        Ok(actual) => negligible(
            (arith.compute)(Request::Binary(Operator::Subtract, actual, expected)),
        ),
        Err(_) => false,
    }
}

/// Computes the value of an expression.
///
/// Every literal is rounded to `decimals` places before it is used, a
/// percentage as `rounding_strategy` says; the operations are carried out on
/// the rounded literals without further rounding, and the result is rounded
/// to `decimals` places at the end. The first error met while reading,
/// reordering and evaluating the expression, in this order, is returned.
pub fn calculate<P: Fn(&str) -> Option<u64>, C: Fn(Request) -> u64>(
    expr: &str,
    decimals: u32,
    rounding_strategy: PercentRounding,
    parse: &P,
    compute: &C,
) -> (r: Result<u64, CalcError>)
    requires
        forall|text: &str| plain_numeral(text@) ==> parse.requires((text,)),
        forall|request: Request| compute.requires((request,)),
    ensures
        forall|arith: Arithmetic| #[trigger]
            arith.models(parse, compute) ==> r == calculation(
                arith,
                expr@,
                decimals,
                rounding_strategy,
            ),
        match r {
            Ok(_) => true,
            Err(CalcError::InvalidCharacter(c)) => expr@.contains(c),
            Err(e) => e == CalcError::InvalidExpression || e == CalcError::MismatchedParens || e
                == CalcError::DivisionByZero,
        },
{
    let tokens = match tokenize_and_round(expr, decimals, rounding_strategy, parse, compute) {
        Ok(tokens) => tokens,
        Err(e) => {
            return Err(e);
        },
    };
    let rpn_queue = match shunt_to_rpn(tokens.as_slice()) {
        Ok(rpn_queue) => rpn_queue,
        Err(e) => {
            return Err(e);
        },
    };
    let result = match evaluate_rpn(rpn_queue.as_slice(), compute) {
        Ok(result) => result,
        Err(e) => {
            return Err(e);
        },
    };
    Ok(round_value(result, decimals, compute))
}

/// Checks the value of an expression against an expected value.
///
/// Returns `true` exactly where the expression has a value and the
/// difference between it and `expected` is below the tolerance of 1e-9. An
/// expression without a value is not an error here: the answer is `false`.
pub fn validate<P: Fn(&str) -> Option<u64>, C: Fn(Request) -> u64>(
    expr: &str,
    expected: u64,
    decimals: u32,
    rounding_strategy: PercentRounding,
    parse: &P,
    compute: &C,
) -> (r: bool)
    requires
        forall|text: &str| plain_numeral(text@) ==> parse.requires((text,)),
        forall|request: Request| compute.requires((request,)),
    ensures
        forall|arith: Arithmetic| #[trigger]
            arith.models(parse, compute) ==> r == validation(
                arith,
                expr@,
                expected,
                decimals,
                rounding_strategy,
            ),
        forall|arith: Arithmetic| #[trigger]
            arith.models(parse, compute) && calculation(
                arith,
                expr@,
                decimals,
                rounding_strategy,
            ) is Err ==> !r,
{
    match calculate(expr, decimals, rounding_strategy, parse, compute) {
        Ok(actual) => is_negligible(compute(Request::Binary(Operator::Subtract, actual, expected))),
        Err(_) => false,
    }
}

/// Every error of a calculation is one that the reading, the reordering or
/// the evaluation of the expression ends in. No calculation ends in
/// `UnexpectedEndOfExpression`: an expression that stops too early is an
/// invalid expression.
pub proof fn lemma_calculation_errors(
    arith: Arithmetic,
    expr: Seq<char>,
    decimals: u32,
    policy: PercentRounding,
)
    ensures
        match calculation(arith, expr, decimals, policy) {
            Ok(_) => true,
            Err(CalcError::InvalidCharacter(c)) => expr.contains(c),
            Err(e) => e == CalcError::InvalidExpression || e == CalcError::MismatchedParens || e
                == CalcError::DivisionByZero,
        },
{
    lemma_scan_errors(arith, expr, 0, true, decimals, policy);
    if let Ok(tokens) = tokens_of(arith, expr, decimals, policy) {
        lemma_postfix(tokens);
        if let Ok(rpn) = postfix(tokens) {
            lemma_run_errors(arith, Seq::empty(), rpn);
        }
    }
}

/// Calculating is deterministic: as long as the arithmetic that is handed in
/// is, so that some `Arithmetic` models it, any two results that `calculate`
/// returns for the same expression, number of decimals and policy are the
/// same, be they values or errors.
pub proof fn lemma_calculate_is_deterministic<P: Fn(&str) -> Option<u64>, C: Fn(Request) -> u64>(
    parse: &P,
    compute: &C,
    model: Arithmetic,
    expr: Seq<char>,
    decimals: u32,
    policy: PercentRounding,
    first: Result<u64, CalcError>,
    second: Result<u64, CalcError>,
)
    requires
        model.models(parse, compute),
        forall|arith: Arithmetic| #[trigger]
            arith.models(parse, compute) ==> first == calculation(arith, expr, decimals, policy),
        forall|arith: Arithmetic| #[trigger]
            arith.models(parse, compute) ==> second == calculation(arith, expr, decimals, policy),
    ensures
        first == second,
{
}

/// A validation never passes where the calculation fails, whatever the
/// expected value is.
pub proof fn lemma_failed_calculation_fails_validation(
    arith: Arithmetic,
    expr: Seq<char>,
    expected: u64,
    decimals: u32,
    policy: PercentRounding,
)
    requires
        calculation(arith, expr, decimals, policy) is Err,
    ensures
        !validation(arith, expr, expected, decimals, policy),
{
}

} // verus!
