//! The requests of the tools around the engine, and what they come to.

use crate::arith::{Arithmetic, Request};
use crate::calculator::{calculate, calculation, validate, validation};
use crate::error::{service_error_of, viewed, ServiceError, ServiceErrorView};
use crate::expected::{expected_value, parse_expected_value};
use crate::normalize::plain_numeral;
use crate::text::same_text;
use crate::token::PercentRounding;
use vstd::prelude::*;
use vstd::string::StringExecFns;

verus! {

/// The parameters of a calculation.
#[derive(Debug)]
pub struct CalculateTool {
    /// The expression to compute.
    pub expression: String,
    /// The number of decimals to round to, before and after computing.
    pub decimals: u32,
    /// The name of the rounding policy for percentages.
    pub percent_rounding: String,
}

/// The parameters of a validation.
#[derive(Debug)]
pub struct ValidateTool {
    /// The expression to compute.
    pub expression: String,
    /// The value that the expression should have, as a numeral or a
    /// percentage.
    pub expected: String,
    /// The number of decimals to round to.
    pub decimals: u32,
    /// The name of the rounding policy for percentages.
    pub percent_rounding: String,
}

/// The parameters of a batch of validations.
#[derive(Debug)]
pub struct BatchValidateTool {
    /// One line for each validation: `expression|expected` or
    /// `expression|expected|label`.
    pub expressions: Vec<String>,
    /// The number of decimals to round to.
    pub decimals: u32,
    /// The name of the rounding policy for percentages.
    pub percent_rounding: String,
}

/// The number of decimals of a batch that names none.
pub fn default_decimals() -> (r: u32)
    ensures
        r == 2,
{
    2
}

/// The name of the policy of a request that names none.
pub fn default_percent_rounding() -> (r: String)
    ensures
        r@ == "divide_by_100_then_round"@,
{
    "divide_by_100_then_round".to_owned()
}

/// The policy that goes by the name `name`.
pub open spec fn policy_named(name: Seq<char>) -> Option<PercentRounding> {
    if name == "divide_by_100_then_round"@ {
        Some(PercentRounding::DivideBy100ThenRound)
    } else if name == "round_then_divide_by_100"@ {
        Some(PercentRounding::RoundThenDivideBy100)
    } else {
        None
    }
}

/// The message for a policy name that is not known.
pub open spec fn unknown_policy_message(name: Seq<char>) -> Seq<char> {
    "无效的百分数处理策略: "@ + name
        + "，支持的策略：divide_by_100_then_round, round_then_divide_by_100"@
}

/// Finds the rounding policy that `strategy` names. Any other text than one
/// of the two names is an invalid expression, whose message quotes the text.
pub fn parse_percent_rounding(strategy: &str) -> (r: Result<PercentRounding, ServiceError>)
    ensures
        match r {
            Ok(policy) => policy_named(strategy@) == Some(policy),
            Err(e) => policy_named(strategy@) is None && e@ == ServiceErrorView::InvalidExpression(
                unknown_policy_message(strategy@),
            ),
        },
{
    if same_text(strategy, "divide_by_100_then_round") {
        Ok(PercentRounding::DivideBy100ThenRound)
    } else if same_text(strategy, "round_then_divide_by_100") {
        Ok(PercentRounding::RoundThenDivideBy100)
    } else {
        let mut message = "无效的百分数处理策略: ".to_owned();
        message.append(strategy);
        message.append("，支持的策略：divide_by_100_then_round, round_then_divide_by_100");
        Err(ServiceError::InvalidExpression(message))
    }
}

/// A request that names no policy gets the first one.
pub proof fn lemma_default_policy()
    ensures
        policy_named("divide_by_100_then_round"@) == Some(PercentRounding::DivideBy100ThenRound),
{
}

/// What a calculation request comes to: the value of its expression under
/// the policy that it names, or the error of either.
pub open spec fn calculate_outcome(
    arith: Arithmetic,
    expression: Seq<char>,
    decimals: u32,
    policy_name: Seq<char>,
) -> Result<u64, ServiceErrorView> {
    match policy_named(policy_name) {
        Some(policy) => match calculation(arith, expression, decimals, policy) {
            Ok(value) => Ok(value),
            Err(e) => Err(service_error_of(e)),
        },
        None => Err(ServiceErrorView::InvalidExpression(unknown_policy_message(policy_name))),
    }
}

impl CalculateTool {
    /// Computes the value of the request's expression.
    pub fn run_tool<P: Fn(&str) -> Option<u64>, C: Fn(Request) -> u64>(
        params: &Self,
        parse: &P,
        compute: &C,
    ) -> (r: Result<u64, ServiceError>)
        requires
            forall|text: &str| plain_numeral(text@) ==> parse.requires((text,)),
            forall|request: Request| compute.requires((request,)),
        ensures
            forall|arith: Arithmetic| #[trigger]
                arith.models(parse, compute) ==> viewed(r) == calculate_outcome(
                    arith,
                    params.expression@,
                    params.decimals,
                    params.percent_rounding@,
                ),
    {
        let strategy = match parse_percent_rounding(params.percent_rounding.as_str()) {
            Ok(strategy) => strategy,
            Err(e) => {
                return Err(e);
            },
        };
        match calculate(params.expression.as_str(), params.decimals, strategy, parse, compute) {
            Ok(value) => Ok(value),
            Err(e) => Err(ServiceError::from_calc_error(e)),
        }
    }
}

/// The answer to a validation request: the expected value as it was read,
/// and whether the expression has that value.
#[derive(Debug, PartialEq, Eq, Clone, Copy, Structural)]
pub struct Validation {
    pub expected: u64,
    pub valid: bool,
}

/// What a validation request comes to. An unknown policy and an expected
/// value that cannot be read are errors; an expression without a value is
/// not, and makes the validation fail.
pub open spec fn validate_outcome(
    arith: Arithmetic,
    expression: Seq<char>,
    expected: Seq<char>,
    decimals: u32,
    policy_name: Seq<char>,
) -> Result<Validation, ServiceErrorView> {
    match policy_named(policy_name) {
        Some(policy) => match expected_value(arith, expected, decimals, policy) {
            Ok(value) => Ok(
                Validation {
                    expected: value,
                    valid: validation(arith, expression, value, decimals, policy),
                },
            ),
            Err(e) => Err(e),
        },
        None => Err(ServiceErrorView::InvalidExpression(unknown_policy_message(policy_name))),
    }
}

impl ValidateTool {
    /// Checks the request's expression against its expected value.
    pub fn run_tool<P: Fn(&str) -> Option<u64>, C: Fn(Request) -> u64>(
        params: &Self,
        parse: &P,
        compute: &C,
    ) -> (r: Result<Validation, ServiceError>)
        requires
            forall|text: &str| parse.requires((text,)),
            forall|request: Request| compute.requires((request,)),
        ensures
            forall|arith: Arithmetic| #[trigger]
                arith.models(parse, compute) ==> viewed(r) == validate_outcome(
                    arith,
                    params.expression@,
                    params.expected@,
                    params.decimals,
                    params.percent_rounding@,
                ),
    {
        let strategy = match parse_percent_rounding(params.percent_rounding.as_str()) {
            Ok(strategy) => strategy,
            Err(e) => {
                return Err(e);
            },
        };
        let expected = match parse_expected_value(
            params.expected.as_str(),
            params.decimals,
            strategy,
            parse,
            compute,
        ) {
            Ok(expected) => expected,
            Err(e) => {
                return Err(e);
            },
        };
        let valid = validate(
            params.expression.as_str(),
            expected,
            params.decimals,
            strategy,
            parse,
            compute,
        );
        Ok(Validation { expected, valid })
    }
}

} // verus!
