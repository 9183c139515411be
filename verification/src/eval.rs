//! The postfix evaluator.

use crate::arith::{is_negligible, negligible, Arithmetic, Request};
use crate::shunting::paren;
use crate::token::{CalcError, Operator, Token};
use vstd::prelude::*;

verus! {

/// The operator that a token stands for.
pub open spec fn operator_of(token: Token) -> Option<Operator> {
    match token {
        Token::Add => Some(Operator::Add),
        Token::Subtract => Some(Operator::Subtract),
        Token::Multiply => Some(Operator::Multiply),
        Token::Divide => Some(Operator::Divide),
        _ => None,
    }
}

/// What an operator does to the operand stack `stack`, whose top is its
/// last element: it takes the two topmost operands, the top one as its
/// right-hand side, and leaves its result in their place. With fewer than
/// two operands the expression is invalid, and a division by a negligible
/// divisor is a division by zero.
pub open spec fn applied(arith: Arithmetic, stack: Seq<u64>, operator: Operator) -> Result<
    Seq<u64>,
    CalcError,
> {
    if stack.len() < 2 {
        Err(CalcError::InvalidExpression)
    } else {
        let rhs = stack[stack.len() - 1];
        let lhs = stack[stack.len() - 2];
        if operator == Operator::Divide && negligible(rhs) {
            Err(CalcError::DivisionByZero)
        } else {
            Ok(
                stack.take(stack.len() - 2).push(
                    (arith.compute)(Request::Binary(operator, lhs, rhs)),
                ),
            )
        }
    }
}

/// What a token of a postfix sequence does to the operand stack: a number is
/// pushed, and an operator is applied.
pub open spec fn step(arith: Arithmetic, stack: Seq<u64>, token: Token) -> Result<
    Seq<u64>,
    CalcError,
>
    recommends
        !paren(token),
{
    match token {
        Token::Number(value) => Ok(stack.push(value)),
        _ => applied(arith, stack, operator_of(token)->Some_0),
    }
}

/// What is left on the operand stack at the end must be the one result.
pub open spec fn result_of(stack: Seq<u64>) -> Result<u64, CalcError> {
    if stack.len() == 1 {
        Ok(stack[0])
    } else {
        Err(CalcError::InvalidExpression)
    }
}

/// The value of the postfix sequence `rpn`, evaluated on top of `stack`, or
/// the first error met.
pub open spec fn run(arith: Arithmetic, stack: Seq<u64>, rpn: Seq<Token>) -> Result<u64, CalcError>
    decreases rpn.len(),
{
    if rpn.len() == 0 {
        result_of(stack)
    } else {
        match step(arith, stack, rpn.first()) {
            Ok(next) => run(arith, next, rpn.drop_first()),
            Err(e) => Err(e),
        }
    }
}

/// Evaluating fails in two ways only: with an invalid expression and with
/// a division by zero.
pub proof fn lemma_run_errors(arith: Arithmetic, stack: Seq<u64>, rpn: Seq<Token>)
    ensures
        run(arith, stack, rpn) matches Err(e) ==> e == CalcError::InvalidExpression || e
            == CalcError::DivisionByZero,
    decreases rpn.len(),
{
    if rpn.len() > 0 {
        if let Ok(next) = step(arith, stack, rpn.first()) {
            lemma_run_errors(arith, next, rpn.drop_first());
        }
    }
}

/// Evaluates a postfix sequence.
///
/// Fails with `InvalidExpression` where an operator finds fewer than two
/// operands or the sequence leaves none or several values, and with
/// `DivisionByZero` where a divisor is negligible; the first failure in the
/// sequence is the one reported.
///
/// `compute` is only ever asked to apply an operator to two operands, and
/// never to divide by a negligible divisor.
pub fn evaluate_rpn<C: Fn(Request) -> u64>(rpn_queue: &[Token], compute: &C) -> (r: Result<
    u64,
    CalcError,
>)
    requires
        forall|i: int| 0 <= i < rpn_queue@.len() ==> !paren(#[trigger] rpn_queue@[i]),
        forall|operator: Operator, lhs: u64, rhs: u64|
            !(operator == Operator::Divide && negligible(rhs)) ==> compute.requires(
                (Request::Binary(operator, lhs, rhs),),
            ),
    ensures
        forall|arith: Arithmetic| #[trigger]
            arith.computes(compute) ==> r == run(arith, Seq::empty(), rpn_queue@),
        r matches Err(e) ==> e == CalcError::InvalidExpression || e == CalcError::DivisionByZero,
{
    let mut operand_stack: Vec<u64> = Vec::new();
    let mut i: usize = 0;
    assert(rpn_queue@.skip(0) == rpn_queue@);
    while i < rpn_queue.len()
        invariant
            i <= rpn_queue.len(),
            forall|k: int| 0 <= k < rpn_queue@.len() ==> !paren(#[trigger] rpn_queue@[k]),
            forall|operator: Operator, lhs: u64, rhs: u64|
                !(operator == Operator::Divide && negligible(rhs)) ==> compute.requires(
                    (Request::Binary(operator, lhs, rhs),),
                ),
            forall|arith: Arithmetic| #[trigger]
                arith.computes(compute) ==> run(arith, Seq::empty(), rpn_queue@) == run(
                    arith,
                    operand_stack@,
                    rpn_queue@.skip(i as int),
                ),
        decreases rpn_queue.len() - i,
    {
        let token = rpn_queue[i];
        assert(rpn_queue@.skip(i as int).drop_first() == rpn_queue@.skip(i + 1));
        assert(rpn_queue@.skip(i as int).first() == token);
        assert(!paren(rpn_queue@[i as int]));
        let operator = match token {
            Token::Number(n) => {
                operand_stack.push(n);
                i += 1;
                continue ;
            },
            Token::Add => Operator::Add,
            Token::Subtract => Operator::Subtract,
            Token::Multiply => Operator::Multiply,
            _ => Operator::Divide,
        };
        let n = operand_stack.len();
        if n < 2 {
            return Err(CalcError::InvalidExpression);
        }
        let rhs = operand_stack[n - 1];
        let lhs = operand_stack[n - 2];
        if matches!(operator, Operator::Divide) && is_negligible(rhs) {
            return Err(CalcError::DivisionByZero);
        }
        let result = compute(Request::Binary(operator, lhs, rhs));
        operand_stack.truncate(n - 2);
        operand_stack.push(result);
        i += 1;
    }
    if operand_stack.len() == 1 {
        Ok(operand_stack[0])
    } else {
        Err(CalcError::InvalidExpression)
    }
}

} // verus!
