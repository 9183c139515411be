//! What the engine computes, said in terms of expression trees: a
//! well-formed infix expression has the value of its tree, with `*` and `/`
//! binding tighter than `+` and `-`, and equal operators grouping from the
//! left.

use crate::arith::{negligible, Arithmetic, Request};
use crate::eval::{operator_of, run};
use crate::shunting::{feed, feed_all, pop_while, postfix, precedence_of, yard, Yard};
use crate::calculator::calculation;
use crate::token::{CalcError, Operator, PercentRounding, Token};
use crate::tokenizer::tokens_of;
use vstd::prelude::*;

verus! {

/// An expression as a tree.
pub enum Expr {
    /// A literal.
    Number(u64),
    /// An expression in parentheses.
    Group(Box<Expr>),
    /// An operator between two expressions.
    Binary(Operator, Box<Expr>, Box<Expr>),
}

/// The token of an operator.
pub open spec fn token_of(operator: Operator) -> Token {
    match operator {
        Operator::Add => Token::Add,
        Operator::Subtract => Token::Subtract,
        Operator::Multiply => Token::Multiply,
        Operator::Divide => Token::Divide,
    }
}

/// How tightly the outermost operator of `e` binds; a literal and a group
/// bind tighter than any operator.
pub open spec fn level(e: Expr) -> nat {
    match e {
        Expr::Number(_) => 3,
        Expr::Group(_) => 3,
        Expr::Binary(operator, _, _) => precedence_of(token_of(operator)),
    }
}

/// Whether `e` can be written without more parentheses than it has groups:
/// the left operand of an operator binds at least as tightly as the
/// operator, and the right operand binds tighter.
pub open spec fn well_formed(e: Expr) -> bool
    decreases e,
{
    match e {
        Expr::Number(_) => true,
        Expr::Group(inner) => well_formed(*inner),
        Expr::Binary(operator, lhs, rhs) => {
            &&& well_formed(*lhs)
            &&& well_formed(*rhs)
            &&& level(*lhs) >= precedence_of(token_of(operator))
            &&& level(*rhs) > precedence_of(token_of(operator))
        },
    }
}

/// The tokens of `e` as it is written.
pub open spec fn infix(e: Expr) -> Seq<Token>
    decreases e,
{
    match e {
        Expr::Number(value) => seq![Token::Number(value)],
        Expr::Group(inner) => seq![Token::LeftParen] + infix(*inner) + seq![Token::RightParen],
        Expr::Binary(operator, lhs, rhs) => infix(*lhs) + seq![token_of(operator)] + infix(*rhs),
    }
}

/// The tokens of `e` in postfix order: both operands, then the operator.
pub open spec fn post_order(e: Expr) -> Seq<Token>
    decreases e,
{
    match e {
        Expr::Number(value) => seq![Token::Number(value)],
        Expr::Group(inner) => post_order(*inner),
        Expr::Binary(operator, lhs, rhs) => post_order(*lhs) + post_order(*rhs) + seq![
            token_of(operator),
        ],
    }
}

/// The value of `e`: its operands are evaluated from left to right, and the
/// first error among them is the error of `e`; a division by a negligible
/// divisor is a division by zero.
pub open spec fn value(arith: Arithmetic, e: Expr) -> Result<u64, CalcError>
    decreases e,
{
    match e {
        Expr::Number(v) => Ok(v),
        Expr::Group(inner) => value(arith, *inner),
        Expr::Binary(operator, lhs, rhs) => match value(arith, *lhs) {
            Ok(a) => match value(arith, *rhs) {
                Ok(b) => if operator == Operator::Divide && negligible(b) {
                    Err(CalcError::DivisionByZero)
                } else {
                    Ok((arith.compute)(Request::Binary(operator, a, b)))
                },
                Err(e) => Err(e),
            },
            Err(e) => Err(e),
        },
    }
}

/// Evaluating the postfix form of `e` in front of further tokens puts the
/// value of `e` on the stack and goes on with those tokens, or ends in the
/// error of `e`.
pub proof fn lemma_run_post_order(arith: Arithmetic, stack: Seq<u64>, e: Expr, rest: Seq<Token>)
    ensures
        run(arith, stack, post_order(e) + rest) == match value(arith, e) {
            Ok(v) => run(arith, stack.push(v), rest),
            Err(x) => Err(x),
        },
    decreases e,
{
    match e {
        Expr::Number(v) => {
            let all = post_order(e) + rest;
            assert(all.first() == Token::Number(v));
            assert(all.drop_first() == rest);
        },
        Expr::Group(inner) => {
            lemma_run_post_order(arith, stack, *inner, rest);
        },
        Expr::Binary(operator, lhs, rhs) => {
            let token = token_of(operator);
            let after_lhs = post_order(*rhs) + seq![token] + rest;
            let after_rhs = seq![token] + rest;
            assert(post_order(e) + rest == post_order(*lhs) + after_lhs);
            assert(after_lhs == post_order(*rhs) + after_rhs);
            lemma_run_post_order(arith, stack, *lhs, after_lhs);
            if let Ok(a) = value(arith, *lhs) {
                lemma_run_post_order(arith, stack.push(a), *rhs, after_rhs);
                if let Ok(b) = value(arith, *rhs) {
                    let full = stack.push(a).push(b);
                    assert(after_rhs.first() == token);
                    assert(after_rhs.drop_first() == rest);
                    assert(operator_of(token) == Some(operator));
                    assert(full.take(full.len() - 2) == stack);
                }
            }
        },
    }
}

/// The postfix form of an expression evaluates to the value of the
/// expression.
pub proof fn lemma_post_order_has_the_value(arith: Arithmetic, e: Expr)
    ensures
        run(arith, Seq::empty(), post_order(e)) == value(arith, e),
{
    lemma_run_post_order(arith, Seq::empty(), e, Seq::empty());
    assert(post_order(e) + Seq::<Token>::empty() == post_order(e));
    if let Ok(v) = value(arith, e) {
        assert(Seq::<u64>::empty().push(v).len() == 1);
    }
}

/// The operators that the converter still holds once it has read `e`, the
/// latest last.
pub open spec fn pending(e: Expr) -> Seq<Token>
    decreases e,
{
    match e {
        Expr::Number(_) => Seq::empty(),
        Expr::Group(_) => Seq::empty(),
        Expr::Binary(operator, _, rhs) => seq![token_of(operator)] + pending(*rhs),
    }
}

/// What the converter has put out once it has read `e`.
pub open spec fn emitted(e: Expr) -> Seq<Token>
    decreases e,
{
    match e {
        Expr::Number(value) => seq![Token::Number(value)],
        Expr::Group(inner) => post_order(*inner),
        Expr::Binary(_, lhs, rhs) => post_order(*lhs) + emitted(*rhs),
    }
}

/// What the converter has put out and what it still holds make up the
/// postfix form.
pub proof fn lemma_emitted_and_pending(e: Expr)
    ensures
        emitted(e) + pending(e).reverse() == post_order(e),
    decreases e,
{
    match e {
        Expr::Number(_) => {
            assert(pending(e).reverse() == Seq::<Token>::empty());
            assert(emitted(e) + Seq::<Token>::empty() == emitted(e));
        },
        Expr::Group(_) => {
            assert(pending(e).reverse() == Seq::<Token>::empty());
            assert(emitted(e) + Seq::<Token>::empty() == emitted(e));
        },
        Expr::Binary(operator, lhs, rhs) => {
            lemma_emitted_and_pending(*rhs);
            let token = token_of(operator);
            let tail = pending(*rhs);
            assert((seq![token] + tail).reverse() == tail.reverse() + seq![token]);
            assert(post_order(*lhs) + emitted(*rhs) + (tail.reverse() + seq![token]) == post_order(
                *lhs,
            ) + (emitted(*rhs) + tail.reverse()) + seq![token]);
        },
    }
}

/// The operators that the converter holds for a well-formed expression are
/// operators indeed, and bind at least as tightly as the expression.
pub proof fn lemma_pending_binds(e: Expr)
    requires
        well_formed(e),
    ensures
        forall|i: int|
            0 <= i < pending(e).len() ==> !(#[trigger] pending(e)[i] is LeftParen) && precedence_of(
                pending(e)[i],
            ) >= level(e),
    decreases e,
{
    match e {
        Expr::Binary(operator, _, rhs) => {
            lemma_pending_binds(*rhs);
            let tail = pending(*rhs);
            assert forall|i: int| 0 <= i < pending(e).len() implies !(
            #[trigger] pending(e)[i] is LeftParen) && precedence_of(pending(e)[i]) >= level(e) by {
                if i > 0 {
                    assert(pending(e)[i] == tail[i - 1]);
                }
            }
        },
        _ => {},
    }
}

/// Nothing on `stack` gives way to an operator of precedence `floor`: the
/// stack is empty, or its top is a left parenthesis or binds less tightly.
pub open spec fn holds_against(stack: Seq<Token>, floor: nat) -> bool {
    stack.len() == 0 || stack.last() is LeftParen || precedence_of(stack.last()) < floor
}

/// Operators on top of a stack that holds against `floor`, all binding at
/// least as tightly as `floor`, are popped to the output one and all, the
/// topmost first.
pub proof fn lemma_pop_all(output: Seq<Token>, stack: Seq<Token>, top: Seq<Token>, floor: nat)
    requires
        holds_against(stack, floor),
        forall|i: int|
            0 <= i < top.len() ==> !(#[trigger] top[i] is LeftParen) && precedence_of(top[i])
                >= floor,
    ensures
        pop_while(yard(output, stack + top), floor) == yard(output + top.reverse(), stack),
    decreases top.len(),
{
    if top.len() == 0 {
        assert(stack + top == stack);
        assert(output + top.reverse() == output);
    } else {
        let last = top.last();
        let front = top.drop_last();
        assert((stack + top).last() == last);
        assert((stack + top).drop_last() == stack + front);
        assert forall|i: int| 0 <= i < front.len() implies !(#[trigger] front[i] is LeftParen)
            && precedence_of(front[i]) >= floor by {
            assert(front[i] == top[i]);
        }
        lemma_pop_all(output.push(last), stack, front, floor);
        assert(top.reverse() == seq![last] + front.reverse());
        assert(output.push(last) + front.reverse() == output + top.reverse());
    }
}

/// Feeding a sequence of tokens is feeding its parts one after the other.
pub proof fn lemma_feed_all_add(from: Yard, first: Seq<Token>, second: Seq<Token>)
    ensures
        feed_all(from, first + second) == match feed_all(from, first) {
            Ok(next) => feed_all(next, second),
            Err(e) => Err(e),
        },
    decreases first.len(),
{
    if first.len() == 0 {
        assert(first + second == second);
    } else {
        assert((first + second).first() == first.first());
        assert((first + second).drop_first() == first.drop_first() + second);
        if let Ok(next) = feed(from, first.first()) {
            lemma_feed_all_add(next, first.drop_first(), second);
        }
    }
}

/// Feeding one token.
proof fn lemma_feed_one(from: Yard, token: Token)
    ensures
        feed_all(from, seq![token]) == feed(from, token),
{
    let one = seq![token];
    assert(one.first() == token);
    assert(one.drop_first().len() == 0);
    if let Ok(next) = feed(from, token) {
        assert(feed_all(next, one.drop_first()) == Ok::<Yard, CalcError>(next));
    }
}

/// Reading a well-formed expression, from a stack on which nothing gives way
/// to its operators, puts out `emitted` and leaves `pending` on the stack.
pub proof fn lemma_feed_expression(output: Seq<Token>, stack: Seq<Token>, e: Expr)
    requires
        well_formed(e),
        holds_against(stack, level(e)),
    ensures
        feed_all(yard(output, stack), infix(e)) == Ok::<Yard, CalcError>(
            yard(output + emitted(e), stack + pending(e)),
        ),
    decreases e,
{
    let start = yard(output, stack);
    match e {
        Expr::Number(v) => {
            lemma_feed_one(start, Token::Number(v));
            assert(output.push(Token::Number(v)) == output + emitted(e));
            assert(stack + pending(e) == stack);
        },
        Expr::Group(inner) => {
            let open = seq![Token::LeftParen];
            let close = seq![Token::RightParen];
            let inside = yard(output, stack.push(Token::LeftParen));
            lemma_feed_all_add(start, open + infix(*inner), close);
            lemma_feed_all_add(start, open, infix(*inner));
            lemma_feed_one(start, Token::LeftParen);
            lemma_feed_expression(output, stack.push(Token::LeftParen), *inner);
            let read = yard(
                output + emitted(*inner),
                stack.push(Token::LeftParen) + pending(*inner),
            );
            assert(feed_all(start, open + infix(*inner)) == Ok::<Yard, CalcError>(read));
            lemma_feed_one(read, Token::RightParen);
            lemma_pending_binds(*inner);
            lemma_pop_all(
                output + emitted(*inner),
                stack.push(Token::LeftParen),
                pending(*inner),
                0,
            );
            lemma_emitted_and_pending(*inner);
            assert(output + emitted(*inner) + pending(*inner).reverse() == output + post_order(
                *inner,
            ));
            assert(stack.push(Token::LeftParen).drop_last() == stack);
            assert(stack + pending(e) == stack);
        },
        Expr::Binary(operator, lhs, rhs) => {
            let token = token_of(operator);
            let floor = precedence_of(token);
            lemma_feed_all_add(start, infix(*lhs) + seq![token], infix(*rhs));
            lemma_feed_all_add(start, infix(*lhs), seq![token]);
            lemma_feed_expression(output, stack, *lhs);
            let read = yard(output + emitted(*lhs), stack + pending(*lhs));
            lemma_feed_one(read, token);
            lemma_pending_binds(*lhs);
            lemma_pop_all(output + emitted(*lhs), stack, pending(*lhs), floor);
            lemma_emitted_and_pending(*lhs);
            assert(output + emitted(*lhs) + pending(*lhs).reverse() == output + post_order(*lhs));
            let pushed = yard(output + post_order(*lhs), stack.push(token));
            assert(feed(read, token) == Ok::<Yard, CalcError>(pushed));
            lemma_feed_expression(output + post_order(*lhs), stack.push(token), *rhs);
            assert(output + post_order(*lhs) + emitted(*rhs) == output + emitted(e));
            assert(stack.push(token) + pending(*rhs) == stack + pending(e));
        },
    }
}

/// The converter turns a well-formed expression into its postfix form.
pub proof fn lemma_postfix_of_well_formed(e: Expr)
    requires
        well_formed(e),
    ensures
        postfix(infix(e)) == Ok::<Seq<Token>, CalcError>(post_order(e)),
{
    let nothing = Seq::<Token>::empty();
    lemma_feed_expression(nothing, nothing, e);
    lemma_pending_binds(e);
    lemma_pop_all(nothing + emitted(e), nothing, pending(e), 0);
    lemma_emitted_and_pending(e);
    assert(nothing + emitted(e) == emitted(e));
    assert(nothing + pending(e) == pending(e));
}

/// The value of a sequence of tokens: that of its postfix form.
pub open spec fn evaluation(arith: Arithmetic, tokens: Seq<Token>) -> Result<u64, CalcError> {
    match postfix(tokens) {
        Ok(rpn) => run(arith, Seq::empty(), rpn),
        Err(e) => Err(e),
    }
}

/// Converting and evaluating a well-formed expression yields the value of
/// its tree: operators of higher precedence are applied first, operators of
/// equal precedence from left to right, and parentheses override both.
pub proof fn lemma_well_formed_has_the_value(arith: Arithmetic, e: Expr)
    requires
        well_formed(e),
    ensures
        evaluation(arith, infix(e)) == value(arith, e),
{
    lemma_postfix_of_well_formed(e);
    lemma_post_order_has_the_value(arith, e);
}

/// An expression whose tokens are those of a well-formed tree has the value
/// of that tree, rounded once more; and it fails exactly as the tree does.
pub proof fn lemma_calculation_of_well_formed(
    arith: Arithmetic,
    expr: Seq<char>,
    decimals: u32,
    policy: PercentRounding,
    e: Expr,
)
    requires
        well_formed(e),
        tokens_of(arith, expr, decimals, policy) == Ok::<Seq<Token>, CalcError>(infix(e)),
    ensures
        calculation(arith, expr, decimals, policy) == match value(arith, e) {
            Ok(v) => Ok(arith.rounded(v, decimals)),
            Err(x) => Err(x),
        },
{
    lemma_well_formed_has_the_value(arith, e);
}

} // verus!
