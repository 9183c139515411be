//! The infix-to-postfix converter: the shunting-yard algorithm.

use crate::token::{CalcError, Token};
use vstd::prelude::*;

verus! {

/// How tightly an operator binds: 1 for `+` and `-`, 2 for `*` and `/`, and
/// 0 for every other token.
pub open spec fn precedence_of(token: Token) -> nat {
    match token {
        Token::Add | Token::Subtract => 1,
        Token::Multiply | Token::Divide => 2,
        _ => 0,
    }
}

/// How tightly an operator binds.
pub fn precedence(token: &Token) -> (r: u8)
    ensures
        r == precedence_of(*token),
{
    match token {
        Token::Add | Token::Subtract => 1,
        Token::Multiply | Token::Divide => 2,
        _ => 0,
    }
}

/// The converter between two tokens: what it has put out so far, and the
/// operators and left parentheses it still holds, the latest last.
pub struct Yard {
    pub output: Seq<Token>,
    pub stack: Seq<Token>,
}

/// The converter that has put out `output` and holds `stack`.
pub open spec fn yard(output: Seq<Token>, stack: Seq<Token>) -> Yard {
    Yard { output, stack }
}

/// The converter before the first token.
pub open spec fn empty_yard() -> Yard {
    yard(Seq::empty(), Seq::empty())
}

/// Moves tokens from the top of the stack to the output for as long as the
/// top is no left parenthesis and binds at least as tightly as `floor`.
pub open spec fn pop_while(yard: Yard, floor: nat) -> Yard
    decreases yard.stack.len(),
{
    if yard.stack.len() > 0 && !(yard.stack.last() is LeftParen) && precedence_of(
        yard.stack.last(),
    ) >= floor {
        pop_while(
            Yard { output: yard.output.push(yard.stack.last()), stack: yard.stack.drop_last() },
            floor,
        )
    } else {
        yard
    }
}

/// The converter after one more token.
///
/// A number goes straight to the output and a left parenthesis onto the
/// stack. A right parenthesis moves everything above the nearest left
/// parenthesis to the output and discards that parenthesis; without one the
/// parentheses do not match. An operator first moves out the operators above
/// the nearest left parenthesis that bind at least as tightly as it does,
/// which makes operators of equal precedence associate to the left, and then
/// goes onto the stack.
pub open spec fn feed(yard: Yard, token: Token) -> Result<Yard, CalcError> {
    match token {
        Token::Number(_) => Ok(Yard { output: yard.output.push(token), stack: yard.stack }),
        Token::LeftParen => Ok(Yard { output: yard.output, stack: yard.stack.push(token) }),
        Token::RightParen => {
            let popped = pop_while(yard, 0);
            if popped.stack.len() == 0 {
                Err(CalcError::MismatchedParens)
            } else {
                Ok(Yard { output: popped.output, stack: popped.stack.drop_last() })
            }
        },
        _ => {
            let popped = pop_while(yard, precedence_of(token));
            Ok(Yard { output: popped.output, stack: popped.stack.push(token) })
        },
    }
}

/// The converter after all of `tokens`, or the first error.
pub open spec fn feed_all(yard: Yard, tokens: Seq<Token>) -> Result<Yard, CalcError>
    decreases tokens.len(),
{
    if tokens.len() == 0 {
        Ok(yard)
    } else {
        match feed(yard, tokens.first()) {
            Ok(next) => feed_all(next, tokens.drop_first()),
            Err(e) => Err(e),
        }
    }
}

/// The output once the input has ended: whatever the stack still holds is
/// moved out, and a left parenthesis among it has no partner.
pub open spec fn finish(yard: Yard) -> Result<Seq<Token>, CalcError> {
    let popped = pop_while(yard, 0);
    if popped.stack.len() == 0 {
        Ok(popped.output)
    } else {
        Err(CalcError::MismatchedParens)
    }
}

/// The postfix form of `tokens`, or `MismatchedParens`.
pub open spec fn postfix(tokens: Seq<Token>) -> Result<Seq<Token>, CalcError> {
    match feed_all(empty_yard(), tokens) {
        Ok(yard) => finish(yard),
        Err(e) => Err(e),
    }
}

/// Whether the parentheses among `tokens` match, given that `depth` left
/// parentheses are open before the first token: none is closed that was not
/// opened, and none is left open at the end.
pub open spec fn nested(tokens: Seq<Token>, depth: nat) -> bool
    decreases tokens.len(),
{
    if tokens.len() == 0 {
        depth == 0
    } else {
        match tokens.first() {
            Token::LeftParen => nested(tokens.drop_first(), depth + 1),
            Token::RightParen => depth > 0 && nested(tokens.drop_first(), (depth - 1) as nat),
            _ => nested(tokens.drop_first(), depth),
        }
    }
}

/// Whether the parentheses among `tokens` match.
pub open spec fn balanced(tokens: Seq<Token>) -> bool {
    nested(tokens, 0)
}

/// The number of left parentheses on a stack.
pub open spec fn open_parens(stack: Seq<Token>) -> nat
    decreases stack.len(),
{
    if stack.len() == 0 {
        0
    } else {
        open_parens(stack.drop_last()) + if stack.last() is LeftParen {
            1nat
        } else {
            0nat
        }
    }
}

/// Whether `token` is a parenthesis.
pub open spec fn paren(token: Token) -> bool {
    token is LeftParen || token is RightParen
}

/// What holds of the converter at every moment: the output holds no
/// parenthesis, and the stack no right one.
pub open spec fn tidy(yard: Yard) -> bool {
    &&& forall|i: int| 0 <= i < yard.output.len() ==> !paren(#[trigger] yard.output[i])
    &&& forall|i: int| 0 <= i < yard.stack.len() ==> !(#[trigger] yard.stack[i] is RightParen)
}

/// Popping moves no left parenthesis: as many stay on the stack as were
/// there, the converter stays tidy, and popping down to precedence 0 stops
/// only at a left parenthesis or at the bottom.
pub proof fn lemma_pop_while(yard: Yard, floor: nat)
    ensures
        open_parens(pop_while(yard, floor).stack) == open_parens(yard.stack),
        tidy(yard) ==> tidy(pop_while(yard, floor)),
        floor == 0 ==> (pop_while(yard, floor).stack.len() == 0 <==> open_parens(yard.stack) == 0),
        floor == 0 && pop_while(yard, floor).stack.len() > 0 ==> pop_while(
            yard,
            floor,
        ).stack.last() is LeftParen,
    decreases yard.stack.len(),
{
    if yard.stack.len() > 0 && !(yard.stack.last() is LeftParen) && precedence_of(
        yard.stack.last(),
    ) >= floor {
        let next = Yard {
            output: yard.output.push(yard.stack.last()),
            stack: yard.stack.drop_last(),
        };
        lemma_pop_while(next, floor);
        if tidy(yard) {
            assert forall|i: int| 0 <= i < next.stack.len() implies !(
            #[trigger] next.stack[i] is RightParen) by {
                assert(next.stack[i] == yard.stack[i]);
            }
            assert forall|i: int| 0 <= i < next.output.len() implies !paren(
                #[trigger] next.output[i],
            ) by {
                if i < yard.output.len() {
                    assert(next.output[i] == yard.output[i]);
                } else {
                    assert(next.output[i] == yard.stack[yard.stack.len() - 1]);
                }
            }
        }
    }
}

/// One more token keeps the converter tidy, and changes the number of left
/// parentheses on the stack as the token says.
pub proof fn lemma_feed(yard: Yard, token: Token)
    ensures
        match feed(yard, token) {
            Ok(next) => {
                &&& tidy(yard) ==> tidy(next)
                &&& open_parens(next.stack) == match token {
                    Token::LeftParen => open_parens(yard.stack) + 1int,
                    Token::RightParen => open_parens(yard.stack) - 1,
                    _ => open_parens(yard.stack) as int,
                }
            },
            Err(e) => e == CalcError::MismatchedParens && token is RightParen && open_parens(
                yard.stack,
            ) == 0,
        },
{
    match token {
        Token::Number(_) => {
            let next = feed(yard, token)->Ok_0;
            if tidy(yard) {
                assert forall|i: int| 0 <= i < next.output.len() implies !paren(
                    #[trigger] next.output[i],
                ) by {
                    if i < yard.output.len() {
                        assert(next.output[i] == yard.output[i]);
                    }
                }
            }
        },
        Token::LeftParen => {
            let next = feed(yard, token)->Ok_0;
            assert(next.stack.drop_last() == yard.stack);
            if tidy(yard) {
                assert forall|i: int| 0 <= i < next.stack.len() implies !(
                #[trigger] next.stack[i] is RightParen) by {
                    if i < yard.stack.len() {
                        assert(next.stack[i] == yard.stack[i]);
                    }
                }
            }
        },
        Token::RightParen => {
            let popped = pop_while(yard, 0);
            lemma_pop_while(yard, 0);
            if popped.stack.len() > 0 {
                let next = feed(yard, token)->Ok_0;
                if tidy(yard) {
                    assert forall|i: int| 0 <= i < next.stack.len() implies !(
                    #[trigger] next.stack[i] is RightParen) by {
                        assert(next.stack[i] == popped.stack[i]);
                    }
                }
            }
        },
        _ => {
            let popped = pop_while(yard, precedence_of(token));
            lemma_pop_while(yard, precedence_of(token));
            let next = feed(yard, token)->Ok_0;
            assert(next.stack.drop_last() == popped.stack);
            if tidy(yard) {
                assert forall|i: int| 0 <= i < next.stack.len() implies !(
                #[trigger] next.stack[i] is RightParen) by {
                    if i < popped.stack.len() {
                        assert(next.stack[i] == popped.stack[i]);
                    }
                }
            }
        },
    }
}

/// From any state of the converter, the rest of the input is converted
/// exactly where its parentheses match those that are open; the only error
/// is `MismatchedParens`, and the output holds no parenthesis.
pub proof fn lemma_feed_all(yard: Yard, tokens: Seq<Token>)
    ensures
        match feed_all(yard, tokens) {
            Ok(end) => match finish(end) {
                Ok(output) => {
                    &&& nested(tokens, open_parens(yard.stack))
                    &&& tidy(yard) ==> forall|i: int|
                        0 <= i < output.len() ==> !paren(#[trigger] output[i])
                },
                Err(e) => e == CalcError::MismatchedParens && !nested(
                    tokens,
                    open_parens(yard.stack),
                ),
            },
            Err(e) => e == CalcError::MismatchedParens && !nested(tokens, open_parens(yard.stack)),
        },
    decreases tokens.len(),
{
    if tokens.len() == 0 {
        lemma_pop_while(yard, 0);
    } else {
        lemma_feed(yard, tokens.first());
        if let Ok(next) = feed(yard, tokens.first()) {
            lemma_feed_all(next, tokens.drop_first());
        }
    }
}

/// An expression has a postfix form exactly where its parentheses match.
/// Where they do not, the error is `MismatchedParens`; where they do, the
/// postfix form holds no parenthesis.
pub proof fn lemma_postfix(tokens: Seq<Token>)
    ensures
        postfix(tokens) is Ok <==> balanced(tokens),
        postfix(tokens) matches Err(e) ==> e == CalcError::MismatchedParens,
        postfix(tokens) matches Ok(output) ==> forall|i: int|
            0 <= i < output.len() ==> !paren(#[trigger] output[i]),
{
    lemma_feed_all(empty_yard(), tokens);
}

/// The numbers among `tokens`, in their order.
pub open spec fn numbers(tokens: Seq<Token>) -> Seq<Token> {
    tokens.filter(|t: Token| t is Number)
}

/// `tokens` without its parentheses.
pub open spec fn unparenthesized(tokens: Seq<Token>) -> Seq<Token> {
    tokens.filter(|t: Token| !paren(t))
}

/// What holds of the converter once it has read `done`: it is tidy, no
/// number waits on the stack, the numbers put out are those read, in their
/// order, and output and stack together hold what was read, parentheses
/// aside.
pub open spec fn accounts_for(yard: Yard, done: Seq<Token>) -> bool {
    &&& tidy(yard)
    &&& forall|i: int| 0 <= i < yard.stack.len() ==> !(#[trigger] yard.stack[i] is Number)
    &&& numbers(yard.output) == numbers(done)
    &&& yard.output.to_multiset().add(unparenthesized(yard.stack).to_multiset())
        == unparenthesized(done).to_multiset()
}

/// Popping loses nothing and puts no number out of place.
proof fn lemma_pop_accounts(from: Yard, floor: nat, done: Seq<Token>)
    requires
        accounts_for(from, done),
    ensures
        accounts_for(pop_while(from, floor), done),
    decreases from.stack.len(),
{
    broadcast use vstd::seq_lib::group_to_multiset_ensures;
    broadcast use vstd::multiset::group_multiset_axioms;

    if from.stack.len() > 0 && !(from.stack.last() is LeftParen) && precedence_of(
        from.stack.last(),
    ) >= floor {
        let top = from.stack.last();
        let below = from.stack.drop_last();
        let next = Yard { output: from.output.push(top), stack: below };
        lemma_pop_while(from, floor);
        assert(from.stack == below.push(top));
        assert(!(from.stack[from.stack.len() - 1] is RightParen));
        assert(!(from.stack[from.stack.len() - 1] is Number));
        from.output.lemma_filter_push(top, |t: Token| t is Number);
        below.lemma_filter_push(top, |t: Token| !paren(t));
        assert(unparenthesized(from.stack) == unparenthesized(below).push(top));
        assert forall|i: int| 0 <= i < below.len() implies !(#[trigger] below[i] is Number)
            && !(below[i] is RightParen) by {
            assert(below[i] == from.stack[i]);
        }
        assert forall|i: int| 0 <= i < next.output.len() implies !paren(
            #[trigger] next.output[i],
        ) by {
            if i < from.output.len() {
                assert(next.output[i] == from.output[i]);
            }
        }
        assert(next.output.to_multiset().add(unparenthesized(below).to_multiset())
            =~= from.output.to_multiset().add(unparenthesized(from.stack).to_multiset()));
        lemma_pop_accounts(next, floor, done);
    }
}

/// One more token is accounted for like those before it.
proof fn lemma_feed_accounts(from: Yard, token: Token, done: Seq<Token>)
    requires
        accounts_for(from, done),
    ensures
        feed(from, token) matches Ok(next) ==> accounts_for(next, done.push(token)),
{
    broadcast use vstd::seq_lib::group_to_multiset_ensures;
    broadcast use vstd::multiset::group_multiset_axioms;

    lemma_feed(from, token);
    done.lemma_filter_push(token, |t: Token| t is Number);
    done.lemma_filter_push(token, |t: Token| !paren(t));
    match token {
        Token::Number(_) => {
            let next = feed(from, token)->Ok_0;
            from.output.lemma_filter_push(token, |t: Token| t is Number);
            assert(next.output.to_multiset().add(unparenthesized(next.stack).to_multiset())
                =~= unparenthesized(done.push(token)).to_multiset());
        },
        Token::LeftParen => {
            let next = feed(from, token)->Ok_0;
            from.stack.lemma_filter_push(token, |t: Token| !paren(t));
            assert forall|i: int| 0 <= i < next.stack.len() implies !(
            #[trigger] next.stack[i] is Number) by {
                if i < from.stack.len() {
                    assert(next.stack[i] == from.stack[i]);
                }
            }
        },
        Token::RightParen => {
            let popped = pop_while(from, 0);
            lemma_pop_accounts(from, 0, done);
            lemma_pop_while(from, 0);
            if popped.stack.len() > 0 {
                let next = feed(from, token)->Ok_0;
                let below = popped.stack.drop_last();
                assert(popped.stack == below.push(popped.stack.last()));
                below.lemma_filter_push(popped.stack.last(), |t: Token| !paren(t));
                assert forall|i: int| 0 <= i < next.stack.len() implies !(
                #[trigger] next.stack[i] is Number) by {
                    assert(next.stack[i] == popped.stack[i]);
                }
            }
        },
        _ => {
            let popped = pop_while(from, precedence_of(token));
            lemma_pop_accounts(from, precedence_of(token), done);
            let next = feed(from, token)->Ok_0;
            popped.stack.lemma_filter_push(token, |t: Token| !paren(t));
            assert forall|i: int| 0 <= i < next.stack.len() implies !(
            #[trigger] next.stack[i] is Number) by {
                if i < popped.stack.len() {
                    assert(next.stack[i] == popped.stack[i]);
                }
            }
            assert(next.output.to_multiset().add(unparenthesized(next.stack).to_multiset())
                =~= unparenthesized(done.push(token)).to_multiset());
        },
    }
}

/// Whatever is read is accounted for.
proof fn lemma_feed_all_accounts(from: Yard, rest: Seq<Token>, done: Seq<Token>)
    requires
        accounts_for(from, done),
    ensures
        feed_all(from, rest) matches Ok(end) ==> accounts_for(end, done + rest),
    decreases rest.len(),
{
    if rest.len() == 0 {
        assert(done + rest == done);
    } else {
        lemma_feed_accounts(from, rest.first(), done);
        if let Ok(next) = feed(from, rest.first()) {
            lemma_feed_all_accounts(next, rest.drop_first(), done.push(rest.first()));
            assert(done.push(rest.first()) + rest.drop_first() == done + rest);
        }
    }
}

/// The postfix form holds what the expression holds, parentheses aside: the
/// same tokens, each as often, and the numbers in the same order.
pub proof fn lemma_postfix_rearranges(tokens: Seq<Token>)
    ensures
        postfix(tokens) matches Ok(output) ==> {
            &&& numbers(output) == numbers(tokens)
            &&& output.to_multiset() == unparenthesized(tokens).to_multiset()
        },
{
    broadcast use vstd::seq_lib::group_to_multiset_ensures;
    broadcast use vstd::multiset::group_multiset_axioms;

    let nothing = Seq::<Token>::empty();
    assert(numbers(nothing) == nothing) by {
        nothing.lemma_filter_len(|t: Token| t is Number);
    }
    assert(unparenthesized(nothing) == nothing) by {
        nothing.lemma_filter_len(|t: Token| !paren(t));
    }
    assert(nothing.to_multiset().add(nothing.to_multiset()) =~= nothing.to_multiset());
    assert(accounts_for(empty_yard(), nothing));
    lemma_feed_all_accounts(empty_yard(), tokens, nothing);
    assert(nothing + tokens == tokens);
    if let Ok(end) = feed_all(empty_yard(), tokens) {
        lemma_pop_accounts(end, 0, tokens);
        let popped = pop_while(end, 0);
        if popped.stack.len() == 0 {
            assert(popped.stack == nothing);
            assert(popped.output.to_multiset().add(nothing.to_multiset())
                =~= popped.output.to_multiset());
        }
    }
}

fn pop_operators(output: &mut Vec<Token>, stack: &mut Vec<Token>, floor: u8)
    ensures
        yard(final(output)@, final(stack)@) == pop_while(
            yard(old(output)@, old(stack)@),
            floor as nat,
        ),
{
    while stack.len() > 0
        invariant
            pop_while(yard(output@, stack@), floor as nat) == pop_while(
                yard(old(output)@, old(stack)@),
                floor as nat,
            ),
        ensures
            yard(output@, stack@) == pop_while(
                yard(old(output)@, old(stack)@),
                floor as nat,
            ),
        decreases stack.len(),
    {
        let top = stack[stack.len() - 1];
        if matches!(top, Token::LeftParen) || precedence(&top) < floor {
            break;
        }
        stack.pop();
        output.push(top);
    }
}

/// Reorders an infix token sequence into postfix order.
///
/// Fails with `MismatchedParens`, and with nothing else, where a right
/// parenthesis has no left one before it or a left one is never closed.
/// Otherwise the result holds the tokens of the input without the
/// parentheses, with the numbers in the order in which they came.
pub fn shunt_to_rpn(tokens: &[Token]) -> (r: Result<Vec<Token>, CalcError>)
    ensures
        match r {
            Ok(rpn) => postfix(tokens@) == Ok::<_, CalcError>(rpn@),
            Err(e) => postfix(tokens@) == Err::<Seq<Token>, _>(e),
        },
        r is Ok <==> balanced(tokens@),
        r matches Err(e) ==> e == CalcError::MismatchedParens,
        r matches Ok(rpn) ==> forall|i: int| 0 <= i < rpn@.len() ==> !paren(#[trigger] rpn@[i]),
        r matches Ok(rpn) ==> numbers(rpn@) == numbers(tokens@),
        r matches Ok(rpn) ==> rpn@.to_multiset() == unparenthesized(tokens@).to_multiset(),
{
    let mut output: Vec<Token> = Vec::new();
    let mut stack: Vec<Token> = Vec::new();
    let mut i: usize = 0;
    assert(tokens@.skip(0) == tokens@);
    while i < tokens.len()
        invariant
            i <= tokens.len(),
            feed_all(empty_yard(), tokens@) == feed_all(
                yard(output@, stack@),
                tokens@.skip(i as int),
            ),
        decreases tokens.len() - i,
    {
        let token = tokens[i];
        assert(tokens@.skip(i as int).drop_first() == tokens@.skip(i + 1));
        match token {
            Token::Number(_) => output.push(token),
            Token::LeftParen => stack.push(token),
            Token::RightParen => {
                pop_operators(&mut output, &mut stack, 0);
                if stack.pop().is_none() {
                    proof {
                        lemma_postfix(tokens@);
                    }
                    return Err(CalcError::MismatchedParens);
                }
            },
            _ => {
                pop_operators(&mut output, &mut stack, precedence(&token));
                stack.push(token);
            },
        }
        i += 1;
    }
    pop_operators(&mut output, &mut stack, 0);
    proof {
        lemma_postfix(tokens@);
        lemma_postfix_rearranges(tokens@);
    }
    if stack.len() > 0 {
        return Err(CalcError::MismatchedParens);
    }
    assert(postfix(tokens@) matches Ok(out) && out == output@);
    Ok(output)
}

} // verus!
