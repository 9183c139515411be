//! The tokenizer: from the text of an expression to its tokens, with every
//! literal scaled and rounded as it is read.

use crate::arith::{negate, scale_literal, Arithmetic, Request};
use crate::normalize::{
    lemma_written_numeral_normalizes, normalize_chars, normalized, plain_numeral,
};
use crate::text::{digit, is_digit, is_separator, separator, to_chars};
use crate::token::{CalcError, PercentRounding, Token};
use vstd::prelude::*;
use vstd::slice::slice_subrange;

verus! {

/// Where the run of digits and separators that begins at `from` ends.
pub open spec fn run_end(s: Seq<char>, from: int) -> int
    decreases s.len() - from,
{
    if 0 <= from < s.len() && (digit(s[from]) || separator(s[from])) {
        run_end(s, from + 1)
    } else {
        from
    }
}

/// Where the numeral that begins at `from` ends. A numeral begins with a
/// digit and goes on through digits and separators; where no digit stands at
/// `from`, the numeral is empty and ends at `from`.
pub open spec fn numeral_end(s: Seq<char>, from: int) -> int {
    if 0 <= from < s.len() && digit(s[from]) {
        run_end(s, from + 1)
    } else {
        from
    }
}

/// The normalized text of the numeral `s[from..to]`, empty for an empty one.
pub open spec fn numeral_text(s: Seq<char>, from: int, to: int) -> Seq<char> {
    if from < to {
        normalized(s.subrange(from, to))
    } else {
        Seq::empty()
    }
}

/// A run ends inside the text, at or after its start, and holds digits and
/// separators only.
pub proof fn lemma_run_end(s: Seq<char>, from: int)
    requires
        0 <= from <= s.len(),
    ensures
        from <= run_end(s, from) <= s.len(),
        forall|k: int| from <= k < run_end(s, from) ==> digit(#[trigger] s[k]) || separator(s[k]),
    decreases s.len() - from,
{
    if from < s.len() && (digit(s[from]) || separator(s[from])) {
        lemma_run_end(s, from + 1);
    }
}

/// A numeral ends inside the text; it is non-empty exactly where it begins
/// with a digit.
pub proof fn lemma_numeral_end(s: Seq<char>, from: int)
    requires
        0 <= from <= s.len(),
    ensures
        from <= numeral_end(s, from) <= s.len(),
        numeral_end(s, from) > from <==> (from < s.len() && digit(s[from])),
{
    if from < s.len() && digit(s[from]) {
        lemma_run_end(s, from + 1);
    }
}

/// The text of a numeral that is not empty is in plain form: digits with at
/// most one `.`, a digit first. So no numeral that the tokenizer hands on to
/// be read has a separator left in it.
pub proof fn lemma_numeral_is_plain(s: Seq<char>, from: int)
    requires
        0 <= from <= s.len(),
        numeral_end(s, from) > from,
    ensures
        plain_numeral(numeral_text(s, from, numeral_end(s, from))),
{
    let end = numeral_end(s, from);
    lemma_numeral_end(s, from);
    lemma_run_end(s, from + 1);
    let run = s.subrange(from, end);
    assert forall|i: int| 0 <= i < run.len() implies digit(#[trigger] run[i]) || separator(
        run[i],
    ) by {
        assert(run[i] == s[from + i]);
    }
    lemma_written_numeral_normalizes(run);
}

/// Reads the numeral that begins at `*pos` and moves `*pos` past it.
///
/// Returns the numeral in normalized form, or the empty string where no
/// digit stands at `*pos`; `*pos` then stays where it was.
pub fn consume_number(chars: &[char], pos: &mut usize) -> (r: String)
    ensures
        *final(pos) == numeral_end(chars@, *old(pos) as int),
        r@ == numeral_text(chars@, *old(pos) as int, *final(pos) as int),
{
    let start = *pos;
    let mut end = start;
    let mut has_digit = false;
    while end < chars.len() && (is_digit(chars[end]) || (is_separator(chars[end]) && has_digit))
        invariant
            start <= end,
            end <= chars.len() || end == start,
            has_digit == (end > start),
            end > start ==> start < chars.len() && digit(chars@[start as int]),
            end > start ==> run_end(chars@, start + 1) == run_end(chars@, end as int),
        decreases chars.len() - end,
    {
        has_digit = true;
        end += 1;
    }
    *pos = end;
    if has_digit {
        normalize_chars(slice_subrange(chars, start, end))
    } else {
        String::new()
    }
}

/// The token that a single character stands for, if it stands for one.
pub open spec fn symbol(c: char) -> Option<Token> {
    if c == '+' {
        Some(Token::Add)
    } else if c == '-' {
        Some(Token::Subtract)
    } else if c == '*' {
        Some(Token::Multiply)
    } else if c == '/' {
        Some(Token::Divide)
    } else if c == '(' {
        Some(Token::LeftParen)
    } else if c == ')' {
        Some(Token::RightParen)
    } else {
        None
    }
}

/// Blank characters between tokens: space, tab and line feed.
pub open spec fn blank(c: char) -> bool {
    c == ' ' || c == '\t' || c == '\n'
}

/// After this token an operand is expected, so that a `-` there begins a
/// negative literal: after an operator or a left parenthesis.
pub open spec fn opens_operand(token: Token) -> bool {
    token is Add || token is Subtract || token is Multiply || token is Divide || token is LeftParen
}

/// Whether an operand is expected after the tokens read so far: at the very
/// beginning, and after an operator or a left parenthesis.
pub open spec fn operand_expected(done: Seq<Token>) -> bool {
    done.len() == 0 || opens_operand(done.last())
}

/// `done` followed by `rest`, or the error that `rest` is.
pub open spec fn prepend(done: Seq<Token>, rest: Result<Seq<Token>, CalcError>) -> Result<
    Seq<Token>,
    CalcError,
> {
    match rest {
        Ok(tail) => Ok(done + tail),
        Err(e) => Err(e),
    }
}

/// Whether a `%` follows the numeral that begins at `from`.
pub open spec fn percent_follows(s: Seq<char>, from: int) -> bool {
    let end = numeral_end(s, from);
    0 <= end < s.len() && s[end] == '%'
}

/// Where the literal that begins at `from` ends: after its numeral, and
/// after the `%` if one follows.
pub open spec fn literal_end(s: Seq<char>, from: int) -> int {
    if percent_follows(s, from) {
        numeral_end(s, from) + 1
    } else {
        numeral_end(s, from)
    }
}

/// The value of the literal whose digits begin at `from`, or nothing where
/// no digit stands there or the numeral cannot be read.
pub open spec fn literal_at(
    arith: Arithmetic,
    s: Seq<char>,
    from: int,
    negative: bool,
    decimals: u32,
    policy: PercentRounding,
) -> Option<u64> {
    let end = numeral_end(s, from);
    if end <= from {
        None
    } else {
        arith.literal(numeral_text(s, from, end), negative, percent_follows(s, from), decimals, policy)
    }
}

/// The tokens of `s[from..]`, or the first error met, where `unary` says
/// whether an operand is expected at `from`.
///
/// Blanks are skipped. A digit begins a literal; so does a `-` where an
/// operand is expected, and it must then be followed at once by a digit. A
/// `%` right after a literal belongs to it. A literal whose numeral cannot
/// be read is an error. The six symbols stand for themselves, and any other
/// character is an error.
pub open spec fn scan(
    arith: Arithmetic,
    s: Seq<char>,
    from: int,
    unary: bool,
    decimals: u32,
    policy: PercentRounding,
) -> Result<Seq<Token>, CalcError>
    decreases s.len() - from,
{
    if from < 0 || from >= s.len() {
        Ok(Seq::empty())
    } else {
        let c = s[from];
        if blank(c) {
            scan(arith, s, from + 1, unary, decimals, policy)
        } else if digit(c) || (c == '-' && unary) {
            let start = if digit(c) {
                from
            } else {
                from + 1
            };
            proof {
                lemma_numeral_end(s, start);
            }
            match literal_at(arith, s, start, !digit(c), decimals, policy) {
                Some(value) => prepend(
                    seq![Token::Number(value)],
                    scan(arith, s, literal_end(s, start), false, decimals, policy),
                ),
                None => Err(CalcError::InvalidExpression),
            }
        } else {
            match symbol(c) {
                Some(token) => prepend(
                    seq![token],
                    scan(arith, s, from + 1, opens_operand(token), decimals, policy),
                ),
                None => Err(CalcError::InvalidCharacter(c)),
            }
        }
    }
}

/// The tokens of a whole expression, or the first error met.
pub open spec fn tokens_of(
    arith: Arithmetic,
    s: Seq<char>,
    decimals: u32,
    policy: PercentRounding,
) -> Result<Seq<Token>, CalcError> {
    scan(arith, s, 0, true, decimals, policy)
}

/// The tokens that a result holds, as a sequence.
pub open spec fn token_seq(r: Result<Vec<Token>, CalcError>) -> Result<Seq<Token>, CalcError> {
    match r {
        Ok(tokens) => Ok(tokens@),
        Err(e) => Err(e),
    }
}

/// Reading fails in two ways only: at a character that belongs to no
/// token, which is then neither blank nor a digit nor a symbol and is a
/// character of the text, and with an invalid expression.
pub proof fn lemma_scan_errors(
    arith: Arithmetic,
    s: Seq<char>,
    from: int,
    unary: bool,
    decimals: u32,
    policy: PercentRounding,
)
    requires
        0 <= from,
    ensures
        match scan(arith, s, from, unary, decimals, policy) {
            Ok(_) => true,
            Err(CalcError::InvalidCharacter(c)) => s.contains(c) && !blank(c) && !digit(c)
                && symbol(c) is None,
            Err(e) => e == CalcError::InvalidExpression,
        },
    decreases s.len() - from,
{
    if from < s.len() {
        let c = s[from];
        if blank(c) {
            lemma_scan_errors(arith, s, from + 1, unary, decimals, policy);
        } else if digit(c) || (c == '-' && unary) {
            let start = if digit(c) {
                from
            } else {
                from + 1
            };
            lemma_numeral_end(s, start);
            if literal_at(arith, s, start, !digit(c), decimals, policy) is Some {
                lemma_scan_errors(arith, s, literal_end(s, start), false, decimals, policy);
            }
        } else if let Some(token) = symbol(c) {
            lemma_scan_errors(arith, s, from + 1, opens_operand(token), decimals, policy);
        } else {
            assert(s[from] == c);
        }
    }
}

/// Whether an operand is expected after `tokens`.
fn expects_operand(tokens: &Vec<Token>) -> (r: bool)
    ensures
        r == operand_expected(tokens@),
{
    if tokens.len() == 0 {
        true
    } else {
        match tokens[tokens.len() - 1] {
            Token::Add | Token::Subtract | Token::Multiply | Token::Divide | Token::LeftParen => true,
            _ => false,
        }
    }
}

/// Reads the literal whose digits begin at `*pos`, together with a `%` that
/// follows it, and moves `*pos` past both. Fails where no digit stands at
/// `*pos` or the numeral cannot be read.
fn read_literal<P: Fn(&str) -> Option<u64>, C: Fn(Request) -> u64>(
    chars: &[char],
    pos: &mut usize,
    negative: bool,
    decimals: u32,
    rounding_strategy: PercentRounding,
    parse: &P,
    compute: &C,
) -> (r: Option<u64>)
    requires
        *old(pos) <= chars.len(),
        forall|text: &str| plain_numeral(text@) ==> parse.requires((text,)),
        forall|request: Request| compute.requires((request,)),
    ensures
        r is Some ==> *old(pos) < numeral_end(chars@, *old(pos) as int),
        r is Some ==> *final(pos) == literal_end(chars@, *old(pos) as int),
        forall|arith: Arithmetic| #[trigger]
            arith.models(parse, compute) ==> r == literal_at(
                arith,
                chars@,
                *old(pos) as int,
                negative,
                decimals,
                rounding_strategy,
            ),
{
    let start = *pos;
    let numeral = consume_number(chars, pos);
    proof {
        lemma_numeral_end(chars@, start as int);
    }
    if *pos == start {
        return None;
    }
    proof {
        lemma_numeral_is_plain(chars@, start as int);
    }
    let parsed = match parse(numeral.as_str()) {
        Some(value) => value,
        None => {
            return None;
        },
    };
    let signed = if negative {
        negate(parsed)
    } else {
        parsed
    };
    let percent = *pos < chars.len() && chars[*pos] == '%';
    if percent {
        *pos = *pos + 1;
    }
    Some(scale_literal(signed, percent, decimals, rounding_strategy, compute))
}

/// Splits an expression into tokens, and scales and rounds each literal.
///
/// Fails with `InvalidCharacter` at a character that belongs to no token,
/// and with `InvalidExpression` at a `-` that should begin a literal but has
/// no digit right after it and at a literal that cannot be read; the first
/// failure in the text is the one reported.
///
/// `parse` is only ever asked to read numerals in plain form.
pub fn tokenize_and_round<P: Fn(&str) -> Option<u64>, C: Fn(Request) -> u64>(
    expr: &str,
    decimals: u32,
    rounding_strategy: PercentRounding,
    parse: &P,
    compute: &C,
) -> (r: Result<Vec<Token>, CalcError>)
    requires
        forall|text: &str| plain_numeral(text@) ==> parse.requires((text,)),
        forall|request: Request| compute.requires((request,)),
    ensures
        forall|arith: Arithmetic| #[trigger]
            arith.models(parse, compute) ==> token_seq(r) == tokens_of(
                arith,
                expr@,
                decimals,
                rounding_strategy,
            ),
        match r {
            Ok(_) => true,
            Err(CalcError::InvalidCharacter(c)) => expr@.contains(c) && !blank(c) && !digit(c)
                && symbol(c) is None,
            Err(e) => e == CalcError::InvalidExpression,
        },
{
    let chars = to_chars(expr);
    let s = chars.as_slice();
    let mut tokens: Vec<Token> = Vec::new();
    let mut i: usize = 0;
    assert(forall|rest: Seq<Token>| tokens@ + rest == rest);
    while i < s.len()
        invariant
            i <= s.len(),
            s@ == expr@,
            forall|text: &str| plain_numeral(text@) ==> parse.requires((text,)),
            forall|request: Request| compute.requires((request,)),
            forall|arith: Arithmetic| #[trigger]
                arith.models(parse, compute) ==> tokens_of(
                    arith,
                    expr@,
                    decimals,
                    rounding_strategy,
                ) == prepend(
                    tokens@,
                    scan(
                        arith,
                        s@,
                        i as int,
                        operand_expected(tokens@),
                        decimals,
                        rounding_strategy,
                    ),
                ),
        decreases s.len() - i,
    {
        let c = s[i];
        let ghost done = tokens@;
        let ghost at = i as int;
        let unary = expects_operand(&tokens);
        if c == ' ' || c == '\t' || c == '\n' {
            i += 1;
        } else if is_digit(c) || (c == '-' && unary) {
            let negative = !is_digit(c);
            if negative {
                i += 1;
            }
            let ghost start = i as int;
            proof {
                lemma_numeral_end(s@, start);
            }
            match read_literal(s, &mut i, negative, decimals, rounding_strategy, parse, compute) {
                Some(value) => {
                    tokens.push(Token::Number(value));
                    proof {
                        assert forall|arith: Arithmetic| #[trigger]
                            arith.models(parse, compute) implies tokens_of(
                            arith,
                            expr@,
                            decimals,
                            rounding_strategy,
                        ) == prepend(
                            tokens@,
                            scan(arith, s@, i as int, false, decimals, rounding_strategy),
                        ) by {
                            let rest = scan(arith, s@, i as int, false, decimals, rounding_strategy);
                            lemma_prepend_twice(done, seq![Token::Number(value)], rest);
                            assert(done + seq![Token::Number(value)] == tokens@);
                        }
                    }
                },
                None => {
                    return Err(CalcError::InvalidExpression);
                },
            }
        } else {
            let token = if c == '+' {
                Token::Add
            } else if c == '-' {
                Token::Subtract
            } else if c == '*' {
                Token::Multiply
            } else if c == '/' {
                Token::Divide
            } else if c == '(' {
                Token::LeftParen
            } else if c == ')' {
                Token::RightParen
            } else {
                return Err(CalcError::InvalidCharacter(c));
            };
            tokens.push(token);
            i += 1;
            proof {
                assert forall|arith: Arithmetic| #[trigger]
                    arith.models(parse, compute) implies tokens_of(
                    arith,
                    expr@,
                    decimals,
                    rounding_strategy,
                ) == prepend(
                    tokens@,
                    scan(arith, s@, i as int, opens_operand(token), decimals, rounding_strategy),
                ) by {
                    let rest = scan(
                        arith,
                        s@,
                        i as int,
                        opens_operand(token),
                        decimals,
                        rounding_strategy,
                    );
                    lemma_prepend_twice(done, seq![token], rest);
                    assert(done + seq![token] == tokens@);
                }
            }
        }
    }
    assert(tokens@ + Seq::<Token>::empty() == tokens@);
    Ok(tokens)
}

/// Prepending in two steps is prepending both at once.
proof fn lemma_prepend_twice(
    done: Seq<Token>,
    more: Seq<Token>,
    rest: Result<Seq<Token>, CalcError>,
)
    ensures
        prepend(done, prepend(more, rest)) == prepend(done + more, rest),
{
    match rest {
        Ok(tail) => {
            assert(done + (more + tail) == (done + more) + tail);
        },
        Err(_) => {},
    }
}

} // verus!
