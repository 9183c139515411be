//! Expected values: how the value that an expression should have is
//! written, and how it is read.

use crate::arith::{Arithmetic, Request};
use crate::calculator::{calculate, calculation};
use crate::error::{service_error_of, viewed, ServiceError, ServiceErrorView};
use crate::normalize::{normalize_chars, normalized};
use crate::text::{digit, is_digit, is_separator, push_all, separator, to_chars, trim, trimmed};
use crate::token::PercentRounding;
use vstd::prelude::*;
use vstd::slice::slice_subrange;
use vstd::string::StringExecFns;

verus! {

/// Where the numeral of an expected value that begins at `from` ends. Such a
/// numeral goes on through digits and `-`, and through separators once a
/// digit has been seen, which `seen_digit` says of the text before `from`.
pub open spec fn expected_end(s: Seq<char>, from: int, seen_digit: bool) -> int
    decreases s.len() - from,
{
    if 0 <= from < s.len() {
        if digit(s[from]) {
            expected_end(s, from + 1, true)
        } else if s[from] == '-' || (separator(s[from]) && seen_digit) {
            expected_end(s, from + 1, seen_digit)
        } else {
            from
        }
    } else {
        from
    }
}

/// Whether `s` holds a digit.
pub open spec fn has_digit(s: Seq<char>) -> bool {
    exists|i: int| 0 <= i < s.len() && digit(#[trigger] s[i])
}

/// The text of the numeral `s[from..to]` of an expected value: normalized if
/// it holds a digit, and as it stands if it holds none.
pub open spec fn expected_text(s: Seq<char>, from: int, to: int) -> Seq<char> {
    if from < to {
        let run = s.subrange(from, to);
        if has_digit(run) {
            normalized(run)
        } else {
            run
        }
    } else {
        Seq::empty()
    }
}

/// Reads the numeral of an expected value that begins at `*pos` and moves
/// `*pos` past it. Unlike a literal of an expression it may hold `-`, in
/// front of its digits and among them.
pub fn consume_number_for_expected(chars: &[char], pos: &mut usize) -> (r: String)
    ensures
        *final(pos) == expected_end(chars@, *old(pos) as int, false),
        r@ == expected_text(chars@, *old(pos) as int, *final(pos) as int),
{
    let start = *pos;
    let mut end = start;
    let mut seen = false;
    while end < chars.len() && (is_digit(chars[end]) || chars[end] == '-' || (is_separator(
        chars[end],
    ) && seen))
        invariant
            start <= end,
            end <= chars.len() || end == start,
            expected_end(chars@, start as int, false) == expected_end(chars@, end as int, seen),
            end > start ==> seen == has_digit(chars@.subrange(start as int, end as int)),
            end == start ==> !seen,
        decreases chars.len() - end,
    {
        proof {
            let before = chars@.subrange(start as int, end as int);
            let after = chars@.subrange(start as int, end + 1);
            assert(after == before.push(chars@[end as int]));
            if has_digit(before) {
                let i = choose|i: int| 0 <= i < before.len() && digit(#[trigger] before[i]);
                assert(digit(after[i]));
            }
            if digit(chars@[end as int]) {
                assert(digit(after[end - start]));
            }
            if has_digit(after) && !digit(chars@[end as int]) {
                let i = choose|i: int| 0 <= i < after.len() && digit(#[trigger] after[i]);
                assert(digit(before[i]));
            }
        }
        if is_digit(chars[end]) {
            seen = true;
        }
        end += 1;
    }
    *pos = end;
    if seen {
        normalize_chars(slice_subrange(chars, start, end))
    } else {
        let mut out = String::new();
        if start < end {
            push_all(&mut out, slice_subrange(chars, start, end));
        }
        out
    }
}

/// The message for an expected value that holds no numeral.
pub open spec fn unreadable_expected_message(text: Seq<char>) -> Seq<char> {
    "无效的预期值格式: "@ + text
}

/// The message for an expected value whose numeral cannot be read.
pub open spec fn unparsable_expected_message(text: Seq<char>) -> Seq<char> {
    "无法解析预期值: "@ + text
}

/// The value that the text `text` of an expected value stands for.
///
/// Without the whitespace around it, a text with a `%` is an expression and
/// has the value of that expression. Any other text is read as a numeral
/// from its beginning, as far as the numeral goes; what follows is ignored.
/// A text that begins with no numeral, or with one that cannot be read, has
/// no value.
pub open spec fn expected_value(
    arith: Arithmetic,
    text: Seq<char>,
    decimals: u32,
    policy: PercentRounding,
) -> Result<u64, ServiceErrorView> {
    let t = trim(text);
    if t.contains('%') {
        match calculation(arith, t, decimals, policy) {
            Ok(value) => Ok(value),
            Err(e) => Err(service_error_of(e)),
        }
    } else {
        let numeral = expected_text(t, 0, expected_end(t, 0, false));
        if numeral.len() > 0 {
            match (arith.parse)(numeral) {
                Some(value) => Ok(value),
                None => Err(
                    ServiceErrorView::InvalidExpression(unparsable_expected_message(text)),
                ),
            }
        } else {
            Err(ServiceErrorView::InvalidExpression(unreadable_expected_message(text)))
        }
    }
}

fn contains_percent(s: &[char]) -> (r: bool)
    ensures
        r == s@.contains('%'),
{
    let mut i: usize = 0;
    while i < s.len()
        invariant
            i <= s.len(),
            forall|k: int| 0 <= k < i ==> s@[k] != '%',
        decreases s.len() - i,
    {
        if s[i] == '%' {
            return true;
        }
        i += 1;
    }
    false
}

/// Reads an expected value, which may be a numeral in any of the accepted
/// formats or a percentage.
pub fn parse_expected_value<P: Fn(&str) -> Option<u64>, C: Fn(Request) -> u64>(
    expected_str: &str,
    decimals: u32,
    strategy: PercentRounding,
    parse: &P,
    compute: &C,
) -> (r: Result<u64, ServiceError>)
    requires
        forall|text: &str| parse.requires((text,)),
        forall|request: Request| compute.requires((request,)),
    ensures
        forall|arith: Arithmetic| #[trigger]
            arith.models(parse, compute) ==> viewed(r) == expected_value(
                arith,
                expected_str@,
                decimals,
                strategy,
            ),
{
    let chars = to_chars(expected_str);
    let t = trimmed(chars.as_slice());
    if contains_percent(t) {
        let mut text = String::new();
        push_all(&mut text, t);
        match calculate(text.as_str(), decimals, strategy, parse, compute) {
            Ok(value) => Ok(value),
            Err(e) => Err(ServiceError::from_calc_error(e)),
        }
    } else {
        let mut pos: usize = 0;
        let numeral = consume_number_for_expected(t, &mut pos);
        if !numeral.as_str().is_empty() {
            match parse(numeral.as_str()) {
                Some(value) => Ok(value),
                None => {
                    let mut message = "无法解析预期值: ".to_owned();
                    message.append(expected_str);
                    Err(ServiceError::InvalidExpression(message))
                },
            }
        } else {
            let mut message = "无效的预期值格式: ".to_owned();
            message.append(expected_str);
            Err(ServiceError::InvalidExpression(message))
        }
    }
}

} // verus!
