//! Batches of validations: one line for each, split into fields, validated
//! and reported on by itself.

use crate::arith::{is_negligible, negligible, Arithmetic, Request};
use crate::calculator::{calculate, calculation};
use crate::expected::{expected_value, parse_expected_value};
use crate::text::{push_all, to_chars, trim, trimmed};
use crate::token::{CalcError, Operator};
use crate::tools::{parse_percent_rounding, policy_named, BatchValidateTool};
use vstd::prelude::*;
use vstd::slice::slice_subrange;
use vstd::string::StringExecFns;

verus! {

/// Where the first `|` at or after `from` stands, or the end of `s` if there
/// is none.
pub open spec fn next_bar(s: Seq<char>, from: int) -> int
    decreases s.len() - from,
{
    if 0 <= from < s.len() && s[from] != '|' {
        next_bar(s, from + 1)
    } else {
        from
    }
}

/// The fields of `s[from..]`: the texts between its `|` characters. There is
/// always at least one field.
pub open spec fn fields(s: Seq<char>, from: int) -> Seq<Seq<char>>
    decreases s.len() - from,
{
    let end = next_bar(s, from);
    if 0 <= from <= end < s.len() {
        seq![s.subrange(from, end)] + fields(s, end + 1)
    } else {
        seq![s.subrange(from, s.len() as int)]
    }
}

/// One line of a batch, split into its fields.
#[derive(Debug, PartialEq, Eq)]
pub struct BatchLine {
    /// The expression, without the whitespace around it.
    pub expression: String,
    /// The expected value, as it was written.
    pub expected: String,
    /// The label, without the whitespace around it; empty if there is none.
    pub label: String,
}

/// The mathematical content of a `BatchLine`.
pub struct BatchLineView {
    pub expression: Seq<char>,
    pub expected: Seq<char>,
    pub label: Seq<char>,
}

impl View for BatchLine {
    type V = BatchLineView;

    open spec fn view(&self) -> BatchLineView {
        BatchLineView {
            expression: self.expression@,
            expected: self.expected@,
            label: self.label@,
        }
    }
}

/// The batch line that `line` holds, if it has at least the two fields for
/// the expression and the expected value. A third field is the label, and
/// further fields are ignored.
pub open spec fn batch_line_of(line: Seq<char>) -> Option<BatchLineView> {
    let parts = fields(line, 0);
    if parts.len() < 2 {
        None
    } else {
        Some(
            BatchLineView {
                expression: trim(parts[0]),
                expected: parts[1],
                label: if parts.len() > 2 {
                    trim(parts[2])
                } else {
                    Seq::empty()
                },
            },
        )
    }
}

/// What stands before the message of a line with the label `label`.
pub open spec fn label_prefix_of(label: Seq<char>) -> Seq<char> {
    if label.len() == 0 {
        Seq::empty()
    } else {
        "["@ + label + "] "@
    }
}

/// No `|` stands between `from` and where `next_bar` points, and one stands
/// there unless that is the end of the text.
pub proof fn lemma_next_bar(s: Seq<char>, from: int)
    requires
        0 <= from <= s.len(),
    ensures
        from <= next_bar(s, from) <= s.len(),
        forall|k: int| from <= k < next_bar(s, from) ==> s[k] != '|',
        next_bar(s, from) < s.len() ==> s[next_bar(s, from)] == '|',
    decreases s.len() - from,
{
    if from < s.len() && s[from] != '|' {
        lemma_next_bar(s, from + 1);
    }
}

fn find_bar(s: &[char], from: usize) -> (r: usize)
    requires
        from <= s.len(),
    ensures
        from <= r <= s.len(),
        r == next_bar(s@, from as int),
{
    let mut i: usize = from;
    while i < s.len() && s[i] != '|'
        invariant
            from <= i <= s.len(),
            next_bar(s@, from as int) == next_bar(s@, i as int),
        decreases s.len() - i,
    {
        i += 1;
    }
    i
}

/// Splits a line of a batch into expression, expected value and label.
///
/// Succeeds exactly where the line holds a `|`.
pub fn parse_batch_line(line: &str) -> (r: Option<BatchLine>)
    ensures
        match r {
            Some(parsed) => batch_line_of(line@) == Some(parsed@),
            None => batch_line_of(line@) is None,
        },
        r is Some <==> line@.contains('|'),
{
    let chars = to_chars(line);
    let s = chars.as_slice();
    let n = s.len();
    let first = find_bar(s, 0);
    proof {
        lemma_next_bar(s@, 0);
    }
    if first == n {
        return None;
    }
    assert(s@[first as int] == '|');
    let second = find_bar(s, first + 1);
    let ghost tail = fields(s@, first + 1);
    assert(fields(s@, 0) == seq![s@.subrange(0, first as int)] + tail);
    let mut expression = String::new();
    push_all(&mut expression, trimmed(slice_subrange(s, 0, first)));
    let mut expected = String::new();
    push_all(&mut expected, slice_subrange(s, first + 1, second));
    let mut label = String::new();
    if second < n {
        let third = find_bar(s, second + 1);
        let ghost rest = fields(s@, second + 1);
        assert(tail == seq![s@.subrange(first + 1, second as int)] + rest);
        assert(rest[0] == s@.subrange(second + 1, third as int));
        push_all(&mut label, trimmed(slice_subrange(s, second + 1, third)));
    } else {
        assert(tail == seq![s@.subrange(first + 1, n as int)]);
    }
    Some(BatchLine { expression, expected, label })
}

impl BatchLine {
    /// What stands before the message of this line: the label in square
    /// brackets and a space, or nothing for a line without a label.
    pub fn label_prefix(&self) -> (r: String)
        ensures
            r@ == label_prefix_of(self.label@),
    {
        if self.label.as_str().is_empty() {
            String::new()
        } else {
            let mut prefix = "[".to_owned();
            prefix.append(self.label.as_str());
            prefix.append("] ");
            prefix
        }
    }
}

/// How the validation of one line of a batch ended.
#[derive(Debug, PartialEq, Eq, Clone, Copy, Structural)]
pub enum LineOutcome {
    /// The line has fewer than two fields.
    Malformed,
    /// The batch names a policy that is not known.
    UnknownPolicy,
    /// The expected value cannot be read.
    UnreadableExpected,
    /// The expression has the expected value.
    Passed { expected: u64 },
    /// The expression has another value than the expected one.
    Differs { expected: u64, actual: u64 },
    /// The expression has no value.
    Failed { expected: u64, error: CalcError },
}

/// One line of a batch after its validation: its fields, if it could be
/// split, and how the validation ended.
#[derive(Debug, PartialEq, Eq)]
pub struct LineReport {
    pub line: Option<BatchLine>,
    pub outcome: LineOutcome,
}

/// How the validation of the line `line` ends. Whatever goes wrong is the
/// outcome of that line, and the first thing that goes wrong decides: the
/// split into fields, the name of the policy, the expected value, and the
/// expression, in this order.
pub open spec fn line_outcome(
    arith: Arithmetic,
    line: Seq<char>,
    decimals: u32,
    policy_name: Seq<char>,
) -> LineOutcome {
    match batch_line_of(line) {
        None => LineOutcome::Malformed,
        Some(fields) => match policy_named(policy_name) {
            None => LineOutcome::UnknownPolicy,
            Some(policy) => match expected_value(arith, fields.expected, decimals, policy) {
                Err(_) => LineOutcome::UnreadableExpected,
                Ok(expected) => match calculation(arith, fields.expression, decimals, policy) {
                    Err(error) => LineOutcome::Failed { expected, error },
                    Ok(actual) => if negligible(
                        (arith.compute)(Request::Binary(Operator::Subtract, actual, expected)),
                    ) {
                        LineOutcome::Passed { expected }
                    } else {
                        LineOutcome::Differs { expected, actual }
                    },
                },
            },
        },
    }
}

/// The fields that a report holds, as their views.
pub open spec fn reported_fields(report: LineReport) -> Option<BatchLineView> {
    match report.line {
        Some(line) => Some(line@),
        None => None,
    }
}

/// Validates one line of a batch.
pub fn check_line<P: Fn(&str) -> Option<u64>, C: Fn(Request) -> u64>(
    line: &str,
    decimals: u32,
    percent_rounding: &str,
    parse: &P,
    compute: &C,
) -> (r: LineReport)
    requires
        forall|text: &str| parse.requires((text,)),
        forall|request: Request| compute.requires((request,)),
    ensures
        reported_fields(r) == batch_line_of(line@),
        forall|arith: Arithmetic| #[trigger]
            arith.models(parse, compute) ==> r.outcome == line_outcome(
                arith,
                line@,
                decimals,
                percent_rounding@,
            ),
{
    let fields = match parse_batch_line(line) {
        Some(fields) => fields,
        None => {
            return LineReport { line: None, outcome: LineOutcome::Malformed };
        },
    };
    let strategy = match parse_percent_rounding(percent_rounding) {
        Ok(strategy) => strategy,
        Err(_) => {
            return LineReport { line: Some(fields), outcome: LineOutcome::UnknownPolicy };
        },
    };
    let expected = match parse_expected_value(
        fields.expected.as_str(),
        decimals,
        strategy,
        parse,
        compute,
    ) {
        Ok(expected) => expected,
        Err(_) => {
            return LineReport { line: Some(fields), outcome: LineOutcome::UnreadableExpected };
        },
    };
    let outcome = match calculate(fields.expression.as_str(), decimals, strategy, parse, compute) {
        Ok(actual) => {
            let difference = compute(Request::Binary(Operator::Subtract, actual, expected));
            if is_negligible(difference) {
                LineOutcome::Passed { expected }
            } else {
                LineOutcome::Differs { expected, actual }
            }
        },
        Err(error) => LineOutcome::Failed { expected, error },
    };
    LineReport { line: Some(fields), outcome }
}

impl BatchValidateTool {
    /// Validates every line of the batch, and reports on each in its place.
    /// No line keeps another from being validated.
    pub fn run_tool<P: Fn(&str) -> Option<u64>, C: Fn(Request) -> u64>(
        params: &Self,
        parse: &P,
        compute: &C,
    ) -> (r: Vec<LineReport>)
        requires
            forall|text: &str| parse.requires((text,)),
            forall|request: Request| compute.requires((request,)),
        ensures
            r@.len() == params.expressions@.len(),
            forall|i: int|
                0 <= i < r@.len() ==> reported_fields(#[trigger] r@[i]) == batch_line_of(
                    params.expressions@[i]@,
                ),
            forall|arith: Arithmetic| #[trigger]
                arith.models(parse, compute) ==> forall|i: int|
                    0 <= i < r@.len() ==> (#[trigger] r@[i]).outcome == line_outcome(
                        arith,
                        params.expressions@[i]@,
                        params.decimals,
                        params.percent_rounding@,
                    ),
    {
        let mut reports: Vec<LineReport> = Vec::new();
        let mut index: usize = 0;
        while index < params.expressions.len()
            invariant
                index <= params.expressions.len(),
                reports@.len() == index,
                forall|text: &str| parse.requires((text,)),
                forall|request: Request| compute.requires((request,)),
                forall|i: int|
                    0 <= i < index ==> reported_fields(#[trigger] reports@[i]) == batch_line_of(
                        params.expressions@[i]@,
                    ),
                forall|arith: Arithmetic| #[trigger]
                    arith.models(parse, compute) ==> forall|i: int|
                        0 <= i < index ==> (#[trigger] reports@[i]).outcome == line_outcome(
                            arith,
                            params.expressions@[i]@,
                            params.decimals,
                            params.percent_rounding@,
                        ),
            decreases params.expressions.len() - index,
        {
            let report = check_line(
                params.expressions[index].as_str(),
                params.decimals,
                params.percent_rounding.as_str(),
                parse,
                compute,
            );
            reports.push(report);
            index += 1;
        }
        reports
    }
}

/// The number of lines that passed.
pub open spec fn passed_count(reports: Seq<LineReport>) -> nat
    decreases reports.len(),
{
    if reports.len() == 0 {
        0
    } else {
        passed_count(reports.drop_last()) + if reports.last().outcome is Passed {
            1nat
        } else {
            0nat
        }
    }
}

/// Counts the lines of a batch that passed.
pub fn count_passed(reports: &Vec<LineReport>) -> (r: usize)
    ensures
        r == passed_count(reports@),
        r <= reports@.len(),
{
    let mut count: usize = 0;
    let mut i: usize = 0;
    while i < reports.len()
        invariant
            i <= reports.len(),
            count <= i,
            count == passed_count(reports@.take(i as int)),
        decreases reports.len() - i,
    {
        assert(reports@.take(i + 1).drop_last() == reports@.take(i as int));
        if matches!(reports[i].outcome, LineOutcome::Passed { .. }) {
            count += 1;
        }
        i += 1;
    }
    assert(reports@.take(reports.len() as int) == reports@);
    count
}

} // verus!
