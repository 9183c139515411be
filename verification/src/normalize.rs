//! The number normalizer: turns a numeral written with any of the usual
//! thousands and decimal separators into one that uses `.` as its only
//! separator.

use crate::text::{
    digit, is_digit, separator, to_chars, trim, trim_end, trim_start, trimmed, whitespace,
};
use vstd::prelude::*;
use vstd::slice::slice_subrange;

verus! {

/// `s` without the characters listed in `separators`.
pub open spec fn without(s: Seq<char>, separators: Seq<char>) -> Seq<char> {
    s.filter(|c: char| !separators.contains(c))
}

/// The four separator characters, as a list.
pub open spec fn separator_list() -> Seq<char> {
    seq!['.', ',', ' ', '\'']
}

/// `s` without any of the four separator characters.
pub open spec fn stripped(s: Seq<char>) -> Seq<char> {
    without(s, separator_list())
}

/// How often `c` occurs in `s`.
pub open spec fn occurrences(s: Seq<char>, c: char) -> nat
    decreases s.len(),
{
    if s.len() == 0 {
        0
    } else {
        occurrences(s.drop_last(), c) + if s.last() == c {
            1nat
        } else {
            0nat
        }
    }
}

/// Where `c` occurs last in `s`, if it occurs at all.
pub open spec fn last_position(s: Seq<char>, c: char) -> Option<int>
    decreases s.len(),
{
    if s.len() == 0 {
        None
    } else if s.last() == c {
        Some(s.len() - 1)
    } else {
        last_position(s.drop_last(), c)
    }
}

/// One to three ASCII digits: what may follow a lone decimal separator.
pub open spec fn short_digit_group(s: Seq<char>) -> bool {
    &&& 1 <= s.len() <= 3
    &&& forall|i: int| 0 <= i < s.len() ==> digit(#[trigger] s[i])
}

/// Which character of `s`, if any, is its decimal separator.
///
/// With both `,` and `.` present it is the rightmost of them. A lone kind of
/// separator is the decimal one if it occurs once and, for a comma, is
/// followed by one to three digits; several dots still end in a decimal one
/// if the last is followed by one to three digits.
pub open spec fn decimal_position(s: Seq<char>) -> Option<int> {
    let comma = last_position(s, ',');
    let dot = last_position(s, '.');
    match (comma, dot) {
        (Some(c), Some(d)) => Some(if c > d {
            c
        } else {
            d
        }),
        (Some(c), None) => if occurrences(s, ',') == 1 && short_digit_group(s.skip(c + 1)) {
            Some(c)
        } else {
            None
        },
        (None, Some(d)) => if occurrences(s, '.') == 1 || short_digit_group(s.skip(d + 1)) {
            Some(d)
        } else {
            None
        },
        (None, None) => None,
    }
}

/// `s` with the separator at `decimal` turned into `.` and every other
/// separator removed.
pub open spec fn canonical(s: Seq<char>, decimal: Option<int>) -> Seq<char> {
    match decimal {
        Some(p) => stripped(s.take(p)) + seq!['.'] + stripped(s.skip(p + 1)),
        None => stripped(s),
    }
}

/// What `normalize_number` returns for `input`.
pub open spec fn normalized(input: Seq<char>) -> Seq<char> {
    let s = trim(input);
    canonical(s, decimal_position(s))
}

/// A numeral in plain form: digits and at most one `.`, with a digit first.
pub open spec fn plain_numeral(s: Seq<char>) -> bool {
    &&& s.len() > 0
    &&& digit(s[0])
    &&& forall|i: int| 0 <= i < s.len() ==> digit(#[trigger] s[i]) || s[i] == '.'
    &&& occurrences(s, '.') <= 1
}

/// A numeral as it is written: digits and separators, with a digit first.
pub open spec fn written_numeral(s: Seq<char>) -> bool {
    &&& s.len() > 0
    &&& digit(s[0])
    &&& forall|i: int| 0 <= i < s.len() ==> digit(#[trigger] s[i]) || separator(s[i])
}

fn contains_char(list: &[char], c: char) -> (r: bool)
    ensures
        r == list@.contains(c),
{
    let mut i: usize = 0;
    while i < list.len()
        invariant
            i <= list.len(),
            forall|k: int| 0 <= k < i ==> list@[k] != c,
        decreases list.len() - i,
    {
        if list[i] == c {
            return true;
        }
        i += 1;
    }
    false
}

/// Appends to `out` the characters of `s` that are not in `separators`.
fn strip_into(out: &mut String, s: &[char], separators: &[char])
    ensures
        final(out)@ == old(out)@ + without(s@, separators@),
{
    let ghost keep = |c: char| !separators@.contains(c);
    let mut i: usize = 0;
    assert(s@.take(0).filter(keep) == Seq::<char>::empty());
    while i < s.len()
        invariant
            i <= s.len(),
            keep == (|c: char| !separators@.contains(c)),
            out@ == old(out)@ + s@.take(i as int).filter(keep),
        decreases s.len() - i,
    {
        let c = s[i];
        proof {
            assert(s@.take(i + 1) == s@.take(i as int).push(c));
            s@.take(i as int).lemma_filter_push(c, keep);
        }
        if !contains_char(separators, c) {
            out.push(c);
        }
        i += 1;
    }
    assert(s@.take(s.len() as int) == s@);
}

/// Removes from `input` every character listed in `separators`.
pub fn remove_thousand_separators(input: &str, separators: &[char]) -> (r: String)
    ensures
        r@ == without(input@, separators@),
{
    let chars = to_chars(input);
    let mut out = String::new();
    strip_into(&mut out, chars.as_slice(), separators);
    out
}

/// Whether `s[from..]` is one to three ASCII digits.
fn is_short_digit_group(s: &[char], from: usize) -> (r: bool)
    requires
        from <= s.len(),
    ensures
        r == short_digit_group(s@.skip(from as int)),
{
    let n = s.len() - from;
    if n < 1 || n > 3 {
        return false;
    }
    let ghost tail = s@.skip(from as int);
    let mut i: usize = from;
    while i < s.len()
        invariant
            from <= i <= s.len(),
            tail == s@.skip(from as int),
            forall|k: int| 0 <= k < i - from ==> digit(#[trigger] tail[k]),
        decreases s.len() - i,
    {
        if !is_digit(s[i]) {
            assert(!digit(tail[i - from]));
            return false;
        }
        i += 1;
    }
    true
}

/// Finds the decimal separator of `s`.
fn find_decimal(s: &[char]) -> (r: Option<usize>)
    ensures
        match r {
            Some(p) => decimal_position(s@) == Some(p as int) && p < s.len(),
            None => decimal_position(s@) is None,
        },
{
    let mut commas: usize = 0;
    let mut dots: usize = 0;
    let mut last_comma: Option<usize> = None;
    let mut last_dot: Option<usize> = None;
    let mut i: usize = 0;
    while i < s.len()
        invariant
            i <= s.len(),
            commas == occurrences(s@.take(i as int), ','),
            dots == occurrences(s@.take(i as int), '.'),
            commas <= i,
            dots <= i,
            match last_comma {
                Some(p) => last_position(s@.take(i as int), ',') == Some(p as int) && p < i,
                None => last_position(s@.take(i as int), ',') is None,
            },
            match last_dot {
                Some(p) => last_position(s@.take(i as int), '.') == Some(p as int) && p < i,
                None => last_position(s@.take(i as int), '.') is None,
            },
        decreases s.len() - i,
    {
        assert(s@.take(i + 1).drop_last() == s@.take(i as int));
        let c = s[i];
        if c == ',' {
            commas += 1;
            last_comma = Some(i);
        } else if c == '.' {
            dots += 1;
            last_dot = Some(i);
        }
        i += 1;
    }
    assert(s@.take(s.len() as int) == s@);
    match (last_comma, last_dot) {
        (Some(c), Some(d)) => Some(if c > d {
            c
        } else {
            d
        }),
        (Some(c), None) => if commas == 1 && is_short_digit_group(s, c + 1) {
            Some(c)
        } else {
            None
        },
        (None, Some(d)) => if dots == 1 || is_short_digit_group(s, d + 1) {
            Some(d)
        } else {
            None
        },
        (None, None) => None,
    }
}

/// Rewrites the numeral held in `chars`; see `normalize_number`.
pub fn normalize_chars(chars: &[char]) -> (r: String)
    ensures
        r@ == normalized(chars@),
        forall|i: int| 0 <= i < r@.len() ==> r@[i] != ',' && r@[i] != ' ' && r@[i] != '\'',
        occurrences(r@, '.') <= 1,
{
    let s = trimmed(chars);
    let separators: [char; 4] = ['.', ',', ' ', '\''];
    assert(separators@ == separator_list());
    let mut out = String::new();
    match find_decimal(s) {
        Some(p) => {
            strip_into(&mut out, slice_subrange(s, 0, p), separators.as_slice());
            out.push('.');
            strip_into(&mut out, slice_subrange(s, p + 1, s.len()), separators.as_slice());
            assert(s@.take(p as int) == s@.subrange(0, p as int));
            assert(s@.skip(p + 1) == s@.subrange(p + 1, s.len() as int));
        },
        None => {
            strip_into(&mut out, s, separators.as_slice());
        },
    }
    assert(out@ == normalized(chars@));
    proof {
        lemma_normalized_form(chars@);
    }
    out
}

/// Rewrites a numeral so that `.` is its only separator.
///
/// Whitespace around the numeral is dropped first. The decimal separator, if
/// `decimal_position` finds one, becomes `.`; every other `.`, `,`, space and
/// apostrophe is removed. All other characters stay as they are, so a text
/// that is no numeral comes back without its separators and is left for the
/// caller to reject.
pub fn normalize_number(input: &str) -> (r: String)
    ensures
        r@ == normalized(input@),
        forall|i: int| 0 <= i < r@.len() ==> r@[i] != ',' && r@[i] != ' ' && r@[i] != '\'',
        occurrences(r@, '.') <= 1,
{
    let chars = to_chars(input);
    normalize_chars(chars.as_slice())
}

/// What `last_position` finds: the place holds `c`, and no later place does.
pub proof fn lemma_last_position(s: Seq<char>, c: char)
    ensures
        match last_position(s, c) {
            Some(p) => 0 <= p < s.len() && s[p] == c && forall|i: int|
                p < i < s.len() ==> s[i] != c,
            None => forall|i: int| 0 <= i < s.len() ==> s[i] != c,
        },
    decreases s.len(),
{
    if s.len() > 0 && s.last() != c {
        let front = s.drop_last();
        lemma_last_position(front, c);
        assert forall|i: int| 0 <= i < s.len() - 1 implies s[i] == front[i] by {}
        match last_position(front, c) {
            Some(p) => {
                assert forall|i: int| p < i < s.len() implies s[i] != c by {
                    if i < s.len() - 1 {
                        assert(front[i] != c);
                    }
                }
            },
            None => {
                assert forall|i: int| 0 <= i < s.len() implies s[i] != c by {
                    if i < s.len() - 1 {
                        assert(front[i] != c);
                    }
                }
            },
        }
    }
}

/// Where a decimal separator is found, a `.` or a `,` stands there.
pub proof fn lemma_decimal_position(s: Seq<char>)
    ensures
        decimal_position(s) matches Some(p) ==> 0 <= p < s.len() && (s[p] == '.' || s[p] == ','),
{
    lemma_last_position(s, ',');
    lemma_last_position(s, '.');
}

/// The separator list holds the four separators and nothing else.
pub proof fn lemma_separator_list(c: char)
    ensures
        separator_list().contains(c) <==> separator(c),
{
    let list = separator_list();
    assert(list[0] == '.' && list[1] == ',' && list[2] == ' ' && list[3] == '\'');
}

/// What `without` keeps are characters of `s` outside `separators`.
pub proof fn lemma_without_members(s: Seq<char>, separators: Seq<char>)
    ensures
        forall|i: int|
            0 <= i < without(s, separators).len() ==> !separators.contains(
                #[trigger] without(s, separators)[i],
            ) && s.contains(without(s, separators)[i]),
{
    let keep = |c: char| !separators.contains(c);
    let kept = s.filter(keep);
    assert forall|i: int| 0 <= i < kept.len() implies !separators.contains(#[trigger] kept[i])
        && s.contains(kept[i]) by {
        s.lemma_filter_pred(keep, i);
        assert(kept.contains(kept[i]));
        s.lemma_filter_contains_rev(keep, kept[i]);
    }
}

/// `without` leaves alone a text that begins with a character it keeps.
pub proof fn lemma_without_first(s: Seq<char>, separators: Seq<char>)
    requires
        s.len() > 0,
        !separators.contains(s[0]),
    ensures
        without(s, separators).len() > 0,
        without(s, separators)[0] == s[0],
{
    let keep = |c: char| !separators.contains(c);
    let head = Seq::<char>::empty().push(s[0]);
    assert(s == head + s.drop_first());
    Seq::filter_distributes_over_add(head, s.drop_first(), keep);
    Seq::<char>::empty().lemma_filter_push(s[0], keep);
    assert(Seq::<char>::empty().filter(keep).len() == 0) by {
        Seq::<char>::empty().lemma_filter_len(keep);
    }
}

/// Removing the same characters a second time removes nothing more.
pub proof fn lemma_without_twice(s: Seq<char>, separators: Seq<char>)
    ensures
        without(without(s, separators), separators) == without(s, separators),
    decreases s.len(),
{
    let keep = |c: char| !separators.contains(c);
    if s.len() == 0 {
        assert(s.filter(keep).len() == 0) by {
            s.lemma_filter_len(keep);
        }
        assert(s.filter(keep) == s);
    } else {
        let front = s.drop_last();
        lemma_without_twice(front, separators);
        assert(s == front.push(s.last()));
        front.lemma_filter_push(s.last(), keep);
        if keep(s.last()) {
            front.filter(keep).lemma_filter_push(s.last(), keep);
        }
    }
}

/// A character that occurs nowhere occurs zero times.
pub proof fn lemma_occurrences_none(s: Seq<char>, c: char)
    requires
        forall|i: int| 0 <= i < s.len() ==> s[i] != c,
    ensures
        occurrences(s, c) == 0,
    decreases s.len(),
{
    if s.len() > 0 {
        assert forall|i: int| 0 <= i < s.drop_last().len() implies s.drop_last()[i] != c by {
            assert(s.drop_last()[i] == s[i]);
        }
        lemma_occurrences_none(s.drop_last(), c);
    }
}

/// Occurrences add up over concatenation.
pub proof fn lemma_occurrences_add(a: Seq<char>, b: Seq<char>, c: char)
    ensures
        occurrences(a + b, c) == occurrences(a, c) + occurrences(b, c),
    decreases b.len(),
{
    if b.len() == 0 {
        assert(a + b == a);
    } else {
        assert((a + b).drop_last() == a + b.drop_last());
        lemma_occurrences_add(a, b.drop_last(), c);
    }
}

/// The canonical form holds no grouping character, and holds `.` once if a
/// decimal separator was found and not at all otherwise.
pub proof fn lemma_canonical_form(s: Seq<char>, decimal: Option<int>)
    requires
        decimal matches Some(p) ==> 0 <= p < s.len(),
    ensures
        forall|i: int|
            0 <= i < canonical(s, decimal).len() ==> {
                let c = #[trigger] canonical(s, decimal)[i];
                c != ',' && c != ' ' && c != '\''
            },
        occurrences(canonical(s, decimal), '.') == if decimal is Some {
            1nat
        } else {
            0nat
        },
{
    let list = separator_list();
    lemma_separator_list('.');
    lemma_separator_list(',');
    lemma_separator_list(' ');
    lemma_separator_list('\'');
    match decimal {
        Some(p) => {
            let a = stripped(s.take(p));
            let b = stripped(s.skip(p + 1));
            let dot = seq!['.'];
            lemma_without_members(s.take(p), list);
            lemma_without_members(s.skip(p + 1), list);
            lemma_occurrences_none(a, '.');
            lemma_occurrences_none(b, '.');
            lemma_occurrences_add(a, dot, '.');
            lemma_occurrences_add(a + dot, b, '.');
            assert(dot.drop_last() == Seq::<char>::empty());
            assert(occurrences(dot, '.') == 1) by {
                reveal_with_fuel(occurrences, 2);
            }
            assert forall|i: int| 0 <= i < canonical(s, decimal).len() implies {
                let c = #[trigger] canonical(s, decimal)[i];
                c != ',' && c != ' ' && c != '\''
            } by {
                let c = canonical(s, decimal)[i];
                if i < a.len() {
                    assert(c == a[i]);
                } else if i == a.len() {
                    assert(c == '.');
                } else {
                    assert(c == b[i - a.len() - 1]);
                }
            }
        },
        None => {
            lemma_without_members(s, list);
            lemma_occurrences_none(stripped(s), '.');
        },
    }
}

/// A normalized numeral holds no comma, space or apostrophe, and at most
/// one `.`: the decimal separator, if the numeral has one.
pub proof fn lemma_normalized_form(input: Seq<char>)
    ensures
        forall|i: int|
            0 <= i < normalized(input).len() ==> {
                let c = #[trigger] normalized(input)[i];
                c != ',' && c != ' ' && c != '\''
            },
        occurrences(normalized(input), '.') == if decimal_position(trim(input)) is Some {
            1nat
        } else {
            0nat
        },
{
    let s = trim(input);
    lemma_decimal_position(s);
    lemma_canonical_form(s, decimal_position(s));
}

/// Normalizing changes separators only: what is left of the numeral once
/// all separators are taken out is the same before and after.
pub proof fn lemma_normalized_keeps_the_rest(input: Seq<char>)
    ensures
        stripped(normalized(input)) == stripped(trim(input)),
{
    let s = trim(input);
    let list = separator_list();
    let keep = |c: char| !list.contains(c);
    lemma_decimal_position(s);
    match decimal_position(s) {
        Some(p) => {
            let a = s.take(p);
            let b = s.skip(p + 1);
            let mid = Seq::<char>::empty().push(s[p]);
            let dot = seq!['.'];
            lemma_separator_list('.');
            lemma_separator_list(',');
            assert(s == a + mid + b);
            Seq::filter_distributes_over_add(a + mid, b, keep);
            Seq::filter_distributes_over_add(a, mid, keep);
            Seq::filter_distributes_over_add(stripped(a) + dot, stripped(b), keep);
            Seq::filter_distributes_over_add(stripped(a), dot, keep);
            lemma_without_twice(a, list);
            lemma_without_twice(b, list);
            Seq::<char>::empty().lemma_filter_push(s[p], keep);
            Seq::<char>::empty().lemma_filter_push('.', keep);
            assert(dot == Seq::<char>::empty().push('.'));
            assert(stripped(a) + Seq::<char>::empty().filter(keep) == stripped(a)) by {
                Seq::<char>::empty().lemma_filter_len(keep);
            }
        },
        None => {
            lemma_without_twice(s, list);
        },
    }
}

/// Trailing whitespace is cut from the end only: what is left is the
/// beginning of the text, and is not empty if the text begins with a
/// character that is no whitespace.
pub proof fn lemma_trim_end_is_prefix(s: Seq<char>)
    ensures
        trim_end(s).len() <= s.len(),
        trim_end(s) == s.take(trim_end(s).len() as int),
        s.len() > 0 && !whitespace(s[0]) ==> trim_end(s).len() > 0,
    decreases s.len(),
{
    if s.len() > 0 && whitespace(s.last()) {
        lemma_trim_end_is_prefix(s.drop_last());
        assert(s.drop_last().take(trim_end(s).len() as int) == s.take(trim_end(s).len() as int));
    } else {
        assert(s.take(s.len() as int) == s);
    }
}

/// A numeral written with digits and separators, a digit first, always has a
/// plain normal form.
pub proof fn lemma_written_numeral_normalizes(s: Seq<char>)
    requires
        written_numeral(s),
    ensures
        plain_numeral(normalized(s)),
{
    let list = separator_list();
    lemma_trim_end_is_prefix(s);
    let t = trim(s);
    assert(trim_start(s) == s);
    assert(t == s.take(t.len() as int));
    assert(written_numeral(t));
    lemma_decimal_position(t);
    lemma_canonical_form(t, decimal_position(t));
    lemma_separator_list(t[0]);
    let r = normalized(s);
    match decimal_position(t) {
        Some(p) => {
            let a = stripped(t.take(p));
            let b = stripped(t.skip(p + 1));
            lemma_without_first(t.take(p), list);
            lemma_without_members(t.take(p), list);
            lemma_without_members(t.skip(p + 1), list);
            assert(r[0] == a[0]);
            assert forall|i: int| 0 <= i < r.len() implies digit(#[trigger] r[i]) || r[i]
                == '.' by {
                if i < a.len() {
                    assert(r[i] == a[i]);
                    lemma_separator_list(a[i]);
                    let front = t.take(p);
                    let k = choose|k: int| 0 <= k < front.len() && front[k] == a[i];
                    assert(t[k] == a[i]);
                } else if i > a.len() {
                    let j = i - a.len() - 1;
                    assert(r[i] == b[j]);
                    lemma_separator_list(b[j]);
                    let tail = t.skip(p + 1);
                    let k = choose|k: int| 0 <= k < tail.len() && tail[k] == b[j];
                    assert(t[k + p + 1] == b[j]);
                }
            }
        },
        None => {
            lemma_without_first(t, list);
            lemma_without_members(t, list);
            assert forall|i: int| 0 <= i < r.len() implies digit(#[trigger] r[i]) || r[i]
                == '.' by {
                lemma_separator_list(r[i]);
                let k = choose|k: int| 0 <= k < t.len() && t[k] == r[i];
                assert(digit(t[k]) || separator(t[k]));
            }
        },
    }
}

} // verus!
