//! What a server decides when a client connects.

use crate::text::to_chars;
use vstd::prelude::*;

verus! {

/// Whether the text `a` comes after the text `b` where texts are ordered
/// character by character, a text coming after each of its beginnings.
pub open spec fn comes_after(a: Seq<char>, b: Seq<char>) -> bool
    decreases a.len(),
{
    if a.len() == 0 {
        false
    } else if b.len() == 0 {
        true
    } else if a[0] != b[0] {
        a[0] > b[0]
    } else {
        comes_after(a.drop_first(), b.drop_first())
    }
}

/// Whether the protocol version `ours` is later than `theirs`, in which
/// case a server falls back to `theirs`. Versions are dates, and are
/// compared as texts.
pub fn later_version(ours: &str, theirs: &str) -> (r: bool)
    ensures
        r == comes_after(ours@, theirs@),
{
    let a = to_chars(ours);
    let b = to_chars(theirs);
    let mut i: usize = 0;
    assert(a@.skip(0) == a@ && b@.skip(0) == b@);
    while i < a.len() && i < b.len()
        invariant
            i <= a.len(),
            i <= b.len(),
            a@ == ours@,
            b@ == theirs@,
            comes_after(ours@, theirs@) == comes_after(a@.skip(i as int), b@.skip(i as int)),
        decreases a.len() - i,
    {
        if a[i] != b[i] {
            return a[i] > b[i];
        }
        assert(a@.skip(i as int).drop_first() == a@.skip(i + 1));
        assert(b@.skip(i as int).drop_first() == b@.skip(i + 1));
        i += 1;
    }
    a.len() > b.len()
}

} // verus!
