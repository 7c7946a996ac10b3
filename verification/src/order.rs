//! The order of places in documents.
use vstd::prelude::*;

use crate::extract::{Location, Place};
use crate::text::chars_of;

verus! {

/// `a` comes before `b` in the order of their first different characters; a
/// proper prefix comes first.
pub open spec fn text_less(a: Seq<char>, b: Seq<char>) -> bool
    decreases b.len(),
{
    if b.len() == 0 {
        false
    } else if a.len() == 0 {
        true
    } else if a[0] != b[0] {
        a[0] < b[0]
    } else {
        text_less(a.skip(1), b.skip(1))
    }
}

/// `a` comes before `b`: by file, then by line, then by column.
pub open spec fn place_less(a: Place, b: Place) -> bool {
    ||| text_less(a.file, b.file)
    ||| a.file == b.file && a.line < b.line
    ||| a.file == b.file && a.line == b.line && a.column < b.column
}

/// Of two different texts exactly one comes before the other.
pub proof fn lemma_text_order(a: Seq<char>, b: Seq<char>)
    ensures
        text_less(a, b) ==> !text_less(b, a) && a != b,
        !text_less(a, b) && !text_less(b, a) ==> a == b,
    decreases b.len(),
{
    if a.len() > 0 && b.len() > 0 {
        if a[0] == b[0] {
            lemma_text_order(a.skip(1), b.skip(1));
            if a.skip(1) == b.skip(1) {
                assert(a =~= seq![a[0]] + a.skip(1));
                assert(b =~= seq![b[0]] + b.skip(1));
            }
        }
    } else if a.len() == 0 && b.len() == 0 {
        assert(a =~= b);
    }
}

proof fn lemma_text_transitive(a: Seq<char>, b: Seq<char>, c: Seq<char>)
    requires
        text_less(a, b),
        text_less(b, c),
    ensures
        text_less(a, c),
    decreases c.len(),
{
    if a.len() > 0 && a[0] == b[0] && b[0] == c[0] {
        lemma_text_transitive(a.skip(1), b.skip(1), c.skip(1));
    }
}

/// No place comes before itself, and no two places before each other.
pub proof fn lemma_place_asymmetric(a: Place, b: Place)
    ensures
        place_less(a, b) ==> !place_less(b, a),
        !place_less(a, a),
{
    lemma_text_order(a.file, b.file);
    lemma_text_order(a.file, a.file);
}

/// The order of places is transitive, also through places that are equal.
pub proof fn lemma_place_transitive(a: Place, b: Place, c: Place)
    ensures
        place_less(a, b) && place_less(b, c) ==> place_less(a, c),
        place_less(a, b) && !place_less(c, b) ==> place_less(a, c),
        !place_less(b, a) && place_less(b, c) ==> place_less(a, c),
{
    lemma_text_order(a.file, b.file);
    lemma_text_order(b.file, c.file);
    lemma_text_order(a.file, c.file);
    if text_less(a.file, b.file) && text_less(b.file, c.file) {
        lemma_text_transitive(a.file, b.file, c.file);
    }
}

/// Whether `a` comes before `b`.
fn is_text_less(a: &str, b: &str) -> (r: bool)
    ensures
        r == text_less(a@, b@),
{
    let x = chars_of(a);
    let y = chars_of(b);
    let mut i: usize = 0;
    assert(x@.skip(0) == x@);
    assert(y@.skip(0) == y@);
    while i < x.len() && i < y.len()
        invariant
            i <= x@.len(),
            i <= y@.len(),
            x@ == a@,
            y@ == b@,
            text_less(a@, b@) == text_less(x@.skip(i as int), y@.skip(i as int)),
        decreases x@.len() - i,
    {
        if x[i] != y[i] {
            return x[i] < y[i];
        }
        assert(x@.skip(i as int).skip(1) == x@.skip(i + 1));
        assert(y@.skip(i as int).skip(1) == y@.skip(i + 1));
        i += 1;
    }
    i < y.len()
}

/// Whether `a` comes before `b`: by file, then by line, then by column.
pub fn is_before(a: &Location, b: &Location) -> (r: bool)
    ensures
        r == place_less(a@, b@),
{
    proof {
        lemma_text_order(a.file@, b.file@);
    }
    if a.file == b.file {
        a.line < b.line || (a.line == b.line && a.column < b.column)
    } else {
        is_text_less(a.file.as_str(), b.file.as_str())
    }
}

} // verus!
