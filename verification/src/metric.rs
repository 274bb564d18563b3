//! The edit distance is a metric on byte sequences, bounded by the lengths
//! of its arguments.

use vstd::math::{abs, max};
use vstd::prelude::*;
use crate::recurrence::{edit_distance, lemma_drop_last_changes_by_one};

verus! {

/// Identity: every sequence is at distance zero from itself.
pub proof fn lemma_identity(s: Seq<u8>)
    ensures
        edit_distance(s, s) == 0,
    decreases s.len(),
{
    if s.len() > 0 {
        lemma_identity(s.drop_last());
    }
}

/// Only equal sequences are at distance zero.
pub proof fn lemma_zero_iff_equal(a: Seq<u8>, b: Seq<u8>)
    ensures
        edit_distance(a, b) == 0 <==> a == b,
    decreases a.len() + b.len(),
{
    if a == b {
        lemma_identity(a);
    } else if a.len() == 0 && b.len() == 0 {
        assert(a =~= b);
    } else if a.len() > 0 && b.len() > 0 && a.last() == b.last() {
        lemma_zero_iff_equal(a.drop_last(), b.drop_last());
        assert(a =~= a.drop_last().push(a.last()));
        assert(b =~= b.drop_last().push(b.last()));
    }
}

/// Symmetry: the distance does not depend on the order of its arguments.
pub proof fn lemma_symmetry(a: Seq<u8>, b: Seq<u8>)
    ensures
        edit_distance(a, b) == edit_distance(b, a),
    decreases a.len() + b.len(),
{
    if a.len() > 0 && b.len() > 0 {
        lemma_symmetry(a.drop_last(), b.drop_last());
        lemma_symmetry(a.drop_last(), b);
        lemma_symmetry(a, b.drop_last());
    }
}

/// The distance is at least the difference of the two lengths and at most
/// the greater of them.
pub proof fn lemma_bounds(a: Seq<u8>, b: Seq<u8>)
    ensures
        abs(a.len() - b.len()) <= edit_distance(a, b) <= max(a.len() as int, b.len() as int),
    decreases a.len() + b.len(),
{
    if a.len() > 0 && b.len() > 0 {
        lemma_bounds(a.drop_last(), b.drop_last());
        lemma_bounds(a.drop_last(), b);
        lemma_bounds(a, b.drop_last());
    }
}

/// The distance from or to the empty sequence is the length of the other
/// sequence.
pub proof fn lemma_empty(s: Seq<u8>)
    ensures
        edit_distance(Seq::empty(), s) == s.len(),
        edit_distance(s, Seq::empty()) == s.len(),
{
}

/// Triangle inequality: going through an intermediate sequence never costs
/// less than going directly.
pub proof fn lemma_triangle(a: Seq<u8>, b: Seq<u8>, c: Seq<u8>)
    ensures
        edit_distance(a, c) <= edit_distance(a, b) + edit_distance(b, c),
    decreases a.len() + b.len() + c.len(),
{
    if a.len() == 0 || c.len() == 0 {
        // The direct distance is a length, and the detour has to make up
        // the difference in length at least.
        lemma_bounds(a, b);
        lemma_bounds(b, c);
    } else if b.len() == 0 {
        // The detour deletes all of `a` and inserts all of `c`.
        lemma_bounds(a, c);
    } else {
        // Each leg of the detour ends in a deletion, an insertion, or an
        // alignment of last elements. Whichever two meet, the direct
        // distance ends in a step that costs no more than the two together,
        // and what comes before it is a smaller triangle.
        let a1 = a.drop_last();
        let b1 = b.drop_last();
        let c1 = c.drop_last();
        lemma_drop_last_changes_by_one(a, b);
        lemma_drop_last_changes_by_one(b, c);
        lemma_drop_last_changes_by_one(a, c);
        lemma_triangle(a1, b, c);
        lemma_triangle(a, b, c1);
        lemma_triangle(a, b1, c);
        lemma_triangle(a, b1, c1);
        lemma_triangle(a1, b1, c);
        lemma_triangle(a1, b1, c1);
    }
}

} // verus!
