//! The Wagner–Fischer recurrence as a mathematical function on byte
//! sequences, and the local facts about it that every other proof builds on.

use vstd::prelude::*;

verus! {

/// The least of three naturals.
pub open spec fn min3(x: nat, y: nat, z: nat) -> nat {
    if x <= y && x <= z {
        x
    } else if y <= z {
        y
    } else {
        z
    }
}

/// The Levenshtein distance between `a` and `b`, defined by recursion on
/// their last elements.
///
/// Turning nothing into `b` takes one insertion per element, turning `a` into
/// nothing one deletion per element. Equal last elements align for free;
/// unequal ones cost one edit on top of the cheapest of the three smaller
/// problems: drop the last element of `a` (a deletion), drop the last element
/// of `b` (an insertion), or drop both (a substitution).
pub open spec fn edit_distance(a: Seq<u8>, b: Seq<u8>) -> nat
    decreases a.len() + b.len(),
{
    if a.len() == 0 {
        b.len()
    } else if b.len() == 0 {
        a.len()
    } else if a.last() == b.last() {
        edit_distance(a.drop_last(), b.drop_last())
    } else {
        1 + min3(
            edit_distance(a.drop_last(), b),
            edit_distance(a, b.drop_last()),
            edit_distance(a.drop_last(), b.drop_last()),
        )
    }
}

/// Dropping the last element of either argument moves the distance by at
/// most one, in either direction.
pub proof fn lemma_drop_last_changes_by_one(a: Seq<u8>, b: Seq<u8>)
    ensures
        a.len() > 0 ==> edit_distance(a, b) <= edit_distance(a.drop_last(), b) + 1,
        a.len() > 0 ==> edit_distance(a.drop_last(), b) <= edit_distance(a, b) + 1,
        b.len() > 0 ==> edit_distance(a, b) <= edit_distance(a, b.drop_last()) + 1,
        b.len() > 0 ==> edit_distance(a, b.drop_last()) <= edit_distance(a, b) + 1,
    decreases a.len() + b.len(),
{
    if a.len() > 0 && b.len() > 0 {
        lemma_drop_last_changes_by_one(a.drop_last(), b);
        lemma_drop_last_changes_by_one(a, b.drop_last());
    }
}

/// The distance between the first `i` elements of `a` and the first `j`
/// elements of `b`: the value that belongs in row `i`, column `j` of the
/// dynamic-programming table for `a` and `b`.
pub open spec fn prefix_distance(a: Seq<u8>, b: Seq<u8>, i: int, j: int) -> nat {
    edit_distance(a.take(i), b.take(j))
}

/// Row zero and column zero of the table count up from zero.
pub proof fn lemma_prefix_distance_border(a: Seq<u8>, b: Seq<u8>, i: int, j: int)
    requires
        0 <= i <= a.len(),
        0 <= j <= b.len(),
    ensures
        prefix_distance(a, b, i, 0) == i,
        prefix_distance(a, b, 0, j) == j,
{
}

/// Every other cell of the table follows from the cells above it, to its
/// left, and diagonally above and to its left.
pub proof fn lemma_prefix_distance_step(a: Seq<u8>, b: Seq<u8>, i: int, j: int)
    requires
        0 < i <= a.len(),
        0 < j <= b.len(),
    ensures
        prefix_distance(a, b, i, j) == if a[i - 1] == b[j - 1] {
            prefix_distance(a, b, i - 1, j - 1)
        } else {
            1 + min3(
                prefix_distance(a, b, i - 1, j),
                prefix_distance(a, b, i, j - 1),
                prefix_distance(a, b, i - 1, j - 1),
            )
        },
{
    assert(a.take(i).drop_last() =~= a.take(i - 1));
    assert(b.take(j).drop_last() =~= b.take(j - 1));
}

/// The last cell of the table holds the distance between the whole
/// sequences.
pub proof fn lemma_prefix_distance_full(a: Seq<u8>, b: Seq<u8>)
    ensures
        prefix_distance(a, b, a.len() as int, b.len() as int) == edit_distance(a, b),
{
    assert(a.take(a.len() as int) =~= a);
    assert(b.take(b.len() as int) =~= b);
}

} // verus!
