//! The recurrence computes what it should: the length of a shortest edit
//! script from one sequence to the other.

use vstd::prelude::*;
use crate::metric::{lemma_identity, lemma_triangle};
use crate::recurrence::{edit_distance, lemma_drop_last_changes_by_one};
use crate::script::{
    lemma_single_edit_transforms, lemma_transforms_before_suffix, lemma_transforms_compose,
    transforms, Edit,
};

verus! {

/// Whether `n` is the least number of edits that transform `a` into `b`:
/// some script of `n` edits does so, and no script of fewer edits does.
pub open spec fn is_least_edit_count(a: Seq<u8>, b: Seq<u8>, n: nat) -> bool {
    &&& exists|script: Seq<Edit>| #[trigger] transforms(script, a, b) && script.len() == n
    &&& forall|script: Seq<Edit>| #[trigger] transforms(script, a, b) ==> n <= script.len()
}

/// A suffix shared by both sequences does not add to their distance.
pub proof fn lemma_common_suffix(a: Seq<u8>, b: Seq<u8>, suffix: Seq<u8>)
    ensures
        edit_distance(a + suffix, b + suffix) == edit_distance(a, b),
    decreases suffix.len(),
{
    if suffix.len() == 0 {
        assert(a + suffix =~= a);
        assert(b + suffix =~= b);
    } else {
        lemma_common_suffix(a, b, suffix.drop_last());
        assert((a + suffix).drop_last() =~= a + suffix.drop_last());
        assert((b + suffix).drop_last() =~= b + suffix.drop_last());
    }
}

/// One edit moves a sequence by a distance of at most one.
pub proof fn lemma_single_edit_distance(edit: Edit, s: Seq<u8>)
    requires
        edit.applies_to(s),
    ensures
        edit_distance(s, edit.apply(s)) <= 1,
{
    match edit {
        Edit::Insert { at, unit } => {
            let before = s.take(at);
            let after = s.skip(at);
            assert(s =~= before + after);
            assert(edit.apply(s) =~= before.push(unit) + after);
            assert(before.push(unit).drop_last() =~= before);
            lemma_common_suffix(before, before.push(unit), after);
            lemma_drop_last_changes_by_one(before, before.push(unit));
            lemma_identity(before);
        },
        Edit::Delete { at } => {
            let before = s.take(at);
            let after = s.skip(at + 1);
            assert(s =~= before.push(s[at]) + after);
            assert(edit.apply(s) =~= before + after);
            assert(before.push(s[at]).drop_last() =~= before);
            lemma_common_suffix(before.push(s[at]), before, after);
            lemma_drop_last_changes_by_one(before.push(s[at]), before);
            lemma_identity(before);
        },
        Edit::Substitute { at, unit } => {
            let before = s.take(at);
            let after = s.skip(at + 1);
            assert(s =~= before.push(s[at]) + after);
            assert(edit.apply(s) =~= before.push(unit) + after);
            assert(before.push(s[at]).drop_last() =~= before);
            assert(before.push(unit).drop_last() =~= before);
            lemma_common_suffix(before.push(s[at]), before.push(unit), after);
            lemma_identity(before);
        },
    }
}

/// No script that transforms `a` into `b` is shorter than their distance.
pub proof fn lemma_no_shorter_script(script: Seq<Edit>, a: Seq<u8>, b: Seq<u8>)
    requires
        transforms(script, a, b),
    ensures
        edit_distance(a, b) <= script.len(),
    decreases script.len(),
{
    if script.len() == 0 {
        lemma_identity(a);
    } else {
        let next = script[0].apply(a);
        lemma_single_edit_distance(script[0], a);
        lemma_no_shorter_script(script.drop_first(), next, b);
        lemma_triangle(a, next, b);
    }
}

/// Some script of exactly `edit_distance(a, b)` edits transforms `a` into
/// `b`; the proof builds one along the recurrence and returns it.
pub proof fn lemma_shortest_script(a: Seq<u8>, b: Seq<u8>) -> (script: Seq<Edit>)
    ensures
        transforms(script, a, b),
        script.len() == edit_distance(a, b),
    decreases a.len() + b.len(),
{
    let d = edit_distance(a, b);
    let differ = a.len() > 0 && b.len() > 0 && a.last() != b.last();
    let by_insertion = differ && d == edit_distance(a, b.drop_last()) + 1;
    let by_deletion = differ && d == edit_distance(a.drop_last(), b) + 1;
    if a.len() == 0 && b.len() == 0 {
        assert(a =~= b);
        Seq::empty()
    } else if a.len() == 0 || by_insertion {
        // Reach all of `b` but its last element, then insert that element.
        let shorter = lemma_shortest_script(a, b.drop_last());
        let insert = Edit::Insert { at: b.len() - 1, unit: b.last() };
        assert(insert.apply(b.drop_last()) =~= b);
        lemma_single_edit_transforms(insert, b.drop_last());
        lemma_transforms_compose(shorter, seq![insert], a, b.drop_last(), b);
        shorter + seq![insert]
    } else if b.len() == 0 || by_deletion {
        // Delete the last element of `a`, then go on from what is left.
        let shorter = lemma_shortest_script(a.drop_last(), b);
        let delete = Edit::Delete { at: a.len() - 1 };
        assert(delete.apply(a) =~= a.drop_last());
        lemma_single_edit_transforms(delete, a);
        lemma_transforms_compose(seq![delete], shorter, a, a.drop_last(), b);
        seq![delete] + shorter
    } else {
        // Transform all but the last elements, in front of the last element
        // of `a`, and substitute that element where it differs from `b`'s.
        let shorter = lemma_shortest_script(a.drop_last(), b.drop_last());
        lemma_transforms_before_suffix(shorter, a.drop_last(), b.drop_last(), seq![a.last()]);
        assert(a =~= a.drop_last() + seq![a.last()]);
        let aligned = b.drop_last() + seq![a.last()];
        if a.last() == b.last() {
            assert(aligned =~= b);
            shorter
        } else {
            let substitute = Edit::Substitute { at: b.len() - 1, unit: b.last() };
            assert(substitute.apply(aligned) =~= b);
            lemma_single_edit_transforms(substitute, aligned);
            lemma_transforms_compose(shorter, seq![substitute], a, aligned, b);
            shorter + seq![substitute]
        }
    }
}

/// The distance, and no other number, is the least number of edits that
/// transform `a` into `b`.
pub proof fn lemma_distance_is_least_edit_count(a: Seq<u8>, b: Seq<u8>, n: nat)
    ensures
        is_least_edit_count(a, b, n) <==> n == edit_distance(a, b),
{
    let shortest = lemma_shortest_script(a, b);
    if n == edit_distance(a, b) {
        assert(transforms(shortest, a, b) && shortest.len() == n);
        assert forall|script: Seq<Edit>| #[trigger] transforms(script, a, b) implies n
            <= script.len() by {
            lemma_no_shorter_script(script, a, b);
        }
    }
    if is_least_edit_count(a, b, n) {
        let witness = choose|script: Seq<Edit>| #[trigger]
            transforms(script, a, b) && script.len() == n;
        lemma_no_shorter_script(witness, a, b);
        assert(transforms(shortest, a, b));
    }
}

} // verus!
