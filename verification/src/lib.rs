//! Levenshtein edit distance between two strings, counted over their UTF-8
//! code units.
//!
//! [`levenshtein_distance`] fills the classic dynamic-programming table. Its
//! result is proved to be the length of a shortest script of single-unit
//! insertions, deletions and substitutions that turns the first string into
//! the second, and the distance is proved to be a metric.

use vstd::math::{abs, max};
use vstd::prelude::*;
use vstd::string::StringSliceAdditionalSpecFns;
use vstd::utf8::encode_utf8_decode_utf8;

pub mod metric;
pub mod optimal;
pub mod recurrence;
pub mod script;
mod table;

use crate::metric::{lemma_bounds, lemma_zero_iff_equal};
use crate::optimal::{is_least_edit_count, lemma_distance_is_least_edit_count};
use crate::recurrence::{edit_distance, lemma_prefix_distance_full};
use crate::table::{bytes_equal, fill_table, initial_table};

verus! {

/// Two strings hold the same code units exactly when they are the same
/// string.
pub proof fn lemma_same_units_same_string(a: &str, b: &str)
    ensures
        a.spec_bytes() == b.spec_bytes() <==> a@ == b@,
{
    encode_utf8_decode_utf8(a@);
    encode_utf8_decode_utf8(b@);
}

/// The Levenshtein distance between `a` and `b`: the least number of
/// single-unit insertions, deletions and substitutions that turn the UTF-8
/// code units of `a` into those of `b`.
///
/// A character outside ASCII counts once for every code unit of its
/// encoding, so the distance between `"é"` and `"e"` is two.
///
/// # Example
/// ```
/// use levenshtein_distance::levenshtein_distance;
/// assert_eq!(levenshtein_distance("playwright", "playright"), 1);
/// ```
pub fn levenshtein_distance<'a>(a: &'a str, b: &'a str) -> (distance: usize)
    ensures
        distance == edit_distance(a.spec_bytes(), b.spec_bytes()),
        is_least_edit_count(a.spec_bytes(), b.spec_bytes(), distance as nat),
        distance == 0 <==> a@ == b@,
        abs(a.spec_bytes().len() - b.spec_bytes().len()) <= distance <= max(
            a.spec_bytes().len() as int,
            b.spec_bytes().len() as int,
        ),
{
    let a_units = a.as_bytes();
    let b_units = b.as_bytes();
    proof {
        lemma_distance_is_least_edit_count(
            a_units@,
            b_units@,
            edit_distance(a_units@, b_units@),
        );
        lemma_zero_iff_equal(a_units@, b_units@);
        lemma_same_units_same_string(a, b);
        lemma_bounds(a_units@, b_units@);
    }

    if bytes_equal(a_units, b_units) {
        return 0;
    }
    if a_units.is_empty() {
        return b_units.len();
    }
    if b_units.is_empty() {
        return a_units.len();
    }

    let mut d = initial_table(a_units.len(), b_units.len());
    fill_table(&mut d, a_units, b_units);
    proof {
        lemma_prefix_distance_full(a_units@, b_units@);
    }
    d[a_units.len()][b_units.len()]
}

} // verus!
