//! The dynamic-programming table: its shape, its initial contents and the
//! row-by-row pass that fills it.

use vstd::prelude::*;
use crate::metric::lemma_bounds;
use crate::recurrence::{
    lemma_prefix_distance_border, lemma_prefix_distance_step, min3, prefix_distance,
};

verus! {

/// `grid` has the shape of a table for sequences of `n` and `m` elements:
/// rows `0..=n`, each with columns `0..=m`.
pub(crate) open spec fn is_table(grid: Seq<Vec<usize>>, n: int, m: int) -> bool {
    &&& grid.len() == n + 1
    &&& forall|r: int| 0 <= r <= n ==> (#[trigger] grid[r])@.len() == m + 1
}

/// What a fresh table holds in row `r`, column `c`: the row number down the
/// first column, the column number along the first row, zero elsewhere.
pub(crate) open spec fn initial_cell(r: int, c: int) -> int {
    if c == 0 {
        r
    } else if r == 0 {
        c
    } else {
        0
    }
}

/// Rows `0..=n` of `grid` are as in a fresh table with columns `0..=m`.
pub(crate) open spec fn is_fresh(grid: Seq<Vec<usize>>, n: int, m: int) -> bool {
    forall|r: int, c: int|
        0 <= r <= n && 0 <= c <= m ==> #[trigger] grid[r]@[c] == initial_cell(r, c)
}

/// In rows `0..rows` of `grid`, every cell holds the distance between the
/// prefix of `a` that its row stands for and the prefix of `b` that its
/// column stands for.
pub(crate) open spec fn is_filled(
    grid: Seq<Vec<usize>>,
    a: Seq<u8>,
    b: Seq<u8>,
    rows: int,
) -> bool {
    forall|r: int, c: int|
        0 <= r < rows && 0 <= c <= b.len() ==> #[trigger] grid[r]@[c] == prefix_distance(
            a,
            b,
            r,
            c,
        )
}

/// Whether two byte strings hold the same bytes.
pub(crate) fn bytes_equal(a: &[u8], b: &[u8]) -> (equal: bool)
    ensures
        equal <==> a@ == b@,
{
    if a.len() != b.len() {
        return false;
    }
    let mut i: usize = 0;
    while i < a.len()
        invariant
            i <= a@.len(),
            a@.len() == b@.len(),
            a@.take(i as int) == b@.take(i as int),
        decreases a@.len() - i,
    {
        if a[i] != b[i] {
            return false;
        }
        assert(a@.take(i + 1) =~= a@.take(i as int).push(a@[i as int]));
        assert(b@.take(i + 1) =~= b@.take(i as int).push(b@[i as int]));
        i += 1;
    }
    assert(a@ =~= a@.take(i as int));
    assert(b@ =~= b@.take(i as int));
    true
}

/// The least of three table cells.
fn least(x: usize, y: usize, z: usize) -> (least: usize)
    ensures
        least == min3(x as nat, y as nat, z as nat),
{
    if x <= y && x <= z {
        x
    } else if y <= z {
        y
    } else {
        z
    }
}

/// Row `r` of a fresh table with columns `0..=m`.
fn initial_row(r: usize, m: usize) -> (row: Vec<usize>)
    ensures
        row@.len() == m + 1,
        forall|c: int| 0 <= c <= m ==> row@[c] == initial_cell(r as int, c),
{
    let mut row: Vec<usize> = Vec::new();
    row.push(r);
    let mut c: usize = 0;
    while c < m
        invariant
            c <= m,
            row@.len() == c + 1,
            forall|k: int| 0 <= k <= c ==> row@[k] == initial_cell(r as int, k),
        decreases m - c,
    {
        c += 1;
        row.push(if r == 0 { c } else { 0 });
    }
    row
}

/// A fresh table for sequences of `n` and `m` elements.
pub(crate) fn initial_table(n: usize, m: usize) -> (d: Vec<Vec<usize>>)
    ensures
        is_table(d@, n as int, m as int),
        is_fresh(d@, n as int, m as int),
{
    let mut d: Vec<Vec<usize>> = Vec::new();
    d.push(initial_row(0, m));
    let mut r: usize = 0;
    while r < n
        invariant
            r <= n,
            is_table(d@, r as int, m as int),
            is_fresh(d@, r as int, m as int),
        decreases n - r,
    {
        r += 1;
        d.push(initial_row(r, m));
    }
    d
}

/// Fills a fresh table for `a` and `b` row by row, each row from left to
/// right, so that in the end every cell holds the distance between the
/// prefixes it stands for.
pub(crate) fn fill_table(d: &mut Vec<Vec<usize>>, a: &[u8], b: &[u8])
    requires
        is_table(old(d)@, a@.len() as int, b@.len() as int),
        is_fresh(old(d)@, a@.len() as int, b@.len() as int),
    ensures
        is_table(final(d)@, a@.len() as int, b@.len() as int),
        is_filled(final(d)@, a@, b@, a@.len() as int + 1),
{
    let rows = d.len();
    let cols = d[0].len();
    proof {
        assert forall|c: int| 0 <= c < cols implies d@[0]@[c] == prefix_distance(a@, b@, 0, c) by {
            lemma_prefix_distance_border(a@, b@, 0, c);
        }
    }
    for i in 1..rows
        invariant
            rows == a@.len() + 1,
            cols == b@.len() + 1,
            is_table(d@, a@.len() as int, b@.len() as int),
            is_filled(d@, a@, b@, i as int),
            forall|r: int| i <= r < rows ==> (#[trigger] d@[r])@[0] == r,
    {
        proof {
            lemma_prefix_distance_border(a@, b@, i as int, 0);
        }
        for x in 1..cols
            invariant
                rows == a@.len() + 1,
                cols == b@.len() + 1,
                0 < i < rows,
                is_table(d@, a@.len() as int, b@.len() as int),
                is_filled(d@, a@, b@, i as int),
                forall|c: int|
                    0 <= c < x ==> #[trigger] d@[i as int]@[c] == prefix_distance(
                        a@,
                        b@,
                        i as int,
                        c,
                    ),
                forall|r: int| i < r < rows ==> (#[trigger] d@[r])@[0] == r,
        {
            proof {
                lemma_prefix_distance_step(a@, b@, i as int, x as int);
                // The cell diagonally above is less than `usize::MAX`, so
                // adding one to the least of the three cannot overflow.
                lemma_bounds(a@.take(i - 1), b@.take(x - 1));
            }
            if a[i - 1] == b[x - 1] {
                d[i][x] = d[i - 1][x - 1];
            } else {
                d[i][x] = 1 + least(d[i - 1][x], d[i][x - 1], d[i - 1][x - 1]);
            }
        }
    }
}

} // verus!
