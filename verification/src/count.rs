//! Counting occurrences of a value in a two-dimensional sequence, with the
//! lemmas the generator and the reachability checker need: how a count
//! changes under a point update, and how it is bounded by the dimensions.

use vstd::prelude::*;

verus! {

/// Number of entries equal to `k` among the first `c` entries of `row`.
pub open spec fn row_count<T>(row: Seq<T>, k: T, c: int) -> nat
    decreases c,
{
    if c <= 0 {
        0
    } else {
        row_count(row, k, c - 1) + (if row[c - 1] == k {
            1nat
        } else {
            0nat
        })
    }
}

/// Number of entries equal to `k` in the first `r` rows of `g`, each row
/// counted over its whole length.
pub open spec fn grid_count_upto<T>(g: Seq<Seq<T>>, k: T, r: int) -> nat
    decreases r,
{
    if r <= 0 {
        0
    } else {
        grid_count_upto(g, k, r - 1) + row_count(g[r - 1], k, g[r - 1].len() as int)
    }
}

/// Number of entries equal to `k` in all of `g`.
pub open spec fn count_cells<T>(g: Seq<Seq<T>>, k: T) -> nat {
    grid_count_upto(g, k, g.len() as int)
}

/// Rows that agree on their first `c` entries have the same count there.
proof fn lemma_row_count_congruence<T>(row1: Seq<T>, row2: Seq<T>, k: T, c: int)
    requires
        forall|j: int| 0 <= j < c ==> row1[j] == row2[j],
    ensures
        row_count(row1, k, c) == row_count(row2, k, c),
    decreases c,
{
    if c > 0 {
        lemma_row_count_congruence(row1, row2, k, c - 1);
    }
}

/// How a row's count changes when one entry in the counted range is replaced.
proof fn lemma_row_count_update<T>(row: Seq<T>, k: T, c: int, j: int, v: T)
    requires
        0 <= j < c,
        c <= row.len(),
    ensures
        row_count(row.update(j, v), k, c) + (if row[j] == k {
            1nat
        } else {
            0nat
        }) == row_count(row, k, c) + (if v == k {
            1nat
        } else {
            0nat
        }),
    decreases c,
{
    let row2 = row.update(j, v);
    if j == c - 1 {
        lemma_row_count_congruence(row2, row, k, c - 1);
    } else {
        lemma_row_count_update(row, k, c - 1, j, v);
    }
}

/// Grids that agree on their first `r` rows have the same count there.
proof fn lemma_grid_count_congruence<T>(g1: Seq<Seq<T>>, g2: Seq<Seq<T>>, k: T, r: int)
    requires
        forall|i: int| 0 <= i < r ==> g1[i] == g2[i],
    ensures
        grid_count_upto(g1, k, r) == grid_count_upto(g2, k, r),
    decreases r,
{
    if r > 0 {
        lemma_grid_count_congruence(g1, g2, k, r - 1);
    }
}

/// How the total count changes when one entry of one row is replaced.
pub proof fn lemma_count_cells_update<T>(g: Seq<Seq<T>>, k: T, i: int, j: int, v: T)
    requires
        0 <= i < g.len(),
        0 <= j < g[i].len(),
    ensures
        count_cells(g.update(i, g[i].update(j, v)), k) + (if g[i][j] == k {
            1nat
        } else {
            0nat
        }) == count_cells(g, k) + (if v == k {
            1nat
        } else {
            0nat
        }),
{
    let g2 = g.update(i, g[i].update(j, v));
    lemma_grid_count_rows_update(g, k, i, j, v, g.len() as int);
    assert(g2.len() == g.len());
}

/// The inductive core of `lemma_count_cells_update`, over a row prefix.
proof fn lemma_grid_count_rows_update<T>(g: Seq<Seq<T>>, k: T, i: int, j: int, v: T, r: int)
    requires
        0 <= i < g.len(),
        0 <= j < g[i].len(),
        i < r <= g.len(),
    ensures
        grid_count_upto(g.update(i, g[i].update(j, v)), k, r) + (if g[i][j] == k {
            1nat
        } else {
            0nat
        }) == grid_count_upto(g, k, r) + (if v == k {
            1nat
        } else {
            0nat
        }),
    decreases r,
{
    let g2 = g.update(i, g[i].update(j, v));
    if r - 1 == i {
        lemma_grid_count_congruence(g2, g, k, i);
        assert(g2[i] == g[i].update(j, v));
        assert(g2[i].len() == g[i].len());
        lemma_row_count_update(g[i], k, g[i].len() as int, j, v);
    } else {
        assert(g2[r - 1] == g[r - 1]);
        lemma_grid_count_rows_update(g, k, i, j, v, r - 1);
    }
}

/// A row with no entry equal to `k` in range contributes nothing.
proof fn lemma_row_count_zero<T>(row: Seq<T>, k: T, c: int)
    requires
        forall|j: int| 0 <= j < c ==> row[j] != k,
    ensures
        row_count(row, k, c) == 0,
    decreases c,
{
    if c > 0 {
        lemma_row_count_zero(row, k, c - 1);
    }
}

/// A grid with no entry equal to `k` has count zero.
pub proof fn lemma_count_cells_zero<T>(g: Seq<Seq<T>>, k: T)
    requires
        forall|r: int, c: int| 0 <= r < g.len() && 0 <= c < g[r].len() ==> g[r][c] != k,
    ensures
        count_cells(g, k) == 0,
{
    lemma_grid_count_upto_zero(g, k, g.len() as int);
}

/// The inductive core of `lemma_count_cells_zero`.
proof fn lemma_grid_count_upto_zero<T>(g: Seq<Seq<T>>, k: T, r: int)
    requires
        r <= g.len(),
        forall|i: int, c: int| 0 <= i < g.len() && 0 <= c < g[i].len() ==> g[i][c] != k,
    ensures
        grid_count_upto(g, k, r) == 0,
    decreases r,
{
    if r > 0 {
        lemma_grid_count_upto_zero(g, k, r - 1);
        lemma_row_count_zero(g[r - 1], k, g[r - 1].len() as int);
    }
}

/// A row whose entries each kept their value or moved away from `k` has no
/// more entries equal to `k` than before.
proof fn lemma_row_count_pointwise_le<T>(row1: Seq<T>, row2: Seq<T>, k: T, c: int)
    requires
        forall|j: int| 0 <= j < c ==> row2[j] == row1[j] || row2[j] != k,
    ensures
        row_count(row2, k, c) <= row_count(row1, k, c),
    decreases c,
{
    if c > 0 {
        lemma_row_count_pointwise_le(row1, row2, k, c - 1);
    }
}

/// A grid whose entries each kept their value or moved away from `k` has
/// no more entries equal to `k` than before.
pub proof fn lemma_count_cells_pointwise_le<T>(g1: Seq<Seq<T>>, g2: Seq<Seq<T>>, k: T)
    requires
        g2.len() == g1.len(),
        forall|r: int| 0 <= r < g1.len() ==> (#[trigger] g2[r]).len() == g1[r].len(),
        forall|r: int, c: int|
            0 <= r < g1.len() && 0 <= c < g1[r].len() ==> #[trigger] g2[r][c] == g1[r][c]
                || g2[r][c] != k,
    ensures
        count_cells(g2, k) <= count_cells(g1, k),
{
    lemma_grid_count_pointwise_le(g1, g2, k, g1.len() as int);
}

/// The inductive core of `lemma_count_cells_pointwise_le`.
proof fn lemma_grid_count_pointwise_le<T>(g1: Seq<Seq<T>>, g2: Seq<Seq<T>>, k: T, r: int)
    requires
        r <= g1.len(),
        g2.len() == g1.len(),
        forall|i: int| 0 <= i < g1.len() ==> (#[trigger] g2[i]).len() == g1[i].len(),
        forall|i: int, c: int|
            0 <= i < g1.len() && 0 <= c < g1[i].len() ==> #[trigger] g2[i][c] == g1[i][c]
                || g2[i][c] != k,
    ensures
        grid_count_upto(g2, k, r) <= grid_count_upto(g1, k, r),
    decreases r,
{
    if r > 0 {
        lemma_grid_count_pointwise_le(g1, g2, k, r - 1);
        lemma_row_count_pointwise_le(g1[r - 1], g2[r - 1], k, g1[r - 1].len() as int);
    }
}

/// A row's count never exceeds the counted range.
proof fn lemma_row_count_le<T>(row: Seq<T>, k: T, c: int)
    requires
        c >= 0,
    ensures
        row_count(row, k, c) <= c,
    decreases c,
{
    if c > 0 {
        lemma_row_count_le(row, k, c - 1);
    }
}

/// A grid of `r` rows of width `w` holds at most `r * w` entries equal to `k`.
pub proof fn lemma_grid_count_le<T>(g: Seq<Seq<T>>, k: T, r: int, w: int)
    requires
        0 <= r <= g.len(),
        w >= 0,
        forall|i: int| 0 <= i < g.len() ==> (#[trigger] g[i]).len() == w,
    ensures
        grid_count_upto(g, k, r) <= r * w,
    decreases r,
{
    if r > 0 {
        lemma_grid_count_le(g, k, r - 1, w);
        lemma_row_count_le(g[r - 1], k, w);
        assert((r - 1) * w + w == r * w) by (nonlinear_arith);
    }
}

} // verus!
