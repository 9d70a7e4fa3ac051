//! The board as plain values, and the counts taken over it.
use vstd::prelude::*;

verus! {

/// The rows of a grid of cell bytes, each as a sequence.
pub open spec fn grid_view(cells: Vec<Vec<u8>>) -> Seq<Seq<u8>> {
    cells@.map_values(|r: Vec<u8>| r@)
}

/// `g` has `h` rows of `w` cells each.
pub open spec fn has_shape(g: Seq<Seq<u8>>, w: int, h: int) -> bool {
    &&& g.len() == h
    &&& forall|y: int| 0 <= y < h ==> #[trigger] g[y].len() == w
}

/// `g` has at least `h` rows, each of at least `w` cells: the board of `w` by `h` fits in it.
pub open spec fn covers(g: Seq<Seq<u8>>, w: int, h: int) -> bool {
    &&& g.len() >= h
    &&& forall|y: int| 0 <= y < h ==> #[trigger] g[y].len() >= w
}

/// How many cells of a row hold `v`.
pub open spec fn row_count(r: Seq<u8>, v: u8) -> nat
    decreases r.len(),
{
    if r.len() == 0 {
        0
    } else {
        row_count(r.drop_last(), v) + if r.last() == v {
            1nat
        } else {
            0nat
        }
    }
}

/// How many cells of a board hold `v`.
pub open spec fn grid_count(g: Seq<Seq<u8>>, v: u8) -> nat
    decreases g.len(),
{
    if g.len() == 0 {
        0
    } else {
        grid_count(g.drop_last(), v) + row_count(g.last(), v)
    }
}

/// How many cells a board has, row by row.
pub open spec fn total_cells(g: Seq<Seq<u8>>) -> nat
    decreases g.len(),
{
    if g.len() == 0 {
        0
    } else {
        total_cells(g.drop_last()) + g.last().len()
    }
}

/// The living cells of a board: the red ones and the blue ones.
pub open spec fn population_of(g: Seq<Seq<u8>>) -> nat {
    grid_count(g, 1) + grid_count(g, 2)
}

/// A row holds at most as many red and blue cells together as it has cells.
pub proof fn lemma_row_counts_bounded(r: Seq<u8>)
    ensures
        row_count(r, 1) + row_count(r, 2) <= r.len(),
    decreases r.len(),
{
    if r.len() > 0 {
        lemma_row_counts_bounded(r.drop_last());
    }
}

/// A board holds at most as many red and blue cells together as it has cells.
pub proof fn lemma_population_bounded(g: Seq<Seq<u8>>)
    ensures
        population_of(g) <= total_cells(g),
    decreases g.len(),
{
    if g.len() > 0 {
        lemma_population_bounded(g.drop_last());
        lemma_row_counts_bounded(g.last());
    }
}

/// A board of `h` rows of `w` cells has `w * h` cells.
pub proof fn lemma_total_cells_of_shape(g: Seq<Seq<u8>>, w: int, h: int)
    requires
        has_shape(g, w, h),
        w >= 0,
    ensures
        total_cells(g) == w * h,
    decreases g.len(),
{
    if g.len() > 0 {
        let g2 = g.drop_last();
        assert(has_shape(g2, w, h - 1));
        lemma_total_cells_of_shape(g2, w, h - 1);
        assert(w * (h - 1) + w == w * h) by (nonlinear_arith);
    } else {
        assert(w * h == 0) by (nonlinear_arith)
            requires
                h == 0,
        ;
    }
}

/// Counting after one cell of a row changes.
pub proof fn lemma_row_count_update(r: Seq<u8>, i: int, nv: u8, v: u8)
    requires
        0 <= i < r.len(),
    ensures
        row_count(r.update(i, nv), v) + (if r[i] == v { 1int } else { 0int }) == row_count(r, v)
            + (if nv == v { 1int } else { 0int }),
    decreases r.len(),
{
    let r2 = r.update(i, nv);
    if i == r.len() - 1 {
        assert(r2.drop_last() =~= r.drop_last());
    } else {
        assert(r2.drop_last() =~= r.drop_last().update(i, nv));
        lemma_row_count_update(r.drop_last(), i, nv, v);
    }
}

/// Counting after one row of a board changes.
pub proof fn lemma_grid_count_update(g: Seq<Seq<u8>>, y: int, row: Seq<u8>, v: u8)
    requires
        0 <= y < g.len(),
    ensures
        grid_count(g.update(y, row), v) + row_count(g[y], v) == grid_count(g, v) + row_count(row, v),
    decreases g.len(),
{
    let g2 = g.update(y, row);
    if y == g.len() - 1 {
        assert(g2.drop_last() =~= g.drop_last());
    } else {
        assert(g2.drop_last() =~= g.drop_last().update(y, row));
        lemma_grid_count_update(g.drop_last(), y, row, v);
    }
}

/// Changing one row keeps the number of cells when the row keeps its length.
pub proof fn lemma_total_cells_update(g: Seq<Seq<u8>>, y: int, row: Seq<u8>)
    requires
        0 <= y < g.len(),
        row.len() == g[y].len(),
    ensures
        total_cells(g.update(y, row)) == total_cells(g),
    decreases g.len(),
{
    let g2 = g.update(y, row);
    if y == g.len() - 1 {
        assert(g2.drop_last() =~= g.drop_last());
    } else {
        assert(g2.drop_last() =~= g.drop_last().update(y, row));
        lemma_total_cells_update(g.drop_last(), y, row);
    }
}

/// A row of zeros holds no cell of any other value.
pub proof fn lemma_row_count_zeros(r: Seq<u8>, v: u8)
    requires
        v != 0,
        forall|i: int| 0 <= i < r.len() ==> r[i] == 0,
    ensures
        row_count(r, v) == 0,
    decreases r.len(),
{
    if r.len() > 0 {
        lemma_row_count_zeros(r.drop_last(), v);
    }
}

/// A board of zeros holds no cell of any other value.
pub proof fn lemma_grid_count_zeros(g: Seq<Seq<u8>>, v: u8)
    requires
        v != 0,
        forall|y: int, x: int| 0 <= y < g.len() && 0 <= x < g[y].len() ==> g[y][x] == 0,
    ensures
        grid_count(g, v) == 0,
    decreases g.len(),
{
    if g.len() > 0 {
        lemma_grid_count_zeros(g.drop_last(), v);
        lemma_row_count_zeros(g.last(), v);
    }
}

/// Boards whose rows have the same lengths have as many cells.
pub proof fn lemma_total_cells_same_shape(a: Seq<Seq<u8>>, b: Seq<Seq<u8>>)
    requires
        a.len() == b.len(),
        forall|y: int| 0 <= y < a.len() ==> #[trigger] a[y].len() == b[y].len(),
    ensures
        total_cells(a) == total_cells(b),
    decreases a.len(),
{
    if a.len() > 0 {
        lemma_total_cells_same_shape(a.drop_last(), b.drop_last());
    }
}

/// A prefix of a row holds no more of a value than the row.
pub proof fn lemma_row_count_prefix(r: Seq<u8>, n: int, v: u8)
    requires
        0 <= n <= r.len(),
    ensures
        row_count(r.take(n), v) <= row_count(r, v),
    decreases r.len(),
{
    if n < r.len() {
        assert(r.drop_last().take(n) =~= r.take(n));
        lemma_row_count_prefix(r.drop_last(), n, v);
    } else {
        assert(r.take(n) =~= r);
    }
}

/// A prefix of a board has no more cells, and holds no more living cells, than the board.
pub proof fn lemma_total_cells_prefix(g: Seq<Seq<u8>>, n: int)
    requires
        0 <= n <= g.len(),
    ensures
        total_cells(g.take(n)) <= total_cells(g),
        population_of(g.take(n)) <= population_of(g),
    decreases g.len(),
{
    if n < g.len() {
        assert(g.drop_last().take(n) =~= g.take(n));
        lemma_total_cells_prefix(g.drop_last(), n);
    } else {
        assert(g.take(n) =~= g);
    }
}

} // verus!
