//! The order in which the entries of the Jacobian are listed.
//!
//! A residual block with `dim` residuals over variables of tangent sizes
//! `sizes` has a dense local Jacobian of `dim` rows and `total(sizes)`
//! columns. Every entry of every local Jacobian is one entry of the global
//! sparse Jacobian. The plan fixes the order of these entries once; the
//! positions handed to the sparse pattern and the values handed to the
//! numeric refill are both read off it, so the two always agree.

use vstd::prelude::*;
use crate::layout::{lemma_segment_within_total, offset, total};
use crate::matrix::DenseMatrix;

verus! {

/// One entry of the Jacobian: its place in the global matrix, the block that
/// computes it and its place in that block's dense local Jacobian.
pub struct Cell {
    pub row: int,
    pub col: int,
    pub block: int,
    pub local_row: int,
    pub local_col: int,
}

/// What the layout needs of one residual block: its rows, and for each of
/// its variables in turn the tangent size and the global column at which
/// the variable starts.
pub struct BlockLayout {
    pub row_start: nat,
    pub dim: nat,
    pub sizes: Seq<nat>,
    pub cols: Seq<nat>,
}

/// Whether every entry that `layout` gives rise to lies inside a matrix of
/// `nrows` by `ncols`.
pub open spec fn in_range(layout: BlockLayout, nrows: nat, ncols: nat) -> bool {
    forall|k: int|
        0 <= k < layout.sizes.len() && layout.dim > 0 && #[trigger] layout.sizes[k] > 0
            ==> layout.row_start + layout.dim <= nrows && layout.cols[k] + layout.sizes[k]
            <= ncols
}

/// The entries of row `r` of variable `k` of a block, left to right.
pub open spec fn row_cells(b: int, layout: BlockLayout, k: int, r: int) -> Seq<Cell> {
    Seq::new(
        layout.sizes[k],
        |c: int|
            Cell {
                row: layout.row_start + r,
                col: layout.cols[k] + c,
                block: b,
                local_row: r,
                local_col: offset(layout.sizes, k) + c,
            },
    )
}

/// The entries of the first `n` rows of variable `k` of a block, row by row.
pub open spec fn var_cells(b: int, layout: BlockLayout, k: int, n: int) -> Seq<Cell>
    decreases n,
{
    if n <= 0 {
        Seq::empty()
    } else {
        var_cells(b, layout, k, n - 1) + row_cells(b, layout, k, n - 1)
    }
}

/// The entries of the first `n` variables of a block, variable by variable.
pub open spec fn block_cells(b: int, layout: BlockLayout, n: int) -> Seq<Cell>
    decreases n,
{
    if n <= 0 {
        Seq::empty()
    } else {
        block_cells(b, layout, n - 1) + var_cells(b, layout, n - 1, layout.dim as int)
    }
}

/// The entries of the first `n` blocks, block by block.
pub open spec fn plan_cells(layouts: Seq<BlockLayout>, n: int) -> Seq<Cell>
    decreases n,
{
    if n <= 0 {
        Seq::empty()
    } else {
        plan_cells(layouts, n - 1) + block_cells(
            n - 1,
            layouts[n - 1],
            layouts[n - 1].sizes.len() as int,
        )
    }
}

/// Every entry of the Jacobian in the order in which the problem lists
/// them: block by block, within a block variable by variable, within a
/// variable row by row, within a row left to right.
pub open spec fn plan(layouts: Seq<BlockLayout>) -> Seq<Cell> {
    plan_cells(layouts, layouts.len() as int)
}

/// Where each listed entry goes in the global matrix.
pub open spec fn positions(cells: Seq<Cell>) -> Seq<(usize, usize)> {
    Seq::new(cells.len(), |i: int| (cells[i].row as usize, cells[i].col as usize))
}

/// What each listed entry holds, read from the blocks' local Jacobians.
pub open spec fn readings<V: Copy>(cells: Seq<Cell>, jacobians: Seq<DenseMatrix<V>>) -> Seq<V> {
    Seq::new(
        cells.len(),
        |i: int| jacobians[cells[i].block].at(cells[i].local_row, cells[i].local_col),
    )
}

/// Listing positions distributes over concatenation.
pub proof fn lemma_positions_add(a: Seq<Cell>, b: Seq<Cell>)
    ensures
        positions(a + b) == positions(a) + positions(b),
{
    assert(positions(a + b) =~= positions(a) + positions(b));
}

/// Reading entries distributes over concatenation.
pub proof fn lemma_readings_add<V: Copy>(a: Seq<Cell>, b: Seq<Cell>, jacobians: Seq<DenseMatrix<V>>)
    ensures
        readings(a + b, jacobians) == readings(a, jacobians) + readings(b, jacobians),
{
    assert(readings(a + b, jacobians) =~= readings(a, jacobians) + readings(b, jacobians));
}

/// A variable without tangent coordinates contributes no entry.
pub proof fn lemma_var_cells_empty(b: int, layout: BlockLayout, k: int, n: int)
    requires
        layout.sizes[k] == 0,
    ensures
        var_cells(b, layout, k, n) == Seq::<Cell>::empty(),
    decreases n,
{
    if n > 0 {
        lemma_var_cells_empty(b, layout, k, n - 1);
        assert(row_cells(b, layout, k, n - 1) =~= Seq::<Cell>::empty());
        assert(var_cells(b, layout, k, n) =~= Seq::<Cell>::empty());
    }
}

/// A variable contributes one entry per row and tangent coordinate.
pub proof fn lemma_var_cells_len(b: int, layout: BlockLayout, k: int, n: int)
    requires
        0 <= n,
    ensures
        var_cells(b, layout, k, n).len() == n * layout.sizes[k],
    decreases n,
{
    if n > 0 {
        lemma_var_cells_len(b, layout, k, n - 1);
        assert(n * layout.sizes[k] == (n - 1) * layout.sizes[k] + layout.sizes[k])
            by (nonlinear_arith);
    } else {
        assert(0 * layout.sizes[k] == 0) by (nonlinear_arith);
    }
}

/// A block contributes one entry per row and tangent coordinate of each of
/// its variables: as many as its dense local Jacobian holds.
pub proof fn lemma_block_cells_len(b: int, layout: BlockLayout, n: int)
    requires
        0 <= n <= layout.sizes.len(),
    ensures
        block_cells(b, layout, n).len() == layout.dim * offset(layout.sizes, n),
    decreases n,
{
    if n > 0 {
        lemma_block_cells_len(b, layout, n - 1);
        lemma_var_cells_len(b, layout, n - 1, layout.dim as int);
        assert(layout.dim * offset(layout.sizes, n) == layout.dim * offset(layout.sizes, n - 1)
            + layout.dim * layout.sizes[n - 1]) by (nonlinear_arith)
            requires
                offset(layout.sizes, n) == offset(layout.sizes, n - 1) + layout.sizes[n - 1],
        ;
    } else {
        assert(layout.dim * 0 == 0) by (nonlinear_arith);
    }
}

/// Whether `cell` is an entry of variable `k` of a block laid out as
/// `layout`: its local column lies in the variable's segment, and its global
/// column is as far from the variable's first column.
pub open spec fn in_var(cell: Cell, layout: BlockLayout, k: int) -> bool {
    &&& offset(layout.sizes, k) <= cell.local_col < offset(layout.sizes, k) + layout.sizes[k]
    &&& cell.col == layout.cols[k] + cell.local_col - offset(layout.sizes, k)
}

/// Whether `cell` is an entry of block `b` laid out as `layout`: it lies in
/// one of the block's rows and belongs to one of the block's variables.
pub open spec fn in_block(cell: Cell, b: int, layout: BlockLayout) -> bool {
    &&& cell.block == b
    &&& 0 <= cell.local_row < layout.dim
    &&& cell.row == layout.row_start + cell.local_row
    &&& exists|k: int| 0 <= k < layout.sizes.len() && #[trigger] in_var(cell, layout, k)
}

/// Every listed entry of the first `n` rows of a variable lies in one of
/// these rows and belongs to the variable.
pub proof fn lemma_var_cells_member(b: int, layout: BlockLayout, k: int, n: int, i: int)
    requires
        0 <= i < var_cells(b, layout, k, n).len(),
    ensures
        var_cells(b, layout, k, n)[i].block == b,
        0 <= var_cells(b, layout, k, n)[i].local_row < n,
        var_cells(b, layout, k, n)[i].row == layout.row_start + var_cells(
            b,
            layout,
            k,
            n,
        )[i].local_row,
        in_var(var_cells(b, layout, k, n)[i], layout, k),
    decreases n,
{
    if n > 0 {
        let earlier = var_cells(b, layout, k, n - 1);
        if i < earlier.len() {
            lemma_var_cells_member(b, layout, k, n - 1, i);
        } else {
            assert(var_cells(b, layout, k, n)[i] == row_cells(b, layout, k, n - 1)[i
                - earlier.len()]);
        }
    }
}

/// Every listed entry of the first `n` variables of a block is an entry of
/// the block.
pub proof fn lemma_block_cells_member(b: int, layout: BlockLayout, n: int, i: int)
    requires
        0 <= n <= layout.sizes.len(),
        0 <= i < block_cells(b, layout, n).len(),
    ensures
        in_block(block_cells(b, layout, n)[i], b, layout),
    decreases n,
{
    if n > 0 {
        let earlier = block_cells(b, layout, n - 1);
        if i < earlier.len() {
            lemma_block_cells_member(b, layout, n - 1, i);
        } else {
            let cell = block_cells(b, layout, n)[i];
            assert(cell == var_cells(b, layout, n - 1, layout.dim as int)[i - earlier.len()]);
            lemma_var_cells_member(b, layout, n - 1, layout.dim as int, i - earlier.len());
            assert(in_var(cell, layout, n - 1));
        }
    }
}

/// Every listed entry of the first `n` blocks is an entry of the block that
/// it names.
pub proof fn lemma_plan_cells_member(layouts: Seq<BlockLayout>, n: int, i: int)
    requires
        0 <= n <= layouts.len(),
        0 <= i < plan_cells(layouts, n).len(),
    ensures
        0 <= plan_cells(layouts, n)[i].block < n,
        in_block(plan_cells(layouts, n)[i], plan_cells(layouts, n)[i].block, layouts[plan_cells(
            layouts,
            n,
        )[i].block]),
    decreases n,
{
    if n > 0 {
        let earlier = plan_cells(layouts, n - 1);
        if i < earlier.len() {
            lemma_plan_cells_member(layouts, n - 1, i);
        } else {
            let layout = layouts[n - 1];
            assert(plan_cells(layouts, n)[i] == block_cells(
                n - 1,
                layout,
                layout.sizes.len() as int,
            )[i - earlier.len()]);
            lemma_block_cells_member(n - 1, layout, layout.sizes.len() as int, i - earlier.len());
        }
    }
}

/// Where every block's entries lie inside a matrix of `nrows` by `ncols`,
/// every listed position does.
pub proof fn lemma_plan_within(layouts: Seq<BlockLayout>, nrows: usize, ncols: usize)
    requires
        forall|b: int|
            0 <= b < layouts.len() ==> in_range(#[trigger] layouts[b], nrows as nat, ncols as nat),
    ensures
        forall|i: int|
            0 <= i < plan(layouts).len() ==> 0 <= (#[trigger] plan(layouts)[i]).row < nrows && 0
                <= plan(layouts)[i].col < ncols,
        forall|i: int|
            0 <= i < positions(plan(layouts)).len() ==> (#[trigger] positions(
                plan(layouts),
            )[i]).0 < nrows && positions(plan(layouts))[i].1 < ncols,
{
    let cells = plan(layouts);
    assert forall|i: int| 0 <= i < cells.len() implies 0 <= (#[trigger] cells[i]).row < nrows && 0
        <= cells[i].col < ncols by {
        lemma_plan_cells_member(layouts, layouts.len() as int, i);
        let cell = cells[i];
        let layout = layouts[cell.block];
        let k = choose|k: int| 0 <= k < layout.sizes.len() && #[trigger] in_var(cell, layout, k);
        assert(in_range(layout, nrows as nat, ncols as nat));
        assert(layout.sizes[k] > 0);
    }
    assert forall|i: int| 0 <= i < positions(cells).len() implies (#[trigger] positions(
        cells,
    )[i]).0 < nrows && positions(cells)[i].1 < ncols by {
        assert(0 <= cells[i].row < nrows && 0 <= cells[i].col < ncols);
    }
}

/// Number of entries that the first `n` blocks list: for each block the
/// size of its dense local Jacobian.
pub open spec fn entry_count(layouts: Seq<BlockLayout>, n: int) -> nat
    decreases n,
{
    if n <= 0 {
        0
    } else {
        entry_count(layouts, n - 1) + layouts[n - 1].dim * total(layouts[n - 1].sizes)
    }
}

/// The plan lists as many entries as the dense local Jacobians hold
/// together.
pub proof fn lemma_plan_len(layouts: Seq<BlockLayout>, n: int)
    requires
        0 <= n <= layouts.len(),
    ensures
        plan_cells(layouts, n).len() == entry_count(layouts, n),
    decreases n,
{
    if n > 0 {
        lemma_plan_len(layouts, n - 1);
        lemma_block_cells_len(n - 1, layouts[n - 1], layouts[n - 1].sizes.len() as int);
    }
}

/// The value listed at place `i` is the entry of a block's local Jacobian
/// whose place in the global matrix is the position listed at place `i`:
/// positions and values are read off the same entry.
pub proof fn lemma_values_match_positions<V: Copy>(
    layouts: Seq<BlockLayout>,
    jacobians: Seq<DenseMatrix<V>>,
    i: int,
)
    requires
        0 <= i < plan(layouts).len(),
    ensures
        positions(plan(layouts)).len() == readings(plan(layouts), jacobians).len(),
        ({
            let cell = plan(layouts)[i];
            &&& 0 <= cell.block < layouts.len()
            &&& in_block(cell, cell.block, layouts[cell.block])
            &&& positions(plan(layouts))[i] == (cell.row as usize, cell.col as usize)
            &&& readings(plan(layouts), jacobians)[i] == jacobians[cell.block].at(
                cell.local_row,
                cell.local_col,
            )
        }),
{
    lemma_plan_cells_member(layouts, layouts.len() as int, i);
}

/// The entry in row `r` and tangent coordinate `c` of variable `k` of block
/// `b`.
pub open spec fn cell_at(b: int, layout: BlockLayout, k: int, r: int, c: int) -> Cell {
    Cell {
        row: layout.row_start + r,
        col: layout.cols[k] + c,
        block: b,
        local_row: r,
        local_col: offset(layout.sizes, k) + c,
    }
}

/// Place of an entry among the entries of its variable lies among them.
pub proof fn lemma_place_in_var(n: int, size: int, r: int, c: int)
    requires
        0 <= r < n,
        0 <= c < size,
    ensures
        0 <= r * size + c < n * size,
        r * size + size == (r + 1) * size,
{
    assert(r * size + c < n * size) by (nonlinear_arith)
        requires
            0 <= r < n,
            0 <= c < size,
    ;
    assert(0 <= r * size) by (nonlinear_arith)
        requires
            0 <= r,
            0 <= size,
    ;
    assert(r * size + size == (r + 1) * size) by (nonlinear_arith);
}

/// Among the entries of the first `n` rows of a variable, the entry in row
/// `r` and tangent coordinate `c` is listed at place `r * size + c`.
pub proof fn lemma_var_cell_place(b: int, layout: BlockLayout, k: int, n: int, r: int, c: int)
    requires
        0 <= r < n,
        0 <= c < layout.sizes[k],
    ensures
        0 <= r * layout.sizes[k] + c < var_cells(b, layout, k, n).len(),
        var_cells(b, layout, k, n)[r * layout.sizes[k] + c] == cell_at(b, layout, k, r, c),
    decreases n,
{
    let size = layout.sizes[k] as int;
    lemma_var_cells_len(b, layout, k, n);
    lemma_var_cells_len(b, layout, k, n - 1);
    lemma_place_in_var(n, size, r, c);
    if r < n - 1 {
        lemma_var_cell_place(b, layout, k, n - 1, r, c);
    } else {
        assert(var_cells(b, layout, k, n)[r * size + c] == row_cells(b, layout, k, n - 1)[c]);
    }
}

/// Among the entries of the first `n` variables of a block, the entry in
/// row `r` and tangent coordinate `c` of variable `k` is listed after the
/// entries of the variables before `k` and the rows before `r`.
pub proof fn lemma_block_cell_place(b: int, layout: BlockLayout, n: int, k: int, r: int, c: int)
    requires
        0 <= k < n <= layout.sizes.len(),
        0 <= r < layout.dim,
        0 <= c < layout.sizes[k],
    ensures
        0 <= layout.dim * offset(layout.sizes, k) + r * layout.sizes[k] + c < block_cells(
            b,
            layout,
            n,
        ).len(),
        block_cells(b, layout, n)[layout.dim * offset(layout.sizes, k) + r * layout.sizes[k] + c]
            == cell_at(b, layout, k, r, c),
    decreases n,
{
    let dim = layout.dim as int;
    lemma_block_cells_len(b, layout, n);
    lemma_block_cells_len(b, layout, n - 1);
    if k < n - 1 {
        lemma_block_cell_place(b, layout, n - 1, k, r, c);
    } else {
        lemma_var_cell_place(b, layout, k, dim, r, c);
        let before = block_cells(b, layout, n - 1);
        let place = r * layout.sizes[k] + c;
        assert(before.len() == dim * offset(layout.sizes, k));
        assert(block_cells(b, layout, n)[before.len() + place] == var_cells(
            b,
            layout,
            k,
            dim,
        )[place]);
    }
}

/// Every entry of every dense local Jacobian is listed, at the place that
/// its block, variable, row and tangent coordinate determine. As the plan
/// lists no more entries than the local Jacobians hold, it lists each
/// exactly once.
pub proof fn lemma_plan_cell_place(
    layouts: Seq<BlockLayout>,
    n: int,
    b: int,
    k: int,
    r: int,
    c: int,
)
    requires
        0 <= b < n <= layouts.len(),
        0 <= k < layouts[b].sizes.len(),
        0 <= r < layouts[b].dim,
        0 <= c < layouts[b].sizes[k],
    ensures
        0 <= entry_count(layouts, b) + layouts[b].dim * offset(layouts[b].sizes, k) + r
            * layouts[b].sizes[k] + c < plan_cells(layouts, n).len(),
        plan_cells(layouts, n)[entry_count(layouts, b) + layouts[b].dim * offset(
            layouts[b].sizes,
            k,
        ) + r * layouts[b].sizes[k] + c] == cell_at(b, layouts[b], k, r, c),
    decreases n,
{
    lemma_plan_len(layouts, n);
    lemma_plan_len(layouts, n - 1);
    if b < n - 1 {
        lemma_plan_cell_place(layouts, n - 1, b, k, r, c);
    } else {
        let layout = layouts[b];
        lemma_block_cell_place(b, layout, layout.sizes.len() as int, k, r, c);
        let before = plan_cells(layouts, n - 1);
        let place = layout.dim * offset(layout.sizes, k) + r * layout.sizes[k] + c;
        assert(plan_cells(layouts, n)[before.len() + place] == block_cells(
            b,
            layout,
            layout.sizes.len() as int,
        )[place]);
    }
}

} // verus!
