//! Laying a problem out as a sparse system: which column every variable
//! starts at, which entries of the Jacobian the residual blocks fill, in
//! which order those entries are listed, and where every block's residuals
//! go in the global residual.

use vstd::prelude::*;
use crate::layout::{
    checked_total, lemma_offset_monotonic, lemma_segment_within_total, offset, sizes_of, total,
};
use crate::manifold::Manifold;
use crate::matrix::DenseMatrix;
use crate::plan::{
    block_cells, in_range, lemma_positions_add, lemma_readings_add, lemma_var_cells_empty, plan,
    plan_cells, positions, readings, row_cells, var_cells, BlockLayout, Cell,
};
use crate::name_map::NameMap;
use crate::parameter_block::ParameterBlock;
use crate::problem::{dims_of, Problem, ProblemError};
use crate::residual_block::ResidualBlock;

verus! {

/// The tangent sizes of a sequence of parameter blocks.
pub open spec fn tangent_dims<V: Copy, M: Manifold>(blocks: Seq<ParameterBlock<'_, V, M>>) -> Seq<
    nat,
> {
    Seq::new(blocks.len(), |i: int| blocks[i].tangent_dim())
}

/// Whether every variable of `block` has a parameter block and a column.
pub open spec fn resolves<F, L, V: Copy, M: Manifold>(
    block: ResidualBlock<F, L>,
    parameter_blocks: NameMap<ParameterBlock<'_, V, M>>,
    columns: NameMap<usize>,
) -> bool {
    forall|k: int|
        0 <= k < block.keys().len() ==> parameter_blocks.contains(#[trigger] block.keys()[k])
            && columns.contains(block.keys()[k])
}

/// The layout of `block`: sizes from the parameter blocks, columns from the
/// column map, both looked up by name.
pub open spec fn layout_of<F, L, V: Copy, M: Manifold>(
    block: ResidualBlock<F, L>,
    parameter_blocks: NameMap<ParameterBlock<'_, V, M>>,
    columns: NameMap<usize>,
) -> BlockLayout {
    BlockLayout {
        row_start: block.residual_row_start_idx as nat,
        dim: block.dim_residual as nat,
        sizes: Seq::new(
            block.keys().len(),
            |k: int| parameter_blocks.value_of(block.keys()[k]).tangent_dim(),
        ),
        cols: Seq::new(block.keys().len(), |k: int| columns.value_of(block.keys()[k]) as nat),
    }
}

impl<F, L, V: Copy, M: Manifold> Problem<F, L, V, M> {
    /// The layouts of all blocks, oldest first.
    pub open spec fn layouts(
        &self,
        parameter_blocks: NameMap<ParameterBlock<'_, V, M>>,
        columns: NameMap<usize>,
    ) -> Seq<BlockLayout> {
        Seq::new(
            self.blocks().len(),
            |b: int| layout_of(self.blocks()[b], parameter_blocks, columns),
        )
    }

    /// Whether every variable of every block has a parameter block and a
    /// column.
    pub open spec fn all_resolve(
        &self,
        parameter_blocks: NameMap<ParameterBlock<'_, V, M>>,
        columns: NameMap<usize>,
    ) -> bool {
        forall|b: int|
            0 <= b < self.blocks().len() ==> resolves(
                #[trigger] self.blocks()[b],
                parameter_blocks,
                columns,
            )
    }

    /// Whether every entry of every block lies inside a matrix of `nrows`
    /// by `ncols`.
    pub open spec fn all_in_range(
        &self,
        parameter_blocks: NameMap<ParameterBlock<'_, V, M>>,
        columns: NameMap<usize>,
        nrows: nat,
        ncols: nat,
    ) -> bool {
        forall|b: int|
            0 <= b < self.blocks().len() ==> in_range(
                #[trigger] self.layouts(parameter_blocks, columns)[b],
                nrows,
                ncols,
            )
    }

    /// Sum of the tangent sizes of all parameter blocks: the number of
    /// columns of the Jacobian. `None` where the sum is no machine integer.
    pub fn total_variable_dimension(parameter_blocks: &NameMap<ParameterBlock<'_, V, M>>) -> (r:
        Option<usize>)
        requires
            parameter_blocks.wf(),
        ensures
            r matches Some(t) ==> t == total(tangent_dims(parameter_blocks.values())),
            r is None ==> total(tangent_dims(parameter_blocks.values())) > usize::MAX,
    {
        let ghost dims = tangent_dims(parameter_blocks.values());
        let n = parameter_blocks.len();
        let mut sum: usize = 0;
        let mut i: usize = 0;
        while i < n
            invariant
                i <= n,
                n == parameter_blocks.values().len(),
                parameter_blocks.wf(),
                dims == tangent_dims(parameter_blocks.values()),
                sum == offset(dims, i as int),
            decreases n - i,
        {
            let size = parameter_blocks.value(i).tangent_size();
            match sum.checked_add(size) {
                Some(next) => {
                    sum = next;
                },
                None => {
                    proof {
                        lemma_offset_monotonic(dims, i + 1, dims.len() as int);
                    }
                    return None;
                },
            }
            i += 1;
        }
        Some(sum)
    }

    /// The column at which each variable starts: variables take their
    /// columns in the order of `parameter_blocks`, each as many as its
    /// tangent size.
    pub fn get_variable_name_to_col_idx_dict(
        &self,
        parameter_blocks: &NameMap<ParameterBlock<'_, V, M>>,
    ) -> (r: NameMap<usize>)
        requires
            parameter_blocks.wf(),
            total(tangent_dims(parameter_blocks.values())) <= usize::MAX,
        ensures
            r.wf(),
            r.names() == parameter_blocks.names(),
            forall|i: int|
                0 <= i < r.values().len() ==> #[trigger] r.values()[i] == offset(
                    tangent_dims(parameter_blocks.values()),
                    i,
                ),
    {
        let ghost dims = tangent_dims(parameter_blocks.values());
        let mut columns: NameMap<usize> = NameMap::new();
        let n = parameter_blocks.len();
        let mut count_col_idx: usize = 0;
        let mut i: usize = 0;
        while i < n
            invariant
                i <= n,
                n == parameter_blocks.values().len(),
                parameter_blocks.wf(),
                dims == tangent_dims(parameter_blocks.values()),
                total(dims) <= usize::MAX,
                count_col_idx == offset(dims, i as int),
                columns.wf(),
                columns.names() == parameter_blocks.names().take(i as int),
                columns.values().len() == i,
                forall|k: int| 0 <= k < i ==> #[trigger] columns.values()[k] == offset(dims, k),
            decreases n - i,
        {
            let name = parameter_blocks.name(i);
            let size = parameter_blocks.value(i).tangent_size();
            proof {
                let names = parameter_blocks.names();
                let seen = names.take(i as int);
                assert(!seen.contains(names[i as int])) by {
                    if seen.contains(names[i as int]) {
                        let k = choose|k: int| 0 <= k < seen.len() && seen[k] == names[i as int];
                        assert(names[k] == names[i as int]);
                    }
                }
                assert(seen.push(names[i as int]) =~= names.take(i + 1));
                lemma_segment_within_total(dims, i as int);
            }
            columns.push_new(name.as_str(), count_col_idx);
            count_col_idx = count_col_idx + size;
            i += 1;
        }
        assert(parameter_blocks.names().take(n as int) =~= parameter_blocks.names());
        columns
    }
}

/// Column and tangent size of each variable of `block`, or `None` where a
/// variable has no parameter block or no column.
pub fn resolve_block<F, L, V: Copy, M: Manifold>(
    block: &ResidualBlock<F, L>,
    parameter_blocks: &NameMap<ParameterBlock<'_, V, M>>,
    columns: &NameMap<usize>,
) -> (r: Option<Vec<(usize, usize)>>)
    requires
        parameter_blocks.wf(),
        columns.wf(),
    ensures
        r is Some <==> resolves(*block, *parameter_blocks, *columns),
        r matches Some(found) ==> matches_layout(
            found@,
            layout_of(*block, *parameter_blocks, *columns),
        ),
{
    let ghost layout = layout_of(*block, *parameter_blocks, *columns);
    let mut found: Vec<(usize, usize)> = Vec::new();
    let n = block.variable_key_list.len();
    let mut k: usize = 0;
    while k < n
        invariant
            k <= n,
            n == block.keys().len(),
            parameter_blocks.wf(),
            columns.wf(),
            layout == layout_of(*block, *parameter_blocks, *columns),
            found@.len() == k,
            forall|t: int|
                0 <= t < k ==> parameter_blocks.contains(#[trigger] block.keys()[t])
                    && columns.contains(block.keys()[t]),
            forall|t: int|
                0 <= t < k ==> (#[trigger] found@[t]).0 == layout.cols[t] && found@[t].1
                    == layout.sizes[t],
        decreases n - k,
    {
        let key = &block.variable_key_list[k];
        assert(key@ == block.keys()[k as int]);
        let size = match parameter_blocks.get(key.as_str()) {
            Some(parameter_block) => parameter_block.tangent_size(),
            None => {
                return None;
            },
        };
        let column = match columns.get(key.as_str()) {
            Some(column) => *column,
            None => {
                return None;
            },
        };
        found.push((column, size));
        k += 1;
    }
    Some(found)
}

/// The parameter blocks of the variables of `block`, in the order in which
/// the factor reads them, or `None` where a variable has no parameter block.
pub fn block_parameters<'p, 'a, F, L, V: Copy, M: Manifold>(
    block: &ResidualBlock<F, L>,
    parameter_blocks: &'p NameMap<ParameterBlock<'a, V, M>>,
) -> (r: Option<Vec<&'p ParameterBlock<'a, V, M>>>)
    requires
        parameter_blocks.wf(),
    ensures
        r is Some <==> forall|k: int|
            0 <= k < block.keys().len() ==> parameter_blocks.contains(#[trigger] block.keys()[k]),
        r matches Some(found) ==> found@.len() == block.keys().len() && forall|k: int|
            0 <= k < found@.len() ==> *(#[trigger] found@[k]) == parameter_blocks.value_of(
                block.keys()[k],
            ),
{
    let mut found: Vec<&'p ParameterBlock<'a, V, M>> = Vec::new();
    let n = block.variable_key_list.len();
    let mut k: usize = 0;
    while k < n
        invariant
            k <= n,
            n == block.keys().len(),
            parameter_blocks.wf(),
            found@.len() == k,
            forall|t: int| 0 <= t < k ==> parameter_blocks.contains(#[trigger] block.keys()[t]),
            forall|t: int|
                0 <= t < k ==> *(#[trigger] found@[t]) == parameter_blocks.value_of(
                    block.keys()[t],
                ),
        decreases n - k,
    {
        let key = &block.variable_key_list[k];
        assert(key@ == block.keys()[k as int]);
        match parameter_blocks.get(key.as_str()) {
            Some(parameter_block) => {
                found.push(parameter_block);
            },
            None => {
                return None;
            },
        }
        k += 1;
    }
    Some(found)
}

/// Whether `found` lists the column and the tangent size of each variable
/// of `layout`.
pub open spec fn matches_layout(found: Seq<(usize, usize)>, layout: BlockLayout) -> bool {
    &&& found.len() == layout.sizes.len()
    &&& found.len() == layout.cols.len()
    &&& forall|k: int|
        0 <= k < found.len() ==> (#[trigger] found[k]).0 == layout.cols[k] && found[k].1
            == layout.sizes[k]
}

/// Appends the positions of one row of one variable.
fn append_row_positions(
    out: &mut Vec<(usize, usize)>,
    row: usize,
    column: usize,
    size: usize,
    Ghost(b): Ghost<int>,
    Ghost(layout): Ghost<BlockLayout>,
    Ghost(k): Ghost<int>,
    Ghost(r): Ghost<int>,
)
    requires
        0 <= k < layout.sizes.len(),
        k < layout.cols.len(),
        row == layout.row_start + r,
        column == layout.cols[k],
        size == layout.sizes[k],
        column + size <= usize::MAX,
    ensures
        final(out)@ == old(out)@ + positions(row_cells(b, layout, k, r)),
{
    let ghost cells = row_cells(b, layout, k, r);
    let mut c: usize = 0;
    while c < size
        invariant
            c <= size,
            size == layout.sizes[k],
            column == layout.cols[k],
            row == layout.row_start + r,
            column + size <= usize::MAX,
            cells == row_cells(b, layout, k, r),
            out@ == old(out)@ + positions(cells).take(c as int),
        decreases size - c,
    {
        out.push((row, column + c));
        assert(positions(cells)[c as int] == (row, (column + c) as usize));
        assert(out@ =~= old(out)@ + positions(cells).take(c + 1));
        c += 1;
    }
    assert(positions(cells).take(size as int) =~= positions(cells));
}

/// Appends the positions of all entries of one block.
fn append_block_positions(
    out: &mut Vec<(usize, usize)>,
    row_start: usize,
    dim: usize,
    found: &Vec<(usize, usize)>,
    nrows: usize,
    ncols: usize,
    Ghost(b): Ghost<int>,
    Ghost(layout): Ghost<BlockLayout>,
)
    requires
        matches_layout(found@, layout),
        row_start == layout.row_start,
        dim == layout.dim,
        in_range(layout, nrows as nat, ncols as nat),
    ensures
        final(out)@ == old(out)@ + positions(block_cells(b, layout, layout.sizes.len() as int)),
{
    let n = found.len();
    let mut k: usize = 0;
    while k < n
        invariant
            k <= n,
            n == layout.sizes.len(),
            matches_layout(found@, layout),
            row_start == layout.row_start,
            dim == layout.dim,
            in_range(layout, nrows as nat, ncols as nat),
            out@ == old(out)@ + positions(block_cells(b, layout, k as int)),
        decreases n - k,
    {
        let (column, size) = found[k];
        let ghost before = out@;
        if size > 0 && dim > 0 {
            assert(layout.sizes[k as int] > 0);
            let mut r: usize = 0;
            while r < dim
                invariant
                    r <= dim,
                    0 <= k < layout.sizes.len(),
                    k < layout.cols.len(),
                    row_start == layout.row_start,
                    dim == layout.dim,
                    column == layout.cols[k as int],
                    size == layout.sizes[k as int],
                    column + size <= usize::MAX,
                    row_start + dim <= usize::MAX,
                    out@ == before + positions(var_cells(b, layout, k as int, r as int)),
                decreases dim - r,
            {
                let ghost so_far = out@;
                append_row_positions(
                    out,
                    row_start + r,
                    column,
                    size,
                    Ghost(b),
                    Ghost(layout),
                    Ghost(k as int),
                    Ghost(r as int),
                );
                proof {
                    lemma_positions_add(
                        var_cells(b, layout, k as int, r as int),
                        row_cells(b, layout, k as int, r as int),
                    );
                    assert(out@ =~= before + positions(var_cells(b, layout, k as int, r + 1)));
                }
                r += 1;
            }
        } else {
            proof {
                if size == 0 {
                    lemma_var_cells_empty(b, layout, k as int, dim as int);
                }
                assert(positions(var_cells(b, layout, k as int, dim as int)) =~= Seq::<
                    (usize, usize),
                >::empty());
                assert(out@ =~= before + positions(var_cells(b, layout, k as int, dim as int)));
            }
        }
        proof {
            lemma_positions_add(
                block_cells(b, layout, k as int),
                var_cells(b, layout, k as int, dim as int),
            );
            assert(out@ =~= old(out)@ + positions(block_cells(b, layout, k + 1)));
        }
        k += 1;
    }
}

/// Whether every entry of one block lies inside a matrix of `nrows` by
/// `ncols`.
fn block_in_range(
    row_start: usize,
    dim: usize,
    found: &Vec<(usize, usize)>,
    nrows: usize,
    ncols: usize,
    Ghost(layout): Ghost<BlockLayout>,
) -> (ok: bool)
    requires
        matches_layout(found@, layout),
        row_start == layout.row_start,
        dim == layout.dim,
        row_start + dim <= usize::MAX,
    ensures
        ok == in_range(layout, nrows as nat, ncols as nat),
{
    let rows_fit = row_start + dim <= nrows;
    let n = found.len();
    let mut k: usize = 0;
    while k < n
        invariant
            k <= n,
            n == layout.sizes.len(),
            matches_layout(found@, layout),
            row_start == layout.row_start,
            dim == layout.dim,
            rows_fit == (row_start + dim <= nrows),
            forall|t: int|
                0 <= t < k && layout.dim > 0 && #[trigger] layout.sizes[t] > 0 ==> layout.row_start
                    + layout.dim <= nrows && layout.cols[t] + layout.sizes[t] <= ncols,
        decreases n - k,
    {
        let (column, size) = found[k];
        if dim > 0 && size > 0 {
            let columns_fit = match column.checked_add(size) {
                Some(end) => end <= ncols,
                None => false,
            };
            if !(rows_fit && columns_fit) {
                assert(layout.sizes[k as int] > 0);
                return false;
            }
        }
        k += 1;
    }
    true
}

/// Appends what one block's local Jacobian holds at the block's entries.
fn append_block_readings<V: Copy>(
    out: &mut Vec<V>,
    jacobian: &DenseMatrix<V>,
    dim: usize,
    found: &Vec<(usize, usize)>,
    Ghost(b): Ghost<int>,
    Ghost(layout): Ghost<BlockLayout>,
    Ghost(jacobians): Ghost<Seq<DenseMatrix<V>>>,
)
    requires
        matches_layout(found@, layout),
        dim == layout.dim,
        0 <= b < jacobians.len(),
        jacobians[b] == *jacobian,
        jacobian.wf(),
        jacobian.rows() == layout.dim,
        jacobian.cols() == total(layout.sizes),
    ensures
        final(out)@ == old(out)@ + readings(
            block_cells(b, layout, layout.sizes.len() as int),
            jacobians,
        ),
{
    let n = found.len();
    let width = jacobian.ncols();
    let mut local: usize = 0;
    let mut k: usize = 0;
    while k < n
        invariant
            k <= n,
            n == layout.sizes.len(),
            width == total(layout.sizes),
            matches_layout(found@, layout),
            dim == layout.dim,
            0 <= b < jacobians.len(),
            jacobians[b] == *jacobian,
            jacobian.wf(),
            jacobian.rows() == layout.dim,
            jacobian.cols() == total(layout.sizes),
            local == offset(layout.sizes, k as int),
            out@ == old(out)@ + readings(block_cells(b, layout, k as int), jacobians),
        decreases n - k,
    {
        let size = found[k].1;
        let ghost before = out@;
        proof {
            lemma_segment_within_total(layout.sizes, k as int);
        }
        let mut r: usize = 0;
        while r < dim
            invariant
                r <= dim,
                0 <= k < layout.sizes.len(),
                width == total(layout.sizes),
                dim == layout.dim,
                size == layout.sizes[k as int],
                local == offset(layout.sizes, k as int),
                local + size <= total(layout.sizes),
                0 <= b < jacobians.len(),
                jacobians[b] == *jacobian,
                jacobian.wf(),
                jacobian.rows() == layout.dim,
                jacobian.cols() == total(layout.sizes),
                out@ == before + readings(var_cells(b, layout, k as int, r as int), jacobians),
            decreases dim - r,
        {
            let ghost row_start = out@;
            let ghost cells = row_cells(b, layout, k as int, r as int);
            let mut c: usize = 0;
            while c < size
                invariant
                    c <= size,
                    r < dim,
                    0 <= k < layout.sizes.len(),
                    width == total(layout.sizes),
                    dim == layout.dim,
                    size == layout.sizes[k as int],
                    local == offset(layout.sizes, k as int),
                    local + size <= total(layout.sizes),
                    0 <= b < jacobians.len(),
                    jacobians[b] == *jacobian,
                    jacobian.wf(),
                    jacobian.rows() == layout.dim,
                    jacobian.cols() == total(layout.sizes),
                    cells == row_cells(b, layout, k as int, r as int),
                    out@ == row_start + readings(cells, jacobians).take(c as int),
                decreases size - c,
            {
                let value = jacobian.get(r, local + c);
                out.push(value);
                assert(readings(cells, jacobians)[c as int] == value);
                assert(out@ =~= row_start + readings(cells, jacobians).take(c + 1));
                c += 1;
            }
            proof {
                assert(readings(cells, jacobians).take(size as int) =~= readings(
                    cells,
                    jacobians,
                ));
                lemma_readings_add(var_cells(b, layout, k as int, r as int), cells, jacobians);
                assert(out@ =~= before + readings(
                    var_cells(b, layout, k as int, r + 1),
                    jacobians,
                ));
            }
            r += 1;
        }
        proof {
            lemma_readings_add(
                block_cells(b, layout, k as int),
                var_cells(b, layout, k as int, dim as int),
                jacobians,
            );
            assert(out@ =~= old(out)@ + readings(block_cells(b, layout, k + 1), jacobians));
        }
        local = local + size;
        k += 1;
    }
}

/// Whether there is one local Jacobian per block, each as many rows as the
/// block has residuals and as many columns as the block's variables have
/// tangent coordinates.
pub open spec fn shapes_fit<V: Copy>(
    layouts: Seq<BlockLayout>,
    jacobians: Seq<DenseMatrix<V>>,
) -> bool {
    &&& jacobians.len() == layouts.len()
    &&& forall|b: int|
        0 <= b < layouts.len() ==> (#[trigger] jacobians[b]).rows() == layouts[b].dim
            && jacobians[b].cols() == total(layouts[b].sizes)
}

/// `base` with `segment` written over it from position `start` on.
pub open spec fn written<V>(base: Seq<V>, start: int, segment: Seq<V>) -> Seq<V> {
    Seq::new(
        base.len(),
        |i: int|
            if start <= i < start + segment.len() {
                segment[i - start]
            } else {
                base[i]
            },
    )
}

/// The global residual after the first `n` blocks have written theirs: it
/// starts out as `rows` copies of `zero`, and each block in turn writes its
/// residuals from its first row on.
pub open spec fn scattered<F, L, V>(
    blocks: Seq<ResidualBlock<F, L>>,
    residuals: Seq<Vec<V>>,
    rows: nat,
    zero: V,
    n: int,
) -> Seq<V>
    decreases n,
{
    if n <= 0 {
        Seq::new(rows, |i: int| zero)
    } else {
        written(
            scattered(blocks, residuals, rows, zero, n - 1),
            blocks[n - 1].residual_row_start_idx as int,
            residuals[n - 1]@,
        )
    }
}

/// Whether there is one residual vector per block, each as long as the block
/// has residuals.
pub open spec fn residuals_fit<F, L, V>(
    blocks: Seq<ResidualBlock<F, L>>,
    residuals: Seq<Vec<V>>,
) -> bool {
    &&& residuals.len() == blocks.len()
    &&& forall|b: int|
        0 <= b < blocks.len() ==> (#[trigger] residuals[b])@.len() == blocks[b].dim_residual
}

/// Whether the rows of every block that has residuals lie inside the first
/// `rows` rows.
pub open spec fn rows_fit<F, L>(blocks: Seq<ResidualBlock<F, L>>, rows: nat) -> bool {
    forall|b: int|
        0 <= b < blocks.len() && (#[trigger] blocks[b]).dim_residual > 0
            ==> blocks[b].residual_row_start_idx + blocks[b].dim_residual <= rows
}

impl<F, L, V: Copy, M: Manifold> Problem<F, L, V, M> {
    /// Column and tangent size of each variable of each block, or `None`
    /// where some variable has no parameter block or no column.
    fn resolve_all(
        &self,
        parameter_blocks: &NameMap<ParameterBlock<'_, V, M>>,
        columns: &NameMap<usize>,
    ) -> (r: Option<Vec<Vec<(usize, usize)>>>)
        requires
            parameter_blocks.wf(),
            columns.wf(),
        ensures
            r is Some <==> self.all_resolve(*parameter_blocks, *columns),
            r matches Some(found) ==> found@.len() == self.blocks().len() && forall|b: int|
                0 <= b < found@.len() ==> matches_layout(
                    (#[trigger] found@[b])@,
                    self.layouts(*parameter_blocks, *columns)[b],
                ),
    {
        let mut found: Vec<Vec<(usize, usize)>> = Vec::new();
        let n = self.residual_blocks.len();
        let mut b: usize = 0;
        while b < n
            invariant
                b <= n,
                n == self.blocks().len(),
                parameter_blocks.wf(),
                columns.wf(),
                found@.len() == b,
                forall|t: int|
                    0 <= t < b ==> resolves(
                        #[trigger] self.blocks()[t],
                        *parameter_blocks,
                        *columns,
                    ),
                forall|t: int|
                    0 <= t < b ==> matches_layout(
                        (#[trigger] found@[t])@,
                        self.layouts(*parameter_blocks, *columns)[t],
                    ),
            decreases n - b,
        {
            match resolve_block(&self.residual_blocks[b], parameter_blocks, columns) {
                Some(of_block) => {
                    found.push(of_block);
                },
                None => {
                    return None;
                },
            }
            b += 1;
        }
        Some(found)
    }

    /// The first variable, if any, that has no parameter block or no
    /// column: the position of its block and its position among the block's
    /// variables.
    pub fn missing_variable(
        &self,
        parameter_blocks: &NameMap<ParameterBlock<'_, V, M>>,
        columns: &NameMap<usize>,
    ) -> (r: Option<(usize, usize)>)
        requires
            parameter_blocks.wf(),
            columns.wf(),
        ensures
            r is None <==> self.all_resolve(*parameter_blocks, *columns),
            r matches Some((b, k)) ==> {
                &&& b < self.blocks().len()
                &&& k < self.blocks()[b as int].keys().len()
                &&& !(parameter_blocks.contains(self.blocks()[b as int].keys()[k as int])
                    && columns.contains(self.blocks()[b as int].keys()[k as int]))
            },
    {
        let n = self.residual_blocks.len();
        let mut b: usize = 0;
        while b < n
            invariant
                b <= n,
                n == self.blocks().len(),
                parameter_blocks.wf(),
                columns.wf(),
                forall|t: int|
                    0 <= t < b ==> resolves(
                        #[trigger] self.blocks()[t],
                        *parameter_blocks,
                        *columns,
                    ),
            decreases n - b,
        {
            let block = &self.residual_blocks[b];
            let m = block.variable_key_list.len();
            let mut k: usize = 0;
            while k < m
                invariant
                    k <= m,
                    b < n,
                    n == self.blocks().len(),
                    *block == self.blocks()[b as int],
                    m == block.keys().len(),
                    parameter_blocks.wf(),
                    columns.wf(),
                    forall|t: int|
                        0 <= t < k ==> parameter_blocks.contains(#[trigger] block.keys()[t])
                            && columns.contains(block.keys()[t]),
                decreases m - k,
            {
                let key = &block.variable_key_list[k];
                assert(key@ == block.keys()[k as int]);
                if !(parameter_blocks.contains_key(key.as_str()) && columns.contains_key(
                    key.as_str(),
                )) {
                    return Some((b, k));
                }
                k += 1;
            }
            b += 1;
        }
        None
    }

    /// The position `(row, column)` of every entry of the Jacobian, in the
    /// order of `plan`, for a matrix of `total_residual_dimension` rows and
    /// `total_variable_dimension` columns.
    pub fn jacobian_indices(
        &self,
        parameter_blocks: &NameMap<ParameterBlock<'_, V, M>>,
        total_variable_dimension: usize,
        variable_name_to_col_idx_dict: &NameMap<usize>,
    ) -> (r: Result<Vec<(usize, usize)>, ProblemError>)
        requires
            self.wf(),
            parameter_blocks.wf(),
            variable_name_to_col_idx_dict.wf(),
        ensures
            !self.all_resolve(*parameter_blocks, *variable_name_to_col_idx_dict) ==> r == Err::<
                Vec<(usize, usize)>,
                ProblemError,
            >(ProblemError::MissingVariable),
            self.all_resolve(*parameter_blocks, *variable_name_to_col_idx_dict)
                && !self.all_in_range(
                *parameter_blocks,
                *variable_name_to_col_idx_dict,
                self.total_residual_dimension as nat,
                total_variable_dimension as nat,
            ) ==> r == Err::<Vec<(usize, usize)>, ProblemError>(ProblemError::OutOfBounds),
            self.all_resolve(*parameter_blocks, *variable_name_to_col_idx_dict)
                && self.all_in_range(
                *parameter_blocks,
                *variable_name_to_col_idx_dict,
                self.total_residual_dimension as nat,
                total_variable_dimension as nat,
            ) ==> (r matches Ok(indices) && indices@ == positions(
                plan(self.layouts(*parameter_blocks, *variable_name_to_col_idx_dict)),
            )),
    {
        let ghost layouts = self.layouts(*parameter_blocks, *variable_name_to_col_idx_dict);
        let found = match self.resolve_all(parameter_blocks, variable_name_to_col_idx_dict) {
            Some(found) => found,
            None => {
                return Err(ProblemError::MissingVariable);
            },
        };
        let n = self.residual_blocks.len();
        let nrows = self.total_residual_dimension;
        let mut b: usize = 0;
        while b < n
            invariant
                b <= n,
                n == self.blocks().len(),
                n == found@.len(),
                self.wf(),
                nrows == self.total_residual_dimension,
                self.all_resolve(*parameter_blocks, *variable_name_to_col_idx_dict),
                layouts == self.layouts(*parameter_blocks, *variable_name_to_col_idx_dict),
                forall|t: int|
                    0 <= t < n ==> matches_layout((#[trigger] found@[t])@, layouts[t]),
                forall|t: int|
                    0 <= t < b ==> in_range(
                        #[trigger] layouts[t],
                        nrows as nat,
                        total_variable_dimension as nat,
                    ),
            decreases n - b,
        {
            let block = &self.residual_blocks[b];
            assert(*block == self.blocks()[b as int]);
            let fits = block_in_range(
                block.residual_row_start_idx,
                block.dim_residual,
                &found[b],
                nrows,
                total_variable_dimension,
                Ghost(layouts[b as int]),
            );
            if !fits {
                assert(!in_range(
                    self.layouts(*parameter_blocks, *variable_name_to_col_idx_dict)[b as int],
                    nrows as nat,
                    total_variable_dimension as nat,
                ));
                return Err(ProblemError::OutOfBounds);
            }
            b += 1;
        }
        let mut indices: Vec<(usize, usize)> = Vec::new();
        let mut b: usize = 0;
        while b < n
            invariant
                b <= n,
                n == self.blocks().len(),
                n == found@.len(),
                n == layouts.len(),
                nrows == self.total_residual_dimension,
                layouts == self.layouts(*parameter_blocks, *variable_name_to_col_idx_dict),
                forall|t: int|
                    0 <= t < n ==> matches_layout((#[trigger] found@[t])@, layouts[t]),
                forall|t: int|
                    0 <= t < n ==> in_range(
                        #[trigger] layouts[t],
                        nrows as nat,
                        total_variable_dimension as nat,
                    ),
                indices@ == positions(plan_cells(layouts, b as int)),
            decreases n - b,
        {
            let block = &self.residual_blocks[b];
            assert(*block == self.blocks()[b as int]);
            append_block_positions(
                &mut indices,
                block.residual_row_start_idx,
                block.dim_residual,
                &found[b],
                nrows,
                total_variable_dimension,
                Ghost(b as int),
                Ghost(layouts[b as int]),
            );
            proof {
                lemma_positions_add(
                    plan_cells(layouts, b as int),
                    block_cells(b as int, layouts[b as int], layouts[b as int].sizes.len() as int),
                );
            }
            b += 1;
        }
        Ok(indices)
    }

    /// What the Jacobian holds at every entry, in the order of `plan`, read
    /// from the dense local Jacobians of the blocks, one per block and oldest
    /// block first.
    pub fn jacobian_values(
        &self,
        parameter_blocks: &NameMap<ParameterBlock<'_, V, M>>,
        variable_name_to_col_idx_dict: &NameMap<usize>,
        jacobians: &Vec<DenseMatrix<V>>,
    ) -> (r: Result<Vec<V>, ProblemError>)
        requires
            self.wf(),
            parameter_blocks.wf(),
            variable_name_to_col_idx_dict.wf(),
            forall|b: int| 0 <= b < jacobians@.len() ==> (#[trigger] jacobians@[b]).wf(),
        ensures
            !self.all_resolve(*parameter_blocks, *variable_name_to_col_idx_dict) ==> r == Err::<
                Vec<V>,
                ProblemError,
            >(ProblemError::MissingVariable),
            self.all_resolve(*parameter_blocks, *variable_name_to_col_idx_dict) && !shapes_fit(
                self.layouts(*parameter_blocks, *variable_name_to_col_idx_dict),
                jacobians@,
            ) ==> r == Err::<Vec<V>, ProblemError>(ProblemError::ShapeMismatch),
            self.all_resolve(*parameter_blocks, *variable_name_to_col_idx_dict) && shapes_fit(
                self.layouts(*parameter_blocks, *variable_name_to_col_idx_dict),
                jacobians@,
            ) ==> (r matches Ok(values) && values@ == readings(
                plan(self.layouts(*parameter_blocks, *variable_name_to_col_idx_dict)),
                jacobians@,
            )),
    {
        let ghost layouts = self.layouts(*parameter_blocks, *variable_name_to_col_idx_dict);
        let found = match self.resolve_all(parameter_blocks, variable_name_to_col_idx_dict) {
            Some(found) => found,
            None => {
                return Err(ProblemError::MissingVariable);
            },
        };
        let n = self.residual_blocks.len();
        if jacobians.len() != n {
            return Err(ProblemError::ShapeMismatch);
        }
        let mut b: usize = 0;
        while b < n
            invariant
                b <= n,
                n == self.blocks().len(),
                n == found@.len(),
                n == jacobians@.len(),
                n == layouts.len(),
                self.all_resolve(*parameter_blocks, *variable_name_to_col_idx_dict),
                layouts == self.layouts(*parameter_blocks, *variable_name_to_col_idx_dict),
                forall|t: int|
                    0 <= t < n ==> matches_layout((#[trigger] found@[t])@, layouts[t]),
                forall|t: int|
                    0 <= t < b ==> (#[trigger] jacobians@[t]).rows() == layouts[t].dim
                        && jacobians@[t].cols() == total(layouts[t].sizes),
            decreases n - b,
        {
            let block = &self.residual_blocks[b];
            assert(*block == self.blocks()[b as int]);
            let width = tangent_width(&found[b], Ghost(layouts[b as int]));
            let jacobian = &jacobians[b];
            let held_rows = jacobian.nrows();
            let held_cols = jacobian.ncols();
            let fits = held_rows == block.dim_residual && match width {
                Some(width) => held_cols == width,
                None => false,
            };
            if !fits {
                assert(layouts[b as int].dim == block.dim_residual);
                assert(*jacobian == jacobians@[b as int]);
                assert(!(jacobians@[b as int].rows() == layouts[b as int].dim
                    && jacobians@[b as int].cols() == total(layouts[b as int].sizes)));
                return Err(ProblemError::ShapeMismatch);
            }
            b += 1;
        }
        let mut values: Vec<V> = Vec::new();
        let mut b: usize = 0;
        while b < n
            invariant
                b <= n,
                n == self.blocks().len(),
                n == found@.len(),
                n == jacobians@.len(),
                n == layouts.len(),
                layouts == self.layouts(*parameter_blocks, *variable_name_to_col_idx_dict),
                forall|t: int| 0 <= t < jacobians@.len() ==> (#[trigger] jacobians@[t]).wf(),
                forall|t: int|
                    0 <= t < n ==> matches_layout((#[trigger] found@[t])@, layouts[t]),
                shapes_fit(layouts, jacobians@),
                values@ == readings(plan_cells(layouts, b as int), jacobians@),
            decreases n - b,
        {
            let block = &self.residual_blocks[b];
            assert(*block == self.blocks()[b as int]);
            append_block_readings(
                &mut values,
                &jacobians[b],
                block.dim_residual,
                &found[b],
                Ghost(b as int),
                Ghost(layouts[b as int]),
                Ghost(jacobians@),
            );
            proof {
                lemma_readings_add(
                    plan_cells(layouts, b as int),
                    block_cells(b as int, layouts[b as int], layouts[b as int].sizes.len() as int),
                    jacobians@,
                );
            }
            b += 1;
        }
        Ok(values)
    }

    /// The global residual: every block's residuals written at the block's
    /// rows, one residual vector per block and oldest block first. Rows that
    /// no block writes hold `zero`.
    pub fn compute_residuals(&self, block_residuals: &Vec<Vec<V>>, zero: V) -> (r: Result<
        Vec<V>,
        ProblemError,
    >)
        requires
            self.wf(),
        ensures
            !residuals_fit(self.blocks(), block_residuals@) ==> r == Err::<Vec<V>, ProblemError>(
                ProblemError::ShapeMismatch,
            ),
            residuals_fit(self.blocks(), block_residuals@) && !rows_fit(
                self.blocks(),
                self.total_residual_dimension as nat,
            ) ==> r == Err::<Vec<V>, ProblemError>(ProblemError::OutOfBounds),
            residuals_fit(self.blocks(), block_residuals@) && rows_fit(
                self.blocks(),
                self.total_residual_dimension as nat,
            ) ==> (r matches Ok(residual) && residual@ == scattered(
                self.blocks(),
                block_residuals@,
                self.total_residual_dimension as nat,
                zero,
                self.blocks().len() as int,
            )),
    {
        let n = self.residual_blocks.len();
        let rows = self.total_residual_dimension;
        if block_residuals.len() != n {
            return Err(ProblemError::ShapeMismatch);
        }
        let mut b: usize = 0;
        while b < n
            invariant
                b <= n,
                n == self.blocks().len(),
                n == block_residuals@.len(),
                forall|t: int|
                    0 <= t < b ==> (#[trigger] block_residuals@[t])@.len()
                        == self.blocks()[t].dim_residual,
            decreases n - b,
        {
            if block_residuals[b].len() != self.residual_blocks[b].dim_residual {
                return Err(ProblemError::ShapeMismatch);
            }
            b += 1;
        }
        assert(residuals_fit(self.blocks(), block_residuals@));
        let mut b: usize = 0;
        while b < n
            invariant
                b <= n,
                n == self.blocks().len(),
                self.wf(),
                rows == self.total_residual_dimension,
                residuals_fit(self.blocks(), block_residuals@),
                forall|t: int|
                    0 <= t < b && (#[trigger] self.blocks()[t]).dim_residual > 0
                        ==> self.blocks()[t].residual_row_start_idx + self.blocks()[t].dim_residual
                        <= rows,
            decreases n - b,
        {
            let block = &self.residual_blocks[b];
            assert(*block == self.blocks()[b as int]);
            if block.dim_residual > 0 && block.residual_row_start_idx + block.dim_residual > rows {
                return Err(ProblemError::OutOfBounds);
            }
            b += 1;
        }
        let mut residual: Vec<V> = Vec::new();
        let mut i: usize = 0;
        while i < rows
            invariant
                i <= rows,
                residual@ == Seq::new(i as nat, |t: int| zero),
            decreases rows - i,
        {
            residual.push(zero);
            assert(residual@ =~= Seq::new((i + 1) as nat, |t: int| zero));
            i += 1;
        }
        let mut b: usize = 0;
        while b < n
            invariant
                b <= n,
                n == self.blocks().len(),
                n == block_residuals@.len(),
                rows == self.total_residual_dimension,
                residuals_fit(self.blocks(), block_residuals@),
                rows_fit(self.blocks(), rows as nat),
                residual@.len() == rows,
                residual@ == scattered(
                    self.blocks(),
                    block_residuals@,
                    rows as nat,
                    zero,
                    b as int,
                ),
            decreases n - b,
        {
            let block = &self.residual_blocks[b];
            assert(*block == self.blocks()[b as int]);
            let segment = &block_residuals[b];
            let start = block.residual_row_start_idx;
            let ghost before = residual@;
            let mut i: usize = 0;
            while i < segment.len()
                invariant
                    i <= segment@.len(),
                    segment@.len() > 0 ==> start + segment@.len() <= rows,
                    residual@.len() == rows,
                    before.len() == rows,
                    forall|t: int|
                        0 <= t < rows ==> residual@[t] == if start <= t < start + i {
                            segment@[t - start]
                        } else {
                            before[t]
                        },
                decreases segment@.len() - i,
            {
                residual.set(start + i, segment[i]);
                i += 1;
            }
            assert(residual@ =~= written(before, start as int, segment@));
            b += 1;
        }
        Ok(residual)
    }
}

impl<F, L, V: Copy, M: Manifold> Problem<F, L, V, M> {
    /// The global residual and the values of the Jacobian from what the
    /// blocks evaluated to: one residual vector and one dense local Jacobian
    /// per block, oldest block first. The residual is that of
    /// `compute_residuals`, the values are those of `jacobian_values`.
    pub fn compute_residual_and_jacobian(
        &self,
        parameter_blocks: &NameMap<ParameterBlock<'_, V, M>>,
        variable_name_to_col_idx_dict: &NameMap<usize>,
        block_residuals: &Vec<Vec<V>>,
        block_jacobians: &Vec<DenseMatrix<V>>,
        zero: V,
    ) -> (r: Result<(Vec<V>, Vec<V>), ProblemError>)
        requires
            self.wf(),
            parameter_blocks.wf(),
            variable_name_to_col_idx_dict.wf(),
            forall|b: int|
                0 <= b < block_jacobians@.len() ==> (#[trigger] block_jacobians@[b]).wf(),
        ensures
            !self.all_resolve(*parameter_blocks, *variable_name_to_col_idx_dict) ==> (r matches Err(
                e,
            ) && e == ProblemError::MissingVariable),
            self.all_resolve(*parameter_blocks, *variable_name_to_col_idx_dict) && !(shapes_fit(
                self.layouts(*parameter_blocks, *variable_name_to_col_idx_dict),
                block_jacobians@,
            ) && residuals_fit(self.blocks(), block_residuals@)) ==> (r matches Err(e) && e
                == ProblemError::ShapeMismatch),
            self.all_resolve(*parameter_blocks, *variable_name_to_col_idx_dict) && shapes_fit(
                self.layouts(*parameter_blocks, *variable_name_to_col_idx_dict),
                block_jacobians@,
            ) && residuals_fit(self.blocks(), block_residuals@) && !rows_fit(
                self.blocks(),
                self.total_residual_dimension as nat,
            ) ==> (r matches Err(e) && e == ProblemError::OutOfBounds),
            self.all_resolve(*parameter_blocks, *variable_name_to_col_idx_dict) && shapes_fit(
                self.layouts(*parameter_blocks, *variable_name_to_col_idx_dict),
                block_jacobians@,
            ) && residuals_fit(self.blocks(), block_residuals@) && rows_fit(
                self.blocks(),
                self.total_residual_dimension as nat,
            ) ==> (r matches Ok((residual, values)) && residual@ == scattered(
                self.blocks(),
                block_residuals@,
                self.total_residual_dimension as nat,
                zero,
                self.blocks().len() as int,
            ) && values@ == readings(
                plan(self.layouts(*parameter_blocks, *variable_name_to_col_idx_dict)),
                block_jacobians@,
            )),
    {
        let values = match self.jacobian_values(
            parameter_blocks,
            variable_name_to_col_idx_dict,
            block_jacobians,
        ) {
            Ok(values) => values,
            Err(e) => {
                return Err(e);
            },
        };
        match self.compute_residuals(block_residuals, zero) {
            Ok(residual) => Ok((residual, values)),
            Err(e) => Err(e),
        }
    }
}

/// Sum of the tangent sizes of one block's variables: the width of the
/// block's local Jacobian. `None` where the sum is no machine integer.
fn tangent_width(found: &Vec<(usize, usize)>, Ghost(layout): Ghost<BlockLayout>) -> (r: Option<
    usize,
>)
    requires
        matches_layout(found@, layout),
    ensures
        r matches Some(width) ==> width == total(layout.sizes),
        r is None ==> total(layout.sizes) > usize::MAX,
{
    let n = found.len();
    let mut sum: usize = 0;
    let mut k: usize = 0;
    while k < n
        invariant
            k <= n,
            n == layout.sizes.len(),
            matches_layout(found@, layout),
            sum == offset(layout.sizes, k as int),
        decreases n - k,
    {
        match sum.checked_add(found[k].1) {
            Some(next) => {
                sum = next;
            },
            None => {
                proof {
                    lemma_offset_monotonic(layout.sizes, k + 1, layout.sizes.len() as int);
                }
                return None;
            },
        }
        k += 1;
    }
    Some(sum)
}

/// Where the blocks' rows follow one another without gap, every block's
/// rows lie inside the running total.
pub proof fn lemma_contiguous_rows_fit<F, L, V: Copy, M>(problem: Problem<F, L, V, M>)
    requires
        problem.wf(),
        problem.rows_contiguous(),
    ensures
        rows_fit(problem.blocks(), problem.total_residual_dimension as nat),
{
    let dims = dims_of(problem.blocks());
    assert forall|b: int| 0 <= b < problem.blocks().len() implies (
    #[trigger] problem.blocks()[b]).residual_row_start_idx + problem.blocks()[b].dim_residual
        <= problem.total_residual_dimension by {
        lemma_segment_within_total(dims, b);
    }
}

/// Where the blocks' rows follow one another without gap, the global
/// residual is the blocks' residuals one after the other: row
/// `offset(dims, b) + i` holds residual `i` of block `b`.
pub proof fn lemma_scattered_contiguous<F, L, V: Copy, M>(
    problem: Problem<F, L, V, M>,
    residuals: Seq<Vec<V>>,
    zero: V,
    n: int,
    b: int,
    i: int,
)
    requires
        problem.wf(),
        problem.rows_contiguous(),
        residuals_fit(problem.blocks(), residuals),
        0 <= b < n <= problem.blocks().len(),
        0 <= i < problem.blocks()[b].dim_residual,
    ensures
        scattered(
            problem.blocks(),
            residuals,
            problem.total_residual_dimension as nat,
            zero,
            n,
        ).len() == problem.total_residual_dimension,
        scattered(problem.blocks(), residuals, problem.total_residual_dimension as nat, zero, n)[
            offset(dims_of(problem.blocks()), b) + i
        ] == residuals[b]@[i],
    decreases n,
{
    let blocks = problem.blocks();
    let dims = dims_of(blocks);
    let rows = problem.total_residual_dimension as nat;
    lemma_scattered_len(blocks, residuals, rows, zero, n);
    lemma_scattered_len(blocks, residuals, rows, zero, n - 1);
    lemma_segment_within_total(dims, b);
    assert(blocks[n - 1].residual_row_start_idx == offset(dims, n - 1));
    assert(blocks[b].residual_row_start_idx == offset(dims, b));
    if b < n - 1 {
        lemma_scattered_contiguous(problem, residuals, zero, n - 1, b, i);
        lemma_offset_monotonic(dims, b + 1, n - 1);
    }
}

/// The global residual has one entry per row, however many blocks have
/// written theirs.
pub proof fn lemma_scattered_len<F, L, V>(
    blocks: Seq<ResidualBlock<F, L>>,
    residuals: Seq<Vec<V>>,
    rows: nat,
    zero: V,
    n: int,
)
    ensures
        scattered(blocks, residuals, rows, zero, n).len() == rows,
    decreases n,
{
    if n > 0 {
        lemma_scattered_len(blocks, residuals, rows, zero, n - 1);
    }
}

/// With the columns that `get_variable_name_to_col_idx_dict` assigns and a
/// matrix as wide as all tangent spaces together, no entry lies outside the
/// matrix as long as every block's rows lie inside it.
pub proof fn lemma_assigned_columns_in_range<F, L, V: Copy, M: Manifold>(
    problem: Problem<F, L, V, M>,
    parameter_blocks: NameMap<ParameterBlock<'_, V, M>>,
    columns: NameMap<usize>,
)
    requires
        parameter_blocks.wf(),
        columns.names() == parameter_blocks.names(),
        columns.values().len() == parameter_blocks.values().len(),
        forall|i: int|
            0 <= i < columns.values().len() ==> #[trigger] columns.values()[i] == offset(
                tangent_dims(parameter_blocks.values()),
                i,
            ),
        problem.all_resolve(parameter_blocks, columns),
        rows_fit(problem.blocks(), problem.total_residual_dimension as nat),
    ensures
        problem.all_in_range(
            parameter_blocks,
            columns,
            problem.total_residual_dimension as nat,
            total(tangent_dims(parameter_blocks.values())),
        ),
{
    let dims = tangent_dims(parameter_blocks.values());
    let nrows = problem.total_residual_dimension as nat;
    assert forall|b: int| 0 <= b < problem.blocks().len() implies in_range(
        #[trigger] problem.layouts(parameter_blocks, columns)[b],
        nrows,
        total(dims),
    ) by {
        let block = problem.blocks()[b];
        let layout = problem.layouts(parameter_blocks, columns)[b];
        assert(resolves(block, parameter_blocks, columns));
        assert forall|k: int|
            0 <= k < layout.sizes.len() && layout.dim > 0 && #[trigger] layout.sizes[k]
                > 0 implies layout.row_start + layout.dim <= nrows && layout.cols[k]
            + layout.sizes[k] <= total(dims) by {
            let name = block.keys()[k];
            assert(parameter_blocks.contains(name));
            let i = parameter_blocks.index_of(name);
            assert(0 <= i < parameter_blocks.names().len() && parameter_blocks.names()[i]
                == name);
            assert(columns.index_of(name) == i);
            assert(layout.cols[k] == columns.values()[i]);
            assert(layout.sizes[k] == dims[i]);
            lemma_segment_within_total(dims, i);
        }
    }
}

} // verus!
