//! The sparsity pattern of the Jacobian, built once per solve from the
//! positions that the residual blocks fill.

use vstd::prelude::*;
use faer::sparse::{Argsort, CreationError, Pair, SymbolicSparseColMat};
use crate::plan::{lemma_plan_within, plan, positions};
use crate::manifold::Manifold;
use crate::name_map::NameMap;
use crate::parameter_block::ParameterBlock;
use crate::problem::{Problem, ProblemError};

verus! {

/// faer's wrapper around the storage of a symbolic sparse matrix in column
/// format; opaque here.
#[verifier::external_type_specification]
#[verifier::external_body]
#[verifier::reject_recursive_types(Inner)]
pub struct ExSymbolicSparseColMat<Inner>(
    faer::sparse::csc_symbolic::generic::SymbolicSparseColMat<Inner>,
);

/// faer's owning storage of a symbolic sparse matrix in column format;
/// opaque here.
#[verifier::external_type_specification]
#[verifier::external_body]
#[verifier::reject_recursive_types(I)]
#[verifier::reject_recursive_types(Rows)]
#[verifier::reject_recursive_types(Cols)]
pub struct ExSymbolicOwn<I, Rows, Cols>(faer::sparse::csc_symbolic::Own<I, Rows, Cols>);

/// faer's order in which values are read when a symbolic matrix is filled;
/// opaque here.
#[verifier::external_type_specification]
#[verifier::external_body]
#[verifier::reject_recursive_types(I)]
pub struct ExArgsort<I>(Argsort<I>);

/// The positions `(row, column)` that a symbolic matrix holds.
pub uninterp spec fn pattern_entries(pattern: SymbolicSparseColMat<usize>) -> Set<(usize, usize)>;

/// The numbers of rows and of columns that a symbolic matrix was made with.
pub uninterp spec fn pattern_shape(pattern: SymbolicSparseColMat<usize>) -> (usize, usize);

/// The number of values that a value order expects: one for every position
/// that it was made from, repeated positions included.
pub uninterp spec fn order_len(order: Argsort<usize>) -> nat;

/// Whether every position lies inside a matrix of `nrows` by `ncols`.
pub open spec fn within(indices: Seq<(usize, usize)>, nrows: usize, ncols: usize) -> bool {
    forall|k: int|
        0 <= k < indices.len() ==> (#[trigger] indices[k]).0 < nrows && indices[k].1 < ncols
}

/// Calls `SymbolicSparseColMat::try_new_from_indices` of faer on the given
/// positions.
///
/// On success the symbolic matrix has the requested shape and holds exactly
/// the given positions, each once however often it was given, every position
/// lay inside the matrix, and the value order expects one value per given
/// position. faer reports a position outside the matrix as an error of its
/// own, passed on as `OutOfBounds`, and only if there is such a position;
/// its other error, for sizes that the index type cannot hold or memory that
/// cannot be had, is passed on as `Resources`.
#[verifier::external_body]
fn symbolic_from_indices(nrows: usize, ncols: usize, indices: &Vec<(usize, usize)>) -> (r: Result<
    (SymbolicSparseColMat<usize>, Argsort<usize>),
    ProblemError,
>)
    ensures
        r matches Ok((pattern, order)) ==> {
            &&& pattern_shape(pattern) == (nrows, ncols)
            &&& pattern_entries(pattern) == indices@.to_set()
            &&& order_len(order) == indices@.len()
            &&& within(indices@, nrows, ncols)
        },
        r matches Err(e) ==> e == ProblemError::OutOfBounds || e == ProblemError::Resources,
        r matches Err(e) ==> e == ProblemError::OutOfBounds ==> !within(indices@, nrows, ncols),
{
    let pairs: Vec<Pair<usize, usize>> = indices.iter().map(|p| Pair::new(p.0, p.1)).collect();
    match SymbolicSparseColMat::try_new_from_indices(nrows, ncols, &pairs) {
        Ok(made) => Ok(made),
        Err(CreationError::OutOfBounds { .. }) => Err(ProblemError::OutOfBounds),
        Err(CreationError::Generic(_)) => Err(ProblemError::Resources),
    }
}

/// Calls `SymbolicSparseColMat::nrows` of faer: the number of rows that the
/// symbolic matrix was made with.
#[verifier::external_body]
fn pattern_nrows(pattern: &SymbolicSparseColMat<usize>) -> (n: usize)
    ensures
        n == pattern_shape(*pattern).0,
{
    pattern.nrows()
}

/// Calls `SymbolicSparseColMat::ncols` of faer: the number of columns that
/// the symbolic matrix was made with.
#[verifier::external_body]
fn pattern_ncols(pattern: &SymbolicSparseColMat<usize>) -> (n: usize)
    ensures
        n == pattern_shape(*pattern).1,
{
    pattern.ncols()
}

/// The sparsity pattern of the Jacobian together with the order in which
/// values must be supplied to fill it.
pub struct SymbolicStructure {
    pub pattern: SymbolicSparseColMat<usize>,
    pub order: Argsort<usize>,
}

impl SymbolicStructure {
    /// Whether the structure is that of a matrix of `nrows` by `ncols` with
    /// an entry at each position of `indices`, to be filled by one value per
    /// element of `indices`, in that order.
    pub open spec fn describes(
        &self,
        indices: Seq<(usize, usize)>,
        nrows: usize,
        ncols: usize,
    ) -> bool {
        &&& pattern_shape(self.pattern) == (nrows, ncols)
        &&& pattern_entries(self.pattern) == indices.to_set()
        &&& order_len(self.order) == indices.len()
    }

    /// What becomes of an attempt to create the pattern: a created pattern
    /// and order are kept as they are, and a failure is passed on.
    pub fn from_created(
        created: Result<(SymbolicSparseColMat<usize>, Argsort<usize>), ProblemError>,
    ) -> (r: Result<SymbolicStructure, ProblemError>)
        ensures
            match created {
                Ok((pattern, order)) => r matches Ok(s) && s.pattern == pattern && s.order
                    == order,
                Err(e) => r matches Err(f) && f == e,
            },
    {
        match created {
            Ok((pattern, order)) => Ok(SymbolicStructure { pattern, order }),
            Err(e) => Err(e),
        }
    }

    /// Number of rows of the pattern.
    pub fn nrows(&self) -> (n: usize)
        ensures
            n == pattern_shape(self.pattern).0,
    {
        pattern_nrows(&self.pattern)
    }

    /// Number of columns of the pattern.
    pub fn ncols(&self) -> (n: usize)
        ensures
            n == pattern_shape(self.pattern).1,
    {
        pattern_ncols(&self.pattern)
    }
}

impl<F, L, V: Copy, M: Manifold> Problem<F, L, V, M> {
    /// The sparsity pattern of the Jacobian: `total_residual_dimension` rows,
    /// `total_variable_dimension` columns, and an entry wherever the dense
    /// local Jacobian of some block has one. The order that comes with the
    /// pattern expects the values as `jacobian_values` lists them.
    ///
    /// Fails with `MissingVariable` where a block names a variable without
    /// parameter block or column, with `OutOfBounds` where an entry would lie
    /// outside the matrix, and otherwise only where the pattern cannot be
    /// allocated.
    pub fn build_symbolic_structure(
        &self,
        parameter_blocks: &NameMap<ParameterBlock<'_, V, M>>,
        total_variable_dimension: usize,
        variable_name_to_col_idx_dict: &NameMap<usize>,
    ) -> (r: Result<SymbolicStructure, ProblemError>)
        requires
            self.wf(),
            parameter_blocks.wf(),
            variable_name_to_col_idx_dict.wf(),
        ensures
            !self.all_resolve(*parameter_blocks, *variable_name_to_col_idx_dict) ==> (r matches Err(
                e,
            ) && e == ProblemError::MissingVariable),
            self.all_resolve(*parameter_blocks, *variable_name_to_col_idx_dict)
                && !self.all_in_range(
                *parameter_blocks,
                *variable_name_to_col_idx_dict,
                self.total_residual_dimension as nat,
                total_variable_dimension as nat,
            ) ==> (r matches Err(e) && e == ProblemError::OutOfBounds),
            self.all_resolve(*parameter_blocks, *variable_name_to_col_idx_dict)
                && self.all_in_range(
                *parameter_blocks,
                *variable_name_to_col_idx_dict,
                self.total_residual_dimension as nat,
                total_variable_dimension as nat,
            ) ==> match r {
                Ok(structure) => structure.describes(
                    positions(
                        plan(self.layouts(*parameter_blocks, *variable_name_to_col_idx_dict)),
                    ),
                    self.total_residual_dimension,
                    total_variable_dimension,
                ),
                Err(e) => e == ProblemError::Resources,
            },
    {
        let indices = match self.jacobian_indices(
            parameter_blocks,
            total_variable_dimension,
            variable_name_to_col_idx_dict,
        ) {
            Ok(indices) => indices,
            Err(e) => {
                return Err(e);
            },
        };
        proof {
            lemma_plan_within(
                self.layouts(*parameter_blocks, *variable_name_to_col_idx_dict),
                self.total_residual_dimension,
                total_variable_dimension,
            );
        }
        let created = symbolic_from_indices(
            self.total_residual_dimension,
            total_variable_dimension,
            &indices,
        );
        SymbolicStructure::from_created(created)
    }
}

} // verus!
