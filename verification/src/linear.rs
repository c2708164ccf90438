//! Choice of the sparse linear solver.

use vstd::prelude::*;

verus! {

/// Which sparse factorisation solves the linearised system.
#[derive(Clone, Copy, Debug, PartialEq, Eq, Structural)]
pub enum LinearSolverType {
    SparseCholesky,
    SparseQR,
}

impl Default for LinearSolverType {
    /// Cholesky on the normal equations is the default.
    fn default() -> (r: Self)
        ensures
            r == LinearSolverType::SparseCholesky,
    {
        LinearSolverType::SparseCholesky
    }
}

/// Solver selection under its historical name.
#[derive(Clone, Copy, Debug, PartialEq, Eq, Structural)]
pub enum LinearSolver {
    SparseCholesky,
    SparseQR,
}

impl Default for LinearSolver {
    fn default() -> (r: Self)
        ensures
            r == LinearSolver::SparseCholesky,
    {
        LinearSolver::SparseCholesky
    }
}

impl LinearSolver {
    /// The same choice in the current naming.
    pub fn solver_type(self) -> (r: LinearSolverType)
        ensures
            r == match self {
                LinearSolver::SparseCholesky => LinearSolverType::SparseCholesky,
                LinearSolver::SparseQR => LinearSolverType::SparseQR,
            },
    {
        match self {
            LinearSolver::SparseCholesky => LinearSolverType::SparseCholesky,
            LinearSolver::SparseQR => LinearSolverType::SparseQR,
        }
    }
}

} // verus!
