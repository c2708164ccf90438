//! Structural core of a factor-graph nonlinear least-squares solver.
//!
//! The crate holds everything about a problem that is independent of the
//! scalar field: which residual blocks exist, which rows and columns they
//! occupy, how a step is applied to the variables, in which order Jacobian
//! entries are laid out, and how the iterative drivers move between states.
//! Scalars are carried as an opaque type parameter `V`; numeric kernels are
//! supplied by the caller.

pub mod assembly;
pub mod layout;
pub mod linear;
pub mod loss_functions;
pub mod manifold;
pub mod matrix;
pub mod name_map;
pub mod optimizer;
pub mod parameter_block;
pub mod plan;
pub mod problem;
pub mod residual_block;
pub mod symbolic;
pub mod update;

pub use linear::{LinearSolver, LinearSolverType};
pub use loss_functions::LossFunc;
pub use manifold::{CustomManifold, Manifold, QuaternionManifold, SE3Manifold};
pub use matrix::DenseMatrix;
pub use name_map::NameMap;
pub use optimizer::{
    ErrorCheck, GaussNewtonEvent, GaussNewtonOptimizer, GaussNewtonPhase, GaussNewtonState,
    LevenbergMarquardtEvent, LevenbergMarquardtOptimizer, LevenbergMarquardtPhase,
    LevenbergMarquardtState, OptimizerOptions, SolverStatus, StepDecision, Termination,
};
pub use parameter_block::ParameterBlock;
pub use problem::{Problem, ProblemError, ResidualBlockId};
pub use residual_block::{get_variable_rows, ResidualBlock};
pub use symbolic::SymbolicStructure;
pub use update::apply_dx2;
