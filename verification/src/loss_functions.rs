//! Names of the robust loss kernels.

use vstd::prelude::*;

verus! {

/// The robust loss kernels that can be selected by name.
#[derive(Clone, Copy, Debug, PartialEq, Eq, Structural)]
pub enum LossFunc {
    HuberLoss,
}

} // verus!
