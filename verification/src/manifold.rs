//! Manifolds as far as the problem structure needs them: the dimension of
//! the tangent space, which decides how many columns a variable occupies.

use vstd::prelude::*;

verus! {

/// A manifold attached to a variable. The ambient vector of the variable is
/// retracted along a tangent vector of `tangent_size()` coordinates.
///
/// The manifolds of this crate implement the trait; a manifold defined
/// elsewhere is attached through `CustomManifold`.
pub trait Manifold {
    /// Dimension of the tangent space.
    spec fn tangent_dim(&self) -> nat;

    /// Dimension of the tangent space; never zero.
    fn tangent_size(&self) -> (n: usize)
        ensures
            n == self.tangent_dim(),
            n > 0,
    ;
}

/// Rigid transforms in three dimensions: a unit quaternion `[x, y, z, w]`
/// followed by a translation, seven ambient coordinates and six tangent ones.
#[derive(Clone, Copy, Debug)]
pub struct SE3Manifold;

impl Manifold for SE3Manifold {
    open spec fn tangent_dim(&self) -> nat {
        6
    }

    fn tangent_size(&self) -> (n: usize) {
        6
    }
}

/// Rotations as unit quaternions `[x, y, z, w]`: four ambient coordinates
/// and three tangent ones.
#[derive(Clone, Copy, Debug)]
pub struct QuaternionManifold {}

impl Manifold for QuaternionManifold {
    open spec fn tangent_dim(&self) -> nat {
        3
    }

    fn tangent_size(&self) -> (n: usize) {
        3
    }
}

/// A manifold defined outside this crate: whatever the caller needs to
/// carry out the retraction, together with the dimension of the tangent
/// space, which is fixed when the manifold is made.
pub struct CustomManifold<P> {
    tangent: usize,
    payload: P,
}

impl<P> CustomManifold<P> {
    #[verifier::type_invariant]
    spec fn positive(self) -> bool {
        self.tangent > 0
    }

    /// Dimension of the tangent space.
    pub closed spec fn dim(&self) -> nat {
        self.tangent as nat
    }

    /// What the manifold carries.
    pub closed spec fn carried(&self) -> P {
        self.payload
    }

    /// The manifold that carries `payload` and has a tangent space of
    /// `tangent_size` dimensions; `None` where that is zero.
    pub fn new(payload: P, tangent_size: usize) -> (r: Option<Self>)
        ensures
            r is Some <==> tangent_size > 0,
            r matches Some(m) ==> m.dim() == tangent_size && m.carried() == payload,
    {
        if tangent_size > 0 {
            Some(CustomManifold { tangent: tangent_size, payload })
        } else {
            None
        }
    }

    /// What the manifold carries.
    pub fn payload(&self) -> (r: &P)
        ensures
            *r == self.carried(),
    {
        &self.payload
    }
}

impl<P> Manifold for CustomManifold<P> {
    open spec fn tangent_dim(&self) -> nat {
        self.dim()
    }

    fn tangent_size(&self) -> (n: usize) {
        proof {
            use_type_invariant(self);
        }
        self.tangent
    }
}

} // verus!
