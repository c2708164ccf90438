//! The state of one variable during a solve: its current ambient value and
//! what restricts how that value may change.

use vstd::prelude::*;
use std::collections::{HashMap, HashSet};
use crate::manifold::Manifold;

verus! {

broadcast use vstd::std_specs::hash::group_hash_axioms;

/// One variable: its ambient coordinates, the coordinates that are held
/// fixed, the coordinates that are confined to an interval, and the manifold
/// on which the variable lives, if any. The three restrictions are shared
/// with the problem that configured them and never change during a solve.
pub struct ParameterBlock<'a, V, M> {
    pub params: Vec<V>,
    pub fixed_variables: Option<&'a HashSet<usize>>,
    pub variable_bounds: Option<&'a HashMap<usize, (V, V)>>,
    pub manifold: Option<&'a M>,
}

impl<'a, V: Copy, M> ParameterBlock<'a, V, M> {
    /// Whether coordinate `i` is held fixed.
    pub open spec fn is_fixed(&self, i: int) -> bool {
        match self.fixed_variables {
            Some(fixed) => 0 <= i <= usize::MAX && fixed@.contains(i as usize),
            None => false,
        }
    }

    /// The interval `(lower, upper)` that coordinate `i` is confined to.
    pub open spec fn bound_at(&self, i: int) -> Option<(V, V)> {
        match self.variable_bounds {
            Some(bounds) => if 0 <= i <= usize::MAX && bounds@.contains_key(i as usize) {
                Some(bounds@[i as usize])
            } else {
                None
            },
            None => None,
        }
    }

    /// What coordinate `i` holds once fixed coordinates of `candidate` are
    /// put back to the value they have in `self`.
    pub open spec fn restored(&self, candidate: Seq<V>, i: int) -> V {
        if self.is_fixed(i) && i < self.params@.len() {
            self.params@[i]
        } else {
            candidate[i]
        }
    }

    /// Whether `value` is an admissible new coordinate `i` when `self` is
    /// updated towards `candidate`: the restored coordinate, passed through
    /// `clamp` together with the bounds where the coordinate is bounded.
    pub open spec fn admits<C: Fn(V, V, V) -> V>(
        &self,
        candidate: Seq<V>,
        clamp: &C,
        i: int,
        value: V,
    ) -> bool {
        match self.bound_at(i) {
            Some((lower, upper)) => call_ensures(
                *clamp,
                (self.restored(candidate, i), lower, upper),
                value,
            ),
            None => value == self.restored(candidate, i),
        }
    }

    /// What every size-preserving update guarantees of the block before and
    /// after it: the restrictions stay, and a fixed coordinate that is not
    /// also bounded keeps its value.
    pub open spec fn step(before: Self, after: Self) -> bool {
        &&& after.params@.len() == before.params@.len()
        &&& after.fixed_variables == before.fixed_variables
        &&& after.variable_bounds == before.variable_bounds
        &&& after.manifold == before.manifold
        &&& forall|i: int|
            0 <= i < before.params@.len() && before.is_fixed(i) && before.bound_at(i) is None
                ==> after.params@[i] == before.params@[i]
    }

    /// A block without restrictions.
    pub fn from_vec(params: Vec<V>) -> (r: Self)
        ensures
            r.params == params,
            r.fixed_variables is None,
            r.variable_bounds is None,
            r.manifold is None,
    {
        ParameterBlock { params, fixed_variables: None, variable_bounds: None, manifold: None }
    }

    /// Attaches `manifold` to the variable.
    pub fn set_manifold(&mut self, manifold: &'a M)
        ensures
            final(self).manifold == Some(manifold),
            final(self).params == old(self).params,
            final(self).fixed_variables == old(self).fixed_variables,
            final(self).variable_bounds == old(self).variable_bounds,
    {
        self.manifold = Some(manifold);
    }

    /// Number of ambient coordinates.
    pub fn ambient_size(&self) -> (n: usize)
        ensures
            n == self.params@.len(),
    {
        self.params.len()
    }

    /// Whether coordinate `i` is held fixed.
    pub fn fixed(&self, i: usize) -> (b: bool)
        ensures
            b == self.is_fixed(i as int),
    {
        match self.fixed_variables {
            Some(fixed) => fixed.contains(&i),
            None => false,
        }
    }

    /// The interval that coordinate `i` is confined to.
    pub fn bound(&self, i: usize) -> (r: Option<(V, V)>)
        ensures
            r == self.bound_at(i as int),
    {
        match self.variable_bounds {
            Some(bounds) => match bounds.get(&i) {
                Some(pair) => Some(*pair),
                None => None,
            },
            None => None,
        }
    }

    /// Replaces the value by `new_param`, then puts every fixed coordinate
    /// back to the value it had, then passes every bounded coordinate
    /// through `clamp(value, lower, upper)`.
    ///
    /// A coordinate that is fixed and not bounded is therefore unchanged. A
    /// restriction on a coordinate that `new_param` does not have is without
    /// effect, and so is fixing a coordinate that the block did not have.
    pub fn update_params<C: Fn(V, V, V) -> V>(&mut self, new_param: Vec<V>, clamp: &C)
        requires
            forall|x: V, lower: V, upper: V| call_requires(*clamp, (x, lower, upper)),
        ensures
            final(self).params@.len() == new_param@.len(),
            final(self).fixed_variables == old(self).fixed_variables,
            final(self).variable_bounds == old(self).variable_bounds,
            final(self).manifold == old(self).manifold,
            forall|i: int|
                0 <= i < new_param@.len() ==> old(self).admits(
                    new_param@,
                    clamp,
                    i,
                    #[trigger] final(self).params@[i],
                ),
            forall|i: int|
                0 <= i < new_param@.len() && i < old(self).params@.len() && old(self).is_fixed(i)
                    && old(self).bound_at(i) is None ==> final(self).params@[i] == old(
                    self,
                ).params@[i],
            new_param@.len() == old(self).params@.len() ==> Self::step(*old(self), *final(self)),
    {
        let mut next = new_param;
        let n = next.len();
        let m = self.params.len();
        let mut i: usize = 0;
        while i < n
            invariant
                i <= n,
                n == new_param@.len(),
                next@.len() == n,
                m == self.params@.len(),
                *self == *old(self),
                forall|x: V, lower: V, upper: V| call_requires(*clamp, (x, lower, upper)),
                forall|k: int|
                    0 <= k < i ==> self.admits(new_param@, clamp, k, #[trigger] next@[k]),
                forall|k: int| i <= k < n ==> next@[k] == new_param@[k],
            decreases n - i,
        {
            let mut value = next[i];
            if i < m && self.fixed(i) {
                value = self.params[i];
            }
            assert(value == self.restored(new_param@, i as int));
            match self.bound(i) {
                Some((lower, upper)) => {
                    value = clamp(value, lower, upper);
                },
                None => {},
            }
            next.set(i, value);
            i += 1;
        }
        self.params = next;
    }
}

impl<'a, V: Copy, M> Clone for ParameterBlock<'a, V, M> {
    /// A block with the same value that shares the same restrictions.
    fn clone(&self) -> (r: Self)
        ensures
            r.params@ == self.params@,
            r.fixed_variables == self.fixed_variables,
            r.variable_bounds == self.variable_bounds,
            r.manifold == self.manifold,
    {
        let mut params: Vec<V> = Vec::new();
        let mut i: usize = 0;
        while i < self.params.len()
            invariant
                i <= self.params@.len(),
                params@ == self.params@.take(i as int),
            decreases self.params@.len() - i,
        {
            params.push(self.params[i]);
            assert(params@ =~= self.params@.take(i + 1));
            i += 1;
        }
        assert(params@ =~= self.params@);
        ParameterBlock {
            params,
            fixed_variables: self.fixed_variables,
            variable_bounds: self.variable_bounds,
            manifold: self.manifold,
        }
    }
}

impl<'a, V: Copy, M: Manifold> ParameterBlock<'a, V, M> {
    /// Dimension of the tangent space: that of the manifold where one is
    /// attached, the number of ambient coordinates otherwise.
    pub open spec fn tangent_dim(&self) -> nat {
        match self.manifold {
            Some(manifold) => manifold.tangent_dim(),
            None => self.params@.len(),
        }
    }

    /// Number of columns the variable takes in the Jacobian.
    pub fn tangent_size(&self) -> (n: usize)
        ensures
            n == self.tangent_dim(),
    {
        match self.manifold {
            Some(manifold) => manifold.tangent_size(),
            None => self.ambient_size(),
        }
    }
}

/// A coordinate that is fixed and not bounded holds the same value after any
/// number of size-preserving updates.
pub proof fn lemma_fixed_coordinate_is_constant<'a, V: Copy, M>(
    history: Seq<ParameterBlock<'a, V, M>>,
    i: int,
    k: int,
)
    requires
        forall|t: int|
            0 <= t < history.len() - 1 ==> ParameterBlock::step(
                #[trigger] history[t],
                history[t + 1],
            ),
        0 <= k < history.len(),
        0 <= i < history[0].params@.len(),
        history[0].is_fixed(i),
        history[0].bound_at(i) is None,
    ensures
        history[k].params@.len() == history[0].params@.len(),
        history[k].is_fixed(i),
        history[k].bound_at(i) is None,
        history[k].params@[i] == history[0].params@[i],
    decreases k,
{
    if k > 0 {
        lemma_fixed_coordinate_is_constant(history, i, k - 1);
        assert(ParameterBlock::step(history[k - 1], history[k - 1 + 1]));
    }
}

} // verus!
