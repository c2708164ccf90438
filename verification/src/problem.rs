//! The factor graph: residual blocks with their rows, and what is configured
//! for each variable.

use vstd::prelude::*;
use std::collections::{HashMap, HashSet};
use crate::layout::{lemma_offset_prefix, lemma_total_push, lemma_total_remove, offset, total};
use crate::name_map::{lemma_push_lookup, lemma_remove_lookup, lemma_update_lookup, NameMap};
use crate::parameter_block::ParameterBlock;
use crate::residual_block::{names_of_slices, ResidualBlock};

verus! {

broadcast use vstd::std_specs::hash::group_hash_axioms;

/// Identifies a residual block for as long as the problem lives.
pub type ResidualBlockId = usize;

/// Why a problem could not be laid out or assembled.
#[derive(Clone, Copy, Debug, PartialEq, Eq, Structural)]
pub enum ProblemError {
    /// A residual block names a variable that has no parameter block or no
    /// column.
    MissingVariable,
    /// What was handed in does not have the shape that the blocks ask for.
    ShapeMismatch,
    /// A row or column lies outside the matrix.
    OutOfBounds,
    /// The sparse structure is too large for its index type or could not be
    /// allocated.
    Resources,
}

/// A set of residual blocks and the per-variable configuration that
/// outlives single solves: fixed coordinates, bounded coordinates and
/// manifolds.
pub struct Problem<F, L, V, M> {
    pub total_residual_dimension: usize,
    pub residual_id_count: usize,
    pub residual_blocks: Vec<ResidualBlock<F, L>>,
    pub fixed_variable_indexes: NameMap<HashSet<usize>>,
    pub variable_bounds: NameMap<HashMap<usize, (V, V)>>,
    pub variable_manifold: NameMap<M>,
}

/// The residual dimensions of a sequence of blocks.
pub open spec fn dims_of<F, L>(blocks: Seq<ResidualBlock<F, L>>) -> Seq<nat> {
    Seq::new(blocks.len(), |i: int| blocks[i].dim_residual as nat)
}

impl<F, L, V: Copy, M> Problem<F, L, V, M> {
    /// The residual blocks, oldest first.
    pub open spec fn blocks(&self) -> Seq<ResidualBlock<F, L>> {
        self.residual_blocks@
    }

    /// The id that the next added block receives.
    pub open spec fn next_id(&self) -> nat {
        self.residual_id_count as nat
    }

    /// Ids are handed out in increasing order and never reused; the running
    /// total is the sum of the blocks' dimensions; no block's rows run past
    /// what a machine integer holds; no variable is configured twice.
    pub open spec fn wf(&self) -> bool {
        &&& forall|i: int, j: int|
            0 <= i < j < self.blocks().len() ==> self.blocks()[i].residual_block_id
                < self.blocks()[j].residual_block_id
        &&& forall|i: int|
            0 <= i < self.blocks().len() ==> (#[trigger] self.blocks()[i]).residual_block_id
                < self.next_id()
        &&& forall|i: int|
            0 <= i < self.blocks().len() ==> (#[trigger] self.blocks()[i]).residual_row_start_idx
                + self.blocks()[i].dim_residual <= usize::MAX
        &&& self.total_residual_dimension == total(dims_of(self.blocks()))
        &&& self.next_id() <= usize::MAX
        &&& self.fixed_variable_indexes.wf()
        &&& self.variable_bounds.wf()
        &&& self.variable_manifold.wf()
    }

    /// The blocks' rows follow one another without gap or overlap, starting
    /// at row 0 and ending at the running total.
    pub open spec fn rows_contiguous(&self) -> bool {
        forall|i: int|
            0 <= i < self.blocks().len() ==> (#[trigger] self.blocks()[i]).residual_row_start_idx
                == offset(dims_of(self.blocks()), i)
    }

    /// Whether a block with this id is present.
    pub open spec fn has_block(&self, block_id: ResidualBlockId) -> bool {
        exists|i: int|
            0 <= i < self.blocks().len() && (#[trigger] self.blocks()[i]).residual_block_id
                == block_id
    }

    /// Position of the block with this id; meaningful where `has_block`.
    pub open spec fn block_position(&self, block_id: ResidualBlockId) -> int {
        choose|i: int|
            0 <= i < self.blocks().len() && (#[trigger] self.blocks()[i]).residual_block_id
                == block_id
    }

    /// A problem without blocks and without configuration.
    pub fn new() -> (r: Self)
        ensures
            r.wf(),
            r.rows_contiguous(),
            r.blocks().len() == 0,
            r.next_id() == 0,
            r.total_residual_dimension == 0,
            r.fixed_variable_indexes.names().len() == 0,
            r.variable_bounds.names().len() == 0,
            r.variable_manifold.names().len() == 0,
    {
        Problem {
            total_residual_dimension: 0,
            residual_id_count: 0,
            residual_blocks: Vec::new(),
            fixed_variable_indexes: NameMap::new(),
            variable_bounds: NameMap::new(),
            variable_manifold: NameMap::new(),
        }
    }

    /// The residual blocks, oldest first.
    pub fn residual_blocks(&self) -> (r: &Vec<ResidualBlock<F, L>>)
        ensures
            r@ == self.blocks(),
    {
        &self.residual_blocks
    }

    /// Whether a block of `dim_residual` rows can still be added: the
    /// running total and the id counter must stay machine integers.
    pub fn has_room_for(&self, dim_residual: usize) -> (b: bool)
        ensures
            b == (self.total_residual_dimension + dim_residual <= usize::MAX && self.next_id()
                < usize::MAX),
    {
        self.residual_id_count < usize::MAX && dim_residual <= usize::MAX
            - self.total_residual_dimension
    }

    /// Appends a block of `dim_residual` rows over the named variables and
    /// returns its id. The block starts at the row that the running total
    /// names, and the total grows by `dim_residual`.
    pub fn add_residual_block(
        &mut self,
        dim_residual: usize,
        variable_key_size_list: &[&str],
        factor: F,
        loss_func: Option<L>,
    ) -> (block_id: ResidualBlockId)
        requires
            old(self).wf(),
            old(self).total_residual_dimension + dim_residual <= usize::MAX,
            old(self).next_id() < usize::MAX,
        ensures
            final(self).wf(),
            block_id == old(self).next_id(),
            final(self).next_id() == old(self).next_id() + 1,
            final(self).total_residual_dimension == old(self).total_residual_dimension
                + dim_residual,
            final(self).blocks().len() == old(self).blocks().len() + 1,
            final(self).blocks().drop_last() == old(self).blocks(),
            final(self).blocks().last().residual_block_id == block_id,
            final(self).blocks().last().dim_residual == dim_residual,
            final(self).blocks().last().residual_row_start_idx
                == old(self).total_residual_dimension,
            final(self).blocks().last().keys() == names_of_slices(variable_key_size_list@),
            final(self).blocks().last().factor == factor,
            final(self).blocks().last().loss_func == loss_func,
            final(self).fixed_variable_indexes == old(self).fixed_variable_indexes,
            final(self).variable_bounds == old(self).variable_bounds,
            final(self).variable_manifold == old(self).variable_manifold,
            old(self).rows_contiguous() ==> final(self).rows_contiguous(),
            !old(self).has_block(block_id),
            final(self).has_block(block_id),
    {
        let block_id = self.residual_id_count;
        let block = ResidualBlock::new(
            block_id,
            dim_residual,
            self.total_residual_dimension,
            variable_key_size_list,
            factor,
            loss_func,
        );
        proof {
            lemma_total_push(dims_of(self.blocks()), dim_residual as nat);
            assert(dims_of(self.blocks().push(block)) =~= dims_of(self.blocks()).push(
                dim_residual as nat,
            ));
        }
        self.residual_blocks.push(block);
        self.residual_id_count = self.residual_id_count + 1;
        self.total_residual_dimension = self.total_residual_dimension + dim_residual;
        proof {
            assert(self.blocks().drop_last() =~= old(self).blocks());
            assert(self.blocks().last() == block);
            assert(self.blocks()[old(self).blocks().len() as int] == block);
        }
        block_id
    }

    /// Position of the block with this id.
    pub fn find_block(&self, block_id: ResidualBlockId) -> (r: Option<usize>)
        requires
            self.wf(),
        ensures
            r is Some <==> self.has_block(block_id),
            r matches Some(i) ==> i as int == self.block_position(block_id) && i
                < self.blocks().len(),
    {
        let n = self.residual_blocks.len();
        let mut i: usize = 0;
        while i < n
            invariant
                i <= n,
                n == self.blocks().len(),
                self.wf(),
                forall|k: int| 0 <= k < i ==> self.blocks()[k].residual_block_id != block_id,
            decreases n - i,
        {
            if self.residual_blocks[i].residual_block_id == block_id {
                proof {
                    let p = self.block_position(block_id);
                    assert(self.blocks()[i as int].residual_block_id == block_id);
                    assert(p == i) by {
                        if p < i {
                        } else if p > i {
                        }
                    }
                }
                return Some(i);
            }
            i += 1;
        }
        None
    }

    /// Takes the block with this id out of the problem and hands it back.
    /// The running total shrinks by the block's dimension; the other blocks
    /// keep their ids and their rows.
    pub fn remove_residual_block(&mut self, block_id: ResidualBlockId) -> (r: Option<
        ResidualBlock<F, L>,
    >)
        requires
            old(self).wf(),
        ensures
            final(self).wf(),
            r is Some <==> old(self).has_block(block_id),
            r matches Some(block) ==> {
                &&& block == old(self).blocks()[old(self).block_position(block_id)]
                &&& final(self).blocks() == old(self).blocks().remove(
                    old(self).block_position(block_id),
                )
                &&& final(self).total_residual_dimension + block.dim_residual
                    == old(self).total_residual_dimension
            },
            r is None ==> final(self).blocks() == old(self).blocks()
                && final(self).total_residual_dimension == old(self).total_residual_dimension,
            !final(self).has_block(block_id),
            old(self).rows_contiguous() && old(self).has_block(block_id)
                && old(self).block_position(block_id) == old(self).blocks().len() - 1
                ==> final(self).rows_contiguous(),
            final(self).next_id() == old(self).next_id(),
            final(self).fixed_variable_indexes == old(self).fixed_variable_indexes,
            final(self).variable_bounds == old(self).variable_bounds,
            final(self).variable_manifold == old(self).variable_manifold,
    {
        match self.find_block(block_id) {
            Some(i) => {
                proof {
                    lemma_total_remove(dims_of(self.blocks()), i as int);
                    assert(dims_of(self.blocks().remove(i as int)) =~= dims_of(
                        self.blocks(),
                    ).remove(i as int));
                }
                let block = self.residual_blocks.remove(i);
                self.total_residual_dimension = self.total_residual_dimension
                    - block.dim_residual;
                proof {
                    let before = old(self).blocks();
                    let after = self.blocks();
                    assert(after == before.remove(i as int));
                    assert forall|a: int| 0 <= a < after.len() implies after[a] == before[if a
                        < i {
                        a
                    } else {
                        a + 1
                    }] by {}
                    if old(self).rows_contiguous() && i == before.len() - 1 {
                        assert forall|a: int| 0 <= a < after.len() implies (
                        #[trigger] after[a]).residual_row_start_idx == offset(
                            dims_of(after),
                            a,
                        ) by {
                            assert(after[a] == before[a]);
                            lemma_offset_prefix(dims_of(after), dims_of(before), a);
                        }
                    }
                    assert(!self.has_block(block_id)) by {
                        if self.has_block(block_id) {
                            let a = self.block_position(block_id);
                            let a0 = if a < i { a } else { a + 1 };
                            assert(after[a] == before[a0]);
                        }
                    }
                }
                Some(block)
            },
            None => None,
        }
    }
}

impl<F, L, V: Copy, M> Default for Problem<F, L, V, M> {
    /// A problem without blocks and without configuration.
    fn default() -> (r: Self)
        ensures
            r.wf(),
            r.rows_contiguous(),
            r.blocks().len() == 0,
            r.next_id() == 0,
            r.total_residual_dimension == 0,
    {
        Self::new()
    }
}

impl<F, L, V: Copy, M> Problem<F, L, V, M> {
    /// The coordinates of `name` that are held fixed.
    pub open spec fn fixed_set(&self, name: Seq<char>) -> Set<usize> {
        if self.fixed_variable_indexes.contains(name) {
            self.fixed_variable_indexes.value_of(name)@
        } else {
            Set::empty()
        }
    }

    /// The bounded coordinates of `name`, each with its `(lower, upper)`.
    pub open spec fn bound_map(&self, name: Seq<char>) -> Map<usize, (V, V)> {
        if self.variable_bounds.contains(name) {
            self.variable_bounds.value_of(name)@
        } else {
            Map::empty()
        }
    }

    /// Whether everything but the fixed coordinates is as in `other`.
    pub open spec fn same_but_fixed(&self, other: &Self) -> bool {
        &&& self.total_residual_dimension == other.total_residual_dimension
        &&& self.residual_id_count == other.residual_id_count
        &&& self.residual_blocks == other.residual_blocks
        &&& self.variable_bounds == other.variable_bounds
        &&& self.variable_manifold == other.variable_manifold
    }

    /// Whether everything but the bounds is as in `other`.
    pub open spec fn same_but_bounds(&self, other: &Self) -> bool {
        &&& self.total_residual_dimension == other.total_residual_dimension
        &&& self.residual_id_count == other.residual_id_count
        &&& self.residual_blocks == other.residual_blocks
        &&& self.fixed_variable_indexes == other.fixed_variable_indexes
        &&& self.variable_manifold == other.variable_manifold
    }

    /// Holds coordinate `idx` of the variable `var_to_fix` fixed in every
    /// later solve. The other coordinates and variables are as before.
    pub fn fix_variable(&mut self, var_to_fix: &str, idx: usize)
        requires
            old(self).wf(),
        ensures
            final(self).wf(),
            final(self).same_but_fixed(old(self)),
            final(self).fixed_variable_indexes.contains(var_to_fix@),
            final(self).fixed_set(var_to_fix@) == old(self).fixed_set(var_to_fix@).insert(idx),
            final(self).fixed_variable_indexes.agrees_except(
                &old(self).fixed_variable_indexes,
                var_to_fix@,
            ),
            old(self).fixed_variable_indexes.contains(var_to_fix@)
                ==> final(self).fixed_variable_indexes.names()
                == old(self).fixed_variable_indexes.names(),
            !old(self).fixed_variable_indexes.contains(var_to_fix@)
                ==> final(self).fixed_variable_indexes.names()
                == old(self).fixed_variable_indexes.names().push(var_to_fix@),
    {
        match self.fixed_variable_indexes.position(var_to_fix) {
            Some(i) => {
                let indexes = self.fixed_variable_indexes.value_mut(i);
                indexes.insert(idx);
                proof {
                    lemma_update_lookup(
                        old(self).fixed_variable_indexes,
                        self.fixed_variable_indexes,
                        i as int,
                        self.fixed_variable_indexes.values()[i as int],
                    );
                }
            },
            None => {
                let mut indexes: HashSet<usize> = HashSet::new();
                indexes.insert(idx);
                self.fixed_variable_indexes.push_new(var_to_fix, indexes);
                proof {
                    lemma_push_lookup(
                        old(self).fixed_variable_indexes,
                        self.fixed_variable_indexes,
                        var_to_fix@,
                        indexes,
                    );
                }
            },
        }
    }

    /// Releases every fixed coordinate of the variable `var_to_unfix`.
    pub fn unfix_variable(&mut self, var_to_unfix: &str)
        requires
            old(self).wf(),
        ensures
            final(self).wf(),
            final(self).same_but_fixed(old(self)),
            !final(self).fixed_variable_indexes.contains(var_to_unfix@),
            final(self).fixed_set(var_to_unfix@) == Set::<usize>::empty(),
            final(self).fixed_variable_indexes.agrees_except(
                &old(self).fixed_variable_indexes,
                var_to_unfix@,
            ),
            old(self).fixed_variable_indexes.contains(var_to_unfix@)
                ==> final(self).fixed_variable_indexes.names()
                == old(self).fixed_variable_indexes.names().remove(
                old(self).fixed_variable_indexes.index_of(var_to_unfix@),
            ),
            !old(self).fixed_variable_indexes.contains(var_to_unfix@)
                ==> final(self).fixed_variable_indexes.names()
                == old(self).fixed_variable_indexes.names(),
    {
        self.fixed_variable_indexes.remove(var_to_unfix);
        proof {
            if old(self).fixed_variable_indexes.contains(var_to_unfix@) {
                lemma_remove_lookup(
                    old(self).fixed_variable_indexes,
                    self.fixed_variable_indexes,
                    var_to_unfix@,
                );
            }
        }
    }

    /// Confines coordinate `idx` of the variable `var_to_bound` to
    /// `(lower_bound, upper_bound)` in every later solve, provided that
    /// `ordered(lower_bound, upper_bound)` says the pair is a valid interval.
    /// A pair that it refuses changes nothing. Returns whether the pair was
    /// stored.
    pub fn set_variable_bounds<O: Fn(V, V) -> bool>(
        &mut self,
        var_to_bound: &str,
        idx: usize,
        lower_bound: V,
        upper_bound: V,
        ordered: &O,
    ) -> (stored: bool)
        requires
            old(self).wf(),
            call_requires(*ordered, (lower_bound, upper_bound)),
        ensures
            final(self).wf(),
            final(self).same_but_bounds(old(self)),
            call_ensures(*ordered, (lower_bound, upper_bound), stored),
            !stored ==> final(self).variable_bounds == old(self).variable_bounds,
            stored ==> {
                &&& final(self).variable_bounds.contains(var_to_bound@)
                &&& final(self).bound_map(var_to_bound@) == old(self).bound_map(
                    var_to_bound@,
                ).insert(idx, (lower_bound, upper_bound))
                &&& final(self).variable_bounds.agrees_except(
                    &old(self).variable_bounds,
                    var_to_bound@,
                )
            },
    {
        if !ordered(lower_bound, upper_bound) {
            return false;
        }
        match self.variable_bounds.position(var_to_bound) {
            Some(i) => {
                let bounds = self.variable_bounds.value_mut(i);
                bounds.insert(idx, (lower_bound, upper_bound));
                proof {
                    lemma_update_lookup(
                        old(self).variable_bounds,
                        self.variable_bounds,
                        i as int,
                        self.variable_bounds.values()[i as int],
                    );
                }
            },
            None => {
                let mut bounds: HashMap<usize, (V, V)> = HashMap::new();
                bounds.insert(idx, (lower_bound, upper_bound));
                self.variable_bounds.push_new(var_to_bound, bounds);
                proof {
                    lemma_push_lookup(
                        old(self).variable_bounds,
                        self.variable_bounds,
                        var_to_bound@,
                        bounds,
                    );
                }
            },
        }
        true
    }

    /// Releases every bounded coordinate of the variable `var_to_unbound`.
    pub fn remove_variable_bounds(&mut self, var_to_unbound: &str)
        requires
            old(self).wf(),
        ensures
            final(self).wf(),
            final(self).same_but_bounds(old(self)),
            !final(self).variable_bounds.contains(var_to_unbound@),
            final(self).bound_map(var_to_unbound@) == Map::<usize, (V, V)>::empty(),
            final(self).variable_bounds.agrees_except(&old(self).variable_bounds, var_to_unbound@),
    {
        self.variable_bounds.remove(var_to_unbound);
        proof {
            if old(self).variable_bounds.contains(var_to_unbound@) {
                lemma_remove_lookup(
                    old(self).variable_bounds,
                    self.variable_bounds,
                    var_to_unbound@,
                );
            }
        }
    }

    /// Lets the variable `var_name` live on `manifold` in every later solve.
    /// An earlier manifold of the same variable is replaced.
    pub fn set_variable_manifold(&mut self, var_name: &str, manifold: M)
        requires
            old(self).wf(),
        ensures
            final(self).wf(),
            final(self).total_residual_dimension == old(self).total_residual_dimension,
            final(self).residual_id_count == old(self).residual_id_count,
            final(self).residual_blocks == old(self).residual_blocks,
            final(self).fixed_variable_indexes == old(self).fixed_variable_indexes,
            final(self).variable_bounds == old(self).variable_bounds,
            final(self).variable_manifold.contains(var_name@),
            final(self).variable_manifold.value_of(var_name@) == manifold,
            final(self).variable_manifold.agrees_except(&old(self).variable_manifold, var_name@),
    {
        self.variable_manifold.insert(var_name, manifold);
        proof {
            if old(self).variable_manifold.contains(var_name@) {
                let i = old(self).variable_manifold.index_of(var_name@);
                assert(0 <= i < old(self).variable_manifold.names().len());
                assert(old(self).variable_manifold.names()[i] == var_name@);
                lemma_update_lookup(
                    old(self).variable_manifold,
                    self.variable_manifold,
                    i,
                    manifold,
                );
            } else {
                lemma_push_lookup(
                    old(self).variable_manifold,
                    self.variable_manifold,
                    var_name@,
                    manifold,
                );
            }
        }
    }

    /// A fresh parameter block for every variable of `initial_values`, in
    /// the same order, holding the initial value and sharing what the
    /// problem has configured for a variable of that name.
    pub fn initialize_parameter_blocks<'a>(&'a self, initial_values: &NameMap<Vec<V>>) -> (r:
        NameMap<ParameterBlock<'a, V, M>>)
        requires
            self.wf(),
            initial_values.wf(),
        ensures
            r.wf(),
            r.names() == initial_values.names(),
            forall|i: int|
                0 <= i < r.names().len() ==> self.configures(
                    initial_values.names()[i],
                    initial_values.values()[i]@,
                    #[trigger] r.values()[i],
                ),
    {
        let mut blocks: NameMap<ParameterBlock<'a, V, M>> = NameMap::new();
        let n = initial_values.len();
        let mut i: usize = 0;
        while i < n
            invariant
                i <= n,
                n == initial_values.names().len(),
                self.wf(),
                initial_values.wf(),
                blocks.wf(),
                blocks.names() == initial_values.names().take(i as int),
                forall|k: int|
                    0 <= k < i ==> self.configures(
                        initial_values.names()[k],
                        initial_values.values()[k]@,
                        #[trigger] blocks.values()[k],
                    ),
            decreases n - i,
        {
            let name = initial_values.name(i);
            let value = initial_values.value(i);
            let mut copy: Vec<V> = Vec::new();
            let mut j: usize = 0;
            while j < value.len()
                invariant
                    j <= value@.len(),
                    copy@ == value@.take(j as int),
                decreases value@.len() - j,
            {
                copy.push(value[j]);
                assert(copy@ =~= value@.take(j + 1));
                j += 1;
            }
            assert(copy@ =~= value@);
            let block = ParameterBlock {
                params: copy,
                fixed_variables: self.fixed_variable_indexes.get(name.as_str()),
                variable_bounds: self.variable_bounds.get(name.as_str()),
                manifold: self.variable_manifold.get(name.as_str()),
            };
            proof {
                let names = initial_values.names();
                let seen = names.take(i as int);
                assert(!seen.contains(names[i as int])) by {
                    if seen.contains(names[i as int]) {
                        let k = choose|k: int| 0 <= k < seen.len() && seen[k] == names[i as int];
                        assert(names[k] == names[i as int]);
                    }
                }
                assert(seen.push(names[i as int]) =~= names.take(i + 1));
            }
            blocks.push_new(name.as_str(), block);
            i += 1;
        }
        assert(initial_values.names().take(n as int) =~= initial_values.names());
        blocks
    }

    /// Whether `block` is the fresh block of the variable `name` with the
    /// initial value `value`: it holds `value` and shares the fixed
    /// coordinates, the bounds and the manifold configured under `name`.
    pub open spec fn configures(
        &self,
        name: Seq<char>,
        value: Seq<V>,
        block: ParameterBlock<'_, V, M>,
    ) -> bool {
        &&& block.params@ == value
        &&& block.fixed_variables == if self.fixed_variable_indexes.contains(name) {
            Some(&self.fixed_variable_indexes.value_of(name))
        } else {
            None
        }
        &&& block.variable_bounds == if self.variable_bounds.contains(name) {
            Some(&self.variable_bounds.value_of(name))
        } else {
            None
        }
        &&& block.manifold == if self.variable_manifold.contains(name) {
            Some(&self.variable_manifold.value_of(name))
        } else {
            None
        }
    }
}

/// A coordinate that the problem holds fixed for a variable is fixed in the
/// fresh parameter block of that variable.
pub proof fn lemma_configured_block_is_fixed<F, L, V: Copy, M>(
    problem: Problem<F, L, V, M>,
    name: Seq<char>,
    value: Seq<V>,
    block: ParameterBlock<'_, V, M>,
    idx: usize,
)
    requires
        problem.configures(name, value, block),
        problem.fixed_set(name).contains(idx),
    ensures
        block.is_fixed(idx as int),
        block.params@ == value,
{
}

} // verus!
