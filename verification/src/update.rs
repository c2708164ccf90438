//! Applying a step to the variables.

use vstd::prelude::*;
use crate::manifold::Manifold;
use crate::name_map::NameMap;
use crate::parameter_block::{lemma_fixed_coordinate_is_constant, ParameterBlock};
use crate::problem::{lemma_configured_block_is_fixed, Problem, ProblemError};

verus! {

/// Whether the part of a step of `len` coordinates that belongs to each
/// variable with a column lies inside the step.
pub open spec fn steps_fit<V: Copy, M: Manifold>(
    params: NameMap<ParameterBlock<'_, V, M>>,
    columns: NameMap<usize>,
    len: nat,
) -> bool {
    forall|i: int|
        0 <= i < params.names().len() && columns.contains(#[trigger] params.names()[i])
            ==> columns.value_of(params.names()[i]) + params.values()[i].tangent_dim() <= len
}

/// Whether `after` is `before` updated towards `candidate`: fixed
/// coordinates put back, bounded coordinates passed through `clamp`, the
/// restrictions as before.
pub open spec fn updated<'a, V: Copy, M, C: Fn(V, V, V) -> V>(
    before: ParameterBlock<'a, V, M>,
    candidate: Seq<V>,
    clamp: &C,
    after: ParameterBlock<'a, V, M>,
) -> bool {
    &&& after.params@.len() == candidate.len()
    &&& after.fixed_variables == before.fixed_variables
    &&& after.variable_bounds == before.variable_bounds
    &&& after.manifold == before.manifold
    &&& forall|i: int|
        0 <= i < candidate.len() ==> before.admits(candidate, clamp, i, #[trigger] after.params@[i])
}

/// Whether `after` is what a step makes of the variable `before` whose
/// part of the step is `dx[column .. column + tangent size]`: the update of
/// `before` towards some retraction of it along that part.
pub open spec fn stepped<'a, V: Copy, M: Manifold, R, C>(
    before: ParameterBlock<'a, V, M>,
    dx: Seq<V>,
    column: int,
    retract: &R,
    clamp: &C,
    after: ParameterBlock<'a, V, M>,
) -> bool where R: Fn(&ParameterBlock<'a, V, M>, Vec<V>) -> Vec<V>, C: Fn(V, V, V) -> V {
    exists|delta: Vec<V>, candidate: Vec<V>|
        {
            &&& delta@ == dx.subrange(column, column + before.tangent_dim())
            &&& #[trigger] call_ensures(*retract, (&before, delta), candidate)
            &&& updated(before, candidate@, clamp, after)
        }
}

/// Applies the step `dx` to every variable that has a column: the
/// variable's part of the step starts at its column and has as many
/// coordinates as its tangent space; `retract` moves the variable along that
/// part; the result replaces the value, with fixed coordinates put back and
/// bounded coordinates passed through `clamp`. A variable without column
/// stays as it is.
///
/// Where some variable's part does not lie inside `dx`, nothing is changed
/// and `OutOfBounds` is returned.
pub fn apply_dx2<'a, V: Copy, M: Manifold, R, C>(
    dx: &Vec<V>,
    params: &mut NameMap<ParameterBlock<'a, V, M>>,
    variable_name_to_col_idx_dict: &NameMap<usize>,
    retract: &R,
    clamp: &C,
) -> (r: Result<(), ProblemError>) where
    R: Fn(&ParameterBlock<'a, V, M>, Vec<V>) -> Vec<V>,
    C: Fn(V, V, V) -> V,

    requires
        old(params).wf(),
        variable_name_to_col_idx_dict.wf(),
        forall|block: &ParameterBlock<'a, V, M>, delta: Vec<V>|
            call_requires(*retract, (block, delta)),
        forall|x: V, lower: V, upper: V| call_requires(*clamp, (x, lower, upper)),
    ensures
        final(params).wf(),
        final(params).names() == old(params).names(),
        r is Ok <==> steps_fit(*old(params), *variable_name_to_col_idx_dict, dx@.len()),
        r matches Err(e) ==> e == ProblemError::OutOfBounds && final(params).values() == old(
            params,
        ).values(),
        r is Ok ==> forall|i: int|
            0 <= i < old(params).names().len() ==> if variable_name_to_col_idx_dict.contains(
                old(params).names()[i],
            ) {
                stepped(
                    old(params).values()[i],
                    dx@,
                    variable_name_to_col_idx_dict.value_of(old(params).names()[i]) as int,
                    retract,
                    clamp,
                    #[trigger] final(params).values()[i],
                )
            } else {
                final(params).values()[i] == old(params).values()[i]
            },
{
    let n = params.len();
    let len = dx.len();
    let mut i: usize = 0;
    while i < n
        invariant
            i <= n,
            n == params.names().len(),
            len == dx@.len(),
            params.wf(),
            *params == *old(params),
            variable_name_to_col_idx_dict.wf(),
            forall|k: int|
                0 <= k < i && variable_name_to_col_idx_dict.contains(#[trigger] params.names()[k])
                    ==> variable_name_to_col_idx_dict.value_of(params.names()[k])
                    + params.values()[k].tangent_dim() <= dx@.len(),
        decreases n - i,
    {
        match variable_name_to_col_idx_dict.get(params.name(i).as_str()) {
            Some(column) => {
                let size = params.value(i).tangent_size();
                let fits = match (*column).checked_add(size) {
                    Some(end) => end <= len,
                    None => false,
                };
                if !fits {
                    proof {
                        let name = params.names()[i as int];
                        assert(variable_name_to_col_idx_dict.contains(name));
                        assert(variable_name_to_col_idx_dict.value_of(name)
                            + params.values()[i as int].tangent_dim() > dx@.len());
                    }
                    return Err(ProblemError::OutOfBounds);
                }
            },
            None => {},
        }
        i += 1;
    }
    let mut i: usize = 0;
    while i < n
        invariant
            i <= n,
            n == params.names().len(),
            len == dx@.len(),
            params.wf(),
            params.names() == old(params).names(),
            params.values().len() == old(params).values().len(),
            variable_name_to_col_idx_dict.wf(),
            steps_fit(*old(params), *variable_name_to_col_idx_dict, dx@.len()),
            forall|block: &ParameterBlock<'a, V, M>, delta: Vec<V>|
                call_requires(*retract, (block, delta)),
            forall|x: V, lower: V, upper: V| call_requires(*clamp, (x, lower, upper)),
            forall|k: int| i <= k < n ==> params.values()[k] == old(params).values()[k],
            forall|k: int|
                0 <= k < i ==> if variable_name_to_col_idx_dict.contains(old(params).names()[k]) {
                    stepped(
                        old(params).values()[k],
                        dx@,
                        variable_name_to_col_idx_dict.value_of(old(params).names()[k]) as int,
                        retract,
                        clamp,
                        #[trigger] params.values()[k],
                    )
                } else {
                    params.values()[k] == old(params).values()[k]
                },
        decreases n - i,
    {
        let ghost before_all = params.values();
        match variable_name_to_col_idx_dict.get(params.name(i).as_str()) {
            Some(column) => {
                let column = *column;
                let block = params.value(i);
                let ghost before = *block;
                let size = block.tangent_size();
                assert(old(params).names()[i as int] == params.names()[i as int]);
                assert(column + size <= dx@.len());
                let mut delta: Vec<V> = Vec::new();
                let mut j: usize = 0;
                while j < size
                    invariant
                        j <= size,
                        len == dx@.len(),
                        column + size <= dx@.len(),
                        delta@ == dx@.subrange(column as int, column + j),
                    decreases size - j,
                {
                    delta.push(dx[column + j]);
                    assert(delta@ =~= dx@.subrange(column as int, column + j + 1));
                    j += 1;
                }
                let ghost part = delta;
                let candidate = retract(block, delta);
                let ghost moved = candidate;
                let target = params.value_mut(i);
                target.update_params(candidate, clamp);
                proof {
                    let after = params.values()[i as int];
                    assert(updated(before, moved@, clamp, after));
                    assert(stepped(before, dx@, column as int, retract, clamp, after));
                }
            },
            None => {},
        }
        assert forall|k: int| 0 <= k < i implies params.values()[k] == before_all[k] by {}
        i += 1;
    }
    Ok(())
}

/// An update that keeps the number of coordinates is a step in the sense of
/// `ParameterBlock::step`: it leaves every coordinate that is fixed and not
/// bounded as it was.
pub proof fn lemma_updated_is_step<'a, V: Copy, M, C: Fn(V, V, V) -> V>(
    before: ParameterBlock<'a, V, M>,
    candidate: Seq<V>,
    clamp: &C,
    after: ParameterBlock<'a, V, M>,
)
    requires
        updated(before, candidate, clamp, after),
        candidate.len() == before.params@.len(),
    ensures
        ParameterBlock::step(before, after),
{
    assert forall|i: int|
        0 <= i < before.params@.len() && before.is_fixed(i) && before.bound_at(
            i,
        ) is None implies after.params@[i] == before.params@[i] by {
        assert(before.admits(candidate, clamp, i, after.params@[i]));
    }
}

/// Once a problem holds a coordinate of a variable fixed, that coordinate
/// keeps its initial value through every solve step: in the fresh block of
/// the variable, and after any number of updates that keep the number of
/// coordinates, as long as the coordinate is not bounded as well.
pub proof fn lemma_fixed_variable_keeps_its_value<'a, F, L, V: Copy, M, C: Fn(V, V, V) -> V>(
    problem: Problem<F, L, V, M>,
    name: Seq<char>,
    idx: usize,
    initial: Seq<V>,
    history: Seq<ParameterBlock<'a, V, M>>,
    candidates: Seq<Seq<V>>,
    clamp: &C,
    k: int,
)
    requires
        problem.fixed_set(name).contains(idx),
        !problem.bound_map(name).contains_key(idx),
        idx < initial.len(),
        0 <= k < history.len(),
        problem.configures(name, initial, history[0]),
        candidates.len() == history.len() - 1,
        forall|t: int|
            0 <= t < history.len() - 1 ==> (#[trigger] candidates[t]).len()
                == history[t].params@.len() && updated(
                history[t],
                candidates[t],
                clamp,
                history[t + 1],
            ),
    ensures
        history[k].params@.len() == initial.len(),
        history[k].params@[idx as int] == initial[idx as int],
{
    assert forall|t: int| 0 <= t < history.len() - 1 implies ParameterBlock::step(
        #[trigger] history[t],
        history[t + 1],
    ) by {
        assert(candidates[t].len() == history[t].params@.len());
        lemma_updated_is_step(history[t], candidates[t], clamp, history[t + 1]);
    }
    lemma_configured_block_is_fixed(problem, name, initial, history[0], idx);
    lemma_fixed_coordinate_is_constant(history, idx as int, k);
}

} // verus!
