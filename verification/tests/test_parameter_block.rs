use std::collections::{HashMap, HashSet};

use tiny_solver::{
    apply_dx2, CustomManifold, Manifold, NameMap, ParameterBlock, ProblemError, QuaternionManifold,
};

type Block<'a> = ParameterBlock<'a, f64, QuaternionManifold>;

fn clamp(x: f64, lower: f64, upper: f64) -> f64 {
    x.max(lower).min(upper)
}

#[test]
fn a_fresh_block_has_no_restrictions() {
    let block = Block::from_vec(vec![1.0, 2.0, 3.0]);
    assert_eq!(block.ambient_size(), 3);
    assert_eq!(block.tangent_size(), 3);
    assert!(!block.fixed(0));
    assert_eq!(block.bound(0), None);
}

#[test]
fn a_manifold_decides_the_tangent_size() {
    let manifold = QuaternionManifold {};
    let mut block = Block::from_vec(vec![0.0, 0.0, 0.0, 1.0]);
    assert_eq!(block.tangent_size(), 4);
    block.set_manifold(&manifold);
    assert_eq!(block.ambient_size(), 4);
    assert_eq!(block.tangent_size(), 3);
}

#[test]
fn a_fixed_coordinate_keeps_its_value_across_repeated_updates() {
    let fixed: HashSet<usize> = HashSet::from([1]);
    let mut block = Block::from_vec(vec![1.0, 2.0, 3.0]);
    block.fixed_variables = Some(&fixed);
    for step in 1..=5 {
        let moved: Vec<f64> = block.params.iter().map(|x| x + 0.5 * step as f64).collect();
        block.update_params(moved, &clamp);
        assert_eq!(block.params[1], 2.0);
    }
    assert_eq!(block.params, vec![8.5, 2.0, 10.5]);
}

#[test]
fn bounded_coordinates_are_clamped_after_fixed_ones_are_put_back() {
    let fixed: HashSet<usize> = HashSet::from([0, 2]);
    let bounds: HashMap<usize, (f64, f64)> =
        HashMap::from([(1, (0.0, 1.0)), (2, (5.0, 6.0)), (3, (-1.0, 1.0))]);
    let mut block = Block::from_vec(vec![1.0, 0.5, 3.0, 0.0]);
    block.fixed_variables = Some(&fixed);
    block.variable_bounds = Some(&bounds);
    block.update_params(vec![10.0, 7.0, 30.0, -0.25], &clamp);
    assert_eq!(block.params, vec![1.0, 1.0, 5.0, -0.25]);
    block.update_params(vec![-4.0, -7.0, 0.0, -9.0], &clamp);
    assert_eq!(block.params, vec![1.0, 0.0, 5.0, -1.0]);
}

#[test]
fn restrictions_on_coordinates_that_do_not_exist_are_without_effect() {
    let fixed: HashSet<usize> = HashSet::from([7]);
    let bounds: HashMap<usize, (f64, f64)> = HashMap::from([(9, (0.0, 1.0))]);
    let mut block = Block::from_vec(vec![1.0, 2.0]);
    block.fixed_variables = Some(&fixed);
    block.variable_bounds = Some(&bounds);
    block.update_params(vec![3.0, 4.0], &clamp);
    assert_eq!(block.params, vec![3.0, 4.0]);
}

fn add(block: &Block, delta: Vec<f64>) -> Vec<f64> {
    block.params.iter().zip(delta.iter()).map(|(x, d)| x + d).collect()
}

#[test]
fn a_step_moves_each_variable_by_its_part() {
    let fixed: HashSet<usize> = HashSet::from([0]);
    let mut params: NameMap<Block> = NameMap::new();
    params.insert("x", Block::from_vec(vec![1.0]));
    let mut yz = Block::from_vec(vec![2.0, 3.0]);
    yz.fixed_variables = Some(&fixed);
    params.insert("yz", yz);
    params.insert("free", Block::from_vec(vec![9.0]));
    let mut columns = NameMap::new();
    columns.insert("x", 0usize);
    columns.insert("yz", 1usize);
    let dx = vec![10.0, 20.0, 30.0];
    for round in 1..=3 {
        assert_eq!(apply_dx2(&dx, &mut params, &columns, &add, &clamp), Ok(()));
        assert_eq!(params.get("x").unwrap().params, vec![1.0 + 10.0 * round as f64]);
        assert_eq!(params.get("yz").unwrap().params, vec![2.0, 3.0 + 30.0 * round as f64]);
        assert_eq!(params.get("free").unwrap().params, vec![9.0]);
    }
}

#[test]
fn a_step_that_is_too_short_changes_nothing() {
    let mut params: NameMap<Block> = NameMap::new();
    params.insert("x", Block::from_vec(vec![1.0]));
    params.insert("yz", Block::from_vec(vec![2.0, 3.0]));
    let mut columns = NameMap::new();
    columns.insert("x", 0usize);
    columns.insert("yz", 1usize);
    let dx = vec![10.0, 20.0];
    assert_eq!(
        apply_dx2(&dx, &mut params, &columns, &add, &clamp),
        Err(ProblemError::OutOfBounds)
    );
    assert_eq!(params.get("x").unwrap().params, vec![1.0]);
    assert_eq!(params.get("yz").unwrap().params, vec![2.0, 3.0]);
}

struct Circle;

type OnCircle = CustomManifold<Circle>;

#[test]
fn a_custom_manifold_needs_a_tangent_space() {
    assert!(CustomManifold::new(Circle, 0).is_none());
    let circle = CustomManifold::new(Circle, 1).unwrap();
    assert_eq!(circle.tangent_size(), 1);
    let _: &Circle = circle.payload();
}

#[test]
fn a_step_on_a_manifold_takes_as_many_coordinates_as_the_tangent_space() {
    let circle = CustomManifold::new(Circle, 1).unwrap();
    let mut on_circle: ParameterBlock<f64, OnCircle> = ParameterBlock::from_vec(vec![1.0, 0.0]);
    on_circle.set_manifold(&circle);
    let mut params = NameMap::new();
    params.insert("c", on_circle);
    params.insert("x", ParameterBlock::from_vec(vec![5.0]));
    let mut columns = NameMap::new();
    columns.insert("c", 0usize);
    columns.insert("x", 1usize);
    let rotate = |block: &ParameterBlock<f64, OnCircle>, delta: Vec<f64>| -> Vec<f64> {
        match block.manifold {
            Some(_) => {
                assert_eq!(delta.len(), 1);
                vec![-block.params[1] * delta[0], block.params[0] * delta[0]]
            }
            None => vec![block.params[0] + delta[0]],
        }
    };
    assert_eq!(apply_dx2(&vec![2.0, 3.0], &mut params, &columns, &rotate, &clamp), Ok(()));
    assert_eq!(params.get("c").unwrap().params, vec![0.0, 2.0]);
    assert_eq!(params.get("x").unwrap().params, vec![8.0]);
}

#[test]
fn a_cloned_block_shares_the_restrictions_and_owns_its_value() {
    let fixed: HashSet<usize> = HashSet::from([0]);
    let manifold = QuaternionManifold {};
    let mut block = Block::from_vec(vec![0.0, 0.0, 0.0, 1.0]);
    block.fixed_variables = Some(&fixed);
    block.set_manifold(&manifold);
    let mut copy = block.clone();
    copy.update_params(vec![5.0, 6.0, 7.0, 8.0], &clamp);
    assert_eq!(copy.params, vec![0.0, 6.0, 7.0, 8.0]);
    assert_eq!(block.params, vec![0.0, 0.0, 0.0, 1.0]);
    assert_eq!(copy.tangent_size(), 3);
    assert!(copy.fixed(0));
}
