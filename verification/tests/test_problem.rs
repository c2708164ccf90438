use tiny_solver::assembly::block_parameters;
use tiny_solver::{
    DenseMatrix, Manifold, NameMap, ParameterBlock, Problem, ProblemError, QuaternionManifold,
    SE3Manifold,
};

#[derive(Debug, Clone, PartialEq)]
struct PriorFactor {
    v: Vec<f64>,
}

#[derive(Debug, Clone, PartialEq)]
struct CustomFactor {}

#[derive(Debug, Clone, PartialEq)]
enum Factor {
    Prior(PriorFactor),
    Custom(CustomFactor),
}

#[derive(Debug, Clone, PartialEq)]
struct Huber {
    scale: f64,
}

type TestProblem = Problem<Factor, Huber, f64, SE3Manifold>;

fn ordered(lower: f64, upper: f64) -> bool {
    !(lower > upper)
}

fn prior(v: &[f64]) -> Factor {
    Factor::Prior(PriorFactor { v: v.to_vec() })
}

fn values(entries: &[(&str, &[f64])]) -> NameMap<Vec<f64>> {
    let mut map = NameMap::new();
    for (name, value) in entries {
        map.insert(name, value.to_vec());
    }
    map
}

#[test]
fn new_problem() {
    let problem = TestProblem::new();
    assert_eq!(problem.total_residual_dimension, 0);
    assert_eq!(problem.fixed_variable_indexes.len(), 0);
    assert_eq!(problem.variable_bounds.len(), 0);
}

#[test]
fn add_residual_block() {
    let mut problem = TestProblem::new();
    let block_id1 = problem.add_residual_block(1, &["x"], prior(&[3.0]), None);

    assert_eq!(problem.total_residual_dimension, 1);

    let block_id2 = problem.add_residual_block(1, &["y"], prior(&[3.0]), None);

    assert!(block_id1 != block_id2);
    assert_eq!(problem.total_residual_dimension, 2);
}

#[test]
fn remove_residual_block() {
    let mut problem = TestProblem::new();
    let block_id = problem.add_residual_block(1, &["x"], prior(&[3.0]), None);

    assert_eq!(problem.total_residual_dimension, 1);

    let mut block = problem.remove_residual_block(block_id);
    assert!(block.is_some());
    assert_eq!(problem.total_residual_dimension, 0);

    block = problem.remove_residual_block(block_id);
    assert!(block.is_none());
    assert_eq!(problem.total_residual_dimension, 0);
}

#[test]
fn fix_variable() {
    let mut problem = TestProblem::new();
    problem.fix_variable("x", 0);

    assert_eq!(problem.fixed_variable_indexes.len(), 1);
    assert_eq!(problem.fixed_variable_indexes.get("x").unwrap().len(), 1);
    assert!(problem.fixed_variable_indexes.get("x").unwrap().contains(&0));

    problem.fix_variable("x", 1);

    assert_eq!(problem.fixed_variable_indexes.len(), 1);
    assert_eq!(problem.fixed_variable_indexes.get("x").unwrap().len(), 2);
    assert!(problem.fixed_variable_indexes.get("x").unwrap().contains(&1));
}

#[test]
fn unfix_variable() {
    let mut problem = TestProblem::new();
    problem.fix_variable("x", 0);

    assert_eq!(problem.fixed_variable_indexes.len(), 1);
    assert_eq!(problem.fixed_variable_indexes.get("x").unwrap().len(), 1);
    assert!(problem.fixed_variable_indexes.get("x").unwrap().contains(&0));

    problem.unfix_variable("x");

    assert_eq!(problem.fixed_variable_indexes.len(), 0);
}

#[test]
fn set_variable_bounds() {
    let mut problem = TestProblem::new();

    problem.set_variable_bounds("x", 0, 0.0, 1.0, &ordered);
    assert_eq!(problem.variable_bounds.len(), 1);
    assert_eq!(problem.variable_bounds.get("x").unwrap().len(), 1);
    assert!(problem.variable_bounds.get("x").unwrap().contains_key(&0));
    assert_eq!(problem.variable_bounds.get("x").unwrap()[&0], (0.0, 1.0));
}

#[test]
fn remove_variable_bounds() {
    let mut problem = TestProblem::new();

    problem.set_variable_bounds("x", 0, 0.0, 1.0, &ordered);
    assert_eq!(problem.variable_bounds.len(), 1);

    problem.remove_variable_bounds("x");
    assert_eq!(problem.variable_bounds.len(), 0);
}

/// Residual and dense local Jacobian of the coupling factor over `x` and
/// `yz`: `[x + 2y + 4z, y z]`.
fn custom_evaluation(x: f64, y: f64, z: f64) -> (Vec<f64>, DenseMatrix<f64>) {
    let residual = vec![x + 2.0 * y + 4.0 * z, y * z];
    let jacobian = DenseMatrix::from_column_major(2, 3, vec![1.0, 0.0, 2.0, z, 4.0, y]).unwrap();
    (residual, jacobian)
}

fn toy_problem() -> TestProblem {
    let mut problem = TestProblem::new();
    problem.add_residual_block(1, &["x"], prior(&[3.0]), None);
    problem.add_residual_block(2, &["x", "yz"], Factor::Custom(CustomFactor {}), None);
    problem
}

#[test]
fn compute_residual_and_jacobian() {
    let problem = toy_problem();

    // the initial values for x is 0.7 and yz is [-30.2, 123.4]
    let initial_values = values(&[("x", &[0.7]), ("yz", &[-30.2, 123.4])]);
    let parameter_blocks = problem.initialize_parameter_blocks(&initial_values);
    let variable_name_to_col_idx_dict =
        problem.get_variable_name_to_col_idx_dict(&parameter_blocks);
    let total_variable_dimension =
        TestProblem::total_variable_dimension(&parameter_blocks).unwrap();
    let symbolic_structure = problem
        .build_symbolic_structure(
            &parameter_blocks,
            total_variable_dimension,
            &variable_name_to_col_idx_dict,
        )
        .unwrap();

    let prior_jacobian = DenseMatrix::from_column_major(1, 1, vec![1.0]).unwrap();
    let (custom_residual, custom_jacobian) = custom_evaluation(0.7, -30.2, 123.4);
    let (residuals, jac) = problem
        .compute_residual_and_jacobian(
            &parameter_blocks,
            &variable_name_to_col_idx_dict,
            &vec![vec![0.7 - 3.0], custom_residual],
            &vec![prior_jacobian, custom_jacobian],
            0.0,
        )
        .unwrap();

    assert_eq!(residuals.len(), 3);
    assert_eq!(symbolic_structure.nrows(), 3);
    assert_eq!(symbolic_structure.ncols(), 3);
    assert_eq!(jac.len(), 7);

    let filled = faer::sparse::SparseColMat::<usize, f64>::new_from_argsort(
        symbolic_structure.pattern.clone(),
        &symbolic_structure.order,
        &jac,
    )
    .unwrap();
    assert_eq!(filled.nrows(), 3);
    assert_eq!(filled.ncols(), 3);
}

#[test]
fn total_grows_by_the_dimension_of_each_added_block() {
    let mut problem = TestProblem::new();
    let mut expected = 0;
    for dim in [3usize, 0, 6, 1] {
        let before = problem.total_residual_dimension;
        let id = problem.add_residual_block(dim, &["x", "y"], prior(&[0.0]), None);
        expected += dim;
        assert_eq!(problem.total_residual_dimension, before + dim);
        assert_eq!(problem.total_residual_dimension, expected);
        let block = problem.residual_blocks().last().unwrap();
        assert_eq!(block.residual_block_id, id);
        assert_eq!(block.dim_residual, dim);
        assert_eq!(block.residual_row_start_idx, before);
        assert_eq!(block.variable_key_list, vec!["x".to_string(), "y".to_string()]);
    }
    assert_eq!(problem.residual_blocks().len(), 4);
}

#[test]
fn ids_are_never_reused_and_rows_are_not_renumbered() {
    let mut problem = TestProblem::new();
    let a = problem.add_residual_block(2, &["x"], prior(&[0.0, 0.0]), None);
    let b = problem.add_residual_block(3, &["y"], prior(&[0.0, 0.0, 0.0]), None);
    assert_eq!((a, b), (0, 1));
    let removed = problem.remove_residual_block(a).unwrap();
    assert_eq!(removed.residual_block_id, a);
    assert_eq!(removed.dim_residual, 2);
    assert_eq!(problem.total_residual_dimension, 3);
    assert_eq!(problem.find_block(a), None);
    assert_eq!(problem.find_block(b), Some(0));
    assert_eq!(problem.residual_blocks()[0].residual_row_start_idx, 2);
    let c = problem.add_residual_block(1, &["z"], prior(&[0.0]), None);
    assert_eq!(c, 2);
    assert_eq!(problem.residual_blocks()[1].residual_row_start_idx, 3);
    assert_eq!(problem.total_residual_dimension, 4);
}

#[test]
fn a_problem_has_room_until_the_total_overflows() {
    let mut problem = TestProblem::new();
    assert!(problem.has_room_for(usize::MAX));
    problem.add_residual_block(usize::MAX - 1, &["x"], prior(&[0.0]), None);
    assert!(problem.has_room_for(1));
    assert!(!problem.has_room_for(2));
}

#[test]
fn combine_variables_places_x_at_column_0_and_y_at_columns_1_to_2() {
    let problem = TestProblem::new();
    let initial_values = values(&[("x", &[0.0]), ("y", &[1.0, 2.0])]);
    let parameter_blocks = problem.initialize_parameter_blocks(&initial_values);
    let columns = problem.get_variable_name_to_col_idx_dict(&parameter_blocks);
    assert_eq!(columns.len(), 2);
    assert_eq!(columns.name(0), "x");
    assert_eq!(columns.name(1), "y");
    assert_eq!(columns.get("x"), Some(&0));
    assert_eq!(columns.get("y"), Some(&1));
    assert_eq!(TestProblem::total_variable_dimension(&parameter_blocks), Some(3));
}

#[test]
fn columns_follow_tangent_sizes_where_a_manifold_is_attached() {
    let mut problem = TestProblem::new();
    problem.set_variable_manifold("pose", SE3Manifold);
    let initial_values = values(&[
        ("a", &[1.0, 2.0]),
        ("pose", &[0.0, 0.0, 0.0, 1.0, 0.0, 0.0, 0.0]),
        ("b", &[5.0]),
    ]);
    let parameter_blocks = problem.initialize_parameter_blocks(&initial_values);
    assert_eq!(parameter_blocks.get("pose").unwrap().ambient_size(), 7);
    assert_eq!(parameter_blocks.get("pose").unwrap().tangent_size(), 6);
    assert_eq!(parameter_blocks.get("a").unwrap().tangent_size(), 2);
    let columns = problem.get_variable_name_to_col_idx_dict(&parameter_blocks);
    assert_eq!(columns.get("a"), Some(&0));
    assert_eq!(columns.get("pose"), Some(&2));
    assert_eq!(columns.get("b"), Some(&8));
    assert_eq!(TestProblem::total_variable_dimension(&parameter_blocks), Some(9));
}

#[test]
fn manifolds_have_their_tangent_sizes() {
    assert_eq!(SE3Manifold.tangent_size(), 6);
    assert_eq!(QuaternionManifold {}.tangent_size(), 3);
}

#[test]
fn parameter_blocks_share_the_configuration_of_their_variable() {
    let mut problem = TestProblem::new();
    problem.fix_variable("x", 1);
    assert!(problem.set_variable_bounds("x", 0, -1.0, 1.0, &ordered));
    problem.set_variable_manifold("q", SE3Manifold);
    let initial_values = values(&[("x", &[0.5, 0.25]), ("y", &[9.0]), ("q", &[0.0; 7])]);
    let blocks = problem.initialize_parameter_blocks(&initial_values);
    assert_eq!(blocks.len(), 3);
    let x = blocks.get("x").unwrap();
    assert_eq!(x.params, vec![0.5, 0.25]);
    assert!(x.fixed(1));
    assert!(!x.fixed(0));
    assert_eq!(x.bound(0), Some((-1.0, 1.0)));
    assert_eq!(x.bound(1), None);
    assert!(x.manifold.is_none());
    let y = blocks.get("y").unwrap();
    assert!(y.fixed_variables.is_none());
    assert!(y.variable_bounds.is_none());
    let q = blocks.get("q").unwrap();
    assert!(q.manifold.is_some());
}

#[test]
fn bounds_that_are_no_interval_are_refused() {
    let mut problem = TestProblem::new();
    assert!(!problem.set_variable_bounds("x", 0, 2.0, 1.0, &ordered));
    assert_eq!(problem.variable_bounds.len(), 0);
    assert!(problem.set_variable_bounds("x", 0, 1.0, 2.0, &ordered));
    assert!(!problem.set_variable_bounds("x", 0, 5.0, 4.0, &ordered));
    assert_eq!(problem.variable_bounds.get("x").unwrap()[&0], (1.0, 2.0));
    assert!(problem.set_variable_bounds("x", 0, 3.0, 4.0, &ordered));
    assert_eq!(problem.variable_bounds.get("x").unwrap()[&0], (3.0, 4.0));
    assert_eq!(problem.variable_bounds.get("x").unwrap().len(), 1);
}

#[test]
fn positions_are_listed_block_by_block_variable_by_variable_row_by_row() {
    let problem = toy_problem();
    let initial_values = values(&[("x", &[0.7]), ("yz", &[-30.2, 123.4])]);
    let blocks = problem.initialize_parameter_blocks(&initial_values);
    let columns = problem.get_variable_name_to_col_idx_dict(&blocks);
    let indices = problem.jacobian_indices(&blocks, 3, &columns).unwrap();
    assert_eq!(
        indices,
        vec![(0, 0), (1, 0), (2, 0), (1, 1), (1, 2), (2, 1), (2, 2)]
    );
}

#[test]
fn values_are_listed_in_the_order_of_the_positions() {
    let problem = toy_problem();
    let initial_values = values(&[("x", &[0.7]), ("yz", &[-30.2, 123.4])]);
    let blocks = problem.initialize_parameter_blocks(&initial_values);
    let columns = problem.get_variable_name_to_col_idx_dict(&blocks);
    let prior_jacobian = DenseMatrix::from_column_major(1, 1, vec![1.0]).unwrap();
    let (_, custom_jacobian) = custom_evaluation(0.7, -30.2, 123.4);
    let jacobians = vec![prior_jacobian, custom_jacobian];
    let listed = problem.jacobian_values(&blocks, &columns, &jacobians).unwrap();
    assert_eq!(listed, vec![1.0, 1.0, 0.0, 2.0, 4.0, 123.4, -30.2]);

    let indices = problem.jacobian_indices(&blocks, 3, &columns).unwrap();
    let structure = problem.build_symbolic_structure(&blocks, 3, &columns).unwrap();
    let filled = faer::sparse::SparseColMat::<usize, f64>::new_from_argsort(
        structure.pattern.clone(),
        &structure.order,
        &listed,
    )
    .unwrap();
    assert_eq!(filled.compute_nnz(), 7);
    for (place, (row, col)) in indices.iter().enumerate() {
        assert_eq!(filled.as_ref().get(*row, *col), Some(&listed[place]));
    }
    assert_eq!(filled.as_ref().get(0, 1), None);
    assert_eq!(filled.as_ref().get(0, 2), None);
}

#[test]
fn a_variable_read_twice_lists_its_columns_twice() {
    let mut problem = TestProblem::new();
    problem.add_residual_block(1, &["x", "x"], prior(&[0.0]), None);
    let initial_values = values(&[("x", &[1.0, 2.0])]);
    let blocks = problem.initialize_parameter_blocks(&initial_values);
    let columns = problem.get_variable_name_to_col_idx_dict(&blocks);
    let indices = problem.jacobian_indices(&blocks, 2, &columns).unwrap();
    assert_eq!(indices, vec![(0, 0), (0, 1), (0, 0), (0, 1)]);
    let jacobian = DenseMatrix::from_column_major(1, 4, vec![1.0, 2.0, 10.0, 20.0]).unwrap();
    let listed = problem.jacobian_values(&blocks, &columns, &vec![jacobian]).unwrap();
    assert_eq!(listed, vec![1.0, 2.0, 10.0, 20.0]);
    let structure = problem.build_symbolic_structure(&blocks, 2, &columns).unwrap();
    let filled = faer::sparse::SparseColMat::<usize, f64>::new_from_argsort(
        structure.pattern.clone(),
        &structure.order,
        &listed,
    )
    .unwrap();
    assert_eq!(filled.compute_nnz(), 2);
    assert_eq!(filled.as_ref().get(0, 0), Some(&11.0));
    assert_eq!(filled.as_ref().get(0, 1), Some(&22.0));
}

#[test]
fn a_block_over_an_unknown_variable_is_a_missing_variable() {
    let mut problem = toy_problem();
    problem.add_residual_block(1, &["x", "w"], prior(&[0.0]), None);
    let initial_values = values(&[("x", &[0.7]), ("yz", &[-30.2, 123.4])]);
    let blocks = problem.initialize_parameter_blocks(&initial_values);
    let columns = problem.get_variable_name_to_col_idx_dict(&blocks);
    assert_eq!(problem.missing_variable(&blocks, &columns), Some((2, 1)));
    assert_eq!(
        problem.jacobian_indices(&blocks, 3, &columns),
        Err(ProblemError::MissingVariable)
    );
    assert_eq!(
        problem.jacobian_values(&blocks, &columns, &Vec::new()),
        Err(ProblemError::MissingVariable)
    );
    assert!(matches!(
        problem.build_symbolic_structure(&blocks, 3, &columns),
        Err(ProblemError::MissingVariable)
    ));
    assert!(matches!(
        problem.compute_residual_and_jacobian(&blocks, &columns, &Vec::new(), &Vec::new(), 0.0),
        Err(ProblemError::MissingVariable)
    ));

    let a_column_short = {
        let mut columns = NameMap::new();
        columns.insert("x", 0usize);
        columns
    };
    let complete = toy_problem();
    assert_eq!(complete.missing_variable(&blocks, &columns), None);
    assert_eq!(complete.missing_variable(&blocks, &a_column_short), Some((1, 1)));
}

#[test]
fn a_matrix_that_is_too_narrow_is_out_of_bounds() {
    let problem = toy_problem();
    let initial_values = values(&[("x", &[0.7]), ("yz", &[-30.2, 123.4])]);
    let blocks = problem.initialize_parameter_blocks(&initial_values);
    let columns = problem.get_variable_name_to_col_idx_dict(&blocks);
    assert_eq!(
        problem.jacobian_indices(&blocks, 2, &columns),
        Err(ProblemError::OutOfBounds)
    );
    assert!(matches!(
        problem.build_symbolic_structure(&blocks, 2, &columns),
        Err(ProblemError::OutOfBounds)
    ));
    assert!(problem.jacobian_indices(&blocks, 4, &columns).is_ok());
}

#[test]
fn rows_left_behind_by_a_removed_block_are_out_of_bounds() {
    let mut problem = TestProblem::new();
    let first = problem.add_residual_block(1, &["x"], prior(&[3.0]), None);
    problem.add_residual_block(1, &["x"], prior(&[4.0]), None);
    problem.remove_residual_block(first);
    let initial_values = values(&[("x", &[0.7])]);
    let blocks = problem.initialize_parameter_blocks(&initial_values);
    let columns = problem.get_variable_name_to_col_idx_dict(&blocks);
    assert_eq!(
        problem.jacobian_indices(&blocks, 1, &columns),
        Err(ProblemError::OutOfBounds)
    );
    assert_eq!(
        problem.compute_residuals(&vec![vec![1.0]], 0.0),
        Err(ProblemError::OutOfBounds)
    );
}

#[test]
fn a_pattern_too_large_for_the_index_type_is_a_resource_failure() {
    let problem = TestProblem::new();
    let blocks: NameMap<ParameterBlock<f64, SE3Manifold>> = NameMap::new();
    let columns = NameMap::new();
    assert!(matches!(
        problem.build_symbolic_structure(&blocks, usize::MAX, &columns),
        Err(ProblemError::Resources)
    ));
    let structure = problem.build_symbolic_structure(&blocks, 5, &columns).unwrap();
    assert_eq!(structure.nrows(), 0);
    assert_eq!(structure.ncols(), 5);
}

#[test]
fn jacobians_of_the_wrong_shape_are_refused() {
    let problem = toy_problem();
    let initial_values = values(&[("x", &[0.7]), ("yz", &[-30.2, 123.4])]);
    let blocks = problem.initialize_parameter_blocks(&initial_values);
    let columns = problem.get_variable_name_to_col_idx_dict(&blocks);
    let one = DenseMatrix::from_column_major(1, 1, vec![1.0]).unwrap();
    let wide = DenseMatrix::from_column_major(2, 2, vec![1.0, 0.0, 2.0, 3.0]).unwrap();
    assert_eq!(
        problem.jacobian_values(&blocks, &columns, &vec![one]),
        Err(ProblemError::ShapeMismatch)
    );
    let one = DenseMatrix::from_column_major(1, 1, vec![1.0]).unwrap();
    assert_eq!(
        problem.jacobian_values(&blocks, &columns, &vec![one, wide]),
        Err(ProblemError::ShapeMismatch)
    );
}

#[test]
fn residuals_are_written_at_the_rows_of_their_block() {
    let mut problem = TestProblem::new();
    problem.add_residual_block(2, &["x"], prior(&[0.0, 0.0]), None);
    problem.add_residual_block(0, &["x"], prior(&[]), None);
    problem.add_residual_block(3, &["x"], prior(&[0.0, 0.0, 0.0]), None);
    let residual = problem
        .compute_residuals(&vec![vec![1.0, 2.0], vec![], vec![3.0, 4.0, 5.0]], 0.0)
        .unwrap();
    assert_eq!(residual, vec![1.0, 2.0, 3.0, 4.0, 5.0]);
    assert_eq!(
        problem.compute_residuals(&vec![vec![1.0, 2.0], vec![]], 0.0),
        Err(ProblemError::ShapeMismatch)
    );
    assert_eq!(
        problem.compute_residuals(&vec![vec![1.0], vec![], vec![3.0, 4.0, 5.0]], 0.0),
        Err(ProblemError::ShapeMismatch)
    );
}

#[test]
fn rows_that_no_block_writes_hold_zero() {
    let mut problem = TestProblem::new();
    let a = problem.add_residual_block(1, &["x"], prior(&[0.0]), None);
    problem.add_residual_block(1, &["x"], prior(&[0.0]), None);
    problem.add_residual_block(1, &["x"], prior(&[0.0]), None);
    problem.remove_residual_block(a);
    problem.remove_residual_block(2);
    problem.add_residual_block(1, &["x"], prior(&[0.0]), None);
    let residual = problem.compute_residuals(&vec![vec![7.0], vec![8.0]], -1.0).unwrap();
    assert_eq!(residual, vec![-1.0, 8.0]);
}

#[test]
fn a_default_problem_is_empty() {
    let problem = TestProblem::default();
    assert_eq!(problem.total_residual_dimension, 0);
    assert_eq!(problem.residual_blocks().len(), 0);
    assert!(problem.variable_manifold.is_empty());
}

#[test]
fn a_block_reads_its_variables_in_the_order_of_its_keys() {
    let mut problem = TestProblem::new();
    problem.add_residual_block(1, &["yz", "x", "yz"], prior(&[0.0]), None);
    problem.add_residual_block(1, &["x", "w"], prior(&[0.0]), None);
    let initial_values = values(&[("x", &[0.7]), ("yz", &[-30.2, 123.4])]);
    let blocks = problem.initialize_parameter_blocks(&initial_values);
    let read = block_parameters(&problem.residual_blocks()[0], &blocks).unwrap();
    assert_eq!(read.len(), 3);
    assert_eq!(read[0].params, vec![-30.2, 123.4]);
    assert_eq!(read[1].params, vec![0.7]);
    assert_eq!(read[2].params, vec![-30.2, 123.4]);
    assert!(block_parameters(&problem.residual_blocks()[1], &blocks).is_none());
}
