use tiny_solver::layout::checked_total;
use tiny_solver::{get_variable_rows, DenseMatrix, NameMap, ResidualBlock};

#[test]
fn variable_rows_are_consecutive_ranges() {
    assert_eq!(
        get_variable_rows(&[2, 0, 3]),
        vec![vec![0, 1], vec![], vec![2, 3, 4]]
    );
    assert_eq!(get_variable_rows(&[]), Vec::<Vec<usize>>::new());
}

#[test]
fn a_total_that_does_not_fit_is_none() {
    assert_eq!(checked_total(&[1, 2, 3]), Some(6));
    assert_eq!(checked_total(&[]), Some(0));
    assert_eq!(checked_total(&[usize::MAX, 1]), None);
    assert_eq!(checked_total(&[usize::MAX, 0]), Some(usize::MAX));
}

#[test]
fn a_dense_matrix_is_read_column_by_column() {
    let m = DenseMatrix::from_column_major(2, 3, vec![1, 2, 3, 4, 5, 6]).unwrap();
    assert_eq!((m.nrows(), m.ncols()), (2, 3));
    assert_eq!(m.get(0, 0), 1);
    assert_eq!(m.get(1, 0), 2);
    assert_eq!(m.get(0, 1), 3);
    assert_eq!(m.get(1, 2), 6);
    assert!(DenseMatrix::from_column_major(2, 3, vec![1, 2, 3, 4, 5]).is_none());
    assert!(DenseMatrix::from_column_major(usize::MAX, 2, vec![1]).is_none());
    assert!(DenseMatrix::<u8>::from_column_major(0, 5, vec![]).is_some());
}

#[test]
fn a_name_map_keeps_insertion_order() {
    let mut map = NameMap::new();
    assert!(map.is_empty());
    assert_eq!(map.insert("b", 1), None);
    assert_eq!(map.insert("a", 2), None);
    assert_eq!(map.insert("c", 3), None);
    assert_eq!(map.insert("a", 20), Some(2));
    assert_eq!(map.len(), 3);
    assert_eq!(map.position("a"), Some(1));
    assert_eq!((map.name(0).as_str(), *map.value(0)), ("b", 1));
    assert_eq!((map.name(1).as_str(), *map.value(1)), ("a", 20));
    assert_eq!((map.name(2).as_str(), *map.value(2)), ("c", 3));
    assert!(map.contains_key("c"));
    assert!(!map.contains_key("d"));
    assert_eq!(map.get("d"), None);
    assert_eq!(map.remove("b"), Some(1));
    assert_eq!(map.remove("b"), None);
    assert_eq!(map.position("a"), Some(0));
    assert_eq!(map.position("c"), Some(1));
    *map.value_mut(1) += 1;
    assert_eq!(map.get("c"), Some(&4));
    map.push_new("z", 0);
    assert_eq!(map.position("z"), Some(2));
}

#[test]
fn a_residual_block_keeps_what_it_was_made_of() {
    let block = ResidualBlock::new(4, 2, 10, &["x", "yz"], "factor", Some(1.5));
    assert_eq!(block.residual_block_id, 4);
    assert_eq!(block.dim_residual, 2);
    assert_eq!(block.residual_row_start_idx, 10);
    assert_eq!(block.variable_key_list, vec!["x".to_string(), "yz".to_string()]);
    assert_eq!(block.factor, "factor");
    assert_eq!(block.loss_func, Some(1.5));
}
