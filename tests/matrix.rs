use matmul::{
    assemble, dot_product, multiply, multiply_with_workers, plan_tasks, run_task, worker_for,
    AmapMetrics, Matrix, MatrixError, MetricsError, MsgInput, MsgOutput, Vector,
};

fn sample_a() -> Matrix {
    Matrix::new(vec![1, 2, 3, 4, 5, 6], 2, 3)
}

fn sample_b() -> Matrix {
    Matrix::new(vec![1, 2, 3, 4, 5, 6], 3, 2)
}

/// Deterministic pseudo-random integers in `[-50, 50)`.
fn pseudo_random(seed: u64, count: usize) -> Vec<i64> {
    let mut state = seed;
    let mut out = Vec::with_capacity(count);
    for _ in 0..count {
        state = state
            .wrapping_mul(6364136223846793005)
            .wrapping_add(1442695040888963407);
        out.push(((state >> 33) % 100) as i64 - 50);
    }
    out
}

/// Straightforward triple loop over row-major data.
fn reference_product(a: &[i64], b: &[i64], r: usize, k: usize, c: usize) -> Vec<i64> {
    let mut out = vec![0; r * c];
    for i in 0..r {
        for j in 0..c {
            let mut sum = 0;
            for m in 0..k {
                sum += a[i * k + m] * b[m * c + j];
            }
            out[i * c + j] = sum;
        }
    }
    out
}

#[test]
fn test_multiply() {
    let a = Matrix::new(vec![1, 2, 3, 4, 5, 6], 2, 3);
    let b = Matrix::new(vec![1, 2, 3, 4, 5, 6], 3, 2);
    let ret = multiply(&a, &b).unwrap();
    assert!(ret == Matrix::new(vec![22, 28, 49, 64], 2, 2));
    assert_eq!(ret.to_display_string(), "{22 28, 49 64}");
    assert_eq!(ret.to_debug_string(), "Matrix(row=2, col=2, {22 28, 49 64})");

    let ret = multiply(&a, &b).expect("Multiply error");
    assert!(ret == Matrix::new(vec![22, 28, 49, 64], 2, 2));
    assert_eq!(ret.to_display_string(), "{22 28, 49 64}");
    assert_eq!(ret.to_debug_string(), "Matrix(row=2, col=2, {22 28, 49 64})");
}

#[test]
#[should_panic]
fn test_a_can_not_multiply_b() {
    let a = Matrix::new(vec![1, 2, 3, 4, 5, 6], 2, 3);
    let b = Matrix::new(vec![1, 2, 3, 4], 2, 2);
    let _ret = multiply(&a, &b).expect("Multiply error");
}

#[test]
fn incompatible_shapes_give_shape_mismatch() {
    let a = Matrix::new(vec![1, 2, 3, 4, 5, 6], 2, 3);
    let b = Matrix::new(vec![1, 2, 3, 4], 2, 2);
    assert!(multiply(&a, &b) == Err(MatrixError::ShapeMismatch));
    assert!(multiply_with_workers(&a, &b, 1) == Err(MatrixError::ShapeMismatch));
}

#[test]
fn dot_product_of_unequal_lengths_fails() {
    let a = Vector::new(vec![1, 2, 3]);
    let b = Vector::new(vec![1, 2, 3, 4]);
    assert_eq!(dot_product(a, b), Err(MatrixError::LengthMismatch));
}

#[test]
fn dot_product_sums_products() {
    let a = Vector::new(vec![1, 2, 3]);
    let b = Vector::new(vec![4, -5, 6]);
    assert_eq!(dot_product(a, b), Ok(12));
    assert_eq!(dot_product(Vector::new(vec![]), Vector::new(vec![])), Ok(0));
}

#[test]
fn dot_product_overflow_is_reported() {
    let a = Vector::new(vec![i64::MAX, 1]);
    let b = Vector::new(vec![1, 1]);
    assert_eq!(dot_product(a, b), Err(MatrixError::Overflow));
    let c = Vector::new(vec![i64::MAX]);
    let d = Vector::new(vec![2]);
    assert_eq!(dot_product(c, d), Err(MatrixError::Overflow));
}

#[test]
fn multiply_overflow_is_reported() {
    let a = Matrix::new(vec![i64::MAX, 1], 1, 2);
    let b = Matrix::new(vec![1, 1], 2, 1);
    assert!(multiply(&a, &b) == Err(MatrixError::Overflow));
}

#[test]
fn worker_counts_agree_on_random_matrices() {
    let da = pseudo_random(7, 100);
    let db = pseudo_random(11, 100);
    let a = Matrix::new(da.clone(), 10, 10);
    let b = Matrix::new(db.clone(), 10, 10);
    let one = multiply_with_workers(&a, &b, 1).unwrap();
    let eight = multiply_with_workers(&a, &b, 8).unwrap();
    assert!(one == eight);
    let expected = Matrix::new(reference_product(&da, &db, 10, 10, 10), 10, 10);
    assert!(one == expected);
}

#[test]
fn product_matches_reference_on_rectangular_shapes() {
    let da = pseudo_random(3, 4 * 7);
    let db = pseudo_random(5, 7 * 3);
    let a = Matrix::new(da.clone(), 4, 7);
    let b = Matrix::new(db.clone(), 7, 3);
    let expected = Matrix::new(reference_product(&da, &db, 4, 7, 3), 4, 3);
    for workers in 1..=13 {
        let m = multiply_with_workers(&a, &b, workers).unwrap();
        assert!(m == expected);
        assert_eq!(m.row_count(), 4);
        assert_eq!(m.col_count(), 3);
    }
}

#[test]
fn repeated_calls_are_identical() {
    let a = Matrix::new(pseudo_random(1, 36), 6, 6);
    let b = Matrix::new(pseudo_random(2, 36), 6, 6);
    let first = multiply(&a, &b).unwrap();
    for _ in 0..5 {
        assert!(multiply(&a, &b).unwrap() == first);
    }
}

#[test]
fn empty_inner_dimension_gives_zeros() {
    let a = Matrix::new(vec![], 2, 0);
    let b = Matrix::new(vec![], 0, 3);
    let m = multiply(&a, &b).unwrap();
    assert!(m == Matrix::new(vec![0; 6], 2, 3));
    assert_eq!(m.to_display_string(), "{0 0 0, 0 0 0}");
}

#[test]
fn display_of_empty_and_negative() {
    let empty = Matrix::new(vec![], 0, 0);
    assert_eq!(empty.to_display_string(), "{}");
    assert_eq!(empty.to_debug_string(), "Matrix(row=0, col=0, {})");
    let m = Matrix::new(vec![-7, 120, 0, -3456], 2, 2);
    assert_eq!(m.to_display_string(), "{-7 120, 0 -3456}");
    assert_eq!(m.to_debug_string(), "Matrix(row=2, col=2, {-7 120, 0 -3456})");
    let wide = Matrix::new(vec![1, 2, 3], 1, 3);
    assert_eq!(wide.to_display_string(), "{1 2 3}");
    let tall = Matrix::new(vec![1, 2, 3], 3, 1);
    assert_eq!(tall.to_display_string(), "{1, 2, 3}");
}

#[test]
fn equality_is_structural() {
    let m = Matrix::new(vec![1, 2, 3, 4], 2, 2);
    assert!(m == Matrix::new(vec![1, 2, 3, 4], 2, 2));
    assert!(m != Matrix::new(vec![1, 2, 3, 5], 2, 2));
    assert!(Matrix::new(vec![1, 2, 3, 4], 1, 4) != Matrix::new(vec![1, 2, 3, 4], 4, 1));
}

#[test]
fn rows_and_columns_are_extracted() {
    let b = sample_b();
    let col = b.column(1);
    assert_eq!(col.len(), 3);
    assert_eq!((col.get(0), col.get(1), col.get(2)), (2, 4, 6));
    let row = sample_a().row(1);
    assert_eq!((row.get(0), row.get(1), row.get(2)), (4, 5, 6));
    assert_eq!(sample_a().get(1, 2), 6);
}

#[test]
fn plan_has_one_task_per_cell_in_row_major_order() {
    let tasks = plan_tasks(&sample_a(), &sample_b());
    assert_eq!(tasks.len(), 4);
    for (t, task) in tasks.iter().enumerate() {
        assert_eq!(task.idx, t);
        assert_eq!(task.row.len(), 3);
        assert_eq!(task.col.len(), 3);
    }
    assert_eq!(tasks[3].row.get(0), 4);
    assert_eq!(tasks[3].col.get(2), 6);
}

#[test]
fn run_task_tags_its_reply() {
    let task = MsgInput::new(5, Vector::new(vec![4, 5, 6]), Vector::new(vec![2, 4, 6]));
    assert_eq!(run_task(&task), Ok(MsgOutput { idx: 5, value: 64 }));
    let bad = MsgInput::new(1, Vector::new(vec![1]), Vector::new(vec![1, 2]));
    assert_eq!(run_task(&bad), Err(MatrixError::LengthMismatch));
}

#[test]
fn routing_spreads_cells_over_workers() {
    assert_eq!(worker_for(0, 4), 0);
    assert_eq!(worker_for(5, 4), 1);
    assert_eq!(worker_for(11, 4), 3);
    assert_eq!(worker_for(9, 1), 0);
}

#[test]
fn replies_are_placed_by_tag_not_by_arrival() {
    let replies = vec![
        MsgOutput { idx: 3, value: 64 },
        MsgOutput { idx: 0, value: 22 },
        MsgOutput { idx: 2, value: 49 },
        MsgOutput { idx: 1, value: 28 },
    ];
    let m = assemble(&replies, 2, 2).unwrap();
    assert!(m == Matrix::new(vec![22, 28, 49, 64], 2, 2));
}

#[test]
fn duplicate_missing_or_stray_replies_fail() {
    let duplicate = vec![
        MsgOutput { idx: 0, value: 1 },
        MsgOutput { idx: 0, value: 2 },
    ];
    assert!(assemble(&duplicate, 1, 2) == Err(MatrixError::ChannelClosed));
    let missing = vec![MsgOutput { idx: 1, value: 1 }];
    assert!(assemble(&missing, 1, 2) == Err(MatrixError::ChannelClosed));
    let stray = vec![
        MsgOutput { idx: 0, value: 1 },
        MsgOutput { idx: 2, value: 1 },
    ];
    assert!(assemble(&stray, 1, 2) == Err(MatrixError::ChannelClosed));
    assert!(assemble(&vec![], 0, 5) == Ok(Matrix::new(vec![], 0, 5)));
}

#[test]
fn metrics_count_registered_names_only() {
    let metrics = AmapMetrics::new(&["multiply_calls", "cells"]);
    assert_eq!(metrics.get("multiply_calls"), Some(0));
    assert_eq!(metrics.inc("multiply_calls"), Ok(()));
    let shared = metrics.clone();
    assert_eq!(shared.inc("multiply_calls"), Ok(()));
    assert_eq!(metrics.get("multiply_calls"), Some(2));
    assert_eq!(metrics.get("cells"), Some(0));
    assert_eq!(metrics.inc("unknown"), Err(MetricsError::UnknownKey));
    assert_eq!(metrics.get("unknown"), None);
}
