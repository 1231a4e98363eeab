use neural_net::matrix::{Matrix, MatrixError};
use rand::Rng;

fn sample() -> f64 {
    rand::thread_rng().gen_range(-1.0..1.0)
}

#[test]
fn test_matrix_zeros() {
    let matrix: Matrix<f64> = Matrix::zeros(2, 3);
    assert_eq!(matrix.rows, 2);
    assert_eq!(matrix.cols, 3);
    assert_eq!(matrix.data, vec![vec![0.0, 0.0, 0.0], vec![0.0, 0.0, 0.0]]);
}

#[test]
fn test_matrix_random() {
    let matrix = Matrix::random(2, 3, &sample);
    assert_eq!(matrix.rows, 2);
    assert_eq!(matrix.cols, 3);
    for row in matrix.data.iter() {
        for &val in row.iter() {
            assert!(val >= -1.0 && val <= 1.0);
        }
    }
}

#[test]
fn test_matrix_from() {
    let data = vec![vec![1.0, 2.0], vec![3.0, 4.0]];
    let matrix = Matrix::from(data.clone());
    assert_eq!(matrix.rows, 2);
    assert_eq!(matrix.cols, 2);
    assert_eq!(matrix.data, data);
}

#[test]
fn test_matrix_add() {
    let matrix1 = Matrix::from(vec![vec![1.0, 2.0], vec![3.0, 4.0]]);
    let matrix2 = Matrix::from(vec![vec![1.0, 1.0], vec![1.0, 1.0]]);
    let result = matrix1.add(&matrix2).unwrap();
    assert_eq!(result.data, vec![vec![2.0, 3.0], vec![4.0, 5.0]]);
}

#[test]
#[should_panic(expected = "Attempted to subtract matrix of incorrect dimensions")]
fn test_matrix_add_panic_on_dimension_mismatch() {
    let matrix1 = Matrix::from(vec![vec![1.0, 2.0]]);
    let matrix2 = Matrix::from(vec![vec![1.0]]);
    matrix1
        .add(&matrix2)
        .expect("Attempted to subtract matrix of incorrect dimensions");
}

#[test]
fn test_matrix_multiply() {
    let matrix1 = Matrix::from(vec![vec![1.0, 2.0], vec![3.0, 4.0]]);
    let matrix2 = Matrix::from(vec![vec![2.0], vec![1.0]]);
    let result = matrix1.multiply(&matrix2).unwrap();
    assert_eq!(result.data, vec![vec![4.0], vec![10.0]]);
}

#[test]
#[should_panic(expected = "Attempted to multiply by matrix of incorrect dimensions")]
fn test_matrix_multiply_panic_on_dimension_mismatch() {
    let matrix1 = Matrix::from(vec![vec![1.0, 2.0]]);
    let matrix2 = Matrix::from(vec![vec![1.0, 2.0]]);
    matrix1
        .multiply(&matrix2)
        .expect("Attempted to multiply by matrix of incorrect dimensions");
}

#[test]
fn test_matrix_dot_multiply() {
    let matrix1 = Matrix::from(vec![vec![1.0, 2.0], vec![3.0, 4.0]]);
    let matrix2 = Matrix::from(vec![vec![2.0, 1.0], vec![0.5, 0.5]]);
    let result = matrix1.dot_multiply(&matrix2).unwrap();
    assert_eq!(result.data, vec![vec![2.0, 2.0], vec![1.5, 2.0]]);
}

#[test]
fn test_matrix_transpose() {
    let matrix = Matrix::from(vec![vec![1.0, 2.0], vec![3.0, 4.0]]);
    let transposed = matrix.transpose();
    assert_eq!(transposed.data, vec![vec![1.0, 3.0], vec![2.0, 4.0]]);
}

#[test]
fn test_matrix_map() {
    let matrix = Matrix::from(vec![vec![1.0, -1.0], vec![2.0, -2.0]]);
    let result = matrix.map(&|x: f64| x.abs());
    assert_eq!(result.data, vec![vec![1.0, 1.0], vec![2.0, 2.0]]);
}

#[test]
fn transpose_twice_gives_back_the_matrix() {
    let matrix = Matrix::from(vec![vec![1.5, -2.0, 3.0], vec![4.0, 0.0, -6.25]]);
    let once = matrix.transpose();
    assert_eq!(once.rows, 3);
    assert_eq!(once.cols, 2);
    let twice = once.transpose();
    assert_eq!(twice.rows, 2);
    assert_eq!(twice.cols, 3);
    assert_eq!(twice.data, matrix.data);
}

#[test]
fn add_then_subtract_gives_back_the_matrix() {
    let a: Matrix<f64> = Matrix::from(vec![vec![0.1, -0.7, 3.3], vec![1e-3, 2.5, -9.0]]);
    let b = Matrix::from(vec![vec![0.2, 0.9, -1.1], vec![4.0, -0.3, 0.05]]);
    let back = a.add(&b).unwrap().subtract(&b).unwrap();
    for i in 0..2 {
        for j in 0..3 {
            assert!((back.data[i][j] - a.data[i][j]).abs() < 1e-9);
        }
    }
}

#[test]
fn add_then_subtract_on_integers_is_exact() {
    let a = Matrix::from(vec![vec![7i64, -3], vec![0, 12]]);
    let b = Matrix::from(vec![vec![5i64, 5], vec![-8, 1]]);
    let back = a.add(&b).unwrap().subtract(&b).unwrap();
    assert_eq!(back.data, a.data);
}

#[test]
fn mismatched_shapes_are_refused_by_every_operation() {
    let wide = Matrix::from(vec![vec![1.0, 2.0]]);
    let single = Matrix::from(vec![vec![1.0]]);
    assert_eq!(wide.add(&single).unwrap_err(), MatrixError::DimensionMismatch);
    assert_eq!(wide.subtract(&single).unwrap_err(), MatrixError::DimensionMismatch);
    assert_eq!(wide.dot_multiply(&single).unwrap_err(), MatrixError::DimensionMismatch);
    assert_eq!(wide.multiply(&wide).unwrap_err(), MatrixError::DimensionMismatch);
    assert!(wide.multiply(&wide.transpose()).is_ok());
}

#[test]
fn subtract_takes_the_second_from_the_first() {
    let a = Matrix::from(vec![vec![5.0, 1.0], vec![0.0, -2.0]]);
    let b = Matrix::from(vec![vec![2.0, 3.0], vec![1.0, -2.0]]);
    assert_eq!(a.subtract(&b).unwrap().data, vec![vec![3.0, -2.0], vec![-1.0, 0.0]]);
}

#[test]
fn multiply_sums_over_the_inner_dimension() {
    let a = Matrix::from(vec![vec![1i64, 2, 3], vec![4, 5, 6]]);
    let b = Matrix::from(vec![vec![7i64, 8], vec![9, 10], vec![11, 12]]);
    let product = a.multiply(&b).unwrap();
    assert_eq!(product.rows, 2);
    assert_eq!(product.cols, 2);
    assert_eq!(product.data, vec![vec![58, 64], vec![139, 154]]);
}

#[test]
fn filled_repeats_the_value() {
    let m = Matrix::filled(3, 1, 7u8);
    assert_eq!(m.data, vec![vec![7], vec![7], vec![7]]);
}

#[test]
fn well_formedness_is_checked_cell_by_cell() {
    let ragged = Matrix::from(vec![vec![1.0, 2.0], vec![3.0]]);
    assert!(!ragged.is_well_formed());
    let empty_row: Matrix<f64> = Matrix::from(vec![vec![]]);
    assert!(!empty_row.is_well_formed());
    let square = Matrix::from(vec![vec![1.0, 2.0], vec![3.0, 4.0]]);
    assert!(square.is_well_formed());
}

#[test]
fn columns_and_rows_are_copied() {
    let m = Matrix::from(vec![vec![1, 2], vec![3, 4], vec![5, 6]]);
    assert_eq!(m.column_values(1), vec![2, 4, 6]);
    assert_eq!(m.to_rows(), m.data);
}
