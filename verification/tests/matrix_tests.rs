use neural_network::matrix::Matrix;
use neural_network::matrix::MatrixError;

#[test]
fn test_elementwise_multiply() {
    let matrix1 = Matrix::new(2, 2, vec![1.0, 2.0, 3.0, 4.0]).unwrap();
    let matrix2 = Matrix::new(2, 2, vec![5.0, 6.0, 7.0, 8.0]).unwrap();

    let result = matrix1
        .elementwise_multiply(&matrix2, |x: f64, y: f64| x * y)
        .unwrap();

    let expected_result = Matrix::new(2, 2, vec![5.0, 12.0, 21.0, 32.0]).unwrap();

    assert_eq!(result.rows, expected_result.rows);
    assert_eq!(result.cols, expected_result.cols);
    assert_eq!(result.data, expected_result.data);
}

#[test]
fn test_subtract_same_dimensions() {
    let matrix1 = Matrix::new(2, 2, vec![1.0, 2.0, 3.0, 4.0]).unwrap();
    let matrix2 = Matrix::new(2, 2, vec![5.0, 6.0, 7.0, 8.0]).unwrap();

    let result = matrix1.subtract(&matrix2, |x: f64, y: f64| x - y).unwrap();

    assert_eq!(result.rows, 2);
    assert_eq!(result.cols, 2);
    assert_eq!(result.data, vec![-4.0, -4.0, -4.0, -4.0]);
}

#[test]
fn test_dot_multiply() {
    let a = Matrix::new(2, 3, vec![1.0, 2.0, 3.0, 4.0, 5.0, 6.0]).unwrap();
    let b = Matrix::new(3, 2, vec![7.0, 8.0, 9.0, 10.0, 11.0, 12.0]).unwrap();

    let result = a
        .dot_multiply(&b, 0.0, |x: f64, y: f64| x + y, |x: f64, y: f64| x * y)
        .unwrap();

    assert_eq!(result.rows, 2);
    assert_eq!(result.cols, 2);
    assert_eq!(result.data, vec![58.0, 64.0, 139.0, 154.0]);
}

#[test]
fn test_subtract_different_dimensions() {
    let matrix1 = Matrix::new(2, 2, vec![1.0, 2.0, 3.0, 4.0]).unwrap();
    let matrix2 = Matrix::new(2, 3, vec![5.0, 6.0, 7.0, 8.0, 9.0, 10.0]).unwrap();

    let result = matrix1.subtract(&matrix2, |x: f64, y: f64| x - y);

    assert_eq!(result, Err(MatrixError::DimensionMismatch));
}

#[test]
fn test_matrix_addition() {
    let a = Matrix::new(3, 3, vec![1.0, 2.0, 3.0, 4.0, 5.0, 6.0, 7.0, 8.0, 9.0]).unwrap();
    let b = Matrix::new(3, 3, vec![5.0, 6.0, 7.0, 8.0, 9.0, 10.0, 11.0, 12.0, 13.0]).unwrap();

    let result = a.add(&b, |x: f64, y: f64| x + y).unwrap();

    assert_eq!(result.rows, 3);
    assert_eq!(result.cols, 3);
    assert_eq!(
        result.data,
        vec![6.0, 8.0, 10.0, 12.0, 14.0, 16.0, 18.0, 20.0, 22.0]
    );
}

#[test]
fn test_transpose_2x2() {
    let matrix = Matrix::new(2, 2, vec![1.0, 2.0, 3.0, 4.0]).unwrap();
    let transposed = matrix.transpose();

    assert_eq!(transposed.rows, 2);
    assert_eq!(transposed.cols, 2);
    assert_eq!(transposed.data, vec![1.0, 3.0, 2.0, 4.0]);
}

#[test]
fn test_transpose_3x3() {
    let matrix = Matrix::new(3, 3, vec![1.0, 2.0, 3.0, 4.0, 5.0, 6.0, 7.0, 8.0, 9.0]).unwrap();
    let transposed = matrix.transpose();

    assert_eq!(transposed.rows, 3);
    assert_eq!(transposed.cols, 3);
    assert_eq!(
        transposed.data,
        vec![1.0, 4.0, 7.0, 2.0, 5.0, 8.0, 3.0, 6.0, 9.0]
    );
}

#[test]
fn test_transpose_4x3() {
    let matrix = Matrix::new(
        4,
        3,
        vec![
            1.0, 2.0, 3.0, 4.0, 5.0, 6.0, 7.0, 8.0, 9.0, 10.0, 11.0, 12.0,
        ],
    )
    .unwrap();
    let transposed = matrix.transpose();

    assert_eq!(transposed.rows, 3);
    assert_eq!(transposed.cols, 4);
    assert_eq!(
        transposed.data,
        vec![1.0, 4.0, 7.0, 10.0, 2.0, 5.0, 8.0, 11.0, 3.0, 6.0, 9.0, 12.0]
    );
}

#[test]
fn test_map_add_one() {
    let matrix = Matrix {
        rows: 2,
        cols: 2,
        data: vec![1.0, 2.0, 3.0, 4.0],
    };

    let transformed = matrix.map(|x: f64| x + 1.0);

    assert_eq!(transformed.rows, 2);
    assert_eq!(transformed.cols, 2);
    assert_eq!(transformed.data, vec![2.0, 3.0, 4.0, 5.0]);
}

#[test]
fn test_map_square() {
    let matrix = Matrix {
        rows: 2,
        cols: 2,
        data: vec![1.0, 2.0, 3.0, 4.0],
    };

    let transformed = matrix.map(|x: f64| x * x);

    assert_eq!(transformed.rows, 2);
    assert_eq!(transformed.cols, 2);
    assert_eq!(transformed.data, vec![1.0, 4.0, 9.0, 16.0]);
}

#[test]
fn test_map_identity() {
    let matrix = Matrix::new(2, 3, vec![1.5, -2.0, 0.0, 4.25, 7.0, -0.5]).unwrap();

    let transformed = matrix.map(|x: f64| x);

    assert_eq!(transformed.rows, matrix.rows);
    assert_eq!(transformed.cols, matrix.cols);
    assert_eq!(transformed.data, matrix.data);
}

#[test]
fn test_add_commutative() {
    let a = Matrix::new(2, 2, vec![1.0, -2.5, 3.0, 0.25]).unwrap();
    let b = Matrix::new(2, 2, vec![4.0, 6.5, -1.0, 2.75]).unwrap();

    let ab = a.add(&b, |x: f64, y: f64| x + y).unwrap();
    let ba = b.add(&a, |x: f64, y: f64| x + y).unwrap();

    assert_eq!(ab.rows, ba.rows);
    assert_eq!(ab.cols, ba.cols);
    assert_eq!(ab.data, ba.data);
}

#[test]
fn test_subtract_self_is_zero() {
    let a = Matrix::new(2, 3, vec![1.0, -2.5, 3.0, 0.25, 9.0, -7.5]).unwrap();

    let result = a.subtract(&a, |x: f64, y: f64| x - y).unwrap();

    assert_eq!(result.rows, 2);
    assert_eq!(result.cols, 3);
    assert_eq!(result.data, vec![0.0; 6]);
}

#[test]
fn test_transpose_involution() {
    let a = Matrix::new(2, 3, vec![1.0, 2.0, 3.0, 4.0, 5.0, 6.0]).unwrap();

    let back = a.transpose().transpose();

    assert_eq!(back.rows, a.rows);
    assert_eq!(back.cols, a.cols);
    assert_eq!(back.data, a.data);
}

#[test]
fn test_add_dimension_mismatch() {
    let a = Matrix::new(2, 2, vec![1.0, 2.0, 3.0, 4.0]).unwrap();
    let b = Matrix::new(3, 2, vec![1.0, 2.0, 3.0, 4.0, 5.0, 6.0]).unwrap();

    let result = a.add(&b, |x: f64, y: f64| x + y);

    assert_eq!(result, Err(MatrixError::DimensionMismatch));
}

#[test]
fn test_elementwise_multiply_dimension_mismatch() {
    let a = Matrix::new(1, 2, vec![1.0, 2.0]).unwrap();
    let b = Matrix::new(2, 1, vec![1.0, 2.0]).unwrap();

    let result = a.elementwise_multiply(&b, |x: f64, y: f64| x * y);

    assert_eq!(result, Err(MatrixError::DimensionMismatch));
}

#[test]
fn test_dot_multiply_dimension_mismatch() {
    let a = Matrix::new(2, 3, vec![1.0, 2.0, 3.0, 4.0, 5.0, 6.0]).unwrap();
    let b = Matrix::new(2, 2, vec![7.0, 8.0, 9.0, 10.0]).unwrap();

    let result = a.dot_multiply(&b, 0.0, |x: f64, y: f64| x + y, |x: f64, y: f64| x * y);

    assert_eq!(result, Err(MatrixError::DimensionMismatch));
}

#[test]
fn test_new_rejects_wrong_buffer_length() {
    let result: Result<Matrix<f64>, MatrixError> = Matrix::new(2, 2, vec![1.0, 2.0, 3.0]);

    assert_eq!(result, Err(MatrixError::ConstructionSizeMismatch));
}

#[test]
fn test_new_accepts_exact_buffer_length() {
    let m = Matrix::new(2, 3, vec![1.0, 2.0, 3.0, 4.0, 5.0, 6.0]).unwrap();

    assert_eq!(m.rows, 2);
    assert_eq!(m.cols, 3);
    assert_eq!(m.data.len(), 6);
}

#[test]
fn test_zeros() {
    let m = Matrix::zeros(3, 4, 0.0);

    assert_eq!(m.rows, 3);
    assert_eq!(m.cols, 4);
    assert_eq!(m.data, vec![0.0; 12]);
}

#[test]
fn test_from_vector_is_column() {
    let m = Matrix::from(vec![1.0, 2.0, 3.0]);

    assert_eq!(m.rows, 3);
    assert_eq!(m.cols, 1);
    assert_eq!(m.data, vec![1.0, 2.0, 3.0]);
}

#[test]
fn test_scale() {
    let a = Matrix::new(2, 2, vec![1.0, 2.0, 3.0, 4.0]).unwrap();

    let result = a.scale(0.5, |x: f64, y: f64| x * y);

    assert_eq!(result.rows, 2);
    assert_eq!(result.cols, 2);
    assert_eq!(result.data, vec![0.5, 1.0, 1.5, 2.0]);
}
