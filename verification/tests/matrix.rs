use concurrency::matrix::{fits_multiply, multiply, Matrix, MatrixError};
use concurrency::vector::{dot_product, Vector};

#[test]
fn test_matrix() -> anyhow::Result<()> {
    let a = Matrix::new(vec![1, 2, 3, 4, 5, 6], 2, 3);
    let b = Matrix::new(vec![1, 2, 3, 4, 5, 6], 3, 2);
    let c = multiply(&a, &b).map_err(|e| anyhow::Error::msg(e.message()))?;
    println!("{}", c.to_string());
    assert_eq!(c.row(), 2);
    assert_eq!(c.col(), 2);
    assert_eq!(c.data(), &vec![22, 28, 49, 64]);
    assert_eq!(c.debug_string(), "Matrix(2x2, {22 28,49 64})");
    Ok(())
}

#[test]
fn multiply_rejects_sizes_that_do_not_go_together() {
    let a = Matrix::new(vec![1i64, 2, 3, 4], 2, 2);
    let b = Matrix::new(vec![1i64, 2, 3], 3, 1);
    match multiply(&a, &b) {
        Err(e) => {
            assert_eq!(e, MatrixError::SizeMismatch);
            assert_eq!(e.message(), "Matrix size mismatch");
        }
        Ok(_) => panic!("sizes 2x2 and 3x1 were multiplied"),
    }
}

#[test]
fn multiply_sums_over_the_inner_dimension() {
    let a = Matrix::new(vec![7i64, -2, 0, 5], 2, 2);
    let b = Matrix::new(vec![100i64, 100, 3, -4], 2, 2);
    let c = multiply(&a, &b).unwrap();
    assert_eq!(c.data(), &vec![694, 708, 15, -20]);
    assert_eq!(c.to_string(), "{694 708,15 -20}");
}

#[test]
fn multiply_without_inner_dimension_gives_zeros() {
    let a: Matrix<i64> = Matrix::new(Vec::new(), 2, 0);
    let b: Matrix<i64> = Matrix::new(Vec::new(), 0, 3);
    let c = multiply(&a, &b).unwrap();
    assert_eq!(c.row(), 2);
    assert_eq!(c.col(), 3);
    assert_eq!(c.data(), &vec![0i64; 6]);
    assert_eq!(c.to_string(), "{0 0 0,0 0 0}");
}

#[test]
fn multiply_by_a_single_cell() {
    let a = Matrix::new(vec![6i64], 1, 1);
    let b = Matrix::new(vec![7i64], 1, 1);
    let c = multiply(&a, &b).unwrap();
    assert_eq!(c.data(), &vec![42]);
    assert_eq!(c.debug_string(), "Matrix(1x1, {42})");
}

#[test]
fn new_keeps_what_it_is_given() {
    let m = Matrix::new(vec![1u8, 2, 3, 4, 5, 6], 3, 2);
    assert_eq!(m.row(), 3);
    assert_eq!(m.col(), 2);
    assert_eq!(m.data(), &vec![1u8, 2, 3, 4, 5, 6]);
}

#[test]
fn empty_matrix_is_written_as_braces() {
    let m: Matrix<i64> = Matrix::new(Vec::new(), 0, 0);
    assert_eq!(m.to_string(), "{}");
    assert_eq!(m.debug_string(), "Matrix(0x0, {})");
}

#[test]
fn matrix_text_holds_the_extremes() {
    let m = Matrix::new(vec![i64::MIN, i64::MAX, 0, -10], 2, 2);
    assert_eq!(
        m.to_string(),
        "{-9223372036854775808 9223372036854775807,0 -10}"
    );
}

#[test]
fn complete_matrices_are_told_from_short_ones() {
    assert!(Matrix::new(vec![1i64, 2, 3, 4, 5, 6], 2, 3).is_complete());
    assert!(Matrix::new(vec![1i64, 2, 3, 4, 5, 6, 7], 2, 3).is_complete());
    assert!(!Matrix::new(vec![1i64, 2, 3, 4, 5], 2, 3).is_complete());
    assert!(!Matrix::new(vec![1i64], usize::MAX, 2).is_complete());
    assert!(Matrix::new(Vec::<i64>::new(), usize::MAX, 0).is_complete());
}

#[test]
fn fits_multiply_tells_when_multiply_may_be_called() {
    let a = Matrix::new(vec![1i64, 2, 3, 4, 5, 6], 2, 3);
    let b = Matrix::new(vec![1i64, 2, 3, 4, 5, 6], 3, 2);
    assert!(fits_multiply(&a, &b));
    let short = Matrix::new(vec![1i64, 2, 3], 3, 2);
    assert!(!fits_multiply(&a, &short));
    let other = Matrix::new(vec![1i64, 2, 3], 1, 5);
    assert!(fits_multiply(&a, &other));
    let big = Matrix::new(vec![i64::MAX, 1, 1, 1], 2, 2);
    let two = Matrix::new(vec![2i64, 1, 1, 1], 2, 2);
    assert!(!fits_multiply(&big, &two));
    let ones = Matrix::new(vec![1i64, 1, 1, 1], 2, 2);
    assert!(!fits_multiply(&big, &ones));
    let top = Matrix::new(vec![1i64, 1, 0, 0], 2, 2);
    assert!(fits_multiply(&big, &top));
    assert_eq!(multiply(&big, &top).unwrap().data(), &vec![i64::MAX, i64::MAX, 1, 1]);
    let back = Matrix::new(vec![i64::MAX, 1, i64::MIN, -1], 2, 2);
    let mixed = Matrix::new(vec![1i64, 0, -1, 0], 2, 2);
    assert!(fits_multiply(&back, &mixed));
    assert_eq!(multiply(&back, &mixed).unwrap().data(), &vec![i64::MAX - 1, 0, i64::MIN + 1, 0]);
    let tall: Matrix<i64> = Matrix::new(Vec::new(), usize::MAX, 0);
    let wide: Matrix<i64> = Matrix::new(Vec::new(), 0, 2);
    assert!(!fits_multiply(&tall, &wide));
}

#[test]
fn identity_is_neutral_on_either_side() {
    let a = Matrix::new(vec![1i64, 2, 3, 4], 2, 2);
    let id = Matrix::new(vec![1i64, 0, 0, 1], 2, 2);
    let right = multiply(&a, &id).unwrap();
    assert_eq!(right.row(), 2);
    assert_eq!(right.col(), 2);
    assert_eq!(right.data(), &vec![1, 2, 3, 4]);
    let left = multiply(&id, &a).unwrap();
    assert_eq!(left.row(), 2);
    assert_eq!(left.col(), 2);
    assert_eq!(left.data(), &vec![1, 2, 3, 4]);
}

#[test]
fn row_times_column_is_the_dot_product() {
    let a = Matrix::new(vec![1i64, 2, 3], 1, 3);
    let b = Matrix::new(vec![4i64, 5, 6], 3, 1);
    let c = multiply(&a, &b).unwrap();
    assert_eq!(c.row(), 1);
    assert_eq!(c.col(), 1);
    assert_eq!(c.data(), &vec![32]);
    let d = dot_product(Vector::new(vec![1i64, 2, 3]), Vector::new(vec![4i64, 5, 6]));
    assert_eq!(d, Ok(c.data()[0]));
}

#[test]
fn column_times_row_fills_every_cell() {
    let a = Matrix::new(vec![1i64, 2, 3], 3, 1);
    let b = Matrix::new(vec![4i64, 5], 1, 2);
    let c = multiply(&a, &b).unwrap();
    assert_eq!(c.row(), 3);
    assert_eq!(c.col(), 2);
    assert_eq!(c.data(), &vec![4, 5, 8, 10, 12, 15]);
    assert_eq!(c.debug_string(), "Matrix(3x2, {4 5,8 10,12 15})");
}
