use concurrency::vector::{dot_product, fits_dot_product, Vector, VectorError};

#[test]
fn dot_product_of_two_vectors() {
    let a = Vector::new(vec![1i64, 2, 3]);
    let b = Vector::new(vec![4i64, 5, 6]);
    assert_eq!(dot_product(a, b), Ok(32));
}

#[test]
fn dot_product_with_negative_entries() {
    let a = Vector::new(vec![-1i64, 2, -3, 4]);
    let b = Vector::new(vec![5i64, -6, 7, 8]);
    assert_eq!(dot_product(a, b), Ok(-5 - 12 - 21 + 32));
}

#[test]
fn dot_product_of_empty_vectors_is_zero() {
    let a: Vector<i64> = Vector::new(Vec::new());
    let b: Vector<i64> = Vector::new(Vec::new());
    assert_eq!(dot_product(a, b), Ok(0));
}

#[test]
fn dot_product_rejects_different_lengths() {
    let a = Vector::new(vec![1i64, 2, 3]);
    let b = Vector::new(vec![1i64, 2]);
    let r = dot_product(a, b);
    assert_eq!(r, Err(VectorError::SizeMismatch));
    assert_eq!(VectorError::SizeMismatch.message(), "Vector size mismatch");
}

#[test]
fn vector_keeps_its_entries() {
    let v = Vector::new(vec!['a', 'b', 'c']);
    assert_eq!(v.len(), 3);
    assert_eq!(v.as_vec(), &vec!['a', 'b', 'c']);
}

#[test]
fn fits_dot_product_tells_when_the_sum_can_be_held() {
    let a = Vector::new(vec![1i64, 2, 3]);
    let b = Vector::new(vec![4i64, 5, 6]);
    assert!(fits_dot_product(&a, &b));
    let short = Vector::new(vec![1i64]);
    assert!(fits_dot_product(&a, &short));
    let big = Vector::new(vec![i64::MAX, 1]);
    let ones = Vector::new(vec![1i64, 1]);
    assert!(!fits_dot_product(&big, &ones));
    let twos = Vector::new(vec![2i64, 0]);
    assert!(!fits_dot_product(&big, &twos));
    let back = Vector::new(vec![i64::MAX, -1]);
    assert!(fits_dot_product(&back, &ones));
    assert_eq!(dot_product(back, ones), Ok(i64::MAX - 1));
}
