//! Tests for the dense matrix type over a double-precision scalar and over
//! the crate's own integer scalar.

use rustml::matrix::Matrix;
use rustml::scalar::Scalar;

/// A double-precision floating-point scalar for exercising the library; its
/// arithmetic is the platform's `f64` arithmetic.
#[derive(Clone, Copy, Debug, PartialEq)]
struct F64(f64);

impl Scalar for F64 {
    fn add(self, rhs: Self) -> Self {
        F64(self.0 + rhs.0)
    }

    fn sub(self, rhs: Self) -> Self {
        F64(self.0 - rhs.0)
    }

    fn mul(self, rhs: Self) -> Self {
        F64(self.0 * rhs.0)
    }

    fn div(self, rhs: Self) -> Self {
        F64(self.0 / rhs.0)
    }

    fn sigmoid(self) -> Self {
        F64(1.0 / (1.0 + (-self.0).exp()))
    }

    fn relu(self) -> Self {
        F64(self.0.max(0.0))
    }

    fn zero() -> Self {
        F64(0.0)
    }

    fn from_count(n: usize) -> Self {
        F64(n as f64)
    }
}

fn fm(vals: &[f64]) -> Vec<F64> {
    vals.iter().map(|&x| F64(x)).collect()
}

fn matrix(rows: usize, cols: usize, vals: &[f64]) -> Matrix<F64> {
    Matrix::from_iter(rows, cols, &fm(vals))
}

#[test]
fn matrix_test_new() {
    let m: Matrix<F64> = Matrix::new(2, 2);
    assert_eq!(m.rows(), 2);
    assert_eq!(m.cols(), 2);
    assert_eq!(m.get(0, 0), Some(F64(0.0)));
    assert_eq!(m.get(0, 1), Some(F64(0.0)));
    assert_eq!(m.get(1, 0), Some(F64(0.0)));
    assert_eq!(m.get(1, 1), Some(F64(0.0)));
}

#[test]
fn test_from_iter() {
    let m = matrix(2, 2, &[1.0, 2.0, 3.0, 4.0]);
    assert_eq!(m.rows(), 2);
    assert_eq!(m.cols(), 2);
    assert_eq!(m.get(0, 0), Some(F64(1.0)));
    assert_eq!(m.get(0, 1), Some(F64(2.0)));
    assert_eq!(m.get(1, 0), Some(F64(3.0)));
    assert_eq!(m.get(1, 1), Some(F64(4.0)));
}

#[test]
fn test_get_set() {
    let mut m: Matrix<F64> = Matrix::new(2, 2);
    assert_eq!(m.set(0, 0, F64(1.0)), Some(F64(0.0)));
    assert_eq!(m.get(0, 0), Some(F64(1.0)));
    assert_eq!(m.set(1, 1, F64(2.0)), Some(F64(0.0)));
    assert_eq!(m.get(1, 1), Some(F64(2.0)));
}

#[test]
fn test_get_row() {
    let m = matrix(2, 2, &[1.0, 2.0, 3.0, 4.0]);
    assert_eq!(m.get_row(0), Some(fm(&[1.0, 2.0])));
    assert_eq!(m.get_row(1), Some(fm(&[3.0, 4.0])));
    assert_eq!(m.get_row(2), None);
}

#[test]
fn test_get_col() {
    let m = matrix(2, 2, &[1.0, 2.0, 3.0, 4.0]);
    assert_eq!(m.get_col(0), Some(fm(&[1.0, 3.0])));
    assert_eq!(m.get_col(1), Some(fm(&[2.0, 4.0])));
    assert_eq!(m.get_col(2), None);
}

#[test]
fn test_get_row_matrix() {
    let m = matrix(2, 2, &[1.0, 2.0, 3.0, 4.0]);
    assert_eq!(m.get_row_matrix(0), Some(matrix(1, 2, &[1.0, 2.0])));
    assert_eq!(m.get_row_matrix(1), Some(matrix(1, 2, &[3.0, 4.0])));
    assert_eq!(m.get_row_matrix(2), None);
}

#[test]
fn test_get_col_matrix() {
    let m = matrix(2, 2, &[1.0, 2.0, 3.0, 4.0]);
    assert_eq!(m.get_col_matrix(0), Some(matrix(2, 1, &[1.0, 3.0])));
    assert_eq!(m.get_col_matrix(1), Some(matrix(2, 1, &[2.0, 4.0])));
    assert_eq!(m.get_col_matrix(2), None);
}

#[test]
fn test_sigmoid() {
    let mut m = matrix(2, 2, &[0.0, 1.0, 2.0, 3.0]);
    m.sigmoid();
    assert_eq!(m.rows(), 2);
    assert_eq!(m.cols(), 2);
    assert_eq!(m.get(0, 0), Some(F64(0.5)));
    assert_eq!(m.get(0, 1), Some(F64(0.7310585786300049)));
    assert_eq!(m.get(1, 0), Some(F64(0.8807970779778823)));
    assert_eq!(m.get(1, 1), Some(F64(0.9525741268224334)));
}

#[test]
fn test_add() {
    let a = matrix(2, 2, &[1.0, 2.0, 3.0, 4.0]);
    let b = matrix(2, 2, &[5.0, 6.0, 7.0, 8.0]);
    let expected = matrix(2, 2, &[6.0, 8.0, 10.0, 12.0]);
    assert_eq!(a.add(&b), expected);
}

#[test]
fn test_add_ref() {
    let a = matrix(2, 2, &[1.0, 2.0, 3.0, 4.0]);
    let b = matrix(2, 2, &[5.0, 6.0, 7.0, 8.0]);
    let expected = matrix(2, 2, &[6.0, 8.0, 10.0, 12.0]);
    assert_eq!((&a).add(&b), expected);
}

#[test]
fn test_add_assign() {
    let mut a = matrix(2, 2, &[1.0, 2.0, 3.0, 4.0]);
    let b = matrix(2, 2, &[5.0, 6.0, 7.0, 8.0]);
    let expected = matrix(2, 2, &[6.0, 8.0, 10.0, 12.0]);
    a.add_assign(&b);
    assert_eq!(a, expected);
}

#[test]
fn test_add_assign_ref() {
    let mut a = matrix(2, 2, &[1.0, 2.0, 3.0, 4.0]);
    let b = matrix(2, 2, &[5.0, 6.0, 7.0, 8.0]);
    let expected = matrix(2, 2, &[6.0, 8.0, 10.0, 12.0]);
    a.add_assign(&b);
    assert_eq!(a, expected);
}

#[test]
fn test_sub() {
    let a = matrix(2, 2, &[1.0, 2.0, 3.0, 4.0]);
    let b = matrix(2, 2, &[5.0, 6.0, 7.0, 8.0]);
    let expected = matrix(2, 2, &[-4.0, -4.0, -4.0, -4.0]);
    assert_eq!(a.sub(&b), expected);
}

#[test]
fn test_sub_ref() {
    let a = matrix(2, 2, &[1.0, 2.0, 3.0, 4.0]);
    let b = matrix(2, 2, &[5.0, 6.0, 7.0, 8.0]);
    let expected = matrix(2, 2, &[-4.0, -4.0, -4.0, -4.0]);
    assert_eq!((&a).sub(&b), expected);
}

#[test]
fn test_sub_assign() {
    let mut a = matrix(2, 2, &[1.0, 2.0, 3.0, 4.0]);
    let b = matrix(2, 2, &[5.0, 6.0, 7.0, 8.0]);
    let expected = matrix(2, 2, &[-4.0, -4.0, -4.0, -4.0]);
    a.sub_assign(&b);
    assert_eq!(a, expected);
}

#[test]
fn test_sub_assign_ref() {
    let mut a = matrix(2, 2, &[1.0, 2.0, 3.0, 4.0]);
    let b = matrix(2, 2, &[5.0, 6.0, 7.0, 8.0]);
    let expected = matrix(2, 2, &[-4.0, -4.0, -4.0, -4.0]);
    a.sub_assign(&b);
    assert_eq!(a, expected);
}

#[test]
fn test_mul() {
    let a = matrix(2, 3, &[1.0, 2.0, 3.0, 4.0, 5.0, 6.0]);
    let b = matrix(3, 2, &[7.0, 8.0, 9.0, 10.0, 11.0, 12.0]);
    let expected = matrix(2, 2, &[58.0, 64.0, 139.0, 154.0]);
    assert_eq!(a.mul(&b), expected);
}

#[test]
fn test_mul_ref() {
    let a = matrix(2, 3, &[1.0, 2.0, 3.0, 4.0, 5.0, 6.0]);
    let b = matrix(3, 2, &[7.0, 8.0, 9.0, 10.0, 11.0, 12.0]);
    let expected = matrix(2, 2, &[58.0, 64.0, 139.0, 154.0]);
    assert_eq!((&a).mul(&b), expected);
}

#[test]
fn test_mul_assign() {
    let mut a = matrix(2, 3, &[1.0, 2.0, 3.0, 4.0, 5.0, 6.0]);
    let b = matrix(3, 2, &[7.0, 8.0, 9.0, 10.0, 11.0, 12.0]);
    let expected = matrix(2, 2, &[58.0, 64.0, 139.0, 154.0]);
    a.mul_assign(&b);
    assert_eq!(a, expected);
}

#[test]
fn test_mul_assign_ref() {
    let mut a = matrix(2, 3, &[1.0, 2.0, 3.0, 4.0, 5.0, 6.0]);
    let b = matrix(3, 2, &[7.0, 8.0, 9.0, 10.0, 11.0, 12.0]);
    let expected = matrix(2, 2, &[58.0, 64.0, 139.0, 154.0]);
    a.mul_assign(&b);
    assert_eq!(a, expected);
}

#[test]
fn test_product_shape() {
    let a = matrix(2, 3, &[1.0, 2.0, 3.0, 4.0, 5.0, 6.0]);
    let b = matrix(3, 2, &[7.0, 8.0, 9.0, 10.0, 11.0, 12.0]);
    let p = a.mul(&b);
    assert_eq!(p.rows(), 2);
    assert_eq!(p.cols(), 2);
}

#[test]
fn test_out_of_range_reads_absent() {
    let m = matrix(2, 3, &[1.0, 2.0, 3.0, 4.0, 5.0, 6.0]);
    for r in 0..2 {
        for c in 0..3 {
            assert!(m.get(r, c).is_some());
        }
    }
    assert_eq!(m.get(2, 0), None);
    assert_eq!(m.get(0, 3), None);
    assert_eq!(m.get_row(2), None);
    assert_eq!(m.get_col(3), None);
}

#[test]
fn test_empty_matrix_reads_absent() {
    let m: Matrix<F64> = Matrix::new(0, 5);
    assert_eq!(m.rows(), 0);
    assert_eq!(m.cols(), 5);
    assert_eq!(m.get(0, 0), None);
    assert_eq!(m.get_row(0), None);
}

#[test]
fn test_add_sub_roundtrip_exact() {
    let a = matrix(2, 2, &[1.0, 2.0, 3.0, 4.0]);
    let b = matrix(2, 2, &[5.0, 6.0, 7.0, 8.0]);
    assert_eq!(a.add(&b).sub(&b), a);
}

#[test]
fn test_add_sub_roundtrip_tolerance() {
    let a = matrix(1, 3, &[0.1, 2.7, -3.3]);
    let b = matrix(1, 3, &[1.9, -0.4, 12.5]);
    let back = a.add(&b).sub(&b);
    for c in 0..3 {
        let x = a.get(0, c).unwrap().0;
        let y = back.get(0, c).unwrap().0;
        assert!((x - y).abs() < 1e-12);
    }
}

#[test]
fn test_add_sub_roundtrip_wrapping_ints() {
    let vals_a: Vec<i64> = vec![i64::MAX, -7, 0, 42];
    let vals_b: Vec<i64> = vec![1, i64::MIN, -1, 99];
    let a: Matrix<i64> = Matrix::from_iter(2, 2, &vals_a);
    let b: Matrix<i64> = Matrix::from_iter(2, 2, &vals_b);
    assert_eq!(a.add(&b).sub(&b), a);
}

#[test]
fn test_relu() {
    let mut m = matrix(1, 4, &[-1.5, 0.0, 2.5, -0.0]);
    m.relu();
    assert_eq!(m.get(0, 0), Some(F64(0.0)));
    assert_eq!(m.get(0, 1), Some(F64(0.0)));
    assert_eq!(m.get(0, 2), Some(F64(2.5)));
    assert_eq!(m.get(0, 3), Some(F64(0.0)));
}

#[test]
fn test_fill_and_copy_from() {
    let mut m: Matrix<F64> = Matrix::new(2, 2);
    m.fill(F64(7.0));
    assert_eq!(m, matrix(2, 2, &[7.0, 7.0, 7.0, 7.0]));
    let src = matrix(2, 2, &[1.0, 2.0, 3.0, 4.0]);
    m.copy_from(&src);
    assert_eq!(m, src);
}

#[test]
fn test_add_from_and_dot_from() {
    let mut m = matrix(1, 2, &[1.0, 2.0]);
    m.add_from(&matrix(1, 2, &[10.0, 20.0]));
    assert_eq!(m, matrix(1, 2, &[11.0, 22.0]));

    let a = matrix(2, 3, &[1.0, 2.0, 3.0, 4.0, 5.0, 6.0]);
    let b = matrix(3, 2, &[7.0, 8.0, 9.0, 10.0, 11.0, 12.0]);
    let mut out: Matrix<F64> = Matrix::new(2, 2);
    out.dot_from(&a, &b);
    assert_eq!(out, matrix(2, 2, &[58.0, 64.0, 139.0, 154.0]));
}

#[test]
fn test_get_mut() {
    let mut m = matrix(2, 2, &[1.0, 2.0, 3.0, 4.0]);
    *m.get_mut(1, 0) = F64(30.0);
    assert_eq!(m.get(1, 0), Some(F64(30.0)));
    assert_eq!(m.get(0, 0), Some(F64(1.0)));
}

#[test]
fn test_sigmoid_monotone_and_bounded() {
    let xs: Vec<f64> = vec![-20.0, -5.0, -1.0, -0.25, 0.0, 0.25, 1.0, 5.0, 8.0];
    let mut prev: Option<f64> = None;
    for &x in &xs {
        let y = F64(x).sigmoid().0;
        assert!(y > 0.0 && y < 1.0);
        if let Some(p) = prev {
            assert!(p < y);
        }
        prev = Some(y);
    }
    assert_eq!(F64(0.0).sigmoid(), F64(0.5));
}
