#![allow(non_snake_case)]

use vectrix::{Abs, Matrix, Num, One, Sqrt, Zero};

/// A double-precision element type for exercising the library the way its
/// numeric traits are meant to be implemented by users.
#[derive(Clone, Copy, Debug, PartialEq)]
struct F64(f64);

impl Zero for F64 {
    fn zero_spec() -> F64 {
        F64(0.0)
    }

    fn zero() -> F64 {
        F64(0.0)
    }
}

impl One for F64 {
    fn one_spec() -> F64 {
        F64(1.0)
    }

    fn one() -> F64 {
        F64(1.0)
    }
}

impl Abs for F64 {
    fn abs_spec(self) -> F64 {
        F64(self.0.abs())
    }

    fn abs(self) -> F64 {
        F64(self.0.abs())
    }
}

impl Sqrt for F64 {
    fn sqrt_spec(self) -> F64 {
        F64(self.0.sqrt())
    }

    fn sqrt(self) -> F64 {
        F64(self.0.sqrt())
    }
}

impl Num for F64 {
    fn add_spec(self, other: F64) -> F64 {
        F64(self.0 + other.0)
    }

    fn add(self, other: F64) -> F64 {
        F64(self.0 + other.0)
    }

    fn sub_spec(self, other: F64) -> F64 {
        F64(self.0 - other.0)
    }

    fn sub(self, other: F64) -> F64 {
        F64(self.0 - other.0)
    }

    fn mul_spec(self, other: F64) -> F64 {
        F64(self.0 * other.0)
    }

    fn mul(self, other: F64) -> F64 {
        F64(self.0 * other.0)
    }

    fn div_spec(self, other: F64) -> F64 {
        F64(self.0 / other.0)
    }

    fn div(self, other: F64) -> F64 {
        F64(self.0 / other.0)
    }

    fn rem_spec(self, other: F64) -> F64 {
        F64(self.0 % other.0)
    }

    fn rem(self, other: F64) -> F64 {
        F64(self.0 % other.0)
    }

    fn neg_spec(self) -> F64 {
        F64(-self.0)
    }

    fn neg(self) -> F64 {
        F64(-self.0)
    }

    fn lt_spec(self, other: F64) -> bool {
        self.0 < other.0
    }

    fn lt(self, other: F64) -> bool {
        self.0 < other.0
    }

    fn eq_elem(self, other: F64) -> bool {
        self.0 == other.0
    }
}

/// Builds a matrix from rows given in row-major order, as the values read on
/// the page.
fn mat<const M: usize, const N: usize>(rows: [[f64; N]; M]) -> Matrix<M, N, F64> {
    let mut data = Vec::new();
    for c in 0..N {
        for r in 0..M {
            data.push(F64(rows[r][c]));
        }
    }
    Matrix::from_column_major_order(data)
}

/// Builds a column vector.
fn vec_col<const M: usize>(entries: [f64; M]) -> Matrix<M, 1, F64> {
    let mut data = Vec::new();
    for r in 0..M {
        data.push(F64(entries[r]));
    }
    Matrix::from_column_major_order(data)
}

#[test]
fn create() {
    let m = mat([[1.0, 2.0, 3.0], [4.0, 5.0, 6.0]]);
    assert_eq!(*m.index(0, 0), F64(1.0));
    assert_eq!(*m.index(1, 2), F64(6.0));

    let v = vec_col([1.0, 2.0, 3.0]);
    assert_eq!(*v.get_at(0).unwrap(), F64(1.0));
    assert_eq!(*v.get_at(2).unwrap(), F64(3.0));

    let z = Matrix::<2, 3, F64>::zeros();
    assert_eq!(*z.index(0, 0), F64(0.0));
    assert_eq!(*z.index(1, 2), F64(0.0));

    let z = Matrix::<3, 3, F64>::zeros();
    assert_eq!(*z.index(2, 2), F64(0.0));

    let o = Matrix::<2, 3, F64>::ones();
    assert_eq!(*o.index(0, 0), F64(1.0));
    assert_eq!(*o.index(1, 2), F64(1.0));

    let o = Matrix::<3, 3, F64>::ones();
    assert_eq!(*o.index(2, 2), F64(1.0));
}

#[test]
fn clone() {
    let a = mat([[1.0, 2.0, 3.0], [5.0, 6.0, 4.0]]);
    assert_eq!(a.clone(), a);
}

#[test]
fn scalar() {
    let m = mat([[1.0, 2.0, 3.0], [4.0, 5.0, 6.0]]);
    let res = m.clone().add_scalar(F64(3.0));
    let exp = mat([[4.0, 5.0, 6.0], [7.0, 8.0, 9.0]]);
    assert_eq!(res, exp);
    let res = res.sub_scalar(F64(3.0));
    assert_eq!(res, m);
}

#[test]
fn mat_add() {
    let m = mat([[1.0, 2.0, 3.0], [4.0, 5.0, 6.0]]);
    let m2 = mat([[1.0, 2.0, 3.0], [4.0, 5.0, 6.0]]);
    let exp = mat([[2.0, 4.0, 6.0], [8.0, 10.0, 12.0]]);
    assert_eq!(m.add(&m2), exp);
}

#[test]
fn mat_mul() {
    let m = mat([[1.0, 2.0, 3.0], [4.0, 5.0, 6.0]]);
    let m2 = mat([[1.0, 2.0], [3.0, 4.0], [5.0, 6.0]]);
    let exp = mat([[22.0, 28.0], [49.0, 64.0]]);
    assert_eq!(m.mul(&m2), exp);
}

/// A single-precision element type, enough for the diagonal builders.
#[derive(Clone, Copy, Debug, PartialEq)]
struct F32(f32);

impl Zero for F32 {
    fn zero_spec() -> F32 {
        F32(0.0)
    }

    fn zero() -> F32 {
        F32(0.0)
    }
}

impl One for F32 {
    fn one_spec() -> F32 {
        F32(1.0)
    }

    fn one() -> F32 {
        F32(1.0)
    }
}

/// Absolute-tolerance comparison of two scalars.
fn abs_diff_eq(a: f64, b: f64, epsilon: f64) -> bool {
    (a - b).abs() <= epsilon
}

/// Relative-tolerance comparison of two scalars.
fn rel_eq(a: f64, b: f64, max_relative: f64) -> bool {
    if a == b {
        return true;
    }
    let diff = (a - b).abs();
    let largest = a.abs().max(b.abs());
    diff <= f64::EPSILON || diff <= max_relative * largest
}

/// Relative-tolerance comparison of two matrices, entry by entry.
fn mat_rel_eq<const M: usize, const N: usize>(
    a: &Matrix<M, N, F64>,
    b: &Matrix<M, N, F64>,
    max_relative: f64,
) -> bool {
    for i in 0..M {
        for j in 0..N {
            if !rel_eq(a.index(i, j).0, b.index(i, j).0, max_relative) {
                return false;
            }
        }
    }
    true
}

#[test]
fn LU_decomp() {
    let A = mat([[1.0, 3.0, 5.0], [2.0, 4.0, 7.0], [1.0, 1.0, 0.0]]);
    let (L, U, P) = A.lu();
    let L_exp = mat([[1.0, 0.0, 0.0], [0.5, 1.0, 0.0], [0.5, -1.0, 1.0]]);
    let U_exp = mat([[2.0, 4.0, 7.0], [0.0, 1.0, 1.5], [0.0, 0.0, -2.0]]);
    let P_exp = mat([[0.0, 1.0, 0.0], [1.0, 0.0, 0.0], [0.0, 0.0, 1.0]]);
    assert_eq!(L, L_exp);
    assert_eq!(U, U_exp);
    assert_eq!(P, P_exp);
}

#[test]
fn determinant() {
    let A = mat([[6.0, 2.0, 3.0], [1.0, 1.0, 1.0], [0.0, 4.0, 9.0]]);
    assert!(abs_diff_eq(A.det().0, 24.0, 1e-10));

    let A = mat([[3.0, 7.0], [1.0, -4.0]]);
    assert!(abs_diff_eq(A.det().0, -19.0, 1e-10));

    let A = mat([[1.0, 2.0], [4.0, 8.0]]);
    assert!(abs_diff_eq(A.det().0, 0.0, 1e-10));

    let A = mat([[1.0, 1.0], [2.0, 2.0]]);
    assert!(abs_diff_eq(A.det().0, 0.0, 1e-10));

    let A = mat([
        [1.0, 2.0, 3.0, 4.0],
        [2.0, 5.0, 7.0, 3.0],
        [4.0, 10.0, 14.0, 6.0],
        [3.0, 4.0, 2.0, 7.0],
    ]);
    assert!(abs_diff_eq(A.det().0, 0.0, 1e-10));

    let A = mat([
        [1.0, 2.0, 3.0, 4.0],
        [2.0, 5.0, 7.0, 3.0],
        [4.0, 10.0, 14.0, 6.0],
        [3.0, 4.0, 2.0, 7.0],
    ]);
    assert!(abs_diff_eq(A.det().0, 0.0, 1e-10));

    let A = mat([
        [11.0, 9.0, 24.0, 2.0],
        [1.0, 5.0, 2.0, 6.0],
        [3.0, 17.0, 18.0, 1.0],
        [2.0, 5.0, 7.0, 1.0],
    ]);
    assert!(abs_diff_eq(A.det().0, -284.0, 1e-10));

    let A = mat([
        [2.0, 3.0, 0.0, 9.0, 0.0, 1.0, 0.0, 1.0, 1.0, 2.0, 1.0],
        [1.0, 1.0, 0.0, 3.0, 0.0, 0.0, 0.0, 9.0, 2.0, 3.0, 1.0],
        [1.0, 4.0, 0.0, 2.0, 8.0, 5.0, 0.0, 3.0, 6.0, 1.0, 9.0],
        [0.0, 0.0, 0.0, 0.0, 0.0, 5.0, 0.0, 0.0, 0.0, 0.0, 0.0],
        [2.0, 2.0, 4.0, 1.0, 1.0, 2.0, 1.0, 6.0, 9.0, 0.0, 7.0],
        [0.0, 0.0, 0.0, 6.0, 0.0, 7.0, 0.0, 1.0, 0.0, 0.0, 0.0],
        [2.0, 5.0, 0.0, 7.0, 0.0, 4.0, 6.0, 8.0, 5.0, 1.0, 3.0],
        [0.0, 0.0, 0.0, 1.0, 0.0, 4.0, 0.0, 1.0, 0.0, 0.0, 0.0],
        [0.0, 0.0, 0.0, 8.0, 0.0, 2.0, 0.0, 0.0, 0.0, 0.0, 0.0],
        [2.0, 1.0, 0.0, 0.0, 0.0, 1.0, 0.0, 0.0, 2.0, 1.0, 1.0],
        [2.0, 6.0, 0.0, 1.0, 0.0, 30.0, 0.0, 2.0, 3.0, 2.0, 1.0],
    ]);
    assert!(abs_diff_eq(A.det().0, 0.0, 1e-10));
}

#[test]
fn upper_inverse() {
    let mut A = mat([[2.0, 4.0, 6.0], [0.0, -1.0, -8.0], [0.0, 0.0, 96.0]]);
    let I = Matrix::invert_upper_triangular(&mut A).unwrap();
    let E = mat([
        [0.5, 2.0, 0.13541667],
        [0.0, -1.0, -0.08333333],
        [0.0, 0.0, 0.01041667],
    ]);
    assert!(mat_rel_eq(&I, &E, 1e-6));
}

#[test]
fn lower_inverse() {
    let mut A = mat([[1.0, 0.0, 0.0], [8.0, 1.0, 0.0], [4.0, 9.0, 1.0]]);
    let I = Matrix::invert_lower_triangular(&mut A).unwrap();
    let E = mat([[1.0, 0.0, 0.0], [-8.0, 1.0, 0.0], [68.0, -9.0, 1.0]]);
    assert!(mat_rel_eq(&I, &E, 1e-6));
}

#[test]
fn inverse() {
    let A = mat([[6.0, 2.0, 3.0], [1.0, 1.0, 1.0], [0.0, 4.0, 9.0]]);
    let exp = mat([
        [0.20833333, -0.25, -0.04166667],
        [-0.375, 2.25, -0.125],
        [0.16666667, -1.0, 0.16666667],
    ]);
    assert!(mat_rel_eq(&A.inv().unwrap(), &exp, 1e-6));

    let A = mat([
        [11.0, 9.0, 24.0, 2.0],
        [1.0, 5.0, 2.0, 6.0],
        [3.0, 17.0, 18.0, 1.0],
        [2.0, 5.0, 7.0, 1.0],
    ]);
    let exp = mat([
        [0.72183099, 0.46126761, 1.02112676, -5.23239437],
        [0.28521127, 0.23591549, 0.59859155, -2.58450704],
        [-0.37676056, -0.29929577, -0.65492958, 3.20422535],
        [-0.23239437, -0.00704225, -0.45070423, 1.95774648],
    ]);
    assert!(mat_rel_eq(&A.inv().unwrap(), &exp, 1e-6));
}

#[test]
fn index() {
    let m = mat([[1.0, 2.0, 3.0], [4.0, 5.0, 6.0]]);
    assert_eq!(*m.get_at(1).unwrap(), F64(4.0));
    assert_eq!(*m.index(1, 2), F64(6.0));

    let mut s = m.as_slice().iter();
    assert_eq!(s.next(), Some(&F64(1.0)));
    assert_eq!(s.next(), Some(&F64(4.0)));
    assert_eq!(s.next(), Some(&F64(2.0)));
    assert_eq!(s.next(), Some(&F64(5.0)));
    assert_eq!(s.next(), Some(&F64(3.0)));
    assert_eq!(s.next(), Some(&F64(6.0)));
    assert_eq!(s.next(), None);
}

#[test]
fn swap() {
    let mut m = mat([[1.0, 2.0, 3.0], [4.0, 5.0, 6.0], [7.0, 8.0, 9.0]]);
    m.swap_rows(0, 2);
    let exp = mat([[7.0, 8.0, 9.0], [4.0, 5.0, 6.0], [1.0, 2.0, 3.0]]);
    assert_eq!(m, exp);
    m.swap_columns(0, 2);
    let exp = mat([[9.0, 8.0, 7.0], [6.0, 5.0, 4.0], [3.0, 2.0, 1.0]]);
    assert_eq!(m, exp);
}

#[test]
fn transpose() {
    let m = mat([[1.0, 2.0, 3.0], [4.0, 5.0, 6.0]]);
    let t = mat([[1.0, 4.0], [2.0, 5.0], [3.0, 6.0]]);
    assert_eq!(m.transpose(), t);
}

#[test]
fn norm() {
    let m = mat([[1.0, -2.0], [-3.0, 6.0]]);
    assert!(rel_eq(m.norm().0, 7.0710678, 1e-6));
}

#[test]
fn cross() {
    let a = vec_col([3.0, -3.0, 1.0]);
    let b = vec_col([4.0, 9.0, 2.0]);
    let exp = vec_col([-15.0, -2.0, 39.0]);
    assert!(mat_rel_eq(&a.cross(&b), &exp, 1e-6));
}

#[test]
fn trace() {
    let m = mat([[9.0, 8.0, 7.0], [6.0, 5.0, 4.0], [3.0, 2.0, 1.0]]);
    assert_eq!(m.trace(), F64(15.0));
}

#[test]
fn diag() {
    let d = Matrix::<2, 2, F64>::from_diagonal(&vec![F64(0.1), F64(0.2)]);
    let e = mat([[0.1, 0.0], [0.0, 0.2]]);
    assert!(mat_rel_eq(&d, &e, 1e-6));
    let d32 = Matrix::<2, 2, F32>::from_diagonal(&vec![F32(0.1), F32(0.2)]);
    assert!(rel_eq(d32.index(0, 0).0 as f64, 0.1, 1e-6));
    assert!(rel_eq(d32.index(1, 1).0 as f64, 0.2, 1e-6));
    assert_eq!(*d32.index(0, 1), F32(0.0));
    assert_eq!(*d32.index(1, 0), F32(0.0));

    let d = Matrix::<3, 3, F64>::from_diagonal(&vec![F64(0.1), F64(0.2), F64(0.3)]);
    let e = mat([[0.1, 0.0, 0.0], [0.0, 0.2, 0.0], [0.0, 0.0, 0.3]]);
    assert!(mat_rel_eq(&d, &e, 1e-6));
    let d32 = Matrix::<3, 3, F32>::from_diagonal(&vec![F32(0.1), F32(0.2), F32(0.3)]);
    assert!(rel_eq(d32.index(2, 2).0 as f64, 0.3, 1e-6));

    let d = Matrix::<4, 4, F64>::from_diagonal(&vec![F64(0.1), F64(0.2), F64(0.3), F64(0.4)]);
    let e = mat([
        [0.1, 0.0, 0.0, 0.0],
        [0.0, 0.2, 0.0, 0.0],
        [0.0, 0.0, 0.3, 0.0],
        [0.0, 0.0, 0.0, 0.4],
    ]);
    assert!(mat_rel_eq(&d, &e, 1e-6));
    let d32 = Matrix::<4, 4, F32>::from_diagonal(&vec![F32(0.1), F32(0.2), F32(0.3), F32(0.4)]);
    assert!(rel_eq(d32.index(3, 3).0 as f64, 0.4, 1e-6));

    let d = Matrix::<5, 5, F64>::from_diagonal(&vec![
        F64(0.1),
        F64(0.2),
        F64(0.3),
        F64(0.4),
        F64(0.5),
    ]);
    let e = mat([
        [0.1, 0.0, 0.0, 0.0, 0.0],
        [0.0, 0.2, 0.0, 0.0, 0.0],
        [0.0, 0.0, 0.3, 0.0, 0.0],
        [0.0, 0.0, 0.0, 0.4, 0.0],
        [0.0, 0.0, 0.0, 0.0, 0.5],
    ]);
    assert!(mat_rel_eq(&d, &e, 1e-6));
    let d32 = Matrix::<5, 5, F32>::from_diagonal(&vec![
        F32(0.1),
        F32(0.2),
        F32(0.3),
        F32(0.4),
        F32(0.5),
    ]);
    assert!(rel_eq(d32.index(4, 4).0 as f64, 0.5, 1e-6));

    let d = Matrix::<6, 6, F64>::from_diagonal(&vec![
        F64(0.1),
        F64(0.2),
        F64(0.3),
        F64(0.4),
        F64(0.5),
        F64(0.6),
    ]);
    let e = mat([
        [0.1, 0.0, 0.0, 0.0, 0.0, 0.0],
        [0.0, 0.2, 0.0, 0.0, 0.0, 0.0],
        [0.0, 0.0, 0.3, 0.0, 0.0, 0.0],
        [0.0, 0.0, 0.0, 0.4, 0.0, 0.0],
        [0.0, 0.0, 0.0, 0.0, 0.5, 0.0],
        [0.0, 0.0, 0.0, 0.0, 0.0, 0.6],
    ]);
    assert!(mat_rel_eq(&d, &e, 1e-6));
    let d32 = Matrix::<6, 6, F32>::from_diagonal(&vec![
        F32(0.1),
        F32(0.2),
        F32(0.3),
        F32(0.4),
        F32(0.5),
        F32(0.6),
    ]);
    assert!(rel_eq(d32.index(5, 5).0 as f64, 0.6, 1e-6));
}

#[test]
fn iter() {
    let m = mat([[1.0, 2.0, 3.0, 4.0], [5.0, 6.0, 7.0, 8.0]]);
    let r = m.row(1);
    assert_eq!(r.get(1), Some(&F64(6.0)));
    assert_eq!(r.get(2), Some(&F64(7.0)));
    assert_eq!(r.get(4), None);

    let c = m.column(2);
    assert_eq!(c.get(0), Some(&F64(3.0)));
    assert_eq!(c.get(1), Some(&F64(7.0)));
    assert_eq!(c.get(2), None);
}

#[test]
fn dot_partial() {
    let m = mat([
        [1.0, 2.0, 3.0, 4.0],
        [5.0, 6.0, 7.0, 8.0],
        [9.0, 10.0, 12.0, 13.0],
        [14.0, 15.0, 16.0, 17.0],
    ]);
    let d = m.row(1).dot_partial(&m.column(2), 1..3);
    assert_eq!(d, F64(126.0));
}

/// Absolute-tolerance comparison of two matrices, entry by entry.
fn mat_abs_eq<const M: usize, const N: usize>(
    a: &Matrix<M, N, F64>,
    b: &Matrix<M, N, F64>,
    epsilon: f64,
) -> bool {
    for i in 0..M {
        for j in 0..N {
            if !abs_diff_eq(a.index(i, j).0, b.index(i, j).0, epsilon) {
                return false;
            }
        }
    }
    true
}

#[test]
fn lu_product_reconstructs() {
    let A = mat([[1.0, 3.0, 5.0], [2.0, 4.0, 7.0], [1.0, 1.0, 0.0]]);
    let (L, U, P) = A.lu();
    assert!(mat_abs_eq(&P.mul(&A), &L.mul(&U), 1e-10));

    let B = mat([
        [11.0, 9.0, 24.0, 2.0],
        [1.0, 5.0, 2.0, 6.0],
        [3.0, 17.0, 18.0, 1.0],
        [2.0, 5.0, 7.0, 1.0],
    ]);
    let (L, U, P) = B.lu();
    assert!(mat_abs_eq(&P.mul(&B), &L.mul(&U), 1e-10));
}

#[test]
fn inverse_product_identity() {
    let A = mat([[6.0, 2.0, 3.0], [1.0, 1.0, 1.0], [0.0, 4.0, 9.0]]);
    let id = Matrix::<3, 3, F64>::eye();
    assert!(mat_rel_eq(&A.mul(&A.inv().unwrap()), &id, 1e-6));
}

#[test]
fn triangular_inverse_products() {
    let U = mat([[2.0, 4.0, 6.0], [0.0, -1.0, -8.0], [0.0, 0.0, 96.0]]);
    let mut scratch = U.clone();
    let Ui = Matrix::invert_upper_triangular(&mut scratch).unwrap();
    let id = Matrix::<3, 3, F64>::eye();
    assert!(mat_rel_eq(&U.mul(&Ui), &id, 1e-6));

    let L = mat([[1.0, 0.0, 0.0], [8.0, 1.0, 0.0], [4.0, 9.0, 1.0]]);
    let mut scratch = L.clone();
    let Li = Matrix::invert_lower_triangular(&mut scratch).unwrap();
    assert!(mat_rel_eq(&L.mul(&Li), &id, 1e-6));
}

#[test]
fn triangular_inverse_failures() {
    let mut U = mat([[0.0, 1.0], [0.0, 2.0]]);
    let before = U.clone();
    assert!(Matrix::invert_upper_triangular(&mut U).is_none());
    assert_eq!(U, before);

    let mut U = mat([[2.0, 4.0], [0.0, 0.0]]);
    assert!(Matrix::invert_upper_triangular(&mut U).is_none());

    let mut L = mat([[1.0, 0.0], [5.0, 2.0]]);
    let before = L.clone();
    assert!(Matrix::invert_lower_triangular(&mut L).is_none());
    assert_eq!(L, before);

    let singular = mat([[1.0, 2.0], [4.0, 8.0]]);
    assert!(singular.inv().is_none());
}

#[test]
fn collect_fills_column_major() {
    let m: Matrix<2, 2, i64> = vectrix::collect(vec![1, 2, 3, 4, 5]).unwrap();
    assert_eq!(*m.index(0, 0), 1);
    assert_eq!(*m.index(1, 0), 2);
    assert_eq!(*m.index(0, 1), 3);
    assert_eq!(*m.index(1, 1), 4);

    let r: Result<Matrix<3, 3, i64>, usize> = vectrix::collect(vec![1, 2, 3, 4, 5]);
    assert_eq!(r.unwrap_err(), 5);
}

/// An element whose destruction is counted through a shared cell.
#[derive(Debug)]
struct DropCounter {
    drops: std::rc::Rc<std::cell::Cell<usize>>,
}

impl Drop for DropCounter {
    fn drop(&mut self) {
        self.drops.set(self.drops.get() + 1);
    }
}

#[test]
fn collect_short_source_cleans_up() {
    let drops = std::rc::Rc::new(std::cell::Cell::new(0usize));
    let mut source = Vec::new();
    for _ in 0..5 {
        source.push(DropCounter { drops: drops.clone() });
    }
    let r: Result<Matrix<3, 3, DropCounter>, usize> = vectrix::collect(source);
    assert_eq!(r.unwrap_err(), 5);
    assert_eq!(drops.get(), 5);
}

#[test]
fn collect_panic_shapes() {
    assert_eq!(
        vectrix::collect_panic::<3, 1>(2),
        vectrix::CollectError::Vector { len: 2, rows: 3 }
    );
    assert_eq!(
        vectrix::collect_panic::<1, 4>(2),
        vectrix::CollectError::RowVector { len: 2, cols: 4 }
    );
    assert_eq!(
        vectrix::collect_panic::<3, 3>(5),
        vectrix::CollectError::Matrix { len: 5, rows: 3, cols: 3 }
    );
}

#[test]
fn eye_and_get() {
    let id = Matrix::<3, 3, F64>::eye();
    let exp = mat([[1.0, 0.0, 0.0], [0.0, 1.0, 0.0], [0.0, 0.0, 1.0]]);
    assert_eq!(id, exp);
    assert_eq!(id.get(0, 0), Some(&F64(1.0)));
    assert_eq!(id.get(0, 1), Some(&F64(0.0)));
    assert_eq!(id.get(3, 0), None);
    assert_eq!(id.get(0, 3), None);
    assert_eq!(id.get_at(9), None);
}

#[test]
fn dot() {
    let m = mat([[1.0, 2.0], [3.0, 4.0]]);
    let n = mat([[5.0, 6.0], [7.0, 8.0]]);
    let d = m.row(0).dot(&n.column(1));
    assert_eq!(d, F64(1.0 * 6.0 + 2.0 * 8.0));
}

#[test]
fn view_eq_vec() {
    let m = mat([[1.0, 2.0, 3.0], [4.0, 5.0, 6.0]]);
    assert!(m.row(1).eq_vec(&vec![F64(4.0), F64(5.0), F64(6.0)]));
    assert!(!m.row(1).eq_vec(&vec![F64(4.0), F64(5.0), F64(7.0)]));
    assert!(!m.row(1).eq_vec(&vec![F64(4.0), F64(5.0)]));
    assert!(m.column(2).eq_vec(&vec![F64(3.0), F64(6.0)]));
    assert!(!m.column(2).eq_vec(&vec![F64(3.0), F64(5.0)]));
}

#[test]
fn integer_matrix_operations() {
    let m: Matrix<2, 2, i64> = Matrix::from_column_major_order(vec![1, 2, 3, 4]);
    let shifted = m.clone().add_scalar(10);
    assert_eq!(*shifted.index(0, 0), 11);
    assert_eq!(*shifted.index(1, 1), 14);
    let doubled = m.clone().mul_scalar(2);
    assert_eq!(*doubled.index(1, 0), 4);
    let halved = doubled.div_scalar(2);
    assert_eq!(halved, m);
    let rems = m.clone().rem_scalar(2);
    assert_eq!(*rems.index(0, 0), 1);
    assert_eq!(*rems.index(1, 0), 0);
    assert_eq!(m.trace(), 5);
    let negated = m.clone().neg();
    assert_eq!(*negated.index(0, 1), -3);
    let diff = m.clone().sub(&m);
    assert_eq!(diff, Matrix::<2, 2, i64>::zeros());
    let norm_m: Matrix<1, 2, i64> = Matrix::from_column_major_order(vec![3, 4]);
    assert_eq!(norm_m.norm(), 5);
}

#[test]
fn integer_sqrt() {
    assert_eq!(Sqrt::sqrt(0i64), 0);
    assert_eq!(Sqrt::sqrt(1i64), 1);
    assert_eq!(Sqrt::sqrt(3i64), 1);
    assert_eq!(Sqrt::sqrt(4i64), 2);
    assert_eq!(Sqrt::sqrt(8i64), 2);
    assert_eq!(Sqrt::sqrt(9i64), 3);
    assert_eq!(Sqrt::sqrt(26i64), 5);
    assert_eq!(Sqrt::sqrt(-5i64), 0);
    assert_eq!(Sqrt::sqrt(i64::MAX), 3037000499);
}

#[test]
fn normalize() {
    let m = mat([[3.0, 4.0]]);
    let n = m.normalize();
    let exp = mat([[0.6, 0.8]]);
    assert!(mat_rel_eq(&n, &exp, 1e-12));
}

#[test]
fn free_cross_matches_method() {
    let a = vec_col([1.0, 0.0, 0.0]);
    let b = vec_col([0.0, 1.0, 0.0]);
    let exp = vec_col([0.0, 0.0, 1.0]);
    assert_eq!(vectrix::cross(&a, &b), exp);
    assert_eq!(a.cross(&b), exp);
}

#[test]
fn duplicate_matches() {
    let m = mat([[1.0, 2.0], [3.0, 4.0]]);
    assert_eq!(m.duplicate(), m);
}

#[test]
fn logical_not() {
    let m: Matrix<2, 2, bool> = Matrix::from_column_major_order(vec![true, false, true, false]);
    let n = m.not();
    assert_eq!(*n.index(0, 0), false);
    assert_eq!(*n.index(1, 0), true);
    let z = Matrix::<2, 2, bool>::zeros();
    assert_eq!(*z.index(0, 0), false);
    let o = Matrix::<2, 2, bool>::ones();
    assert_eq!(*o.index(1, 1), true);
}

#[test]
fn lu_product_reconstructs_exactly_for_integers() {
    let a: Matrix<3, 3, i64> = Matrix::from_column_major_order(vec![2, 7, -3, 4, 1, 5, -6, 8, 9]);
    let (l, u, p) = a.lu();
    assert_eq!(p.mul(&a), l.mul(&u));
}
