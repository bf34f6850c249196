//! A stack-allocated matrix type with constant dimensions, stored in
//! column-major order, together with the linear-algebra operations built on
//! it: LU decomposition with partial pivoting, triangular inversion,
//! determinant and full inverse.
//!
//! Every matrix contract is stated over the row-major mathematical view
//! `self@: Seq<Seq<T>>`, relative to the element type's own arithmetic (see
//! [`num`]): entry `(r, c)` of the matrix is `self@[r][c]`.

use vstd::prelude::*;

mod algebra;
mod new;
mod num;
mod ops;
mod view;

pub use algebra::{
    additive_laws, det_prod, det_seq, eliminate_l_seq, eliminate_u_seq, elim_factor, eye_seq,
    inv_seq, is_perm, is_permutation_matrix, lemma_i64_satisfies_arithmetic_laws,
    lemma_inv_some_iff, lemma_lu_l_unit_lower_triangular, lemma_lu_reconstructs,
    multiplicative_identity_laws,
    lemma_lu_p_permutation, lemma_lu_prefix_structure, lemma_pivot_row_from_range,
    lemma_pivot_row_maximal, lower_inv_prefix, lower_inv_step, lt_irreflexive,
    lt_negatively_transitive, lt_transitive, lu_prefix, lu_seq, lu_step, perm_matrix, pivot_mag,
    pivot_row, pivot_row_from, square_dims, swap_prefix_seq, swap_rows_seq,
    unit_lower_triangular, upper_inv_prefix, upper_inv_step,
};
pub use new::{collect, collect_panic, eye_entry, CollectError};
pub use num::{is_floor_sqrt, Abs, Not, Num, One, Sqrt, Zero};
pub use ops::{column_of, mat_mul_seq};
pub use view::{dot_between, dot_prefix, dot_seq, Column, Row};

verus! {

/// Represents a matrix with constant `M` rows and constant `N` columns.
///
/// The underlying data is stored as a flat buffer in column-major order: the
/// element at row `r` of column `c` sits at offset `c * M + r`.
#[derive(Clone, Debug, PartialEq, Eq, Hash, PartialOrd, Ord)]
pub struct Matrix<const M: usize, const N: usize, T> {
    data: Vec<T>,
}

/// A matrix with one row and `N` columns.
pub type RowVector<const N: usize, T> = Matrix<1, N, T>;

/// A matrix with one column and `M` rows.
pub type Vector<const M: usize, T> = Matrix<M, 1, T>;

/// The row-major view of a column-major flat buffer with the given number of
/// rows and columns.
pub open spec fn rows_of_flat<T>(rows: nat, cols: nat, s: Seq<T>) -> Seq<Seq<T>> {
    Seq::new(rows, |r: int| Seq::new(cols, |c: int| s[c * (rows as int) + r]))
}

impl<const M: usize, const N: usize, T> View for Matrix<M, N, T> {
    type V = Seq<Seq<T>>;

    closed spec fn view(&self) -> Seq<Seq<T>> {
        rows_of_flat(M as nat, N as nat, self.data@)
    }
}

/// The column-major offset of row `r` in column `c` lies within a
/// `rows * cols` buffer.
pub proof fn lemma_offset_in_range(rows: int, cols: int, r: int, c: int)
    requires
        0 <= r < rows,
        0 <= c < cols,
    ensures
        0 <= c * rows + r < rows * cols,
{
    assert(0 <= c * rows + r < rows * cols) by (nonlinear_arith)
        requires
            0 <= r < rows,
            0 <= c < cols,
    ;
}

/// Column-major offsets respect the order: later columns, and later rows
/// within a column, sit at larger offsets.
pub proof fn lemma_offset_ordered(rows: int, r1: int, c1: int, r2: int, c2: int)
    requires
        0 <= r1 < rows,
        0 <= r2 < rows,
        0 <= c1,
        c1 < c2 || (c1 == c2 && r1 < r2),
    ensures
        c1 * rows + r1 < c2 * rows + r2,
{
    assert(c1 * rows + r1 < c2 * rows + r2) by (nonlinear_arith)
        requires
            0 <= r1 < rows,
            0 <= r2 < rows,
            0 <= c1,
            c1 < c2 || (c1 == c2 && r1 < r2),
    ;
}

/// Distinct in-range positions have distinct column-major offsets.
pub proof fn lemma_offset_injective(rows: int, r1: int, c1: int, r2: int, c2: int)
    requires
        0 <= r1 < rows,
        0 <= r2 < rows,
        0 <= c1,
        0 <= c2,
        c1 * rows + r1 == c2 * rows + r2,
    ensures
        r1 == r2 && c1 == c2,
{
    assert(r1 == r2 && c1 == c2) by (nonlinear_arith)
        requires
            0 <= r1 < rows,
            0 <= r2 < rows,
            0 <= c1,
            0 <= c2,
            c1 * rows + r1 == c2 * rows + r2,
    ;
}

impl<const M: usize, const N: usize, T> Matrix<M, N, T> {
    /// The storage holds exactly one element per cell.
    pub closed spec fn wf(&self) -> bool {
        self.data@.len() == (M as int) * (N as int)
    }

    /// The view always has `M` rows of `N` entries each.
    pub proof fn lemma_dims(&self)
        ensures
            self@.len() == M as int,
            forall|r: int| 0 <= r < M ==> (#[trigger] self@[r]).len() == N as int,
    {
    }

    /// Wraps a caller-supplied column-major buffer of exactly `M * N`
    /// elements.
    pub fn from_column_major_order(data: Vec<T>) -> (r: Self)
        requires
            data@.len() == (M as int) * (N as int),
        ensures
            r.wf(),
            r@ == rows_of_flat(M as nat, N as nat, data@),
    {
        Matrix { data }
    }

    /// Returns a reference to the element at row `row` of column `col`.
    pub fn index(&self, row: usize, col: usize) -> (x: &T)
        requires
            self.wf(),
            row < M,
            col < N,
        ensures
            *x == self@[row as int][col as int],
    {
        proof {
            lemma_offset_in_range(M as int, N as int, row as int, col as int);
            vstd::std_specs::vec::axiom_spec_len(&self.data);
        }
        &self.data[col * M + row]
    }

    /// Returns a reference to the element at row `row` of column `col`, or
    /// `None` if the position is out of bounds.
    pub fn get(&self, row: usize, col: usize) -> (r: Option<&T>)
        requires
            self.wf(),
        ensures
            match r {
                Some(x) => row < M && col < N && *x == self@[row as int][col as int],
                None => !(row < M && col < N),
            },
    {
        if row < M && col < N {
            Some(self.index(row, col))
        } else {
            None
        }
    }

    /// Returns a reference to the element at the given column-major offset,
    /// or `None` if the offset is out of bounds.
    pub fn get_at(&self, i: usize) -> (r: Option<&T>)
        requires
            self.wf(),
        ensures
            match r {
                Some(x) => i < (M as int) * (N as int) && *x == self@[i as int % (
                M as int)][i as int / (M as int)],
                None => i >= (M as int) * (N as int),
            },
    {
        if i < self.data.len() {
            proof {
                self.lemma_flat_entry(i as int);
            }
            Some(&self.data[i])
        } else {
            None
        }
    }

    /// An in-range flat offset reads the view entry it encodes.
    proof fn lemma_flat_entry(&self, i: int)
        requires
            self.wf(),
            0 <= i < (M as int) * (N as int),
        ensures
            0 <= i % (M as int) < M as int,
            0 <= i / (M as int) < N as int,
            self.data@[i] == self@[i % (M as int)][i / (M as int)],
    {
        let m = M as int;
        let n = N as int;
        assert(m > 0) by (nonlinear_arith)
            requires
                0 <= i < m * n,
                m >= 0,
                n >= 0,
        ;
        let r = i % m;
        let c = i / m;
        vstd::arithmetic::div_mod::lemma_fundamental_div_mod(i, m);
        assert(0 <= r < m) by (nonlinear_arith)
            requires
                m > 0,
                r == i % m,
        ;
        assert(0 <= c < n) by (nonlinear_arith)
            requires
                m > 0,
                0 <= i < m * n,
                i == m * c + r,
                0 <= r < m,
        ;
        assert(c * m + r == i) by (nonlinear_arith)
            requires
                i == m * c + r,
        ;
    }

    /// Writes `value` at row `row` of column `col`.
    pub fn set(&mut self, row: usize, col: usize, value: T)
        requires
            old(self).wf(),
            row < M,
            col < N,
        ensures
            final(self).wf(),
            final(self)@ == old(self)@.update(
                row as int,
                old(self)@[row as int].update(col as int, value),
            ),
    {
        proof {
            lemma_offset_in_range(M as int, N as int, row as int, col as int);
            vstd::std_specs::vec::axiom_spec_len(&self.data);
        }
        vstd::pervasive::VecAdditionalExecFns::set(&mut self.data, col * M + row, value);
        proof {
            let target = old(self)@.update(
                row as int,
                old(self)@[row as int].update(col as int, value),
            );
            assert forall|r2: int, c2: int| 0 <= r2 < M && 0 <= c2 < N implies self@[r2][c2]
                == target[r2][c2] by {
                lemma_offset_in_range(M as int, N as int, r2, c2);
                if !(r2 == row && c2 == col) {
                    if c2 * (M as int) + r2 == (col as int) * (M as int) + (row as int) {
                        lemma_offset_injective(M as int, r2, c2, row as int, col as int);
                    }
                }
            }
            assert forall|r2: int| 0 <= r2 < M implies self@[r2] =~= target[r2] by {
                assert(forall|c2: int| 0 <= c2 < N ==> self@[r2][c2] == target[r2][c2]);
            }
            assert(self@ =~= target);
        }
    }

    /// Views the underlying data as a contiguous column-major slice.
    pub fn as_slice(&self) -> (s: &[T])
        requires
            self.wf(),
        ensures
            s@.len() == (M as int) * (N as int),
            self@ == rows_of_flat(M as nat, N as nat, s@),
    {
        self.data.as_slice()
    }
}

impl<const M: usize, const N: usize, T: Copy> Matrix<M, N, T> {
    /// Returns an independent matrix with the same entries.
    pub fn duplicate(&self) -> (r: Self)
        requires
            self.wf(),
        ensures
            r.wf(),
            r@ == self@,
    {
        let mut d: Vec<T> = Vec::new();
        let len = self.data.len();
        for i in 0..len
            invariant
                len == self.data@.len(),
                d@.len() == i,
                forall|k: int| 0 <= k < i ==> d@[k] == self.data@[k],
        {
            d.push(self.data[i]);
        }
        proof {
            assert(d@ =~= self.data@);
        }
        Matrix { data: d }
    }

    /// Swaps the two given rows of this matrix in place. Out-of-range row
    /// indices leave the matrix unchanged.
    pub fn swap_rows(&mut self, r1: usize, r2: usize)
        requires
            old(self).wf(),
        ensures
            final(self).wf(),
            r1 < M && r2 < M ==> final(self)@ == old(self)@.update(
                r1 as int,
                old(self)@[r2 as int],
            ).update(r2 as int, old(self)@[r1 as int]),
            !(r1 < M && r2 < M) ==> final(self)@ == old(self)@,
    {
        if r1 < M && r2 < M {
            let ghost m0 = self@;
            proof {
                self.lemma_dims();
            }
            for c in 0..N
                invariant
                    r1 < M,
                    r2 < M,
                    self.wf(),
                    forall|i: int, j: int|
                        0 <= i < M && 0 <= j < N ==> #[trigger] self@[i][j] == (if i == r1 && j
                            < c {
                            m0[r2 as int][j]
                        } else if i == r2 && j < c {
                            m0[r1 as int][j]
                        } else {
                            m0[i][j]
                        }),
            {
                proof {
                    self.lemma_dims();
                }
                let a = *self.index(r1, c);
                let b = *self.index(r2, c);
                self.set(r1, c, b);
                proof {
                    self.lemma_dims();
                }
                self.set(r2, c, a);
            }
            proof {
                let target = m0.update(r1 as int, m0[r2 as int]).update(
                    r2 as int,
                    m0[r1 as int],
                );
                self.lemma_dims();
                assert forall|i: int| 0 <= i < M implies #[trigger] self@[i] =~= target[i] by {
                    assert(forall|j: int| 0 <= j < N ==> self@[i][j] == target[i][j]);
                }
                assert(self@ =~= target);
            }
        }
    }

    /// Swaps the two given columns of this matrix in place. Out-of-range
    /// column indices leave the matrix unchanged.
    pub fn swap_columns(&mut self, c1: usize, c2: usize)
        requires
            old(self).wf(),
        ensures
            final(self).wf(),
            c1 < N && c2 < N ==> forall|i: int, j: int|
                0 <= i < M && 0 <= j < N ==> #[trigger] final(self)@[i][j] == (if j == c1 {
                    old(self)@[i][c2 as int]
                } else if j == c2 {
                    old(self)@[i][c1 as int]
                } else {
                    old(self)@[i][j]
                }),
            !(c1 < N && c2 < N) ==> final(self)@ == old(self)@,
    {
        if c1 < N && c2 < N {
            let ghost m0 = self@;
            proof {
                self.lemma_dims();
            }
            for r in 0..M
                invariant
                    c1 < N,
                    c2 < N,
                    self.wf(),
                    forall|i: int, j: int|
                        0 <= i < M && 0 <= j < N ==> #[trigger] self@[i][j] == (if j == c1 && i
                            < r {
                            m0[i][c2 as int]
                        } else if j == c2 && i < r {
                            m0[i][c1 as int]
                        } else {
                            m0[i][j]
                        }),
            {
                proof {
                    self.lemma_dims();
                }
                let a = *self.index(r, c1);
                let b = *self.index(r, c2);
                self.set(r, c1, b);
                proof {
                    self.lemma_dims();
                }
                self.set(r, c2, a);
            }
        }
    }

    /// Returns the transpose of this matrix.
    pub fn transpose(&self) -> (r: Matrix<N, M, T>)
        requires
            self.wf(),
        ensures
            r.wf(),
            forall|i: int, j: int|
                0 <= i < N && 0 <= j < M ==> #[trigger] r@[i][j] == self@[j][i],
    {
        let mut data: Vec<T> = Vec::new();
        proof {
            vstd::arithmetic::mul::lemma_mul_basics(N as int);
        }
        for j in 0..M
            invariant
                self.wf(),
                data@.len() == (j as int) * (N as int),
                forall|jj: int, ii: int|
                    0 <= jj < j && 0 <= ii < N ==> #[trigger] data@[jj * (N as int) + ii]
                        == self@[jj][ii],
        {
            for i in 0..N
                invariant
                    j < M,
                    self.wf(),
                    data@.len() == (j as int) * (N as int) + i,
                    forall|jj: int, ii: int|
                        0 <= jj < M && 0 <= ii < N && (jj < j || (jj == j && ii < i))
                            ==> #[trigger] data@[jj * (N as int) + ii] == self@[jj][ii],
            {
                let ghost before = data@;
                data.push(*self.index(j, i));
                proof {
                    assert forall|jj: int, ii: int|
                        0 <= jj < M && 0 <= ii < N && (jj < j || (jj == j && ii < i + 1)) implies
                        #[trigger] data@[jj * (N as int) + ii] == self@[jj][ii] by {
                        if jj < j || ii < i {
                            lemma_offset_ordered(N as int, ii, jj, i as int, j as int);
                        }
                    }
                }
            }
            proof {
                vstd::arithmetic::mul::lemma_mul_is_distributive_add_other_way(
                    N as int,
                    j as int,
                    1,
                );
            }
        }
        proof {
            vstd::arithmetic::mul::lemma_mul_is_commutative(M as int, N as int);
        }
        let m = Matrix::<N, M, T>::from_column_major_order(data);
        proof {
            assert forall|i: int, j: int| 0 <= i < N && 0 <= j < M implies #[trigger] m@[i][j]
                == self@[j][i] by {
                lemma_offset_in_range(N as int, M as int, i, j);
            }
        }
        m
    }

    /// Returns the transpose of this matrix.
    #[allow(non_snake_case)]
    pub fn T(&self) -> (r: Matrix<N, M, T>)
        requires
            self.wf(),
        ensures
            r.wf(),
            forall|i: int, j: int|
                0 <= i < N && 0 <= j < M ==> #[trigger] r@[i][j] == self@[j][i],
    {
        self.transpose()
    }
}

/// The sum of the first `k` diagonal entries, folded left from the additive
/// identity.
pub open spec fn trace_prefix<T: Num>(m: Seq<Seq<T>>, k: int) -> T
    decreases k,
{
    if k <= 0 {
        T::zero_spec()
    } else {
        trace_prefix(m, k - 1).add_spec(m[k - 1][k - 1])
    }
}

impl<const D: usize, T: Num> Matrix<D, D, T> {
    /// Computes the trace: the sum of the diagonal entries.
    pub fn trace(&self) -> (r: T)
        requires
            self.wf(),
        ensures
            r == trace_prefix(self@, D as int),
    {
        let mut t = T::zero();
        for d in 0..D
            invariant
                self.wf(),
                t == trace_prefix(self@, d as int),
        {
            t = t.add(*self.index(d, d));
        }
        t
    }
}

/// The sum of the squared magnitudes of the first `k` entries in column-major
/// order, folded left from the additive identity.
pub open spec fn sq_norm_prefix<T: Num + Abs>(m: Seq<Seq<T>>, rows: int, k: int) -> T
    decreases k,
{
    if k <= 0 {
        T::zero_spec()
    } else {
        let i = (k - 1) % rows;
        let j = (k - 1) / rows;
        sq_norm_prefix(m, rows, k - 1).add_spec(m[i][j].abs_spec().mul_spec(m[i][j].abs_spec()))
    }
}

/// The Frobenius norm: the square root of the sum of squared magnitudes.
pub open spec fn norm_seq<T: Num + Abs + Sqrt>(m: Seq<Seq<T>>, rows: int, cols: int) -> T {
    sq_norm_prefix(m, rows, rows * cols).sqrt_spec()
}

impl<const M: usize, const N: usize, T: Num + Abs + Sqrt> Matrix<M, N, T> {
    /// Computes the Frobenius norm.
    pub fn norm(&self) -> (r: T)
        requires
            self.wf(),
        ensures
            r == norm_seq(self@, M as int, N as int),
    {
        let mut tmp = T::zero();
        proof {
            vstd::arithmetic::mul::lemma_mul_basics(M as int);
        }
        for c in 0..N
            invariant
                self.wf(),
                tmp == sq_norm_prefix(self@, M as int, (c as int) * (M as int)),
        {
            for r in 0..M
                invariant
                    c < N,
                    self.wf(),
                    tmp == sq_norm_prefix(self@, M as int, (c as int) * (M as int) + r),
            {
                let ghost k = (c as int) * (M as int) + r;
                proof {
                    lemma_offset_in_range(M as int, N as int, r as int, c as int);
                    vstd::arithmetic::div_mod::lemma_fundamental_div_mod_converse(
                        k,
                        M as int,
                        c as int,
                        r as int,
                    );
                }
                let v = (*self.index(r, c)).abs();
                tmp = tmp.add(v.mul(v));
            }
            proof {
                vstd::arithmetic::mul::lemma_mul_is_distributive_add_other_way(
                    M as int,
                    c as int,
                    1,
                );
            }
        }
        proof {
            vstd::arithmetic::mul::lemma_mul_is_commutative(M as int, N as int);
        }
        tmp.sqrt()
    }

    /// Returns this matrix scaled by the reciprocal of its Frobenius norm,
    /// entry by entry.
    pub fn normalize(self) -> (r: Self)
        requires
            self.wf(),
        ensures
            r.wf(),
            forall|i: int, j: int|
                0 <= i < M && 0 <= j < N ==> #[trigger] r@[i][j] == self@[i][j].div_spec(
                    norm_seq(self@, M as int, N as int),
                ),
    {
        let n = self.norm();
        self.div_scalar(n)
    }
}

impl<T: Num> Matrix<3, 1, T> {
    /// Computes the cross product of two 3-dimensional column vectors.
    pub fn cross(&self, other: &Self) -> (r: Self)
        requires
            self.wf(),
            other.wf(),
        ensures
            r.wf(),
            r@[0][0] == self@[1][0].mul_spec(other@[2][0]).sub_spec(
                self@[2][0].mul_spec(other@[1][0]),
            ),
            r@[1][0] == self@[2][0].mul_spec(other@[0][0]).sub_spec(
                self@[0][0].mul_spec(other@[2][0]),
            ),
            r@[2][0] == self@[0][0].mul_spec(other@[1][0]).sub_spec(
                self@[1][0].mul_spec(other@[0][0]),
            ),
    {
        let mut data: Vec<T> = Vec::new();
        data.push((*self.index(1, 0)).mul(*other.index(2, 0)).sub(
            (*self.index(2, 0)).mul(*other.index(1, 0)),
        ));
        data.push((*self.index(2, 0)).mul(*other.index(0, 0)).sub(
            (*self.index(0, 0)).mul(*other.index(2, 0)),
        ));
        data.push((*self.index(0, 0)).mul(*other.index(1, 0)).sub(
            (*self.index(1, 0)).mul(*other.index(0, 0)),
        ));
        Matrix::from_column_major_order(data)
    }
}

/// Computes the cross product of two 3-dimensional column vectors.
pub fn cross<T: Num>(a: &Matrix<3, 1, T>, b: &Matrix<3, 1, T>) -> (r: Matrix<3, 1, T>)
    requires
        a.wf(),
        b.wf(),
    ensures
        r.wf(),
        r@[0][0] == a@[1][0].mul_spec(b@[2][0]).sub_spec(a@[2][0].mul_spec(b@[1][0])),
        r@[1][0] == a@[2][0].mul_spec(b@[0][0]).sub_spec(a@[0][0].mul_spec(b@[2][0])),
        r@[2][0] == a@[0][0].mul_spec(b@[1][0]).sub_spec(a@[1][0].mul_spec(b@[0][0])),
{
    a.cross(b)
}

} // verus!
