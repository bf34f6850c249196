//! Elementwise scalar and matrix operators, and matrix multiplication.

use vstd::prelude::*;

verus! {

use crate::num::Num;
use crate::view::dot_seq;
use crate::Matrix;

/// The elementwise operations a matrix can apply.
enum ElemOp {
    Add,
    Sub,
    Mul,
    Div,
    Rem,
    Neg,
}

/// What one elementwise operation yields on entry `a` with operand `b`
/// (ignored by negation).
spec fn apply_op<T: Num>(op: ElemOp, a: T, b: T) -> T {
    match op {
        ElemOp::Add => a.add_spec(b),
        ElemOp::Sub => a.sub_spec(b),
        ElemOp::Mul => a.mul_spec(b),
        ElemOp::Div => a.div_spec(b),
        ElemOp::Rem => a.rem_spec(b),
        ElemOp::Neg => a.neg_spec(),
    }
}

impl<const M: usize, const N: usize, T: Num> Matrix<M, N, T> {
    /// Applies `op` with `other` to one entry.
    fn apply_elem(op: &ElemOp, a: T, b: T) -> (r: T)
        ensures
            r == apply_op(*op, a, b),
    {
        match op {
            ElemOp::Add => a.add(b),
            ElemOp::Sub => a.sub(b),
            ElemOp::Mul => a.mul(b),
            ElemOp::Div => a.div(b),
            ElemOp::Rem => a.rem(b),
            ElemOp::Neg => a.neg(),
        }
    }

    /// Applies `op` with the same operand to every entry, in place.
    fn for_each_scalar(&mut self, op: ElemOp, other: T)
        requires
            old(self).wf(),
        ensures
            final(self).wf(),
            forall|i: int, j: int|
                0 <= i < M && 0 <= j < N ==> #[trigger] final(self)@[i][j] == apply_op(
                    op,
                    old(self)@[i][j],
                    other,
                ),
    {
        let ghost m0 = self@;
        for c in 0..N
            invariant
                self.wf(),
                forall|i: int, j: int|
                    0 <= i < M && 0 <= j < N ==> #[trigger] self@[i][j] == (if j < c {
                        apply_op(op, m0[i][j], other)
                    } else {
                        m0[i][j]
                    }),
        {
            for r in 0..M
                invariant
                    c < N,
                    self.wf(),
                    forall|i: int, j: int|
                        0 <= i < M && 0 <= j < N ==> #[trigger] self@[i][j] == (if j < c || (j == c
                            && i < r) {
                            apply_op(op, m0[i][j], other)
                        } else {
                            m0[i][j]
                        }),
            {
                proof {
                    self.lemma_dims();
                }
                let v = *self.index(r, c);
                let w = Self::apply_elem(&op, v, other);
                self.set(r, c, w);
            }
        }
    }

    /// Applies `op` entry by entry with the matching entry of `other`, in
    /// place.
    fn for_each_entry(&mut self, op: ElemOp, other: &Self)
        requires
            old(self).wf(),
            other.wf(),
        ensures
            final(self).wf(),
            forall|i: int, j: int|
                0 <= i < M && 0 <= j < N ==> #[trigger] final(self)@[i][j] == apply_op(
                    op,
                    old(self)@[i][j],
                    other@[i][j],
                ),
    {
        let ghost m0 = self@;
        for c in 0..N
            invariant
                self.wf(),
                other.wf(),
                forall|i: int, j: int|
                    0 <= i < M && 0 <= j < N ==> #[trigger] self@[i][j] == (if j < c {
                        apply_op(op, m0[i][j], other@[i][j])
                    } else {
                        m0[i][j]
                    }),
        {
            for r in 0..M
                invariant
                    c < N,
                    self.wf(),
                    other.wf(),
                    forall|i: int, j: int|
                        0 <= i < M && 0 <= j < N ==> #[trigger] self@[i][j] == (if j < c || (j == c
                            && i < r) {
                            apply_op(op, m0[i][j], other@[i][j])
                        } else {
                            m0[i][j]
                        }),
            {
                proof {
                    self.lemma_dims();
                }
                let v = *self.index(r, c);
                let w = Self::apply_elem(&op, v, *other.index(r, c));
                self.set(r, c, w);
            }
        }
    }

    /// Adds a scalar to every entry, in place.
    pub fn add_scalar_assign(&mut self, other: T)
        requires
            old(self).wf(),
        ensures
            final(self).wf(),
            forall|i: int, j: int|
                0 <= i < M && 0 <= j < N ==> #[trigger] final(self)@[i][j] == old(
                    self,
                )@[i][j].add_spec(other),
    {
        self.for_each_scalar(ElemOp::Add, other);
    }

    /// Subtracts a scalar from every entry, in place.
    pub fn sub_scalar_assign(&mut self, other: T)
        requires
            old(self).wf(),
        ensures
            final(self).wf(),
            forall|i: int, j: int|
                0 <= i < M && 0 <= j < N ==> #[trigger] final(self)@[i][j] == old(
                    self,
                )@[i][j].sub_spec(other),
    {
        self.for_each_scalar(ElemOp::Sub, other);
    }

    /// Multiplies every entry by a scalar, in place.
    pub fn mul_scalar_assign(&mut self, other: T)
        requires
            old(self).wf(),
        ensures
            final(self).wf(),
            forall|i: int, j: int|
                0 <= i < M && 0 <= j < N ==> #[trigger] final(self)@[i][j] == old(
                    self,
                )@[i][j].mul_spec(other),
    {
        self.for_each_scalar(ElemOp::Mul, other);
    }

    /// Divides every entry by a scalar, in place.
    pub fn div_scalar_assign(&mut self, other: T)
        requires
            old(self).wf(),
        ensures
            final(self).wf(),
            forall|i: int, j: int|
                0 <= i < M && 0 <= j < N ==> #[trigger] final(self)@[i][j] == old(
                    self,
                )@[i][j].div_spec(other),
    {
        self.for_each_scalar(ElemOp::Div, other);
    }

    /// Replaces every entry by its remainder under a scalar, in place.
    pub fn rem_scalar_assign(&mut self, other: T)
        requires
            old(self).wf(),
        ensures
            final(self).wf(),
            forall|i: int, j: int|
                0 <= i < M && 0 <= j < N ==> #[trigger] final(self)@[i][j] == old(
                    self,
                )@[i][j].rem_spec(other),
    {
        self.for_each_scalar(ElemOp::Rem, other);
    }

    /// Returns the matrix with `other` added to every entry.
    pub fn add_scalar(self, other: T) -> (r: Self)
        requires
            self.wf(),
        ensures
            r.wf(),
            forall|i: int, j: int|
                0 <= i < M && 0 <= j < N ==> #[trigger] r@[i][j] == self@[i][j].add_spec(other),
    {
        let mut m = self;
        m.add_scalar_assign(other);
        m
    }

    /// Returns the matrix with `other` subtracted from every entry.
    pub fn sub_scalar(self, other: T) -> (r: Self)
        requires
            self.wf(),
        ensures
            r.wf(),
            forall|i: int, j: int|
                0 <= i < M && 0 <= j < N ==> #[trigger] r@[i][j] == self@[i][j].sub_spec(other),
    {
        let mut m = self;
        m.sub_scalar_assign(other);
        m
    }

    /// Returns the matrix with every entry multiplied by `other`.
    pub fn mul_scalar(self, other: T) -> (r: Self)
        requires
            self.wf(),
        ensures
            r.wf(),
            forall|i: int, j: int|
                0 <= i < M && 0 <= j < N ==> #[trigger] r@[i][j] == self@[i][j].mul_spec(other),
    {
        let mut m = self;
        m.mul_scalar_assign(other);
        m
    }

    /// Returns the matrix with every entry divided by `other`.
    pub fn div_scalar(self, other: T) -> (r: Self)
        requires
            self.wf(),
        ensures
            r.wf(),
            forall|i: int, j: int|
                0 <= i < M && 0 <= j < N ==> #[trigger] r@[i][j] == self@[i][j].div_spec(other),
    {
        let mut m = self;
        m.div_scalar_assign(other);
        m
    }

    /// Returns the matrix of remainders of every entry under `other`.
    pub fn rem_scalar(self, other: T) -> (r: Self)
        requires
            self.wf(),
        ensures
            r.wf(),
            forall|i: int, j: int|
                0 <= i < M && 0 <= j < N ==> #[trigger] r@[i][j] == self@[i][j].rem_spec(other),
    {
        let mut m = self;
        m.rem_scalar_assign(other);
        m
    }

    /// Adds `other` entry by entry, in place.
    pub fn add_assign(&mut self, other: &Self)
        requires
            old(self).wf(),
            other.wf(),
        ensures
            final(self).wf(),
            forall|i: int, j: int|
                0 <= i < M && 0 <= j < N ==> #[trigger] final(self)@[i][j] == old(
                    self,
                )@[i][j].add_spec(other@[i][j]),
    {
        self.for_each_entry(ElemOp::Add, other);
    }

    /// Subtracts `other` entry by entry, in place.
    pub fn sub_assign(&mut self, other: &Self)
        requires
            old(self).wf(),
            other.wf(),
        ensures
            final(self).wf(),
            forall|i: int, j: int|
                0 <= i < M && 0 <= j < N ==> #[trigger] final(self)@[i][j] == old(
                    self,
                )@[i][j].sub_spec(other@[i][j]),
    {
        self.for_each_entry(ElemOp::Sub, other);
    }

    /// Returns the entrywise sum of two matrices of identical dimensions.
    pub fn add(self, other: &Self) -> (r: Self)
        requires
            self.wf(),
            other.wf(),
        ensures
            r.wf(),
            forall|i: int, j: int|
                0 <= i < M && 0 <= j < N ==> #[trigger] r@[i][j] == self@[i][j].add_spec(
                    other@[i][j],
                ),
    {
        let mut m = self;
        m.add_assign(other);
        m
    }

    /// Returns the entrywise difference of two matrices of identical
    /// dimensions.
    pub fn sub(self, other: &Self) -> (r: Self)
        requires
            self.wf(),
            other.wf(),
        ensures
            r.wf(),
            forall|i: int, j: int|
                0 <= i < M && 0 <= j < N ==> #[trigger] r@[i][j] == self@[i][j].sub_spec(
                    other@[i][j],
                ),
    {
        let mut m = self;
        m.sub_assign(other);
        m
    }

    /// Returns the entrywise negation of the matrix.
    pub fn neg(self) -> (r: Self)
        requires
            self.wf(),
        ensures
            r.wf(),
            forall|i: int, j: int|
                0 <= i < M && 0 <= j < N ==> #[trigger] r@[i][j] == self@[i][j].neg_spec(),
    {
        let mut m = self;
        let z = T::zero();
        m.for_each_scalar(ElemOp::Neg, z);
        m
    }
}

impl<const M: usize, const N: usize, T: crate::num::Not + Copy> Matrix<M, N, T> {
    /// Returns the entrywise complement of the matrix.
    pub fn not(self) -> (r: Self)
        requires
            self.wf(),
        ensures
            r.wf(),
            forall|i: int, j: int|
                0 <= i < M && 0 <= j < N ==> #[trigger] r@[i][j] == self@[i][j].not_spec(),
    {
        let mut m = self;
        let ghost m0 = m@;
        for c in 0..N
            invariant
                m.wf(),
                forall|i: int, j: int|
                    0 <= i < M && 0 <= j < N ==> #[trigger] m@[i][j] == (if j < c {
                        m0[i][j].not_spec()
                    } else {
                        m0[i][j]
                    }),
        {
            for r in 0..M
                invariant
                    c < N,
                    m.wf(),
                    forall|i: int, j: int|
                        0 <= i < M && 0 <= j < N ==> #[trigger] m@[i][j] == (if j < c || (j == c
                            && i < r) {
                            m0[i][j].not_spec()
                        } else {
                            m0[i][j]
                        }),
            {
                proof {
                    m.lemma_dims();
                }
                let v = *m.index(r, c);
                let w = v.not();
                m.set(r, c, w);
            }
        }
        m
    }
}

/// Column `j` of a matrix view.
pub open spec fn column_of<T>(m: Seq<Seq<T>>, j: int) -> Seq<T> {
    Seq::new(m.len(), |k: int| m[k][j])
}

/// The matrix product: entry `(i, j)` is the dot product of row `i` of `a`
/// and column `j` of `b`.
pub open spec fn mat_mul_seq<T: Num>(a: Seq<Seq<T>>, b: Seq<Seq<T>>, cols: nat) -> Seq<Seq<T>> {
    Seq::new(a.len(), |i: int| Seq::new(cols, |j: int| dot_seq(a[i], column_of(b, j))))
}

impl<const M: usize, const N: usize, T: Num> Matrix<M, N, T> {
    /// Multiplies an `M` by `N` matrix with an `N` by `P` matrix; entry
    /// `(i, j)` of the result is the dot product of row `i` and column `j`.
    pub fn mul<const P: usize>(&self, other: &Matrix<N, P, T>) -> (r: Matrix<M, P, T>)
        requires
            self.wf(),
            other.wf(),
        ensures
            r.wf(),
            r@ == mat_mul_seq(self@, other@, P as nat),
            forall|i: int, j: int|
                0 <= i < M && 0 <= j < P ==> #[trigger] r@[i][j] == dot_seq(
                    self@[i],
                    column_of(other@, j),
                ),
    {
        let mut result = Matrix::<M, P, T>::zeros();
        for i in 0..M
            invariant
                self.wf(),
                other.wf(),
                result.wf(),
                forall|i2: int, j2: int|
                    0 <= i2 < M && 0 <= j2 < P ==> #[trigger] result@[i2][j2] == (if i2 < i {
                        dot_seq(self@[i2], column_of(other@, j2))
                    } else {
                        T::zero_spec()
                    }),
        {
            for j in 0..P
                invariant
                    i < M,
                    self.wf(),
                    other.wf(),
                    result.wf(),
                    forall|i2: int, j2: int|
                        0 <= i2 < M && 0 <= j2 < P ==> #[trigger] result@[i2][j2] == (if i2 < i || (
                        i2 == i && j2 < j) {
                            dot_seq(self@[i2], column_of(other@, j2))
                        } else {
                            T::zero_spec()
                        }),
            {
                let row = self.row(i);
                let col = other.column(j);
                let v = row.dot(&col);
                proof {
                    other.lemma_dims();
                    result.lemma_dims();
                    assert(col@ =~= column_of(other@, j as int));
                }
                result.set(i, j, v);
            }
        }
        proof {
            result.lemma_dims();
            assert forall|i2: int| 0 <= i2 < M implies #[trigger] result@[i2] =~= mat_mul_seq(
                self@,
                other@,
                P as nat,
            )[i2] by {
                self.lemma_dims();
                assert(forall|j2: int|
                    0 <= j2 < P ==> result@[i2][j2] == dot_seq(self@[i2], column_of(other@, j2)));
            }
            self.lemma_dims();
            assert(result@ =~= mat_mul_seq(self@, other@, P as nat));
        }
        result
    }
}

} // verus!
