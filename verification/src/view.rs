//! Row and column views of a matrix.
//!
//! A view is a non-owning window over a matrix: a reference to the backing
//! matrix plus the index of the row or column it traverses. Reading entry `k`
//! of a row view walks the storage with stride `M`; a column view reads `M`
//! contiguous elements.

use vstd::prelude::*;

verus! {

use crate::num::Num;
use crate::Matrix;

/// A row in a [`Matrix`].
#[derive(Clone, Copy)]
pub struct Row<'a, const M: usize, const N: usize, T> {
    matrix: &'a Matrix<M, N, T>,
    row: usize,
}

/// A column in a [`Matrix`].
#[derive(Clone, Copy)]
pub struct Column<'a, const M: usize, const N: usize, T> {
    matrix: &'a Matrix<M, N, T>,
    col: usize,
}

impl<'a, const M: usize, const N: usize, T> View for Row<'a, M, N, T> {
    type V = Seq<T>;

    closed spec fn view(&self) -> Seq<T> {
        self.matrix@[self.row as int]
    }
}

impl<'a, const M: usize, const N: usize, T> View for Column<'a, M, N, T> {
    type V = Seq<T>;

    closed spec fn view(&self) -> Seq<T> {
        Seq::new(M as nat, |k: int| self.matrix@[k][self.col as int])
    }
}

impl<const M: usize, const N: usize, T> Matrix<M, N, T> {
    /// Returns a view of the `i`-th row of this matrix.
    pub fn row(&self, i: usize) -> (r: Row<'_, M, N, T>)
        requires
            self.wf(),
            i < M,
        ensures
            r.wf(),
            r@ == self@[i as int],
            r@.len() == N as int,
    {
        proof {
            self.lemma_dims();
        }
        Row { matrix: self, row: i }
    }

    /// Returns a view of the `j`-th column of this matrix.
    pub fn column(&self, j: usize) -> (r: Column<'_, M, N, T>)
        requires
            self.wf(),
            j < N,
        ensures
            r.wf(),
            r@.len() == M as int,
            forall|k: int| 0 <= k < M ==> #[trigger] r@[k] == self@[k][j as int],
    {
        Column { matrix: self, col: j }
    }
}

impl<'a, const M: usize, const N: usize, T> Row<'a, M, N, T> {
    /// The view is a row of a well-formed matrix.
    pub closed spec fn wf(&self) -> bool {
        self.matrix.wf() && self.row < M
    }

    /// Returns a reference to the `k`-th entry of the row.
    pub fn index(&self, k: usize) -> (x: &T)
        requires
            self.wf(),
            k < N,
        ensures
            *x == self@[k as int],
    {
        self.matrix.index(self.row, k)
    }

    /// Returns a reference to the `k`-th entry of the row, or `None` if out
    /// of range.
    pub fn get(&self, k: usize) -> (r: Option<&T>)
        requires
            self.wf(),
        ensures
            match r {
                Some(x) => k < N && *x == self@[k as int],
                None => k >= N,
            },
    {
        if k < N {
            Some(self.index(k))
        } else {
            None
        }
    }
}

impl<'a, const M: usize, const N: usize, T> Column<'a, M, N, T> {
    /// The view is a column of a well-formed matrix.
    pub closed spec fn wf(&self) -> bool {
        self.matrix.wf() && self.col < N
    }

    /// Returns a reference to the `k`-th entry of the column.
    pub fn index(&self, k: usize) -> (x: &T)
        requires
            self.wf(),
            k < M,
        ensures
            *x == self@[k as int],
    {
        self.matrix.index(k, self.col)
    }

    /// Returns a reference to the `k`-th entry of the column, or `None` if
    /// out of range.
    pub fn get(&self, k: usize) -> (r: Option<&T>)
        requires
            self.wf(),
        ensures
            match r {
                Some(x) => k < M && *x == self@[k as int],
                None => k >= M,
            },
    {
        if k < M {
            Some(self.index(k))
        } else {
            None
        }
    }
}

/// The dot product of the first `n` entries of `a` and `b`: the left fold of
/// `a[k] * b[k]` under addition, seeded with the additive identity, exactly
/// as summing the products in index order computes it.
pub open spec fn dot_prefix<T: Num>(a: Seq<T>, b: Seq<T>, n: int) -> T
    decreases n,
{
    if n <= 0 {
        T::zero_spec()
    } else {
        dot_prefix(a, b, n - 1).add_spec(a[n - 1].mul_spec(b[n - 1]))
    }
}

/// The dot product of two equal-length sequences.
pub open spec fn dot_seq<T: Num>(a: Seq<T>, b: Seq<T>) -> T {
    dot_prefix(a, b, a.len() as int)
}

/// The dot product of entries `lo..hi` of `a` and `b`, folded left from the
/// additive identity.
pub open spec fn dot_between<T: Num>(a: Seq<T>, b: Seq<T>, lo: int, hi: int) -> T
    decreases hi - lo,
{
    if hi <= lo {
        T::zero_spec()
    } else {
        dot_between(a, b, lo, hi - 1).add_spec(a[hi - 1].mul_spec(b[hi - 1]))
    }
}

impl<'a, const M: usize, const N: usize, T: Num> Row<'a, M, N, T> {
    /// The dot product of this row with a column sharing its length.
    pub fn dot<const P: usize>(&self, other: &Column<'_, N, P, T>) -> (r: T)
        requires
            self.wf(),
            other.wf(),
        ensures
            r == dot_seq(self@, other@),
    {
        proof {
            self.matrix.lemma_dims();
        }
        let mut acc = T::zero();
        for k in 0..N
            invariant
                self.wf(),
                other.wf(),
                self@.len() == N as int,
                acc == dot_prefix(self@, other@, k as int),
        {
            acc = acc.add((*self.index(k)).mul(*other.index(k)));
        }
        acc
    }

    /// The dot product of this row and a column, restricted to the indices of
    /// `range` that fall within `0..N`.
    pub fn dot_partial<const P: usize>(
        &self,
        other: &Column<'_, N, P, T>,
        range: core::ops::Range<usize>,
    ) -> (r: T)
        requires
            self.wf(),
            other.wf(),
        ensures
            r == dot_between(
                self@,
                other@,
                range.start as int,
                vstd::math::min(vstd::math::max(range.end as int, range.start as int), N as int),
            ),
    {
        let lo = range.start;
        let hi = if range.end < range.start {
            lo
        } else {
            range.end
        };
        let hi = if hi > N {
            N
        } else {
            hi
        };
        let mut acc = T::zero();
        let mut k = lo;
        while k < hi
            invariant
                self.wf(),
                other.wf(),
                lo <= k,
                hi <= N,
                k <= hi || k == lo,
                acc == dot_between(self@, other@, lo as int, k as int),
            decreases (hi as int) - (k as int),
        {
            acc = acc.add((*self.index(k)).mul(*other.index(k)));
            k += 1;
        }
        acc
    }

    /// A row view compares equal to a raw sequence of the same length,
    /// element for element.
    pub fn eq_vec(&self, other: &Vec<T>) -> (r: bool)
        requires
            self.wf(),
        ensures
            r == (self@ == other@),
    {
        proof {
            self.matrix.lemma_dims();
        }
        if other.len() != N {
            proof {
                assert(self@.len() != other@.len());
            }
            return false;
        }
        for k in 0..N
            invariant
                self.wf(),
                self@.len() == N as int,
                other@.len() == N as int,
                forall|q: int| 0 <= q < k ==> self@[q] == other@[q],
        {
            if !(*self.index(k)).eq_elem(other[k]) {
                return false;
            }
        }
        proof {
            assert(self@ =~= other@);
        }
        true
    }
}

impl<'a, const M: usize, const N: usize, T: Num> Column<'a, M, N, T> {
    /// A column view compares equal to a raw sequence of the same length,
    /// element for element.
    pub fn eq_vec(&self, other: &Vec<T>) -> (r: bool)
        requires
            self.wf(),
        ensures
            r == (self@ == other@),
    {
        if other.len() != M {
            proof {
                assert(self@.len() != other@.len());
            }
            return false;
        }
        for k in 0..M
            invariant
                self.wf(),
                other@.len() == M as int,
                forall|q: int| 0 <= q < k ==> self@[q] == other@[q],
        {
            if !(*self.index(k)).eq_elem(other[k]) {
                return false;
            }
        }
        proof {
            assert(self@ =~= other@);
        }
        true
    }
}

} // verus!
