//! Matrix constructors and the fallible fill from a source sequence.

use vstd::prelude::*;

verus! {

use crate::Matrix;
use crate::num::{One, Zero};
use crate::{lemma_offset_in_range, rows_of_flat};

impl<const M: usize, const N: usize, T: Copy> Matrix<M, N, T> {
    /// Creates a matrix with every entry equal to `value`.
    fn filled(value: T) -> (r: Self)
        ensures
            r.wf(),
            forall|i: int, j: int|
                0 <= i < M && 0 <= j < N ==> #[trigger] r@[i][j] == value,
    {
        let mut data: Vec<T> = Vec::new();
        proof {
            vstd::arithmetic::mul::lemma_mul_basics(M as int);
        }
        for c in 0..N
            invariant
                data@.len() == (c as int) * (M as int),
                forall|k: int| 0 <= k < data@.len() ==> #[trigger] data@[k] == value,
        {
            for r in 0..M
                invariant
                    data@.len() == (c as int) * (M as int) + r,
                    forall|k: int| 0 <= k < data@.len() ==> #[trigger] data@[k] == value,
            {
                data.push(value);
            }
            proof {
                vstd::arithmetic::mul::lemma_mul_is_distributive_add_other_way(
                    M as int,
                    c as int,
                    1,
                );
                vstd::arithmetic::mul::lemma_mul_basics(M as int);
            }
        }
        proof {
            vstd::arithmetic::mul::lemma_mul_is_commutative(M as int, N as int);
        }
        let m = Matrix::from_column_major_order(data);
        proof {
            assert forall|i: int, j: int| 0 <= i < M && 0 <= j < N implies #[trigger] m@[i][j]
                == value by {
                lemma_offset_in_range(M as int, N as int, i, j);
            }
        }
        m
    }
}

impl<const M: usize, const N: usize, T: Zero + Copy> Matrix<M, N, T> {
    /// Creates a matrix filled with the additive identity.
    pub fn zeros() -> (r: Self)
        ensures
            r.wf(),
            forall|i: int, j: int|
                0 <= i < M && 0 <= j < N ==> #[trigger] r@[i][j] == T::zero_spec(),
    {
        Self::filled(T::zero())
    }
}

impl<const M: usize, const N: usize, T: One + Copy> Matrix<M, N, T> {
    /// Creates a matrix filled with the multiplicative identity.
    pub fn ones() -> (r: Self)
        ensures
            r.wf(),
            forall|i: int, j: int|
                0 <= i < M && 0 <= j < N ==> #[trigger] r@[i][j] == T::one_spec(),
    {
        Self::filled(T::one())
    }
}

/// The entries of the `d`-dimensional identity matrix.
pub open spec fn eye_entry<T: Zero + One>(i: int, j: int) -> T {
    if i == j {
        T::one_spec()
    } else {
        T::zero_spec()
    }
}

impl<const D: usize, T: Zero + One + Copy> Matrix<D, D, T> {
    /// Creates the identity matrix: the multiplicative identity on the
    /// diagonal and the additive identity elsewhere.
    pub fn eye() -> (r: Self)
        ensures
            r.wf(),
            forall|i: int, j: int|
                0 <= i < D && 0 <= j < D ==> #[trigger] r@[i][j] == eye_entry::<T>(i, j),
    {
        let mut m = Self::zeros();
        for d in 0..D
            invariant
                m.wf(),
                forall|i: int, j: int|
                    0 <= i < D && 0 <= j < D ==> #[trigger] m@[i][j] == (if i == j && i < d {
                        T::one_spec()
                    } else {
                        T::zero_spec()
                    }),
        {
            proof {
                m.lemma_dims();
            }
            m.set(d, d, T::one());
        }
        m
    }

    /// Creates a matrix with the given entries on the diagonal and the
    /// additive identity elsewhere.
    pub fn from_diagonal(diag: &Vec<T>) -> (r: Self)
        requires
            diag@.len() == D as int,
        ensures
            r.wf(),
            forall|i: int, j: int|
                0 <= i < D && 0 <= j < D ==> #[trigger] r@[i][j] == (if i == j {
                    diag@[i]
                } else {
                    T::zero_spec()
                }),
    {
        let mut m = Self::zeros();
        for d in 0..D
            invariant
                m.wf(),
                diag@.len() == D as int,
                forall|i: int, j: int|
                    0 <= i < D && 0 <= j < D ==> #[trigger] m@[i][j] == (if i == j && i < d {
                        diag@[i]
                    } else {
                        T::zero_spec()
                    }),
        {
            proof {
                m.lemma_dims();
            }
            m.set(d, d, diag[d]);
        }
        m
    }
}

/// Pulls up to `M * N` items from `src`, in column-major order, and fills a
/// matrix. If `src` holds fewer than `M * N` items, `Err(_)` carrying the
/// number of available items is returned, and every item is dropped.
#[verifier::loop_isolation(false)]
pub fn collect<const M: usize, const N: usize, T>(src: Vec<T>) -> (r: Result<
    Matrix<M, N, T>,
    usize,
>)
    ensures
        match r {
            Ok(m) => src@.len() >= (M as int) * (N as int) && m.wf() && m@ == rows_of_flat(
                M as nat,
                N as nat,
                src@,
            ),
            Err(observed) => src@.len() < (M as int) * (N as int) && observed == src@.len(),
        },
{
    let ghost s0 = src@;
    let mut src = src;
    let mut count: usize = 0;
    proof {
        vstd::arithmetic::mul::lemma_mul_basics(M as int);
    }
    for c in 0..N
        invariant
            src@ == s0,
            count as int == (c as int) * (M as int),
            count <= src@.len(),
    {
        for r in 0..M
            invariant
                c < N,
                src@ == s0,
                count as int == (c as int) * (M as int) + r,
                count <= src@.len(),
        {
            if count == src.len() {
                proof {
                    vstd::std_specs::vec::axiom_spec_len(&src);
                    lemma_offset_in_range(M as int, N as int, r as int, c as int);
                }
                return Err(count);
            }
            count += 1;
        }
        proof {
            vstd::arithmetic::mul::lemma_mul_is_distributive_add_other_way(M as int, c as int, 1);
            vstd::arithmetic::mul::lemma_mul_basics(M as int);
        }
    }
    proof {
        vstd::arithmetic::mul::lemma_mul_is_commutative(M as int, N as int);
        assert(src@ == s0);
        assert(s0.take(s0.len() as int).len() == s0.len());
        assert forall|k: int| 0 <= k < s0.len() implies s0.take(s0.len() as int)[k] == s0[k] by {}
        assert(src@ =~= s0.take(src@.len() as int));
    }
    while src.len() > count
        invariant
            count <= src@.len(),
            src@.len() <= s0.len(),
            src@ == s0.take(src@.len() as int),
        decreases src@.len(),
    {
        let ghost prev = src@;
        src.pop();
        proof {
            assert(src@.len() == prev.len() - 1);
            assert forall|k: int| 0 <= k < src@.len() implies src@[k] == s0.take(
                src@.len() as int,
            )[k] by {
                assert(src@[k] == prev[k]);
                assert(s0.take(prev.len() as int)[k] == s0[k]);
                assert(s0.take(src@.len() as int)[k] == s0[k]);
            }
            assert(src@ =~= s0.take(src@.len() as int));
        }
    }
    let m = Matrix::from_column_major_order(src);
    proof {
        assert forall|i: int, j: int| 0 <= i < M && 0 <= j < N implies #[trigger] m@[i][j]
            == rows_of_flat(M as nat, N as nat, s0)[i][j] by {
            lemma_offset_in_range(M as int, N as int, i, j);
        }
        assert forall|i: int| 0 <= i < M implies #[trigger] m@[i] =~= rows_of_flat(
            M as nat,
            N as nat,
            s0,
        )[i] by {
            assert(forall|j: int| 0 <= j < N ==> m@[i][j] == rows_of_flat(M as nat, N as nat, s0)[i][j]);
        }
        assert(m@ =~= rows_of_flat(M as nat, N as nat, s0));
    }
    Ok(m)
}

/// Describes a fill that ran out of elements: which shape was being filled,
/// its dimensions, and how many elements the source yielded.
#[derive(Clone, Copy, Debug, PartialEq, Eq, Structural)]
pub enum CollectError {
    Vector { len: usize, rows: usize },
    RowVector { len: usize, cols: usize },
    Matrix { len: usize, rows: usize, cols: usize },
}

/// Reports the shape error for a fill of an `M` by `N` matrix whose source
/// yielded only `len` elements.
pub fn collect_panic<const M: usize, const N: usize>(len: usize) -> (e: CollectError)
    ensures
        N == 1 ==> e == (CollectError::Vector { len, rows: M }),
        N != 1 && M == 1 ==> e == (CollectError::RowVector { len, cols: N }),
        N != 1 && M != 1 ==> e == (CollectError::Matrix { len, rows: M, cols: N }),
{
    if N == 1 {
        CollectError::Vector { len, rows: M }
    } else if M == 1 {
        CollectError::RowVector { len, cols: N }
    } else {
        CollectError::Matrix { len, rows: M, cols: N }
    }
}

} // verus!
