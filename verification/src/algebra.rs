//! LU decomposition with partial pivoting, triangular inversion, determinant
//! and full inverse, on square matrices.
//!
//! Every algorithm is pinned down exactly, relative to the element type's own
//! arithmetic: the specification functions here state, step by step, which
//! pivot each stage selects and which value every entry takes, and the
//! executable code is proved to compute precisely those values.

use vstd::prelude::*;

verus! {

use crate::new::eye_entry;
use crate::num::{Abs, Num, One, Zero};
use crate::ops::{column_of, mat_mul_seq};
use crate::view::{dot_prefix, dot_seq};
use crate::Matrix;

/// The identity matrix as a sequence of rows.
pub open spec fn eye_seq<T: Zero + One>(d: nat) -> Seq<Seq<T>> {
    Seq::new(d, |i: int| Seq::new(d, |j: int| eye_entry::<T>(i, j)))
}

/// The pivot search fold: scanning rows `k..` with current best `cur`, a row
/// replaces the best exactly when its magnitude in column `d` is strictly
/// larger, so ties keep the lowest row index.
pub open spec fn pivot_row_from<T: Num + Abs>(u: Seq<Seq<T>>, d: int, k: int, cur: int) -> int
    decreases u.len() - k,
{
    if k < 0 || k >= u.len() {
        cur
    } else {
        let nxt = if u[cur][d].abs_spec().lt_spec(u[k][d].abs_spec()) {
            k
        } else {
            cur
        };
        pivot_row_from(u, d, k + 1, nxt)
    }
}

/// The row selected by partial pivoting for diagonal position `d`: the first
/// row at or below `d` whose magnitude in column `d` is maximal.
pub open spec fn pivot_row<T: Num + Abs>(u: Seq<Seq<T>>, d: int) -> int {
    pivot_row_from(u, d, d, d)
}

/// The pivot search stays within the rows it scans.
pub proof fn lemma_pivot_row_from_range<T: Num + Abs>(u: Seq<Seq<T>>, d: int, k: int, cur: int)
    requires
        0 <= cur < u.len(),
    ensures
        0 <= pivot_row_from(u, d, k, cur) < u.len(),
        pivot_row_from(u, d, k, cur) >= cur || pivot_row_from(u, d, k, cur) >= k,
    decreases u.len() - k,
{
    if k < 0 || k >= u.len() {
    } else {
        let nxt = if u[cur][d].abs_spec().lt_spec(u[k][d].abs_spec()) {
            k
        } else {
            cur
        };
        lemma_pivot_row_from_range(u, d, k + 1, nxt);
    }
}

/// The magnitude that pivot selection compares for row `k` of column `d`.
pub open spec fn pivot_mag<T: Num + Abs>(u: Seq<Seq<T>>, d: int, k: int) -> T {
    u[k][d].abs_spec()
}

/// The element order is irreflexive.
pub open spec fn lt_irreflexive<T: Num>() -> bool {
    forall|a: T| !(#[trigger] a.lt_spec(a))
}

/// The element order is transitive.
pub open spec fn lt_transitive<T: Num>() -> bool {
    forall|a: T, b: T, c: T|
        #![trigger a.lt_spec(b), b.lt_spec(c)]
        a.lt_spec(b) && b.lt_spec(c) ==> a.lt_spec(c)
}

/// The element order is negatively transitive; together with transitivity
/// this makes it a strict weak order, which every strict total order is.
pub open spec fn lt_negatively_transitive<T: Num>() -> bool {
    forall|a: T, b: T, c: T|
        #![trigger a.lt_spec(b), b.lt_spec(c)]
        !a.lt_spec(b) && !b.lt_spec(c) ==> !a.lt_spec(c)
}

proof fn lemma_pivot_fold_maximal<T: Num + Abs>(u: Seq<Seq<T>>, d: int, k: int, cur: int)
    requires
        lt_irreflexive::<T>(),
        lt_transitive::<T>(),
        lt_negatively_transitive::<T>(),
        0 <= d <= cur < u.len(),
        d <= k,
        forall|j: int| d <= j < k ==> !pivot_mag(u, d, cur).lt_spec(#[trigger] pivot_mag(u, d, j)),
        forall|j: int| d <= j < cur ==> (#[trigger] pivot_mag(u, d, j)).lt_spec(pivot_mag(u, d, cur)),
    ensures
        d <= pivot_row_from(u, d, k, cur) < u.len(),
        forall|j: int|
            d <= j < u.len() ==> !pivot_mag(u, d, pivot_row_from(u, d, k, cur)).lt_spec(
                #[trigger] pivot_mag(u, d, j),
            ),
        forall|j: int|
            d <= j < pivot_row_from(u, d, k, cur) ==> (#[trigger] pivot_mag(u, d, j)).lt_spec(
                pivot_mag(u, d, pivot_row_from(u, d, k, cur)),
            ),
    decreases u.len() - k,
{
    if k >= u.len() {
    } else {
        if pivot_mag(u, d, cur).lt_spec(pivot_mag(u, d, k)) {
            assert forall|j: int| d <= j < k + 1 implies !pivot_mag(u, d, k).lt_spec(
                #[trigger] pivot_mag(u, d, j),
            ) by {
                if pivot_mag(u, d, k).lt_spec(pivot_mag(u, d, j)) {
                    assert(pivot_mag(u, d, cur).lt_spec(pivot_mag(u, d, j)));
                }
            }
            assert forall|j: int| d <= j < k implies (#[trigger] pivot_mag(u, d, j)).lt_spec(
                pivot_mag(u, d, k),
            ) by {
                if j < cur {
                    assert(pivot_mag(u, d, j).lt_spec(pivot_mag(u, d, cur)));
                } else if j != cur {
                    if !pivot_mag(u, d, j).lt_spec(pivot_mag(u, d, k)) {
                        assert(!pivot_mag(u, d, cur).lt_spec(pivot_mag(u, d, j)));
                        assert(!pivot_mag(u, d, cur).lt_spec(pivot_mag(u, d, k)));
                    }
                }
            }
            lemma_pivot_fold_maximal(u, d, k + 1, k);
        } else {
            lemma_pivot_fold_maximal(u, d, k + 1, cur);
        }
    }
}

/// Law: when the element comparison on magnitudes is a strict weak order (as
/// it is for every ordered numeric type), partial pivoting selects a row of
/// maximal magnitude in the pivot column among rows `d..`, and every earlier
/// candidate row has strictly smaller magnitude — on ties the lowest row
/// index wins.
pub proof fn lemma_pivot_row_maximal<T: Num + Abs>(u: Seq<Seq<T>>, d: int)
    requires
        lt_irreflexive::<T>(),
        lt_transitive::<T>(),
        lt_negatively_transitive::<T>(),
        0 <= d < u.len(),
    ensures
        d <= pivot_row(u, d) < u.len(),
        forall|k: int|
            d <= k < u.len() ==> !pivot_mag(u, d, pivot_row(u, d)).lt_spec(
                #[trigger] pivot_mag(u, d, k),
            ),
        forall|k: int|
            d <= k < pivot_row(u, d) ==> (#[trigger] pivot_mag(u, d, k)).lt_spec(
                pivot_mag(u, d, pivot_row(u, d)),
            ),
{
    lemma_pivot_fold_maximal(u, d, d, d);
}

/// Two full rows exchanged.
pub open spec fn swap_rows_seq<T>(m: Seq<Seq<T>>, r1: int, r2: int) -> Seq<Seq<T>> {
    m.update(r1, m[r2]).update(r2, m[r1])
}

/// Rows `r1` and `r2` with only their first `k` entries exchanged.
pub open spec fn swap_prefix_seq<T>(m: Seq<Seq<T>>, r1: int, r2: int, k: int) -> Seq<Seq<T>> {
    m.update(
        r1,
        Seq::new(m[r1].len(), |c: int| if c < k {
            m[r2][c]
        } else {
            m[r1][c]
        }),
    ).update(
        r2,
        Seq::new(m[r2].len(), |c: int| if c < k {
            m[r1][c]
        } else {
            m[r2][c]
        }),
    )
}

/// The multiplier eliminating column `d` of row `r`: the entry divided by the
/// pivot, with whatever the element type makes of a zero pivot.
pub open spec fn elim_factor<T: Num>(u: Seq<Seq<T>>, d: int, r: int) -> T {
    u[r][d].div_spec(u[d][d])
}

/// The lower-triangular factors after the elimination step at diagonal `d`:
/// each row below `d` records its multiplier in column `d`.
pub open spec fn eliminate_l_seq<T: Num>(l: Seq<Seq<T>>, u: Seq<Seq<T>>, d: int) -> Seq<Seq<T>> {
    Seq::new(l.len(), |r: int| if r > d {
        l[r].update(d, elim_factor(u, d, r))
    } else {
        l[r]
    })
}

/// The working matrix after the elimination step at diagonal `d`: each row
/// below `d` has its multiplier times row `d` subtracted, entry by entry.
pub open spec fn eliminate_u_seq<T: Num>(u: Seq<Seq<T>>, d: int) -> Seq<Seq<T>> {
    Seq::new(u.len(), |r: int| if r > d {
        Seq::new(u[r].len(), |c: int| u[r][c].sub_spec(elim_factor(u, d, r).mul_spec(u[d][c])))
    } else {
        u[r]
    })
}

/// One round of the decomposition at diagonal `d`: pivot search, row swaps in
/// the permutation and working matrices, the partial swap of the already
/// populated columns of `l`, then elimination.
pub open spec fn lu_step<T: Num + Abs>(
    l: Seq<Seq<T>>,
    u: Seq<Seq<T>>,
    p: Seq<Seq<T>>,
    d: int,
) -> (Seq<Seq<T>>, Seq<Seq<T>>, Seq<Seq<T>>) {
    let mr = pivot_row(u, d);
    let p1 = swap_rows_seq(p, d, mr);
    let u1 = swap_rows_seq(u, d, mr);
    let l1 = swap_prefix_seq(l, d, mr, d);
    (eliminate_l_seq(l1, u1, d), eliminate_u_seq(u1, d), p1)
}

/// The state `(l, u, p)` after the first `k` rounds of the decomposition of
/// `a`, starting from two identities and `a` itself.
pub open spec fn lu_prefix<T: Num + Abs>(a: Seq<Seq<T>>, k: int) -> (
    Seq<Seq<T>>,
    Seq<Seq<T>>,
    Seq<Seq<T>>,
)
    decreases k,
{
    if k <= 0 {
        (eye_seq(a.len()), a, eye_seq(a.len()))
    } else {
        let prev = lu_prefix(a, k - 1);
        lu_step(prev.0, prev.1, prev.2, k - 1)
    }
}

/// The LU decomposition with partial pivoting of `a`: the triple `(l, u, p)`
/// after one round per diagonal position.
pub open spec fn lu_seq<T: Num + Abs>(a: Seq<Seq<T>>) -> (Seq<Seq<T>>, Seq<Seq<T>>, Seq<Seq<T>>) {
    lu_prefix(a, a.len() as int)
}

/// The running product of the first `k` diagonal entries of `l` and `u`,
/// folded left from the multiplicative identity.
pub open spec fn det_prod<T: Num>(l: Seq<Seq<T>>, u: Seq<Seq<T>>, k: int) -> T
    decreases k,
{
    if k <= 0 {
        T::one_spec()
    } else {
        det_prod(l, u, k - 1).mul_spec(l[k - 1][k - 1]).mul_spec(u[k - 1][k - 1])
    }
}

/// The determinant this library computes: the product of the diagonals of
/// both triangular factors, negated for odd dimensions.
pub open spec fn det_seq<T: Num + Abs>(a: Seq<Seq<T>>) -> T {
    let lup = lu_seq(a);
    let prod = det_prod(lup.0, lup.1, a.len() as int);
    if a.len() % 2 != 0 {
        prod.neg_spec()
    } else {
        prod
    }
}

/// The view is square with side `d`.
pub open spec fn square_dims<T>(m: Seq<Seq<T>>, d: int) -> bool {
    m.len() == d && (forall|r: int| 0 <= r < d ==> (#[trigger] m[r]).len() == d)
}

/// Every diagonal entry is the multiplicative identity and every entry above
/// the diagonal is the additive identity.
pub open spec fn unit_lower_triangular<T: Zero + One>(m: Seq<Seq<T>>) -> bool {
    &&& forall|i: int| 0 <= i < m.len() ==> #[trigger] m[i][i] == T::one_spec()
    &&& forall|i: int, j: int| 0 <= i < j < m.len() ==> #[trigger] m[i][j] == T::zero_spec()
}

/// `perm` maps `0..d` into `0..d` without repetition.
pub open spec fn is_perm(perm: Seq<int>, d: int) -> bool {
    &&& perm.len() == d
    &&& forall|i: int| 0 <= i < d ==> 0 <= #[trigger] perm[i] < d
    &&& forall|i: int, j: int| 0 <= i < j < d ==> perm[i] != perm[j]
}

/// The matrix whose row `i` is row `perm[i]` of the identity.
pub open spec fn perm_matrix<T: Zero + One>(perm: Seq<int>, d: nat) -> Seq<Seq<T>> {
    Seq::new(d, |i: int| Seq::new(d, |j: int| if perm[i] == j {
        T::one_spec()
    } else {
        T::zero_spec()
    }))
}

/// Exactly one multiplicative identity per row, placed by a permutation of
/// the row indices, and the additive identity everywhere else.
pub open spec fn is_permutation_matrix<T: Zero + One>(m: Seq<Seq<T>>) -> bool {
    exists|perm: Seq<int>| is_perm(perm, m.len() as int) && m == perm_matrix::<T>(perm, m.len())
}

/// Law: through every round of the decomposition, all three factors stay
/// square, the lower factor stays unit lower-triangular, and the permutation
/// factor stays a permutation matrix.
pub proof fn lemma_lu_prefix_structure<T: Num + Abs>(a: Seq<Seq<T>>, d: int, k: int)
    requires
        square_dims(a, d),
        0 <= k <= d,
    ensures
        square_dims(lu_prefix(a, k).0, d),
        square_dims(lu_prefix(a, k).1, d),
        square_dims(lu_prefix(a, k).2, d),
        unit_lower_triangular(lu_prefix(a, k).0),
        is_permutation_matrix(lu_prefix(a, k).2),
        forall|i: int, c: int|
            0 <= i < d && k <= c < d ==> #[trigger] lu_prefix(a, k).0[i][c] == eye_entry::<T>(i, c),
    decreases k,
{
    if k <= 0 {
        let idp = Seq::new(d as nat, |i: int| i);
        assert(is_perm(idp, d));
        assert forall|i: int| 0 <= i < d implies #[trigger] eye_seq::<T>(a.len())[i]
            =~= perm_matrix::<T>(idp, a.len())[i] by {
            assert(forall|j: int|
                0 <= j < d ==> eye_seq::<T>(a.len())[i][j] == perm_matrix::<T>(idp, a.len())[i][j]);
        }
        assert(eye_seq::<T>(a.len()) =~= perm_matrix::<T>(idp, a.len()));
    } else {
        lemma_lu_prefix_structure(a, d, k - 1);
        let prev = lu_prefix(a, k - 1);
        let l = prev.0;
        let u = prev.1;
        let p = prev.2;
        let e = k - 1;
        let mr = pivot_row(u, e);
        lemma_pivot_row_from_range(u, e, e, e);
        assert(e <= mr < d);
        let l1 = swap_prefix_seq(l, e, mr, e);
        let u1 = swap_rows_seq(u, e, mr);
        let p1 = swap_rows_seq(p, e, mr);
        let l2 = eliminate_l_seq(l1, u1, e);
        let u2 = eliminate_u_seq(u1, e);
        assert(lu_prefix(a, k) == (l2, u2, p1));
        // Shapes are preserved: every new row is an update of an old row or a
        // comprehension of the same length.
        assert(square_dims(u2, d));
        assert(square_dims(l2, d));
        assert(square_dims(p1, d));
        // The partial swap touches only columns below `e`, which lie strictly
        // below the diagonal of both rows; elimination writes only strictly
        // below the diagonal.
        assert(unit_lower_triangular(l1));
        assert(unit_lower_triangular(l2));
        // The row swap of a permutation matrix is the permutation matrix of
        // the swapped index sequence.
        let perm = choose|perm: Seq<int>|
            is_perm(perm, p.len() as int) && p == perm_matrix::<T>(perm, p.len());
        let perm1 = perm.update(e, perm[mr]).update(mr, perm[e]);
        assert forall|i: int, j: int| 0 <= i < j < d implies perm1[i] != perm1[j] by {
            if i != e && i != mr && j != e && j != mr {
                assert(perm1[i] == perm[i] && perm1[j] == perm[j]);
            }
        }
        assert(is_perm(perm1, d));
        assert forall|i: int| 0 <= i < d implies #[trigger] p1[i] =~= perm_matrix::<T>(
            perm1,
            p1.len(),
        )[i] by {
            assert(forall|j: int|
                0 <= j < d ==> p1[i][j] == perm_matrix::<T>(perm1, p1.len())[i][j]);
        }
        assert(p1 =~= perm_matrix::<T>(perm1, p1.len()));
        assert(is_permutation_matrix(p1));
    }
}

/// Law: the lower factor of the decomposition is unit lower-triangular — its
/// diagonal is the multiplicative identity and everything above it is the
/// additive identity.
pub proof fn lemma_lu_l_unit_lower_triangular<T: Num + Abs>(a: Seq<Seq<T>>, d: int)
    requires
        square_dims(a, d),
    ensures
        unit_lower_triangular(lu_seq(a).0),
{
    lemma_lu_prefix_structure(a, d, d);
}

/// Law: the permutation factor of the decomposition is a permutation matrix —
/// row `i` is row `perm[i]` of the identity, for a permutation `perm`.
pub proof fn lemma_lu_p_permutation<T: Num + Abs>(a: Seq<Seq<T>>, d: int)
    requires
        square_dims(a, d),
    ensures
        is_permutation_matrix(lu_seq(a).2),
{
    lemma_lu_prefix_structure(a, d, d);
}

/// Law: the full inverse exists exactly when no diagonal entry of the upper
/// factor is the additive identity; the unit lower factor can always be
/// inverted.
pub proof fn lemma_inv_some_iff<T: Num + Abs>(a: Seq<Seq<T>>, d: int)
    requires
        square_dims(a, d),
    ensures
        (inv_seq(a) is Some) <==> (forall|i: int|
            0 <= i < d ==> #[trigger] lu_seq(a).1[i][i] != T::zero_spec()),
{
    lemma_lu_prefix_structure(a, d, d);
}

/// Addition is commutative and associative with the additive identity as its
/// unit, and subtraction undoes addition.
pub open spec fn additive_laws<T: Num>() -> bool {
    &&& forall|x: T, y: T| #[trigger] x.add_spec(y) == y.add_spec(x)
    &&& forall|x: T, y: T, z: T|
        #[trigger] x.add_spec(y).add_spec(z) == x.add_spec(y.add_spec(z))
    &&& forall|x: T| #[trigger] x.add_spec(T::zero_spec()) == x
    &&& forall|x: T, y: T| #[trigger] x.sub_spec(y).add_spec(y) == x
}

/// The additive identity annihilates on the left and the multiplicative
/// identity is neutral on the left.
pub open spec fn multiplicative_identity_laws<T: Num>() -> bool {
    &&& forall|x: T| #[trigger] T::zero_spec().mul_spec(x) == T::zero_spec()
    &&& forall|x: T| #[trigger] T::one_spec().mul_spec(x) == x
}

/// A prefix dot product only reads the entries below its bound, so it agrees
/// on rows and columns that agree there.
proof fn lemma_dot_prefix_congruence<T: Num>(a1: Seq<T>, b1: Seq<T>, a2: Seq<T>, b2: Seq<T>, n: int)
    requires
        forall|c: int| 0 <= c < n ==> a1[c] == a2[c] && b1[c] == b2[c],
    ensures
        dot_prefix(a1, b1, n) == dot_prefix(a2, b2, n),
    decreases n,
{
    if n > 0 {
        lemma_dot_prefix_congruence(a1, b1, a2, b2, n - 1);
    }
}

/// A row that agrees with row `i` of the identity from position `s` on
/// contributes, beyond its prefix, exactly the `i`-th entry of the column —
/// or nothing at all when that position lies below `s`.
proof fn lemma_dot_prefix_identity_tail<T: Num>(row: Seq<T>, v: Seq<T>, s: int, i: int, n: int)
    requires
        additive_laws::<T>(),
        multiplicative_identity_laws::<T>(),
        0 <= s <= n,
        n <= v.len(),
        0 <= i,
        forall|c: int| s <= c < n ==> row[c] == eye_entry::<T>(i, c),
    ensures
        dot_prefix(row, v, n) == if s <= i < n {
            dot_prefix(row, v, s).add_spec(v[i])
        } else {
            dot_prefix(row, v, s)
        },
    decreases n - s,
{
    if n <= s {
    } else {
        lemma_dot_prefix_identity_tail(row, v, s, i, n - 1);
        if i == n - 1 {
            assert(row[n - 1].mul_spec(v[n - 1]) == v[n - 1]);
        } else {
            assert(row[n - 1].mul_spec(v[n - 1]) == T::zero_spec());
        }
    }
}

/// The two's-complement arithmetic of the `i64` element satisfies the laws
/// the reconstruction theorem asks for.
pub proof fn lemma_i64_satisfies_arithmetic_laws()
    ensures
        additive_laws::<i64>(),
        multiplicative_identity_laws::<i64>(),
{
    assert forall|x: i64| #[trigger] (0i64).mul_spec(x) == 0i64 by {
        assert(0 * (x as int) == 0) by (nonlinear_arith);
    }
    assert forall|x: i64| #[trigger] (1i64).mul_spec(x) == x by {
        assert(1 * (x as int) == x as int) by (nonlinear_arith);
        let range = 0x10000000000000000int;
        if x >= 0 {
            vstd::arithmetic::div_mod::lemma_fundamental_div_mod_converse(
                x as int,
                range,
                0,
                x as int,
            );
        } else {
            vstd::arithmetic::div_mod::lemma_fundamental_div_mod_converse(
                x as int,
                range,
                -1,
                x + range,
            );
        }
    }
}

/// One entry of a matrix product whose left row carries an identity tail from
/// position `s` on: the dot product collapses to its prefix below `s`, plus
/// the single right-matrix entry the identity tail selects.
proof fn lemma_mul_entry_tail<T: Num>(
    lm: Seq<Seq<T>>,
    um: Seq<Seq<T>>,
    d: int,
    s: int,
    i: int,
    j: int,
)
    requires
        additive_laws::<T>(),
        multiplicative_identity_laws::<T>(),
        square_dims(lm, d),
        square_dims(um, d),
        0 <= i < d,
        0 <= j < d,
        0 <= s <= d,
        forall|c: int| s <= c < d ==> lm[i][c] == eye_entry::<T>(i, c),
    ensures
        mat_mul_seq(lm, um, d as nat)[i][j] == if s <= i {
            dot_prefix(lm[i], column_of(um, j), s).add_spec(um[i][j])
        } else {
            dot_prefix(lm[i], column_of(um, j), s)
        },
{
    lemma_dot_prefix_identity_tail(lm[i], column_of(um, j), s, i, d);
    assert(mat_mul_seq(lm, um, d as nat)[i][j] == dot_seq(lm[i], column_of(um, j)));
    assert(column_of(um, j)[i] == um[i][j]);
}

/// Law: each round of the decomposition preserves the reconstruction
/// equation `p * a == l * u`, for every element type whose addition is
/// commutative and associative with the additive identity as unit, whose
/// subtraction undoes addition, and whose identities multiply as identities.
proof fn lemma_lu_prefix_product<T: Num + Abs>(a: Seq<Seq<T>>, d: int, k: int)
    requires
        additive_laws::<T>(),
        multiplicative_identity_laws::<T>(),
        square_dims(a, d),
        0 <= k <= d,
    ensures
        mat_mul_seq(lu_prefix(a, k).2, a, d as nat) == mat_mul_seq(
            lu_prefix(a, k).0,
            lu_prefix(a, k).1,
            d as nat,
        ),
    decreases k,
{
    let dn = d as nat;
    if k <= 0 {
    } else {
        lemma_lu_prefix_product(a, d, k - 1);
        lemma_lu_prefix_structure(a, d, k - 1);
        lemma_lu_prefix_structure(a, d, k);
        let prev = lu_prefix(a, k - 1);
        let l = prev.0;
        let u = prev.1;
        let p = prev.2;
        let e = k - 1;
        let mr = pivot_row(u, e);
        lemma_pivot_row_from_range(u, e, e, e);
        let l1 = swap_prefix_seq(l, e, mr, e);
        let u1 = swap_rows_seq(u, e, mr);
        let p1 = swap_rows_seq(p, e, mr);
        let l2 = eliminate_l_seq(l1, u1, e);
        let u2 = eliminate_u_seq(u1, e);
        assert(lu_prefix(a, k) == (l2, u2, p1));
        let pa = mat_mul_seq(p, a, dn);
        let lu = mat_mul_seq(l, u, dn);
        assert(square_dims(l1, d));
        assert(square_dims(u1, d));
        assert(square_dims(l2, d));
        assert(square_dims(u2, d));
        // The lower factor keeps its identity tail through the partial swap,
        // and the elimination round moves the tail one column to the right.
        assert forall|i: int, c: int| 0 <= i < d && e <= c < d implies #[trigger] l1[i][c]
            == eye_entry::<T>(i, c) by {}
        assert forall|i: int, c: int| 0 <= i < d && e + 1 <= c < d implies #[trigger] l2[i][c]
            == eye_entry::<T>(i, c) by {}
        // Swapping rows of the permutation factor permutes the product rows.
        assert forall|i: int| 0 <= i < d implies #[trigger] mat_mul_seq(p1, a, dn)[i]
            =~= swap_rows_seq(pa, e, mr)[i] by {
            if i == mr {
                assert(p1[i] == p[e]);
            } else if i == e {
                assert(p1[i] == p[mr]);
            } else {
                assert(p1[i] == p[i]);
            }
            assert(forall|j: int|
                0 <= j < d ==> #[trigger] mat_mul_seq(p1, a, dn)[i][j] == swap_rows_seq(
                    pa,
                    e,
                    mr,
                )[i][j]);
        }
        assert(mat_mul_seq(p1, a, dn) =~= swap_rows_seq(pa, e, mr));
        // The partial swap of the lower factor together with the full swap of
        // the working matrix swaps the product's rows.
        assert forall|i: int, j: int| 0 <= i < d && 0 <= j < d implies #[trigger] mat_mul_seq(
            l1,
            u1,
            dn,
        )[i][j] == swap_rows_seq(lu, e, mr)[i][j] by {
            if i == e {
                lemma_mul_entry_tail(l1, u1, d, e, e, j);
                lemma_mul_entry_tail(l, u, d, e, mr, j);
                lemma_dot_prefix_congruence(l1[e], column_of(u1, j), l[mr], column_of(u, j), e);
                assert(u1[e] == u[mr]);
                assert(swap_rows_seq(lu, e, mr)[i][j] == lu[mr][j]);
            } else if i == mr {
                lemma_mul_entry_tail(l1, u1, d, e, mr, j);
                lemma_mul_entry_tail(l, u, d, e, e, j);
                lemma_dot_prefix_congruence(l1[mr], column_of(u1, j), l[e], column_of(u, j), e);
                assert(u1[mr] == u[e]);
                assert(swap_rows_seq(lu, e, mr)[i][j] == lu[e][j]);
            } else {
                lemma_mul_entry_tail(l1, u1, d, e, i, j);
                lemma_mul_entry_tail(l, u, d, e, i, j);
                lemma_dot_prefix_congruence(l1[i], column_of(u1, j), l[i], column_of(u, j), e);
                assert(u1[i] == u[i]);
                assert(swap_rows_seq(lu, e, mr)[i][j] == lu[i][j]);
            }
        }
        // The elimination round leaves the product unchanged: the multiplier
        // recorded in the lower factor puts back exactly what the row
        // subtraction removed.
        assert forall|i: int, j: int| 0 <= i < d && 0 <= j < d implies #[trigger] mat_mul_seq(
            l2,
            u2,
            dn,
        )[i][j] == mat_mul_seq(l1, u1, dn)[i][j] by {
            if i <= e {
                lemma_mul_entry_tail(l2, u2, d, e, i, j);
                lemma_mul_entry_tail(l1, u1, d, e, i, j);
                lemma_dot_prefix_congruence(l2[i], column_of(u2, j), l1[i], column_of(u1, j), e);
                assert(l2[i] == l1[i]);
                assert(u2[e] == u1[e]);
            } else {
                lemma_mul_entry_tail(l2, u2, d, e + 1, i, j);
                lemma_mul_entry_tail(l1, u1, d, e, i, j);
                lemma_dot_prefix_congruence(l2[i], column_of(u2, j), l1[i], column_of(u1, j), e);
                let pp = dot_prefix(l1[i], column_of(u1, j), e);
                let w = elim_factor(u1, e, i).mul_spec(u1[e][j]);
                let v = u1[i][j];
                assert(dot_prefix(l2[i], column_of(u2, j), e + 1) == dot_prefix(
                    l2[i],
                    column_of(u2, j),
                    e,
                ).add_spec(l2[i][e].mul_spec(column_of(u2, j)[e])));
                assert(l2[i][e] == elim_factor(u1, e, i));
                assert(column_of(u2, j)[e] == u1[e][j]);
                assert(u2[i][j] == v.sub_spec(w));
                assert(pp.add_spec(w).add_spec(v.sub_spec(w)) == pp.add_spec(
                    w.add_spec(v.sub_spec(w)),
                ));
                assert(w.add_spec(v.sub_spec(w)) == v.sub_spec(w).add_spec(w));
                assert(v.sub_spec(w).add_spec(w) == v);
            }
        }
        assert forall|i: int| 0 <= i < d implies #[trigger] mat_mul_seq(l2, u2, dn)[i]
            =~= mat_mul_seq(p1, a, dn)[i] by {
            assert(forall|j: int|
                0 <= j < d ==> #[trigger] mat_mul_seq(l2, u2, dn)[i][j] == swap_rows_seq(
                    lu,
                    e,
                    mr,
                )[i][j]);
            assert(forall|j: int|
                0 <= j < d ==> #[trigger] mat_mul_seq(p1, a, dn)[i][j] == swap_rows_seq(
                    pa,
                    e,
                    mr,
                )[i][j]);
        }
        assert(mat_mul_seq(p1, a, dn) =~= mat_mul_seq(l2, u2, dn));
    }
}

/// Law: the decomposition reconstructs its input exactly — `p * a == l * u` —
/// for every element type whose arithmetic satisfies [`additive_laws`] and
/// [`multiplicative_identity_laws`]. Exact arithmetic such as the `i64`
/// implementation satisfies them; floating point does not, which is why the
/// equation holds only within rounding error there.
pub proof fn lemma_lu_reconstructs<T: Num + Abs>(a: Seq<Seq<T>>, d: int)
    requires
        additive_laws::<T>(),
        multiplicative_identity_laws::<T>(),
        square_dims(a, d),
    ensures
        mat_mul_seq(lu_seq(a).2, a, d as nat) == mat_mul_seq(lu_seq(a).0, lu_seq(a).1, d as nat),
{
    lemma_lu_prefix_product(a, d, d);
}

/// The full inverse, when it exists: with `p * a == l * u` from the
/// decomposition, the inverse is `u⁻¹ * l⁻¹ * p`; there is none exactly when
/// a triangular inversion fails on a diagonal entry.
pub open spec fn inv_seq<T: Num + Abs>(a: Seq<Seq<T>>) -> Option<Seq<Seq<T>>> {
    let lup = lu_seq(a);
    let dd = a.len() as int;
    if (exists|i: int| 0 <= i < dd && lup.0[i][i] != T::one_spec()) || (exists|i: int|
        0 <= i < dd && lup.1[i][i] == T::zero_spec()) {
        None
    } else {
        let li = lower_inv_prefix(lup.0, dd).1;
        let ui = upper_inv_prefix(lup.1, dd).1;
        Some(mat_mul_seq(mat_mul_seq(ui, li, a.len()), lup.2, a.len()))
    }
}

/// One round of upper-triangular back-substitution at diagonal `i`: the
/// accumulator row `i` is scaled by the reciprocal of the pivot from column
/// `i` on, the working diagonal entry is scaled, and every row above `i` has
/// its column-`i` contribution eliminated, mirrored into the accumulator.
pub open spec fn upper_inv_step<T: Num>(u: Seq<Seq<T>>, w: Seq<Seq<T>>, i: int) -> (
    Seq<Seq<T>>,
    Seq<Seq<T>>,
) {
    let coeff = T::one_spec().div_spec(u[i][i]);
    let w1 = w.update(
        i,
        Seq::new(w[i].len(), |c: int| if c >= i {
            w[i][c].mul_spec(coeff)
        } else {
            w[i][c]
        }),
    );
    let u1 = Seq::new(u.len(), |r: int| if r == i {
        u[i].update(i, u[i][i].mul_spec(coeff))
    } else if r < i {
        u[r].update(i, T::zero_spec())
    } else {
        u[r]
    });
    let w2 = Seq::new(w1.len(), |r: int| if r < i {
        Seq::new(w1[r].len(), |c: int| if c >= i {
            w1[r][c].add_spec(u[r][i].neg_spec().mul_spec(w1[i][c]))
        } else {
            w1[r][c]
        })
    } else {
        w1[r]
    });
    (u1, w2)
}

/// The working matrix and accumulator after the first `k` rounds of
/// back-substitution, which walk the diagonal from the bottom up.
pub open spec fn upper_inv_prefix<T: Num>(u0: Seq<Seq<T>>, k: int) -> (Seq<Seq<T>>, Seq<Seq<T>>)
    decreases k,
{
    if k <= 0 {
        (u0, eye_seq(u0.len()))
    } else {
        let prev = upper_inv_prefix(u0, k - 1);
        upper_inv_step(prev.0, prev.1, u0.len() - k)
    }
}

/// One round of forward elimination at diagonal `i` of a unit
/// lower-triangular matrix: every row below `i` has its column-`i` entry
/// cleared, and the elimination is mirrored into columns `0..=i` of the
/// accumulator.
pub open spec fn lower_inv_step<T: Num>(l: Seq<Seq<T>>, w: Seq<Seq<T>>, i: int) -> (
    Seq<Seq<T>>,
    Seq<Seq<T>>,
) {
    let l1 = Seq::new(l.len(), |r: int| if r > i {
        l[r].update(i, T::zero_spec())
    } else {
        l[r]
    });
    let w1 = Seq::new(w.len(), |r: int| if r > i {
        Seq::new(w[r].len(), |c: int| if c <= i {
            w[r][c].add_spec(l[r][i].neg_spec().mul_spec(w[i][c]))
        } else {
            w[r][c]
        })
    } else {
        w[r]
    });
    (l1, w1)
}

/// The working matrix and accumulator after the first `k` rounds of forward
/// elimination, which walk the diagonal from the top down.
pub open spec fn lower_inv_prefix<T: Num>(l0: Seq<Seq<T>>, k: int) -> (Seq<Seq<T>>, Seq<Seq<T>>)
    decreases k,
{
    if k <= 0 {
        (l0, eye_seq(l0.len()))
    } else {
        let prev = lower_inv_prefix(l0, k - 1);
        lower_inv_step(prev.0, prev.1, k - 1)
    }
}

impl<const D: usize, T: Num + Abs> Matrix<D, D, T> {
    /// Finds the row index at or below `diag` with the largest magnitude in
    /// column `diag`, keeping the lowest index on ties.
    fn find_max_row(u: &Matrix<D, D, T>, diag: usize) -> (r: usize)
        requires
            u.wf(),
            diag < D,
        ensures
            diag <= r < D,
            r as int == pivot_row(u@, diag as int),
    {
        proof {
            u.lemma_dims();
        }
        let mut max_row = diag;
        for k in diag..D
            invariant
                u.wf(),
                u@.len() == D as int,
                diag <= max_row < D,
                diag <= k <= D,
                pivot_row(u@, diag as int) == pivot_row_from(
                    u@,
                    diag as int,
                    k as int,
                    max_row as int,
                ),
        {
            if (*u.index(max_row, diag)).abs().lt((*u.index(k, diag)).abs()) {
                max_row = k;
            }
        }
        max_row
    }

    /// Swaps rows `diag` and `max_row` fully in `p` and `u`, and only the
    /// already populated entries, in columns before `diag`, in `l`.
    fn partial_pivot(
        p: &mut Matrix<D, D, T>,
        l: &mut Matrix<D, D, T>,
        u: &mut Matrix<D, D, T>,
        diag: usize,
        max_row: usize,
    )
        requires
            old(p).wf(),
            old(l).wf(),
            old(u).wf(),
            diag <= max_row < D,
        ensures
            final(p).wf(),
            final(l).wf(),
            final(u).wf(),
            final(p)@ == swap_rows_seq(old(p)@, diag as int, max_row as int),
            final(u)@ == swap_rows_seq(old(u)@, diag as int, max_row as int),
            final(l)@ == swap_prefix_seq(old(l)@, diag as int, max_row as int, diag as int),
    {
        p.swap_rows(diag, max_row);
        u.swap_rows(diag, max_row);
        let ghost l0 = l@;
        proof {
            l.lemma_dims();
        }
        for c in 0..diag
            invariant
                diag <= max_row < D,
                l.wf(),
                forall|i: int, j: int|
                    0 <= i < D && 0 <= j < D ==> #[trigger] l@[i][j] == (if i == diag && j < c {
                        l0[max_row as int][j]
                    } else if i == max_row && j < c {
                        l0[diag as int][j]
                    } else {
                        l0[i][j]
                    }),
        {
            proof {
                l.lemma_dims();
            }
            let a = *l.index(diag, c);
            let b = *l.index(max_row, c);
            l.set(diag, c, b);
            proof {
                l.lemma_dims();
            }
            l.set(max_row, c, a);
        }
        proof {
            let target = swap_prefix_seq(l0, diag as int, max_row as int, diag as int);
            l.lemma_dims();
            assert forall|i: int| 0 <= i < D implies #[trigger] l@[i] =~= target[i] by {
                assert(forall|j: int| 0 <= j < D ==> l@[i][j] == target[i][j]);
            }
            assert(l@ =~= target);
        }
    }

    /// One step of Gaussian elimination at diagonal `diag`: records the
    /// multiplier of each lower row in `l` and subtracts the multiple of row
    /// `diag` from it in `u`.
    fn gauss_eliminate(l: &mut Matrix<D, D, T>, u: &mut Matrix<D, D, T>, diag: usize)
        requires
            old(l).wf(),
            old(u).wf(),
            diag < D,
        ensures
            final(l).wf(),
            final(u).wf(),
            final(l)@ == eliminate_l_seq(old(l)@, old(u)@, diag as int),
            final(u)@ == eliminate_u_seq(old(u)@, diag as int),
    {
        let ghost l0 = l@;
        let ghost u0 = u@;
        proof {
            l.lemma_dims();
            u.lemma_dims();
        }
        let d = diag;
        for r in (d + 1)..D
            invariant
                d < D,
                l.wf(),
                u.wf(),
                forall|i: int, j: int|
                    0 <= i < D && 0 <= j < D ==> #[trigger] l@[i][j] == (if j == d && d < i < r {
                        elim_factor(u0, d as int, i)
                    } else {
                        l0[i][j]
                    }),
                forall|i: int, j: int|
                    0 <= i < D && 0 <= j < D ==> #[trigger] u@[i][j] == (if d < i < r {
                        u0[i][j].sub_spec(elim_factor(u0, d as int, i).mul_spec(u0[d as int][j]))
                    } else {
                        u0[i][j]
                    }),
        {
            proof {
                l.lemma_dims();
                u.lemma_dims();
            }
            let f = (*u.index(r, d)).div(*u.index(d, d));
            l.set(r, d, f);
            for c in 0..D
                invariant
                    d < D,
                    d < r < D,
                    l.wf(),
                    u.wf(),
                    f == elim_factor(u0, d as int, r as int),
                    forall|j: int|
                        0 <= j < D ==> #[trigger] u@[r as int][j] == (if j < c {
                            u0[r as int][j].sub_spec(f.mul_spec(u0[d as int][j]))
                        } else {
                            u0[r as int][j]
                        }),
                    forall|i: int, j: int|
                        0 <= i < D && 0 <= j < D && i != r ==> #[trigger] u@[i][j] == (if d < i
                            < r {
                            u0[i][j].sub_spec(
                                elim_factor(u0, d as int, i).mul_spec(u0[d as int][j]),
                            )
                        } else {
                            u0[i][j]
                        }),
                    forall|i: int, j: int|
                        0 <= i < D && 0 <= j < D ==> #[trigger] l@[i][j] == (if j == d && d < i < r
                            + 1 {
                            elim_factor(u0, d as int, i)
                        } else {
                            l0[i][j]
                        }),
            {
                proof {
                    u.lemma_dims();
                }
                let v = (*u.index(r, c)).sub(f.mul(*u.index(d, c)));
                u.set(r, c, v);
            }
        }
        proof {
            let lt = eliminate_l_seq(l0, u0, d as int);
            let ut = eliminate_u_seq(u0, d as int);
            l.lemma_dims();
            u.lemma_dims();
            assert forall|i: int| 0 <= i < D implies #[trigger] l@[i] =~= lt[i] by {
                assert(forall|j: int| 0 <= j < D ==> l@[i][j] == lt[i][j]);
            }
            assert(l@ =~= lt);
            assert forall|i: int| 0 <= i < D implies #[trigger] u@[i] =~= ut[i] by {
                assert(forall|j: int| 0 <= j < D ==> u@[i][j] == ut[i][j]);
            }
            assert(u@ =~= ut);
        }
    }

    /// Decomposes the matrix as `(l, u, p)` by Gaussian elimination with
    /// partial pivoting: one pivot search, row swap and elimination round per
    /// diagonal position, exactly as [`lu_seq`] states. The first factor is
    /// unit lower-triangular, the third is a permutation matrix, and whenever
    /// the element type satisfies [`additive_laws`] and
    /// [`multiplicative_identity_laws`], the factors reconstruct the input:
    /// `p * self == l * u`.
    pub fn lu(&self) -> (r: (Matrix<D, D, T>, Matrix<D, D, T>, Matrix<D, D, T>))
        requires
            self.wf(),
        ensures
            r.0.wf(),
            r.1.wf(),
            r.2.wf(),
            (r.0@, r.1@, r.2@) == lu_seq(self@),
            unit_lower_triangular(r.0@),
            is_permutation_matrix(r.2@),
            additive_laws::<T>() && multiplicative_identity_laws::<T>() ==> mat_mul_seq(
                r.2@,
                self@,
                D as nat,
            ) == mat_mul_seq(r.0@, r.1@, D as nat),
    {
        let mut p = Matrix::<D, D, T>::eye();
        let mut l = Matrix::<D, D, T>::eye();
        let mut u = self.duplicate();
        proof {
            self.lemma_dims();
            p.lemma_dims();
            l.lemma_dims();
            assert forall|i: int| 0 <= i < D implies #[trigger] p@[i] =~= eye_seq::<T>(
                D as nat,
            )[i] by {
                assert(forall|j: int| 0 <= j < D ==> p@[i][j] == eye_entry::<T>(i, j));
            }
            assert(p@ =~= eye_seq::<T>(D as nat));
            assert forall|i: int| 0 <= i < D implies #[trigger] l@[i] =~= eye_seq::<T>(
                D as nat,
            )[i] by {
                assert(forall|j: int| 0 <= j < D ==> l@[i][j] == eye_entry::<T>(i, j));
            }
            assert(l@ =~= eye_seq::<T>(D as nat));
        }
        for d in 0..D
            invariant
                self.wf(),
                p.wf(),
                l.wf(),
                u.wf(),
                self@.len() == D as int,
                (l@, u@, p@) == lu_prefix(self@, d as int),
        {
            proof {
                u.lemma_dims();
            }
            let max_row = Self::find_max_row(&u, d);
            Self::partial_pivot(&mut p, &mut l, &mut u, d, max_row);
            Self::gauss_eliminate(&mut l, &mut u, d);
        }
        proof {
            lemma_lu_prefix_structure(self@, D as int, D as int);
            if additive_laws::<T>() && multiplicative_identity_laws::<T>() {
                lemma_lu_prefix_product(self@, D as int, D as int);
            }
        }
        (l, u, p)
    }

    /// Computes the determinant from the decomposition: the product of both
    /// triangular diagonals, negated for odd dimensions.
    pub fn det(&self) -> (r: T)
        requires
            self.wf(),
        ensures
            r == det_seq(self@),
    {
        let (l, u, _p) = self.lu();
        proof {
            self.lemma_dims();
            l.lemma_dims();
            u.lemma_dims();
        }
        let mut acc = T::one();
        for i in 0..D
            invariant
                l.wf(),
                u.wf(),
                acc == det_prod(l@, u@, i as int),
        {
            acc = acc.mul(*l.index(i, i)).mul(*u.index(i, i));
        }
        if D % 2 != 0 {
            acc = acc.neg();
        }
        acc
    }

    /// Inverts an upper-triangular matrix by back-substitution, consuming `u`
    /// as scratch space. Fails, leaving `u` unchanged, exactly when some
    /// diagonal entry is the additive identity.
    #[verifier::rlimit(60)]
    #[verifier::loop_isolation(false)]
    pub fn invert_upper_triangular(u: &mut Matrix<D, D, T>) -> (r: Option<Matrix<D, D, T>>)
        requires
            old(u).wf(),
        ensures
            final(u).wf(),
            (r is Some) <==> (forall|i: int|
                0 <= i < D ==> #[trigger] old(u)@[i][i] != T::zero_spec()),
            r matches Some(w) ==> {
                &&& final(u)@ == upper_inv_prefix(old(u)@, D as int).0
                &&& w.wf()
                &&& w@ == upper_inv_prefix(old(u)@, D as int).1
            },
            r is None ==> final(u)@ == old(u)@,
    {
        proof {
            u.lemma_dims();
        }
        for i in 0..D
            invariant
                u.wf(),
                u@ == old(u)@,
                forall|k: int| 0 <= k < i ==> #[trigger] u@[k][k] != T::zero_spec(),
        {
            if (*u.index(i, i)).eq_elem(T::zero()) {
                return None;
            }
        }
        let ghost u0 = u@;
        let mut w = Matrix::<D, D, T>::eye();
        proof {
            w.lemma_dims();
            assert forall|i: int| 0 <= i < D implies #[trigger] w@[i] =~= eye_seq::<T>(
                D as nat,
            )[i] by {
                assert(forall|j: int| 0 <= j < D ==> w@[i][j] == eye_entry::<T>(i, j));
            }
            assert(w@ =~= eye_seq::<T>(D as nat));
        }
        for t in 0..D
            invariant
                u.wf(),
                w.wf(),
                (u@, w@) == upper_inv_prefix(u0, t as int),
        {
            let i = D - 1 - t;
            let ghost pu = u@;
            let ghost pw = w@;
            proof {
                u.lemma_dims();
                w.lemma_dims();
            }
            let coeff = T::one().div(*u.index(i, i));
            let uii = *u.index(i, i);
            u.set(i, i, uii.mul(coeff));
            for c in i..D
                invariant
                    w.wf(),
                    forall|rr: int, jj: int|
                        0 <= rr < D && 0 <= jj < D ==> #[trigger] w@[rr][jj] == (if rr == i && i
                            <= jj < c {
                            pw[rr][jj].mul_spec(coeff)
                        } else {
                            pw[rr][jj]
                        }),
            {
                let v = (*w.index(i, c)).mul(coeff);
                w.set(i, c, v);
            }
            let ghost w1 = pw.update(
                i as int,
                Seq::new(pw[i as int].len(), |c: int| if c >= i {
                    pw[i as int][c].mul_spec(coeff)
                } else {
                    pw[i as int][c]
                }),
            );
            proof {
                assert forall|rr: int| 0 <= rr < D implies #[trigger] w@[rr] =~= w1[rr] by {
                    assert(forall|jj: int| 0 <= jj < D ==> w@[rr][jj] == w1[rr][jj]);
                }
                assert(w@ =~= w1);
            }
            for r in 0..i
                invariant
                    u.wf(),
                    w.wf(),
                    forall|rr: int, jj: int|
                        0 <= rr < D && 0 <= jj < D ==> #[trigger] u@[rr][jj] == (if jj == i && rr
                            < r {
                            T::zero_spec()
                        } else if rr == i && jj == i {
                            pu[i as int][i as int].mul_spec(coeff)
                        } else {
                            pu[rr][jj]
                        }),
                    forall|rr: int, jj: int|
                        0 <= rr < D && 0 <= jj < D ==> #[trigger] w@[rr][jj] == (if rr < r && jj
                            >= i {
                            w1[rr][jj].add_spec(pu[rr][i as int].neg_spec().mul_spec(w1[i as int][jj]))
                        } else {
                            w1[rr][jj]
                        }),
            {
                let coeff2 = (*u.index(r, i)).neg();
                u.set(r, i, T::zero());
                for c in i..D
                    invariant
                        u.wf(),
                        w.wf(),
                        r < i,
                        coeff2 == pu[r as int][i as int].neg_spec(),
                        forall|rr: int, jj: int|
                            0 <= rr < D && 0 <= jj < D ==> #[trigger] u@[rr][jj] == (if jj == i
                                && rr < r + 1 {
                                T::zero_spec()
                            } else if rr == i && jj == i {
                                pu[i as int][i as int].mul_spec(coeff)
                            } else {
                                pu[rr][jj]
                            }),
                        forall|rr: int, jj: int|
                            0 <= rr < D && 0 <= jj < D ==> #[trigger] w@[rr][jj] == (if (rr < r
                                && jj >= i) || (rr == r && i <= jj < c) {
                                w1[rr][jj].add_spec(
                                    pu[rr][i as int].neg_spec().mul_spec(w1[i as int][jj]),
                                )
                            } else {
                                w1[rr][jj]
                            }),
                {
                    let v2 = (*w.index(r, c)).add(coeff2.mul(*w.index(i, c)));
                    w.set(r, c, v2);
                }
            }
            proof {
                let st = upper_inv_step(pu, pw, i as int);
                assert forall|rr: int| 0 <= rr < D implies #[trigger] u@[rr] =~= st.0[rr] by {
                    assert(forall|jj: int| 0 <= jj < D ==> u@[rr][jj] == st.0[rr][jj]);
                }
                assert(u@ =~= st.0);
                assert forall|rr: int| 0 <= rr < D implies #[trigger] w@[rr] =~= st.1[rr] by {
                    assert(forall|jj: int| 0 <= jj < D ==> w@[rr][jj] == st.1[rr][jj]);
                }
                assert(w@ =~= st.1);
                assert((u@, w@) == upper_inv_prefix(u0, t as int + 1));
            }
        }
        Some(w)
    }

    /// Inverts a unit lower-triangular matrix by forward elimination,
    /// consuming `l` as scratch space. Fails, leaving `l` unchanged, exactly
    /// when some diagonal entry differs from the multiplicative identity.
    #[verifier::rlimit(60)]
    #[verifier::loop_isolation(false)]
    pub fn invert_lower_triangular(l: &mut Matrix<D, D, T>) -> (r: Option<Matrix<D, D, T>>)
        requires
            old(l).wf(),
        ensures
            final(l).wf(),
            (r is Some) <==> (forall|i: int|
                0 <= i < D ==> #[trigger] old(l)@[i][i] == T::one_spec()),
            r matches Some(w) ==> {
                &&& final(l)@ == lower_inv_prefix(old(l)@, D as int).0
                &&& w.wf()
                &&& w@ == lower_inv_prefix(old(l)@, D as int).1
            },
            r is None ==> final(l)@ == old(l)@,
    {
        proof {
            l.lemma_dims();
        }
        for i in 0..D
            invariant
                l.wf(),
                l@ == old(l)@,
                forall|k: int| 0 <= k < i ==> #[trigger] l@[k][k] == T::one_spec(),
        {
            if !(*l.index(i, i)).eq_elem(T::one()) {
                return None;
            }
        }
        let ghost l0 = l@;
        let mut w = Matrix::<D, D, T>::eye();
        proof {
            w.lemma_dims();
            assert forall|i: int| 0 <= i < D implies #[trigger] w@[i] =~= eye_seq::<T>(
                D as nat,
            )[i] by {
                assert(forall|j: int| 0 <= j < D ==> w@[i][j] == eye_entry::<T>(i, j));
            }
            assert(w@ =~= eye_seq::<T>(D as nat));
        }
        for i in 0..D
            invariant
                l.wf(),
                w.wf(),
                (l@, w@) == lower_inv_prefix(l0, i as int),
        {
            let ghost pl = l@;
            let ghost pw = w@;
            proof {
                l.lemma_dims();
                w.lemma_dims();
            }
            for r in (i + 1)..D
                invariant
                    l.wf(),
                    w.wf(),
                    forall|rr: int, jj: int|
                        0 <= rr < D && 0 <= jj < D ==> #[trigger] l@[rr][jj] == (if jj == i && i
                            < rr < r {
                            T::zero_spec()
                        } else {
                            pl[rr][jj]
                        }),
                    forall|rr: int, jj: int|
                        0 <= rr < D && 0 <= jj < D ==> #[trigger] w@[rr][jj] == (if i < rr < r && jj
                            <= i {
                            pw[rr][jj].add_spec(pl[rr][i as int].neg_spec().mul_spec(pw[i as int][jj]))
                        } else {
                            pw[rr][jj]
                        }),
            {
                let coeff = (*l.index(r, i)).neg();
                l.set(r, i, T::zero());
                for c in 0..(i + 1)
                    invariant
                        l.wf(),
                        w.wf(),
                        i < r < D,
                        coeff == pl[r as int][i as int].neg_spec(),
                        forall|rr: int, jj: int|
                            0 <= rr < D && 0 <= jj < D ==> #[trigger] l@[rr][jj] == (if jj == i
                                && i < rr < r + 1 {
                                T::zero_spec()
                            } else {
                                pl[rr][jj]
                            }),
                        forall|rr: int, jj: int|
                            0 <= rr < D && 0 <= jj < D ==> #[trigger] w@[rr][jj] == (if (i < rr < r
                                && jj <= i) || (rr == r && jj < c) {
                                pw[rr][jj].add_spec(
                                    pl[rr][i as int].neg_spec().mul_spec(pw[i as int][jj]),
                                )
                            } else {
                                pw[rr][jj]
                            }),
                {
                    let v2 = (*w.index(r, c)).add(coeff.mul(*w.index(i, c)));
                    w.set(r, c, v2);
                }
            }
            proof {
                let st = lower_inv_step(pl, pw, i as int);
                assert forall|rr: int| 0 <= rr < D implies #[trigger] l@[rr] =~= st.0[rr] by {
                    assert(forall|jj: int| 0 <= jj < D ==> l@[rr][jj] == st.0[rr][jj]);
                }
                assert(l@ =~= st.0);
                assert forall|rr: int| 0 <= rr < D implies #[trigger] w@[rr] =~= st.1[rr] by {
                    assert(forall|jj: int| 0 <= jj < D ==> w@[rr][jj] == st.1[rr][jj]);
                }
                assert(w@ =~= st.1);
                assert((l@, w@) == lower_inv_prefix(l0, i as int + 1));
            }
        }
        Some(w)
    }

    /// Computes the full inverse: LU decomposition, both triangular
    /// inversions, then two matrix multiplications. Returns `None` exactly
    /// when a triangular inversion hits a bad diagonal entry — the matrix is
    /// singular to exact-zero precision.
    pub fn inv(&self) -> (r: Option<Self>)
        requires
            self.wf(),
        ensures
            (r is Some) <==> (inv_seq(self@) is Some),
            r matches Some(m) ==> m.wf() && Some(m@) == inv_seq(self@),
    {
        proof {
            self.lemma_dims();
        }
        let (l, u, p) = self.lu();
        let mut l = l;
        let mut u = u;
        let l_inv = Self::invert_lower_triangular(&mut l);
        let u_inv = Self::invert_upper_triangular(&mut u);
        match (l_inv, u_inv) {
            (Some(l_inv), Some(u_inv)) => {
                proof {
                    l_inv.lemma_dims();
                    u_inv.lemma_dims();
                }
                Some(u_inv.mul(&l_inv).mul(&p))
            },
            _ => None,
        }
    }
}

} // verus!
