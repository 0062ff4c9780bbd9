//! Dense two-dimensional matrices with row-major flat storage.
//!
//! A `Matrix<T>` owns `rows * cols` scalars in one `Vec`. Every algebra
//! operation writes into a preallocated destination of fixed shape; shapes are
//! preconditions, so a verified caller can never hit a dimension mismatch.
//! The scalar arithmetic is passed in as function values; see `scalar` for
//! the predicates (`bin_ok`, `bin_val`, ...) that the contracts use to pin
//! each cell of the result.

use vstd::prelude::*;

use vstd::arithmetic::div_mod::{
    lemma_fundamental_div_mod, lemma_fundamental_div_mod_converse, lemma_multiply_divide_lt,
    lemma_mod_division_less_than_divisor, lemma_div_pos_is_pos,
};

use crate::scalar::{bin_ok, bin_val, lemma_bin_val, un_ok, un_val, lemma_un_val};

verus! {

/// Dense row-major matrix: cell `(i, j)` lives at `values[i * cols + j]`.
pub struct Matrix<T> {
    pub rows: usize,
    pub cols: usize,
    pub values: Vec<T>,
}

/// The mathematical image of a matrix: its shape and its flat contents.
#[verifier::ext_equal]
pub ghost struct MatModel<T> {
    pub rows: nat,
    pub cols: nat,
    pub vals: Seq<T>,
}

impl<T> MatModel<T> {
    /// The storage really holds one scalar per cell.
    pub open spec fn wf(self) -> bool {
        self.vals.len() == self.rows * self.cols
    }

    /// The scalar in row `i`, column `j`.
    pub open spec fn at(self, i: int, j: int) -> T {
        self.vals[i * self.cols + j]
    }

    /// Row `i` as a sequence of `cols` scalars.
    pub open spec fn row(self, i: int) -> Seq<T> {
        Seq::new(self.cols, |k: int| self.at(i, k))
    }

    /// Column `j` as a sequence of `rows` scalars.
    pub open spec fn col(self, j: int) -> Seq<T> {
        Seq::new(self.rows, |k: int| self.at(k, j))
    }

    /// Same shape.
    pub open spec fn same_dims(self, other: MatModel<T>) -> bool {
        self.rows == other.rows && self.cols == other.cols
    }
}

impl<T> Matrix<T> {
    /// The mathematical value of this matrix.
    pub open spec fn m(self) -> MatModel<T> {
        MatModel { rows: self.rows as nat, cols: self.cols as nat, vals: self.values@ }
    }

    /// The storage invariant, established by the constructors and preserved
    /// by every operation.
    pub open spec fn wf(self) -> bool {
        self.m().wf()
    }
}

/// Within a `rows x cols` matrix the flat index of `(i, j)` is in bounds,
/// and distinct cells have distinct flat indices.
pub proof fn lemma_flat_index(rows: int, cols: int, i: int, j: int)
    by (nonlinear_arith)
    requires
        0 <= i < rows,
        0 <= j < cols,
    ensures
        0 <= i * cols + j < rows * cols,
        forall|i2: int, j2: int|
            0 <= i2 < rows && 0 <= j2 < cols && i * cols + j == #[trigger] (i2 * cols + j2) ==> i2
                == i && j2 == j,
{
}

/// Decompose a flat row-major index `n` of a `rows x cols` matrix into its
/// row `n / cols` and column `n % cols`.
pub proof fn lemma_flat_decompose(rows: int, cols: int, n: int)
    requires
        0 < cols,
        0 <= n < rows * cols,
    ensures
        0 <= n / cols < rows,
        0 <= n % cols < cols,
        n == (n / cols) * cols + (n % cols),
{
    lemma_fundamental_div_mod(n, cols);
    lemma_div_pos_is_pos(n, cols);
    lemma_mod_division_less_than_divisor(n, cols);
    assert((n / cols) * cols == cols * (n / cols)) by (nonlinear_arith);
    assert(n < cols * rows) by (nonlinear_arith)
        requires
            n < rows * cols,
    ;
    lemma_multiply_divide_lt(n, cols, rows);
}

/// The accumulation every product loop performs: starting from `acc`, fold in
/// the products `a[k] * b[k]` for `k` in `0..n`, in ascending order of `k`.
pub open spec fn fold_mul_add<T, FA: Fn(T, T) -> T, FM: Fn(T, T) -> T>(
    addf: FA,
    mulf: FM,
    acc: T,
    a: Seq<T>,
    b: Seq<T>,
    n: int,
) -> T
    decreases n,
{
    if n <= 0 {
        acc
    } else {
        bin_val(
            addf,
            fold_mul_add(addf, mulf, acc, a, b, n - 1),
            bin_val(mulf, a[n - 1], b[n - 1]),
        )
    }
}

/// Cell `(i, j)` of the matrix product `a x b`: the scalar product of row `i`
/// of `a` and column `j` of `b`, accumulated onto `zero`.
pub open spec fn dot_cell<T, FA: Fn(T, T) -> T, FM: Fn(T, T) -> T>(
    a: MatModel<T>,
    b: MatModel<T>,
    addf: FA,
    mulf: FM,
    zero: T,
    i: int,
    j: int,
) -> T {
    fold_mul_add(addf, mulf, zero, a.row(i), b.col(j), a.cols as int)
}

/// The matrix product `a x b`.
pub open spec fn spec_dot<T, FA: Fn(T, T) -> T, FM: Fn(T, T) -> T>(
    a: MatModel<T>,
    b: MatModel<T>,
    addf: FA,
    mulf: FM,
    zero: T,
) -> MatModel<T> {
    MatModel {
        rows: a.rows,
        cols: b.cols,
        vals: Seq::new(
            a.rows * b.cols,
            |n: int| dot_cell(a, b, addf, mulf, zero, n / b.cols as int, n % b.cols as int),
        ),
    }
}

/// Cell `(i, j)` of the product `transpose(a) x b`: the scalar product of
/// column `i` of `a` and column `j` of `b`, accumulated onto `acc`.
pub open spec fn trans_dot_cell<T, FA: Fn(T, T) -> T, FM: Fn(T, T) -> T>(
    a: MatModel<T>,
    b: MatModel<T>,
    addf: FA,
    mulf: FM,
    acc: T,
    i: int,
    j: int,
) -> T {
    fold_mul_add(addf, mulf, acc, a.col(i), b.col(j), a.rows as int)
}

/// The product `transpose(a) x b`, each cell accumulated onto `zero`.
pub open spec fn spec_trans_dot<T, FA: Fn(T, T) -> T, FM: Fn(T, T) -> T>(
    a: MatModel<T>,
    b: MatModel<T>,
    addf: FA,
    mulf: FM,
    zero: T,
) -> MatModel<T> {
    MatModel {
        rows: a.cols,
        cols: b.cols,
        vals: Seq::new(
            a.cols * b.cols,
            |n: int| trans_dot_cell(a, b, addf, mulf, zero, n / b.cols as int, n % b.cols as int),
        ),
    }
}

/// The product `transpose(a) x b` added onto the existing contents `d0`:
/// cell `(i, j)` of the result accumulates onto `d0`'s own cell.
pub open spec fn spec_trans_dot_add<T, FA: Fn(T, T) -> T, FM: Fn(T, T) -> T>(
    a: MatModel<T>,
    b: MatModel<T>,
    d0: MatModel<T>,
    addf: FA,
    mulf: FM,
) -> MatModel<T> {
    MatModel {
        rows: d0.rows,
        cols: d0.cols,
        vals: Seq::new(
            d0.vals.len(),
            |n: int| trans_dot_cell(
                a,
                b,
                addf,
                mulf,
                d0.vals[n],
                n / d0.cols as int,
                n % d0.cols as int,
            ),
        ),
    }
}

/// The matrix product `a x v` of a matrix and a column vector: entry `i` is
/// the scalar product of row `i` of `a` and `v`, accumulated onto `zero`.
pub open spec fn spec_dot_vec<T, FA: Fn(T, T) -> T, FM: Fn(T, T) -> T>(
    a: MatModel<T>,
    v: Seq<T>,
    addf: FA,
    mulf: FM,
    zero: T,
) -> MatModel<T> {
    MatModel {
        rows: a.rows,
        cols: 1,
        vals: Seq::new(a.rows, |i: int| fold_mul_add(addf, mulf, zero, a.row(i), v, a.cols as int)),
    }
}

/// `a` and `b` combined cell by cell with `f`.
pub open spec fn spec_zip_with<T, F: Fn(T, T) -> T>(f: F, a: MatModel<T>, b: MatModel<T>) -> MatModel<T> {
    MatModel {
        rows: a.rows,
        cols: a.cols,
        vals: Seq::new(a.vals.len(), |n: int| bin_val(f, a.vals[n], b.vals[n])),
    }
}

/// `a` combined cell by cell with the same-length vector `v` through `f`,
/// the matrix cell first.
pub open spec fn spec_zip_vec<T, F: Fn(T, T) -> T>(f: F, a: MatModel<T>, v: Seq<T>) -> MatModel<T> {
    MatModel {
        rows: a.rows,
        cols: a.cols,
        vals: Seq::new(a.vals.len(), |n: int| bin_val(f, a.vals[n], v[n])),
    }
}

/// `f` applied to every cell of `a`.
pub open spec fn spec_map_cells<T, F: Fn(T) -> T>(f: F, a: MatModel<T>) -> MatModel<T> {
    MatModel {
        rows: a.rows,
        cols: a.cols,
        vals: Seq::new(a.vals.len(), |n: int| un_val(f, a.vals[n])),
    }
}

/// The outer product of `delta` (one factor per row) and `prev` (one factor
/// per column) added cell by cell onto `a`: cell `(i, j)` becomes
/// `a[i][j] + prev[j] * delta[i]`.
pub open spec fn spec_accumulate_outer<T, FA: Fn(T, T) -> T, FM: Fn(T, T) -> T>(
    a: MatModel<T>,
    prev: Seq<T>,
    delta: Seq<T>,
    addf: FA,
    mulf: FM,
) -> MatModel<T> {
    MatModel {
        rows: a.rows,
        cols: a.cols,
        vals: Seq::new(
            a.vals.len(),
            |n: int| bin_val(
                addf,
                a.vals[n],
                bin_val(mulf, prev[n % a.cols as int], delta[n / a.cols as int]),
            ),
        ),
    }
}

/// Law: `trans_dot` agrees with `dot` on an explicit transpose. If `ta` is
/// the transpose of `a` (cell for cell), then the product that `trans_dot`
/// computes from `a` and `b` is exactly the product that `dot` computes from
/// `ta` and `b`, for every choice of scalar functions.
pub proof fn lemma_trans_dot_is_dot_of_transpose<T, FA: Fn(T, T) -> T, FM: Fn(T, T) -> T>(
    a: MatModel<T>,
    ta: MatModel<T>,
    b: MatModel<T>,
    addf: FA,
    mulf: FM,
    zero: T,
)
    requires
        ta.rows == a.cols,
        ta.cols == a.rows,
        forall|p: int, q: int|
            0 <= p < ta.rows && 0 <= q < ta.cols ==> #[trigger] ta.at(p, q) == a.at(q, p),
    ensures
        spec_trans_dot(a, b, addf, mulf, zero) == spec_dot(ta, b, addf, mulf, zero),
{
    let lhs = spec_trans_dot(a, b, addf, mulf, zero);
    let rhs = spec_dot(ta, b, addf, mulf, zero);
    assert forall|n: int| 0 <= n < lhs.vals.len() implies lhs.vals[n] == rhs.vals[n] by {
        assert(0 < b.cols) by (nonlinear_arith)
            requires
                0 <= n < a.cols * b.cols,
        ;
        lemma_flat_decompose(a.cols as int, b.cols as int, n);
        let i = n / b.cols as int;
        let j = n % b.cols as int;
        assert(ta.row(i) =~= a.col(i));
    }
    assert(lhs =~= rhs);
}

/// Law: accumulating the outer product of `delta` and `prev` onto a matrix
/// whose every cell holds a scalar `zero` that is neutral on the left of
/// the supplied addition yields exactly the outer product: cell `(i, j)`
/// becomes `prev[j] * delta[i]`.
pub proof fn lemma_outer_product_of_zeroed<T, FA: Fn(T, T) -> T, FM: Fn(T, T) -> T>(
    a: MatModel<T>,
    prev: Seq<T>,
    delta: Seq<T>,
    addf: FA,
    mulf: FM,
    zero: T,
)
    requires
        forall|x: T| #[trigger] bin_val(addf, zero, x) == x,
        forall|n: int| 0 <= n < a.vals.len() ==> a.vals[n] == zero,
    ensures
        ({
            let r = spec_accumulate_outer(a, prev, delta, addf, mulf);
            forall|n: int|
                0 <= n < a.vals.len() ==> #[trigger] r.vals[n] == bin_val(
                    mulf,
                    prev[n % a.cols as int],
                    delta[n / a.cols as int],
                )
        }),
{
}

/// A product with a single-column matrix is the product with its flat
/// contents read as a vector.
pub proof fn lemma_dot_of_column<T, FA: Fn(T, T) -> T, FM: Fn(T, T) -> T>(
    a: MatModel<T>,
    b: MatModel<T>,
    addf: FA,
    mulf: FM,
    zero: T,
)
    requires
        b.wf(),
        b.cols == 1,
    ensures
        spec_dot(a, b, addf, mulf, zero) == spec_dot_vec(a, b.vals, addf, mulf, zero),
{
    let lhs = spec_dot(a, b, addf, mulf, zero);
    let rhs = spec_dot_vec(a, b.vals, addf, mulf, zero);
    assert(a.rows * 1 == a.rows) by (nonlinear_arith);
    assert(b.rows * 1 == b.rows) by (nonlinear_arith);
    assert forall|n: int| 0 <= n < lhs.vals.len() implies lhs.vals[n] == rhs.vals[n] by {
        assert(n * 1 + 0 == n) by (nonlinear_arith);
        lemma_fundamental_div_mod_converse(n, 1, n, 0);
        assert forall|k: int| 0 <= k < b.rows implies b.col(0)[k] == b.vals[k] by {
            assert(k * 1 + 0 == k) by (nonlinear_arith);
        }
        assert(b.col(0) =~= b.vals);
    }
    assert(lhs =~= rhs);
}

impl<T: Copy> Matrix<T> {
    /// Read the scalar in row `i`, column `j`.
    pub fn at(&self, i: usize, j: usize) -> (v: T)
        requires
            self.wf(),
            i < self.rows,
            j < self.cols,
        ensures
            v == self.m().at(i as int, j as int),
    {
        let total = self.values.len();
        proof {
            lemma_flat_index(self.rows as int, self.cols as int, i as int, j as int);
            assert(total == self.rows as int * self.cols as int);
        }
        self.values[i * self.cols + j]
    }

    /// Overwrite the scalar in row `i`, column `j`.
    pub fn set_at(&mut self, i: usize, j: usize, v: T)
        requires
            old(self).wf(),
            i < old(self).rows,
            j < old(self).cols,
        ensures
            final(self).rows == old(self).rows,
            final(self).cols == old(self).cols,
            final(self).wf(),
            final(self).values@ == old(self).values@.update(
                i as int * old(self).cols as int + j as int,
                v,
            ),
            final(self).m().at(i as int, j as int) == v,
            forall|i2: int, j2: int|
                0 <= i2 < old(self).rows && 0 <= j2 < old(self).cols && !(i2 == i as int && j2
                    == j as int) ==> final(self).m().at(i2, j2) == old(self).m().at(i2, j2),
    {
        let total = self.values.len();
        proof {
            lemma_flat_index(self.rows as int, self.cols as int, i as int, j as int);
            assert(total == self.rows as int * self.cols as int);
        }
        self.values[i * self.cols + j] = v;
        proof {
            assert forall|i2: int, j2: int|
                0 <= i2 < self.rows && 0 <= j2 < self.cols && !(i2 == i as int && j2 == j as int)
                implies self.m().at(i2, j2) == old(self).m().at(i2, j2) by {
                lemma_flat_index(self.rows as int, self.cols as int, i2, j2);
                assert(i2 * self.cols as int + j2 != i as int * self.cols as int + j as int);
            }
        }
    }

    /// Create a matrix of shape `(rows, cols)` with every cell set to `fill`.
    ///
    /// The caller chooses the zero of its scalar type as `fill` to get the
    /// zeroed matrix the network code expects.
    pub fn new(rows: usize, cols: usize, fill: T) -> (m: Matrix<T>)
        requires
            rows * cols <= usize::MAX,
        ensures
            m.rows == rows,
            m.cols == cols,
            m.wf(),
            forall|n: int| 0 <= n < m.values@.len() ==> m.values@[n] == fill,
    {
        proof {
            assert(rows * cols >= 0) by (nonlinear_arith);
        }
        let total = rows * cols;
        let mut values: Vec<T> = Vec::new();
        let mut n: usize = 0;
        while n < total
            invariant
                n <= total,
                values@.len() == n,
                forall|k: int| 0 <= k < n ==> values@[k] == fill,
            decreases total - n,
        {
            values.push(fill);
            n += 1;
        }
        Matrix { rows, cols, values }
    }

    /// Create a matrix of shape `(rows, cols)` whose cells are drawn one by
    /// one from `initf`, in row-major order. A caller that wants uniformly
    /// random initial weights passes a closure around its random source;
    /// every cell is then some value that `initf` can return.
    #[verifier::loop_isolation(false)]
    pub fn new_from_init<F: Fn() -> T + Copy>(rows: usize, cols: usize, initf: F) -> (m: Matrix<
        T,
    >)
        requires
            rows * cols <= usize::MAX,
            call_requires(initf, ()),
        ensures
            m.rows == rows,
            m.cols == cols,
            m.wf(),
            forall|n: int|
                0 <= n < m.values@.len() ==> call_ensures(initf, (), #[trigger] m.values@[n]),
    {
        proof {
            assert(rows * cols >= 0) by (nonlinear_arith);
        }
        let total = rows * cols;
        let mut values: Vec<T> = Vec::new();
        let mut n: usize = 0;
        while n < total
            invariant
                n <= total,
                values@.len() == n,
                forall|k: int| 0 <= k < n ==> call_ensures(initf, (), #[trigger] values@[k]),
            decreases total - n,
        {
            let v = initf();
            values.push(v);
            n += 1;
        }
        Matrix { rows, cols, values }
    }

    /// Create the zero-filled destination for `ma.dot(.., mb, ..)`:
    /// shape `(ma.rows, mb.cols)`.
    pub fn new_dot_result(ma: &Self, mb: &Self, fill: T) -> (m: Self)
        requires
            ma.rows * mb.cols <= usize::MAX,
        ensures
            m.rows == ma.rows,
            m.cols == mb.cols,
            m.wf(),
            forall|n: int| 0 <= n < m.values@.len() ==> m.values@[n] == fill,
    {
        Matrix::new(ma.rows, mb.cols, fill)
    }

    /// Standard matrix product `self x mb`, written into `dest`.
    ///
    /// Every destination cell is reset to `zero` before the row-by-column
    /// products are accumulated onto it, so repeated calls on the same
    /// destination are safe.
    #[verifier::loop_isolation(false)]
    pub fn dot<FA: Fn(T, T) -> T + Copy, FM: Fn(T, T) -> T + Copy>(
        &self,
        dest: &mut Matrix<T>,
        mb: &Matrix<T>,
        addf: FA,
        mulf: FM,
        zero: T,
    )
        requires
            self.wf(),
            mb.wf(),
            old(dest).wf(),
            self.cols == mb.rows,
            old(dest).cols == mb.cols,
            old(dest).rows == self.rows,
            self.cols != 0,
            mb.cols != 0,
            self.rows != 0,
            bin_ok(addf),
            bin_ok(mulf),
        ensures
            final(dest).rows == old(dest).rows,
            final(dest).cols == old(dest).cols,
            final(dest).wf(),
            final(dest).m() == spec_dot(self.m(), mb.m(), addf, mulf, zero),
    {
        let ghost target = spec_dot(self.m(), mb.m(), addf, mulf, zero);
        let rows = self.rows;
        let cols = mb.cols;
        let inner = self.cols;
        let mut i: usize = 0;
        while i < rows
            invariant
                i <= rows,
                dest.rows == old(dest).rows,
                dest.cols == old(dest).cols,
                dest.wf(),
                forall|n: int| 0 <= n < i * cols ==> dest.values@[n] == target.vals[n],
            decreases rows - i,
        {
            let mut j: usize = 0;
            while j < cols
                invariant
                    j <= cols,
                    dest.rows == old(dest).rows,
                    dest.cols == old(dest).cols,
                    dest.wf(),
                    forall|n: int| 0 <= n < i * cols + j ==> dest.values@[n] == target.vals[n],
                decreases cols - j,
            {
                let mut acc = zero;
                let mut k: usize = 0;
                while k < inner
                    invariant
                        k <= inner,
                        acc == fold_mul_add(
                            addf,
                            mulf,
                            zero,
                            self.m().row(i as int),
                            mb.m().col(j as int),
                            k as int,
                        ),
                    decreases inner - k,
                {
                    let x = self.at(i, k);
                    let y = mb.at(k, j);
                    let p = mulf(x, y);
                    let a2 = addf(acc, p);
                    proof {
                        lemma_bin_val(mulf, x, y, p);
                        lemma_bin_val(addf, acc, p, a2);
                        assert(self.m().row(i as int)[k as int] == x);
                        assert(mb.m().col(j as int)[k as int] == y);
                    }
                    acc = a2;
                    k += 1;
                }
                proof {
                    lemma_flat_index(rows as int, cols as int, i as int, j as int);
                    lemma_fundamental_div_mod_converse(
                        i as int * cols as int + j as int,
                        cols as int,
                        i as int,
                        j as int,
                    );
                    assert(target.vals[i as int * cols as int + j as int] == acc);
                }
                dest.set_at(i, j, acc);
                j += 1;
            }
            proof {
                assert((i as int + 1) * cols as int == i as int * cols as int + cols as int)
                    by (nonlinear_arith);
            }
            i += 1;
        }
        proof {
            assert(dest.m() =~= target);
        }
    }

    /// The product `transpose(self) x mb`, written into `dest`, without
    /// materializing the transpose. Every destination cell is reset to
    /// `zero` before accumulating.
    #[verifier::loop_isolation(false)]
    pub fn trans_dot<FA: Fn(T, T) -> T + Copy, FM: Fn(T, T) -> T + Copy>(
        &self,
        dest: &mut Matrix<T>,
        mb: &Matrix<T>,
        addf: FA,
        mulf: FM,
        zero: T,
    )
        requires
            self.wf(),
            mb.wf(),
            old(dest).wf(),
            self.rows == mb.rows,
            old(dest).cols == mb.cols,
            old(dest).rows == self.cols,
            self.cols != 0,
            mb.cols != 0,
            self.rows != 0,
            bin_ok(addf),
            bin_ok(mulf),
        ensures
            final(dest).rows == old(dest).rows,
            final(dest).cols == old(dest).cols,
            final(dest).wf(),
            final(dest).m() == spec_trans_dot(self.m(), mb.m(), addf, mulf, zero),
    {
        let ghost target = spec_trans_dot(self.m(), mb.m(), addf, mulf, zero);
        let rows = self.cols;
        let cols = mb.cols;
        let inner = self.rows;
        let mut i: usize = 0;
        while i < rows
            invariant
                i <= rows,
                dest.rows == old(dest).rows,
                dest.cols == old(dest).cols,
                dest.wf(),
                forall|n: int| 0 <= n < i * cols ==> dest.values@[n] == target.vals[n],
            decreases rows - i,
        {
            let mut j: usize = 0;
            while j < cols
                invariant
                    j <= cols,
                    dest.rows == old(dest).rows,
                    dest.cols == old(dest).cols,
                    dest.wf(),
                    forall|n: int| 0 <= n < i * cols + j ==> dest.values@[n] == target.vals[n],
                decreases cols - j,
            {
                let mut acc = zero;
                let mut k: usize = 0;
                while k < inner
                    invariant
                        k <= inner,
                        acc == fold_mul_add(
                            addf,
                            mulf,
                            zero,
                            self.m().col(i as int),
                            mb.m().col(j as int),
                            k as int,
                        ),
                    decreases inner - k,
                {
                    let x = self.at(k, i);
                    let y = mb.at(k, j);
                    let p = mulf(x, y);
                    let a2 = addf(acc, p);
                    proof {
                        lemma_bin_val(mulf, x, y, p);
                        lemma_bin_val(addf, acc, p, a2);
                        assert(self.m().col(i as int)[k as int] == x);
                        assert(mb.m().col(j as int)[k as int] == y);
                    }
                    acc = a2;
                    k += 1;
                }
                proof {
                    lemma_flat_index(rows as int, cols as int, i as int, j as int);
                    lemma_fundamental_div_mod_converse(
                        i as int * cols as int + j as int,
                        cols as int,
                        i as int,
                        j as int,
                    );
                    assert(target.vals[i as int * cols as int + j as int] == acc);
                }
                dest.set_at(i, j, acc);
                j += 1;
            }
            proof {
                assert((i as int + 1) * cols as int == i as int * cols as int + cols as int)
                    by (nonlinear_arith);
            }
            i += 1;
        }
        proof {
            assert(dest.m() =~= target);
        }
    }

    /// The product `transpose(self) x mb`, added onto `dest` without
    /// resetting it first. The caller is responsible for having zeroed (or
    /// deliberately pre-populated) the destination.
    #[verifier::loop_isolation(false)]
    pub fn trans_dot_add<FA: Fn(T, T) -> T + Copy, FM: Fn(T, T) -> T + Copy>(
        &self,
        dest: &mut Matrix<T>,
        mb: &Matrix<T>,
        addf: FA,
        mulf: FM,
    )
        requires
            self.wf(),
            mb.wf(),
            old(dest).wf(),
            self.rows == mb.rows,
            old(dest).cols == mb.cols,
            old(dest).rows == self.cols,
            self.cols != 0,
            mb.cols != 0,
            self.rows != 0,
            bin_ok(addf),
            bin_ok(mulf),
        ensures
            final(dest).rows == old(dest).rows,
            final(dest).cols == old(dest).cols,
            final(dest).wf(),
            final(dest).m() == spec_trans_dot_add(self.m(), mb.m(), old(dest).m(), addf, mulf),
    {
        let ghost target = spec_trans_dot_add(self.m(), mb.m(), old(dest).m(), addf, mulf);
        let rows = self.cols;
        let cols = mb.cols;
        let inner = self.rows;
        let mut i: usize = 0;
        while i < rows
            invariant
                i <= rows,
                dest.rows == old(dest).rows,
                dest.cols == old(dest).cols,
                dest.wf(),
                forall|n: int| 0 <= n < i * cols ==> dest.values@[n] == target.vals[n],
                forall|n: int|
                    i * cols <= n < dest.values@.len() ==> dest.values@[n] == old(
                        dest,
                    ).values@[n],
            decreases rows - i,
        {
            let mut j: usize = 0;
            while j < cols
                invariant
                    j <= cols,
                    dest.rows == old(dest).rows,
                    dest.cols == old(dest).cols,
                    dest.wf(),
                    forall|n: int| 0 <= n < i * cols + j ==> dest.values@[n] == target.vals[n],
                    forall|n: int|
                        i * cols + j <= n < dest.values@.len() ==> dest.values@[n] == old(
                            dest,
                        ).values@[n],
                decreases cols - j,
            {
                proof {
                    lemma_flat_index(rows as int, cols as int, i as int, j as int);
                }
                let mut acc = dest.at(i, j);
                let mut k: usize = 0;
                while k < inner
                    invariant
                        k <= inner,
                        acc == fold_mul_add(
                            addf,
                            mulf,
                            old(dest).m().at(i as int, j as int),
                            self.m().col(i as int),
                            mb.m().col(j as int),
                            k as int,
                        ),
                    decreases inner - k,
                {
                    let x = self.at(k, i);
                    let y = mb.at(k, j);
                    let p = mulf(x, y);
                    let a2 = addf(acc, p);
                    proof {
                        lemma_bin_val(mulf, x, y, p);
                        lemma_bin_val(addf, acc, p, a2);
                        assert(self.m().col(i as int)[k as int] == x);
                        assert(mb.m().col(j as int)[k as int] == y);
                    }
                    acc = a2;
                    k += 1;
                }
                proof {
                    lemma_fundamental_div_mod_converse(
                        i as int * cols as int + j as int,
                        cols as int,
                        i as int,
                        j as int,
                    );
                    assert(target.vals[i as int * cols as int + j as int] == acc);
                }
                dest.set_at(i, j, acc);
                j += 1;
            }
            proof {
                assert((i as int + 1) * cols as int == i as int * cols as int + cols as int)
                    by (nonlinear_arith);
            }
            i += 1;
        }
        proof {
            assert(dest.m() =~= target);
        }
    }

    /// The product of `self` and the column vector `vb`, written into the
    /// single-column matrix `dest`. Every destination cell is reset to
    /// `zero` before accumulating.
    #[verifier::loop_isolation(false)]
    pub fn dot_vec<FA: Fn(T, T) -> T + Copy, FM: Fn(T, T) -> T + Copy>(
        &self,
        dest: &mut Matrix<T>,
        vb: &Vec<T>,
        addf: FA,
        mulf: FM,
        zero: T,
    )
        requires
            self.wf(),
            old(dest).wf(),
            self.cols == vb@.len(),
            old(dest).cols == 1,
            old(dest).rows == self.rows,
            self.cols != 0,
            bin_ok(addf),
            bin_ok(mulf),
        ensures
            final(dest).rows == old(dest).rows,
            final(dest).cols == old(dest).cols,
            final(dest).wf(),
            final(dest).m() == spec_dot_vec(self.m(), vb@, addf, mulf, zero),
    {
        let ghost target = spec_dot_vec(self.m(), vb@, addf, mulf, zero);
        let rows = self.rows;
        let inner = self.cols;
        let mut i: usize = 0;
        while i < rows
            invariant
                i <= rows,
                dest.rows == old(dest).rows,
                dest.cols == old(dest).cols,
                dest.wf(),
                forall|n: int| 0 <= n < i ==> dest.values@[n] == target.vals[n],
            decreases rows - i,
        {
            let mut acc = zero;
            let mut k: usize = 0;
            while k < inner
                invariant
                    k <= inner,
                    acc == fold_mul_add(addf, mulf, zero, self.m().row(i as int), vb@, k as int),
                decreases inner - k,
            {
                let x = self.at(i, k);
                let y = vb[k];
                let p = mulf(x, y);
                let a2 = addf(acc, p);
                proof {
                    lemma_bin_val(mulf, x, y, p);
                    lemma_bin_val(addf, acc, p, a2);
                    assert(self.m().row(i as int)[k as int] == x);
                }
                acc = a2;
                k += 1;
            }
            dest.set_at(i, 0, acc);
            i += 1;
        }
        proof {
            assert(dest.m() =~= target);
        }
    }

    /// Elementwise sum of `self` and `mb`, written into `dest`. All three
    /// shapes must agree.
    #[verifier::loop_isolation(false)]
    pub fn add<FA: Fn(T, T) -> T + Copy>(&self, dest: &mut Matrix<T>, mb: &Matrix<T>, addf: FA)
        requires
            self.wf(),
            mb.wf(),
            old(dest).wf(),
            self.rows == mb.rows,
            self.cols == mb.cols,
            old(dest).rows == self.rows,
            old(dest).cols == self.cols,
            bin_ok(addf),
        ensures
            final(dest).rows == old(dest).rows,
            final(dest).cols == old(dest).cols,
            final(dest).wf(),
            final(dest).m() == spec_zip_with(addf, self.m(), mb.m()),
    {
        let ghost target = spec_zip_with(addf, self.m(), mb.m());
        let total = self.values.len();
        let mut n: usize = 0;
        while n < total
            invariant
                n <= total,
                dest.rows == old(dest).rows,
                dest.cols == old(dest).cols,
                dest.values@.len() == old(dest).values@.len(),
                forall|k: int| 0 <= k < n ==> dest.values@[k] == target.vals[k],
                forall|k: int|
                    n <= k < dest.values@.len() ==> dest.values@[k] == old(dest).values@[k],
            decreases total - n,
        {
            let s = addf(self.values[n], mb.values[n]);
            proof {
                lemma_bin_val(addf, self.values@[n as int], mb.values@[n as int], s);
            }
            dest.values[n] = s;
            n += 1;
        }
        proof {
            assert(dest.m() =~= target);
        }
    }

    /// Elementwise sum of `self` and `mb`, written back into `self`. The two
    /// shapes must agree.
    #[verifier::loop_isolation(false)]
    pub fn add_mut<FA: Fn(T, T) -> T + Copy>(&mut self, mb: &Matrix<T>, addf: FA)
        requires
            old(self).wf(),
            mb.wf(),
            old(self).rows == mb.rows,
            old(self).cols == mb.cols,
            bin_ok(addf),
        ensures
            final(self).rows == old(self).rows,
            final(self).cols == old(self).cols,
            final(self).wf(),
            final(self).m() == spec_zip_with(addf, old(self).m(), mb.m()),
    {
        let ghost target = spec_zip_with(addf, old(self).m(), mb.m());
        let total = self.values.len();
        let mut n: usize = 0;
        while n < total
            invariant
                n <= total,
                self.rows == old(self).rows,
                self.cols == old(self).cols,
                self.values@.len() == old(self).values@.len(),
                forall|k: int| 0 <= k < n ==> self.values@[k] == target.vals[k],
                forall|k: int|
                    n <= k < self.values@.len() ==> self.values@[k] == old(self).values@[k],
            decreases total - n,
        {
            let s = addf(self.values[n], mb.values[n]);
            proof {
                lemma_bin_val(addf, self.values@[n as int], mb.values@[n as int], s);
            }
            self.values[n] = s;
            n += 1;
        }
        proof {
            assert(self.m() =~= target);
        }
    }

    /// Hadamard (elementwise) product: multiply `self` cell by cell with
    /// `mb`, writing the result back into `self`. The two shapes must agree.
    #[verifier::loop_isolation(false)]
    pub fn multiply_by_mut<FM: Fn(T, T) -> T + Copy>(&mut self, mb: &Matrix<T>, mulf: FM)
        requires
            old(self).wf(),
            mb.wf(),
            old(self).rows == mb.rows,
            old(self).cols == mb.cols,
            bin_ok(mulf),
        ensures
            final(self).rows == old(self).rows,
            final(self).cols == old(self).cols,
            final(self).wf(),
            final(self).m() == spec_zip_with(mulf, old(self).m(), mb.m()),
    {
        let ghost target = spec_zip_with(mulf, old(self).m(), mb.m());
        let total = self.values.len();
        let mut n: usize = 0;
        while n < total
            invariant
                n <= total,
                self.rows == old(self).rows,
                self.cols == old(self).cols,
                self.values@.len() == old(self).values@.len(),
                forall|k: int| 0 <= k < n ==> self.values@[k] == target.vals[k],
                forall|k: int|
                    n <= k < self.values@.len() ==> self.values@[k] == old(self).values@[k],
            decreases total - n,
        {
            let s = mulf(self.values[n], mb.values[n]);
            proof {
                lemma_bin_val(mulf, self.values@[n as int], mb.values@[n as int], s);
            }
            self.values[n] = s;
            n += 1;
        }
        proof {
            assert(self.m() =~= target);
        }
    }

    /// Apply `f` to every cell of `self`, in place.
    #[verifier::loop_isolation(false)]
    pub fn apply_mut<F: Fn(T) -> T + Copy>(&mut self, f: F)
        requires
            old(self).wf(),
            un_ok(f),
        ensures
            final(self).rows == old(self).rows,
            final(self).cols == old(self).cols,
            final(self).wf(),
            final(self).m() == spec_map_cells(f, old(self).m()),
            forall|k: int|
                0 <= k < old(self).values@.len() ==> call_ensures(
                    f,
                    (old(self).values@[k],),
                    #[trigger] final(self).values@[k],
                ),
    {
        let ghost target = spec_map_cells(f, old(self).m());
        let total = self.values.len();
        let mut n: usize = 0;
        while n < total
            invariant
                n <= total,
                self.rows == old(self).rows,
                self.cols == old(self).cols,
                self.values@.len() == old(self).values@.len(),
                forall|k: int| 0 <= k < n ==> self.values@[k] == target.vals[k],
                forall|k: int|
                    0 <= k < n ==> call_ensures(
                        f,
                        (old(self).values@[k],),
                        #[trigger] self.values@[k],
                    ),
                forall|k: int|
                    n <= k < self.values@.len() ==> self.values@[k] == old(self).values@[k],
            decreases total - n,
        {
            let s = f(self.values[n]);
            proof {
                lemma_un_val(f, self.values@[n as int], s);
            }
            self.values[n] = s;
            n += 1;
        }
        proof {
            assert(self.m() =~= target);
        }
    }

    /// Fold the same-length vector `target_vec` into `self` cell by cell with
    /// `f`, the matrix cell as `f`'s first argument. The network uses this to
    /// apply a cost derivative against the expected output, in place.
    #[verifier::loop_isolation(false)]
    pub fn cost_derivative_mut<F: Fn(T, T) -> T + Copy>(&mut self, target_vec: &Vec<T>, f: F)
        requires
            old(self).wf(),
            target_vec@.len() == old(self).values@.len(),
            bin_ok(f),
        ensures
            final(self).rows == old(self).rows,
            final(self).cols == old(self).cols,
            final(self).wf(),
            final(self).m() == spec_zip_vec(f, old(self).m(), target_vec@),
            forall|k: int|
                0 <= k < old(self).values@.len() ==> call_ensures(
                    f,
                    (old(self).values@[k], target_vec@[k]),
                    #[trigger] final(self).values@[k],
                ),
    {
        let ghost target = spec_zip_vec(f, old(self).m(), target_vec@);
        let total = self.values.len();
        let mut n: usize = 0;
        while n < total
            invariant
                n <= total,
                self.rows == old(self).rows,
                self.cols == old(self).cols,
                self.values@.len() == old(self).values@.len(),
                forall|k: int| 0 <= k < n ==> self.values@[k] == target.vals[k],
                forall|k: int|
                    0 <= k < n ==> call_ensures(
                        f,
                        (old(self).values@[k], target_vec@[k]),
                        #[trigger] self.values@[k],
                    ),
                forall|k: int|
                    n <= k < self.values@.len() ==> self.values@[k] == old(self).values@[k],
            decreases total - n,
        {
            let s = f(self.values[n], target_vec[n]);
            proof {
                lemma_bin_val(f, self.values@[n as int], target_vec@[n as int], s);
            }
            self.values[n] = s;
            n += 1;
        }
        proof {
            assert(self.m() =~= target);
        }
    }

    /// Apply `f` to every cell of `self` and store the images in the first
    /// cells of `dest`, whose storage must be at least as large; cells of
    /// `dest` beyond `self`'s size keep their old contents.
    #[verifier::loop_isolation(false)]
    pub fn apply_to<F: Fn(T) -> T + Copy>(&self, dest: &mut Matrix<T>, f: F)
        requires
            self.wf(),
            old(dest).values@.len() >= self.values@.len(),
            un_ok(f),
        ensures
            final(dest).rows == old(dest).rows,
            final(dest).cols == old(dest).cols,
            final(dest).values@.len() == old(dest).values@.len(),
            forall|k: int|
                0 <= k < self.values@.len() ==> final(dest).values@[k] == un_val(
                    f,
                    self.values@[k],
                ),
            forall|k: int|
                0 <= k < self.values@.len() ==> call_ensures(
                    f,
                    (self.values@[k],),
                    #[trigger] final(dest).values@[k],
                ),
            forall|k: int|
                self.values@.len() <= k < final(dest).values@.len() ==> final(dest).values@[k]
                    == old(dest).values@[k],
    {
        let total = self.values.len();
        let mut n: usize = 0;
        while n < total
            invariant
                n <= total,
                dest.rows == old(dest).rows,
                dest.cols == old(dest).cols,
                dest.values@.len() == old(dest).values@.len(),
                forall|k: int| 0 <= k < n ==> dest.values@[k] == un_val(f, self.values@[k]),
                forall|k: int|
                    0 <= k < n ==> call_ensures(
                        f,
                        (self.values@[k],),
                        #[trigger] dest.values@[k],
                    ),
                forall|k: int|
                    n <= k < dest.values@.len() ==> dest.values@[k] == old(dest).values@[k],
            decreases total - n,
        {
            let s = f(self.values[n]);
            proof {
                lemma_un_val(f, self.values@[n as int], s);
            }
            dest.values[n] = s;
            n += 1;
        }
    }

    /// Apply `f` to the whole flat storage of an immutable matrix and hand
    /// its result back, e.g. to read an output vector out of a buffer.
    pub fn apply<U, F: Fn(&Vec<T>) -> U>(&self, f: F) -> (r: U)
        requires
            call_requires(f, (&self.values,)),
        ensures
            call_ensures(f, (&self.values,), r),
    {
        f(&self.values)
    }

    /// A cell-for-cell copy of this matrix.
    #[verifier::loop_isolation(false)]
    pub fn duplicate(&self) -> (r: Matrix<T>)
        ensures
            r.rows == self.rows,
            r.cols == self.cols,
            r.values@ == self.values@,
    {
        let total = self.values.len();
        let mut values: Vec<T> = Vec::new();
        let mut n: usize = 0;
        while n < total
            invariant
                n <= total,
                values@.len() == n,
                forall|k: int| 0 <= k < n ==> values@[k] == self.values@[k],
            decreases total - n,
        {
            values.push(self.values[n]);
            n += 1;
        }
        proof {
            assert(values@ =~= self.values@);
        }
        Matrix { rows: self.rows, cols: self.cols, values }
    }

    /// Copy every cell of `mb` into `self`. The two shapes must agree.
    #[verifier::loop_isolation(false)]
    pub fn copy_mut(&mut self, mb: &Matrix<T>)
        requires
            old(self).wf(),
            mb.wf(),
            old(self).rows == mb.rows,
            old(self).cols == mb.cols,
        ensures
            final(self).rows == old(self).rows,
            final(self).cols == old(self).cols,
            final(self).wf(),
            final(self).values@ == mb.values@,
    {
        let total = self.values.len();
        let mut n: usize = 0;
        while n < total
            invariant
                n <= total,
                self.rows == old(self).rows,
                self.cols == old(self).cols,
                self.values@.len() == old(self).values@.len(),
                forall|k: int| 0 <= k < n ==> self.values@[k] == mb.values@[k],
            decreases total - n,
        {
            let s = mb.values[n];
            self.values[n] = s;
            n += 1;
        }
        proof {
            assert(self.values@ =~= mb.values@);
        }
    }

    /// Accumulate the outer product of `delta_vec` and `prev_activation`
    /// onto `self`: cell `(i, j)` gains `prev_activation[j] * delta_vec[i]`.
    /// The network uses this to build a weight gradient from a layer's error
    /// vector and its predecessor's activations.
    #[verifier::loop_isolation(false)]
    pub fn matrix_weight_compute<FA: Fn(T, T) -> T + Copy, FM: Fn(T, T) -> T + Copy>(
        &mut self,
        prev_activation: &Vec<T>,
        delta_vec: &Vec<T>,
        addf: FA,
        mulf: FM,
    )
        requires
            old(self).wf(),
            prev_activation@.len() != 0,
            delta_vec@.len() != 0,
            old(self).cols == prev_activation@.len(),
            old(self).rows == delta_vec@.len(),
            bin_ok(addf),
            bin_ok(mulf),
        ensures
            final(self).rows == old(self).rows,
            final(self).cols == old(self).cols,
            final(self).wf(),
            final(self).m() == spec_accumulate_outer(
                old(self).m(),
                prev_activation@,
                delta_vec@,
                addf,
                mulf,
            ),
    {
        let ghost target = spec_accumulate_outer(
            old(self).m(),
            prev_activation@,
            delta_vec@,
            addf,
            mulf,
        );
        let rows = self.rows;
        let cols = self.cols;
        let mut i: usize = 0;
        while i < rows
            invariant
                i <= rows,
                self.rows == old(self).rows,
                self.cols == old(self).cols,
                self.wf(),
                forall|n: int| 0 <= n < i * cols ==> self.values@[n] == target.vals[n],
                forall|n: int|
                    i * cols <= n < self.values@.len() ==> self.values@[n] == old(
                        self,
                    ).values@[n],
            decreases rows - i,
        {
            let mut j: usize = 0;
            while j < cols
                invariant
                    j <= cols,
                    self.rows == old(self).rows,
                    self.cols == old(self).cols,
                    self.wf(),
                    forall|n: int| 0 <= n < i * cols + j ==> self.values@[n] == target.vals[n],
                    forall|n: int|
                        i * cols + j <= n < self.values@.len() ==> self.values@[n] == old(
                            self,
                        ).values@[n],
                decreases cols - j,
            {
                proof {
                    lemma_flat_index(rows as int, cols as int, i as int, j as int);
                }
                let cur = self.at(i, j);
                let p = mulf(prev_activation[j], delta_vec[i]);
                let s = addf(cur, p);
                proof {
                    lemma_bin_val(mulf, prev_activation@[j as int], delta_vec@[i as int], p);
                    lemma_bin_val(addf, cur, p, s);
                    lemma_fundamental_div_mod_converse(
                        i as int * cols as int + j as int,
                        cols as int,
                        i as int,
                        j as int,
                    );
                    assert(target.vals[i as int * cols as int + j as int] == s);
                }
                self.set_at(i, j, s);
                j += 1;
            }
            proof {
                assert((i as int + 1) * cols as int == i as int * cols as int + cols as int)
                    by (nonlinear_arith);
            }
            i += 1;
        }
        proof {
            assert(self.m() =~= target);
        }
    }

    /// Reset every cell to `fill` (the caller's zero), keeping the shape.
    pub fn zero(&mut self, fill: T)
        requires
            old(self).wf(),
        ensures
            final(self).rows == old(self).rows,
            final(self).cols == old(self).cols,
            final(self).wf(),
            forall|n: int| 0 <= n < final(self).values@.len() ==> final(self).values@[n] == fill,
    {
        let total = self.values.len();
        let mut n: usize = 0;
        while n < total
            invariant
                n <= total,
                self.values@.len() == total,
                self.rows == old(self).rows,
                self.cols == old(self).cols,
                forall|k: int| 0 <= k < n ==> self.values@[k] == fill,
            decreases total - n,
        {
            self.values[n] = fill;
            n += 1;
        }
    }
}

} // verus!
