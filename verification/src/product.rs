//! Gustavson's row-wise sparse product with a dense output buffer, and the
//! spec-level forms of the product entry that every engine variant meets.

use vstd::prelude::*;

use crate::csr::CSR;
use crate::dense::Dense;
use crate::error::MatError;
use crate::laws::lemma_prod_ent_is_mat_mul;
use crate::sums::{
    filtered_abs_sum, filtered_sum, int_abs, lemma_filtered_abs_sum_mono,
    lemma_filtered_abs_sum_nonneg, lemma_filtered_sum_abs_bound,
};

verus! {

/// Gustavson partial accumulation for output column `j`: over positions `p`
/// in `[lo, hi)` of `a`'s entry list, the value
/// `a.values[p] * b.ent(a.col_pos[p], j)`.
pub open spec fn gus_sum(a: CSR, b: CSR, j: int, lo: int, hi: int) -> int
    decreases hi - lo,
{
    if hi <= lo {
        0
    } else {
        gus_sum(a, b, j, lo, hi - 1) + a.values@[hi - 1] as int * b.ent(
            a.col_pos@[hi - 1] as int,
            j,
        )
    }
}

/// The matching absolute bound: `|a.values[p]| * b.abs_ent(...)` summed.
pub open spec fn gus_abs_sum(a: CSR, b: CSR, j: int, lo: int, hi: int) -> int
    decreases hi - lo,
{
    if hi <= lo {
        0
    } else {
        gus_abs_sum(a, b, j, lo, hi - 1) + int_abs(a.values@[hi - 1] as int) * b.abs_ent(
            a.col_pos@[hi - 1] as int,
            j,
        )
    }
}

/// The product's entry at `(i, j)`, stated over `a`'s row slice.
pub open spec fn prod_ent(a: CSR, b: CSR, i: int, j: int) -> int {
    gus_sum(a, b, j, a.row_lo(i), a.row_hi(i))
}

/// Bound on every partial accumulation that can arise at `(i, j)`.
pub open spec fn prod_abs_ent(a: CSR, b: CSR, i: int, j: int) -> int {
    gus_abs_sum(a, b, j, a.row_lo(i), a.row_hi(i))
}

/// Every partial accumulation of the product stays within `i64`.
pub open spec fn prod_fits(a: CSR, b: CSR) -> bool {
    forall|i: int, j: int|
        0 <= i < a.shape.0 && 0 <= j < b.shape.1 ==> #[trigger] prod_abs_ent(a, b, i, j)
            <= i64::MAX
}

/// Entry `(i, j)` of the mathematical matrix product, summed over the inner
/// dimension up to `kk`.
pub open spec fn mat_mul_partial(a: CSR, b: CSR, i: int, j: int, kk: int) -> int
    decreases kk,
{
    if kk <= 0 {
        0
    } else {
        mat_mul_partial(a, b, i, j, kk - 1) + a.ent(i, kk - 1) * b.ent(kk - 1, j)
    }
}

/// Entry `(i, j)` of the mathematical matrix product `a * b`.
pub open spec fn mat_mul_ent(a: CSR, b: CSR, i: int, j: int) -> int {
    mat_mul_partial(a, b, i, j, a.shape.1 as int)
}

/// `x * y` lies within the product of bounds on `|x|` and `|y|`.
pub proof fn lemma_mul_abs_range(x: int, y: int, xb: int, yb: int)
    requires
        -xb <= x <= xb,
        -yb <= y <= yb,
        0 <= xb,
        0 <= yb,
    ensures
        -(xb * yb) <= x * y <= xb * yb,
{
    assert(-(xb * yb) <= x * y <= xb * yb) by (nonlinear_arith)
        requires
            -xb <= x <= xb,
            -yb <= y <= yb,
            0 <= xb,
            0 <= yb,
    ;
}

pub proof fn lemma_gus_abs_sum_nonneg(a: CSR, b: CSR, j: int, lo: int, hi: int)
    ensures
        gus_abs_sum(a, b, j, lo, hi) >= 0,
    decreases hi - lo,
{
    if hi > lo {
        lemma_gus_abs_sum_nonneg(a, b, j, lo, hi - 1);
        let k = a.col_pos@[hi - 1] as int;
        let av = int_abs(a.values@[hi - 1] as int);
        let bae = b.abs_ent(k, j);
        lemma_filtered_abs_sum_nonneg(b.col_pos@, b.values@, j, b.row_lo(k), b.row_hi(k));
        assert(av * bae >= 0) by (nonlinear_arith)
            requires
                av >= 0,
                bae >= 0,
        ;
    }
}

pub proof fn lemma_gus_abs_sum_mono(a: CSR, b: CSR, j: int, lo: int, h1: int, h2: int)
    requires
        h1 <= h2,
    ensures
        gus_abs_sum(a, b, j, lo, h1) <= gus_abs_sum(a, b, j, lo, h2),
    decreases h2 - h1,
{
    if h1 < h2 {
        lemma_gus_abs_sum_mono(a, b, j, lo, h1, h2 - 1);
        let k = a.col_pos@[h2 - 1] as int;
        let av = int_abs(a.values@[h2 - 1] as int);
        let bae = b.abs_ent(k, j);
        lemma_filtered_abs_sum_nonneg(b.col_pos@, b.values@, j, b.row_lo(k), b.row_hi(k));
        assert(av * bae >= 0) by (nonlinear_arith)
            requires
                av >= 0,
                bae >= 0,
        ;
    }
}

pub proof fn lemma_gus_sum_abs_bound(a: CSR, b: CSR, j: int, lo: int, hi: int)
    ensures
        int_abs(gus_sum(a, b, j, lo, hi)) <= gus_abs_sum(a, b, j, lo, hi),
    decreases hi - lo,
{
    if hi > lo {
        lemma_gus_sum_abs_bound(a, b, j, lo, hi - 1);
        let k = a.col_pos@[hi - 1] as int;
        let av = a.values@[hi - 1] as int;
        lemma_filtered_sum_abs_bound(b.col_pos@, b.values@, j, b.row_lo(k), b.row_hi(k));
        lemma_filtered_abs_sum_nonneg(b.col_pos@, b.values@, j, b.row_lo(k), b.row_hi(k));
        lemma_mul_abs_range(av, b.ent(k, j), int_abs(av), b.abs_ent(k, j));
    }
}

/// A mid-row partial accumulation is bounded by the absolute sum that
/// includes the entry being traversed.
pub proof fn lemma_inner_partial_bound(a: CSR, b: CSR, j: int, lo: int, p: int, q: int)
    requires
        lo <= p,
        0 <= p < a.col_pos@.len(),
        b.row_lo(a.col_pos@[p] as int) <= q <= b.row_hi(a.col_pos@[p] as int),
    ensures
        int_abs(
            gus_sum(a, b, j, lo, p) + a.values@[p] as int * filtered_sum(
                b.col_pos@,
                b.values@,
                j,
                b.row_lo(a.col_pos@[p] as int),
                q,
            ),
        ) <= gus_abs_sum(a, b, j, lo, p + 1),
{
    let k = a.col_pos@[p] as int;
    let av = a.values@[p] as int;
    let fs = filtered_sum(b.col_pos@, b.values@, j, b.row_lo(k), q);
    lemma_gus_sum_abs_bound(a, b, j, lo, p);
    lemma_filtered_sum_abs_bound(b.col_pos@, b.values@, j, b.row_lo(k), q);
    lemma_filtered_abs_sum_nonneg(b.col_pos@, b.values@, j, b.row_lo(k), q);
    lemma_filtered_abs_sum_mono(b.col_pos@, b.values@, j, b.row_lo(k), q, b.row_hi(k));
    lemma_mul_abs_range(av, fs, int_abs(av), b.abs_ent(k, j));
}

impl CSR {
    /// Gustavson's row-wise product, dense output: every cell of the result
    /// is addressed directly while `a`'s rows are expanded through `b`.
    pub fn product(&self, other: &CSR) -> (r: Result<Dense, MatError>)
        requires
            self.wf(),
            other.wf(),
            self.shape.1 == other.shape.0 ==> self.shape.0 * other.shape.1 <= usize::MAX
                && prod_fits(*self, *other),
        ensures
            match r {
                Result::Ok(d) => {
                    &&& self.shape.1 == other.shape.0
                    &&& d.wf()
                    &&& d.shape == (self.shape.0, other.shape.1)
                    &&& forall|i: int, j: int|
                        0 <= i < self.shape.0 && 0 <= j < other.shape.1 ==> d.ent(i, j) == prod_ent(
                            *self,
                            *other,
                            i,
                            j,
                        ) && d.ent(i, j) == mat_mul_ent(*self, *other, i, j)
                },
                Result::Err(e) => {
                    &&& e == MatError::DimensionMismatch
                    &&& self.shape.1 != other.shape.0
                },
            },
    {
        if self.shape.1 != other.shape.0 {
            return Result::Err(MatError::DimensionMismatch);
        }
        let m = self.shape.0;
        let n = other.shape.1;
        let mut mat = Dense::new_zeros((m, n));
        let mut i: usize = 0;
        while i < m
            invariant
                i <= m,
                m == self.shape.0,
                n == other.shape.1,
                self.wf(),
                other.wf(),
                self.shape.1 == other.shape.0,
                prod_fits(*self, *other),
                mat.wf(),
                mat.shape == (m, n),
                forall|i2: int, j: int|
                    0 <= i2 < i && 0 <= j < n ==> mat.ent(i2, j) == prod_ent(*self, *other, i2, j),
                forall|i2: int, j: int| i <= i2 < m && 0 <= j < n ==> mat.ent(i2, j) == 0,
            decreases m - i,
        {
            proof {
                self.lemma_row_bounds(i as int);
            }
            let lo = self.row_pos[i];
            let hi = self.row_pos[i + 1];
            let mut p = lo;
            while p < hi
                invariant
                    lo <= p <= hi,
                    hi <= self.values@.len(),
                    lo as int == self.row_lo(i as int),
                    hi as int == self.row_hi(i as int),
                    i < m,
                    m == self.shape.0,
                    n == other.shape.1,
                    self.wf(),
                    other.wf(),
                    self.shape.1 == other.shape.0,
                    prod_fits(*self, *other),
                    mat.wf(),
                    mat.shape == (m, n),
                    forall|i2: int, j: int|
                        0 <= i2 < i && 0 <= j < n ==> mat.ent(i2, j) == prod_ent(
                            *self,
                            *other,
                            i2,
                            j,
                        ),
                    forall|i2: int, j: int| i < i2 < m && 0 <= j < n ==> mat.ent(i2, j) == 0,
                    forall|j: int|
                        0 <= j < n ==> mat.ent(i as int, j) == gus_sum(
                            *self,
                            *other,
                            j,
                            lo as int,
                            p as int,
                        ),
                decreases hi - p,
            {
                let av = self.values[p];
                let k = self.col_pos[p];
                proof {
                    other.lemma_row_bounds(k as int);
                }
                let blo = other.row_pos[k];
                let bhi = other.row_pos[k + 1];
                let mut q = blo;
                while q < bhi
                    invariant
                        blo <= q <= bhi,
                        bhi <= other.values@.len(),
                        blo as int == other.row_lo(k as int),
                        bhi as int == other.row_hi(k as int),
                        k == self.col_pos@[p as int],
                        av == self.values@[p as int],
                        lo <= p < hi,
                        hi <= self.values@.len(),
                        lo as int == self.row_lo(i as int),
                        hi as int == self.row_hi(i as int),
                        i < m,
                        m == self.shape.0,
                        n == other.shape.1,
                        self.wf(),
                        other.wf(),
                        self.shape.1 == other.shape.0,
                        prod_fits(*self, *other),
                        mat.wf(),
                        mat.shape == (m, n),
                        forall|i2: int, j: int|
                            0 <= i2 < i && 0 <= j < n ==> mat.ent(i2, j) == prod_ent(
                                *self,
                                *other,
                                i2,
                                j,
                            ),
                        forall|i2: int, j: int| i < i2 < m && 0 <= j < n ==> mat.ent(i2, j) == 0,
                        forall|j: int|
                            0 <= j < n ==> mat.ent(i as int, j) == gus_sum(
                                *self,
                                *other,
                                j,
                                lo as int,
                                p as int,
                            ) + av as int * filtered_sum(
                                other.col_pos@,
                                other.values@,
                                j,
                                blo as int,
                                q as int,
                            ),
                    decreases bhi - q,
                {
                    let bv = other.values[q];
                    let j0 = other.col_pos[q];
                    let cur = mat.get(i, j0);
                    proof {
                        let aa = *self;
                        let bb = *other;
                        let ki = k as int;
                        let ji = j0 as int;
                        let fs = filtered_sum(bb.col_pos@, bb.values@, ji, blo as int, q as int);
                        // |bv| is bounded by the absolute column sum of b's row k.
                        assert(filtered_abs_sum(bb.col_pos@, bb.values@, ji, blo as int, q + 1)
                            == filtered_abs_sum(bb.col_pos@, bb.values@, ji, blo as int, q as int)
                            + int_abs(bv as int));
                        lemma_filtered_abs_sum_nonneg(bb.col_pos@, bb.values@, ji, blo as int, q as int);
                        lemma_filtered_abs_sum_mono(
                            bb.col_pos@,
                            bb.values@,
                            ji,
                            blo as int,
                            q + 1,
                            bhi as int,
                        );
                        lemma_mul_abs_range(av as int, bv as int, int_abs(av as int), bb.abs_ent(ki, ji));
                        // the single product stays within the row's absolute budget
                        lemma_gus_abs_sum_nonneg(aa, bb, ji, lo as int, p as int);
                        assert(gus_abs_sum(aa, bb, ji, lo as int, p + 1) == gus_abs_sum(
                            aa,
                            bb,
                            ji,
                            lo as int,
                            p as int,
                        ) + int_abs(av as int) * bb.abs_ent(ki, ji));
                        lemma_gus_abs_sum_mono(aa, bb, ji, lo as int, p + 1, hi as int);
                        assert(prod_abs_ent(aa, bb, i as int, ji) <= i64::MAX);
                        // the new accumulated cell equals the partial at q + 1
                        assert(cur as int == gus_sum(aa, bb, ji, lo as int, p as int) + av as int
                            * fs);
                        assert(filtered_sum(bb.col_pos@, bb.values@, ji, blo as int, q + 1) == fs
                            + bv as int);
                        assert(av as int * (fs + bv as int) == av as int * fs + av as int
                            * bv as int) by (nonlinear_arith);
                        lemma_inner_partial_bound(aa, bb, ji, lo as int, p as int, q + 1);
                    }
                    let prod = av * bv;
                    mat.set(i, j0, cur + prod);
                    proof {
                        assert forall|j: int| 0 <= j < n implies mat.ent(i as int, j) == gus_sum(
                            *self,
                            *other,
                            j,
                            lo as int,
                            p as int,
                        ) + av as int * filtered_sum(
                            other.col_pos@,
                            other.values@,
                            j,
                            blo as int,
                            q + 1,
                        ) by {
                            if j != j0 as int {
                                assert(filtered_sum(
                                    other.col_pos@,
                                    other.values@,
                                    j,
                                    blo as int,
                                    q + 1,
                                ) == filtered_sum(
                                    other.col_pos@,
                                    other.values@,
                                    j,
                                    blo as int,
                                    q as int,
                                ));
                            }
                        }
                    }
                    q = q + 1;
                }
                proof {
                    assert forall|j: int| 0 <= j < n implies mat.ent(i as int, j) == gus_sum(
                        *self,
                        *other,
                        j,
                        lo as int,
                        p + 1,
                    ) by {
                        assert(gus_sum(*self, *other, j, lo as int, p + 1) == gus_sum(
                            *self,
                            *other,
                            j,
                            lo as int,
                            p as int,
                        ) + av as int * (*other).ent(k as int, j));
                    }
                }
                p = p + 1;
            }
            i = i + 1;
        }
        proof {
            assert forall|i: int, j: int|
                0 <= i < self.shape.0 && 0 <= j < other.shape.1 implies mat.ent(i, j)
                == mat_mul_ent(*self, *other, i, j) by {
                lemma_prod_ent_is_mat_mul(*self, *other, i, j);
            }
        }
        Result::Ok(mat)
    }
}

} // verus!
