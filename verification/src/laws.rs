//! The laws of the engine, proved over the contracts of the executable
//! functions: the traversal form of the product equals the mathematical
//! matrix product, the coordinate-list round trip preserves every entry,
//! every engine variant computes the same matrix, re-tripleting an operand
//! leaves its products unchanged, and an empty operand row yields an empty
//! product row.

use vstd::prelude::*;

use crate::coo::COO;
use crate::csr::CSR;
use crate::dense::Dense;
use crate::predict::{cand_count, predicted_nnz};
use crate::product::{gus_sum, mat_mul_ent, mat_mul_partial, prod_ent};
use crate::sums::{
    filtered_sum, lemma_count_rows_lt_ge, lemma_count_rows_lt_le, lemma_filtered_sum_absent,
    lemma_filtered_sum_shift, lemma_filtered_sum_split_lo, lemma_triple_sum_extend_absent,
    lemma_triple_sum_segment,
};

verus! {

/// Unfolding a Gustavson partial sum at the bottom of its range.
proof fn lemma_gus_sum_split_lo(a: CSR, b: CSR, j: int, lo: int, hi: int)
    requires
        lo < hi,
    ensures
        gus_sum(a, b, j, lo, hi) == a.values@[lo] as int * b.ent(a.col_pos@[lo] as int, j)
            + gus_sum(a, b, j, lo + 1, hi),
    decreases hi - lo,
{
    if lo + 1 < hi {
        lemma_gus_sum_split_lo(a, b, j, lo, hi - 1);
    } else {
        assert(gus_sum(a, b, j, lo, lo) == 0);
        assert(gus_sum(a, b, j, lo + 1, hi) == 0);
    }
}

/// The Gustavson sum over `a`'s positions `[p, hi)`, regrouped by inner
/// column: over `k` in `[0, kk)`, the column sum of `a`'s slice times
/// `b`'s entry.
pub open spec fn regroup(a: CSR, b: CSR, j: int, p: int, hi: int, kk: int) -> int
    decreases kk,
{
    if kk <= 0 {
        0
    } else {
        regroup(a, b, j, p, hi, kk - 1) + filtered_sum(a.col_pos@, a.values@, kk - 1, p, hi)
            * b.ent(kk - 1, j)
    }
}

proof fn lemma_regroup_empty(a: CSR, b: CSR, j: int, hi: int, kk: int)
    ensures
        regroup(a, b, j, hi, hi, kk) == 0,
    decreases kk,
{
    if kk > 0 {
        lemma_regroup_empty(a, b, j, hi, kk - 1);
        assert(filtered_sum(a.col_pos@, a.values@, kk - 1, hi, hi) == 0);
    }
}

proof fn lemma_regroup_step(a: CSR, b: CSR, j: int, p: int, hi: int, kk: int)
    requires
        p < hi,
    ensures
        regroup(a, b, j, p, hi, kk) == regroup(a, b, j, p + 1, hi, kk) + if (a.col_pos@[p] as int)
            < kk {
            (a.values@[p] as int) * b.ent(a.col_pos@[p] as int, j)
        } else {
            0
        },
    decreases kk,
{
    let cp = a.col_pos@[p] as int;
    let av = a.values@[p] as int;
    if kk > 0 {
        lemma_regroup_step(a, b, j, p, hi, kk - 1);
        lemma_filtered_sum_split_lo(a.col_pos@, a.values@, kk - 1, p, hi);
        let f1 = filtered_sum(a.col_pos@, a.values@, kk - 1, p + 1, hi);
        let be = b.ent(kk - 1, j);
        if cp == kk - 1 {
            assert((av + f1) * be == av * be + f1 * be) by (nonlinear_arith);
        }
    }
}

proof fn lemma_gus_eq_regroup(a: CSR, b: CSR, j: int, p: int, hi: int)
    requires
        a.wf(),
        0 <= p <= hi <= a.col_pos@.len(),
    ensures
        gus_sum(a, b, j, p, hi) == regroup(a, b, j, p, hi, a.shape.1 as int),
    decreases hi - p,
{
    if p == hi {
        lemma_regroup_empty(a, b, j, hi, a.shape.1 as int);
    } else {
        lemma_gus_sum_split_lo(a, b, j, p, hi);
        lemma_gus_eq_regroup(a, b, j, p + 1, hi);
        lemma_regroup_step(a, b, j, p, hi, a.shape.1 as int);
        assert(a.col_pos@[p] < a.shape.1);
    }
}

proof fn lemma_regroup_eq_mat_mul(a: CSR, b: CSR, i: int, j: int, kk: int)
    requires
        a.wf(),
        0 <= i < a.shape.0,
    ensures
        regroup(a, b, j, a.row_lo(i), a.row_hi(i), kk) == mat_mul_partial(a, b, i, j, kk),
    decreases kk,
{
    if kk > 0 {
        lemma_regroup_eq_mat_mul(a, b, i, j, kk - 1);
    }
}

/// The row-traversal form of the product entry is the mathematical matrix
/// product entry: the sum over the inner dimension of `a`'s entry times
/// `b`'s entry.
pub proof fn lemma_prod_ent_is_mat_mul(a: CSR, b: CSR, i: int, j: int)
    requires
        a.wf(),
        b.wf(),
        0 <= i < a.shape.0,
    ensures
        prod_ent(a, b, i, j) == mat_mul_ent(a, b, i, j),
{
    a.lemma_row_bounds(i);
    lemma_gus_eq_regroup(a, b, j, a.row_lo(i), a.row_hi(i));
    lemma_regroup_eq_mat_mul(a, b, i, j, a.shape.1 as int);
}

/// Every engine variant computes the same matrix, and that matrix is the
/// mathematical product of the operands: the dense result, the compressed
/// sparse result and the coordinate-list result agree entry for entry.
pub proof fn lemma_product_variants_agree(a: CSR, b: CSR, d: Dense, s: CSR, c: COO)
    requires
        a.wf(),
        b.wf(),
        a.shape.1 == b.shape.0,
        d.shape == (a.shape.0, b.shape.1),
        forall|i: int, j: int|
            0 <= i < a.shape.0 && 0 <= j < b.shape.1 ==> d.ent(i, j) == prod_ent(a, b, i, j),
        s.shape == (a.shape.0, b.shape.1),
        forall|i: int, j: int|
            0 <= i < a.shape.0 && 0 <= j < b.shape.1 ==> s.ent(i, j) == prod_ent(a, b, i, j),
        c.shape == (a.shape.0, b.shape.1),
        forall|i: int, j: int|
            0 <= i < a.shape.0 && 0 <= j < b.shape.1 ==> c.ent(i, j) == prod_ent(a, b, i, j),
    ensures
        forall|i: int, j: int|
            0 <= i < a.shape.0 && 0 <= j < b.shape.1 ==> d.ent(i, j) == s.ent(i, j) && d.ent(i, j)
                == c.ent(i, j) && d.ent(i, j) == mat_mul_ent(a, b, i, j),
{
    assert forall|i: int, j: int|
        0 <= i < a.shape.0 && 0 <= j < b.shape.1 implies d.ent(i, j) == s.ent(i, j) && d.ent(i, j)
        == c.ent(i, j) && d.ent(i, j) == mat_mul_ent(a, b, i, j) by {
        lemma_prod_ent_is_mat_mul(a, b, i, j);
    }
}

/// Where a triplet stands relative to its row's slice boundaries in the
/// compressed form built from a sorted coordinate list.
proof fn lemma_from_coo_pos(coo: COO, c: CSR, i: int, p: int)
    requires
        coo.wf(),
        coo.rows_sorted(),
        CSR::from_coo_rel(coo, c),
        c.wf(),
        0 <= i < coo.shape.0,
        0 <= p < coo.data@.len(),
    ensures
        p < c.row_pos@[i] ==> (coo.data@[p].0 as int) < i,
        p >= c.row_pos@[i] ==> (coo.data@[p].0 as int) >= i,
        p < c.row_pos@[i + 1] ==> (coo.data@[p].0 as int) <= i,
        p >= c.row_pos@[i + 1] ==> (coo.data@[p].0 as int) > i,
{
    let data = coo.data@;
    let len = data.len() as int;
    assert forall|q: int| 0 <= q < p + 1 implies (#[trigger] data[q]).0 <= data[p].0 by {
        coo.lemma_rows_sorted_mono(q, p);
    }
    assert forall|q: int| p <= q < len implies (#[trigger] data[q]).0 >= data[p].0 by {
        coo.lemma_rows_sorted_mono(p, q);
    }
    let rp = data[p].0 as int;
    if rp < i {
        lemma_count_rows_lt_ge(data, i, len, p + 1);
    } else {
        lemma_count_rows_lt_le(data, i, len, p);
    }
    if rp < i + 1 {
        lemma_count_rows_lt_ge(data, i + 1, len, p + 1);
    } else {
        lemma_count_rows_lt_le(data, i + 1, len, p);
    }
}

/// One row of the round trip: the compressed row's column sum equals the
/// coordinate list's entry.
proof fn lemma_from_coo_row(coo: COO, c: CSR, i: int, j: int)
    requires
        coo.wf(),
        coo.rows_sorted(),
        CSR::from_coo_rel(coo, c),
        c.wf(),
        0 <= i < coo.shape.0,
    ensures
        c.ent(i, j) == coo.ent(i, j),
{
    let data = coo.data@;
    let len = data.len() as int;
    c.lemma_row_bounds(i);
    let rl = c.row_pos@[i] as int;
    let rh = c.row_pos@[i + 1] as int;
    assert forall|p: int| rl <= p < rh implies (#[trigger] data[p]).0 as int == i by {
        lemma_from_coo_pos(coo, c, i, p);
    }
    assert forall|p: int| 0 <= p < rl implies ((#[trigger] data[p]).0 as int) != i by {
        lemma_from_coo_pos(coo, c, i, p);
    }
    assert forall|p: int| rh <= p < len implies ((#[trigger] data[p]).0 as int) != i by {
        lemma_from_coo_pos(coo, c, i, p);
    }
    let sub_c = c.col_pos@.subrange(rl, rh);
    let sub_v = c.values@.subrange(rl, rh);
    lemma_filtered_sum_shift(c.col_pos@, c.values@, sub_c, sub_v, j, rl, 0, rh - rl);
    assert forall|u: int|
        0 <= u < rh - rl implies (#[trigger] data[rl + u]).0 as int == i && data[rl + u].1
        == sub_c[u] && data[rl + u].2 == sub_v[u] by {
        assert(data[rl + u].0 as int == i);
        assert(sub_c[u] == c.col_pos@[rl + u]);
        assert(sub_v[u] == c.values@[rl + u]);
        assert(c.col_pos@[rl + u] == data[rl + u].1 && c.values@[rl + u] == data[rl + u].2);
    }
    lemma_triple_sum_segment(data, i, j, rl, rh - rl, sub_c, sub_v);
    lemma_triple_sum_extend_absent(data, i, j, 0, rl);
    lemma_triple_sum_extend_absent(data, i, j, rh, len);
}

/// Round trip: the compressed form built from a sorted coordinate list has
/// exactly the coordinate list's entries, duplicates summed. Together with
/// the dense expansions' contracts, both expand to the same dense matrix.
pub proof fn lemma_from_coo_preserves_ent(coo: COO, c: CSR)
    requires
        coo.wf(),
        coo.rows_sorted(),
        CSR::from_coo_rel(coo, c),
        c.wf(),
    ensures
        forall|i: int, j: int| 0 <= i < coo.shape.0 ==> c.ent(i, j) == coo.ent(i, j),
{
    assert forall|i: int, j: int| 0 <= i < coo.shape.0 implies c.ent(i, j) == coo.ent(i, j) by {
        lemma_from_coo_row(coo, c, i, j);
    }
}

/// Two operands with equal entries have equal products.
pub proof fn lemma_prod_ent_congruence(a1: CSR, a2: CSR, b: CSR, i: int, j: int)
    requires
        a1.wf(),
        a2.wf(),
        b.wf(),
        a1.shape == a2.shape,
        0 <= i < a1.shape.0,
        forall|k: int| 0 <= k < a1.shape.1 ==> a1.ent(i, k) == a2.ent(i, k),
    ensures
        prod_ent(a1, b, i, j) == prod_ent(a2, b, i, j),
{
    lemma_prod_ent_is_mat_mul(a1, b, i, j);
    lemma_prod_ent_is_mat_mul(a2, b, i, j);
    lemma_mat_mul_partial_congruence(a1, a2, b, i, j, a1.shape.1 as int);
}

proof fn lemma_mat_mul_partial_congruence(a1: CSR, a2: CSR, b: CSR, i: int, j: int, kk: int)
    requires
        forall|k: int| 0 <= k < kk ==> a1.ent(i, k) == a2.ent(i, k),
    ensures
        mat_mul_partial(a1, b, i, j, kk) == mat_mul_partial(a2, b, i, j, kk),
    decreases kk,
{
    if kk > 0 {
        lemma_mat_mul_partial_congruence(a1, a2, b, i, j, kk - 1);
    }
}

/// Idempotence of re-tripleting: expanding an operand to dense form,
/// reading its cells back as triplets and compressing again yields an
/// operand whose product with any fixed matrix is unchanged.
pub proof fn lemma_retriplet_keeps_products(a: CSR, d: Dense, c2: COO, a2: CSR, b: CSR)
    requires
        a.wf(),
        b.wf(),
        a2.wf(),
        a.shape.1 == b.shape.0,
        d.shape == a.shape,
        forall|i: int, j: int|
            0 <= i < a.shape.0 && 0 <= j < a.shape.1 ==> d.ent(i, j) == a.ent(i, j),
        c2.wf(),
        c2.rows_sorted(),
        c2.shape == a.shape,
        forall|i: int, j: int|
            0 <= i < a.shape.0 && 0 <= j < a.shape.1 ==> c2.ent(i, j) == d.ent(i, j),
        CSR::from_coo_rel(c2, a2),
    ensures
        forall|i: int, j: int|
            0 <= i < a.shape.0 ==> prod_ent(a2, b, i, j) == prod_ent(a, b, i, j),
{
    lemma_from_coo_preserves_ent(c2, a2);
    assert forall|i: int, j: int| 0 <= i < a.shape.0 implies prod_ent(a2, b, i, j) == prod_ent(
        a,
        b,
        i,
        j,
    ) by {
        assert forall|k: int| 0 <= k < a.shape.1 implies a2.ent(i, k) == a.ent(i, k) by {
            assert(a2.ent(i, k) == c2.ent(i, k));
            assert(c2.ent(i, k) == d.ent(i, k));
            assert(d.ent(i, k) == a.ent(i, k));
        }
        lemma_prod_ent_congruence(a2, a, b, i, j);
    }
}

/// An operand row without stored entries yields a product row of zeros,
/// and such a row is representable: its two boundaries coincide.
pub proof fn lemma_zero_row(a: CSR, b: CSR, i: int)
    requires
        a.wf(),
        0 <= i < a.shape.0,
        a.row_pos@[i] == a.row_pos@[i + 1],
    ensures
        forall|j: int| prod_ent(a, b, i, j) == 0,
{
    assert forall|j: int| prod_ent(a, b, i, j) == 0 by {
        assert(gus_sum(a, b, j, a.row_lo(i), a.row_hi(i)) == 0);
    }
}

/// Column `j` occurs among `b`'s stored columns in `[qlo, qhi)`.
pub open spec fn col_in_slice(b: CSR, j: int, qlo: int, qhi: int) -> bool {
    exists|q: int| qlo <= q < qhi && (#[trigger] b.col_pos@[q]) as int == j
}

/// Some entry of `a` in `[lo, hi)` selects a `b`-row in which column `j`
/// occurs: a candidate emission for output column `j`.
pub open spec fn row_cand(a: CSR, b: CSR, j: int, lo: int, hi: int) -> bool {
    exists|p: int|
        lo <= p < hi && col_in_slice(
            b,
            j,
            b.row_lo((#[trigger] a.col_pos@[p]) as int),
            b.row_hi(a.col_pos@[p] as int),
        )
}

/// Without a candidate emission the traversal contributes nothing.
proof fn lemma_gus_sum_no_cand(a: CSR, b: CSR, j: int, lo: int, hi: int)
    requires
        !row_cand(a, b, j, lo, hi),
    ensures
        gus_sum(a, b, j, lo, hi) == 0,
    decreases hi - lo,
{
    if hi > lo {
        assert(!row_cand(a, b, j, lo, hi - 1)) by {
            if row_cand(a, b, j, lo, hi - 1) {
                let p = choose|p: int|
                    lo <= p < hi - 1 && col_in_slice(
                        b,
                        j,
                        b.row_lo((#[trigger] a.col_pos@[p]) as int),
                        b.row_hi(a.col_pos@[p] as int),
                    );
                assert(row_cand(a, b, j, lo, hi));
            }
        }
        lemma_gus_sum_no_cand(a, b, j, lo, hi - 1);
        let k = a.col_pos@[hi - 1] as int;
        assert(!col_in_slice(b, j, b.row_lo(k), b.row_hi(k))) by {
            if col_in_slice(b, j, b.row_lo(k), b.row_hi(k)) {
                assert(row_cand(a, b, j, lo, hi));
            }
        }
        assert forall|q: int|
            b.row_lo(k) <= q < b.row_hi(k) implies ((#[trigger] b.col_pos@[q]) as int) != j by {}
        lemma_filtered_sum_absent(b.col_pos@, b.values@, j, b.row_lo(k), b.row_hi(k));
    }
}

/// Number of columns below `j_hi` whose product entry at row `i` is
/// non-zero.
pub open spec fn row_nnz(a: CSR, b: CSR, i: int, j_hi: int) -> int
    decreases j_hi,
{
    if j_hi <= 0 {
        0
    } else {
        row_nnz(a, b, i, j_hi - 1) + if prod_ent(a, b, i, j_hi - 1) != 0 {
            1int
        } else {
            0int
        }
    }
}

/// Number of non-zero product entries in rows below `i_hi`.
pub open spec fn nnz_upto(a: CSR, b: CSR, i_hi: int) -> int
    decreases i_hi,
{
    if i_hi <= 0 {
        0
    } else {
        nnz_upto(a, b, i_hi - 1) + row_nnz(a, b, i_hi - 1, b.shape.1 as int)
    }
}

/// The exact non-zero count of the product `a * b`.
pub open spec fn true_nnz(a: CSR, b: CSR) -> int {
    nnz_upto(a, b, a.shape.0 as int)
}

/// Number of columns below `j_hi` with a candidate in `a`'s slice `[lo, hi)`.
spec fn cand_cols(a: CSR, b: CSR, j_hi: int, lo: int, hi: int) -> int
    decreases j_hi,
{
    if j_hi <= 0 {
        0
    } else {
        cand_cols(a, b, j_hi - 1, lo, hi) + if row_cand(a, b, j_hi - 1, lo, hi) {
            1int
        } else {
            0int
        }
    }
}

/// Number of columns below `j_hi` occurring in `b`'s slice `[qlo, qhi)`.
spec fn slice_cols(b: CSR, j_hi: int, qlo: int, qhi: int) -> int
    decreases j_hi,
{
    if j_hi <= 0 {
        0
    } else {
        slice_cols(b, j_hi - 1, qlo, qhi) + if col_in_slice(b, j_hi - 1, qlo, qhi) {
            1int
        } else {
            0int
        }
    }
}

proof fn lemma_slice_cols_empty(b: CSR, j_hi: int, qlo: int)
    ensures
        slice_cols(b, j_hi, qlo, qlo) == 0,
    decreases j_hi,
{
    if j_hi > 0 {
        lemma_slice_cols_empty(b, j_hi - 1, qlo);
        assert(!col_in_slice(b, j_hi - 1, qlo, qlo));
    }
}

proof fn lemma_slice_cols_step(b: CSR, j_hi: int, qlo: int, qhi: int)
    requires
        qlo < qhi,
    ensures
        slice_cols(b, j_hi, qlo, qhi) <= slice_cols(b, j_hi, qlo, qhi - 1) + if (b.col_pos@[qhi
            - 1] as int) < j_hi {
            1int
        } else {
            0int
        },
    decreases j_hi,
{
    if j_hi > 0 {
        lemma_slice_cols_step(b, j_hi - 1, qlo, qhi);
        let c = b.col_pos@[qhi - 1] as int;
        let j = j_hi - 1;
        if j != c && col_in_slice(b, j, qlo, qhi) {
            let q = choose|q: int| qlo <= q < qhi && (#[trigger] b.col_pos@[q]) as int == j;
            assert(q < qhi - 1);
            assert(col_in_slice(b, j, qlo, qhi - 1));
        }
    }
}

proof fn lemma_slice_cols_bound(b: CSR, j_hi: int, qlo: int, qhi: int)
    requires
        qlo <= qhi,
    ensures
        slice_cols(b, j_hi, qlo, qhi) <= qhi - qlo,
    decreases qhi - qlo,
{
    if qlo == qhi {
        lemma_slice_cols_empty(b, j_hi, qlo);
    } else {
        lemma_slice_cols_bound(b, j_hi, qlo, qhi - 1);
        lemma_slice_cols_step(b, j_hi, qlo, qhi);
    }
}

proof fn lemma_cand_cols_empty(a: CSR, b: CSR, j_hi: int, lo: int)
    ensures
        cand_cols(a, b, j_hi, lo, lo) == 0,
    decreases j_hi,
{
    if j_hi > 0 {
        lemma_cand_cols_empty(a, b, j_hi - 1, lo);
        assert(!row_cand(a, b, j_hi - 1, lo, lo));
    }
}

proof fn lemma_cand_cols_step(a: CSR, b: CSR, j_hi: int, lo: int, hi: int)
    requires
        lo < hi,
    ensures
        cand_cols(a, b, j_hi, lo, hi) <= cand_cols(a, b, j_hi, lo, hi - 1) + slice_cols(
            b,
            j_hi,
            b.row_lo(a.col_pos@[hi - 1] as int),
            b.row_hi(a.col_pos@[hi - 1] as int),
        ),
    decreases j_hi,
{
    if j_hi > 0 {
        lemma_cand_cols_step(a, b, j_hi - 1, lo, hi);
        let j = j_hi - 1;
        let k = a.col_pos@[hi - 1] as int;
        if row_cand(a, b, j, lo, hi) {
            let p = choose|p: int|
                lo <= p < hi && col_in_slice(
                    b,
                    j,
                    b.row_lo((#[trigger] a.col_pos@[p]) as int),
                    b.row_hi(a.col_pos@[p] as int),
                );
            if p < hi - 1 {
                assert(row_cand(a, b, j, lo, hi - 1));
            } else {
                assert(col_in_slice(b, j, b.row_lo(k), b.row_hi(k)));
            }
        }
    }
}

proof fn lemma_cand_cols_le_cand_count(a: CSR, b: CSR, j_hi: int, lo: int, hi: int)
    requires
        a.wf(),
        b.wf(),
        a.shape.1 == b.shape.0,
        0 <= lo <= hi <= a.col_pos@.len(),
    ensures
        cand_cols(a, b, j_hi, lo, hi) <= cand_count(a, b, lo, hi),
    decreases hi - lo,
{
    if lo == hi {
        lemma_cand_cols_empty(a, b, j_hi, lo);
    } else {
        lemma_cand_cols_le_cand_count(a, b, j_hi, lo, hi - 1);
        lemma_cand_cols_step(a, b, j_hi, lo, hi);
        let k = a.col_pos@[hi - 1] as int;
        b.lemma_row_bounds(k);
        lemma_slice_cols_bound(b, j_hi, b.row_lo(k), b.row_hi(k));
    }
}

proof fn lemma_row_nnz_le_cand_cols(a: CSR, b: CSR, i: int, j_hi: int)
    requires
        a.wf(),
        b.wf(),
        0 <= i < a.shape.0,
    ensures
        row_nnz(a, b, i, j_hi) <= cand_cols(a, b, j_hi, a.row_lo(i), a.row_hi(i)),
    decreases j_hi,
{
    if j_hi > 0 {
        lemma_row_nnz_le_cand_cols(a, b, i, j_hi - 1);
        let j = j_hi - 1;
        if prod_ent(a, b, i, j) != 0 && !row_cand(a, b, j, a.row_lo(i), a.row_hi(i)) {
            lemma_gus_sum_no_cand(a, b, j, a.row_lo(i), a.row_hi(i));
        }
    }
}

proof fn lemma_cand_count_additive(a: CSR, b: CSR, lo: int, mid: int, hi: int)
    requires
        lo <= mid <= hi,
    ensures
        cand_count(a, b, lo, hi) == cand_count(a, b, lo, mid) + cand_count(a, b, mid, hi),
    decreases hi - mid,
{
    if mid < hi {
        lemma_cand_count_additive(a, b, lo, mid, hi - 1);
    }
}

proof fn lemma_nnz_upto_le(a: CSR, b: CSR, i_hi: int)
    requires
        a.wf(),
        b.wf(),
        a.shape.1 == b.shape.0,
        0 <= i_hi <= a.shape.0,
    ensures
        nnz_upto(a, b, i_hi) <= cand_count(a, b, 0, a.row_pos@[i_hi] as int),
    decreases i_hi,
{
    if i_hi > 0 {
        lemma_nnz_upto_le(a, b, i_hi - 1);
        let i = i_hi - 1;
        a.lemma_row_bounds(i);
        lemma_row_nnz_le_cand_cols(a, b, i, b.shape.1 as int);
        lemma_cand_cols_le_cand_count(a, b, b.shape.1 as int, a.row_lo(i), a.row_hi(i));
        lemma_cand_count_additive(a, b, 0, a.row_lo(i), a.row_hi(i));
        a.lemma_row_pos_mono(0, i);
    }
}

/// The predictor never under-counts: its candidate emission count bounds
/// the true non-zero count of the product from above. Duplicate candidate
/// columns collapse in the product but each still costs one emission, so
/// the bound is conservative and output buffers sized by it never overflow.
pub proof fn lemma_predict_bounds_nnz(a: CSR, b: CSR)
    requires
        a.wf(),
        b.wf(),
        a.shape.1 == b.shape.0,
    ensures
        true_nnz(a, b) <= predicted_nnz(a, b),
{
    lemma_nnz_upto_le(a, b, a.shape.0 as int);
}

} // verus!
