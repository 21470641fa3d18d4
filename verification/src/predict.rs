//! Non-zero-count predictor: a structural upper bound on the product's
//! non-zero count, used to size output buffers. It is the exact candidate
//! emission count of Gustavson's traversal, before duplicate columns collapse.

use vstd::prelude::*;

use crate::csr::CSR;

verus! {

/// Candidate emission count over positions `[lo, hi)` of `a`'s entry list:
/// each entry contributes the length of the `b`-row its column selects.
pub open spec fn cand_count(a: CSR, b: CSR, lo: int, hi: int) -> int
    decreases hi - lo,
{
    if hi <= lo {
        0
    } else {
        cand_count(a, b, lo, hi - 1) + (b.row_hi(a.col_pos@[hi - 1] as int) - b.row_lo(
            a.col_pos@[hi - 1] as int,
        ))
    }
}

/// The predictor's value: the candidate count over all of `a`'s entries.
pub open spec fn predicted_nnz(a: CSR, b: CSR) -> int {
    cand_count(a, b, 0, a.col_pos@.len() as int)
}

/// With well-formed operands every candidate term is non-negative, so the
/// count grows with the range.
pub proof fn lemma_cand_count_mono(a: CSR, b: CSR, lo: int, h1: int, h2: int)
    requires
        a.wf(),
        b.wf(),
        a.shape.1 == b.shape.0,
        0 <= lo <= h1 <= h2,
        h2 <= a.col_pos@.len(),
    ensures
        cand_count(a, b, lo, h1) <= cand_count(a, b, lo, h2),
    decreases h2 - h1,
{
    if h1 < h2 {
        lemma_cand_count_mono(a, b, lo, h1, h2 - 1);
        let k = a.col_pos@[h2 - 1] as int;
        b.lemma_row_bounds(k);
    }
}

/// Upper bound on the number of non-zero entries of the product `a * b`,
/// conservatively sized so downstream buffers never overflow: the exact
/// candidate emission count of the row-wise traversal.
pub fn predict(a: &CSR, b: &CSR) -> (r: usize)
    requires
        a.wf(),
        b.wf(),
        a.shape.1 == b.shape.0,
        predicted_nnz(*a, *b) <= usize::MAX,
    ensures
        r as int == predicted_nnz(*a, *b),
{
    let nnz = a.col_pos.len();
    let mut total: usize = 0;
    let mut p: usize = 0;
    while p < nnz
        invariant
            p <= nnz,
            nnz == a.col_pos@.len(),
            a.wf(),
            b.wf(),
            a.shape.1 == b.shape.0,
            predicted_nnz(*a, *b) <= usize::MAX,
            total as int == cand_count(*a, *b, 0, p as int),
        decreases nnz - p,
    {
        let k = a.col_pos[p];
        proof {
            b.lemma_row_bounds(k as int);
            lemma_cand_count_mono(*a, *b, 0, p + 1, nnz as int);
        }
        let rl = b.row_pos[k];
        let rh = b.row_pos[k + 1];
        total = total + (rh - rl);
        p = p + 1;
    }
    total
}

} // verus!
