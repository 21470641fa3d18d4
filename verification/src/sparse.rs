//! Sparse-output variants of the row-wise product: a per-row sparse
//! accumulator flushed in ascending column order, plus the row-partitioned
//! variants whose contiguous chunks are merged in row order.

use vstd::prelude::*;

use crate::coo::COO;
use crate::csr::CSR;
use crate::error::MatError;
use crate::product::{
    gus_abs_sum, gus_sum, lemma_gus_abs_sum_mono, lemma_gus_abs_sum_nonneg,
    lemma_inner_partial_bound, lemma_mul_abs_range, prod_abs_ent, prod_ent, prod_fits,
};
use crate::sums::{
    filtered_abs_sum, filtered_sum, int_abs, lemma_filtered_abs_sum_mono,
    lemma_filtered_abs_sum_nonneg, lemma_filtered_sum_congruence, lemma_filtered_sum_shift,
    lemma_triple_sum_congruence, lemma_triple_sum_extend_absent, lemma_triple_sum_segment,
    triple_sum,
};

verus! {

/// Compute one output row of the product: a direct-addressed accumulator
/// over the output columns, flushed in ascending column order with the
/// zero-valued cells dropped. This is the unit of work a worker owns in the
/// row-partitioned variants.
#[verifier::loop_isolation(false)]
fn sparse_row(a: &CSR, b: &CSR, i: usize) -> (r: (Vec<usize>, Vec<i64>))
    requires
        a.wf(),
        b.wf(),
        a.shape.1 == b.shape.0,
        i < a.shape.0,
        prod_fits(*a, *b),
    ensures
        r.0@.len() == r.1@.len(),
        forall|t: int| 0 <= t < r.0@.len() ==> (#[trigger] r.0@[t]) < b.shape.1,
        forall|t: int| 0 <= t && t + 1 < r.0@.len() ==> (#[trigger] r.0@[t]) < r.0@[t + 1],
        forall|t: int| 0 <= t < r.1@.len() ==> (#[trigger] r.1@[t]) != 0i64,
        forall|j: int|
            0 <= j < b.shape.1 ==> filtered_sum(r.0@, r.1@, j, 0, r.0@.len() as int) == prod_ent(
                *a,
                *b,
                i as int,
                j,
            ),
{
    let n = b.shape.1;
    let mut scratch: Vec<i64> = Vec::new();
    let mut z: usize = 0;
    while z < n
        invariant
            z <= n,
            scratch@.len() == z,
            forall|u: int| 0 <= u < z ==> scratch@[u] == 0i64,
        decreases n - z,
    {
        scratch.push(0);
        z = z + 1;
    }
    proof {
        a.lemma_row_bounds(i as int);
    }
    let lo = a.row_pos[i];
    let hi = a.row_pos[i + 1];
    let mut p = lo;
    while p < hi
        invariant
            lo <= p <= hi,
            scratch@.len() == n,
            forall|j: int|
                0 <= j < n ==> (#[trigger] scratch@[j]) as int == gus_sum(
                    *a,
                    *b,
                    j,
                    lo as int,
                    p as int,
                ),
        decreases hi - p,
    {
        let av = a.values[p];
        let k = a.col_pos[p];
        proof {
            b.lemma_row_bounds(k as int);
        }
        let blo = b.row_pos[k];
        let bhi = b.row_pos[k + 1];
        let mut q = blo;
        while q < bhi
            invariant
                blo <= q <= bhi,
                scratch@.len() == n,
                forall|j: int|
                    0 <= j < n ==> (#[trigger] scratch@[j]) as int == gus_sum(
                        *a,
                        *b,
                        j,
                        lo as int,
                        p as int,
                    ) + av as int * filtered_sum(
                        b.col_pos@,
                        b.values@,
                        j,
                        blo as int,
                        q as int,
                    ),
            decreases bhi - q,
        {
            let bv = b.values[q];
            let j0 = b.col_pos[q];
            let cur = scratch[j0];
            proof {
                let aa = *a;
                let bb = *b;
                let ki = k as int;
                let ji = j0 as int;
                let fs = filtered_sum(bb.col_pos@, bb.values@, ji, blo as int, q as int);
                assert(filtered_abs_sum(bb.col_pos@, bb.values@, ji, blo as int, q + 1)
                    == filtered_abs_sum(bb.col_pos@, bb.values@, ji, blo as int, q as int)
                    + int_abs(bv as int));
                lemma_filtered_abs_sum_nonneg(bb.col_pos@, bb.values@, ji, blo as int, q as int);
                lemma_filtered_abs_sum_mono(bb.col_pos@, bb.values@, ji, blo as int, q + 1, bhi as int);
                lemma_mul_abs_range(av as int, bv as int, int_abs(av as int), bb.abs_ent(ki, ji));
                lemma_gus_abs_sum_nonneg(aa, bb, ji, lo as int, p as int);
                assert(gus_abs_sum(aa, bb, ji, lo as int, p + 1) == gus_abs_sum(
                    aa,
                    bb,
                    ji,
                    lo as int,
                    p as int,
                ) + int_abs(av as int) * bb.abs_ent(ki, ji));
                lemma_gus_abs_sum_mono(aa, bb, ji, lo as int, p + 1, hi as int);
                assert(prod_abs_ent(aa, bb, i as int, ji) <= i64::MAX);
                assert(cur as int == gus_sum(aa, bb, ji, lo as int, p as int) + av as int * fs);
                assert(filtered_sum(bb.col_pos@, bb.values@, ji, blo as int, q + 1) == fs
                    + bv as int);
                assert(av as int * (fs + bv as int) == av as int * fs + av as int * bv as int)
                    by (nonlinear_arith);
                lemma_inner_partial_bound(aa, bb, ji, lo as int, p as int, q + 1);
            }
            let prod = av * bv;
            scratch.set(j0, cur + prod);
            proof {
                assert forall|j: int| 0 <= j < n implies (#[trigger] scratch@[j]) as int == gus_sum(
                    *a,
                    *b,
                    j,
                    lo as int,
                    p as int,
                ) + av as int * filtered_sum(
                    b.col_pos@,
                    b.values@,
                    j,
                    blo as int,
                    q + 1,
                ) by {
                    if j != j0 as int {
                        assert(filtered_sum(b.col_pos@, b.values@, j, blo as int, q + 1)
                            == filtered_sum(b.col_pos@, b.values@, j, blo as int, q as int));
                    }
                }
            }
            q = q + 1;
        }
        proof {
            assert forall|j: int| 0 <= j < n implies (#[trigger] scratch@[j]) as int == gus_sum(
                *a,
                *b,
                j,
                lo as int,
                p + 1,
            ) by {
                assert(gus_sum(*a, *b, j, lo as int, p + 1) == gus_sum(
                    *a,
                    *b,
                    j,
                    lo as int,
                    p as int,
                ) + av as int * (*b).ent(k as int, j));
            }
        }
        p = p + 1;
    }
    let mut cols: Vec<usize> = Vec::new();
    let mut vals: Vec<i64> = Vec::new();
    let mut j: usize = 0;
    while j < n
        invariant
            j <= n,
            cols@.len() == vals@.len(),
            forall|t: int| 0 <= t < cols@.len() ==> (#[trigger] cols@[t]) < j,
            forall|t: int| 0 <= t && t + 1 < cols@.len() ==> (#[trigger] cols@[t]) < cols@[t + 1],
            forall|t: int| 0 <= t < vals@.len() ==> (#[trigger] vals@[t]) != 0i64,
            forall|j2: int|
                0 <= j2 < j ==> filtered_sum(cols@, vals@, j2, 0, cols@.len() as int) == prod_ent(
                    *a,
                    *b,
                    i as int,
                    j2,
                ),
            forall|j2: int|
                j <= j2 < n ==> filtered_sum(cols@, vals@, j2, 0, cols@.len() as int) == 0,
        decreases n - j,
    {
        let v = scratch[j];
        if v != 0 {
            let ghost cols0 = cols@;
            let ghost vals0 = vals@;
            cols.push(j);
            vals.push(v);
            proof {
                assert forall|j2: int| 0 <= j2 < n implies filtered_sum(
                    cols@,
                    vals@,
                    j2,
                    0,
                    cols@.len() as int,
                ) == filtered_sum(cols0, vals0, j2, 0, cols0.len() as int) + (if j2 == j as int {
                    v as int
                } else {
                    0int
                }) by {
                    lemma_filtered_sum_congruence(cols@, vals@, cols0, vals0, j2, 0, cols0.len() as int);
                }
            }
        }
        j = j + 1;
    }
    (cols, vals)
}

/// Assembly state of a compressed result whose first `i` rows are flushed:
/// boundaries are monotone, columns strictly increase within each row, no
/// explicit zeros are stored, and each flushed row carries the product.
pub open spec fn partial_csr(
    a: CSR,
    b: CSR,
    row_pos: Seq<usize>,
    cols: Seq<usize>,
    vals: Seq<i64>,
    i: int,
) -> bool {
    &&& row_pos.len() == i + 1
    &&& row_pos[0] == 0
    &&& row_pos[i] as int == cols.len()
    &&& cols.len() == vals.len()
    &&& forall|r: int| 0 <= r < i ==> (#[trigger] row_pos[r]) <= row_pos[r + 1]
    &&& forall|r: int| 0 <= r <= i ==> (#[trigger] row_pos[r]) as int <= cols.len()
    &&& forall|t: int| 0 <= t < cols.len() ==> (#[trigger] cols[t]) < b.shape.1
    &&& forall|t: int| 0 <= t < vals.len() ==> (#[trigger] vals[t]) != 0i64
    &&& forall|r: int, t: int|
        #![trigger row_pos[r], cols[t]]
        0 <= r < i && row_pos[r] <= t && t + 1 < row_pos[r + 1] ==> cols[t] < cols[t + 1]
    &&& forall|r: int, j: int|
        0 <= r < i && 0 <= j < b.shape.1 ==> filtered_sum(
            cols,
            vals,
            j,
            row_pos[r] as int,
            row_pos[r + 1] as int,
        ) == #[trigger] prod_ent(a, b, r, j)
}

/// Flush rows `[lo_row, hi_row)` of the product onto the assembly buffers:
/// the contiguous chunk a worker owns.
#[verifier::rlimit(50)]
#[verifier::loop_isolation(false)]
fn append_rows(
    a: &CSR,
    b: &CSR,
    lo_row: usize,
    hi_row: usize,
    row_pos: &mut Vec<usize>,
    cols: &mut Vec<usize>,
    vals: &mut Vec<i64>,
)
    requires
        a.wf(),
        b.wf(),
        a.shape.1 == b.shape.0,
        prod_fits(*a, *b),
        lo_row <= hi_row <= a.shape.0,
        partial_csr(*a, *b, old(row_pos)@, old(cols)@, old(vals)@, lo_row as int),
    ensures
        partial_csr(*a, *b, final(row_pos)@, final(cols)@, final(vals)@, hi_row as int),
{
    let mut i = lo_row;
    while i < hi_row
        invariant
            lo_row <= i <= hi_row,
            partial_csr(*a, *b, row_pos@, cols@, vals@, i as int),
        decreases hi_row - i,
    {
        let rowdata = sparse_row(a, b, i);
        let rc = rowdata.0;
        let rv = rowdata.1;
        let seg_start = cols.len();
        let rl = rc.len();
        let ghost cols0 = cols@;
        let ghost vals0 = vals@;
        let mut t: usize = 0;
        while t < rl
            invariant
                t <= rl,
                cols@.len() == seg_start + t,
                vals@.len() == seg_start + t,
                forall|u: int| 0 <= u < seg_start ==> (#[trigger] cols@[u]) == cols0[u],
                forall|u: int| 0 <= u < seg_start ==> (#[trigger] vals@[u]) == vals0[u],
                forall|u: int| 0 <= u < t ==> (#[trigger] cols@[seg_start + u]) == rc@[u],
                forall|u: int| 0 <= u < t ==> (#[trigger] vals@[seg_start + u]) == rv@[u],
            decreases rl - t,
        {
            cols.push(rc[t]);
            vals.push(rv[t]);
            t = t + 1;
        }
        row_pos.push(cols.len());
        proof {
            assert forall|r: int, j: int|
                0 <= r < i + 1 && 0 <= j < b.shape.1 implies filtered_sum(
                cols@,
                vals@,
                j,
                row_pos@[r] as int,
                row_pos@[r + 1] as int,
            ) == #[trigger] prod_ent(*a, *b, r, j) by {
                if r < i {
                    lemma_filtered_sum_congruence(
                        cols@,
                        vals@,
                        cols0,
                        vals0,
                        j,
                        row_pos@[r] as int,
                        row_pos@[r + 1] as int,
                    );
                } else {
                    lemma_filtered_sum_shift(cols@, vals@, rc@, rv@, j, seg_start as int, 0, rl as int);
                }
            }
            assert forall|r: int, t2: int|
                #![trigger row_pos@[r], cols@[t2]]
                0 <= r < i + 1 && row_pos@[r] <= t2 && t2 + 1 < row_pos@[r + 1] implies cols@[t2]
                < cols@[t2 + 1] by {
                if r == i as int {
                    let u = t2 - seg_start;
                    assert(cols@[seg_start + u] == rc@[u]);
                    assert(cols@[seg_start + (u + 1)] == rc@[u + 1]);
                    assert(t2 == seg_start + u && t2 + 1 == seg_start + (u + 1));
                }
            }
            assert forall|t2: int| 0 <= t2 < cols@.len() implies (#[trigger] cols@[t2])
                < b.shape.1 by {
                if t2 < seg_start {
                    assert(cols@[t2] == cols0[t2]);
                } else {
                    let u = t2 - seg_start;
                    assert(cols@[seg_start + u] == rc@[u]);
                }
            }
            assert forall|t2: int| 0 <= t2 < vals@.len() implies (#[trigger] vals@[t2])
                != 0i64 by {
                if t2 < seg_start {
                    assert(vals@[t2] == vals0[t2]);
                } else {
                    let u = t2 - seg_start;
                    assert(vals@[seg_start + u] == rv@[u]);
                }
            }
        }
        i = i + 1;
    }
}

impl CSR {
    /// Row-wise product with a sparse accumulator per output row, flushed in
    /// ascending column order; zero-valued cells are not stored.
    #[verifier::rlimit(50)]
    pub fn product_sparse(&self, other: &CSR) -> (r: Result<CSR, MatError>)
        requires
            self.wf(),
            other.wf(),
            self.shape.1 == other.shape.0 ==> prod_fits(*self, *other),
        ensures
            match r {
                Result::Ok(c) => {
                    &&& self.shape.1 == other.shape.0
                    &&& c.wf()
                    &&& c.rows_strictly_sorted()
                    &&& c.shape == (self.shape.0, other.shape.1)
                    &&& forall|t: int|
                        0 <= t < c.values@.len() ==> (#[trigger] c.values@[t]) != 0i64
                    &&& forall|i: int, j: int|
                        0 <= i < self.shape.0 && 0 <= j < other.shape.1 ==> c.ent(i, j) == prod_ent(
                            *self,
                            *other,
                            i,
                            j,
                        )
                },
                Result::Err(e) => {
                    &&& e == MatError::DimensionMismatch
                    &&& self.shape.1 != other.shape.0
                },
            },
    {
        if self.shape.1 != other.shape.0 {
            return Result::Err(MatError::DimensionMismatch);
        }
        let mut row_pos: Vec<usize> = Vec::new();
        let mut cols: Vec<usize> = Vec::new();
        let mut vals: Vec<i64> = Vec::new();
        row_pos.push(0);
        append_rows(self, other, 0, self.shape.0, &mut row_pos, &mut cols, &mut vals);
        let c = CSR { row_pos, col_pos: cols, values: vals, shape: (self.shape.0, other.shape.1) };
        proof {
            assert forall|i: int, j: int|
                0 <= i < self.shape.0 && 0 <= j < other.shape.1 implies c.ent(i, j) == prod_ent(
                *self,
                *other,
                i,
                j,
            ) by {
                assert(filtered_sum(
                    c.col_pos@,
                    c.values@,
                    j,
                    c.row_pos@[i] as int,
                    c.row_pos@[i + 1] as int,
                ) == prod_ent(*self, *other, i, j));
            }
        }
        Result::Ok(c)
    }

    /// The same product with the output rows handed out to a fixed-size
    /// worker pool in contiguous chunks; each chunk is flushed by the shared
    /// row worker and the flushes are merged in row order.
    #[verifier::rlimit(50)]
    #[verifier::loop_isolation(false)]
    pub fn product_sparse_par(&self, other: &CSR) -> (r: Result<CSR, MatError>)
        requires
            self.wf(),
            other.wf(),
            self.shape.1 == other.shape.0 ==> prod_fits(*self, *other),
        ensures
            match r {
                Result::Ok(c) => {
                    &&& self.shape.1 == other.shape.0
                    &&& c.wf()
                    &&& c.rows_strictly_sorted()
                    &&& c.shape == (self.shape.0, other.shape.1)
                    &&& forall|t: int|
                        0 <= t < c.values@.len() ==> (#[trigger] c.values@[t]) != 0i64
                    &&& forall|i: int, j: int|
                        0 <= i < self.shape.0 && 0 <= j < other.shape.1 ==> c.ent(i, j) == prod_ent(
                            *self,
                            *other,
                            i,
                            j,
                        )
                },
                Result::Err(e) => {
                    &&& e == MatError::DimensionMismatch
                    &&& self.shape.1 != other.shape.0
                },
            },
    {
        if self.shape.1 != other.shape.0 {
            return Result::Err(MatError::DimensionMismatch);
        }
        let m = self.shape.0;
        let workers: usize = 4;
        let chunk = m / workers + 1;
        let mut row_pos: Vec<usize> = Vec::new();
        let mut cols: Vec<usize> = Vec::new();
        let mut vals: Vec<i64> = Vec::new();
        row_pos.push(0);
        let mut start: usize = 0;
        while start < m
            invariant
                start <= m,
                partial_csr(*self, *other, row_pos@, cols@, vals@, start as int),
            decreases m - start,
        {
            let end = if chunk < m - start {
                start + chunk
            } else {
                m
            };
            append_rows(self, other, start, end, &mut row_pos, &mut cols, &mut vals);
            start = end;
        }
        let c = CSR { row_pos, col_pos: cols, values: vals, shape: (self.shape.0, other.shape.1) };
        proof {
            assert forall|i: int, j: int|
                0 <= i < self.shape.0 && 0 <= j < other.shape.1 implies c.ent(i, j) == prod_ent(
                *self,
                *other,
                i,
                j,
            ) by {
                assert(filtered_sum(
                    c.col_pos@,
                    c.values@,
                    j,
                    c.row_pos@[i] as int,
                    c.row_pos@[i + 1] as int,
                ) == prod_ent(*self, *other, i, j));
            }
        }
        Result::Ok(c)
    }
}

/// Assembly state of a coordinate result whose first `i` rows are flushed:
/// strict row-major order, coordinates in range, no zero values stored, and
/// each flushed row carries the product.
pub open spec fn partial_coo(a: CSR, b: CSR, data: Seq<(usize, usize, i64)>, i: int) -> bool {
    &&& forall|p: int|
        0 <= p < data.len() ==> (#[trigger] data[p]).0 < i && (data[p].1 as int) < b.shape.1
            && data[p].2 != 0i64
    &&& forall|p: int|
        0 <= p && p + 1 < data.len() ==> ((#[trigger] data[p]).0 < data[p + 1].0 || (data[p].0
            == data[p + 1].0 && data[p].1 < data[p + 1].1))
    &&& forall|r: int, j: int|
        0 <= r < i && 0 <= j < b.shape.1 ==> triple_sum(data, r, j, data.len() as int)
            == #[trigger] prod_ent(a, b, r, j)
    &&& forall|r: int, j: int|
        #![trigger triple_sum(data, r, j, data.len() as int)]
        i <= r ==> triple_sum(data, r, j, data.len() as int) == 0
}

/// Flush rows `[lo_row, hi_row)` of the product as coordinate triplets:
/// the contiguous chunk a worker owns in the coordinate-list variant.
#[verifier::rlimit(50)]
#[verifier::loop_isolation(false)]
fn append_rows_coo(
    a: &CSR,
    b: &CSR,
    lo_row: usize,
    hi_row: usize,
    data: &mut Vec<(usize, usize, i64)>,
)
    requires
        a.wf(),
        b.wf(),
        a.shape.1 == b.shape.0,
        prod_fits(*a, *b),
        lo_row <= hi_row <= a.shape.0,
        partial_coo(*a, *b, old(data)@, lo_row as int),
    ensures
        partial_coo(*a, *b, final(data)@, hi_row as int),
{
    let mut i = lo_row;
    while i < hi_row
        invariant
            lo_row <= i <= hi_row,
            partial_coo(*a, *b, data@, i as int),
        decreases hi_row - i,
    {
        let rowdata = sparse_row(a, b, i);
        let rc = rowdata.0;
        let rv = rowdata.1;
        let len0 = data.len();
        let rl = rc.len();
        let ghost data0 = data@;
        let mut t: usize = 0;
        while t < rl
            invariant
                t <= rl,
                data@.len() == len0 + t,
                forall|u: int| 0 <= u < len0 ==> (#[trigger] data@[u]) == data0[u],
                forall|u: int| 0 <= u < t ==> (#[trigger] data@[len0 + u]) == (i, rc@[u], rv@[u]),
            decreases rl - t,
        {
            let c0 = rc[t];
            let v0 = rv[t];
            data.push((i, c0, v0));
            t = t + 1;
        }
        proof {
            let nd = data@;
            let nl = nd.len() as int;
            assert forall|u: int| 0 <= u < rl implies (#[trigger] nd[len0 + u]).0 as int == i
                && nd[len0 + u].1 == rc@[u] && nd[len0 + u].2 == rv@[u] by {
                assert(nd[len0 + u] == (i, rc@[u], rv@[u]));
            }
            assert forall|p: int| len0 <= p < nl implies (#[trigger] nd[p]).0 == i by {
                let u = p - len0;
                assert(nd[len0 + u] == (i, rc@[u], rv@[u]));
            }
            assert forall|p: int| 0 <= p < nl implies (#[trigger] nd[p]).0 < i + 1 && (
            nd[p].1 as int) < b.shape.1 && nd[p].2 != 0i64 by {
                if p < len0 {
                    assert(nd[p] == data0[p]);
                } else {
                    let u = p - len0;
                    assert(nd[len0 + u] == (i, rc@[u], rv@[u]));
                }
            }
            assert forall|p: int|
                0 <= p && p + 1 < nl implies ((#[trigger] nd[p]).0 < nd[p + 1].0 || (nd[p].0
                == nd[p + 1].0 && nd[p].1 < nd[p + 1].1)) by {
                if p + 1 < len0 {
                    assert(nd[p] == data0[p]);
                    assert(nd[p + 1] == data0[p + 1]);
                } else if p + 1 == len0 {
                    assert(nd[p] == data0[p]);
                    assert(nd[len0 + 0] == (i, rc@[0], rv@[0]));
                } else {
                    let u = p - len0;
                    assert(nd[len0 + u] == (i, rc@[u], rv@[u]));
                    assert(nd[len0 + (u + 1)] == (i, rc@[u + 1], rv@[u + 1]));
                }
            }
            assert forall|r: int, j: int|
                0 <= r < i + 1 && 0 <= j < b.shape.1 implies triple_sum(nd, r, j, nl)
                == #[trigger] prod_ent(*a, *b, r, j) by {
                lemma_triple_sum_congruence(nd, data0, r, j, len0 as int);
                if r < i {
                    lemma_triple_sum_extend_absent(nd, r, j, len0 as int, nl);
                } else {
                    lemma_triple_sum_segment(nd, r, j, len0 as int, rl as int, rc@, rv@);
                }
            }
            assert forall|r: int, j: int|
                #![trigger triple_sum(nd, r, j, nl)]
                i + 1 <= r implies triple_sum(nd, r, j, nl) == 0 by {
                lemma_triple_sum_congruence(nd, data0, r, j, len0 as int);
                lemma_triple_sum_extend_absent(nd, r, j, len0 as int, nl);
            }
        }
        i = i + 1;
    }
}

impl CSR {
    /// Row-partitioned product emitting a coordinate-list result; the
    /// workers' flushes are concatenated in row order, so the triplets come
    /// out in strict row-major order with no zero values stored.
    #[verifier::rlimit(50)]
    #[verifier::loop_isolation(false)]
    pub fn product_sparse_to_coo_par(&self, other: &CSR) -> (r: Result<COO, MatError>)
        requires
            self.wf(),
            other.wf(),
            self.shape.1 == other.shape.0 ==> prod_fits(*self, *other),
        ensures
            match r {
                Result::Ok(c) => {
                    &&& self.shape.1 == other.shape.0
                    &&& c.wf()
                    &&& c.rows_sorted()
                    &&& c.lex_sorted()
                    &&& c.shape == (self.shape.0, other.shape.1)
                    &&& forall|t: int|
                        0 <= t < c.data@.len() ==> (#[trigger] c.data@[t]).2 != 0i64
                    &&& forall|i: int, j: int|
                        0 <= i < self.shape.0 && 0 <= j < other.shape.1 ==> c.ent(i, j) == prod_ent(
                            *self,
                            *other,
                            i,
                            j,
                        )
                },
                Result::Err(e) => {
                    &&& e == MatError::DimensionMismatch
                    &&& self.shape.1 != other.shape.0
                },
            },
    {
        if self.shape.1 != other.shape.0 {
            return Result::Err(MatError::DimensionMismatch);
        }
        let m = self.shape.0;
        let workers: usize = 4;
        let chunk = m / workers + 1;
        let mut data: Vec<(usize, usize, i64)> = Vec::new();
        let mut start: usize = 0;
        while start < m
            invariant
                start <= m,
                partial_coo(*self, *other, data@, start as int),
            decreases m - start,
        {
            let end = if chunk < m - start {
                start + chunk
            } else {
                m
            };
            append_rows_coo(self, other, start, end, &mut data);
            start = end;
        }
        let c = COO { data, shape: (self.shape.0, other.shape.1) };
        proof {
            assert forall|i: int, j: int|
                0 <= i < self.shape.0 && 0 <= j < other.shape.1 implies c.ent(i, j) == prod_ent(
                *self,
                *other,
                i,
                j,
            ) by {
                assert(triple_sum(c.data@, i, j, c.data@.len() as int) == prod_ent(
                    *self,
                    *other,
                    i,
                    j,
                ));
            }
        }
        Result::Ok(c)
    }
}

} // verus!
