use vstd::prelude::*;

use crate::coo::COO;
use crate::dense::Dense;
use crate::sums::{
    count_rows_lt, filtered_abs_sum, filtered_sum, lemma_count_rows_lt_mono,
    lemma_count_rows_lt_split, lemma_filtered_abs_sum_mono, lemma_filtered_sum_abs_bound,
};

verus! {

/// Compressed sparse row matrix: `row_pos[i] .. row_pos[i+1]` delimits row
/// `i`'s slice of the parallel `col_pos` / `values` arrays.
#[derive(Debug)]
pub struct CSR {
    pub row_pos: Vec<usize>,
    pub col_pos: Vec<usize>,
    pub values: Vec<i64>,
    pub shape: (usize, usize),
}

impl CSR {
    pub open spec fn wf(self) -> bool {
        &&& self.row_pos@.len() == self.shape.0 + 1
        &&& self.row_pos@[0] == 0
        &&& self.row_pos@[self.shape.0 as int] as int == self.values@.len()
        &&& forall|r: int|
            0 <= r < self.shape.0 ==> (#[trigger] self.row_pos@[r]) <= self.row_pos@[r + 1]
        &&& self.col_pos@.len() == self.values@.len()
        &&& forall|p: int|
            0 <= p < self.col_pos@.len() ==> (#[trigger] self.col_pos@[p]) < self.shape.1
    }

    /// Start of row `i`'s slice.
    pub open spec fn row_lo(self, i: int) -> int {
        self.row_pos@[i] as int
    }

    /// End of row `i`'s slice.
    pub open spec fn row_hi(self, i: int) -> int {
        self.row_pos@[i + 1] as int
    }

    /// The mathematical entry at `(i, j)`: duplicates within a row are summed.
    pub open spec fn ent(self, i: int, j: int) -> int {
        filtered_sum(self.col_pos@, self.values@, j, self.row_lo(i), self.row_hi(i))
    }

    /// Sum of the absolute values stored at `(i, j)`.
    pub open spec fn abs_ent(self, i: int, j: int) -> int {
        filtered_abs_sum(self.col_pos@, self.values@, j, self.row_lo(i), self.row_hi(i))
    }

    /// Within every row the column indices strictly increase (so no
    /// duplicate columns and no unsorted rows).
    pub open spec fn rows_strictly_sorted(self) -> bool {
        forall|r: int, t: int|
            #![trigger self.row_pos@[r], self.col_pos@[t]]
            0 <= r < self.shape.0 && self.row_pos@[r] <= t && t + 1 < self.row_pos@[r + 1]
                ==> self.col_pos@[t] < self.col_pos@[t + 1]
    }

    /// Row boundaries are monotone.
    pub proof fn lemma_row_pos_mono(self, r1: int, r2: int)
        requires
            self.wf(),
            0 <= r1 <= r2 <= self.shape.0,
        ensures
            self.row_pos@[r1] <= self.row_pos@[r2],
        decreases r2 - r1,
    {
        if r1 < r2 {
            self.lemma_row_pos_mono(r1, r2 - 1);
        }
    }

    /// Every row slice lies inside the parallel arrays.
    pub proof fn lemma_row_bounds(self, i: int)
        requires
            self.wf(),
            0 <= i < self.shape.0,
        ensures
            0 <= self.row_lo(i) <= self.row_hi(i) <= self.values@.len(),
    {
        self.lemma_row_pos_mono(i + 1, self.shape.0 as int);
    }

    /// The structural relation that conversion from COO establishes:
    /// columns and values are carried over in order, and each row boundary is
    /// the number of triplets whose row index lies below it.
    pub open spec fn from_coo_rel(coo: COO, c: CSR) -> bool {
        &&& c.shape == coo.shape
        &&& c.col_pos@.len() == coo.data@.len()
        &&& c.values@.len() == coo.data@.len()
        &&& forall|p: int|
            0 <= p < coo.data@.len() ==> c.col_pos@[p] == (#[trigger] coo.data@[p]).1
                && c.values@[p] == coo.data@[p].2
        &&& c.row_pos@.len() == coo.shape.0 + 1
        &&& forall|r: int|
            0 <= r <= coo.shape.0 ==> (#[trigger] c.row_pos@[r]) as int == count_rows_lt(
                coo.data@,
                r,
                coo.data@.len() as int,
            )
    }

    /// Build the compressed form from a coordinate list whose row indices
    /// never decrease. The list is consumed.
    pub fn from_coo(coo: COO) -> (c: CSR)
        requires
            coo.wf(),
            coo.rows_sorted(),
        ensures
            Self::from_coo_rel(coo, c),
            c.wf(),
    {
        let shape = coo.shape;
        let n = coo.data.len();
        let mut row_pos: Vec<usize> = Vec::new();
        let mut col_pos: Vec<usize> = Vec::new();
        let mut values: Vec<i64> = Vec::new();
        let mut curr_row: usize = 0;
        row_pos.push(0);
        proof {
            lemma_count_rows_lt_split(coo.data@, 0, n as int, 0);
        }
        let mut idx: usize = 0;
        while idx < n
            invariant
                idx <= n,
                n == coo.data@.len(),
                coo.wf(),
                coo.rows_sorted(),
                shape == coo.shape,
                idx == 0 ==> curr_row == 0,
                idx > 0 ==> curr_row == coo.data@[idx - 1].0,
                forall|p: int| 0 <= p < idx ==> (#[trigger] coo.data@[p]).0 <= curr_row,
                row_pos@.len() == curr_row + 1,
                curr_row <= shape.0,
                forall|r: int|
                    0 <= r <= curr_row ==> (#[trigger] row_pos@[r]) as int == count_rows_lt(
                        coo.data@,
                        r,
                        n as int,
                    ),
                col_pos@.len() == idx,
                values@.len() == idx,
                forall|p: int|
                    0 <= p < idx ==> col_pos@[p] == (#[trigger] coo.data@[p]).1 && values@[p]
                        == coo.data@[p].2,
            decreases n - idx,
        {
            let t = coo.data[idx];
            let i = t.0;
            if curr_row < i {
                let mut r = curr_row;
                while r < i
                    invariant
                        curr_row <= r <= i,
                        idx < n,
                        n == coo.data@.len(),
                        coo.rows_sorted(),
                        i == coo.data@[idx as int].0,
                        forall|p: int| 0 <= p < idx ==> (#[trigger] coo.data@[p]).0 <= curr_row,
                        row_pos@.len() == r + 1,
                        forall|rr: int|
                            0 <= rr <= r ==> (#[trigger] row_pos@[rr]) as int == count_rows_lt(
                                coo.data@,
                                rr,
                                n as int,
                            ),
                    decreases i - r,
                {
                    proof {
                        assert forall|q: int| idx <= q < n implies (#[trigger] coo.data@[q]).0
                            >= r + 1 by {
                            coo.lemma_rows_sorted_mono(idx as int, q);
                        }
                        lemma_count_rows_lt_split(coo.data@, r + 1, n as int, idx as int);
                    }
                    row_pos.push(idx);
                    r = r + 1;
                }
                curr_row = i;
            }
            col_pos.push(t.1);
            values.push(t.2);
            proof {
                if idx > 0 {
                    coo.lemma_rows_sorted_mono(idx - 1, idx as int);
                }
                assert forall|p: int| 0 <= p < idx + 1 implies (#[trigger] coo.data@[p]).0
                    <= curr_row by {
                    if p < idx {
                        coo.lemma_rows_sorted_mono(p, idx as int);
                    }
                }
            }
            idx = idx + 1;
        }
        let mut r = curr_row;
        while r < shape.0
            invariant
                curr_row <= r <= shape.0,
                n == coo.data@.len(),
                coo.wf(),
                shape == coo.shape,
                forall|p: int| 0 <= p < n ==> (#[trigger] coo.data@[p]).0 <= curr_row,
                row_pos@.len() == r + 1,
                values@.len() == n,
                forall|rr: int|
                    0 <= rr <= r ==> (#[trigger] row_pos@[rr]) as int == count_rows_lt(
                        coo.data@,
                        rr,
                        n as int,
                    ),
            decreases shape.0 - r,
        {
            proof {
                lemma_count_rows_lt_split(coo.data@, r + 1, n as int, n as int);
            }
            row_pos.push(values.len());
            r = r + 1;
        }
        let c = CSR { row_pos, col_pos, values, shape };
        proof {
            assert forall|rr: int| 0 <= rr < c.shape.0 implies (#[trigger] c.row_pos@[rr])
                <= c.row_pos@[rr + 1] by {
                lemma_count_rows_lt_mono(coo.data@, rr, rr + 1, n as int);
            }
            lemma_count_rows_lt_split(coo.data@, 0, n as int, 0);
            lemma_count_rows_lt_split(coo.data@, shape.0 as int, n as int, n as int);
            assert forall|p: int| 0 <= p < c.col_pos@.len() implies (#[trigger] c.col_pos@[p])
                < c.shape.1 by {
                assert(coo.data@[p].1 < coo.shape.1);
            }
        }
        c
    }

    /// Dense expansion of the compressed form: duplicates are summed.
    pub fn to_dense(&self) -> (r: Dense)
        requires
            self.wf(),
            self.shape.0 * self.shape.1 <= usize::MAX,
            forall|i: int, j: int|
                0 <= i < self.shape.0 && 0 <= j < self.shape.1 ==> self.abs_ent(i, j) <= i64::MAX,
        ensures
            r.wf(),
            r.shape == self.shape,
            forall|i: int, j: int|
                0 <= i < self.shape.0 && 0 <= j < self.shape.1 ==> r.ent(i, j) == self.ent(i, j),
    {
        let m = self.shape.0;
        let mut mat = Dense::new_zeros(self.shape);
        let mut i: usize = 0;
        while i < m
            invariant
                i <= m,
                m == self.shape.0,
                self.wf(),
                forall|i2: int, j: int|
                    0 <= i2 < self.shape.0 && 0 <= j < self.shape.1 ==> self.abs_ent(i2, j)
                        <= i64::MAX,
                mat.wf(),
                mat.shape == self.shape,
                forall|i2: int, j: int|
                    0 <= i2 < i && 0 <= j < self.shape.1 ==> mat.ent(i2, j) == self.ent(i2, j),
                forall|i2: int, j: int|
                    i <= i2 < self.shape.0 && 0 <= j < self.shape.1 ==> mat.ent(i2, j) == 0,
            decreases m - i,
        {
            proof {
                self.lemma_row_bounds(i as int);
            }
            let lo = self.row_pos[i];
            let hi = self.row_pos[i + 1];
            let mut p = lo;
            while p < hi
                invariant
                    lo <= p <= hi,
                    lo as int == self.row_lo(i as int),
                    hi as int == self.row_hi(i as int),
                    i < m,
                    m == self.shape.0,
                    self.wf(),
                    hi <= self.values@.len(),
                    forall|i2: int, j: int|
                        0 <= i2 < self.shape.0 && 0 <= j < self.shape.1 ==> self.abs_ent(i2, j)
                            <= i64::MAX,
                    mat.wf(),
                    mat.shape == self.shape,
                    forall|i2: int, j: int|
                        0 <= i2 < i && 0 <= j < self.shape.1 ==> mat.ent(i2, j) == self.ent(i2, j),
                    forall|i2: int, j: int|
                        i < i2 < self.shape.0 && 0 <= j < self.shape.1 ==> mat.ent(i2, j) == 0,
                    forall|j: int|
                        0 <= j < self.shape.1 ==> mat.ent(i as int, j) == filtered_sum(
                            self.col_pos@,
                            self.values@,
                            j,
                            lo as int,
                            p as int,
                        ),
                decreases hi - p,
            {
                let k = self.col_pos[p];
                let v = self.values[p];
                let cur = mat.get(i, k);
                proof {
                    assert(cur as int == filtered_sum(
                        self.col_pos@,
                        self.values@,
                        k as int,
                        lo as int,
                        p as int,
                    ));
                    assert(filtered_sum(self.col_pos@, self.values@, k as int, lo as int, p + 1)
                        == filtered_sum(self.col_pos@, self.values@, k as int, lo as int, p as int)
                        + v as int);
                    lemma_filtered_sum_abs_bound(self.col_pos@, self.values@, k as int, lo as int, p + 1);
                    lemma_filtered_abs_sum_mono(
                        self.col_pos@,
                        self.values@,
                        k as int,
                        lo as int,
                        p + 1,
                        hi as int,
                    );
                    assert(self.abs_ent(i as int, k as int) <= i64::MAX);
                }
                mat.set(i, k, cur + v);
                proof {
                    assert forall|j: int| 0 <= j < self.shape.1 implies mat.ent(i as int, j)
                        == filtered_sum(self.col_pos@, self.values@, j, lo as int, p + 1) by {
                        if j != k as int {
                            assert(filtered_sum(self.col_pos@, self.values@, j, lo as int, p + 1)
                                == filtered_sum(
                                self.col_pos@,
                                self.values@,
                                j,
                                lo as int,
                                p as int,
                            ));
                        }
                    }
                }
                p = p + 1;
            }
            i = i + 1;
        }
        mat
    }
}

} // verus!
