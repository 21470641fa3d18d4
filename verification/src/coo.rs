use vstd::prelude::*;

use crate::dense::Dense;
use crate::sums::{
    lemma_triple_abs_sum_mono, lemma_triple_sum_abs_bound, lemma_triple_sum_congruence,
    triple_abs_sum, triple_sum,
};

verus! {

/// Coordinate-list sparse matrix: triplets `(row, col, value)` in arbitrary
/// order; duplicate coordinates stand for values that consumers sum.
#[derive(Debug)]
pub struct COO {
    pub data: Vec<(usize, usize, i64)>,
    pub shape: (usize, usize),
}

impl COO {
    /// Every triplet's coordinates lie inside the shape.
    pub open spec fn wf(self) -> bool {
        forall|p: int|
            0 <= p < self.data@.len() ==> (#[trigger] self.data@[p]).0 < self.shape.0
                && self.data@[p].1 < self.shape.1
    }

    /// Row indices never decrease along the triplet list.
    pub open spec fn rows_sorted(self) -> bool {
        forall|p: int|
            0 <= p && p + 1 < self.data@.len() ==> (#[trigger] self.data@[p]).0
                <= self.data@[p + 1].0
    }

    /// The mathematical entry at `(i, j)`: duplicates are summed.
    pub open spec fn ent(self, i: int, j: int) -> int {
        triple_sum(self.data@, i, j, self.data@.len() as int)
    }

    /// Sum of the absolute values stored at `(i, j)`.
    pub open spec fn abs_ent(self, i: int, j: int) -> int {
        triple_abs_sum(self.data@, i, j, self.data@.len() as int)
    }

    /// Triplets are strictly ordered by (row, column): row-major order with
    /// no duplicate coordinates.
    pub open spec fn lex_sorted(self) -> bool {
        forall|p: int|
            0 <= p && p + 1 < self.data@.len() ==> ((#[trigger] self.data@[p]).0
                < self.data@[p + 1].0 || (self.data@[p].0 == self.data@[p + 1].0 && self.data@[p].1
                < self.data@[p + 1].1))
    }

    /// Row order is transitive along the list.
    pub proof fn lemma_rows_sorted_mono(self, p: int, q: int)
        requires
            self.rows_sorted(),
            0 <= p <= q < self.data@.len(),
        ensures
            self.data@[p].0 <= self.data@[q].0,
        decreases q - p,
    {
        if p < q {
            self.lemma_rows_sorted_mono(p, q - 1);
        }
    }

    /// Dense expansion: duplicates are summed.
    pub fn to_dense(&self) -> (r: Dense)
        requires
            self.wf(),
            self.shape.0 * self.shape.1 <= usize::MAX,
            forall|i: int, j: int|
                0 <= i < self.shape.0 && 0 <= j < self.shape.1 ==> self.abs_ent(i, j) <= i64::MAX,
        ensures
            r.wf(),
            r.shape == self.shape,
            forall|i: int, j: int|
                0 <= i < self.shape.0 && 0 <= j < self.shape.1 ==> r.ent(i, j) == self.ent(i, j),
    {
        let mut mat = Dense::new_zeros(self.shape);
        let n = self.data.len();
        let mut p: usize = 0;
        while p < n
            invariant
                p <= n,
                n == self.data@.len(),
                self.wf(),
                forall|i: int, j: int|
                    0 <= i < self.shape.0 && 0 <= j < self.shape.1 ==> self.abs_ent(i, j)
                        <= i64::MAX,
                mat.wf(),
                mat.shape == self.shape,
                forall|i: int, j: int|
                    0 <= i < self.shape.0 && 0 <= j < self.shape.1 ==> mat.ent(i, j) == triple_sum(
                        self.data@,
                        i,
                        j,
                        p as int,
                    ),
            decreases n - p,
        {
            let t = self.data[p];
            let cur = mat.get(t.0, t.1);
            let ghost i0 = t.0 as int;
            let ghost j0 = t.1 as int;
            proof {
                assert(cur as int == triple_sum(self.data@, i0, j0, p as int));
                assert(triple_sum(self.data@, i0, j0, p + 1) == triple_sum(self.data@, i0, j0, p as int)
                    + t.2 as int);
                lemma_triple_sum_abs_bound(self.data@, i0, j0, p + 1);
                lemma_triple_abs_sum_mono(self.data@, i0, j0, p + 1, n as int);
                assert(self.abs_ent(i0, j0) <= i64::MAX);
            }
            mat.set(t.0, t.1, cur + t.2);
            proof {
                assert forall|i: int, j: int|
                    0 <= i < self.shape.0 && 0 <= j < self.shape.1 implies mat.ent(i, j)
                    == triple_sum(self.data@, i, j, p + 1) by {
                    if !(i == i0 && j == j0) {
                        assert(triple_sum(self.data@, i, j, p + 1) == triple_sum(
                            self.data@,
                            i,
                            j,
                            p as int,
                        ));
                    }
                }
            }
            p = p + 1;
        }
        mat
    }
}

impl Dense {
    /// Read the cells back as coordinate triplets in row-major order,
    /// skipping zero cells.
    #[verifier::loop_isolation(false)]
    pub fn to_coo(&self) -> (r: COO)
        requires
            self.wf(),
        ensures
            r.wf(),
            r.rows_sorted(),
            r.lex_sorted(),
            r.shape == self.shape,
            forall|t: int| 0 <= t < r.data@.len() ==> (#[trigger] r.data@[t]).2 != 0i64,
            forall|i: int, j: int|
                0 <= i < self.shape.0 && 0 <= j < self.shape.1 ==> r.ent(i, j) == self.ent(i, j),
    {
        let m = self.shape.0;
        let n = self.shape.1;
        let mut data: Vec<(usize, usize, i64)> = Vec::new();
        let mut i: usize = 0;
        while i < m
            invariant
                i <= m,
                forall|p: int|
                    0 <= p < data@.len() ==> (#[trigger] data@[p]).0 < i && data@[p].1 < n
                        && data@[p].2 != 0i64,
                forall|p: int|
                    0 <= p && p + 1 < data@.len() ==> ((#[trigger] data@[p]).0 < data@[p + 1].0 || (
                    data@[p].0 == data@[p + 1].0 && data@[p].1 < data@[p + 1].1)),
                forall|i2: int, j2: int|
                    #![trigger triple_sum(data@, i2, j2, data@.len() as int)]
                    0 <= i2 < i && 0 <= j2 < n ==> triple_sum(data@, i2, j2, data@.len() as int)
                        == self.ent(i2, j2),
                forall|i2: int, j2: int|
                    #![trigger triple_sum(data@, i2, j2, data@.len() as int)]
                    i <= i2 ==> triple_sum(data@, i2, j2, data@.len() as int) == 0,
            decreases m - i,
        {
            let mut j: usize = 0;
            while j < n
                invariant
                    j <= n,
                    forall|p: int|
                        0 <= p < data@.len() ==> ((#[trigger] data@[p]).0 < i || (data@[p].0 == i
                            && data@[p].1 < j)) && data@[p].1 < n && data@[p].2 != 0i64,
                    forall|p: int|
                        0 <= p && p + 1 < data@.len() ==> ((#[trigger] data@[p]).0 < data@[p
                            + 1].0 || (data@[p].0 == data@[p + 1].0 && data@[p].1 < data@[p
                            + 1].1)),
                    forall|i2: int, j2: int|
                        #![trigger triple_sum(data@, i2, j2, data@.len() as int)]
                        0 <= i2 < i && 0 <= j2 < n ==> triple_sum(data@, i2, j2, data@.len() as int)
                            == self.ent(i2, j2),
                    forall|j2: int|
                        #![trigger triple_sum(data@, i as int, j2, data@.len() as int)]
                        0 <= j2 < j ==> triple_sum(data@, i as int, j2, data@.len() as int)
                            == self.ent(i as int, j2),
                    forall|j2: int|
                        #![trigger triple_sum(data@, i as int, j2, data@.len() as int)]
                        j <= j2 ==> triple_sum(data@, i as int, j2, data@.len() as int) == 0,
                    forall|i2: int, j2: int|
                        #![trigger triple_sum(data@, i2, j2, data@.len() as int)]
                        i < i2 ==> triple_sum(data@, i2, j2, data@.len() as int) == 0,
                decreases n - j,
            {
                let v = self.get(i, j);
                if v != 0 {
                    let ghost data0 = data@;
                    data.push((i, j, v));
                    proof {
                        let nd = data@;
                        let nl = nd.len() as int;
                        assert(nd[nl - 1] == (i, j, v));
                        assert forall|i2: int, j2: int|
                            true implies #[trigger] triple_sum(nd, i2, j2, nl) == triple_sum(
                            data0,
                            i2,
                            j2,
                            nl - 1,
                        ) + (if i2 == i as int && j2 == j as int {
                            v as int
                        } else {
                            0int
                        }) by {
                            lemma_triple_sum_congruence(nd, data0, i2, j2, nl - 1);
                        }
                    }
                }
                j = j + 1;
            }
            i = i + 1;
        }
        let r = COO { data, shape: self.shape };
        r
    }
}

} // verus!
