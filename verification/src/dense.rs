use vstd::prelude::*;

verus! {

/// Dense row-major matrix of 64-bit integer entries.
#[derive(Debug)]
pub struct Dense {
    pub data: Vec<i64>,
    pub shape: (usize, usize),
}

/// A row-major position lies inside the flat buffer.
pub proof fn lemma_flat_index(i: int, j: int, rows: int, cols: int)
    requires
        0 <= i < rows,
        0 <= j < cols,
    ensures
        0 <= i * cols + j,
        i * cols + j < rows * cols,
{
    assert(0 <= i * cols + j && i * cols + j < rows * cols) by (nonlinear_arith)
        requires
            0 <= i < rows,
            0 <= j < cols,
    ;
}

/// Distinct positions have distinct flat indices.
pub proof fn lemma_flat_index_injective(i1: int, j1: int, i2: int, j2: int, cols: int)
    requires
        0 <= i1,
        0 <= i2,
        0 <= j1 < cols,
        0 <= j2 < cols,
        !(i1 == i2 && j1 == j2),
    ensures
        i1 * cols + j1 != i2 * cols + j2,
{
    assert(i1 * cols + j1 != i2 * cols + j2) by (nonlinear_arith)
        requires
            0 <= i1,
            0 <= i2,
            0 <= j1 < cols,
            0 <= j2 < cols,
            !(i1 == i2 && j1 == j2),
    ;
}

impl Dense {
    /// The flat buffer holds exactly `rows * cols` entries.
    pub open spec fn wf(self) -> bool {
        &&& self.data@.len() == self.shape.0 * self.shape.1
        &&& self.shape.0 * self.shape.1 <= usize::MAX
    }

    /// The entry at row `i`, column `j`.
    pub open spec fn ent(self, i: int, j: int) -> int {
        self.data@[i * self.shape.1 + j] as int
    }

    pub fn new_zeros(shape: (usize, usize)) -> (r: Dense)
        requires
            shape.0 * shape.1 <= usize::MAX,
        ensures
            r.wf(),
            r.shape == shape,
            forall|i: int, j: int|
                0 <= i < shape.0 && 0 <= j < shape.1 ==> r.ent(i, j) == 0,
    {
        let n = shape.0 * shape.1;
        let mut data: Vec<i64> = Vec::new();
        let mut k: usize = 0;
        while k < n
            invariant
                k <= n,
                data@.len() == k,
                forall|p: int| 0 <= p < k ==> data@[p] == 0i64,
            decreases n - k,
        {
            data.push(0);
            k = k + 1;
        }
        let r = Dense { data, shape };
        proof {
            assert forall|i: int, j: int|
                0 <= i < shape.0 && 0 <= j < shape.1 implies r.ent(i, j) == 0 by {
                lemma_flat_index(i, j, shape.0 as int, shape.1 as int);
            }
        }
        r
    }

    pub fn get(&self, i: usize, j: usize) -> (r: i64)
        requires
            self.wf(),
            i < self.shape.0,
            j < self.shape.1,
        ensures
            r as int == self.ent(i as int, j as int),
    {
        proof {
            lemma_flat_index(i as int, j as int, self.shape.0 as int, self.shape.1 as int);
        }
        self.data[i * self.shape.1 + j]
    }

    pub fn set(&mut self, i: usize, j: usize, v: i64)
        requires
            old(self).wf(),
            i < old(self).shape.0,
            j < old(self).shape.1,
        ensures
            final(self).wf(),
            final(self).shape == old(self).shape,
            final(self).ent(i as int, j as int) == v as int,
            forall|i2: int, j2: int|
                0 <= i2 < old(self).shape.0 && 0 <= j2 < old(self).shape.1 && !(i2 == i as int
                    && j2 == j as int) ==> final(self).ent(i2, j2) == old(self).ent(i2, j2),
    {
        proof {
            lemma_flat_index(i as int, j as int, self.shape.0 as int, self.shape.1 as int);
        }
        let idx = i * self.shape.1 + j;
        self.data.set(idx, v);
        proof {
            assert forall|i2: int, j2: int|
                0 <= i2 < self.shape.0 && 0 <= j2 < self.shape.1 && !(i2 == i as int && j2
                    == j as int) implies self.ent(i2, j2) == old(self).ent(i2, j2) by {
                lemma_flat_index(i2, j2, self.shape.0 as int, self.shape.1 as int);
                lemma_flat_index_injective(i2, j2, i as int, j as int, self.shape.1 as int);
            }
        }
    }
}

} // verus!
