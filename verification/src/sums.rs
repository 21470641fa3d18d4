//! Spec-level sums over column/value sequences and over coordinate triplets,
//! with the small lemmas about them that the engine proofs lean on.

use vstd::prelude::*;

verus! {

pub open spec fn int_abs(x: int) -> int {
    if x < 0 {
        -x
    } else {
        x
    }
}

/// Sum of `vals[p]` over `p` in `[lo, hi)` with `cols[p] == j`.
pub open spec fn filtered_sum(cols: Seq<usize>, vals: Seq<i64>, j: int, lo: int, hi: int) -> int
    decreases hi - lo,
{
    if hi <= lo {
        0
    } else {
        filtered_sum(cols, vals, j, lo, hi - 1) + if cols[hi - 1] as int == j {
            vals[hi - 1] as int
        } else {
            0
        }
    }
}

/// Sum of `|vals[p]|` over `p` in `[lo, hi)` with `cols[p] == j`.
pub open spec fn filtered_abs_sum(cols: Seq<usize>, vals: Seq<i64>, j: int, lo: int, hi: int) -> int
    decreases hi - lo,
{
    if hi <= lo {
        0
    } else {
        filtered_abs_sum(cols, vals, j, lo, hi - 1) + if cols[hi - 1] as int == j {
            int_abs(vals[hi - 1] as int)
        } else {
            0
        }
    }
}

/// Two sequence pairs that agree on `[lo, hi)` have the same filtered sums there.
pub proof fn lemma_filtered_sum_congruence(
    cols1: Seq<usize>,
    vals1: Seq<i64>,
    cols2: Seq<usize>,
    vals2: Seq<i64>,
    j: int,
    lo: int,
    hi: int,
)
    requires
        forall|p: int| lo <= p < hi ==> cols1[p] == cols2[p] && vals1[p] == vals2[p],
    ensures
        filtered_sum(cols1, vals1, j, lo, hi) == filtered_sum(cols2, vals2, j, lo, hi),
        filtered_abs_sum(cols1, vals1, j, lo, hi) == filtered_abs_sum(cols2, vals2, j, lo, hi),
    decreases hi - lo,
{
    if hi > lo {
        lemma_filtered_sum_congruence(cols1, vals1, cols2, vals2, j, lo, hi - 1);
    }
}

pub proof fn lemma_filtered_abs_sum_nonneg(
    cols: Seq<usize>,
    vals: Seq<i64>,
    j: int,
    lo: int,
    hi: int,
)
    ensures
        filtered_abs_sum(cols, vals, j, lo, hi) >= 0,
    decreases hi - lo,
{
    if hi > lo {
        lemma_filtered_abs_sum_nonneg(cols, vals, j, lo, hi - 1);
    }
}

/// The absolute filtered sum grows with the upper end of the range.
pub proof fn lemma_filtered_abs_sum_mono(
    cols: Seq<usize>,
    vals: Seq<i64>,
    j: int,
    lo: int,
    h1: int,
    h2: int,
)
    requires
        h1 <= h2,
    ensures
        filtered_abs_sum(cols, vals, j, lo, h1) <= filtered_abs_sum(cols, vals, j, lo, h2),
    decreases h2 - h1,
{
    if h1 < h2 {
        lemma_filtered_abs_sum_mono(cols, vals, j, lo, h1, h2 - 1);
    }
}

/// A filtered sum is bounded by the matching absolute sum.
pub proof fn lemma_filtered_sum_abs_bound(
    cols: Seq<usize>,
    vals: Seq<i64>,
    j: int,
    lo: int,
    hi: int,
)
    ensures
        int_abs(filtered_sum(cols, vals, j, lo, hi)) <= filtered_abs_sum(cols, vals, j, lo, hi),
    decreases hi - lo,
{
    if hi > lo {
        lemma_filtered_sum_abs_bound(cols, vals, j, lo, hi - 1);
    }
}

/// Unfolding a filtered sum at the bottom of its range.
pub proof fn lemma_filtered_sum_split_lo(
    cols: Seq<usize>,
    vals: Seq<i64>,
    j: int,
    lo: int,
    hi: int,
)
    requires
        lo < hi,
    ensures
        filtered_sum(cols, vals, j, lo, hi) == filtered_sum(cols, vals, j, lo + 1, hi)
            + if cols[lo] as int == j {
            vals[lo] as int
        } else {
            0
        },
    decreases hi - lo,
{
    if lo + 1 < hi {
        lemma_filtered_sum_split_lo(cols, vals, j, lo, hi - 1);
    } else {
        assert(filtered_sum(cols, vals, j, lo, lo) == 0);
        assert(filtered_sum(cols, vals, j, lo + 1, hi) == 0);
    }
}

/// A column absent from the range contributes nothing.
pub proof fn lemma_filtered_sum_absent(cols: Seq<usize>, vals: Seq<i64>, j: int, lo: int, hi: int)
    requires
        forall|p: int| lo <= p < hi ==> cols[p] as int != j,
    ensures
        filtered_sum(cols, vals, j, lo, hi) == 0,
    decreases hi - lo,
{
    if hi > lo {
        lemma_filtered_sum_absent(cols, vals, j, lo, hi - 1);
    }
}

/// A column held by exactly one position of the range contributes its value alone.
pub proof fn lemma_filtered_sum_unique(
    cols: Seq<usize>,
    vals: Seq<i64>,
    j: int,
    lo: int,
    hi: int,
    p0: int,
)
    requires
        lo <= p0 < hi,
        cols[p0] as int == j,
        forall|p: int| lo <= p < hi && p != p0 ==> cols[p] as int != j,
    ensures
        filtered_sum(cols, vals, j, lo, hi) == vals[p0] as int,
    decreases hi - lo,
{
    if p0 == hi - 1 {
        lemma_filtered_sum_absent(cols, vals, j, lo, hi - 1);
    } else {
        lemma_filtered_sum_unique(cols, vals, j, lo, hi - 1, p0);
    }
}

/// A filtered sum is unchanged by shifting the range onto a copied segment.
pub proof fn lemma_filtered_sum_shift(
    cols1: Seq<usize>,
    vals1: Seq<i64>,
    cols2: Seq<usize>,
    vals2: Seq<i64>,
    j: int,
    off: int,
    lo: int,
    hi: int,
)
    requires
        forall|u: int| lo <= u < hi ==> cols1[off + u] == (#[trigger] cols2[u]) && vals1[off + u]
            == vals2[u],
    ensures
        filtered_sum(cols1, vals1, j, off + lo, off + hi) == filtered_sum(cols2, vals2, j, lo, hi),
    decreases hi - lo,
{
    if lo < hi {
        lemma_filtered_sum_shift(cols1, vals1, cols2, vals2, j, off, lo, hi - 1);
        assert(cols1[off + (hi - 1)] == cols2[hi - 1] && vals1[off + (hi - 1)] == vals2[hi - 1]);
        assert(off + hi - 1 == off + (hi - 1));
    }
}

/// Sum of `data[p].2` over `p` in `[0, hi)` with coordinates `(i, j)`.
pub open spec fn triple_sum(data: Seq<(usize, usize, i64)>, i: int, j: int, hi: int) -> int
    decreases hi,
{
    if hi <= 0 {
        0
    } else {
        triple_sum(data, i, j, hi - 1) + if data[hi - 1].0 as int == i && data[hi - 1].1 as int
            == j {
            data[hi - 1].2 as int
        } else {
            0
        }
    }
}

/// Sum of `|data[p].2|` over `p` in `[0, hi)` with coordinates `(i, j)`.
pub open spec fn triple_abs_sum(data: Seq<(usize, usize, i64)>, i: int, j: int, hi: int) -> int
    decreases hi,
{
    if hi <= 0 {
        0
    } else {
        triple_abs_sum(data, i, j, hi - 1) + if data[hi - 1].0 as int == i && data[hi - 1].1 as int
            == j {
            int_abs(data[hi - 1].2 as int)
        } else {
            0
        }
    }
}

/// Two triplet lists that agree on `[0, hi)` have the same sums there.
pub proof fn lemma_triple_sum_congruence(
    data1: Seq<(usize, usize, i64)>,
    data2: Seq<(usize, usize, i64)>,
    i: int,
    j: int,
    hi: int,
)
    requires
        forall|p: int| 0 <= p < hi ==> (#[trigger] data1[p]) == data2[p],
    ensures
        triple_sum(data1, i, j, hi) == triple_sum(data2, i, j, hi),
        triple_abs_sum(data1, i, j, hi) == triple_abs_sum(data2, i, j, hi),
    decreases hi,
{
    if hi > 0 {
        lemma_triple_sum_congruence(data1, data2, i, j, hi - 1);
    }
}

pub proof fn lemma_triple_abs_sum_nonneg(data: Seq<(usize, usize, i64)>, i: int, j: int, hi: int)
    ensures
        triple_abs_sum(data, i, j, hi) >= 0,
    decreases hi,
{
    if hi > 0 {
        lemma_triple_abs_sum_nonneg(data, i, j, hi - 1);
    }
}

pub proof fn lemma_triple_abs_sum_mono(
    data: Seq<(usize, usize, i64)>,
    i: int,
    j: int,
    h1: int,
    h2: int,
)
    requires
        h1 <= h2,
    ensures
        triple_abs_sum(data, i, j, h1) <= triple_abs_sum(data, i, j, h2),
    decreases h2 - h1,
{
    if h1 < h2 {
        lemma_triple_abs_sum_mono(data, i, j, h1, h2 - 1);
    }
}

pub proof fn lemma_triple_sum_abs_bound(data: Seq<(usize, usize, i64)>, i: int, j: int, hi: int)
    ensures
        int_abs(triple_sum(data, i, j, hi)) <= triple_abs_sum(data, i, j, hi),
    decreases hi,
{
    if hi > 0 {
        lemma_triple_sum_abs_bound(data, i, j, hi - 1);
    }
}

/// A coordinate pair absent from the prefix contributes nothing.
pub proof fn lemma_triple_sum_absent(data: Seq<(usize, usize, i64)>, i: int, j: int, hi: int)
    requires
        forall|p: int|
            0 <= p < hi ==> !(data[p].0 as int == i && data[p].1 as int == j),
    ensures
        triple_sum(data, i, j, hi) == 0,
    decreases hi,
{
    if hi > 0 {
        lemma_triple_sum_absent(data, i, j, hi - 1);
    }
}

/// A coordinate pair held by exactly one triplet contributes its value alone.
pub proof fn lemma_triple_sum_unique(
    data: Seq<(usize, usize, i64)>,
    i: int,
    j: int,
    hi: int,
    p0: int,
)
    requires
        0 <= p0 < hi,
        data[p0].0 as int == i,
        data[p0].1 as int == j,
        forall|p: int|
            0 <= p < hi && p != p0 ==> !(data[p].0 as int == i && data[p].1 as int == j),
    ensures
        triple_sum(data, i, j, hi) == data[p0].2 as int,
    decreases hi,
{
    if p0 == hi - 1 {
        lemma_triple_sum_absent(data, i, j, hi - 1);
    } else {
        lemma_triple_sum_unique(data, i, j, hi - 1, p0);
    }
}

/// Extending the range by triplets that miss `(i, j)` leaves the sum alone.
pub proof fn lemma_triple_sum_extend_absent(
    data: Seq<(usize, usize, i64)>,
    i: int,
    j: int,
    h1: int,
    h2: int,
)
    requires
        0 <= h1 <= h2,
        forall|p: int|
            h1 <= p < h2 ==> !((#[trigger] data[p]).0 as int == i && data[p].1 as int == j),
    ensures
        triple_sum(data, i, j, h2) == triple_sum(data, i, j, h1),
    decreases h2 - h1,
{
    if h1 < h2 {
        lemma_triple_sum_extend_absent(data, i, j, h1, h2 - 1);
    }
}

/// A segment of triplets that all carry row `i` contributes the filtered
/// column sum of its copied column/value arrays.
pub proof fn lemma_triple_sum_segment(
    data: Seq<(usize, usize, i64)>,
    i: int,
    j: int,
    off: int,
    len: int,
    rc: Seq<usize>,
    rv: Seq<i64>,
)
    requires
        0 <= off,
        0 <= len,
        forall|u: int|
            0 <= u < len ==> (#[trigger] data[off + u]).0 as int == i && data[off + u].1 == rc[u]
                && data[off + u].2 == rv[u],
    ensures
        triple_sum(data, i, j, off + len) == triple_sum(data, i, j, off) + filtered_sum(
            rc,
            rv,
            j,
            0,
            len,
        ),
    decreases len,
{
    if len > 0 {
        lemma_triple_sum_segment(data, i, j, off, len - 1, rc, rv);
        assert(data[off + (len - 1)].0 as int == i && data[off + (len - 1)].1 == rc[len - 1]
            && data[off + (len - 1)].2 == rv[len - 1]);
        assert(off + len - 1 == off + (len - 1));
    }
}

/// Count of `p` in `[0, hi)` whose row index is below `r`.
pub open spec fn count_rows_lt(data: Seq<(usize, usize, i64)>, r: int, hi: int) -> int
    decreases hi,
{
    if hi <= 0 {
        0
    } else {
        count_rows_lt(data, r, hi - 1) + if (data[hi - 1].0 as int) < r {
            1int
        } else {
            0int
        }
    }
}

/// The count grows with the row threshold.
pub proof fn lemma_count_rows_lt_mono(data: Seq<(usize, usize, i64)>, r1: int, r2: int, hi: int)
    requires
        r1 <= r2,
    ensures
        count_rows_lt(data, r1, hi) <= count_rows_lt(data, r2, hi),
    decreases hi,
{
    if hi > 0 {
        lemma_count_rows_lt_mono(data, r1, r2, hi - 1);
    }
}

/// The count never exceeds the range length.
pub proof fn lemma_count_rows_lt_bound(data: Seq<(usize, usize, i64)>, r: int, hi: int)
    requires
        0 <= hi,
    ensures
        count_rows_lt(data, r, hi) <= hi,
        count_rows_lt(data, r, hi) >= 0,
    decreases hi,
{
    if hi > 0 {
        lemma_count_rows_lt_bound(data, r, hi - 1);
    }
}

/// When a prefix of length `k` lies below `r`, the count is at least `k`.
pub proof fn lemma_count_rows_lt_ge(data: Seq<(usize, usize, i64)>, r: int, hi: int, k: int)
    requires
        0 <= k <= hi,
        forall|q: int| 0 <= q < k ==> ((#[trigger] data[q]).0 as int) < r,
    ensures
        count_rows_lt(data, r, hi) >= k,
    decreases hi,
{
    if hi > k {
        lemma_count_rows_lt_ge(data, r, hi - 1, k);
    } else {
        lemma_count_rows_lt_split(data, r, hi, k);
    }
}

/// When everything from `k` on lies at or above `r`, the count is at most `k`.
pub proof fn lemma_count_rows_lt_le(data: Seq<(usize, usize, i64)>, r: int, hi: int, k: int)
    requires
        0 <= k <= hi,
        forall|q: int| k <= q < hi ==> ((#[trigger] data[q]).0 as int) >= r,
    ensures
        count_rows_lt(data, r, hi) <= k,
    decreases hi,
{
    if hi > k {
        lemma_count_rows_lt_le(data, r, hi - 1, k);
    } else {
        lemma_count_rows_lt_bound(data, r, hi);
    }
}

/// When the rows below `r` are exactly a prefix of length `k`, the count is `k`.
pub proof fn lemma_count_rows_lt_split(data: Seq<(usize, usize, i64)>, r: int, hi: int, k: int)
    requires
        0 <= k <= hi,
        forall|p: int| 0 <= p < k ==> (data[p].0 as int) < r,
        forall|p: int| k <= p < hi ==> (data[p].0 as int) >= r,
    ensures
        count_rows_lt(data, r, hi) == k,
    decreases hi,
{
    if hi > 0 {
        if k == hi {
            lemma_count_rows_lt_split(data, r, hi - 1, k - 1);
        } else {
            lemma_count_rows_lt_split(data, r, hi - 1, k);
        }
    }
}

} // verus!
