use vstd::prelude::*;

use crate::plane::Plane;

verus! {

/// Number of occurrences of `v` in `s`.
pub open spec fn count_value(s: Seq<u8>, v: int) -> nat
    decreases s.len(),
{
    if s.len() == 0 {
        0
    } else {
        count_value(s.drop_last(), v) + if s.last() == v {
            1nat
        } else {
            0nat
        }
    }
}

/// Number of elements of `s` smaller than `k`.
pub open spec fn count_below(s: Seq<u8>, k: int) -> nat
    decreases s.len(),
{
    if s.len() == 0 {
        0
    } else {
        count_below(s.drop_last(), k) + if s.last() < k {
            1nat
        } else {
            0nat
        }
    }
}

/// Sum of the first `k` entries of `c`.
pub open spec fn sum_first(c: Seq<usize>, k: int) -> int
    decreases k,
{
    if k <= 0 {
        0
    } else {
        sum_first(c, k - 1) + c[k - 1]
    }
}

/// Counting below `k + 1` adds the occurrences of `k` to counting below `k`.
pub proof fn lemma_count_below_step(s: Seq<u8>, k: int)
    ensures
        count_below(s, k + 1) == count_below(s, k) + count_value(s, k),
    decreases s.len(),
{
    if s.len() > 0 {
        lemma_count_below_step(s.drop_last(), k);
    }
}

/// Every byte is below 256.
pub proof fn lemma_count_below_all(s: Seq<u8>)
    ensures
        count_below(s, 256) == s.len(),
        count_below(s, 0) == 0,
    decreases s.len(),
{
    if s.len() > 0 {
        lemma_count_below_all(s.drop_last());
    }
}

/// Counting below grows with the bound and never exceeds the length.
pub proof fn lemma_count_below_mono(s: Seq<u8>, j: int, k: int)
    requires
        j <= k,
    ensures
        count_below(s, j) <= count_below(s, k),
        count_below(s, k) <= s.len(),
    decreases s.len(),
{
    if s.len() > 0 {
        lemma_count_below_mono(s.drop_last(), j, k);
    }
}

/// Counting over one more element of a sequence.
pub proof fn lemma_counts_push(s: Seq<u8>, i: int)
    requires
        0 <= i < s.len(),
    ensures
        forall|v: int| #[trigger]
            count_value(s.take(i + 1), v) == count_value(s.take(i), v) + if s[i] == v {
                1nat
            } else {
                0nat
            },
        forall|k: int| #[trigger]
            count_below(s.take(i + 1), k) == count_below(s.take(i), k) + if s[i] < k {
                1nat
            } else {
                0nat
            },
{
    assert(s.take(i + 1).drop_last() =~= s.take(i));
}

/// Counts of a plane's pixel values, with the largest count and the number of
/// pixels.
pub struct GrayHistogram {
    pub counts: Vec<usize>,
    pub max_count: usize,
    pub total: usize,
}

/// Number of pixels of each value 0..=255: entry `v` counts the pixels equal to `v`.
pub fn value_counts(p: &Plane) -> (h: Vec<usize>)
    ensures
        h@.len() == 256,
        forall|v: int| 0 <= v < 256 ==> #[trigger] h@[v] == count_value(p@.data, v),
{
    let d = p.data();
    let n = d.len();
    let mut h: Vec<usize> = Vec::with_capacity(256);
    let mut k: usize = 0;
    while k < 256
        invariant
            k <= 256,
            h@.len() == k,
            forall|v: int| 0 <= v < k ==> h@[v] == 0,
        decreases 256 - k,
    {
        h.push(0);
        k = k + 1;
    }
    let mut i: usize = 0;
    while i < n
        invariant
            i <= n,
            n == d@.len(),
            h@.len() == 256,
            forall|v: int| 0 <= v < 256 ==> #[trigger] h@[v] == count_value(d@.take(i as int), v),
            forall|v: int| 0 <= v < 256 ==> #[trigger] h@[v] <= i,
        decreases n - i,
    {
        proof {
            lemma_counts_push(d@, i as int);
        }
        let v = d[i] as usize;
        let c = h[v];
        h.set(v, c + 1);
        i = i + 1;
    }
    assert(d@.take(n as int) =~= d@);
    h
}

/// Histogram of a gray plane: the count of each value, the largest count and
/// the number of pixels.
pub fn gray_histogram(p: &Plane) -> (r: GrayHistogram)
    ensures
        r.counts@.len() == 256,
        forall|v: int| 0 <= v < 256 ==> #[trigger] r.counts@[v] == count_value(p@.data, v),
        forall|v: int| 0 <= v < 256 ==> r.counts@[v] <= r.max_count,
        exists|v: int| 0 <= v < 256 && r.counts@[v] == r.max_count,
        r.total == p@.data.len(),
        sum_first(r.counts@, 256) == r.total,
{
    let counts = value_counts(p);
    let mut max_count: usize = 0;
    let mut k: usize = 0;
    while k < 256
        invariant
            k <= 256,
            counts@.len() == 256,
            forall|v: int| 0 <= v < k ==> counts@[v] <= max_count,
            k == 0 ==> max_count == 0,
            k > 0 ==> exists|v: int| 0 <= v < k && counts@[v] == max_count,
        decreases 256 - k,
    {
        if counts[k] > max_count || k == 0 {
            max_count = counts[k];
        }
        k = k + 1;
    }
    proof {
        lemma_counts_sum(p@.data, counts@, 256);
    }
    GrayHistogram { counts, max_count, total: p.len() }
}

/// Counts of every value, added up to `k`, count the elements below `k`;
/// over all 256 values they count every element.
pub proof fn lemma_counts_sum(s: Seq<u8>, c: Seq<usize>, k: int)
    requires
        0 <= k <= 256,
        c.len() == 256,
        forall|v: int| 0 <= v < 256 ==> #[trigger] c[v] == count_value(s, v),
    ensures
        sum_first(c, k) == count_below(s, k),
        sum_first(c, 256) == s.len(),
{
    lemma_counts_prefix_sum(s, c, k);
    lemma_counts_prefix_sum(s, c, 256);
    lemma_count_below_all(s);
}

proof fn lemma_counts_prefix_sum(s: Seq<u8>, c: Seq<usize>, k: int)
    requires
        0 <= k <= 256,
        c.len() == 256,
        forall|v: int| 0 <= v < 256 ==> #[trigger] c[v] == count_value(s, v),
    ensures
        sum_first(c, k) == count_below(s, k),
    decreases k,
{
    lemma_count_below_all(s);
    if k > 0 {
        lemma_counts_prefix_sum(s, c, k - 1);
        lemma_count_below_step(s, k - 1);
    }
}

/// Cumulative histogram of a plane: entry `v` counts the pixels not above `v`.
/// `first_nonzero` is the smallest entry that is not zero (0 for an empty plane).
pub struct CumulativeHistogram {
    pub cdf: Vec<usize>,
    pub first_nonzero: usize,
    pub total: usize,
}

/// Cumulative histogram of a plane, as histogram equalization needs it.
pub fn cumulative_histogram(p: &Plane) -> (r: CumulativeHistogram)
    ensures
        r.cdf@.len() == 256,
        forall|v: int| 0 <= v < 256 ==> #[trigger] r.cdf@[v] == count_below(p@.data, v + 1),
        r.total == p@.data.len(),
        (forall|v: int| 0 <= v < 256 ==> r.cdf@[v] == 0) ==> r.first_nonzero == 0,
        (exists|v: int| 0 <= v < 256 && r.cdf@[v] != 0) ==> exists|m: int|
            0 <= m < 256 && r.cdf@[m] != 0 && r.first_nonzero == r.cdf@[m] && forall|j: int|
                0 <= j < m ==> r.cdf@[j] == 0,
{
    let h = value_counts(p);
    let ghost s = p@.data;
    let total = p.len();
    let mut cdf: Vec<usize> = Vec::with_capacity(256);
    let mut sum: usize = 0;
    let mut first_nonzero: usize = 0;
    let mut found: bool = false;
    let ghost mut first_idx: int = 0;
    proof {
        lemma_count_below_all(s);
    }
    let mut k: usize = 0;
    while k < 256
        invariant
            k <= 256,
            h@.len() == 256,
            forall|v: int| 0 <= v < 256 ==> #[trigger] h@[v] == count_value(s, v),
            total == s.len(),
            cdf@.len() == k,
            sum == count_below(s, k as int),
            forall|v: int| 0 <= v < k ==> #[trigger] cdf@[v] == count_below(s, v + 1),
            !found ==> first_nonzero == 0 && forall|v: int| 0 <= v < k ==> cdf@[v] == 0,
            found ==> 0 <= first_idx < k && cdf@[first_idx] != 0 && first_nonzero
                == cdf@[first_idx] && forall|j: int| 0 <= j < first_idx ==> cdf@[j] == 0,
        decreases 256 - k,
    {
        proof {
            lemma_count_below_step(s, k as int);
            lemma_count_below_mono(s, k + 1, 256);
        }
        sum = sum + h[k];
        cdf.push(sum);
        if !found && sum != 0 {
            found = true;
            first_nonzero = sum;
            proof {
                first_idx = k as int;
            }
        }
        k = k + 1;
    }
    proof {
        if exists|v: int| 0 <= v < 256 && cdf@[v] != 0 {
            assert(found);
            assert(0 <= first_idx < 256 && cdf@[first_idx] != 0);
        }
    }
    CumulativeHistogram { cdf, first_nonzero, total }
}

} // verus!
