use vstd::prelude::*;

use crate::grid::lemma_grid_pos;
use crate::histogram::{count_value, count_below, lemma_count_below_step, lemma_count_below_all, lemma_count_below_mono, lemma_counts_push};
use crate::plane::{Plane, PlaneView};

verus! {

/// `v` limited to the range `lo..=hi`.
pub open spec fn clamp(v: int, lo: int, hi: int) -> int {
    if v < lo {
        lo
    } else if v > hi {
        hi
    } else {
        v
    }
}

/// The `(2r+1) x (2r+1)` neighbourhood of pixel `i`, row by row, where a
/// position outside the plane takes the value of the nearest pixel inside it
/// (the border is replicated).
pub open spec fn window(p: PlaneView, i: int, r: nat) -> Seq<u8> {
    let w = p.width as int;
    let h = p.height as int;
    let rr = r as int;
    let k = 2 * rr + 1;
    Seq::new(
        (k * k) as nat,
        |j: int|
            p.data[clamp(i / w + j / k - rr, 0, h - 1) * w + clamp(i % w + j % k - rr, 0, w - 1)],
    )
}

/// The smallest value from `v` on that more than half of `s` does not exceed.
pub open spec fn median_from(s: Seq<u8>, v: int) -> int
    decreases 255 - v,
{
    if v >= 255 || count_below(s, v + 1) > s.len() / 2 {
        v
    } else {
        median_from(s, v + 1)
    }
}

/// Median of a sequence of odd length: the smallest value that more than half
/// of the elements do not exceed.
pub open spec fn median(s: Seq<u8>) -> u8 {
    median_from(s, 0) as u8
}

/// Median filter with a `(2r+1) x (2r+1)` window and replicated border.
pub open spec fn median_view(p: PlaneView, r: nat) -> PlaneView {
    PlaneView {
        width: p.width,
        height: p.height,
        data: Seq::new(p.data.len(), |i: int| median(window(p, i, r))),
    }
}

/// `x + off - r` limited to `0..n`.
fn shifted(x: usize, off: u64, r: u64, n: usize) -> (c: usize)
    requires
        x < n,
    ensures
        c == clamp(x + off - r, 0, n - 1),
{
    if off < r {
        let back = r - off;
        if back > x as u64 {
            0
        } else {
            x - back as usize
        }
    } else {
        let fwd = off - r;
        let room = (n - 1 - x) as u64;
        if fwd > room {
            n - 1
        } else {
            x + fwd as usize
        }
    }
}

/// Median of the neighbourhood of one pixel, from the counts of its values.
fn window_median(p: &Plane, i: usize, r: u64) -> (m: u8)
    requires
        i < p@.data.len(),
        r < 0x4000_0000,
    ensures
        m == median(window(p@, i as int, r as nat)),
{
    let w = p.width();
    let h = p.height();
    let d = p.data();
    let _ = p.len();
    let k: u64 = 2 * r + 1;
    assert(k * k <= 0x8000_0000 * 0x8000_0000 && k * k > 0) by (nonlinear_arith)
        requires
            k <= 0x8000_0000,
            k >= 1,
    ;
    let kk: u64 = k * k;
    let ghost s = window(p@, i as int, r as nat);
    proof {
        lemma_grid_pos(i as int, w as int, h as int);
    }
    let x = i % w;
    let y = i / w;
    let mut counts: Vec<u64> = Vec::with_capacity(256);
    let mut v: usize = 0;
    while v < 256
        invariant
            v <= 256,
            counts@.len() == v,
            forall|u: int| 0 <= u < v ==> counts@[u] == 0,
        decreases 256 - v,
    {
        counts.push(0);
        v = v + 1;
    }
    let mut j: u64 = 0;
    while j < kk
        invariant
            j <= kk,
            kk == k * k,
            k == 2 * r + 1,
            r < 0x4000_0000,
            s.len() == kk,
            s == window(p@, i as int, r as nat),
            w == p@.width,
            h == p@.height,
            d@ == p@.data,
            d@.len() == w * h,
            w * h <= usize::MAX,
            x == i % w,
            y == i / w,
            x < w,
            y < h,
            counts@.len() == 256,
            forall|u: int| 0 <= u < 256 ==> #[trigger] counts@[u] == count_value(s.take(j as int), u),
            forall|u: int| 0 <= u < 256 ==> #[trigger] counts@[u] <= j,
        decreases kk - j,
    {
        let dx = j % k;
        let dy = j / k;
        assert(dy < k) by (nonlinear_arith)
            requires
                j < k * k,
                dy == j / k,
                k > 0,
        ;
        let cx = shifted(x, dx, r, w);
        let cy = shifted(y, dy, r, h);
        assert(cy * w + cx < w * h) by (nonlinear_arith)
            requires
                cy < h,
                cx < w,
        ;
        let idx = cy * w + cx;
        let val = d[idx];
        proof {
            lemma_counts_push(s, j as int);
            assert(s[j as int] == val);
        }
        let c = counts[val as usize];
        counts.set(val as usize, c + 1);
        j = j + 1;
    }
    assert(s.take(kk as int) =~= s);
    let half: u64 = kk / 2;
    let mut cum: u64 = 0;
    let mut v: usize = 0;
    proof {
        lemma_count_below_all(s);
    }
    loop
        invariant
            v < 256,
            counts@.len() == 256,
            forall|u: int| 0 <= u < 256 ==> #[trigger] counts@[u] == count_value(s, u),
            s.len() == kk,
            half == kk / 2,
            kk > 0,
            cum == count_below(s, v as int),
            median_from(s, v as int) == median_from(s, 0),
            s == window(p@, i as int, r as nat),
        decreases 256 - v,
    {
        proof {
            lemma_count_below_step(s, v as int);
            lemma_count_below_mono(s, v + 1, 256);
        }
        cum = cum + counts[v];
        if v == 255 || cum > half {
            return v as u8;
        }
        v = v + 1;
    }
}

/// Median filter with a `(2r+1) x (2r+1)` window and replicated border.
pub fn median_filter_plane(p: &Plane, r: u64) -> (q: Plane)
    requires
        r < 0x4000_0000,
    ensures
        q@ == median_view(p@, r as nat),
{
    let w = p.width();
    let h = p.height();
    let n = p.len();
    let mut out: Vec<u8> = Vec::with_capacity(n);
    let mut i: usize = 0;
    while i < n
        invariant
            i <= n,
            n == p@.data.len(),
            n == w * h,
            w == p@.width,
            h == p@.height,
            r < 0x4000_0000,
            out@.len() == i,
            forall|j: int| 0 <= j < i ==> #[trigger] out@[j] == median(window(p@, j, r as nat)),
        decreases n - i,
    {
        out.push(window_median(p, i, r));
        i = i + 1;
    }
    let q = Plane::new(w, h, out).unwrap();
    assert(q@.data =~= median_view(p@, r as nat).data);
    q
}

} // verus!
