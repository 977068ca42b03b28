use vstd::prelude::*;

use crate::grid::{lemma_grid_pos, lemma_step_right, lemma_step_left, lemma_step_down, lemma_step_up, lemma_down_exists};
use crate::plane::{Plane, PlaneView, count_nonzero, zip_view};
use crate::point_ops::{BinaryOp, op_spec, combine_planes};

verus! {

/// The smaller (`take_min`) or larger of two bytes.
pub open spec fn pick(take_min: bool, a: u8, b: u8) -> u8 {
    if take_min {
        if a <= b {
            a
        } else {
            b
        }
    } else {
        if a >= b {
            a
        } else {
            b
        }
    }
}

fn pick_exec(take_min: bool, a: u8, b: u8) -> (r: u8)
    ensures
        r == pick(take_min, a, b),
{
    if take_min {
        if a <= b {
            a
        } else {
            b
        }
    } else {
        if a >= b {
            a
        } else {
            b
        }
    }
}

/// Minimum (`take_min`) or maximum of pixel `i` and its left, right, upper
/// and lower neighbours that lie inside the plane: erosion or dilation by the
/// 3x3 cross, with pixels outside the plane left out.
pub open spec fn cross_at(p: PlaneView, i: int, take_min: bool) -> u8 {
    let w = p.width as int;
    let d = p.data;
    let m0 = d[i];
    let m1 = if i % w > 0 {
        pick(take_min, m0, d[i - 1])
    } else {
        m0
    };
    let m2 = if i % w + 1 < w {
        pick(take_min, m1, d[i + 1])
    } else {
        m1
    };
    let m3 = if i >= w {
        pick(take_min, m2, d[i - w])
    } else {
        m2
    };
    if i + w < d.len() {
        pick(take_min, m3, d[i + w])
    } else {
        m3
    }
}

/// Erosion (`take_min`) or dilation of a plane by the 3x3 cross.
pub open spec fn cross_view(p: PlaneView, take_min: bool) -> PlaneView {
    PlaneView {
        width: p.width,
        height: p.height,
        data: Seq::new(p.data.len(), |i: int| cross_at(p, i, take_min)),
    }
}

/// Maximum of pixel `i` and its eight neighbours that lie inside the plane:
/// dilation by the 3x3 square.
pub open spec fn square_max_at(p: PlaneView, i: int) -> u8 {
    let w = p.width as int;
    let d = p.data;
    let left = i % w > 0;
    let right = i % w + 1 < w;
    let up = i >= w;
    let down = i + w < d.len();
    let a0 = d[i];
    let a1 = if left {
        pick(false, a0, d[i - 1])
    } else {
        a0
    };
    let a2 = if right {
        pick(false, a1, d[i + 1])
    } else {
        a1
    };
    let a3 = if up {
        pick(false, a2, d[i - w])
    } else {
        a2
    };
    let a4 = if up && left {
        pick(false, a3, d[i - w - 1])
    } else {
        a3
    };
    let a5 = if up && right {
        pick(false, a4, d[i - w + 1])
    } else {
        a4
    };
    let a6 = if down {
        pick(false, a5, d[i + w])
    } else {
        a5
    };
    let a7 = if down && left {
        pick(false, a6, d[i + w - 1])
    } else {
        a6
    };
    if down && right {
        pick(false, a7, d[i + w + 1])
    } else {
        a7
    }
}

/// Dilation of a plane by the 3x3 square.
pub open spec fn square_dilate_view(p: PlaneView) -> PlaneView {
    PlaneView {
        width: p.width,
        height: p.height,
        data: Seq::new(p.data.len(), |i: int| square_max_at(p, i)),
    }
}

/// The 3x3 square dilation applied `n` times.
pub open spec fn square_dilate_iter(p: PlaneView, n: nat) -> PlaneView
    decreases n,
{
    if n == 0 {
        p
    } else {
        square_dilate_iter(square_dilate_view(p), (n - 1) as nat)
    }
}

/// How many times a dilation asked for `iterations` times runs: not at all
/// for 0, once for a negative count.
pub open spec fn effective_iterations(iterations: i32) -> nat {
    if iterations == 0 {
        0
    } else if iterations < 0 {
        1
    } else {
        iterations as nat
    }
}

/// Erosion (`take_min`) or dilation by the 3x3 cross.
pub fn cross_filter(p: &Plane, take_min: bool) -> (r: Plane)
    ensures
        r@ == cross_view(p@, take_min),
{
    let w = p.width();
    let h = p.height();
    let n = p.len();
    let d = p.data();
    let mut out: Vec<u8> = Vec::with_capacity(n);
    let mut i: usize = 0;
    while i < n
        invariant
            i <= n,
            n == d@.len(),
            d@ == p@.data,
            w == p@.width,
            h == p@.height,
            n == w * h,
            out@.len() == i,
            forall|j: int| 0 <= j < i ==> #[trigger] out@[j] == cross_at(p@, j, take_min),
        decreases n - i,
    {
        proof {
            lemma_grid_pos(i as int, w as int, h as int);
        }
        let x = i % w;
        let mut m = d[i];
        if x > 0 {
            m = pick_exec(take_min, m, d[i - 1]);
        }
        if x + 1 < w {
            proof {
                lemma_step_right(i as int, w as int, h as int);
            }
            m = pick_exec(take_min, m, d[i + 1]);
        }
        if i >= w {
            m = pick_exec(take_min, m, d[i - w]);
        }
        if w < n && i < n - w {
            m = pick_exec(take_min, m, d[i + w]);
        }
        out.push(m);
        i = i + 1;
    }
    let r = Plane::new(w, h, out).unwrap();
    assert(r@.data =~= cross_view(p@, take_min).data);
    r
}

/// One dilation by the 3x3 square.
pub fn square_dilate(p: &Plane) -> (r: Plane)
    ensures
        r@ == square_dilate_view(p@),
{
    let w = p.width();
    let h = p.height();
    let n = p.len();
    let d = p.data();
    let mut out: Vec<u8> = Vec::with_capacity(n);
    let mut i: usize = 0;
    while i < n
        invariant
            i <= n,
            n == d@.len(),
            d@ == p@.data,
            w == p@.width,
            h == p@.height,
            n == w * h,
            out@.len() == i,
            forall|j: int| 0 <= j < i ==> #[trigger] out@[j] == square_max_at(p@, j),
        decreases n - i,
    {
        proof {
            lemma_grid_pos(i as int, w as int, h as int);
        }
        let x = i % w;
        let left = x > 0;
        let right = x + 1 < w;
        let up = i >= w;
        let down = w < n && i < n - w;
        if right {
            proof {
                lemma_step_right(i as int, w as int, h as int);
            }
        }
        if up {
            proof {
                lemma_step_up(i as int, w as int, h as int);
            }
        }
        if down && right {
            proof {
                lemma_step_down(i as int, w as int, h as int);
                lemma_step_right(i + w, w as int, h as int);
            }
        }
        let mut m = d[i];
        if left {
            m = pick_exec(false, m, d[i - 1]);
        }
        if right {
            m = pick_exec(false, m, d[i + 1]);
        }
        if up {
            m = pick_exec(false, m, d[i - w]);
        }
        if up && left {
            m = pick_exec(false, m, d[i - w - 1]);
        }
        if up && right {
            m = pick_exec(false, m, d[i - w + 1]);
        }
        if down {
            m = pick_exec(false, m, d[i + w]);
        }
        if down && left {
            m = pick_exec(false, m, d[i + w - 1]);
        }
        if down && right {
            m = pick_exec(false, m, d[i + w + 1]);
        }
        out.push(m);
        i = i + 1;
    }
    let r = Plane::new(w, h, out).unwrap();
    assert(r@.data =~= square_dilate_view(p@).data);
    r
}

/// Dilation by the 3x3 square repeated as often as `iterations` asks.
pub fn dilate_square_times(p: &Plane, iterations: i32) -> (r: Plane)
    ensures
        r@ == square_dilate_iter(p@, effective_iterations(iterations)),
{
    let times: u32 = if iterations == 0 {
        0
    } else if iterations < 0 {
        1
    } else {
        iterations as u32
    };
    let mut cur = p.duplicate();
    let mut k: u32 = 0;
    while k < times
        invariant
            k <= times,
            times == effective_iterations(iterations),
            square_dilate_iter(cur@, (times - k) as nat) == square_dilate_iter(
                p@,
                effective_iterations(iterations),
            ),
        decreases times - k,
    {
        cur = square_dilate(&cur);
        k = k + 1;
    }
    cur
}

/// The plane has a zero pixel, or no pixel at all.
pub open spec fn has_background(p: PlaneView) -> bool {
    p.data.len() == 0 || exists|i: int| 0 <= i < p.data.len() && p.data[i] == 0
}

/// Where the first sequence is non-zero the second is too: the first has at
/// most as many non-zero bytes, and fewer when some place is zero in the first
/// only.
pub proof fn lemma_count_nonzero_subset(a: Seq<u8>, b: Seq<u8>)
    requires
        a.len() == b.len(),
        forall|i: int| 0 <= i < a.len() && a[i] != 0 ==> b[i] != 0,
    ensures
        count_nonzero(a) <= count_nonzero(b),
        (exists|q: int| 0 <= q < a.len() && a[q] == 0 && b[q] != 0) ==> count_nonzero(a)
            < count_nonzero(b),
    decreases a.len(),
{
    if a.len() > 0 {
        let a1 = a.drop_last();
        let b1 = b.drop_last();
        lemma_count_nonzero_subset(a1, b1);
        if exists|q: int| 0 <= q < a.len() && a[q] == 0 && b[q] != 0 {
            let q = choose|q: int| 0 <= q < a.len() && a[q] == 0 && b[q] != 0;
            if q < a.len() - 1 {
                assert(a1[q] == 0 && b1[q] != 0);
            }
        }
    }
}

/// A sequence has as many non-zero bytes as elements exactly when none is zero.
pub proof fn lemma_count_nonzero_full(s: Seq<u8>)
    ensures
        count_nonzero(s) <= s.len(),
        count_nonzero(s) == s.len() <==> forall|i: int| 0 <= i < s.len() ==> s[i] != 0,
    decreases s.len(),
{
    if s.len() > 0 {
        lemma_count_nonzero_full(s.drop_last());
        if count_nonzero(s) == s.len() {
            assert forall|i: int| 0 <= i < s.len() implies s[i] != 0 by {
                if i < s.len() - 1 {
                    assert(s.drop_last()[i] == s[i]);
                }
            }
        }
        if forall|i: int| 0 <= i < s.len() ==> s[i] != 0 {
            assert forall|i: int| 0 <= i < s.drop_last().len() implies s.drop_last()[i] != 0 by {
                assert(s.drop_last()[i] == s[i]);
            }
        }
    }
}

/// Whether the plane has a zero pixel or no pixel at all, the condition under
/// which its skeleton is ever finished.
pub fn background_present(p: &Plane) -> (r: bool)
    ensures
        r == has_background(p@),
{
    let n = p.len();
    let nonzero = p.count_nonzero();
    proof {
        lemma_count_nonzero_full(p@.data);
    }
    n == 0 || nonzero < n
}

/// In a plane with a zero pixel and a non-zero pixel, some non-zero pixel has
/// a zero among its four neighbours, so that erosion by the cross clears it.
pub proof fn lemma_boundary_pixel(p: PlaneView, pi: int, zi: int)
    requires
        p.wf(),
        0 <= pi < p.data.len(),
        0 <= zi < p.data.len(),
        p.data[pi] != 0,
        p.data[zi] == 0,
    ensures
        exists|q: int| 0 <= q < p.data.len() && p.data[q] != 0 && #[trigger] cross_at(p, q, true) == 0,
    decreases (if pi % (p.width as int) >= zi % (p.width as int) {
        pi % (p.width as int) - zi % (p.width as int)
    } else {
        zi % (p.width as int) - pi % (p.width as int)
    }) + (if pi / (p.width as int) >= zi / (p.width as int) {
        pi / (p.width as int) - zi / (p.width as int)
    } else {
        zi / (p.width as int) - pi / (p.width as int)
    }),
{
    let w = p.width as int;
    let h = p.height as int;
    lemma_grid_pos(pi, w, h);
    lemma_grid_pos(zi, w, h);
    let px = pi % w;
    let py = pi / w;
    let zx = zi % w;
    let zy = zi / w;
    if px < zx {
        lemma_step_right(pi, w, h);
        if p.data[pi + 1] == 0 {
            assert(cross_at(p, pi, true) == 0);
        } else {
            lemma_boundary_pixel(p, pi + 1, zi);
        }
    } else if px > zx {
        lemma_step_left(pi, w, h);
        if p.data[pi - 1] == 0 {
            assert(cross_at(p, pi, true) == 0);
        } else {
            lemma_boundary_pixel(p, pi - 1, zi);
        }
    } else if py < zy {
        lemma_down_exists(pi, w, h);
        lemma_step_down(pi, w, h);
        if p.data[pi + w] == 0 {
            assert(cross_at(p, pi, true) == 0);
        } else {
            lemma_boundary_pixel(p, pi + w, zi);
        }
    } else if py > zy {
        assert(pi >= w) by (nonlinear_arith)
            requires
                pi == py * w + px,
                py > zy,
                zy >= 0,
                w > 0,
                px >= 0,
        ;
        lemma_step_up(pi, w, h);
        if p.data[pi - w] == 0 {
            assert(cross_at(p, pi, true) == 0);
        } else {
            lemma_boundary_pixel(p, pi - w, zi);
        }
    } else {
        assert(pi == zi);
    }
}

/// Erosion by the cross never turns a zero pixel non-zero, and on a plane with
/// background it clears at least one non-zero pixel unless nothing is left.
pub proof fn lemma_erosion_shrinks(p: PlaneView)
    requires
        p.wf(),
        has_background(p),
    ensures
        cross_view(p, true).wf(),
        has_background(cross_view(p, true)),
        count_nonzero(cross_view(p, true).data) <= count_nonzero(p.data),
        count_nonzero(cross_view(p, true).data) != 0 ==> count_nonzero(cross_view(p, true).data)
            < count_nonzero(p.data),
{
    let e = cross_view(p, true);
    assert forall|i: int| 0 <= i < e.data.len() implies e.data[i] <= p.data[i] by {
        assert(e.data[i] == cross_at(p, i, true));
    }
    lemma_count_nonzero_subset(e.data, p.data);
    if p.data.len() > 0 {
        let zi = choose|i: int| 0 <= i < p.data.len() && p.data[i] == 0;
        assert(e.data[zi] == 0);
        if count_nonzero(e.data) != 0 {
            lemma_count_nonzero_positive(e.data);
            let ni = choose|i: int| 0 <= i < e.data.len() && e.data[i] != 0;
            lemma_boundary_pixel(p, ni, zi);
            let q = choose|q: int| 0 <= q < p.data.len() && p.data[q] != 0 && #[trigger] cross_at(p, q, true) == 0;
            assert(e.data[q] == 0);
        }
    }
}

/// A sequence with non-zero bytes has a non-zero byte.
pub proof fn lemma_count_nonzero_positive(s: Seq<u8>)
    requires
        count_nonzero(s) != 0,
    ensures
        exists|i: int| 0 <= i < s.len() && s[i] != 0,
    decreases s.len(),
{
    if s.last() == 0 {
        lemma_count_nonzero_positive(s.drop_last());
        let i = choose|i: int| 0 <= i < s.drop_last().len() && s.drop_last()[i] != 0;
        assert(s[i] != 0);
    }
}

/// Morphological skeleton of `b`, adding to the pixels in `acc`: each round
/// erodes the image by the cross, adds what an opening (erosion then dilation)
/// removes, and goes on with the eroded image until nothing non-zero is left.
pub open spec fn skeleton_from(b: PlaneView, acc: PlaneView) -> PlaneView
    decreases count_nonzero(b.data),
    when b.wf() && has_background(b)
{
    let e = cross_view(b, true);
    let opened = cross_view(e, false);
    let acc2 = zip_view(acc, zip_view(b, opened, op_spec(BinaryOp::Subtract)), op_spec(BinaryOp::Or));
    if count_nonzero(e.data) == 0 {
        acc2
    } else {
        proof {
            lemma_erosion_shrinks(b);
        }
        skeleton_from(e, acc2)
    }
}

/// Number of erode-and-open rounds `skeleton_from` makes on `b`: the last
/// round is the one whose erosion leaves nothing non-zero.
pub open spec fn skeleton_rounds(b: PlaneView) -> nat
    decreases count_nonzero(b.data),
    when b.wf() && has_background(b)
{
    let e = cross_view(b, true);
    if count_nonzero(e.data) == 0 {
        1
    } else {
        proof {
            lemma_erosion_shrinks(b);
        }
        1 + skeleton_rounds(e)
    }
}

/// Skeleton of a plane with background; it starts from an all-zero plane.
pub open spec fn skeleton_view(b: PlaneView) -> PlaneView {
    skeleton_from(b, PlaneView { width: b.width, height: b.height, data: Seq::new(b.data.len(), |i: int| 0u8) })
}

/// Morphological skeleton by repeated erosion with the 3x3 cross. The plane
/// must have a zero pixel or be empty: otherwise erosion, which leaves pixels
/// outside the plane out, never clears it.
pub fn skeleton(b: &Plane) -> (r: Plane)
    requires
        has_background(b@),
    ensures
        r@ == skeleton_view(b@),
{
    let w = b.width();
    let h = b.height();
    let _ = b.len();
    let ghost target = skeleton_view(b@);
    let mut binary = b.duplicate();
    let mut skel = Plane::filled(w, h, 0);
    assert(skel@.data =~= Seq::new(b@.data.len(), |i: int| 0u8));
    loop
        invariant_except_break
            binary@.wf(),
            has_background(binary@),
            binary@.width == w,
            binary@.height == h,
            skel@.width == w,
            skel@.height == h,
            skel@.data.len() == binary@.data.len(),
            skeleton_from(binary@, skel@) == target,
        ensures
            skel@ == target,
        decreases count_nonzero(binary@.data),
    {
        let ghost old_count = count_nonzero(binary@.data);
        let ghost old_binary = binary@;
        let ghost old_skel = skel@;
        proof {
            lemma_erosion_shrinks(binary@);
        }
        let eroded = cross_filter(&binary, true);
        let opened = cross_filter(&eroded, false);
        let _ = binary.width();
        let _ = opened.width();
        let removed = combine_planes(&binary, &opened, BinaryOp::Subtract);
        let _ = skel.width();
        let _ = removed.width();
        skel = combine_planes(&skel, &removed, BinaryOp::Or);
        binary = eroded;
        assert(skel@ == zip_view(old_skel, zip_view(old_binary, cross_view(cross_view(old_binary, true), false), op_spec(BinaryOp::Subtract)), op_spec(BinaryOp::Or)));
        if binary.count_nonzero() == 0 {
            break;
        }
    }
    skel
}

} // verus!
