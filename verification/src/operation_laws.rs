use vstd::prelude::*;

use crate::actions::{op_of_code, stretch_table};
use crate::histogram::{count_below, count_value};
use crate::laws::{in_box, lemma_box_index, law_iterated_dilation_is_box_max, lemma_median_is_least, pixel_at};
use crate::median::{median, median_view, window};
use crate::morphology::{effective_iterations, square_dilate_iter};
use crate::plane::{PlaneView, zip_view};
use crate::point_ops::{invert_image_view, lookup_image_view, op_spec};
use crate::rgb::{ChannelOrder, RgbView, gray_view, interleaved_view};

verus! {

/// `v` moved into `0..n`: below 0 it becomes 0, from `n` on it becomes `n - 1`.
pub open spec fn nearest_in(v: int, n: int) -> int {
    if v < 0 {
        0
    } else if v >= n {
        n - 1
    } else {
        v
    }
}

/// Position `t` of the `(2r+1) x (2r+1)` neighbourhood of column `x`, row
/// `y`, counted row by row from the top left: the pixel `t % (2r+1) - r`
/// columns and `t / (2r+1) - r` rows away, taken from the nearest pixel of the
/// plane where that place lies outside it.
pub open spec fn neighbour_value(p: PlaneView, x: int, y: int, r: int, t: int) -> u8 {
    let k = 2 * r + 1;
    pixel_at(p, nearest_in(x + t % k - r, p.width as int), nearest_in(y + t / k - r, p.height as int))
}

/// How many of the first `t` positions of the neighbourhood hold a value at
/// most `v`.
pub open spec fn neighbours_at_most(p: PlaneView, x: int, y: int, r: int, v: int, t: int) -> nat
    decreases t,
{
    if t <= 0 {
        0
    } else {
        neighbours_at_most(p, x, y, r, v, t - 1) + if neighbour_value(p, x, y, r, t - 1) <= v {
            1nat
        } else {
            0nat
        }
    }
}

proof fn lemma_window_counts(p: PlaneView, x: int, y: int, r: nat, v: int, t: int)
    requires
        p.wf(),
        0 <= x < p.width,
        0 <= y < p.height,
        0 <= t <= (2 * r + 1) * (2 * r + 1),
    ensures
        count_below(window(p, y * p.width + x, r).take(t), v + 1) == neighbours_at_most(p, x, y, r as int, v, t),
    decreases t,
{
    let s = window(p, y * p.width + x, r);
    lemma_box_index(p, x, y);
    if t > 0 {
        lemma_window_counts(p, x, y, r, v, t - 1);
        assert(s.take(t).drop_last() =~= s.take(t - 1));
        assert(s[t - 1] == neighbour_value(p, x, y, r as int, t - 1));
    }
}

/// The median filter with a `(2r+1) x (2r+1)` window, for every radius `r`:
/// each output pixel is the least value `m` such that more than half of the
/// `(2r+1)^2` pixels within `r` columns and `r` rows of it (border
/// replicated) are at most `m`.
pub proof fn law_median_filter_is_window_median(p: PlaneView, r: nat, x: int, y: int)
    requires
        p.wf(),
        0 <= x < p.width,
        0 <= y < p.height,
    ensures
        median_view(p, r).width == p.width,
        median_view(p, r).height == p.height,
        2 * neighbours_at_most(p, x, y, r as int, pixel_at(median_view(p, r), x, y) as int, ((2 * r + 1) * (2 * r + 1)) as int)
            > (2 * r + 1) * (2 * r + 1),
        forall|v: int|
            0 <= v < pixel_at(median_view(p, r), x, y) ==> 2 * #[trigger] neighbours_at_most(p, x, y, r as int, v, ((2 * r + 1) * (2 * r + 1)) as int)
                <= (2 * r + 1) * (2 * r + 1),
{
    let k: int = 2 * (r as int) + 1;
    let n: int = k * k;
    let i = y * p.width + x;
    lemma_box_index(p, x, y);
    let s = window(p, i, r);
    let half: int = 2 * (r as int) * (r as int) + 2 * (r as int);
    assert(n == 2 * half + 1 && half >= 0) by (nonlinear_arith)
        requires
            k == 2 * r + 1,
            n == k * k,
            half == 2 * (r as int) * (r as int) + 2 * (r as int),
            r >= 0,
    ;
    assert(n % 2 == 1 && n >= 1);
    assert(s.len() == n);
    assert(s.take(n) =~= s);
    let m = pixel_at(median_view(p, r), x, y);
    assert(m == median(s));
    lemma_median_is_least(s);
    lemma_window_counts(p, x, y, r, m as int, n);
    assert forall|v: int| 0 <= v < m implies 2 * #[trigger] neighbours_at_most(p, x, y, r as int, v, n) <= n by {
        lemma_window_counts(p, x, y, r, v, n);
        assert(count_below(s, v + 1) <= s.len() / 2);
    }
}

/// The operation codes: 0 adds and clamps at 255, 1 subtracts and clamps at 0,
/// 2 takes the mean rounded to nearest with halves to the even value, 3 is
/// bitwise and, 4 bitwise or, 5 bitwise xor, 6 the negative of the first
/// byte; no other code names an operation.
pub proof fn law_operation_codes(a: u8, b: u8, code: i32)
    ensures
        op_of_code(code) is Some <==> 0 <= code <= 6,
        code == 0 ==> op_spec(op_of_code(code).unwrap())(a, b) == if a + b > 255 {
            255
        } else {
            a + b
        },
        code == 1 ==> op_spec(op_of_code(code).unwrap())(a, b) == if a > b {
            a - b
        } else {
            0
        },
        code == 2 ==> ({
            let m = op_spec(op_of_code(code).unwrap())(a, b) as int;
            if (a + b) % 2 == 0 {
                2 * m == a + b
            } else {
                (2 * m == a + b + 1 || 2 * m == a + b - 1) && m % 2 == 0
            }
        }),
        code == 3 ==> op_spec(op_of_code(code).unwrap())(a, b) == a & b,
        code == 4 ==> op_spec(op_of_code(code).unwrap())(a, b) == a | b,
        code == 5 ==> op_spec(op_of_code(code).unwrap())(a, b) == a ^ b,
        code == 6 ==> op_spec(op_of_code(code).unwrap())(a, b) == 255 - a,
{
}

/// Dilating `iterations` times, for every positive count: each pixel gets the
/// greatest value among the pixels at most `iterations` columns and rows away.
/// A count of 0 leaves the plane as it is; a negative count dilates once.
pub proof fn law_dilation_runs_every_iteration(p: PlaneView, iterations: i32, x: int, y: int)
    requires
        p.wf(),
        0 <= x < p.width,
        0 <= y < p.height,
    ensures
        iterations == 0 ==> square_dilate_iter(p, effective_iterations(iterations)) == p,
        iterations < 0 ==> {
            let q = square_dilate_iter(p, effective_iterations(iterations));
            &&& q.width == p.width
            &&& forall|x2: int, y2: int| #[trigger] in_box(p, x2, y2, x, y, 1) ==> pixel_at(q, x, y)
                >= pixel_at(p, x2, y2)
            &&& exists|x2: int, y2: int| #[trigger] in_box(p, x2, y2, x, y, 1) && pixel_at(q, x, y)
                == pixel_at(p, x2, y2)
        },
        iterations > 0 ==> {
            let q = square_dilate_iter(p, effective_iterations(iterations));
            &&& q.width == p.width
            &&& forall|x2: int, y2: int| #[trigger] in_box(p, x2, y2, x, y, iterations as int) ==> pixel_at(q, x, y)
                >= pixel_at(p, x2, y2)
            &&& exists|x2: int, y2: int| #[trigger] in_box(p, x2, y2, x, y, iterations as int) && pixel_at(q, x, y)
                == pixel_at(p, x2, y2)
        },
{
    if iterations > 0 {
        assert(effective_iterations(iterations) == iterations as nat);
        law_iterated_dilation_is_box_max(p, iterations as nat, x, y);
    } else if iterations == 0 {
        assert(effective_iterations(iterations) == 0);
    } else {
        assert(effective_iterations(iterations) == 1);
        law_iterated_dilation_is_box_max(p, 1, x, y);
    }
}

/// The selective stretch table: values at or below `p1` go to `q3`, values at
/// or above `p2` to `q4`, whatever `lut` holds there; values strictly between
/// go through `lut`.
pub proof fn law_stretch_table_ends(lut: Seq<u8>, p1: u8, p2: u8, q3: u8, q4: u8)
    requires
        lut.len() == 256,
        p1 < p2,
    ensures
        stretch_table(lut, p1, p2, q3, q4).len() == 256,
        forall|v: int| 0 <= v <= p1 ==> #[trigger] stretch_table(lut, p1, p2, q3, q4)[v] == q3,
        forall|v: int| p2 <= v < 256 ==> #[trigger] stretch_table(lut, p1, p2, q3, q4)[v] == q4,
        forall|v: int| p1 < v < p2 ==> #[trigger] stretch_table(lut, p1, p2, q3, q4)[v] == lut[v],
{
}

/// A lookup table on an image works on each channel by itself: every byte of
/// every channel is replaced by its table entry, in the same channel and at
/// the same place.
pub proof fn law_lookup_per_channel(img: RgbView, lut: Seq<u8>)
    requires
        lut.len() == 256,
    ensures
        lookup_image_view(img, lut).red.width == img.red.width,
        lookup_image_view(img, lut).red.height == img.red.height,
        lookup_image_view(img, lut).green.width == img.green.width,
        lookup_image_view(img, lut).green.height == img.green.height,
        lookup_image_view(img, lut).blue.width == img.blue.width,
        lookup_image_view(img, lut).blue.height == img.blue.height,
        lookup_image_view(img, lut).red.data.len() == img.red.data.len(),
        lookup_image_view(img, lut).green.data.len() == img.green.data.len(),
        lookup_image_view(img, lut).blue.data.len() == img.blue.data.len(),
        forall|i: int| 0 <= i < img.red.data.len() ==> #[trigger] lookup_image_view(img, lut).red.data[i] == lut[img.red.data[i] as int],
        forall|i: int| 0 <= i < img.green.data.len() ==> #[trigger] lookup_image_view(img, lut).green.data[i] == lut[img.green.data[i] as int],
        forall|i: int| 0 <= i < img.blue.data.len() ==> #[trigger] lookup_image_view(img, lut).blue.data[i] == lut[img.blue.data[i] as int],
{
}

/// The negative replaces every byte `v` of every channel by `255 - v`.
pub proof fn law_negative_per_byte(img: RgbView)
    ensures
        invert_image_view(img).red.data.len() == img.red.data.len(),
        invert_image_view(img).green.data.len() == img.green.data.len(),
        invert_image_view(img).blue.data.len() == img.blue.data.len(),
        forall|i: int| 0 <= i < img.red.data.len() ==> #[trigger] invert_image_view(img).red.data[i] == 255 - img.red.data[i],
        forall|i: int| 0 <= i < img.green.data.len() ==> #[trigger] invert_image_view(img).green.data[i] == 255 - img.green.data[i],
        forall|i: int| 0 <= i < img.blue.data.len() ==> #[trigger] invert_image_view(img).blue.data[i] == 255 - img.blue.data[i],
{
}

/// The gray value of a pixel is `0.299 R + 0.587 G + 0.114 B` in 14-bit fixed
/// point, rounded to nearest: `16384 y` is within half a step of
/// `4899 R + 9617 G + 1868 B`.
pub proof fn law_gray_value_rounds_weighted_sum(img: RgbView)
    requires
        img.wf(),
    ensures
        gray_view(img).data.len() == img.red.data.len(),
        forall|i: int|
            0 <= i < img.red.data.len() ==> {
                let y = #[trigger] gray_view(img).data[i] as int;
                let s = 4899 * img.red.data[i] + 9617 * img.green.data[i] + 1868 * img.blue.data[i];
                16384 * y - 8192 <= s < 16384 * y + 8192
            },
{
    assert forall|i: int| 0 <= i < img.red.data.len() implies {
        let y = #[trigger] gray_view(img).data[i] as int;
        let s = 4899 * img.red.data[i] + 9617 * img.green.data[i] + 1868 * img.blue.data[i];
        16384 * y - 8192 <= s < 16384 * y + 8192
    } by {
        let s = 4899 * img.red.data[i] + 9617 * img.green.data[i] + 1868 * img.blue.data[i];
        assert((s + 8192) / 16384 <= 255);
    }
}

/// The histogram counts: the count of `v` is the number of elements equal to
/// `v`, and counting below `k` is the number of elements smaller than `k`.
pub proof fn law_counts_are_filters(s: Seq<u8>, v: int, k: int)
    ensures
        count_value(s, v) == s.filter(|x: u8| x == v).len(),
        count_below(s, k) == s.filter(|x: u8| x < k).len(),
    decreases s.len(),
{
    reveal(Seq::filter);
    if s.len() > 0 {
        law_counts_are_filters(s.drop_last(), v, k);
    }
}

/// Interleaved bytes: three per pixel, in pixel order; red, green, blue in
/// `Rgb` order and blue, green, red in `Bgr` order.
pub proof fn law_interleaved_layout(img: RgbView)
    ensures
        interleaved_view(img, ChannelOrder::Rgb).len() == 3 * img.red.data.len(),
        interleaved_view(img, ChannelOrder::Bgr).len() == 3 * img.red.data.len(),
        forall|i: int|
            0 <= i < img.red.data.len() ==> {
                &&& #[trigger] interleaved_view(img, ChannelOrder::Rgb)[3 * i] == img.red.data[i]
                &&& interleaved_view(img, ChannelOrder::Rgb)[3 * i + 1] == img.green.data[i]
                &&& interleaved_view(img, ChannelOrder::Rgb)[3 * i + 2] == img.blue.data[i]
                &&& interleaved_view(img, ChannelOrder::Bgr)[3 * i] == img.blue.data[i]
                &&& interleaved_view(img, ChannelOrder::Bgr)[3 * i + 1] == img.green.data[i]
                &&& interleaved_view(img, ChannelOrder::Bgr)[3 * i + 2] == img.red.data[i]
            },
{
    assert forall|i: int| 0 <= i < img.red.data.len() implies {
        &&& #[trigger] interleaved_view(img, ChannelOrder::Rgb)[3 * i] == img.red.data[i]
        &&& interleaved_view(img, ChannelOrder::Rgb)[3 * i + 1] == img.green.data[i]
        &&& interleaved_view(img, ChannelOrder::Rgb)[3 * i + 2] == img.blue.data[i]
        &&& interleaved_view(img, ChannelOrder::Bgr)[3 * i] == img.blue.data[i]
        &&& interleaved_view(img, ChannelOrder::Bgr)[3 * i + 1] == img.green.data[i]
        &&& interleaved_view(img, ChannelOrder::Bgr)[3 * i + 2] == img.red.data[i]
    } by {
        assert((3 * i) / 3 == i && (3 * i) % 3 == 0);
        assert((3 * i + 1) / 3 == i && (3 * i + 1) % 3 == 1);
        assert((3 * i + 2) / 3 == i && (3 * i + 2) % 3 == 2);
    }
}

/// A two-image operation keeps the first image's size and works place by
/// place, the first image's byte first: subtracting takes the second image
/// from the first.
pub proof fn law_two_image_operation_per_pixel(a: PlaneView, b: PlaneView, code: i32)
    requires
        a.same_dims(b),
        a.data.len() == b.data.len(),
        0 <= code <= 6,
    ensures
        zip_view(a, b, op_spec(op_of_code(code).unwrap())).width == a.width,
        zip_view(a, b, op_spec(op_of_code(code).unwrap())).height == a.height,
        zip_view(a, b, op_spec(op_of_code(code).unwrap())).data.len() == a.data.len(),
        code == 1 ==> forall|i: int| 0 <= i < a.data.len() ==> #[trigger] zip_view(a, b, op_spec(op_of_code(code).unwrap())).data[i]
            == if a.data[i] > b.data[i] {
            a.data[i] - b.data[i]
        } else {
            0
        },
        forall|i: int| 0 <= i < a.data.len() ==> #[trigger] zip_view(a, b, op_spec(op_of_code(code).unwrap())).data[i]
            == op_spec(op_of_code(code).unwrap())(a.data[i], b.data[i]),
{
}

} // verus!
