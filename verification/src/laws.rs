use vstd::prelude::*;

use crate::histogram::{count_below, count_value, lemma_count_below_mono, lemma_count_below_all, lemma_count_below_step};
use crate::median::{median, median_from, median_view, window, clamp};
use crate::morphology::{skeleton_rounds, lemma_count_nonzero_positive, cross_view, cross_at, has_background, skeleton_from, skeleton_view, square_dilate_iter, square_dilate_view, square_max_at, lemma_erosion_shrinks};
use crate::plane::{PlaneView, count_nonzero, zip_view};
use crate::point_ops::{BinaryOp, op_spec, threshold_view, invert_image_view, invert_view, saturating_sub, mean_round_even};
use crate::rgb::{ChannelOrder, RgbView, gray_view, replicate_view, interleaved_view, channel_offset};
use crate::store::{ImageStore, describes, selection_after_close};
use vstd::arithmetic::div_mod::lemma_fundamental_div_mod_converse;
use crate::actions::lemma_dilate_iter_dims;
use crate::grid::{lemma_grid_pos, lemma_step_right, lemma_step_left, lemma_step_down, lemma_step_up, lemma_down_exists};

verus! {

/// Taking the negative twice gives back the image.
pub proof fn law_negate_twice(img: RgbView)
    ensures
        invert_image_view(invert_image_view(img)) == img,
{
    assert(invert_view(invert_view(img.red)).data =~= img.red.data);
    assert(invert_view(invert_view(img.green)).data =~= img.green.data);
    assert(invert_view(invert_view(img.blue)).data =~= img.blue.data);
}

/// A gray plane shown in all three channels has that plane as its gray values:
/// gray to colour and back changes nothing.
pub proof fn law_gray_roundtrip(p: PlaneView)
    ensures
        gray_view(replicate_view(p)) == p,
{
    assert forall|i: int| 0 <= i < p.data.len() implies #[trigger] gray_view(replicate_view(p)).data[i] == p.data[i] by {
        let v = p.data[i];
        assert((4899 * v + 9617 * v + 1868 * v + 8192) / 16384 == v);
    }
    assert(gray_view(replicate_view(p)).data =~= p.data);
}

/// A thresholded plane holds only 0 and 255, 255 exactly above the threshold.
pub proof fn law_threshold_is_binary(p: PlaneView, t: u8)
    ensures
        forall|i: int|
            0 <= i < p.data.len() ==> {
                let v = #[trigger] threshold_view(p, t).data[i];
                &&& v == 0 || v == 255
                &&& (v == 255 <==> p.data[i] > t)
            },
{
}

/// Erosion by the cross never raises a pixel and dilation never lowers one;
/// the same holds of dilation by the square.
pub proof fn law_erosion_below_dilation_above(p: PlaneView)
    ensures
        forall|i: int| 0 <= i < p.data.len() ==> #[trigger] cross_view(p, true).data[i] <= p.data[i],
        forall|i: int| 0 <= i < p.data.len() ==> #[trigger] cross_view(p, false).data[i] >= p.data[i],
        forall|i: int| 0 <= i < p.data.len() ==> #[trigger] square_dilate_view(p).data[i] >= p.data[i],
{
    assert forall|i: int| 0 <= i < p.data.len() implies #[trigger] cross_view(p, true).data[i] <= p.data[i] by {
        assert(cross_view(p, true).data[i] == cross_at(p, i, true));
    }
    assert forall|i: int| 0 <= i < p.data.len() implies #[trigger] cross_view(p, false).data[i] >= p.data[i] by {
        assert(cross_view(p, false).data[i] == cross_at(p, i, false));
    }
    assert forall|i: int| 0 <= i < p.data.len() implies #[trigger] square_dilate_view(p).data[i] >= p.data[i] by {
        assert(square_dilate_view(p).data[i] == square_max_at(p, i));
    }
}

/// Dilating zero times leaves a plane as it is.
pub proof fn law_dilate_zero_times(p: PlaneView)
    ensures
        square_dilate_iter(p, 0) == p,
{
}

proof fn lemma_or_nonzero(a: u8, b: u8)
    ensures
        (a | b) != 0 <==> (a != 0 || b != 0),
{
    assert((a | b) != 0 <==> (a != 0 || b != 0)) by (bit_vector);
}

proof fn lemma_skeleton_from_within(b: PlaneView, acc: PlaneView, b0: PlaneView)
    requires
        b.wf(),
        has_background(b),
        b.data.len() == b0.data.len(),
        acc.data.len() == b.data.len(),
        forall|i: int| 0 <= i < b.data.len() && b.data[i] != 0 ==> b0.data[i] != 0,
        forall|i: int| 0 <= i < acc.data.len() && acc.data[i] != 0 ==> b0.data[i] != 0,
    ensures
        skeleton_from(b, acc).data.len() == b0.data.len(),
        forall|i: int|
            0 <= i < b0.data.len() && #[trigger] skeleton_from(b, acc).data[i] != 0 ==> b0.data[i] != 0,
    decreases count_nonzero(b.data),
{
    let e = cross_view(b, true);
    let opened = cross_view(e, false);
    let removed = zip_view(b, opened, op_spec(BinaryOp::Subtract));
    let acc2 = zip_view(acc, removed, op_spec(BinaryOp::Or));
    lemma_erosion_shrinks(b);
    assert forall|i: int| 0 <= i < acc2.data.len() && acc2.data[i] != 0 implies b0.data[i] != 0 by {
        lemma_or_nonzero(acc.data[i], removed.data[i]);
        assert(removed.data[i] == saturating_sub(b.data[i], opened.data[i]));
    }
    assert forall|i: int| 0 <= i < e.data.len() && e.data[i] != 0 implies b0.data[i] != 0 by {
        assert(e.data[i] == cross_at(b, i, true));
    }
    if count_nonzero(e.data) != 0 {
        lemma_skeleton_from_within(e, acc2, b0);
    }
}

/// Every pixel of the skeleton lies in the thresholded input: where the input
/// is zero, so is the skeleton.
pub proof fn law_skeleton_within_input(b: PlaneView)
    requires
        b.wf(),
        has_background(b),
    ensures
        skeleton_view(b).data.len() == b.data.len(),
        forall|i: int| 0 <= i < b.data.len() && #[trigger] skeleton_view(b).data[i] != 0 ==> b.data[i] != 0,
{
    lemma_skeleton_from_within(
        b,
        PlaneView { width: b.width, height: b.height, data: Seq::new(b.data.len(), |i: int| 0u8) },
        b,
    );
}

/// With a one-pixel window (side 1) the median filter leaves a plane as it is.
pub proof fn law_median_side_one_is_identity(p: PlaneView)
    requires
        p.wf(),
    ensures
        median_view(p, 0) == p,
{
    let w = p.width as int;
    let h = p.height as int;
    assert forall|i: int| 0 <= i < p.data.len() implies #[trigger] median_view(p, 0).data[i] == p.data[i] by {
        crate::grid::lemma_grid_pos(i, w, h);
        let s = window(p, i, 0);
        assert(1int * 1int == 1);
        assert(s.len() == 1);
        assert(clamp(i / w + 0int / 1int - 0int, 0, h - 1) == i / w);
        assert(clamp(i % w + 0int % 1int - 0int, 0, w - 1) == i % w);
        assert(s[0] == p.data[(i / w) * w + i % w]);
        assert(s[0] == p.data[i]);
        law_median_occurs(s);
    }
    assert(median_view(p, 0).data =~= p.data);
}

proof fn lemma_median_from_props(s: Seq<u8>, v: int)
    requires
        0 <= v <= 255,
        s.len() > 0,
        forall|u: int| 0 < u <= v ==> #[trigger] count_below(s, u) <= s.len() / 2,
    ensures
        v <= median_from(s, v) <= 255,
        count_below(s, median_from(s, v) + 1) > s.len() / 2,
        forall|u: int| 0 < u <= median_from(s, v) ==> #[trigger] count_below(s, u) <= s.len() / 2,
    decreases 255 - v,
{
    lemma_count_below_all(s);
    if v >= 255 || count_below(s, v + 1) > s.len() / 2 {
    } else {
        lemma_median_from_props(s, v + 1);
    }
}

/// The median is the least value that more than half of the sequence does not
/// exceed.
pub proof fn lemma_median_is_least(s: Seq<u8>)
    requires
        s.len() > 0,
    ensures
        count_below(s, median(s) as int + 1) > s.len() / 2,
        forall|u: int| 0 < u <= median(s) ==> #[trigger] count_below(s, u) <= s.len() / 2,
{
    lemma_median_from_props(s, 0);
}

/// The median of a non-empty sequence is one of its elements.
pub proof fn law_median_occurs(s: Seq<u8>)
    requires
        s.len() > 0,
    ensures
        exists|j: int| 0 <= j < s.len() && s[j] == median(s),
{
    lemma_median_is_least(s);
    let m = median(s) as int;
    lemma_count_below_step(s, m);
    if m > 0 {
        assert(count_below(s, m) <= s.len() / 2);
    } else {
        lemma_count_below_all(s);
    }
    assert(count_value(s, m) > 0);
    lemma_count_value_positive(s, m);
}

proof fn lemma_count_value_positive(s: Seq<u8>, v: int)
    requires
        count_value(s, v) > 0,
    ensures
        exists|j: int| 0 <= j < s.len() && s[j] == v,
    decreases s.len(),
{
    if s.last() != v {
        lemma_count_value_positive(s.drop_last(), v);
        let j = choose|j: int| 0 <= j < s.drop_last().len() && s.drop_last()[j] == v;
        assert(s[j] == v);
    } else {
        assert(s[s.len() - 1] == v);
    }
}

/// Combining an image with itself: blend, and, or give it back; subtract and
/// xor give zero.
pub proof fn law_combine_with_itself(p: PlaneView)
    ensures
        zip_view(p, p, op_spec(BinaryOp::Blend)) == p,
        zip_view(p, p, op_spec(BinaryOp::And)) == p,
        zip_view(p, p, op_spec(BinaryOp::Or)) == p,
        zip_view(p, p, op_spec(BinaryOp::Subtract)).data == Seq::new(p.data.len(), |i: int| 0u8),
        zip_view(p, p, op_spec(BinaryOp::Xor)).data == Seq::new(p.data.len(), |i: int| 0u8),
{
    assert forall|a: u8| #[trigger] mean_round_even(a, a) == a by {
        assert((a + a) / 2 == a);
        assert((a + a) % 2 == 0);
    }
    assert forall|a: u8| (a & a) == a && (a | a) == a && (a ^ a) == 0 by {
        assert((a & a) == a && (a | a) == a && (a ^ a) == 0) by (bit_vector);
    }
    assert(zip_view(p, p, op_spec(BinaryOp::Blend)).data =~= p.data);
    assert(zip_view(p, p, op_spec(BinaryOp::And)).data =~= p.data);
    assert(zip_view(p, p, op_spec(BinaryOp::Or)).data =~= p.data);
    assert(zip_view(p, p, op_spec(BinaryOp::Subtract)).data =~= Seq::new(p.data.len(), |i: int| 0u8));
    assert(zip_view(p, p, op_spec(BinaryOp::Xor)).data =~= Seq::new(p.data.len(), |i: int| 0u8));
}

/// Writing two images of one size to interleaved bytes gives the same bytes
/// only for the same image: reading back what was written gives the image.
pub proof fn law_interleaved_determines_image(a: RgbView, b: RgbView, order: ChannelOrder)
    requires
        a.wf(),
        b.wf(),
        a.same_dims(b),
        interleaved_view(a, order) == interleaved_view(b, order),
    ensures
        a == b,
{
    let n = a.red.data.len() as int;
    let ia = interleaved_view(a, order);
    let ib = interleaved_view(b, order);
    assert forall|i: int| 0 <= i < n implies a.red.data[i] == b.red.data[i] && a.green.data[i] == b.green.data[i]
        && a.blue.data[i] == b.blue.data[i] by {
        let kr = 3 * i + channel_offset(order, 0);
        let kg = 3 * i + channel_offset(order, 1);
        let kb = 3 * i + channel_offset(order, 2);
        assert(kr / 3 == i && kg / 3 == i && kb / 3 == i);
        assert(ia[kr] == ib[kr] && ia[kg] == ib[kg] && ia[kb] == ib[kb]);
    }
    assert(a.red.data =~= b.red.data);
    assert(a.green.data =~= b.green.data);
    assert(a.blue.data =~= b.blue.data);
}

/// Closing an image keeps a valid selection valid: with images left it names
/// one of them, with none left it is -1. (The closed index is compared as an
/// `i32`, so the store must hold fewer than 2^31 images.)
pub proof fn law_close_keeps_selection_valid(len: nat, selected: i32, index: usize)
    requires
        index < len <= 0x8000_0000,
        selected == -1 || 0 <= selected < len,
    ensures
        ({
            let s = selection_after_close((len - 1) as nat, selected, index);
            if len - 1 == 0 {
                s == -1
            } else {
                (selected == -1 ==> s == -1) && (selected >= 0 ==> 0 <= s < len - 1)
            }
        }),
{
    assert(index as i32 == index);
}

/// After opening files the selection names the last image, as long as the
/// store holds at most 2^31 images (the index is kept as an `i32`).
pub proof fn law_open_selects_last(s: ImageStore)
    requires
        0 < s.loaded_images@.len() <= 0x8000_0000,
        s.selected_image == (s.loaded_images@.len() - 1) as i32,
    ensures
        s.current_index() == Some(s.loaded_images@.len() - 1),
{
}

/// The cumulative counts grow with the value and end at the number of
/// elements.
pub proof fn law_cumulative_counts(s: Seq<u8>)
    ensures
        forall|u: int, v: int| 0 <= u <= v <= 256 ==> #[trigger] count_below(s, u) <= #[trigger] count_below(s, v),
        count_below(s, 256) == s.len(),
{
    assert forall|u: int, v: int| 0 <= u <= v <= 256 implies #[trigger] count_below(s, u) <= #[trigger] count_below(s, v) by {
        lemma_count_below_mono(s, u, v);
    }
    lemma_count_below_all(s);
}

/// Pixel `j` is pixel `i` or one of its left, right, upper and lower
/// neighbours inside the plane.
pub open spec fn in_cross(p: PlaneView, i: int, j: int) -> bool {
    let w = p.width as int;
    &&& 0 <= j < p.data.len()
    &&& {
        ||| j == i
        ||| (j == i - 1 && i % w > 0)
        ||| (j == i + 1 && i % w + 1 < w)
        ||| (j == i - w && i >= w)
        ||| (j == i + w && i + w < p.data.len())
    }
}

/// Pixel `j` is pixel `i` or one of its eight neighbours inside the plane.
pub open spec fn in_square(p: PlaneView, i: int, j: int) -> bool {
    let w = p.width as int;
    let left = i % w > 0;
    let right = i % w + 1 < w;
    let up = i >= w;
    let down = i + w < p.data.len();
    &&& 0 <= j < p.data.len()
    &&& {
        ||| j == i
        ||| (j == i - 1 && left)
        ||| (j == i + 1 && right)
        ||| (j == i - w && up)
        ||| (j == i - w - 1 && up && left)
        ||| (j == i - w + 1 && up && right)
        ||| (j == i + w && down)
        ||| (j == i + w - 1 && down && left)
        ||| (j == i + w + 1 && down && right)
    }
}

/// Erosion (dilation) by the cross gives each pixel the least (greatest)
/// value among the pixel and its four neighbours inside the plane.
pub proof fn law_cross_is_neighbourhood_extreme(p: PlaneView, i: int, take_min: bool)
    requires
        p.wf(),
        0 <= i < p.data.len(),
    ensures
        forall|j: int| #[trigger] in_cross(p, i, j) ==> if take_min {
            cross_at(p, i, take_min) <= p.data[j]
        } else {
            cross_at(p, i, take_min) >= p.data[j]
        },
        exists|j: int| #[trigger] in_cross(p, i, j) && p.data[j] == cross_at(p, i, take_min),
{
    let w = p.width as int;
    let h = p.height as int;
    let d = p.data;
    lemma_grid_pos(i, w, h);
    if i % w + 1 < w {
        lemma_step_right(i, w, h);
    }
    if i % w > 0 {
        lemma_step_left(i, w, h);
    }
    let m = cross_at(p, i, take_min);
    if m == d[i] {
        assert(in_cross(p, i, i));
    } else if i % w > 0 && m == d[i - 1] {
        assert(in_cross(p, i, i - 1));
    } else if i % w + 1 < w && m == d[i + 1] {
        assert(in_cross(p, i, i + 1));
    } else if i >= w && m == d[i - w] {
        assert(in_cross(p, i, i - w));
    } else {
        assert(in_cross(p, i, i + w));
    }
}

/// Dilation by the square gives each pixel the greatest value among the pixel
/// and its eight neighbours inside the plane.
#[verifier::spinoff_prover]
pub proof fn law_square_is_neighbourhood_max(p: PlaneView, i: int)
    requires
        p.wf(),
        0 <= i < p.data.len(),
    ensures
        forall|j: int| #[trigger] in_square(p, i, j) ==> square_max_at(p, i) >= p.data[j],
        exists|j: int| #[trigger] in_square(p, i, j) && p.data[j] == square_max_at(p, i),
{
    let w = p.width as int;
    let h = p.height as int;
    let d = p.data;
    let n = d.len() as int;
    lemma_grid_pos(i, w, h);
    let left = i % w > 0;
    let right = i % w + 1 < w;
    let up = i >= w;
    let down = i + w < n;
    if right {
        lemma_step_right(i, w, h);
    }
    if left {
        lemma_step_left(i, w, h);
    }
    if up {
        lemma_step_up(i, w, h);
        if left {
            lemma_step_left(i - w, w, h);
            lemma_grid_pos(i - w, w, h);
            assert(i - w - 1 >= 0) by (nonlinear_arith)
                requires
                    i - w == ((i - w) / w) * w + (i - w) % w,
                    (i - w) % w > 0,
                    (i - w) / w >= 0,
                    w > 0,
            ;
        }
    }
    if down {
        lemma_step_down(i, w, h);
        if right {
            lemma_step_right(i + w, w, h);
        }
    }
    let m = square_max_at(p, i);
    if m == d[i] {
        assert(in_square(p, i, i));
    } else if left && m == d[i - 1] {
        assert(in_square(p, i, i - 1));
    } else if right && m == d[i + 1] {
        assert(in_square(p, i, i + 1));
    } else if up && m == d[i - w] {
        assert(in_square(p, i, i - w));
    } else if up && left && m == d[i - w - 1] {
        assert(in_square(p, i, i - w - 1));
    } else if up && right && m == d[i - w + 1] {
        assert(in_square(p, i, i - w + 1));
    } else if down && m == d[i + w] {
        assert(in_square(p, i, i + w));
    } else if down && left && m == d[i + w - 1] {
        assert(in_square(p, i, i + w - 1));
    } else {
        assert(in_square(p, i, i + w + 1));
    }
}

proof fn lemma_inverted_counts(s: Seq<u8>, v: int)
    ensures
        count_value(Seq::new(s.len(), |k: int| (255 - s[k]) as u8), v) == count_value(s, 255 - v),
    decreases s.len(),
{
    let t = Seq::new(s.len(), |k: int| (255 - s[k]) as u8);
    if s.len() > 0 {
        lemma_inverted_counts(s.drop_last(), v);
        assert(t.drop_last() =~= Seq::new(s.drop_last().len(), |k: int| (255 - s.drop_last()[k]) as u8));
    }
}

/// The negative of a gray image is gray, with the histogram mirrored: the
/// count of value `v` after is the count of `255 - v` before; the number of
/// pixels and the largest count stay.
pub proof fn law_negate_mirrors_histogram(p: PlaneView, before: crate::histogram::GrayHistogram, after: crate::histogram::GrayHistogram)
    requires
        describes(before, gray_view(replicate_view(p))),
        describes(after, gray_view(invert_image_view(replicate_view(p)))),
    ensures
        invert_image_view(replicate_view(p)).is_gray(),
        forall|v: int| 0 <= v < 256 ==> #[trigger] after.counts@[v] == before.counts@[255 - v],
        after.total == before.total,
        after.max_count == before.max_count,
{
    law_gray_roundtrip(p);
    law_gray_roundtrip(invert_view(p));
    assert(invert_image_view(replicate_view(p)) == replicate_view(invert_view(p)));
    assert forall|v: int| 0 <= v < 256 implies #[trigger] after.counts@[v] == before.counts@[255 - v] by {
        lemma_inverted_counts(p.data, v);
        assert(invert_view(p).data =~= Seq::new(p.data.len(), |k: int| (255 - p.data[k]) as u8));
    }
    let a = choose|v: int| 0 <= v < 256 && after.counts@[v] == after.max_count;
    let b = choose|v: int| 0 <= v < 256 && before.counts@[v] == before.max_count;
    assert(after.counts@[255 - b] == before.counts@[b]);
}

/// The NOT operation on two images gives the negative of the first.
pub proof fn law_not_is_negative(a: PlaneView, b: PlaneView)
    ensures
        zip_view(a, b, op_spec(BinaryOp::Not)) == invert_view(a),
{
    assert(zip_view(a, b, op_spec(BinaryOp::Not)).data =~= invert_view(a).data);
}

/// Every byte is 0 or 255.
pub open spec fn is_binary(s: Seq<u8>) -> bool {
    forall|i: int| 0 <= i < s.len() ==> #[trigger] s[i] == 0 || s[i] == 255
}

proof fn lemma_cross_binary(p: PlaneView, take_min: bool)
    requires
        p.wf(),
        is_binary(p.data),
    ensures
        cross_view(p, take_min).wf(),
        is_binary(cross_view(p, take_min).data),
{
    assert forall|i: int| 0 <= i < p.data.len() implies #[trigger] cross_view(p, take_min).data[i] == 0
        || cross_view(p, take_min).data[i] == 255 by {
        law_cross_is_neighbourhood_extreme(p, i, take_min);
        let j = choose|j: int| #[trigger] in_cross(p, i, j) && p.data[j] == cross_at(p, i, take_min);
        assert(p.data[j] == 0 || p.data[j] == 255);
    }
}

proof fn lemma_binary_bytes(a: u8, b: u8)
    requires
        a == 0 || a == 255,
        b == 0 || b == 255,
    ensures
        (a | b) == 0 || (a | b) == 255,
{
    assert((a == 0 || a == 255) && (b == 0 || b == 255) ==> (a | b) == 0 || (a | b) == 255) by (bit_vector);
}

proof fn lemma_skeleton_from_binary(b: PlaneView, acc: PlaneView)
    requires
        b.wf(),
        has_background(b),
        is_binary(b.data),
        is_binary(acc.data),
        acc.data.len() == b.data.len(),
    ensures
        is_binary(skeleton_from(b, acc).data),
    decreases count_nonzero(b.data),
{
    let e = cross_view(b, true);
    let opened = cross_view(e, false);
    let removed = zip_view(b, opened, op_spec(BinaryOp::Subtract));
    let acc2 = zip_view(acc, removed, op_spec(BinaryOp::Or));
    lemma_erosion_shrinks(b);
    lemma_cross_binary(b, true);
    lemma_cross_binary(e, false);
    assert forall|i: int| 0 <= i < acc2.data.len() implies #[trigger] acc2.data[i] == 0 || acc2.data[i] == 255 by {
        assert(removed.data[i] == saturating_sub(b.data[i], opened.data[i]));
        assert(b.data[i] == 0 || b.data[i] == 255);
        assert(opened.data[i] == 0 || opened.data[i] == 255);
        assert(acc.data[i] == 0 || acc.data[i] == 255);
        lemma_binary_bytes(acc.data[i], removed.data[i]);
    }
    if count_nonzero(e.data) != 0 {
        lemma_skeleton_from_binary(e, acc2);
    }
}

/// The skeleton of a thresholded plane holds only 0 and 255.
pub proof fn law_skeleton_is_binary(p: PlaneView, t: u8)
    requires
        p.wf(),
        has_background(threshold_view(p, t)),
    ensures
        is_binary(skeleton_view(threshold_view(p, t)).data),
{
    let b = threshold_view(p, t);
    let zero = PlaneView { width: b.width, height: b.height, data: Seq::new(b.data.len(), |i: int| 0u8) };
    assert(is_binary(b.data));
    assert(is_binary(zero.data));
    lemma_skeleton_from_binary(b, zero);
}

/// Number of steps between pixels `q` and `z` of a grid `w` pixels wide,
/// moving left, right, up or down.
pub open spec fn grid_dist(w: int, q: int, z: int) -> int {
    let dx = q % w - z % w;
    let dy = q / w - z / w;
    (if dx >= 0 {
        dx
    } else {
        -dx
    }) + (if dy >= 0 {
        dy
    } else {
        -dy
    })
}

/// Pixel `z` is a zero pixel of `p` at most `d` steps from pixel `q`.
pub open spec fn zero_within(p: PlaneView, q: int, z: int, d: int) -> bool {
    0 <= z < p.data.len() && p.data[z] == 0 && grid_dist(p.width as int, q, z) <= d
}

/// Every non-zero pixel of `p` has a zero pixel at most `d` steps away.
pub open spec fn near_zero(p: PlaneView, d: int) -> bool {
    forall|q: int| 0 <= q < p.data.len() && #[trigger] p.data[q] != 0 ==> exists|z: int| #[trigger] zero_within(p, q, z, d)
}

proof fn lemma_erosion_nears(p: PlaneView, d: int)
    requires
        p.wf(),
        d >= 1,
        near_zero(p, d),
    ensures
        near_zero(cross_view(p, true), d - 1),
{
    let e = cross_view(p, true);
    let w = p.width as int;
    let h = p.height as int;
    assert forall|q: int| 0 <= q < e.data.len() && #[trigger] e.data[q] != 0 implies exists|z: int| #[trigger] zero_within(e, q, z, d - 1) by {
        law_cross_is_neighbourhood_extreme(p, q, true);
        assert(in_cross(p, q, q));
        assert(e.data[q] == cross_at(p, q, true));
        assert(p.data[q] != 0);
        let z = choose|z: int| #[trigger] zero_within(p, q, z, d);
        lemma_grid_pos(q, w, h);
        lemma_grid_pos(z, w, h);
        let qx = q % w;
        let qy = q / w;
        let zx = z % w;
        let zy = z / w;
        let z2 = if zx < qx {
            lemma_step_right(z, w, h);
            z + 1
        } else if zx > qx {
            lemma_step_left(z, w, h);
            assert(z >= 1) by (nonlinear_arith)
                requires
                    z == zy * w + zx,
                    zx > 0,
                    zy >= 0,
                    w > 0,
            ;
            z - 1
        } else if zy < qy {
            lemma_down_exists(z, w, h);
            lemma_step_down(z, w, h);
            z + w
        } else {
            assert(zy != qy);
            assert(z >= w) by (nonlinear_arith)
                requires
                    z == zy * w + zx,
                    zy > qy,
                    qy >= 0,
                    zx >= 0,
                    w > 0,
            ;
            lemma_step_up(z, w, h);
            z - w
        };
        law_cross_is_neighbourhood_extreme(p, z2, true);
        assert(in_cross(p, z2, z));
        assert(e.data[z2] == cross_at(p, z2, true));
        assert(zero_within(e, q, z2, d - 1));
    }
}

proof fn lemma_rounds_bound(b: PlaneView, d: nat)
    requires
        b.wf(),
        has_background(b),
        near_zero(b, d as int),
    ensures
        skeleton_rounds(b) <= d + 1,
    decreases count_nonzero(b.data),
{
    let e = cross_view(b, true);
    let w = b.width as int;
    let h = b.height as int;
    lemma_erosion_shrinks(b);
    if count_nonzero(e.data) != 0 {
        if d == 0 {
            lemma_count_nonzero_positive(e.data);
            let q = choose|i: int| 0 <= i < e.data.len() && e.data[i] != 0;
            law_cross_is_neighbourhood_extreme(b, q, true);
            assert(in_cross(b, q, q));
            assert(e.data[q] == cross_at(b, q, true));
            assert(b.data[q] != 0);
            let z = choose|z: int| #[trigger] zero_within(b, q, z, 0);
            lemma_grid_pos(q, w, h);
            lemma_grid_pos(z, w, h);
            assert(q == z);
        } else {
            lemma_erosion_nears(b, d as int);
            lemma_rounds_bound(e, (d - 1) as nat);
        }
    }
}

/// The skeleton of a non-empty plane with background is finished after at
/// most `width + height - 1` rounds: each erosion brings every remaining
/// pixel one step nearer to a zero pixel, and no pixel is more than
/// `width + height - 2` steps from one.
pub proof fn law_skeleton_round_bound(b: PlaneView)
    requires
        b.wf(),
        has_background(b),
        b.data.len() > 0,
    ensures
        skeleton_rounds(b) <= b.width + b.height - 1,
{
    let w = b.width as int;
    let h = b.height as int;
    lemma_grid_pos(0, w, h);
    let z = choose|i: int| 0 <= i < b.data.len() && b.data[i] == 0;
    lemma_grid_pos(z, w, h);
    assert forall|q: int| 0 <= q < b.data.len() && #[trigger] b.data[q] != 0 implies exists|z2: int| #[trigger] zero_within(b, q, z2, w + h - 2) by {
        lemma_grid_pos(q, w, h);
        assert(zero_within(b, q, z, w + h - 2));
    }
    lemma_rounds_bound(b, (w + h - 2) as nat);
}

/// The pixel in column `x` and row `y`.
pub open spec fn pixel_at(p: PlaneView, x: int, y: int) -> u8 {
    p.data[y * p.width + x]
}

/// Column `x`, row `y` lies inside the plane and at most `n` columns and `n`
/// rows away from column `cx`, row `cy`.
pub open spec fn in_box(p: PlaneView, x: int, y: int, cx: int, cy: int, n: int) -> bool {
    &&& 0 <= x < p.width
    &&& 0 <= y < p.height
    &&& cx - n <= x <= cx + n
    &&& cy - n <= y <= cy + n
}

pub proof fn lemma_box_index(p: PlaneView, x: int, y: int)
    requires
        p.wf(),
        0 <= x < p.width,
        0 <= y < p.height,
    ensures
        0 <= y * p.width + x < p.data.len(),
        (y * p.width + x) % (p.width as int) == x,
        (y * p.width + x) / (p.width as int) == y,
{
    let w = p.width as int;
    let h = p.height as int;
    assert(0 <= y * w + x < w * h) by (nonlinear_arith)
        requires
            0 <= x < w,
            0 <= y < h,
    ;
    lemma_fundamental_div_mod_converse(y * w + x, w, y, x);
}

/// Dilation by the square, in columns and rows: the greatest pixel at most
/// one column and one row away.
proof fn lemma_square_max_box(p: PlaneView, x: int, y: int)
    requires
        p.wf(),
        0 <= x < p.width,
        0 <= y < p.height,
    ensures
        forall|x2: int, y2: int| #[trigger] in_box(p, x2, y2, x, y, 1) ==> square_max_at(p, y * p.width + x)
            >= pixel_at(p, x2, y2),
        exists|x2: int, y2: int| #[trigger] in_box(p, x2, y2, x, y, 1) && square_max_at(p, y * p.width + x)
            == pixel_at(p, x2, y2),
{
    let w = p.width as int;
    let h = p.height as int;
    let i = y * w + x;
    lemma_box_index(p, x, y);
    assert(i >= w <==> y >= 1) by (nonlinear_arith)
        requires
            i == y * w + x,
            0 <= x < w,
            y >= 0,
    ;
    assert(i + w < w * h <==> y + 1 < h) by (nonlinear_arith)
        requires
            i == y * w + x,
            0 <= x < w,
            y >= 0,
    ;
    assert((y - 1) * w == i - x - w && (y + 1) * w == i - x + w) by (nonlinear_arith)
        requires
            i == y * w + x,
    ;
    assert forall|x2: int, y2: int| #[trigger] in_box(p, x2, y2, x, y, 1) implies square_max_at(p, i)
        >= pixel_at(p, x2, y2) by {
        if y2 == y - 1 {
            assert(pixel_at(p, x2, y2) == p.data[i - w + (x2 - x)]);
        } else if y2 == y {
            assert(pixel_at(p, x2, y2) == p.data[i + (x2 - x)]);
        } else {
            assert(pixel_at(p, x2, y2) == p.data[i + w + (x2 - x)]);
        }
    }
    law_square_is_neighbourhood_max(p, i);
    let j = choose|j: int| #[trigger] in_square(p, i, j) && p.data[j] == square_max_at(p, i);
    if j == i {
        assert(in_box(p, x, y, x, y, 1));
        assert(pixel_at(p, x, y) == p.data[j]);
    } else if j == i - 1 && x > 0 {
        assert(in_box(p, x - 1, y, x, y, 1));
        assert(pixel_at(p, x - 1, y) == p.data[j]);
    } else if j == i + 1 && x + 1 < w {
        assert(in_box(p, x + 1, y, x, y, 1));
        assert(pixel_at(p, x + 1, y) == p.data[j]);
    } else if j == i - w && y >= 1 {
        assert(in_box(p, x, y - 1, x, y, 1));
        assert(pixel_at(p, x, y - 1) == p.data[j]);
    } else if j == i - w - 1 && y >= 1 && x > 0 {
        assert(in_box(p, x - 1, y - 1, x, y, 1));
        assert(pixel_at(p, x - 1, y - 1) == p.data[j]);
    } else if j == i - w + 1 && y >= 1 && x + 1 < w {
        assert(in_box(p, x + 1, y - 1, x, y, 1));
        assert(pixel_at(p, x + 1, y - 1) == p.data[j]);
    } else if j == i + w && y + 1 < h {
        assert(in_box(p, x, y + 1, x, y, 1));
        assert(pixel_at(p, x, y + 1) == p.data[j]);
    } else if j == i + w - 1 && y + 1 < h && x > 0 {
        assert(in_box(p, x - 1, y + 1, x, y, 1));
        assert(pixel_at(p, x - 1, y + 1) == p.data[j]);
    } else {
        assert(in_box(p, x + 1, y + 1, x, y, 1));
        assert(pixel_at(p, x + 1, y + 1) == p.data[j]);
    }
}

/// Dilating `n` times by the 3x3 square gives each pixel the greatest value
/// among the pixels at most `n` columns and `n` rows away: dilation by the
/// `(2n+1) x (2n+1)` square.
pub proof fn law_iterated_dilation_is_box_max(p: PlaneView, n: nat, x: int, y: int)
    requires
        p.wf(),
        0 <= x < p.width,
        0 <= y < p.height,
    ensures
        square_dilate_iter(p, n).wf(),
        square_dilate_iter(p, n).width == p.width,
        square_dilate_iter(p, n).height == p.height,
        forall|x2: int, y2: int| #[trigger] in_box(p, x2, y2, x, y, n as int) ==> pixel_at(
            square_dilate_iter(p, n),
            x,
            y,
        ) >= pixel_at(p, x2, y2),
        exists|x2: int, y2: int| #[trigger] in_box(p, x2, y2, x, y, n as int) && pixel_at(
            square_dilate_iter(p, n),
            x,
            y,
        ) == pixel_at(p, x2, y2),
    decreases n,
{
    lemma_dilate_iter_dims(p, n);
    lemma_dilate_iter_len(p, n);
    if n == 0 {
        assert(in_box(p, x, y, x, y, 0));
    } else {
        let q = square_dilate_view(p);
        let m = (n - 1) as nat;
        let v = pixel_at(square_dilate_iter(p, n), x, y);
        law_iterated_dilation_is_box_max(q, m, x, y);
        assert(v == pixel_at(square_dilate_iter(q, m), x, y));
        assert forall|x2: int, y2: int| #[trigger] in_box(p, x2, y2, x, y, n as int) implies v >= pixel_at(p, x2, y2) by {
            let x3 = if x2 > x + m { x2 - 1 } else if x2 < x - m { x2 + 1 } else { x2 };
            let y3 = if y2 > y + m { y2 - 1 } else if y2 < y - m { y2 + 1 } else { y2 };
            assert(in_box(q, x3, y3, x, y, m as int));
            lemma_box_index(p, x3, y3);
            lemma_square_max_box(p, x3, y3);
            assert(in_box(p, x2, y2, x3, y3, 1));
            assert(pixel_at(q, x3, y3) == square_max_at(p, y3 * p.width + x3));
        }
        let (x3, y3) = choose|x3: int, y3: int| #[trigger] in_box(q, x3, y3, x, y, m as int) && v == pixel_at(q, x3, y3);
        lemma_box_index(p, x3, y3);
        lemma_square_max_box(p, x3, y3);
        assert(pixel_at(q, x3, y3) == square_max_at(p, y3 * p.width + x3));
        let (x2, y2) = choose|x2: int, y2: int| #[trigger] in_box(p, x2, y2, x3, y3, 1) && square_max_at(
            p,
            y3 * p.width + x3,
        ) == pixel_at(p, x2, y2);
        assert(in_box(p, x2, y2, x, y, n as int));
    }
}

proof fn lemma_dilate_iter_len(p: PlaneView, n: nat)
    ensures
        square_dilate_iter(p, n).data.len() == p.data.len(),
    decreases n,
{
    if n > 0 {
        lemma_dilate_iter_len(square_dilate_view(p), (n - 1) as nat);
    }
}

} // verus!
