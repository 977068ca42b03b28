use vstd::prelude::*;

use crate::histogram::{CumulativeHistogram, count_below, cumulative_histogram};
use crate::median::{median_view, median_filter_plane};
use crate::morphology::{effective_iterations, square_dilate_iter, dilate_square_times, has_background, skeleton, skeleton_view};
use crate::plane::{Plane, PlaneView, zip_view};
use crate::point_ops::{BinaryOp, op_spec, threshold_view, threshold_binary, invert_image_view, invert_image, lookup_view, lookup_image_view, apply_lut, apply_lut_image, combine_images};
use crate::rgb::{RgbImage, RgbView, gray_view, replicate_view};
use crate::store::{ActionError, ImageContainer, ImageStore, describes, replaced_at};

verus! {

/// The operation was refused with `e` and nothing changed.
pub open spec fn refused(old: ImageStore, new: ImageStore, r: Result<(), ActionError>, e: ActionError) -> bool {
    r == Err::<(), ActionError>(e) && new == old
}

/// The selected image became `out`, with colour flag `color`; the selection
/// stayed.
pub open spec fn updated(
    old: ImageStore,
    new: ImageStore,
    r: Result<(), ActionError>,
    out: RgbView,
    color: bool,
) -> bool {
    &&& r is Ok
    &&& replaced_at(old.loaded_images@, new.loaded_images@, old.selected_image as int, out, color)
    &&& new.selected_image == old.selected_image
}

/// After an update to `out`: a gray result has its histogram recomputed, a
/// colour one leaves the histogram as it was.
pub open spec fn histogram_after(old: ImageStore, new: ImageStore, out: RgbView, color: bool) -> bool {
    if color {
        new.histogram == old.histogram
    } else {
        new.histogram matches Some(h) && describes(h, gray_view(out))
    }
}

/// The selected image of `s` (meaningful when there is one).
pub open spec fn current_view(s: ImageStore) -> RgbView {
    s.loaded_images@[s.selected_image as int].img@
}

/// Replaces the selected image (index `idx`) and, for a gray result,
/// recomputes the histogram.
fn store_result(store: &mut ImageStore, idx: usize, img: RgbImage, color: bool)
    requires
        old(store).current_index() == Some(idx as int),
    ensures
        replaced_at(old(store).loaded_images@, final(store).loaded_images@, idx as int, img@, color),
        final(store).selected_image == old(store).selected_image,
        histogram_after(*old(store), *final(store), img@, color),
{
    let ghost out = img@;
    store.replace_image(idx, img, color);
    if !color {
        let _ = store.calculate_gray_histogram();
    }
}

/// Binary threshold of the selected gray image: 255 where its gray value
/// exceeds `threshold`, 0 elsewhere; the histogram is then recomputed.
pub fn segment(store: &mut ImageStore, threshold: u8) -> (r: Result<(), ActionError>)
    ensures
        match old(store).current_index() {
            None => refused(*old(store), *final(store), r, ActionError::NoImageAt(old(store).selected_image)),
            Some(i) => if old(store).loaded_images@[i].color {
                refused(*old(store), *final(store), r, ActionError::ThresholdNeedsGray)
            } else {
                let out = replicate_view(threshold_view(gray_view(current_view(*old(store))), threshold));
                updated(*old(store), *final(store), r, out, false) && histogram_after(*old(store), *final(store), out, false)
            },
        },
{
    let (idx, img) = match store.get_current_image() {
        Err(e) => {
            return Err(e);
        },
        Ok((idx, c)) => {
            if c.color {
                return Err(ActionError::ThresholdNeedsGray);
            }
            let gray = c.img.to_gray();
            (idx, RgbImage::from_gray(threshold_binary(&gray, threshold)))
        },
    };
    store_result(store, idx, img, false);
    Ok(())
}

/// Turns a colour image gray (its gray values in all three channels) or marks
/// a gray image as colour, leaving its pixels.
pub fn convert_color(store: &mut ImageStore) -> (r: Result<(), ActionError>)
    ensures
        match old(store).current_index() {
            None => refused(*old(store), *final(store), r, ActionError::NoImageAt(old(store).selected_image)),
            Some(i) => if old(store).loaded_images@[i].color {
                updated(*old(store), *final(store), r, replicate_view(gray_view(current_view(*old(store)))), false)
                    && final(store).histogram == old(store).histogram
            } else {
                updated(*old(store), *final(store), r, current_view(*old(store)), true)
                    && final(store).histogram == old(store).histogram
            },
        },
{
    let (idx, img, color) = match store.get_current_image() {
        Err(e) => {
            return Err(e);
        },
        Ok((idx, c)) => {
            if c.color {
                (idx, RgbImage::from_gray(c.img.to_gray()), false)
            } else {
                (idx, c.img.duplicate(), true)
            }
        },
    };
    store.replace_image(idx, img, color);
    Ok(())
}

/// Histogram of the selected gray image (its gray values).
pub fn calculate_gray_histogram(store: &mut ImageStore) -> (r: Result<(), ActionError>)
    ensures
        final(store).loaded_images@ == old(store).loaded_images@,
        final(store).selected_image == old(store).selected_image,
        match old(store).current_index() {
            None => refused(*old(store), *final(store), r, ActionError::NoImageAt(old(store).selected_image)),
            Some(i) => if old(store).loaded_images@[i].color {
                refused(*old(store), *final(store), r, ActionError::HistogramNeedsGray)
            } else {
                r is Ok && (final(store).histogram matches Some(h) && describes(
                    h,
                    gray_view(current_view(*old(store))),
                ))
            },
        },
{
    store.calculate_gray_histogram()
}

/// What histogram equalization of the selected gray image works from: the
/// cumulative counts of its red channel.
pub fn equalization_input(store: &ImageStore) -> (r: Result<CumulativeHistogram, ActionError>)
    ensures
        match store.current_index() {
            None => r == Err::<CumulativeHistogram, ActionError>(ActionError::NoImageAt(store.selected_image)),
            Some(i) => if store.loaded_images@[i].color {
                r == Err::<CumulativeHistogram, ActionError>(ActionError::EqualizeNeedsGray)
            } else {
                r matches Ok(c) && {
                    &&& c.cdf@.len() == 256
                    &&& forall|v: int| 0 <= v < 256 ==> #[trigger] c.cdf@[v] == count_below(current_view(*store).red.data, v + 1)
                    &&& c.total == current_view(*store).red.data.len()
                    &&& (forall|v: int| 0 <= v < 256 ==> c.cdf@[v] == 0) ==> c.first_nonzero == 0
                    &&& (exists|v: int| 0 <= v < 256 && c.cdf@[v] != 0) ==> exists|m: int|
                        0 <= m < 256 && c.cdf@[m] != 0 && c.first_nonzero == c.cdf@[m] && forall|j: int|
                            0 <= j < m ==> c.cdf@[j] == 0
                }
            },
        },
{
    match store.get_current_image() {
        Err(e) => Err(e),
        Ok((_, c)) => {
            if c.color {
                Err(ActionError::EqualizeNeedsGray)
            } else {
                Ok(cumulative_histogram(c.img.red()))
            }
        },
    }
}

/// Applies the equalization lookup table to the red channel of the selected
/// gray image, writes the result to all three channels and recomputes the
/// histogram.
pub fn equalize_histogram(store: &mut ImageStore, lut: &[u8; 256]) -> (r: Result<(), ActionError>)
    ensures
        match old(store).current_index() {
            None => refused(*old(store), *final(store), r, ActionError::NoImageAt(old(store).selected_image)),
            Some(i) => if old(store).loaded_images@[i].color {
                refused(*old(store), *final(store), r, ActionError::EqualizeNeedsGray)
            } else {
                let out = replicate_view(lookup_view(current_view(*old(store)).red, lut@));
                updated(*old(store), *final(store), r, out, false) && histogram_after(*old(store), *final(store), out, false)
            },
        },
{
    let (idx, img) = match store.get_current_image() {
        Err(e) => {
            return Err(e);
        },
        Ok((idx, c)) => {
            if c.color {
                return Err(ActionError::EqualizeNeedsGray);
            }
            (idx, RgbImage::from_gray(apply_lut(c.img.red(), lut)))
        },
    };
    store_result(store, idx, img, false);
    Ok(())
}

/// The selective stretch table: `q3` at and below `p1`, `q4` at and above
/// `p2`, and the given table's entry in between.
pub open spec fn stretch_table(lut: Seq<u8>, p1: u8, p2: u8, q3: u8, q4: u8) -> Seq<u8> {
    Seq::new(256, |i: int| if i <= p1 {
        q3
    } else if i >= p2 {
        q4
    } else {
        lut[i]
    })
}

/// Fixes the ends of a stretch table: `q3` up to `p1`, `q4` from `p2` on.
fn fix_stretch_ends(lut: &[u8; 256], p1: u8, p2: u8, q3: u8, q4: u8) -> (t: [u8; 256])
    ensures
        t@ == stretch_table(lut@, p1, p2, q3, q4),
{
    let mut t: [u8; 256] = *lut;
    let mut i: usize = 0;
    while i < 256
        invariant
            i <= 256,
            t@.len() == 256,
            forall|j: int| 0 <= j < i ==> #[trigger] t@[j] == stretch_table(lut@, p1, p2, q3, q4)[j],
            forall|j: int| i <= j < 256 ==> #[trigger] t@[j] == lut@[j],
        decreases 256 - i,
    {
        if i <= p1 as usize {
            t[i] = q3;
        } else if i >= p2 as usize {
            t[i] = q4;
        }
        i = i + 1;
    }
    assert(t@ =~= stretch_table(lut@, p1, p2, q3, q4));
    t
}

/// Selective stretch of the selected gray image: values at and below `p1`
/// become `q3`, values at and above `p2` become `q4`, and values in between
/// go through `lut`. The input range `p1..p2` and the output range `q3..q4`
/// must not be empty.
pub fn selective_stretch(
    store: &mut ImageStore,
    p1: u8,
    p2: u8,
    q3: u8,
    q4: u8,
    lut: &[u8; 256],
) -> (r: Result<(), ActionError>)
    ensures
        match old(store).current_index() {
            None => refused(*old(store), *final(store), r, ActionError::NoImageAt(old(store).selected_image)),
            Some(i) => if old(store).loaded_images@[i].color {
                refused(*old(store), *final(store), r, ActionError::StretchNeedsGray)
            } else if p1 >= p2 || q3 >= q4 {
                refused(*old(store), *final(store), r, ActionError::StretchEmptyRange)
            } else {
                let out = replicate_view(lookup_view(current_view(*old(store)).red, stretch_table(lut@, p1, p2, q3, q4)));
                updated(*old(store), *final(store), r, out, false) && histogram_after(*old(store), *final(store), out, false)
            },
        },
{
    let (idx, img) = match store.get_current_image() {
        Err(e) => {
            return Err(e);
        },
        Ok((idx, c)) => {
            if c.color {
                return Err(ActionError::StretchNeedsGray);
            }
            if p1 >= p2 || q3 >= q4 {
                return Err(ActionError::StretchEmptyRange);
            }
            let table = fix_stretch_ends(lut, p1, p2, q3, q4);
            (idx, RgbImage::from_gray(apply_lut(c.img.red(), &table)))
        },
    };
    store_result(store, idx, img, false);
    Ok(())
}

/// Negative of the selected image (`255 - v` in every channel); the
/// histogram is recomputed for a gray image.
pub fn negate(store: &mut ImageStore) -> (r: Result<(), ActionError>)
    ensures
        match old(store).current_index() {
            None => refused(*old(store), *final(store), r, ActionError::NoImageAt(old(store).selected_image)),
            Some(i) => {
                let color = old(store).loaded_images@[i].color;
                let out = invert_image_view(current_view(*old(store)));
                updated(*old(store), *final(store), r, out, color) && histogram_after(*old(store), *final(store), out, color)
            },
        },
{
    let (idx, img, color) = match store.get_current_image() {
        Err(e) => {
            return Err(e);
        },
        Ok((idx, c)) => (idx, invert_image(&c.img), c.color),
    };
    store_result(store, idx, img, color);
    Ok(())
}

/// Posterization of the selected image through a lookup table applied to
/// every channel; at least two levels are needed. The histogram is
/// recomputed for a gray image.
pub fn posterize(store: &mut ImageStore, levels: u8, lut: &[u8; 256]) -> (r: Result<(), ActionError>)
    ensures
        match old(store).current_index() {
            None => refused(*old(store), *final(store), r, ActionError::NoImageAt(old(store).selected_image)),
            Some(i) => if levels < 2 {
                refused(*old(store), *final(store), r, ActionError::TooFewLevels)
            } else {
                let color = old(store).loaded_images@[i].color;
                let out = lookup_image_view(current_view(*old(store)), lut@);
                updated(*old(store), *final(store), r, out, color) && histogram_after(*old(store), *final(store), out, color)
            },
        },
{
    let (idx, img, color) = match store.get_current_image() {
        Err(e) => {
            return Err(e);
        },
        Ok((idx, c)) => {
            if levels < 2 {
                return Err(ActionError::TooFewLevels);
            }
            (idx, apply_lut_image(&c.img, lut), c.color)
        },
    };
    store_result(store, idx, img, color);
    Ok(())
}

/// Image name followed by `_` and a channel name.
fn channel_label(base: &String, name: &str) -> (l: String)
    ensures
        l@ == base@ + "_"@ + name@,
{
    let mut l = base.clone();
    l.append("_");
    l.append(name);
    l
}

/// Appends three gray images made from `planes`, labelled with the selected
/// image's label and the channel names, and selects the last of them.
fn push_channels(store: &mut ImageStore, label: String, planes: (Plane, Plane, Plane), names: (&str, &str, &str))
    ensures
        final(store).loaded_images@.len() == old(store).loaded_images@.len() + 3,
        forall|j: int| 0 <= j < old(store).loaded_images@.len() ==> final(store).loaded_images@[j] == old(store).loaded_images@[j],
        final(store).loaded_images@[old(store).loaded_images@.len() as int].img@ == replicate_view(planes.0@),
        final(store).loaded_images@[old(store).loaded_images@.len() + 1int].img@ == replicate_view(planes.1@),
        final(store).loaded_images@[old(store).loaded_images@.len() + 2int].img@ == replicate_view(planes.2@),
        final(store).loaded_images@[old(store).loaded_images@.len() as int].label@ == label@ + "_"@ + names.0@,
        final(store).loaded_images@[old(store).loaded_images@.len() + 1int].label@ == label@ + "_"@ + names.1@,
        final(store).loaded_images@[old(store).loaded_images@.len() + 2int].label@ == label@ + "_"@ + names.2@,
        !final(store).loaded_images@[old(store).loaded_images@.len() as int].color,
        !final(store).loaded_images@[old(store).loaded_images@.len() + 1int].color,
        !final(store).loaded_images@[old(store).loaded_images@.len() + 2int].color,
        final(store).selected_image == (old(store).loaded_images@.len() + 2) as i32,
        final(store).histogram == old(store).histogram,
{
    let (a, b, c) = planes;
    let la = channel_label(&label, names.0);
    let lb = channel_label(&label, names.1);
    let lc = channel_label(&label, names.2);
    store.push_image(ImageContainer { img: RgbImage::from_gray(a), label: la, color: false });
    store.push_image(ImageContainer { img: RgbImage::from_gray(b), label: lb, color: false });
    store.push_image(ImageContainer { img: RgbImage::from_gray(c), label: lc, color: false });
    store.select_last();
}

/// Adds the hue, saturation and value planes of the selected colour image as
/// three gray images labelled `_H`, `_S`, `_V`, and selects the last.
pub fn convert_to_hsv(store: &mut ImageStore, hsv: (Plane, Plane, Plane)) -> (r: Result<(), ActionError>)
    ensures
        match old(store).current_index() {
            None => refused(*old(store), *final(store), r, ActionError::NoImageAt(old(store).selected_image)),
            Some(i) => if !old(store).loaded_images@[i].color {
                refused(*old(store), *final(store), r, ActionError::HsvNeedsColor)
            } else {
                r is Ok && channels_added(*old(store), *final(store), hsv.0@, hsv.1@, hsv.2@, "H"@, "S"@, "V"@)
            },
        },
{
    let label = match store.get_current_image() {
        Err(e) => {
            return Err(e);
        },
        Ok((_, c)) => {
            if !c.color {
                return Err(ActionError::HsvNeedsColor);
            }
            c.label.clone()
        },
    };
    push_channels(store, label, hsv, ("H", "S", "V"));
    Ok(())
}

/// Adds the L, a and b planes of the selected colour image as three gray
/// images labelled `_L`, `_a`, `_b`, and selects the last.
pub fn convert_to_lab(store: &mut ImageStore, lab: (Plane, Plane, Plane)) -> (r: Result<(), ActionError>)
    ensures
        match old(store).current_index() {
            None => refused(*old(store), *final(store), r, ActionError::NoImageAt(old(store).selected_image)),
            Some(i) => if !old(store).loaded_images@[i].color {
                refused(*old(store), *final(store), r, ActionError::LabNeedsColor)
            } else {
                r is Ok && channels_added(*old(store), *final(store), lab.0@, lab.1@, lab.2@, "L"@, "a"@, "b"@)
            },
        },
{
    let label = match store.get_current_image() {
        Err(e) => {
            return Err(e);
        },
        Ok((_, c)) => {
            if !c.color {
                return Err(ActionError::LabNeedsColor);
            }
            c.label.clone()
        },
    };
    push_channels(store, label, lab, ("L", "a", "b"));
    Ok(())
}

/// Adds the red, green and blue channels of the selected colour image as
/// three gray images labelled `_R`, `_G`, `_B`, and selects the last.
pub fn split_rgb(store: &mut ImageStore) -> (r: Result<(), ActionError>)
    ensures
        match old(store).current_index() {
            None => refused(*old(store), *final(store), r, ActionError::NoImageAt(old(store).selected_image)),
            Some(i) => if !old(store).loaded_images@[i].color {
                refused(*old(store), *final(store), r, ActionError::SplitNeedsColor)
            } else {
                let img = current_view(*old(store));
                r is Ok && channels_added(*old(store), *final(store), img.red, img.green, img.blue, "R"@, "G"@, "B"@)
            },
        },
{
    let (label, planes) = match store.get_current_image() {
        Err(e) => {
            return Err(e);
        },
        Ok((_, c)) => {
            if !c.color {
                return Err(ActionError::SplitNeedsColor);
            }
            (c.label.clone(), (c.img.red().duplicate(), c.img.green().duplicate(), c.img.blue().duplicate()))
        },
    };
    push_channels(store, label, planes, ("R", "G", "B"));
    Ok(())
}

/// Skeleton of the selected gray image: its gray values are thresholded at
/// `otsu_threshold` (255 above, 0 otherwise) and the result is reduced to its
/// morphological skeleton. The thresholded image must have a zero pixel (or
/// no pixel): erosion, which leaves pixels outside the image out, never
/// empties an image without one, and the skeleton is never finished.
pub fn skeletonize(store: &mut ImageStore, otsu_threshold: u8) -> (r: Result<(), ActionError>)
    requires
        old(store).current_index() is Some && !old(store).current().color ==> has_background(
            threshold_view(gray_view(current_view(*old(store))), otsu_threshold),
        ),
    ensures
        match old(store).current_index() {
            None => refused(*old(store), *final(store), r, ActionError::NoImageAt(old(store).selected_image)),
            Some(i) => if old(store).loaded_images@[i].color {
                refused(*old(store), *final(store), r, ActionError::SkeletonNeedsGray)
            } else {
                let b = threshold_view(gray_view(current_view(*old(store))), otsu_threshold);
                updated(*old(store), *final(store), r, replicate_view(skeleton_view(b)), false)
                    && final(store).histogram == old(store).histogram
            },
        },
{
    let (idx, img) = match store.get_current_image() {
        Err(e) => {
            return Err(e);
        },
        Ok((idx, c)) => {
            if c.color {
                return Err(ActionError::SkeletonNeedsGray);
            }
            let gray = c.img.to_gray();
            let binary = threshold_binary(&gray, otsu_threshold);
            (idx, RgbImage::from_gray(skeleton(&binary)))
        },
    };
    store.replace_image(idx, img, false);
    Ok(())
}

/// Median filter of the selected image with a square window of side
/// `kernel_size` and replicated border: per channel for a colour image, on
/// the gray values for a gray one. The side must be positive and odd.
pub fn median_filter(store: &mut ImageStore, kernel_size: i32) -> (r: Result<(), ActionError>)
    ensures
        match old(store).current_index() {
            None => refused(*old(store), *final(store), r, ActionError::NoImageAt(old(store).selected_image)),
            Some(i) => if !(kernel_size > 0 && kernel_size % 2 == 1) {
                refused(*old(store), *final(store), r, ActionError::MedianKernelSize)
            } else {
                let color = old(store).loaded_images@[i].color;
                let img = current_view(*old(store));
                let rad = ((kernel_size - 1) / 2) as nat;
                let out = if color {
                    RgbView {
                        red: median_view(img.red, rad),
                        green: median_view(img.green, rad),
                        blue: median_view(img.blue, rad),
                    }
                } else {
                    replicate_view(median_view(gray_view(img), rad))
                };
                updated(*old(store), *final(store), r, out, color) && histogram_after(*old(store), *final(store), out, color)
            },
        },
{
    let (idx, img, color) = match store.get_current_image() {
        Err(e) => {
            return Err(e);
        },
        Ok((idx, c)) => {
            if !(kernel_size > 0 && kernel_size % 2 == 1) {
                return Err(ActionError::MedianKernelSize);
            }
            let rad = ((kernel_size - 1) / 2) as u64;
            if c.color {
                let red = median_filter_plane(c.img.red(), rad);
                let green = median_filter_plane(c.img.green(), rad);
                let blue = median_filter_plane(c.img.blue(), rad);
                let _ = c.img.width();
                (idx, RgbImage::from_planes(red, green, blue).unwrap(), true)
            } else {
                (idx, RgbImage::from_gray(median_filter_plane(&c.img.to_gray(), rad)), false)
            }
        },
    };
    store_result(store, idx, img, color);
    Ok(())
}

/// Dilation of the selected image by the 3x3 square, `iterations` times (no
/// change for 0, once for a negative count): per channel for a colour image,
/// on the gray values for a gray one.
pub fn dilate(store: &mut ImageStore, iterations: i32) -> (r: Result<(), ActionError>)
    ensures
        match old(store).current_index() {
            None => refused(*old(store), *final(store), r, ActionError::NoImageAt(old(store).selected_image)),
            Some(i) => {
                let color = old(store).loaded_images@[i].color;
                let img = current_view(*old(store));
                let n = effective_iterations(iterations);
                let out = if color {
                    RgbView {
                        red: square_dilate_iter(img.red, n),
                        green: square_dilate_iter(img.green, n),
                        blue: square_dilate_iter(img.blue, n),
                    }
                } else {
                    replicate_view(square_dilate_iter(gray_view(img), n))
                };
                updated(*old(store), *final(store), r, out, color) && histogram_after(*old(store), *final(store), out, color)
            },
        },
{
    let (idx, img, color) = match store.get_current_image() {
        Err(e) => {
            return Err(e);
        },
        Ok((idx, c)) => {
            if c.color {
                let red = dilate_square_times(c.img.red(), iterations);
                let green = dilate_square_times(c.img.green(), iterations);
                let blue = dilate_square_times(c.img.blue(), iterations);
                let _ = c.img.width();
                proof {
                    lemma_dilate_iter_dims(c.img@.red, effective_iterations(iterations));
                    lemma_dilate_iter_dims(c.img@.green, effective_iterations(iterations));
                    lemma_dilate_iter_dims(c.img@.blue, effective_iterations(iterations));
                }
                (idx, RgbImage::from_planes(red, green, blue).unwrap(), true)
            } else {
                (idx, RgbImage::from_gray(dilate_square_times(&c.img.to_gray(), iterations)), false)
            }
        },
    };
    store_result(store, idx, img, color);
    Ok(())
}

/// Dilation keeps the size of a plane.
pub proof fn lemma_dilate_iter_dims(p: PlaneView, n: nat)
    ensures
        square_dilate_iter(p, n).width == p.width,
        square_dilate_iter(p, n).height == p.height,
    decreases n,
{
    if n > 0 {
        lemma_dilate_iter_dims(crate::morphology::square_dilate_view(p), (n - 1) as nat);
    }
}

/// Puts an edge map of the selected image in its place, as a gray image.
pub fn canny_edge(store: &mut ImageStore, edges: Plane) -> (r: Result<(), ActionError>)
    ensures
        match old(store).current_index() {
            None => refused(*old(store), *final(store), r, ActionError::NoImageAt(old(store).selected_image)),
            Some(i) => updated(*old(store), *final(store), r, replicate_view(edges@), false)
                && final(store).histogram == old(store).histogram,
        },
{
    let idx = match store.get_current_image() {
        Err(e) => {
            return Err(e);
        },
        Ok((idx, _)) => idx,
    };
    store.replace_image(idx, RgbImage::from_gray(edges), false);
    Ok(())
}

/// Puts the result of a linear filter of the selected image in its place,
/// keeping its colour flag; the histogram is recomputed for a gray image.
pub fn custom_filter(store: &mut ImageStore, filtered: RgbImage) -> (r: Result<(), ActionError>)
    ensures
        match old(store).current_index() {
            None => refused(*old(store), *final(store), r, ActionError::NoImageAt(old(store).selected_image)),
            Some(i) => {
                let color = old(store).loaded_images@[i].color;
                updated(*old(store), *final(store), r, filtered@, color) && histogram_after(*old(store), *final(store), filtered@, color)
            },
        },
{
    let (idx, color) = match store.get_current_image() {
        Err(e) => {
            return Err(e);
        },
        Ok((idx, c)) => (idx, c.color),
    };
    store_result(store, idx, filtered, color);
    Ok(())
}

/// A 3x3 convolution mask as integer weights over a common divisor, row by row.
pub struct Kernel3 {
    pub weights: [i32; 9],
    pub divisor: i32,
}

/// The predefined masks: 0 box blur, 1 sharpen, 2 Laplacian, 3 Sobel x,
/// 4 Sobel y, 5 Prewitt x, 6 Prewitt y.
pub open spec fn kernel_spec(filter_type: i32) -> Option<(Seq<i32>, i32)> {
    if filter_type == 0 {
        Some((seq![1i32, 1, 1, 1, 1, 1, 1, 1, 1], 9i32))
    } else if filter_type == 1 {
        Some((seq![0i32, -1i32, 0, -1i32, 5, -1i32, 0, -1i32, 0], 1i32))
    } else if filter_type == 2 {
        Some((seq![0i32, 1, 0, 1, -4i32, 1, 0, 1, 0], 1i32))
    } else if filter_type == 3 {
        Some((seq![-1i32, 0, 1, -2i32, 0, 2, -1i32, 0, 1], 1i32))
    } else if filter_type == 4 {
        Some((seq![-1i32, -2i32, -1i32, 0, 0, 0, 1, 2, 1], 1i32))
    } else if filter_type == 5 {
        Some((seq![-1i32, 0, 1, -1i32, 0, 1, -1i32, 0, 1], 1i32))
    } else if filter_type == 6 {
        Some((seq![-1i32, -1i32, -1i32, 0, 0, 0, 1, 1, 1], 1i32))
    } else {
        None
    }
}

/// The mask of a predefined linear filter; an unknown filter type is refused.
pub fn linear_filter_kernel(filter_type: i32) -> (r: Result<Kernel3, ActionError>)
    ensures
        match kernel_spec(filter_type) {
            Some((w, d)) => (r matches Ok(k) && k.weights@ == w && k.divisor == d),
            None => r == Err::<Kernel3, ActionError>(ActionError::UnknownFilterType),
        },
{
    let (weights, divisor): ([i32; 9], i32) = if filter_type == 0 {
        ([1, 1, 1, 1, 1, 1, 1, 1, 1], 9)
    } else if filter_type == 1 {
        ([0, -1, 0, -1, 5, -1, 0, -1, 0], 1)
    } else if filter_type == 2 {
        ([0, 1, 0, 1, -4, 1, 0, 1, 0], 1)
    } else if filter_type == 3 {
        ([-1, 0, 1, -2, 0, 2, -1, 0, 1], 1)
    } else if filter_type == 4 {
        ([-1, -2, -1, 0, 0, 0, 1, 2, 1], 1)
    } else if filter_type == 5 {
        ([-1, 0, 1, -1, 0, 1, -1, 0, 1], 1)
    } else if filter_type == 6 {
        ([-1, -1, -1, 0, 0, 0, 1, 1, 1], 1)
    } else {
        return Err(ActionError::UnknownFilterType);
    };
    let k = Kernel3 { weights, divisor };
    assert(k.weights@ =~= kernel_spec(filter_type).unwrap().0);
    Ok(k)
}

/// Operation of a numeric code: 0 add, 1 subtract, 2 blend, 3 and, 4 or, 5 xor,
/// 6 not (the negative of the selected image).
pub open spec fn op_of_code(code: i32) -> Option<BinaryOp> {
    if code == 0 {
        Some(BinaryOp::Add)
    } else if code == 1 {
        Some(BinaryOp::Subtract)
    } else if code == 2 {
        Some(BinaryOp::Blend)
    } else if code == 3 {
        Some(BinaryOp::And)
    } else if code == 4 {
        Some(BinaryOp::Or)
    } else if code == 5 {
        Some(BinaryOp::Xor)
    } else if code == 6 {
        Some(BinaryOp::Not)
    } else {
        None
    }
}

/// The second operand of a two-image operation: the image at `second` when
/// it has the selected image's size, else the `resized` copy when that has it.
pub open spec fn second_operand(s: ImageStore, second: int, resized: Option<RgbImage>) -> Option<RgbView> {
    let a = current_view(s);
    let b = s.loaded_images@[second].img@;
    if b.same_dims(a) {
        Some(b)
    } else {
        match resized {
            Some(x) => if x@.same_dims(a) {
                Some(x@)
            } else {
                None
            },
            None => None,
        }
    }
}

fn op_from_code(code: i32) -> (r: Option<BinaryOp>)
    ensures
        r == op_of_code(code),
{
    if code == 0 {
        Some(BinaryOp::Add)
    } else if code == 1 {
        Some(BinaryOp::Subtract)
    } else if code == 2 {
        Some(BinaryOp::Blend)
    } else if code == 3 {
        Some(BinaryOp::And)
    } else if code == 4 {
        Some(BinaryOp::Or)
    } else if code == 5 {
        Some(BinaryOp::Xor)
    } else if code == 6 {
        Some(BinaryOp::Not)
    } else {
        None
    }
}

/// Pixel-wise combination of the selected image with the image at
/// `second_img_idx` (or `resized`, that image brought to the selected one's
/// size); the result takes the selected image's place.
pub fn two_argument_op(
    store: &mut ImageStore,
    op_type: i32,
    second_img_idx: i32,
    resized: Option<RgbImage>,
) -> (r: Result<(), ActionError>)
    ensures
        match old(store).current_index() {
            None => refused(*old(store), *final(store), r, ActionError::NoImageAt(old(store).selected_image)),
            Some(i) => if second_img_idx < 0 || second_img_idx >= old(store).loaded_images@.len() {
                refused(*old(store), *final(store), r, ActionError::InvalidSecondIndex)
            } else {
                match second_operand(*old(store), second_img_idx as int, resized) {
                    None => refused(*old(store), *final(store), r, ActionError::SizeMismatch),
                    Some(b) => match op_of_code(op_type) {
                        None => refused(*old(store), *final(store), r, ActionError::UnknownOperation),
                        Some(op) => {
                            let a = current_view(*old(store));
                            let out = RgbView {
                                red: zip_view(a.red, b.red, op_spec(op)),
                                green: zip_view(a.green, b.green, op_spec(op)),
                                blue: zip_view(a.blue, b.blue, op_spec(op)),
                            };
                            updated(*old(store), *final(store), r, out, old(store).loaded_images@[i].color)
                                && final(store).histogram == old(store).histogram
                        },
                    },
                }
            },
        },
{
    let (idx, a) = match store.get_current_image() {
        Err(e) => {
            return Err(e);
        },
        Ok((idx, c)) => (idx, &c.img),
    };
    let color = store.loaded_images[idx].color;
    if second_img_idx < 0 || second_img_idx as usize >= store.loaded_images.len() {
        return Err(ActionError::InvalidSecondIndex);
    }
    let b = &store.loaded_images[second_img_idx as usize].img;
    let aw = a.width();
    let ah = a.height();
    let b_fits = b.width() == aw && b.height() == ah;
    let op_opt = op_from_code(op_type);
    if !b_fits {
        let resized_fits = match &resized {
            Some(x) => x.width() == aw && x.height() == ah,
            None => false,
        };
        if !resized_fits {
            return Err(ActionError::SizeMismatch);
        }
    }
    let op = match op_opt {
        Some(op) => op,
        None => {
            return Err(ActionError::UnknownOperation);
        },
    };
    let out = if b_fits {
        combine_images(a, b, op)
    } else {
        match &resized {
            Some(x) => {
                if !(x.width() == aw && x.height() == ah) {
                    return Err(ActionError::SizeMismatch);
                }
                combine_images(a, x, op)
            },
            None => {
                return Err(ActionError::SizeMismatch);
            },
        }
    };
    store.replace_image(idx, out, color);
    Ok(())
}

/// Three gray images made from `a`, `b`, `c`, labelled with the selected
/// image's label and `_na`, `_nb`, `_nc`, were appended and the last selected.
pub open spec fn channels_added(
    old: ImageStore,
    new: ImageStore,
    a: PlaneView,
    b: PlaneView,
    c: PlaneView,
    na: Seq<char>,
    nb: Seq<char>,
    nc: Seq<char>,
) -> bool {
    let n = old.loaded_images@.len() as int;
    let base = old.loaded_images@[old.selected_image as int].label@;
    &&& new.loaded_images@.len() == n + 3
    &&& forall|j: int| 0 <= j < n ==> new.loaded_images@[j] == old.loaded_images@[j]
    &&& new.loaded_images@[n].img@ == replicate_view(a)
    &&& new.loaded_images@[n + 1].img@ == replicate_view(b)
    &&& new.loaded_images@[n + 2].img@ == replicate_view(c)
    &&& new.loaded_images@[n].label@ == base + "_"@ + na
    &&& new.loaded_images@[n + 1].label@ == base + "_"@ + nb
    &&& new.loaded_images@[n + 2].label@ == base + "_"@ + nc
    &&& !new.loaded_images@[n].color
    &&& !new.loaded_images@[n + 1].color
    &&& !new.loaded_images@[n + 2].color
    &&& new.selected_image == (n + 2) as i32
    &&& new.histogram == old.histogram
}

} // verus!
