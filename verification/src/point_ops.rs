use vstd::prelude::*;

use crate::plane::{Plane, PlaneView, zip_view};
use crate::rgb::{RgbImage, RgbView};

verus! {

/// Binary threshold: 255 above `t`, 0 otherwise.
pub open spec fn binary(v: u8, t: u8) -> u8 {
    if v > t {
        255
    } else {
        0
    }
}

/// Photographic negative of a byte.
pub open spec fn invert(v: u8) -> u8 {
    (255 - v) as u8
}

/// Sum clamped to 255.
pub open spec fn saturating_add(a: u8, b: u8) -> u8 {
    if a + b > 255 {
        255
    } else {
        (a + b) as u8
    }
}

/// Difference clamped to 0.
pub open spec fn saturating_sub(a: u8, b: u8) -> u8 {
    if a > b {
        (a - b) as u8
    } else {
        0
    }
}

/// Mean of two bytes rounded to the nearest integer, halves to the even one.
pub open spec fn mean_round_even(a: u8, b: u8) -> u8 {
    let s = a + b;
    let q = s / 2;
    if s % 2 == 0 || q % 2 == 0 {
        q as u8
    } else {
        (q + 1) as u8
    }
}

pub open spec fn bit_and(a: u8, b: u8) -> u8 {
    a & b
}

pub open spec fn bit_or(a: u8, b: u8) -> u8 {
    a | b
}

pub open spec fn bit_xor(a: u8, b: u8) -> u8 {
    a ^ b
}

/// Plane thresholded at `t`: 255 where the pixel exceeds `t`, 0 elsewhere.
pub open spec fn threshold_view(p: PlaneView, t: u8) -> PlaneView {
    PlaneView {
        width: p.width,
        height: p.height,
        data: Seq::new(p.data.len(), |i: int| binary(p.data[i], t)),
    }
}

/// Plane with every pixel `v` replaced by `255 - v`.
pub open spec fn invert_view(p: PlaneView) -> PlaneView {
    PlaneView {
        width: p.width,
        height: p.height,
        data: Seq::new(p.data.len(), |i: int| invert(p.data[i])),
    }
}

/// Image with every byte of every channel `v` replaced by `255 - v`.
pub open spec fn invert_image_view(img: RgbView) -> RgbView {
    RgbView { red: invert_view(img.red), green: invert_view(img.green), blue: invert_view(img.blue) }
}

/// Plane thresholded at `t`: 255 where the pixel exceeds `t`, 0 elsewhere.
pub fn threshold_binary(p: &Plane, t: u8) -> (r: Plane)
    ensures
        r@ == threshold_view(p@, t),
{
    let r = p.map(|v: u8| -> (o: u8) ensures o == binary(v, t) {
        if v > t {
            255
        } else {
            0
        }
    });
    assert(r@.data =~= threshold_view(p@, t).data);
    r
}

/// Plane whose every pixel `v` is replaced by `lut[v]`.
pub open spec fn lookup_view(p: PlaneView, lut: Seq<u8>) -> PlaneView {
    PlaneView {
        width: p.width,
        height: p.height,
        data: Seq::new(p.data.len(), |i: int| lut[p.data[i] as int]),
    }
}

/// Image whose every byte `v` of every channel is replaced by `lut[v]`.
pub open spec fn lookup_image_view(img: RgbView, lut: Seq<u8>) -> RgbView {
    RgbView {
        red: lookup_view(img.red, lut),
        green: lookup_view(img.green, lut),
        blue: lookup_view(img.blue, lut),
    }
}

/// Plane with every pixel replaced by its entry in the lookup table.
pub fn apply_lut(p: &Plane, lut: &[u8; 256]) -> (r: Plane)
    ensures
        r@ == lookup_view(p@, lut@),
{
    let r = p.map(|v: u8| -> (o: u8) ensures o == lut@[v as int] { lut[v as usize] });
    assert(r@.data =~= lookup_view(p@, lut@).data);
    r
}

/// Negative of an image: every byte of every channel `v` becomes `255 - v`.
pub fn invert_image(img: &RgbImage) -> (r: RgbImage)
    ensures
        r@ == invert_image_view(img@),
{
    let r = img.map_channels(|v: u8| -> (o: u8) ensures o == invert(v) { 255 - v });
    assert(r@.red.data =~= invert_view(img@.red).data);
    assert(r@.green.data =~= invert_view(img@.green).data);
    assert(r@.blue.data =~= invert_view(img@.blue).data);
    r
}

/// Image with the lookup table applied to every byte of every channel.
pub fn apply_lut_image(img: &RgbImage, lut: &[u8; 256]) -> (r: RgbImage)
    ensures
        r@ == lookup_image_view(img@, lut@),
{
    let r = img.map_channels(|v: u8| -> (o: u8) ensures o == lut@[v as int] { lut[v as usize] });
    assert(r@.red.data =~= lookup_view(img@.red, lut@).data);
    assert(r@.green.data =~= lookup_view(img@.green, lut@).data);
    assert(r@.blue.data =~= lookup_view(img@.blue, lut@).data);
    r
}

/// Pixel-wise combination of two planes of one size.
pub fn combine_planes(a: &Plane, b: &Plane, op: BinaryOp) -> (r: Plane)
    requires
        a@.same_dims(b@),
    ensures
        r@ == zip_view(a@, b@, op_spec(op)),
{
    let r = a.zip(b, |x: u8, y: u8| -> (o: u8) ensures o == op_spec(op)(x, y) { apply_op(op, x, y) });
    assert(r@.data =~= zip_view(a@, b@, op_spec(op)).data);
    r
}

/// Pixel-wise operations on two images.
#[derive(Clone, Copy, PartialEq, Eq, Debug)]
pub enum BinaryOp {
    Add,
    Subtract,
    Blend,
    And,
    Or,
    Xor,
    /// Negative of the first image; the second is not read.
    Not,
}

/// The byte operation that each `BinaryOp` applies.
pub open spec fn op_spec(op: BinaryOp) -> spec_fn(u8, u8) -> u8 {
    match op {
        BinaryOp::Add => |a: u8, b: u8| saturating_add(a, b),
        BinaryOp::Subtract => |a: u8, b: u8| saturating_sub(a, b),
        BinaryOp::Blend => |a: u8, b: u8| mean_round_even(a, b),
        BinaryOp::And => |a: u8, b: u8| bit_and(a, b),
        BinaryOp::Or => |a: u8, b: u8| bit_or(a, b),
        BinaryOp::Xor => |a: u8, b: u8| bit_xor(a, b),
        BinaryOp::Not => |a: u8, b: u8| invert(a),
    }
}

fn apply_op(op: BinaryOp, a: u8, b: u8) -> (r: u8)
    ensures
        r == op_spec(op)(a, b),
{
    match op {
        BinaryOp::Add => {
            if a as u16 + b as u16 > 255 {
                255
            } else {
                a + b
            }
        },
        BinaryOp::Subtract => {
            if a > b {
                a - b
            } else {
                0
            }
        },
        BinaryOp::Blend => {
            let s: u16 = a as u16 + b as u16;
            let q: u16 = s / 2;
            if s % 2 == 0 || q % 2 == 0 {
                q as u8
            } else {
                (q + 1) as u8
            }
        },
        BinaryOp::And => a & b,
        BinaryOp::Or => a | b,
        BinaryOp::Xor => a ^ b,
        BinaryOp::Not => 255 - a,
    }
}

/// Combination of two images of one size, channel by channel.
pub fn combine_images(a: &RgbImage, b: &RgbImage, op: BinaryOp) -> (r: RgbImage)
    requires
        a@.same_dims(b@),
    ensures
        r@ == (RgbView {
            red: zip_view(a@.red, b@.red, op_spec(op)),
            green: zip_view(a@.green, b@.green, op_spec(op)),
            blue: zip_view(a@.blue, b@.blue, op_spec(op)),
        }),
{
    let _ = a.width();
    let _ = b.width();
    let red = combine_planes(a.red(), b.red(), op);
    let green = combine_planes(a.green(), b.green(), op);
    let blue = combine_planes(a.blue(), b.blue(), op);
    RgbImage::from_planes(red, green, blue).unwrap()
}

} // verus!
