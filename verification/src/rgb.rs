use vstd::prelude::*;

use crate::plane::{Plane, PlaneView};

verus! {

/// Order of the three channels in an interleaved pixel buffer.
#[derive(Clone, Copy, PartialEq, Eq, Debug)]
pub enum ChannelOrder {
    Rgb,
    Bgr,
}

/// Abstract contents of a three-channel 8-bit image.
pub struct RgbView {
    pub red: PlaneView,
    pub green: PlaneView,
    pub blue: PlaneView,
}

impl RgbView {
    /// Each channel is a well-formed plane and all three have one size.
    pub open spec fn wf(self) -> bool {
        &&& self.red.wf()
        &&& self.green.wf()
        &&& self.blue.wf()
        &&& self.red.same_dims(self.green)
        &&& self.red.same_dims(self.blue)
    }

    pub open spec fn width(self) -> nat {
        self.red.width
    }

    pub open spec fn height(self) -> nat {
        self.red.height
    }

    /// Two images have the same dimensions.
    pub open spec fn same_dims(self, other: RgbView) -> bool {
        self.red.same_dims(other.red)
    }

    /// Every pixel has equal red, green and blue values.
    pub open spec fn is_gray(self) -> bool {
        self.red == self.green && self.red == self.blue
    }
}

/// Gray value of a pixel: the ITU-R BT.601 luma in 14-bit fixed point,
/// `(4899 R + 9617 G + 1868 B + 2^13) >> 14`.
pub open spec fn luma(r: u8, g: u8, b: u8) -> u8 {
    ((4899 * r + 9617 * g + 1868 * b + 8192) / 16384) as u8
}

/// Gray plane of an image, pixel by pixel through `luma`.
pub open spec fn gray_view(img: RgbView) -> PlaneView {
    PlaneView {
        width: img.red.width,
        height: img.red.height,
        data: Seq::new(
            img.red.data.len(),
            |i: int| luma(img.red.data[i], img.green.data[i], img.blue.data[i]),
        ),
    }
}

/// Image whose three channels are all the plane `p`.
pub open spec fn replicate_view(p: PlaneView) -> RgbView {
    RgbView { red: p, green: p, blue: p }
}

/// Offset of the channel within an interleaved pixel: red, green, blue in
/// `Rgb` order; blue, green, red in `Bgr` order.
pub open spec fn channel_offset(order: ChannelOrder, channel: int) -> int {
    match order {
        ChannelOrder::Rgb => channel,
        ChannelOrder::Bgr => 2 - channel,
    }
}

/// Interleaved bytes of an image: pixel `i`, channel `c` (0 red, 1 green,
/// 2 blue) at `3 * i + channel_offset(order, c)`.
pub open spec fn interleaved_view(img: RgbView, order: ChannelOrder) -> Seq<u8> {
    Seq::new(
        3 * img.red.data.len(),
        |k: int|
            {
                let i = k / 3;
                let c = channel_offset(order, k % 3);
                if c == 0 {
                    img.red.data[i]
                } else if c == 1 {
                    img.green.data[i]
                } else {
                    img.blue.data[i]
                }
            },
    )
}

fn luma_of(r: u8, g: u8, b: u8) -> (y: u8)
    ensures
        y == luma(r, g, b),
{
    let s: u32 = 4899 * (r as u32) + 9617 * (g as u32) + 1868 * (b as u32) + 8192;
    let y = s / 16384;
    assert(y <= 255);
    y as u8
}

/// A three-channel 8-bit image.
pub struct RgbImage {
    red: Plane,
    green: Plane,
    blue: Plane,
}

impl View for RgbImage {
    type V = RgbView;

    closed spec fn view(&self) -> RgbView {
        RgbView { red: self.red@, green: self.green@, blue: self.blue@ }
    }
}

impl RgbImage {
    #[verifier::type_invariant]
    spec fn inv(self) -> bool {
        RgbView { red: self.red@, green: self.green@, blue: self.blue@ }.wf()
    }

    /// Puts three planes together; `None` when their sizes differ.
    pub fn from_planes(red: Plane, green: Plane, blue: Plane) -> (r: Option<RgbImage>)
        ensures
            r is Some <==> red@.same_dims(green@) && red@.same_dims(blue@),
            r matches Some(img) ==> img@ == (RgbView { red: red@, green: green@, blue: blue@ }),
    {
        if red.width() == green.width() && red.height() == green.height() && red.width()
            == blue.width() && red.height() == blue.height() {
            Some(RgbImage { red, green, blue })
        } else {
            None
        }
    }

    /// The image whose three channels all equal the gray plane `p`.
    pub fn from_gray(p: Plane) -> (r: RgbImage)
        ensures
            r@ == replicate_view(p@),
    {
        let _ = p.width();
        let g = p.duplicate();
        let b = p.duplicate();
        RgbImage { red: p, green: g, blue: b }
    }

    /// Reads an interleaved buffer of `width * height` pixels of three bytes
    /// each; `None` when `bytes` does not have that length.
    pub fn from_interleaved(width: usize, height: usize, bytes: &[u8], order: ChannelOrder) -> (r:
        Option<RgbImage>)
        ensures
            r is Some <==> bytes@.len() == 3 * (width as nat * height as nat),
            r matches Some(img) ==> {
                &&& img@.width() == width
                &&& img@.height() == height
                &&& img@.wf()
                &&& interleaved_view(img@, order) == bytes@
            },
    {
        let n_opt = width.checked_mul(height);
        let n = match n_opt {
            Some(n) => n,
            None => {
                let len = bytes.len();
                assert(len < 3 * (width as nat * height as nat)) by (nonlinear_arith)
                    requires
                        len <= usize::MAX,
                        width as nat * height as nat > usize::MAX,
                ;
                return None;
            },
        };
        if n > bytes.len() / 3 || bytes.len() % 3 != 0 || bytes.len() / 3 != n {
            return None;
        }
        let (ro, go, bo): (usize, usize, usize) = match order {
            ChannelOrder::Rgb => (0, 1, 2),
            ChannelOrder::Bgr => (2, 1, 0),
        };
        assert(bytes@.len() <= usize::MAX);
        let mut rv: Vec<u8> = Vec::with_capacity(n);
        let mut gv: Vec<u8> = Vec::with_capacity(n);
        let mut bv: Vec<u8> = Vec::with_capacity(n);
        let mut i: usize = 0;
        while i < n
            invariant
                i <= n,
                bytes@.len() == 3 * n,
                3 * n <= usize::MAX,
                ro <= 2 && go <= 2 && bo <= 2,
                ro == channel_offset(order, 0),
                go == channel_offset(order, 1),
                bo == channel_offset(order, 2),
                rv@.len() == i,
                gv@.len() == i,
                bv@.len() == i,
                forall|j: int| 0 <= j < i ==> #[trigger] rv@[j] == bytes@[3 * j + ro],
                forall|j: int| 0 <= j < i ==> #[trigger] gv@[j] == bytes@[3 * j + go],
                forall|j: int| 0 <= j < i ==> #[trigger] bv@[j] == bytes@[3 * j + bo],
            decreases n - i,
        {
            let base = 3 * i;
            rv.push(bytes[base + ro]);
            gv.push(bytes[base + go]);
            bv.push(bytes[base + bo]);
            i = i + 1;
        }
        let img = RgbImage {
            red: Plane::new(width, height, rv).unwrap(),
            green: Plane::new(width, height, gv).unwrap(),
            blue: Plane::new(width, height, bv).unwrap(),
        };
        proof {
            let iv = interleaved_view(img@, order);
            assert forall|k: int| 0 <= k < bytes@.len() implies iv[k] == bytes@[k] by {
                let j = k / 3;
                let c = k % 3;
                assert(k == 3 * j + c);
            }
            assert(iv =~= bytes@);
        }
        Some(img)
    }

    /// Writes the image as an interleaved buffer in the given channel order.
    pub fn to_interleaved(&self, order: ChannelOrder) -> (bytes: Vec<u8>)
        ensures
            bytes@ == interleaved_view(self@, order),
    {
        proof {
            use_type_invariant(self);
        }
        let n = self.red.len();
        let rd = self.red.data();
        let gd = self.green.data();
        let bd = self.blue.data();
        assert(3 * n <= 3 * usize::MAX);
        let mut out: Vec<u8> = Vec::new();
        let mut i: usize = 0;
        while i < n
            invariant
                i <= n,
                n == rd@.len(),
                n == gd@.len(),
                n == bd@.len(),
                rd@ == self@.red.data,
                gd@ == self@.green.data,
                bd@ == self@.blue.data,
                out@.len() == 3 * i,
                forall|k: int| 0 <= k < 3 * i ==> #[trigger] out@[k] == interleaved_view(self@, order)[k],
            decreases n - i,
        {
            let (a, b, c) = match order {
                ChannelOrder::Rgb => (rd[i], gd[i], bd[i]),
                ChannelOrder::Bgr => (bd[i], gd[i], rd[i]),
            };
            proof {
                let iv = interleaved_view(self@, order);
                assert((3 * i) / 3 == i && (3 * i) % 3 == 0);
                assert((3 * i + 1) / 3 == i && (3 * i + 1) % 3 == 1);
                assert((3 * i + 2) / 3 == i && (3 * i + 2) % 3 == 2);
                assert(iv[3 * i] == a);
                assert(iv[3 * i + 1] == b);
                assert(iv[3 * i + 2] == c);
            }
            out.push(a);
            out.push(b);
            out.push(c);
            i = i + 1;
        }
        assert(out@ =~= interleaved_view(self@, order));
        out
    }

    pub fn width(&self) -> (w: usize)
        ensures
            w == self@.width(),
            self@.wf(),
    {
        proof {
            use_type_invariant(self);
        }
        self.red.width()
    }

    pub fn height(&self) -> (h: usize)
        ensures
            h == self@.height(),
            self@.wf(),
    {
        proof {
            use_type_invariant(self);
        }
        self.red.height()
    }

    pub fn red(&self) -> (p: &Plane)
        ensures
            p@ == self@.red,
            self@.wf(),
    {
        proof {
            use_type_invariant(self);
        }
        &self.red
    }

    pub fn green(&self) -> (p: &Plane)
        ensures
            p@ == self@.green,
            self@.wf(),
    {
        proof {
            use_type_invariant(self);
        }
        &self.green
    }

    pub fn blue(&self) -> (p: &Plane)
        ensures
            p@ == self@.blue,
            self@.wf(),
    {
        proof {
            use_type_invariant(self);
        }
        &self.blue
    }

    /// A copy of the image.
    pub fn duplicate(&self) -> (r: RgbImage)
        ensures
            r@ == self@,
    {
        proof {
            use_type_invariant(self);
        }
        RgbImage { red: self.red.duplicate(), green: self.green.duplicate(), blue: self.blue.duplicate() }
    }

    /// Gray plane of the image (`luma` of each pixel).
    pub fn to_gray(&self) -> (p: Plane)
        ensures
            p@ == gray_view(self@),
    {
        proof {
            use_type_invariant(self);
        }
        let n = self.red.len();
        let rd = self.red.data();
        let gd = self.green.data();
        let bd = self.blue.data();
        let mut out: Vec<u8> = Vec::with_capacity(n);
        let mut i: usize = 0;
        while i < n
            invariant
                i <= n,
                n == rd@.len(),
                n == gd@.len(),
                n == bd@.len(),
                rd@ == self@.red.data,
                gd@ == self@.green.data,
                bd@ == self@.blue.data,
                out@.len() == i,
                forall|j: int| 0 <= j < i ==> #[trigger] out@[j] == luma(rd@[j], gd@[j], bd@[j]),
            decreases n - i,
        {
            out.push(luma_of(rd[i], gd[i], bd[i]));
            i = i + 1;
        }
        let p = Plane::new(self.red.width(), self.red.height(), out).unwrap();
        assert(p@.data =~= gray_view(self@).data);
        p
    }

    /// Applies `f` to every byte of every channel.
    pub fn map_channels<F: Fn(u8) -> u8>(&self, f: F) -> (r: RgbImage)
        requires
            forall|v: u8| f.requires((v,)),
        ensures
            r@.same_dims(self@),
            r@.wf(),
            self@.wf(),
            r@.red.data.len() == self@.red.data.len(),
            r@.green.data.len() == self@.green.data.len(),
            r@.blue.data.len() == self@.blue.data.len(),
            forall|i: int| 0 <= i < self@.red.data.len() ==> f.ensures((self@.red.data[i],), #[trigger] r@.red.data[i]),
            forall|i: int| 0 <= i < self@.green.data.len() ==> f.ensures((self@.green.data[i],), #[trigger] r@.green.data[i]),
            forall|i: int| 0 <= i < self@.blue.data.len() ==> f.ensures((self@.blue.data[i],), #[trigger] r@.blue.data[i]),
    {
        proof {
            use_type_invariant(self);
        }
        let red = self.red.map(&f);
        let green = self.green.map(&f);
        let blue = self.blue.map(&f);
        let r = RgbImage { red, green, blue };
        proof {
            use_type_invariant(self);
        }
        r
    }

    /// Splits the image into its red, green and blue planes.
    pub fn into_planes(self) -> (r: (Plane, Plane, Plane))
        ensures
            r.0@ == self@.red,
            r.1@ == self@.green,
            r.2@ == self@.blue,
            self@.wf(),
    {
        proof {
            use_type_invariant(&self);
        }
        (self.red, self.green, self.blue)
    }
}

} // verus!
