use vstd::prelude::*;

verus! {

/// Abstract contents of a single-channel 8-bit image. `data` holds the rows
/// from top to bottom, each row from left to right.
pub struct PlaneView {
    pub width: nat,
    pub height: nat,
    pub data: Seq<u8>,
}

impl PlaneView {
    /// The data holds exactly one byte per pixel.
    pub open spec fn wf(self) -> bool {
        self.data.len() == self.width * self.height
    }

    /// Two planes have the same dimensions.
    pub open spec fn same_dims(self, other: PlaneView) -> bool {
        self.width == other.width && self.height == other.height
    }
}

/// Plane whose pixels are `f` applied pairwise to the pixels of `a` and `b`.
pub open spec fn zip_view(a: PlaneView, b: PlaneView, f: spec_fn(u8, u8) -> u8) -> PlaneView {
    PlaneView {
        width: a.width,
        height: a.height,
        data: Seq::new(a.data.len(), |i: int| f(a.data[i], b.data[i])),
    }
}

/// Number of non-zero bytes in `s`.
pub open spec fn count_nonzero(s: Seq<u8>) -> nat
    decreases s.len(),
{
    if s.len() == 0 {
        0
    } else {
        count_nonzero(s.drop_last()) + if s.last() != 0 {
            1nat
        } else {
            0nat
        }
    }
}

/// A single-channel 8-bit image of `width` x `height` pixels.
pub struct Plane {
    width: usize,
    height: usize,
    data: Vec<u8>,
}

impl View for Plane {
    type V = PlaneView;

    closed spec fn view(&self) -> PlaneView {
        PlaneView { width: self.width as nat, height: self.height as nat, data: self.data@ }
    }
}

impl Plane {
    #[verifier::type_invariant]
    spec fn inv(self) -> bool {
        self.data@.len() == self.width as nat * self.height as nat
    }

    /// Builds a plane from its rows; `None` when `data` does not hold exactly
    /// `width * height` bytes.
    pub fn new(width: usize, height: usize, data: Vec<u8>) -> (r: Option<Plane>)
        ensures
            r is Some <==> data@.len() == width as nat * height as nat,
            r matches Some(p) ==> p@ == (PlaneView {
                width: width as nat,
                height: height as nat,
                data: data@,
            }),
    {
        match width.checked_mul(height) {
            Some(n) => {
                if n == data.len() {
                    Some(Plane { width, height, data })
                } else {
                    None
                }
            },
            None => {
                let len = data.len();
                assert(len < width as nat * height as nat);
                None
            },
        }
    }

    /// A plane of the given size whose pixels are all `value`.
    pub fn filled(width: usize, height: usize, value: u8) -> (r: Plane)
        requires
            width * height <= usize::MAX,
        ensures
            r@.width == width,
            r@.height == height,
            r@.data == Seq::new(width as nat * height as nat, |i: int| value),
    {
        let n = width * height;
        let mut data: Vec<u8> = Vec::with_capacity(n);
        let mut i: usize = 0;
        while i < n
            invariant
                i <= n,
                n == width * height,
                data@.len() == i,
                forall|j: int| 0 <= j < i ==> data@[j] == value,
            decreases n - i,
        {
            data.push(value);
            i = i + 1;
        }
        assert(data@ =~= Seq::new(width as nat * height as nat, |i: int| value));
        Plane { width, height, data }
    }

    /// Width in pixels; the plane holds one byte per pixel.
    pub fn width(&self) -> (w: usize)
        ensures
            w == self@.width,
            self@.wf(),
    {
        proof {
            use_type_invariant(self);
        }
        self.width
    }

    /// Height in pixels; the plane holds one byte per pixel.
    pub fn height(&self) -> (h: usize)
        ensures
            h == self@.height,
            self@.wf(),
    {
        proof {
            use_type_invariant(self);
        }
        self.height
    }

    /// The pixel bytes, row after row.
    pub fn data(&self) -> (d: &Vec<u8>)
        ensures
            d@ == self@.data,
            self@.wf(),
    {
        proof {
            use_type_invariant(self);
        }
        &self.data
    }

    /// Number of pixels.
    pub fn len(&self) -> (n: usize)
        ensures
            n == self@.data.len(),
            n == self@.width * self@.height,
    {
        proof {
            use_type_invariant(self);
        }
        self.data.len()
    }

    /// Takes the plane apart into its size and pixel bytes.
    pub fn into_parts(self) -> (r: (usize, usize, Vec<u8>))
        ensures
            r.0 == self@.width,
            r.1 == self@.height,
            r.2@ == self@.data,
            self@.wf(),
    {
        proof {
            use_type_invariant(&self);
        }
        (self.width, self.height, self.data)
    }

    /// A copy of the plane.
    pub fn duplicate(&self) -> (r: Plane)
        ensures
            r@ == self@,
    {
        proof {
            use_type_invariant(self);
        }
        Plane { width: self.width, height: self.height, data: self.data.clone() }
    }

    /// Applies `f` to every pixel.
    pub fn map<F: Fn(u8) -> u8>(&self, f: F) -> (r: Plane)
        requires
            forall|v: u8| f.requires((v,)),
        ensures
            r@.width == self@.width,
            r@.height == self@.height,
            r@.data.len() == self@.data.len(),
            forall|i: int| 0 <= i < self@.data.len() ==> f.ensures((self@.data[i],), #[trigger] r@.data[i]),
    {
        proof {
            use_type_invariant(self);
        }
        let n = self.data.len();
        let mut out: Vec<u8> = Vec::with_capacity(n);
        let mut i: usize = 0;
        while i < n
            invariant
                i <= n,
                n == self.data@.len(),
                out@.len() == i,
                forall|v: u8| f.requires((v,)),
                forall|j: int| 0 <= j < i ==> f.ensures((self.data@[j],), #[trigger] out@[j]),
            decreases n - i,
        {
            let v = f(self.data[i]);
            out.push(v);
            i = i + 1;
        }
        Plane { width: self.width, height: self.height, data: out }
    }

    /// Applies `f` to every pair of pixels at the same place in `self` and `other`.
    pub fn zip<F: Fn(u8, u8) -> u8>(&self, other: &Plane, f: F) -> (r: Plane)
        requires
            self@.same_dims(other@),
            forall|a: u8, b: u8| f.requires((a, b)),
        ensures
            r@.width == self@.width,
            r@.height == self@.height,
            r@.data.len() == self@.data.len(),
            self@.data.len() == other@.data.len(),
            forall|i: int|
                0 <= i < self@.data.len() ==> f.ensures(
                    (self@.data[i], other@.data[i]),
                    #[trigger] r@.data[i],
                ),
    {
        proof {
            use_type_invariant(self);
            use_type_invariant(other);
        }
        let n = self.data.len();
        let mut out: Vec<u8> = Vec::with_capacity(n);
        let mut i: usize = 0;
        while i < n
            invariant
                i <= n,
                n == self.data@.len(),
                n == other.data@.len(),
                out@.len() == i,
                forall|a: u8, b: u8| f.requires((a, b)),
                forall|j: int|
                    0 <= j < i ==> f.ensures((self.data@[j], other.data@[j]), #[trigger] out@[j]),
            decreases n - i,
        {
            let v = f(self.data[i], other.data[i]);
            out.push(v);
            i = i + 1;
        }
        Plane { width: self.width, height: self.height, data: out }
    }

    /// Number of pixels that are not zero.
    pub fn count_nonzero(&self) -> (c: usize)
        ensures
            c == count_nonzero(self@.data),
    {
        let n = self.data.len();
        let mut c: usize = 0;
        let mut i: usize = 0;
        while i < n
            invariant
                i <= n,
                n == self.data@.len(),
                c == count_nonzero(self.data@.take(i as int)),
                c <= i,
            decreases n - i,
        {
            assert(self.data@.take(i + 1).drop_last() =~= self.data@.take(i as int));
            if self.data[i] != 0 {
                c = c + 1;
            }
            i = i + 1;
        }
        assert(self.data@.take(n as int) =~= self.data@);
        c
    }
}

} // verus!
