use vstd::prelude::*;

verus! {

use vstd::arithmetic::div_mod::{lemma_div_multiples_vanish_fancy, lemma_mod_multiples_vanish,
    lemma_multiply_divide_lt, lemma_small_mod};
use vstd::arithmetic::mul::lemma_mul_inequality;

use crate::layout::{lemma_bytes_codec, packed_bytes, scalars_from_bytes, scalars_to_bytes,
    word_bytes, word_of_bytes, WDevToHost, WHostToDev, WScalars, decoded_scalars};
use crate::tester::{WTestable, WType};

/// One device pixel: red, green, blue and an inert fourth channel that
/// pads the pixel to a full 32-bit word.
#[derive(Clone, Copy, Debug, PartialEq, Eq, Structural)]
pub struct Pix {
    pub r: u8,
    pub g: u8,
    pub b: u8,
    pub _a: u8,
}

impl Default for Pix {
    /// The black, fully-zero pixel.
    fn default() -> (p: Pix)
        ensures
            p == (Pix { r: 0, g: 0, b: 0, _a: 0 }),
    {
        Pix { r: 0, g: 0, b: 0, _a: 0 }
    }
}

/// The saturating sum of two channel values.
pub open spec fn sat_add_u8(a: u8, b: u8) -> u8 {
    if a + b > 255 {
        255u8
    } else {
        (a + b) as u8
    }
}

impl Pix {
    pub fn new(r: u8, g: u8, b: u8, a: u8) -> (p: Self)
        ensures
            p == (Pix { r, g, b, _a: a }),
    {
        Self { r, g, b, _a: a }
    }

    /// Channel-wise saturating addition.
    pub fn add(&self, other: &Self) -> (p: Self)
        ensures
            p.r == sat_add_u8(self.r, other.r),
            p.g == sat_add_u8(self.g, other.g),
            p.b == sat_add_u8(self.b, other.b),
            p._a == sat_add_u8(self._a, other._a),
    {
        Self {
            r: self.r.saturating_add(other.r),
            g: self.g.saturating_add(other.g),
            b: self.b.saturating_add(other.b),
            _a: self._a.saturating_add(other._a),
        }
    }
}

impl WScalars for Pix {
    /// A pixel occupies one word: `r` in the low byte, then `g`, `b`, `_a`.
    open spec fn as_word(self) -> u32 {
        word_of_bytes(self.r, self.g, self.b, self._a)
    }

    open spec fn of_word(w: u32) -> Pix {
        Pix {
            r: word_bytes(w)[0],
            g: word_bytes(w)[1],
            b: word_bytes(w)[2],
            _a: word_bytes(w)[3],
        }
    }

    proof fn lemma_codec(self) {
        lemma_bytes_codec(self.r, self.g, self.b, self._a);
    }

    fn to_word(self) -> u32 {
        self.r as u32 + (self.g as u32) * 256 + (self.b as u32) * 65536 + (self._a as u32)
            * 16777216
    }

    fn from_word(w: u32) -> (p: Pix) {
        let p = Pix {
            r: (w % 256) as u8,
            g: ((w / 256) % 256) as u8,
            b: ((w / 65536) % 256) as u8,
            _a: (w / 16777216) as u8,
        };
        proof {
            assert(w as int / 16777216 < 256) by {
                lemma_multiply_divide_lt(w as int, 16777216, 256);
            }
            lemma_small_mod((w as int / 16777216) as nat, 256);
        }
        p
    }

    fn eq_scalar(&self, other: &Self) -> bool {
        *self == *other
    }
}

impl WTestable for Pix {
    fn wgsl_type() -> WType {
        WType::Primitive("u32")
    }

    fn weq(&self, other: &Self) -> bool {
        *self == *other
    }
}

/// A pair of pixel coordinates or extents.
#[derive(Clone, Copy, Debug, PartialEq, Eq, Structural)]
pub struct Point {
    pub x: usize,
    pub y: usize,
}

impl Point {
    pub fn new(x: usize, y: usize) -> (p: Self)
        ensures
            p == (Point { x, y }),
    {
        Self { x, y }
    }
}

/// A position in an image.
pub type Pos = Point;

/// The extent of an image.
pub type Size = Point;

/// A row-major raster of pixels.
#[derive(Clone, Debug)]
pub struct Image {
    pub data: Vec<Pix>,
    pub size: Size,
}

impl Image {
    /// The raster's invariant: one pixel per cell of the extent.
    pub open spec fn wf(self) -> bool {
        self.data@.len() == self.size.x * self.size.y
    }

    /// The pixel at `(x, y)`.
    pub open spec fn pix_at(self, x: int, y: int) -> Pix {
        self.data@[y * self.size.x + x]
    }

    /// An all-black image of the given extent.
    pub fn new(size: Size) -> (im: Image)
        requires
            size.x * size.y <= usize::MAX,
        ensures
            im.size == size,
            im.wf(),
            forall|k: int|
                0 <= k < im.data@.len() ==> #[trigger] im.data@[k] == (Pix {
                    r: 0,
                    g: 0,
                    b: 0,
                    _a: 0,
                }),
    {
        let n = size.x * size.y;
        let mut data: Vec<Pix> = Vec::new();
        let mut k: usize = 0;
        while k < n
            invariant
                k <= n,
                data@.len() == k,
                forall|q: int|
                    0 <= q < k ==> #[trigger] data@[q] == (Pix { r: 0, g: 0, b: 0, _a: 0 }),
            decreases n - k,
        {
            data.push(Pix::new(0, 0, 0, 0));
            k += 1;
        }
        Image { data, size }
    }

    /// Read the pixel at `(x, y)`.
    pub fn get(&self, x: usize, y: usize) -> (p: &Pix)
        requires
            self.wf(),
            x < self.size.x,
            y < self.size.y,
        ensures
            *p == self.pix_at(x as int, y as int),
    {
        let _n = self.data.len();
        proof {
            lemma_row_major_in_bounds(x as int, y as int, self.size.x as int, self.size.y as int);
        }
        &self.data[y * self.size.x + x]
    }

    /// Borrow the pixel at `(x, y)` for writing.
    pub fn get_mut(&mut self, x: usize, y: usize) -> (p: &mut Pix)
        requires
            old(self).wf(),
            x < old(self).size.x,
            y < old(self).size.y,
        ensures
            *p == old(self).pix_at(x as int, y as int),
            final(self).size == old(self).size,
            final(self).data@ == old(self).data@.update(
                y * old(self).size.x + x,
                *final(p),
            ),
    {
        let _n = self.data.len();
        proof {
            lemma_row_major_in_bounds(x as int, y as int, self.size.x as int, self.size.y as int);
        }
        let idx = y * self.size.x + x;
        &mut self.data[idx]
    }
}

/// The three-channel byte image of a raster: red, green and blue of each
/// pixel in order, the inert fourth channel dropped.
pub open spec fn rgb_bytes_spec(data: Seq<Pix>) -> Seq<u8> {
    Seq::new(
        3 * data.len(),
        |p: int|
            if p % 3 == 0 {
                data[p / 3].r
            } else if p % 3 == 1 {
                data[p / 3].g
            } else {
                data[p / 3].b
            },
    )
}

impl Image {
    /// Encode the raster as packed RGB triples, for handing to an image
    /// encoder.
    pub fn rgb_bytes(&self) -> (b: Vec<u8>)
        ensures
            b@ == rgb_bytes_spec(self.data@),
    {
        let mut b: Vec<u8> = Vec::new();
        let mut k: usize = 0;
        let n = self.data.len();
        while k < n
            invariant
                k <= n,
                n == self.data@.len(),
                b@.len() == 3 * k,
                forall|p: int| 0 <= p < 3 * k ==> b@[p] == rgb_bytes_spec(self.data@)[p],
            decreases n - k,
        {
            let pix = self.data[k];
            b.push(pix.r);
            b.push(pix.g);
            b.push(pix.b);
            proof {
                assert forall|p: int| 3 * k <= p < 3 * k + 3 implies b@[p] == rgb_bytes_spec(
                    self.data@,
                )[p] by {
                    lemma_div_multiples_vanish_fancy(k as int, p - 3 * k, 3);
                    lemma_mod_multiples_vanish(k as int, p - 3 * k, 3);
                    lemma_small_mod((p - 3 * k) as nat, 3);
                    assert(p == 3 * (k as int) + (p - 3 * k));
                }
            }
            k += 1;
        }
        proof {
            assert(b@ =~= rgb_bytes_spec(self.data@));
        }
        b
    }
}

/// A row-major cell index lies inside the raster.
proof fn lemma_row_major_in_bounds(x: int, y: int, w: int, h: int)
    requires
        0 <= x < w,
        0 <= y < h,
    ensures
        0 <= y * w + x < w * h,
{
    lemma_mul_inequality(y + 1, h, w);
    assert((y + 1) * w == y * w + w && h * w == w * h) by (nonlinear_arith);
    assert(y * w >= 0) by (nonlinear_arith)
        requires
            y >= 0,
            w >= 0,
    ;
}

impl WHostToDev for Image {
    open spec fn encodable(&self) -> bool {
        true
    }

    /// The raster's device image: each pixel packed as one word, in order.
    open spec fn spec_bytes(&self) -> Seq<u8> {
        packed_bytes(self.data@)
    }

    fn bytes(&self) -> (b: Vec<u8>) {
        scalars_to_bytes(&self.data)
    }
}

impl WDevToHost for Image {
    /// A fresh raster reads back as a single row of packed pixels.
    open spec fn decodable(bytes: Seq<u8>) -> bool {
        bytes.len() % 4 == 0
    }

    open spec fn is_decoding_of(&self, bytes: Seq<u8>) -> bool {
        &&& self.data@ == decoded_scalars::<Pix>(bytes, bytes.len() as int / 4)
        &&& self.size.y == 1
        &&& self.size.x == bytes.len() / 4
    }

    /// An in-place readback keeps this raster's own extent.
    open spec fn shape_matches(&self, bytes: Seq<u8>) -> bool {
        4 * self.data@.len() <= bytes.len()
    }

    open spec fn is_reread_of(&self, from: Self, bytes: Seq<u8>) -> bool {
        &&& self.data@ == decoded_scalars::<Pix>(bytes, from.data@.len() as int)
        &&& self.size == from.size
    }

    fn from_bytes_new(bytes: &Vec<u8>) -> (r: Self) {
        let n = bytes.len();
        proof {
            vstd::arithmetic::div_mod::lemma_fundamental_div_mod(n as int, 4);
        }
        let data = scalars_from_bytes::<Pix>(bytes, n / 4);
        let size = Point { x: n / 4, y: 1 };
        Image { data, size }
    }

    fn from_bytes(&mut self, bytes: &Vec<u8>) {
        let count = self.data.len();
        self.data = scalars_from_bytes::<Pix>(bytes, count);
    }
}

} // verus!
