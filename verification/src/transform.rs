use vstd::prelude::*;

verus! {

/// A 3x3 transformation matrix.
pub type Matrix<T> = [[T; 3]; 3];

/// A scalar the vector types can compute with: an exactly-modelled value
/// with addition, subtraction, multiplication and truncating division.
pub trait Numeric: Sized + Copy {
    /// The mathematical value of this scalar.
    spec fn as_math(self) -> int;

    /// Whether a mathematical value is representable.
    spec fn in_range(x: int) -> bool;

    /// The type's division: truncation toward zero.
    spec fn spec_div(a: int, b: int) -> int;

    /// The unit value.
    fn one() -> (r: Self)
        ensures
            r.as_math() == 1,
    ;

    fn add_n(self, o: Self) -> (r: Self)
        requires
            Self::in_range(self.as_math() + o.as_math()),
        ensures
            r.as_math() == self.as_math() + o.as_math(),
    ;

    fn sub_n(self, o: Self) -> (r: Self)
        requires
            Self::in_range(self.as_math() - o.as_math()),
        ensures
            r.as_math() == self.as_math() - o.as_math(),
    ;

    fn mul_n(self, o: Self) -> (r: Self)
        requires
            Self::in_range(self.as_math() * o.as_math()),
        ensures
            r.as_math() == self.as_math() * o.as_math(),
    ;

    fn div_n(self, o: Self) -> (r: Self)
        requires
            o.as_math() != 0,
            Self::in_range(Self::spec_div(self.as_math(), o.as_math())),
        ensures
            r.as_math() == Self::spec_div(self.as_math(), o.as_math()),
    ;
}

impl Numeric for i64 {
    open spec fn as_math(self) -> int {
        self as int
    }

    open spec fn in_range(x: int) -> bool {
        i64::MIN <= x <= i64::MAX
    }

    /// Truncation toward zero, written over Euclidean division of
    /// magnitudes.
    open spec fn spec_div(a: int, b: int) -> int {
        if a >= 0 {
            a / b
        } else {
            -((-a) / b)
        }
    }

    fn one() -> i64 {
        1
    }

    fn add_n(self, o: i64) -> i64 {
        self + o
    }

    fn sub_n(self, o: i64) -> i64 {
        self - o
    }

    fn mul_n(self, o: i64) -> i64 {
        self * o
    }

    fn div_n(self, o: i64) -> i64 {
        self / o
    }
}

/// A 2-vector.
#[derive(Clone, Copy, Debug)]
pub struct Vec2<T> {
    pub x: T,
    pub y: T,
}

impl<T> Vec2<T> {
    pub fn new(x: T, y: T) -> (v: Self)
        ensures
            v.x == x,
            v.y == y,
    {
        Self { x, y }
    }
}

/// A 2-vector in homogeneous coordinates.
#[derive(Clone, Copy, Debug)]
pub struct Vec2H<T> {
    pub x: T,
    pub y: T,
    pub w: T,
}

impl<T: Numeric> Vec2H<T> {
    pub fn new(x: T, y: T, w: T) -> (v: Self)
        ensures
            v.x == x,
            v.y == y,
            v.w == w,
    {
        Self { x, y, w }
    }

    /// Divide through by the weight, leaving a unit weight.
    pub fn normalize(&mut self)
        requires
            old(self).w.as_math() != 0,
            T::in_range(T::spec_div(old(self).x.as_math(), old(self).w.as_math())),
            T::in_range(T::spec_div(old(self).y.as_math(), old(self).w.as_math())),
        ensures
            final(self).x.as_math() == T::spec_div(old(self).x.as_math(), old(self).w.as_math()),
            final(self).y.as_math() == T::spec_div(old(self).y.as_math(), old(self).w.as_math()),
            final(self).w.as_math() == 1,
    {
        self.x = self.x.div_n(self.w);
        self.y = self.y.div_n(self.w);
        self.w = T::one();
    }

    /// Apply a projective transform and divide through by the weight.
    pub fn transform(self, m: &Matrix<T>) -> (r: Self)
        requires
            self.w.as_math() != 0,
            forall|row: int|
                0 <= row < 2 ==> {
                    &&& T::in_range(self.x.as_math() * #[trigger] m[row][0].as_math())
                    &&& T::in_range(self.y.as_math() * m[row][1].as_math())
                    &&& T::in_range(self.w.as_math() * m[row][2].as_math())
                    &&& T::in_range(
                        self.x.as_math() * m[row][0].as_math() + self.y.as_math()
                            * m[row][1].as_math(),
                    )
                    &&& T::in_range(row_dot(self, m, row))
                },
            T::in_range(T::spec_div(row_dot(self, m, 0), self.w.as_math())),
            T::in_range(T::spec_div(row_dot(self, m, 1), self.w.as_math())),
        ensures
            r.x.as_math() == T::spec_div(row_dot(self, m, 0), self.w.as_math()),
            r.y.as_math() == T::spec_div(row_dot(self, m, 1), self.w.as_math()),
            r.w.as_math() == 1,
    {
        let x = self.x.mul_n(m[0][0]).add_n(self.y.mul_n(m[0][1])).add_n(self.w.mul_n(m[0][2]));
        let y = self.x.mul_n(m[1][0]).add_n(self.y.mul_n(m[1][1])).add_n(self.w.mul_n(m[1][2]));
        let x = x.div_n(self.w);
        let y = y.div_n(self.w);
        Self::new(x, y, T::one())
    }
}

/// The dot product of one matrix row with the homogeneous vector.
pub open spec fn row_dot<T: Numeric>(v: Vec2H<T>, m: &Matrix<T>, row: int) -> int {
    v.x.as_math() * m[row][0].as_math() + v.y.as_math() * m[row][1].as_math() + v.w.as_math()
        * m[row][2].as_math()
}

impl<T: Numeric> Vec2<T> {
    /// Lift into homogeneous coordinates with unit weight.
    pub fn to_homogeneous(&self) -> (v: Vec2H<T>)
        ensures
            v.x == self.x,
            v.y == self.y,
            v.w.as_math() == 1,
    {
        Vec2H::new(self.x, self.y, T::one())
    }
}

/// An RGB pixel of the scalar reference path.
#[derive(Clone, Copy, Debug, PartialEq, Eq, Structural)]
pub struct Pixel {
    pub r: u8,
    pub g: u8,
    pub b: u8,
}

impl Pixel {
    pub fn new(r: u8, g: u8, b: u8) -> (p: Self)
        ensures
            p == (Pixel { r, g, b }),
    {
        Self { r, g, b }
    }

    /// Channel-wise saturating addition.
    pub fn add(&self, other: &Self) -> (p: Self)
        ensures
            p.r == crate::image::sat_add_u8(self.r, other.r),
            p.g == crate::image::sat_add_u8(self.g, other.g),
            p.b == crate::image::sat_add_u8(self.b, other.b),
    {
        Self {
            r: self.r.saturating_add(other.r),
            g: self.g.saturating_add(other.g),
            b: self.b.saturating_add(other.b),
        }
    }
}

/// A plain 2-D pixel raster, rows of columns.
pub type VecIm = Vec<Vec<Pixel>>;

/// Interpolation choices of the scalar warp path.
pub enum Interpolate {
    Bilinear,
    Nearest,
}

/// Interpolation choices of the device warp path.
#[derive(Clone, Copy, Debug, PartialEq, Eq, Structural)]
pub enum Interpolation {
    Nearest,
    Bilinear,
}

/// An all-black raster of the given extent.
pub fn make_vec_image(size: Vec2<u32>) -> (im: VecIm)
    ensures
        im@.len() == size.y,
        forall|r: int|
            0 <= r < size.y ==> (#[trigger] im@[r])@.len() == size.x,
        forall|r: int, c: int|
            0 <= r < size.y && 0 <= c < size.x ==> #[trigger] im@[r]@[c] == (Pixel {
                r: 0,
                g: 0,
                b: 0,
            }),
{
    let mut im: VecIm = Vec::new();
    let mut r: u32 = 0;
    while r < size.y
        invariant
            r <= size.y,
            im@.len() == r,
            forall|q: int| 0 <= q < r ==> (#[trigger] im@[q])@.len() == size.x,
            forall|q: int, c: int|
                0 <= q < r && 0 <= c < size.x ==> #[trigger] im@[q]@[c] == (Pixel {
                    r: 0,
                    g: 0,
                    b: 0,
                }),
        decreases size.y - r,
    {
        let mut row: Vec<Pixel> = Vec::new();
        let mut c: u32 = 0;
        while c < size.x
            invariant
                c <= size.x,
                row@.len() == c,
                forall|q: int| 0 <= q < c ==> #[trigger] row@[q] == (Pixel { r: 0, g: 0, b: 0 }),
            decreases size.x - c,
        {
            row.push(Pixel::new(0, 0, 0));
            c += 1;
        }
        im.push(row);
        r += 1;
    }
    im
}

} // verus!
