//! Plain rectangles on the output.

use vstd::prelude::*;

verus! {

/// An axis-aligned rectangle in output pixels.
#[derive(Clone, Copy, Debug, PartialEq, Eq, Structural)]
pub struct Rect {
    pub x: i32,
    pub y: i32,
    pub w: i32,
    pub h: i32,
}

impl Default for Rect {
    fn default() -> (r: Rect)
        ensures
            r == (Rect { x: 0, y: 0, w: 0, h: 0 }),
    {
        Rect { x: 0, y: 0, w: 0, h: 0 }
    }
}

/// The larger of two integers.
pub open spec fn imax(a: int, b: int) -> int {
    if a >= b {
        a
    } else {
        b
    }
}

/// The smaller of two integers.
pub open spec fn imin(a: int, b: int) -> int {
    if a <= b {
        a
    } else {
        b
    }
}

pub fn max_i32(a: i32, b: i32) -> (m: i32)
    ensures
        m == imax(a as int, b as int),
{
    if a >= b {
        a
    } else {
        b
    }
}

pub fn min_i32(a: i32, b: i32) -> (m: i32)
    ensures
        m == imin(a as int, b as int),
{
    if a <= b {
        a
    } else {
        b
    }
}

/// Half of `v`, rounded towards zero.
pub open spec fn half(v: int) -> int {
    if v >= 0 {
        v / 2
    } else {
        -((-v) / 2)
    }
}

pub fn half_i32(v: i32) -> (r: i32)
    ensures
        r == half(v as int),
{
    if v >= 0 {
        v / 2
    } else {
        let m: i64 = (-(v as i64)) / 2;
        (-m) as i32
    }
}

/// Whether a value is representable as an `i32`.
pub open spec fn fits_i32(v: int) -> bool {
    i32::MIN <= v <= i32::MAX
}

/// The value of an `i32` nearest to `v`.
pub open spec fn near_i32(v: int) -> int {
    imax(imin(v, i32::MAX as int), i32::MIN as int)
}

pub fn narrow_i32(v: i64) -> (r: i32)
    ensures
        r == near_i32(v as int),
{
    if v > i32::MAX as i64 {
        i32::MAX
    } else if v < i32::MIN as i64 {
        i32::MIN
    } else {
        v as i32
    }
}

impl Rect {
    /// The first column right of the rectangle.
    pub open spec fn right(self) -> int {
        self.x + self.w
    }

    /// The first row below the rectangle.
    pub open spec fn bottom(self) -> int {
        self.y + self.h
    }

    /// Whether the pixel (`px`, `py`) lies inside: left and top edges
    /// belong to the rectangle, right and bottom ones do not.
    pub open spec fn has(self, px: int, py: int) -> bool {
        &&& self.x <= px < self.right()
        &&& self.y <= py < self.bottom()
    }

    /// Hit-test a pixel.
    pub fn contains(&self, px: i32, py: i32) -> (inside: bool)
        ensures
            inside == self.has(px as int, py as int),
    {
        let (x, y, w, h) = (self.x as i64, self.y as i64, self.w as i64, self.h as i64);
        let (px, py) = (px as i64, py as i64);
        x <= px && px < x + w && y <= py && py < y + h
    }

    /// Whether every pixel of `inner` is a pixel of `self`, for rectangles
    /// that are not inside out.
    pub open spec fn encloses(self, inner: Rect) -> bool {
        &&& self.x <= inner.x
        &&& self.y <= inner.y
        &&& inner.right() <= self.right()
        &&& inner.bottom() <= self.bottom()
    }
}

/// Law: a rectangle holds its top left corner and the last pixel before its
/// right and bottom edges, and nothing beyond; cut in two along either axis,
/// each of its pixels is in exactly one part.
pub proof fn a_cut_rectangle_shares_no_pixel(r: Rect, a: Rect, b: Rect, px: int, py: int)
    requires
        0 < r.w,
        0 < r.h,
        0 <= a.w <= r.w,
        a.x == r.x && a.y == r.y && a.h == r.h,
        b.x == r.x + a.w && b.y == r.y && b.h == r.h && b.w == r.w - a.w,
    ensures
        r.has(r.x as int, r.y as int),
        r.has(r.x + r.w - 1, r.y + r.h - 1),
        !r.has(r.x + r.w, py) && !r.has(px, r.y + r.h),
        !r.has(r.x - 1, py) && !r.has(px, r.y - 1),
        r.has(px, py) <==> a.has(px, py) || b.has(px, py),
        !(a.has(px, py) && b.has(px, py)),
{
}

/// Law: a half is the whole number nearest to zero of the two nearest, and
/// halving a value and its negative gives a value and its negative.
pub proof fn halves_round_towards_zero(v: int)
    ensures
        half(-v) == -half(v),
        v >= 0 ==> 2 * half(v) <= v <= 2 * half(v) + 1,
        v <= 0 ==> 2 * half(v) - 1 <= v <= 2 * half(v),
{
}

/// Law: the nearest representable value to a value is itself where it fits,
/// and else the end it is beyond; the larger and the smaller of two values
/// are those two.
pub proof fn values_are_cut_to_range(v: int, a: int, b: int)
    ensures
        i32::MIN <= v <= i32::MAX ==> near_i32(v) == v,
        v > i32::MAX ==> near_i32(v) == i32::MAX,
        v < i32::MIN ==> near_i32(v) == i32::MIN,
        imin(a, b) <= a <= imax(a, b),
        imin(a, b) <= b <= imax(a, b),
        imin(a, b) + imax(a, b) == a + b,
{
}

} // verus!
