//! Points and sizes in the physical and logical coordinate spaces.

use vstd::prelude::*;

use crate::ieee::arith::{difference, product, quotient, sum};
use crate::ieee::bits::F64;
use crate::ieee::convert::{from_integer, nearest_i32, saturated_i32};
use crate::ieee::format::{Float, Format};
use crate::ieee::order::equal;

verus! {

/// A place on the pixel grid.
#[derive(Clone, Copy, PartialEq, Eq, Structural, Debug)]
pub struct Point {
    pub x: i32,
    pub y: i32,
}

/// A width and a height.
#[derive(Clone, Copy, PartialEq, Eq, Structural, Debug)]
pub struct Size {
    pub w: i32,
    pub h: i32,
}

/// A rectangle by its upper left corner and its size.
#[derive(Clone, Copy, PartialEq, Eq, Structural, Debug)]
pub struct Rect {
    pub location: Point,
    pub size: Size,
}

/// A place between the pixels.
#[derive(Clone, Copy, Debug)]
pub struct PointF {
    pub x: F64,
    pub y: F64,
}

/// What a `PointF` stands for.
pub struct Place {
    pub x: Float,
    pub y: Float,
}

/// The binary64 number nearest to an integer.
pub open spec fn double(n: int) -> Float {
    from_integer(Format::Binary64, n)
}

impl Place {
    pub open spec fn of(p: Point) -> Place {
        Place { x: double(p.x as int), y: double(p.y as int) }
    }

    pub open spec fn plus(self, other: Place) -> Place {
        Place {
            x: sum(Format::Binary64, self.x, other.x),
            y: sum(Format::Binary64, self.y, other.y),
        }
    }

    pub open spec fn minus(self, other: Place) -> Place {
        Place {
            x: difference(Format::Binary64, self.x, other.x),
            y: difference(Format::Binary64, self.y, other.y),
        }
    }

    /// Physical to logical: divided by the scale.
    pub open spec fn to_logical(self, scale: Float) -> Place {
        Place {
            x: quotient(Format::Binary64, self.x, scale),
            y: quotient(Format::Binary64, self.y, scale),
        }
    }

    /// Logical to physical: multiplied by the scale.
    pub open spec fn to_physical(self, scale: Float) -> Place {
        Place {
            x: product(Format::Binary64, self.x, scale),
            y: product(Format::Binary64, self.y, scale),
        }
    }

    /// The nearest place on the grid.
    pub open spec fn rounded(self) -> Point {
        Point {
            x: nearest_i32(Format::Binary64, self.x),
            y: nearest_i32(Format::Binary64, self.y),
        }
    }

    pub open spec fn equals(self, other: Place) -> bool {
        equal(self.x, other.x) && equal(self.y, other.y)
    }
}

impl View for PointF {
    type V = Place;

    open spec fn view(&self) -> Place {
        Place { x: self.x@, y: self.y@ }
    }
}

impl PointF {
    /// A place on the grid, as a place between the pixels.
    pub fn from_point(p: Point) -> (r: PointF)
        ensures
            r@ == Place::of(p),
    {
        PointF { x: F64::from_i32(p.x), y: F64::from_i32(p.y) }
    }

    /// The origin.
    pub fn origin() -> (r: PointF)
        ensures
            r@ == Place::of(Point { x: 0, y: 0 }),
    {
        PointF::from_point(Point { x: 0, y: 0 })
    }

    pub fn plus(self, other: PointF) -> (r: PointF)
        ensures
            r@ == self@.plus(other@),
    {
        PointF { x: self.x.plus(other.x), y: self.y.plus(other.y) }
    }

    pub fn minus(self, other: PointF) -> (r: PointF)
        ensures
            r@ == self@.minus(other@),
    {
        PointF { x: self.x.minus(other.x), y: self.y.minus(other.y) }
    }

    /// Physical to logical.
    pub fn to_logical(self, scale: F64) -> (r: PointF)
        ensures
            r@ == self@.to_logical(scale@),
    {
        PointF { x: self.x.over(scale), y: self.y.over(scale) }
    }

    /// Logical to physical.
    pub fn to_physical(self, scale: F64) -> (r: PointF)
        ensures
            r@ == self@.to_physical(scale@),
    {
        PointF { x: self.x.times(scale), y: self.y.times(scale) }
    }

    /// The nearest place on the grid.
    pub fn rounded(self) -> (r: Point)
        ensures
            r == self@.rounded(),
    {
        Point { x: self.x.round_to_i32(), y: self.y.round_to_i32() }
    }

    pub fn equals(self, other: PointF) -> (r: bool)
        ensures
            r == self@.equals(other@),
    {
        self.x.is_equal(other.x) && self.y.is_equal(other.y)
    }
}

/// Integer division toward zero.
pub open spec fn divided(a: int, b: int) -> int
    recommends
        b != 0,
{
    if (a < 0) == (b < 0) {
        abs(a) / abs(b)
    } else {
        -(abs(a) / abs(b))
    }
}

pub open spec fn abs(a: int) -> int {
    if a < 0 {
        -a
    } else {
        a
    }
}

/// `a` can be divided by `b` in `i32`.
pub open spec fn divisible(a: i32, b: i32) -> bool {
    b != 0 && !(a == i32::MIN && b == -1)
}

fn divide(a: i32, b: i32) -> (r: i32)
    requires
        divisible(a, b),
    ensures
        r == divided(a as int, b as int),
{
    let x: u64 = magnitude(a);
    let y: u64 = magnitude(b);
    let q: u64 = x / y;
    proof {
        vstd::arithmetic::div_mod::lemma_div_nonincreasing(x as int, y as int);
        if y > 1 && x > 0 {
            vstd::arithmetic::div_mod::lemma_div_decreases(x as int, y as int);
        }
        vstd::arithmetic::div_mod::lemma_div_basics(x as int);
    }
    if (a < 0) == (b < 0) {
        q as i32
    } else {
        (-(q as i64)) as i32
    }
}

fn magnitude(a: i32) -> (r: u64)
    ensures
        r == abs(a as int),
{
    if a < 0 {
        (-(a as i64)) as u64
    } else {
        a as u64
    }
}

fn multiply_saturating(a: i32, b: i32) -> (r: i32)
    ensures
        r == saturated_i32(a * b),
{
    assert(-0x4000_0000_0000_0000 <= a * b <= 0x4000_0000_0000_0000) by (nonlinear_arith)
        requires
            -0x8000_0000 <= a <= 0x7fff_ffff,
            -0x8000_0000 <= b <= 0x7fff_ffff,
    ;
    let exact: i64 = a as i64 * b as i64;
    if exact < i32::MIN as i64 {
        i32::MIN
    } else if exact > i32::MAX as i64 {
        i32::MAX
    } else {
        exact as i32
    }
}

impl Point {
    pub open spec fn scaled_down(self, scale: i32) -> Point {
        Point {
            x: divided(self.x as int, scale as int) as i32,
            y: divided(self.y as int, scale as int) as i32,
        }
    }

    /// Physical to logical on the grid, toward zero.
    pub fn to_logical(self, scale: i32) -> (r: Point)
        requires
            divisible(self.x, scale),
            divisible(self.y, scale),
        ensures
            r == self.scaled_down(scale),
    {
        Point { x: divide(self.x, scale), y: divide(self.y, scale) }
    }
}

impl Size {
    pub open spec fn scaled_up(self, scale: i32) -> Size {
        Size { w: saturated_i32(self.w * scale), h: saturated_i32(self.h * scale) }
    }

    pub open spec fn scaled_down(self, scale: i32) -> Size {
        Size {
            w: divided(self.w as int, scale as int) as i32,
            h: divided(self.h as int, scale as int) as i32,
        }
    }

    /// Logical to physical on the grid, saturating.
    pub fn to_physical(self, scale: i32) -> (r: Size)
        ensures
            r == self.scaled_up(scale),
    {
        Size { w: multiply_saturating(self.w, scale), h: multiply_saturating(self.h, scale) }
    }

    /// Physical to logical on the grid, toward zero.
    pub fn to_logical(self, scale: i32) -> (r: Size)
        requires
            divisible(self.w, scale),
            divisible(self.h, scale),
        ensures
            r == self.scaled_down(scale),
    {
        Size { w: divide(self.w, scale), h: divide(self.h, scale) }
    }
}

} // verus!
