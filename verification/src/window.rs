//! Windows and what of them a pointer is over.

use vstd::arithmetic::power2::*;
use vstd::prelude::*;

use crate::geometry::{double, Place, Point, PointF, Size};
use crate::ieee::arith::{difference, lemma_negation, lemma_zero_valid};
use crate::ieee::bits::F64;
use crate::ieee::convert::{nearest_i32, whole_nearest};
use crate::ieee::exact::{
    lemma_integer_difference, lemma_integer_exact, lemma_rounded_monotone, lemma_rounded_same,
    lemma_rounding_error,
};
use crate::ieee::format::{Float, Format};
use crate::ieee::order::{at_most, less};
use crate::ieee::rounding::lemma_pow2_values;

verus! {

/// Height of the bar above each window.
pub const TITLE_BAR_HEIGHT: i32 = 30;

/// A window, known by the key of its surface. `location` is the corner of the
/// title bar in physical coordinates; `size` is what the client has
/// acknowledged so far.
#[derive(Clone, Copy, PartialEq, Eq, Structural, Debug)]
pub struct Window {
    pub surface: u64,
    pub location: Point,
    pub size: Option<Size>,
}

/// What of a window lies under the pointer.
#[derive(Debug, Clone, Copy, PartialEq, Eq, Structural)]
pub enum HitRegion {
    TitleBar,
    Client { local_x: i32, local_y: i32 },
    Outside,
}

/// The size of a window whose client has acknowledged none.
pub open spec fn default_size() -> Size {
    Size { w: 800, h: 600 }
}

impl Window {
    pub open spec fn client_size(self) -> Size {
        match self.size {
            Some(size) => size,
            None => default_size(),
        }
    }

    /// Size of the client area.
    pub fn surface_size(&self) -> (r: Size)
        ensures
            r == self.client_size(),
    {
        self.size.unwrap_or(Size { w: 800, h: 600 })
    }
}

/// Bar and client area together have a height.
pub open spec fn bar_fits(size: Size) -> bool {
    size.h + TITLE_BAR_HEIGHT <= i32::MAX
}

/// `low <= a < high`.
pub open spec fn within(low: Float, a: Float, high: Float) -> bool {
    at_most(low, a) && less(a, high)
}

/// The bar spans the width of the window and its first thirty rows; the client
/// area starts below it.
pub open spec fn hit_region(pointer: Place, window: Place, size: Size) -> HitRegion {
    let relative = pointer.minus(window);
    if !within(double(0), relative.x, double(size.w as int)) {
        HitRegion::Outside
    } else if within(double(0), relative.y, double(TITLE_BAR_HEIGHT as int)) {
        HitRegion::TitleBar
    } else if within(
        double(TITLE_BAR_HEIGHT as int),
        relative.y,
        double(TITLE_BAR_HEIGHT + size.h),
    ) {
        HitRegion::Client {
            local_x: nearest_i32(Format::Binary64, relative.x),
            local_y: nearest_i32(
                Format::Binary64,
                difference(Format::Binary64, relative.y, double(TITLE_BAR_HEIGHT as int)),
            ),
        }
    } else {
        HitRegion::Outside
    }
}

/// The pointer is in the columns of the window and not above its client area:
/// only there does the height of the window matter.
pub open spec fn reaches_client_rows(pointer: Place, window: Place, size: Size) -> bool {
    let relative = pointer.minus(window);
    &&& within(double(0), relative.x, double(size.w as int))
    &&& at_most(double(TITLE_BAR_HEIGHT as int), relative.y)
}

/// The window has a height, as far as the hit test needs one.
pub open spec fn testable(pointer: Place, window: Place, size: Size) -> bool {
    reaches_client_rows(pointer, window, size) ==> bar_fits(size)
}

/// Finds what of a window lies under the pointer.
pub fn hit_test_window(
    pointer_logical: PointF,
    window_location_logical: PointF,
    surface_size: Size,
) -> (r: HitRegion)
    requires
        testable(pointer_logical@, window_location_logical@, surface_size),
    ensures
        r == hit_region(pointer_logical@, window_location_logical@, surface_size),
{
    let relative: PointF = pointer_logical.minus(window_location_logical);
    let origin: F64 = F64::from_i32(0);
    let width: F64 = F64::from_i32(surface_size.w);
    let bar: F64 = F64::from_i32(TITLE_BAR_HEIGHT);
    if origin.is_at_most(relative.x) && relative.x.is_less(width) {
        if origin.is_at_most(relative.y) && relative.y.is_less(bar) {
            HitRegion::TitleBar
        } else if bar.is_at_most(relative.y) && relative.y.is_less(
            F64::from_i32(TITLE_BAR_HEIGHT + surface_size.h),
        ) {
            HitRegion::Client {
                local_x: relative.x.round_to_i32(),
                local_y: relative.y.minus(bar).round_to_i32(),
            }
        } else {
            HitRegion::Outside
        }
    } else {
        HitRegion::Outside
    }
}

/// On whole pixels the hit test is integer arithmetic: the bar is the first
/// thirty rows of the window, and what is below it is counted from its lower
/// edge.
pub proof fn law_hit_test_on_pixels(pointer: Point, window: Point, size: Size)
    ensures
        ({
            let dx = pointer.x - window.x;
            let dy = pointer.y - window.y;
            hit_region(Place::of(pointer), Place::of(window), size) == if !(0 <= dx < size.w) {
                HitRegion::Outside
            } else if 0 <= dy < TITLE_BAR_HEIGHT {
                HitRegion::TitleBar
            } else if TITLE_BAR_HEIGHT <= dy < TITLE_BAR_HEIGHT + size.h {
                HitRegion::Client { local_x: dx as i32, local_y: (dy - TITLE_BAR_HEIGHT) as i32 }
            } else {
                HitRegion::Outside
            }
        }),
{
    lemma_pow2_values();
    let dx = pointer.x - window.x;
    let dy = pointer.y - window.y;
    lemma_integer_difference(Format::Binary64, pointer.x as int, window.x as int);
    lemma_integer_difference(Format::Binary64, pointer.y as int, window.y as int);
    lemma_integer_difference(Format::Binary64, dy, TITLE_BAR_HEIGHT as int);
    lemma_integer_order(0, dx);
    lemma_integer_order(dx, size.w as int);
    lemma_integer_order(0, dy);
    lemma_integer_order(dy, TITLE_BAR_HEIGHT as int);
    lemma_integer_order(TITLE_BAR_HEIGHT as int, dy);
    lemma_integer_order(dy, TITLE_BAR_HEIGHT + size.h);
    if 0 <= dx < size.w && TITLE_BAR_HEIGHT <= dy < TITLE_BAR_HEIGHT + size.h {
        lemma_integer_nearest(dx);
        lemma_integer_nearest(dy - TITLE_BAR_HEIGHT);
    }
}

/// A window has a height unless its client area comes within the height of the
/// bar to the largest there is.
pub proof fn law_ordinary_windows_fit(size: Size)
    ensures
        bar_fits(size) <==> size.h <= 0x7fff_ffff - 30,
{
}

/// Integers compare as their numbers do.
pub proof fn lemma_integer_order(a: int, b: int)
    requires
        -0x20_0000_0000_0000 < a < 0x20_0000_0000_0000,
        -0x20_0000_0000_0000 < b < 0x20_0000_0000_0000,
    ensures
        less(double(a), double(b)) <==> a < b,
        at_most(double(a), double(b)) <==> a <= b,
{
    lemma_pow2_values();
    lemma_integer_exact(Format::Binary64, a);
    lemma_integer_exact(Format::Binary64, b);
    let unit = pow2(1074);
    lemma_pow2_pos(1074);
    if a < b {
        assert(a * unit < b * unit) by (nonlinear_arith)
            requires
                a < b,
                unit > 0,
        ;
    } else if a > b {
        assert(a * unit > b * unit) by (nonlinear_arith)
            requires
                a > b,
                unit > 0,
        ;
    }
}

/// Rounding the number of an integer gives the integer back.
pub proof fn lemma_integer_nearest(n: int)
    requires
        i32::MIN <= n <= i32::MAX,
    ensures
        nearest_i32(Format::Binary64, double(n)) == n,
{
    lemma_pow2_values();
    lemma_integer_exact(Format::Binary64, n);
    let unit = pow2(1074);
    lemma_pow2_pos(1074);
    let a = double(n);
    let m = if n < 0 {
        -n
    } else {
        n
    };
    assert(a.units() == m * unit) by {
        assert((-n) * unit == -(n * unit)) by (nonlinear_arith);
    }
    assert(2 * (m * unit) + unit == m * (2 * unit) + unit) by (nonlinear_arith);
    vstd::arithmetic::div_mod::lemma_fundamental_div_mod_converse(
        (2 * a.units() + unit) as int,
        (2 * unit) as int,
        m,
        unit as int,
    );
}

/// A place in the client area is a place of the surface, its far edges
/// included.
pub proof fn law_client_place_in_surface(pointer: Place, window: Place, size: Size)
    ensures
        hit_region(pointer, window, size) matches HitRegion::Client { local_x, local_y }
            ==> 0 <= local_x <= size.w && 0 <= local_y <= size.h,
{
    if hit_region(pointer, window, size) is Client {
        let relative = pointer.minus(window);
        lemma_between(0, relative.x, size.w as int);
        lemma_between(30, relative.y, 30 + size.h);
        lemma_nearest_bounds(relative.x, 0, size.w as int);
        lemma_below_bar(relative.y, size.h as int);
        lemma_nearest_bounds(
            difference(Format::Binary64, relative.y, double(TITLE_BAR_HEIGHT as int)),
            0,
            size.h as int,
        );
    }
}

/// There is no number from one integer to below another that is not larger.
proof fn lemma_between(low: int, a: Float, high: int)
    requires
        i32::MIN <= low <= i32::MAX,
        i32::MIN <= high <= 0x1_0000_0000,
        within(double(low), a, double(high)),
    ensures
        low < high,
{
    lemma_pow2_values();
    lemma_integer_exact(Format::Binary64, low);
    lemma_integer_exact(Format::Binary64, high);
    lemma_integer_order(low, high);
}

/// Taking off the height of the bar leaves a number from zero to the height of
/// the client area.
proof fn lemma_below_bar(a: Float, h: int)
    requires
        0 <= h <= i32::MAX,
        within(double(30), a, double(30 + h)),
    ensures
        at_most(double(0), difference(Format::Binary64, a, double(30))),
        at_most(difference(Format::Binary64, a, double(30)), double(h)),
{
    let format = Format::Binary64;
    lemma_pow2_values();
    lemma_integer_exact(format, 0);
    lemma_integer_exact(format, 30);
    lemma_integer_exact(format, h);
    lemma_integer_exact(format, 30 + h);
    lemma_negation(format, double(30));
    let unit = pow2(1074);
    assert((30 + h) * unit == 30 * unit + h * unit) by (nonlinear_arith);
    assert(0 * unit == 0);
    let rest = a.value() - 30 * unit;
    assert(0 <= rest <= h * unit);
    lemma_zero_valid(format, false);
    lemma_zero_valid(format, true);
    if rest > 0 {
        lemma_pow2_adds(32, 1074);
        lemma_pow2_pos(1074);
        assert(h * unit < 0x1_0000_0000 * unit) by (nonlinear_arith)
            requires
                h < 0x1_0000_0000,
                unit > 0,
        ;
        assert(32 + 1074 == 53 + 1053);
        lemma_rounding_error(format, false, rest as nat, 1053);
        lemma_rounded_monotone(format, false, rest as nat, (h * unit) as nat, 1053);
        lemma_rounded_same(format, double(h));
    }
}

/// Below the bar the rows of the client area are counted from zero to its
/// height.
pub proof fn lemma_below_bar_of(a: Float, h: i32)
    requires
        within(double(30), a, double(30 + h)),
    ensures
        0 <= h,
        at_most(double(0), difference(Format::Binary64, a, double(30))),
        at_most(difference(Format::Binary64, a, double(30)), double(h as int)),
{
    lemma_between(30, a, 30 + h);
    lemma_below_bar(a, h as int);
}

/// A number between two integers rounds to one between them.
proof fn lemma_nearest_bounds(a: Float, low: int, high: int)
    requires
        0 <= low <= i32::MAX,
        low <= high <= i32::MAX,
        at_most(double(low), a),
        at_most(a, double(high)),
    ensures
        low <= nearest_i32(Format::Binary64, a) <= high,
{
    lemma_pow2_values();
    lemma_integer_exact(Format::Binary64, low);
    lemma_integer_exact(Format::Binary64, high);
    let unit = pow2(1074);
    lemma_pow2_pos(1074);
    assert(low * unit >= 0) by (nonlinear_arith)
        requires
            low >= 0,
            unit > 0,
    ;
    assert(a is Finite);
    let n = 2 * a.units() + unit;
    let q = whole_nearest(Format::Binary64, a) as int;
    vstd::arithmetic::div_mod::lemma_fundamental_div_mod(n as int, (2 * unit) as int);
    assert(low * unit <= a.units() <= high * unit);
    assert(q >= low) by (nonlinear_arith)
        requires
            n == (2 * unit) * q + n % (2 * unit),
            n % (2 * unit) < 2 * unit,
            n >= 2 * (low * unit) + unit,
            unit > 0,
    ;
    assert(q <= high) by (nonlinear_arith)
        requires
            n == (2 * unit) * q + n % (2 * unit),
            n % (2 * unit) >= 0,
            n <= 2 * (high * unit) + unit,
            unit > 0,
    ;
    if a.is_negative() {
        assert(a.units() == 0);
        assert(q == 0) by (nonlinear_arith)
            requires
                n == (2 * unit) * q + n % (2 * unit),
                n % (2 * unit) >= 0,
                n == unit,
                unit > 0,
                q >= 0,
        ;
        assert(low == 0) by (nonlinear_arith)
            requires
                low * unit <= 0,
                low >= 0,
                unit > 0,
        ;
    }
}

} // verus!
