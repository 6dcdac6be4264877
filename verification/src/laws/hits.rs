//! What of a window the pointer hits, at every scale.

use vstd::prelude::*;

use crate::geometry::{double, Place, Point, Size};
use crate::ieee::arith::difference;
use crate::ieee::exact::lemma_integer_quotient;
use crate::ieee::format::{Float, Format};
use crate::ieee::rounding::lemma_pow2_values;
use crate::input::region_of;
use crate::laws::measure::{
    divides, hair, lemma_difference_near, lemma_hair, lemma_integer_reachable, lemma_nearest_half,
    lemma_quotient_near, pixel, reachable,
};
use crate::window::{
    hit_region, law_hit_test_on_pixels, HitRegion, Window,
    TITLE_BAR_HEIGHT,
};

verus! {

/// The bar and the client area are hit exactly where the pointer is relative to
/// the window: in its columns, in its first thirty rows or in the rows of the
/// client area below. The place on the client area is counted from its corner,
/// to the nearest pixel.
pub proof fn law_hit_test_by_value(pointer: Place, window: Place, size: Size)
    ensures
        ({
            let relative = pointer.minus(window);
            let (x, y) = (relative.x.value(), relative.y.value());
            let region = hit_region(pointer, window, size);
            let finite = relative.x is Finite && relative.y is Finite;
            let in_columns = 0 <= x < size.w * pixel();
            &&& region == HitRegion::TitleBar <==> finite && in_columns && 0 <= y < 30 * pixel()
            &&& region is Client <==> finite && in_columns && 30 * pixel() <= y < (30 + size.h)
                * pixel()
        }),
{
    lemma_hair();
    lemma_integer_reachable(0);
    lemma_integer_reachable(size.w);
    lemma_integer_reachable(30);
    lemma_pow2_values();
    crate::ieee::exact::lemma_integer_exact(Format::Binary64, 30 + size.h);
    assert(0 * pixel() == 0);
}

/// The place that is hit on a client area is the pixel nearest to where the
/// pointer is on it.
pub proof fn law_client_place_is_the_nearest(pointer: Place, window: Place, size: Size)
    requires
        reachable(pointer.minus(window).x),
        reachable(pointer.minus(window).y),
    ensures
        ({
            let relative = pointer.minus(window);
            let (x, y) = (relative.x.value(), relative.y.value());
            hit_region(pointer, window, size) matches HitRegion::Client { local_x, local_y } ==> {
                &&& -pixel() <= 2 * (local_x * pixel() - x) <= pixel()
                &&& -(pixel() + hair()) <= 2 * (local_y * pixel() - (y - 30 * pixel())) <= pixel()
                    + hair()
            }
        }),
{
    let relative = pointer.minus(window);
    let (x, y) = (relative.x.value(), relative.y.value());
    law_hit_test_by_value(pointer, window, size);
    if hit_region(pointer, window, size) is Client {
        lemma_hair();
        lemma_integer_reachable(30);
        lemma_difference_near(relative.y, double(30));
        let u = pixel();
        assert(size.w * u <= 0x7fff_ffff * u) by (nonlinear_arith)
            requires
                size.w <= 0x7fff_ffff,
                u > 0,
        ;
        lemma_nearest_half(relative.x);
        assert((30 + size.h) * u == 30 * u + size.h * u) by (nonlinear_arith);
        assert(size.h * u <= 0x7fff_ffff * u) by (nonlinear_arith)
            requires
                size.h <= 0x7fff_ffff,
                u > 0,
        ;
        let below = difference(Format::Binary64, relative.y, double(30));
        crate::window::lemma_below_bar_of(relative.y, size.h);
        lemma_nearest_half(below);
    }
}

/// At a whole scale, a window at a multiple of the scale is hit as it is at
/// scale one, with places and the pointer counted in logical pixels.
pub proof fn law_hit_test_at_whole_scale(window: Window, corner: Point, pointer: Point, scale: i32)
    requires
        0 < scale,
        window.location.x == corner.x * scale,
        window.location.y == corner.y * scale,
        i32::MIN <= pointer.x * scale <= i32::MAX,
        i32::MIN <= pointer.y * scale <= i32::MAX,
    ensures
        ({
            let dx = pointer.x - corner.x;
            let dy = pointer.y - corner.y;
            let size = window.client_size();
            let at = Place { x: double(pointer.x * scale), y: double(pointer.y * scale) };
            region_of(window, at, double(scale as int)) == if !(0 <= dx < size.w) {
                HitRegion::Outside
            } else if 0 <= dy < TITLE_BAR_HEIGHT {
                HitRegion::TitleBar
            } else if TITLE_BAR_HEIGHT <= dy < TITLE_BAR_HEIGHT + size.h {
                HitRegion::Client { local_x: dx as i32, local_y: (dy - TITLE_BAR_HEIGHT) as i32 }
            } else {
                HitRegion::Outside
            }
        }),
{
    lemma_pow2_values();
    lemma_integer_quotient(Format::Binary64, pointer.x as int, scale as nat);
    lemma_integer_quotient(Format::Binary64, pointer.y as int, scale as nat);
    lemma_integer_quotient(Format::Binary64, corner.x as int, scale as nat);
    lemma_integer_quotient(Format::Binary64, corner.y as int, scale as nat);
    law_hit_test_on_pixels(pointer, corner, window.client_size());
}

/// How much of a pixel is left open at the edges of a region.
pub open spec fn margin() -> int {
    4 * hair()
}

/// The pointer is so many logical pixels from the window, from `low` to `high`,
/// clear of both ends.
pub open spec fn clearly_within(pointer: int, corner: i32, scale: int, low: int, high: int) -> bool {
    scale * (low * pixel() + margin()) <= (pointer - corner * pixel()) * pixel() <= scale * (high
        * pixel() - margin())
}

/// The pointer is clearly before `low` or after `high`.
pub open spec fn clearly_beside(pointer: int, corner: i32, scale: int, low: int, high: int) -> bool {
    ||| (pointer - corner * pixel()) * pixel() <= scale * (low * pixel() - margin())
    ||| (pointer - corner * pixel()) * pixel() >= scale * (high * pixel() + margin())
}

/// The pointer and the window can be brought to logical coordinates.
pub open spec fn measurable(window: Window, pointer: Place, scale: Float) -> bool {
    &&& divides(scale, pointer.x)
    &&& divides(scale, pointer.y)
    &&& divides(scale, double(window.location.x as int))
    &&& divides(scale, double(window.location.y as int))
}

/// Where the pointer is relative to the window, in logical coordinates.
spec fn offset_of(pointer: Float, corner: i32, scale: Float) -> Float {
    difference(
        Format::Binary64,
        crate::ieee::arith::quotient(Format::Binary64, pointer, scale),
        crate::ieee::arith::quotient(Format::Binary64, double(corner as int), scale),
    )
}

proof fn lemma_offset_of(pointer: Float, corner: i32, scale: Float)
    requires
        divides(scale, pointer),
        divides(scale, double(corner as int)),
    ensures
        offset_of(pointer, corner, scale) is Finite,
        ({
            let (r, s) = (offset_of(pointer, corner, scale).value(), scale.value());
            let exact = (pointer.value() - corner * pixel()) * pixel();
            -(s * margin()) < 2 * (r * s - exact) < s * margin()
        }),
{
    let format = Format::Binary64;
    lemma_hair();
    lemma_integer_reachable(corner);
    lemma_quotient_near(pointer, scale);
    lemma_quotient_near(double(corner as int), scale);
    let a = crate::ieee::arith::quotient(format, pointer, scale);
    let b = crate::ieee::arith::quotient(format, double(corner as int), scale);
    crate::ieee::arith::lemma_negation(format, b);
    crate::laws::desktop::lemma_value_error(
        format,
        a.value() - b.value(),
        a.is_negative() && crate::ieee::arith::negation(b).is_negative(),
        1054,
    );
    let (x, y, r) = (a.value(), b.value(), offset_of(pointer, corner, scale).value());
    let (s, h, u) = (scale.value(), hair(), pixel());
    let (p, c) = (pointer.value(), corner * u);
    assert((p - c) * u == p * u - c * u) by (nonlinear_arith);
    let (m, n) = (p * u, c * u);
    assert(-(s * (4 * h)) < 2 * (r * s - (m - n)) < s * (4 * h)) by (nonlinear_arith)
        requires
            -(s * h) <= 2 * (x * s - m) <= s * h,
            -(s * h) <= 2 * (y * s - n) <= s * h,
            -h <= 2 * (r - (x - y)) <= h,
            s > 0,
            h > 0,
    ;
}

proof fn lemma_within(r: int, exact: int, s: int, low: int, high: int)
    requires
        s > 0,
        -(s * margin()) < 2 * (r * s - exact) < s * margin(),
    ensures
        s * (low * pixel() + margin()) <= exact <= s * (high * pixel() - margin()) ==> low * pixel()
            <= r < high * pixel(),
        exact <= s * (low * pixel() - margin()) ==> r < low * pixel(),
        exact >= s * (high * pixel() + margin()) ==> r >= high * pixel(),
{
    let (l, h, m) = (low * pixel(), high * pixel(), margin());
    lemma_hair();
    if s * (l + m) <= exact <= s * (h - m) {
        assert(l <= r < h) by (nonlinear_arith)
            requires
                s > 0,
                m > 0,
                -(s * m) < 2 * (r * s - exact) < s * m,
                s * (l + m) <= exact <= s * (h - m),
        ;
    }
    if exact <= s * (l - m) {
        assert(r < l) by (nonlinear_arith)
            requires
                s > 0,
                m > 0,
                2 * (r * s - exact) < s * m,
                exact <= s * (l - m),
        ;
    }
    if exact >= s * (h + m) {
        assert(r >= h) by (nonlinear_arith)
            requires
                s > 0,
                m > 0,
                -(s * m) < 2 * (r * s - exact),
                exact >= s * (h + m),
        ;
    }
}

/// At every scale the pointer hits the bar, the client area or nothing by how
/// many logical pixels it is from the corner of the window, as long as it is
/// not within a hair of an edge.
pub proof fn law_hit_test_at_every_scale(window: Window, pointer: Place, scale: Float)
    requires
        measurable(window, pointer, scale),
    ensures
        ({
            let (x, y, s) = (pointer.x.value(), pointer.y.value(), scale.value());
            let (corner, size) = (window.location, window.client_size());
            let region = region_of(window, pointer, scale);
            &&& clearly_within(x, corner.x, s, 0, size.w as int) && clearly_within(
                y,
                corner.y,
                s,
                0,
                30,
            ) ==> region == HitRegion::TitleBar
            &&& clearly_within(x, corner.x, s, 0, size.w as int) && clearly_within(
                y,
                corner.y,
                s,
                30,
                30 + size.h,
            ) ==> region is Client
            &&& clearly_beside(x, corner.x, s, 0, size.w as int) ==> region == HitRegion::Outside
            &&& size.h >= 0 && clearly_beside(y, corner.y, s, 0, 30 + size.h) ==> region
                == HitRegion::Outside
        }),
{
    let (corner, size) = (window.location, window.client_size());
    lemma_offset_of(pointer.x, corner.x, scale);
    lemma_offset_of(pointer.y, corner.y, scale);
    let logical = pointer.to_logical(scale);
    let place = Place::of(corner).to_logical(scale);
    let relative = logical.minus(place);
    let (rx, ry) = (relative.x.value(), relative.y.value());
    let s = scale.value();
    let exact_x = (pointer.x.value() - corner.x * pixel()) * pixel();
    let exact_y = (pointer.y.value() - corner.y * pixel()) * pixel();
    lemma_within(rx, exact_x, s, 0, size.w as int);
    lemma_within(ry, exact_y, s, 0, 30);
    lemma_within(ry, exact_y, s, 30, 30 + size.h);
    lemma_within(ry, exact_y, s, 0, 30 + size.h);
    law_hit_test_by_value(logical, place, size);
    lemma_hair();
    assert(0 * pixel() == 0);
    assert((30 + size.h) * pixel() == 30 * pixel() + size.h * pixel()) by (nonlinear_arith);
    assert(size.h >= 0 ==> size.h * pixel() >= 0) by (nonlinear_arith)
        requires
            pixel() > 0,
    ;
    match hit_region(logical, place, size) {
        HitRegion::TitleBar => {},
        HitRegion::Client { .. } => {},
        HitRegion::Outside => {},
    }
}

} // verus!
