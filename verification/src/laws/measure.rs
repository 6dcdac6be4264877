//! What the operations on places do to the numbers, up to a hair's breadth.

use vstd::arithmetic::power2::*;
use vstd::prelude::*;

use crate::geometry::{double, Place};
use crate::ieee::arith::{difference, lemma_negation, negation, product, quotient, sum};
use crate::ieee::convert::{nearest_i32, truncated, whole_nearest, whole_part};
use crate::ieee::exact::{lemma_integer_exact, lemma_ratio_error};
use crate::ieee::format::{Float, Format};
use crate::ieee::rounding::lemma_pow2_values;
use crate::laws::desktop::lemma_value_error;

verus! {

/// One pixel, in units of a coordinate.
pub open spec fn pixel() -> int {
    pow2(1074) as int
}

/// A hair's breadth: less than a millionth of a pixel.
pub open spec fn hair() -> int {
    pow2(1054) as int
}

/// A finite coordinate of at most `2^31` pixels.
pub open spec fn reachable(a: Float) -> bool {
    &&& a is Finite
    &&& a.valid(Format::Binary64)
    &&& -(0x8000_0000 * pixel()) <= a.value() <= 0x8000_0000 * pixel()
}

pub open spec fn reachable_place(place: Place) -> bool {
    reachable(place.x) && reachable(place.y)
}

/// Two coordinates are no farther apart than half a hair.
pub open spec fn near(a: int, b: int) -> bool {
    -hair() <= 2 * (a - b) <= hair()
}

pub proof fn lemma_hair()
    ensures
        pixel() == 0x10_0000 * hair(),
        hair() > 0,
        pow2(1105) == 0x8000_0000 * pixel(),
        pow2(1107) == 4 * (0x8000_0000 * pixel()),
{
    lemma_pow2_values();
    lemma2_to64();
    lemma_pow2_adds(20, 1054);
    lemma_pow2_pos(1054);
    lemma_pow2_adds(31, 1074);
    lemma_pow2_adds(2, 1105);
}

pub proof fn lemma_sum_near(a: Float, b: Float)
    requires
        reachable(a),
        reachable(b),
    ensures
        sum(Format::Binary64, a, b) is Finite,
        sum(Format::Binary64, a, b).valid(Format::Binary64),
        near(sum(Format::Binary64, a, b).value(), a.value() + b.value()),
{
    lemma_hair();
    lemma_value_error(
        Format::Binary64,
        a.value() + b.value(),
        a.is_negative() && b.is_negative(),
        1054,
    );
}

pub proof fn lemma_difference_near(a: Float, b: Float)
    requires
        reachable(a),
        reachable(b),
    ensures
        difference(Format::Binary64, a, b) is Finite,
        difference(Format::Binary64, a, b).valid(Format::Binary64),
        near(difference(Format::Binary64, a, b).value(), a.value() - b.value()),
{
    lemma_negation(Format::Binary64, b);
    lemma_sum_near(a, negation(b));
}

/// Adding places adds their coordinates, each on its own axis.
pub proof fn law_places_add_up(a: Place, b: Place)
    requires
        reachable_place(a),
        reachable_place(b),
    ensures
        a.plus(b).x is Finite,
        a.plus(b).y is Finite,
        near(a.plus(b).x.value(), a.x.value() + b.x.value()),
        near(a.plus(b).y.value(), a.y.value() + b.y.value()),
        a.plus(b) == b.plus(a),
{
    lemma_sum_near(a.x, b.x);
    lemma_sum_near(a.y, b.y);
}

/// Subtracting places subtracts their coordinates, each on its own axis.
pub proof fn law_places_subtract(a: Place, b: Place)
    requires
        reachable_place(a),
        reachable_place(b),
    ensures
        a.minus(b).x is Finite,
        a.minus(b).y is Finite,
        near(a.minus(b).x.value(), a.x.value() - b.x.value()),
        near(a.minus(b).y.value(), a.y.value() - b.y.value()),
{
    lemma_difference_near(a.x, b.x);
    lemma_difference_near(a.y, b.y);
}

/// A scale that is positive, by which a coordinate can be divided without
/// leaving the reach of pixels.
pub open spec fn divides(scale: Float, a: Float) -> bool {
    &&& scale is Finite
    &&& scale.value() > 0
    &&& a is Finite
    &&& -(scale.value() * (0x8000_0000 * pixel())) <= a.value() * pixel() <= scale.value() * (
    0x8000_0000 * pixel())
}

pub proof fn lemma_quotient_near(a: Float, scale: Float)
    requires
        divides(scale, a),
    ensures
        ({
            let q = quotient(Format::Binary64, a, scale);
            &&& q is Finite
            &&& q.valid(Format::Binary64)
            &&& -(scale.value() * hair()) <= 2 * (q.value() * scale.value() - a.value() * pixel())
                <= scale.value() * hair()
            &&& -(0x8000_0000 * pixel() + hair()) <= q.value() <= 0x8000_0000 * pixel() + hair()
        }),
{
    let format = Format::Binary64;
    lemma_hair();
    lemma_pow2_pos(1074);
    let (s, n, unit) = (scale.units(), a.units(), pow2(1074));
    let negative = a.is_negative() != scale.is_negative();
    assert(scale.value() == s && !scale.is_negative());
    assert((-a.value()) * pixel() == -(a.value() * pixel())) by (nonlinear_arith);
    assert(n * unit <= s * (0x8000_0000 * unit));
    assert(s * (0x8000_0000 * unit) < s * pow2(1107)) by (nonlinear_arith)
        requires
            s > 0,
            0x8000_0000 * unit < pow2(1107),
    ;
    lemma_ratio_error(format, negative, n * unit, s, 1054);
    let q = quotient(format, a, scale);
    let u = q.units();
    assert((-(u as int)) * s == -(u * s)) by (nonlinear_arith);
    let (bound, h) = (0x8000_0000 * unit, pow2(1054));
    assert(u <= bound + h) by (nonlinear_arith)
        requires
            2 * (u * s - n * unit) <= s * h,
            n * unit <= s * bound,
            s > 0,
    ;
}

/// Dividing by the scale and multiplying by it again leads back: a logical place
/// times the scale is the physical one, on each axis.
pub proof fn law_logical_times_scale_is_physical(place: Place, scale: Float)
    requires
        divides(scale, place.x),
        divides(scale, place.y),
    ensures
        ({
            let logical = place.to_logical(scale);
            let s = scale.value();
            &&& logical.x is Finite
            &&& logical.y is Finite
            &&& -(s * hair()) <= 2 * (logical.x.value() * s - place.x.value() * pixel()) <= s
                * hair()
            &&& -(s * hair()) <= 2 * (logical.y.value() * s - place.y.value() * pixel()) <= s
                * hair()
        }),
{
    lemma_quotient_near(place.x, scale);
    lemma_quotient_near(place.y, scale);
}

/// The product of two coordinates stays within the reach of pixels.
pub open spec fn multiplies(scale: Float, a: Float) -> bool {
    &&& scale is Finite
    &&& a is Finite
    &&& a.units() * scale.units() <= (0x8000_0000 * pixel()) * pixel()
}

pub proof fn lemma_product_near(a: Float, b: Float)
    requires
        multiplies(b, a),
    ensures
        ({
            let r = product(Format::Binary64, a, b);
            &&& r is Finite
            &&& r.valid(Format::Binary64)
            &&& -(pixel() * hair()) <= 2 * (r.value() * pixel() - a.value() * b.value()) <= pixel()
                * hair()
        }),
{
    let format = Format::Binary64;
    lemma_hair();
    lemma_pow2_pos(1074);
    let (n, unit) = (a.units() * b.units(), pow2(1074));
    let negative = a.is_negative() != b.is_negative();
    let bound = 0x8000_0000 * unit;
    assert(n < unit * pow2(1107)) by (nonlinear_arith)
        requires
            n <= bound * unit,
            bound < pow2(1107),
            unit > 0,
    ;
    lemma_ratio_error(format, negative, n, unit, 1054);
    let u = product(format, a, b).units();
    assert((-(u as int)) * unit == -(u * unit)) by (nonlinear_arith);
    let (x, y) = (a.units() as int, b.units() as int);
    assert((-x) * y == -(x * y) && x * (-y) == -(x * y) && (-x) * (-y) == x * y)
        by (nonlinear_arith);
}

/// A physical place is the logical one times the scale, on each axis.
pub proof fn law_physical_is_logical_times_scale(place: Place, scale: Float)
    requires
        multiplies(scale, place.x),
        multiplies(scale, place.y),
    ensures
        ({
            let physical = place.to_physical(scale);
            let s = scale.value();
            let slack = pixel() * hair();
            &&& physical.x is Finite
            &&& physical.y is Finite
            &&& -slack <= 2 * (physical.x.value() * pixel() - place.x.value() * s) <= slack
            &&& -slack <= 2 * (physical.y.value() * pixel() - place.y.value() * s) <= slack
        }),
{
    lemma_product_near(place.x, scale);
    lemma_product_near(place.y, scale);
}

pub proof fn lemma_nearest_half(a: Float)
    requires
        a is Finite,
        i32::MIN * pixel() <= a.value() <= i32::MAX * pixel(),
    ensures
        -pixel() <= 2 * (nearest_i32(Format::Binary64, a) * pixel() - a.value()) <= pixel(),
{
    let unit = pow2(1074);
    lemma_pow2_pos(1074);
    let n = 2 * a.units() + unit;
    let q = whole_nearest(Format::Binary64, a) as int;
    vstd::arithmetic::div_mod::lemma_fundamental_div_mod(n as int, (2 * unit) as int);
    vstd::arithmetic::div_mod::lemma_mod_bound(n as int, (2 * unit) as int);
    assert((2 * unit) * q == 2 * (q * unit)) by (nonlinear_arith);
    assert((-q) * unit == -(q * unit)) by (nonlinear_arith);
    if a.is_negative() {
        assert(q <= 0x8000_0000) by (nonlinear_arith)
            requires
                2 * (q * unit) <= 2 * (0x8000_0000 * unit) + unit,
                unit > 0,
        ;
    } else {
        assert(q <= 0x7fff_ffff) by (nonlinear_arith)
            requires
                2 * (q * unit) <= 2 * (0x7fff_ffff * unit) + unit,
                unit > 0,
        ;
    }
}

/// The nearest place on the grid is at most half a pixel away on each axis.
pub proof fn law_rounding_is_to_the_nearest_pixel(place: Place)
    requires
        place.x is Finite,
        place.y is Finite,
        i32::MIN * pixel() <= place.x.value() <= i32::MAX * pixel(),
        i32::MIN * pixel() <= place.y.value() <= i32::MAX * pixel(),
    ensures
        -pixel() <= 2 * (place.rounded().x * pixel() - place.x.value()) <= pixel(),
        -pixel() <= 2 * (place.rounded().y * pixel() - place.y.value()) <= pixel(),
{
    lemma_nearest_half(place.x);
    lemma_nearest_half(place.y);
}

/// Cutting off leads toward zero, by less than one.
pub proof fn lemma_truncated_toward_zero(a: Float)
    requires
        a is Finite,
        i32::MIN * pixel() <= a.value() <= i32::MAX * pixel(),
    ensures
        ({
            let n = truncated(Format::Binary64, a);
            &&& a.value() >= 0 ==> 0 <= n && n * pixel() <= a.value() < n * pixel() + pixel()
            &&& a.value() <= 0 ==> n <= 0 && n * pixel() - pixel() < a.value() <= n * pixel()
        }),
{
    let unit = pow2(1074);
    lemma_pow2_pos(1074);
    let n = a.units();
    let q = whole_part(Format::Binary64, a) as int;
    vstd::arithmetic::div_mod::lemma_fundamental_div_mod(n as int, unit as int);
    vstd::arithmetic::div_mod::lemma_mod_bound(n as int, unit as int);
    assert(unit * q == q * unit) by (nonlinear_arith);
    assert((-q) * unit == -(q * unit)) by (nonlinear_arith);
    if n == 0 {
        assert(q == 0) by (nonlinear_arith)
            requires
                q * unit <= 0,
                q >= 0,
                unit > 0,
        ;
        assert(0 * unit == 0);
    }
    if a.is_negative() {
        assert(q <= 0x8000_0000) by (nonlinear_arith)
            requires
                q * unit <= 0x8000_0000 * unit,
                unit > 0,
        ;
    } else {
        assert(q <= 0x7fff_ffff) by (nonlinear_arith)
            requires
                q * unit <= 0x7fff_ffff * unit,
                unit > 0,
        ;
    }
}

/// Whole coordinates are reachable.
pub proof fn lemma_integer_reachable(n: i32)
    ensures
        reachable(double(n as int)),
        double(n as int).value() == n * pixel(),
{
    lemma_pow2_values();
    lemma_hair();
    lemma_integer_exact(Format::Binary64, n as int);
    let unit = pixel();
    assert(-(0x8000_0000 * unit) <= n * unit <= 0x8000_0000 * unit) by (nonlinear_arith)
        requires
            -0x8000_0000 <= n <= 0x8000_0000,
            unit > 0,
    ;
}

} // verus!
