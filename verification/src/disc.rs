//! What the button images look like: a disc, symmetric about its middle, fading
//! at its edge.

use vstd::arithmetic::power2::*;
use vstd::prelude::*;

use crate::decorations::{
    circle_center, circle_distance, circle_offset, circle_pixel, circle_radius, circle_rim,
    edge_alpha, one_half, single,
};
use crate::geometry::abs;
use crate::ieee::arith::{
    difference, lemma_negation, lemma_product_valid, lemma_zero_valid, negation, product, quotient,
    sum,
};
use crate::ieee::cell::lemma_pow2_ordered;
use crate::ieee::exact::{
    lemma_integer_exact, lemma_packed_units, lemma_rounded_exact, lemma_rounded_monotone,
    lemma_rounded_ratio, lemma_rounded_value_exact, lemma_rounding_error,
};
use crate::ieee::format::{Float, Format};
use crate::ieee::order::at_most;
use crate::ieee::root::{
    is_root_scale, lemma_rounded_root, lemma_square_ordered, lemma_square_strict,
    lemma_square_times, nearest_root, rounded_root, square,
};
use crate::ieee::rounding::{lemma_pow2_values, rounded};

verus! {

/// Twice the distance on one axis from the middle of the pixel to the middle of
/// the image.
pub open spec fn twice_offset(size: u32, position: int) -> int {
    2 * position - size + 1
}

/// Four times the square of the distance to the middle of the image.
pub open spec fn spread(size: u32, x: int, y: int) -> int {
    twice_offset(size, x) * twice_offset(size, x) + twice_offset(size, y) * twice_offset(size, y)
}

/// The number is `n` halves, exactly.
spec fn is_halves(a: Float, n: int) -> bool {
    &&& a is Finite
    &&& a.valid(Format::Binary32)
    &&& a.value() == n * pow2(148)
}

proof fn lemma_half_of(n: nat)
    requires
        n < 0x100_0000,
    ensures
        is_halves(quotient(Format::Binary32, single(n as int), single(2)), n as int),
{
    let format = Format::Binary32;
    lemma_pow2_values();
    lemma_integer_exact(format, n as int);
    lemma_integer_exact(format, 2);
    lemma_pow2_unfold(149);
    lemma_pow2_pos(149);
    lemma_pow2_pos(148);
    let (unit, half) = (pow2(149), pow2(148));
    // n units of one over two units of one: halves.
    assert((n * unit) * unit == (n * half) * (2 * unit)) by (nonlinear_arith)
        requires
            unit == 2 * half,
    ;
    assert(1 * (2 * unit) == 2 * unit);
    lemma_rounded_ratio(format, false, n * half, 1, 2 * unit);
    lemma_rounded_exact(format, false, n, 148);
}

/// Adding and subtracting halves is exact while they stay small.
proof fn lemma_sum_of_halves(a: Float, b: Float, m: int, n: int)
    requires
        is_halves(a, m),
        is_halves(b, n),
        -0x100_0000 < m + n < 0x100_0000,
    ensures
        is_halves(sum(Format::Binary32, a, b), m + n),
{
    lemma_pow2_values();
    let half = pow2(148);
    assert(m * half + n * half == (m + n) * half) by (nonlinear_arith);
    let k = m + n;
    assert((-k) * half == -(k * half)) by (nonlinear_arith);
    lemma_rounded_value_exact(
        Format::Binary32,
        k * half,
        a.is_negative() && b.is_negative(),
        abs(k) as nat,
        148,
    );
}

proof fn lemma_difference_of_halves(a: Float, b: Float, m: int, n: int)
    requires
        is_halves(a, m),
        is_halves(b, n),
        -0x100_0000 < m - n < 0x100_0000,
    ensures
        is_halves(difference(Format::Binary32, a, b), m - n),
{
    lemma_negation(Format::Binary32, b);
    assert(-(n * pow2(148)) == (-n) * pow2(148)) by (nonlinear_arith);
    lemma_sum_of_halves(a, negation(b), m, -n);
}

proof fn lemma_whole_in_halves(n: int)
    requires
        -0x80_0000 < n < 0x80_0000,
    ensures
        is_halves(single(n), 2 * n),
{
    lemma_pow2_values();
    lemma_integer_exact(Format::Binary32, n);
    lemma_pow2_unfold(149);
    assert(n * (2 * pow2(148)) == (2 * n) * pow2(148)) by (nonlinear_arith);
}

/// The center, the radius, the rim and the offsets are exact.
proof fn lemma_offsets(size: u32, position: int)
    requires
        size <= 0x7fff,
        0 <= position < size,
    ensures
        is_halves(circle_offset(size, position), twice_offset(size, position)),
        is_halves(circle_radius(size), size - 1),
        is_halves(circle_rim(size), size + 1),
{
    lemma_half_of(size as nat);
    lemma_half_of(1);
    lemma_whole_in_halves(position);
    lemma_whole_in_halves(1);
    let center = circle_center(size);
    lemma_difference_of_halves(center, one_half(), size as int, 1);
    lemma_sum_of_halves(circle_radius(size), single(1), size - 1, 2);
    lemma_difference_of_halves(single(position), center, 2 * position, size as int);
    lemma_sum_of_halves(
        difference(Format::Binary32, single(position), center),
        one_half(),
        2 * position - size,
        1,
    );
}

/// The image is the same mirrored left to right, top to bottom, and along its
/// diagonal.
pub proof fn law_circle_is_symmetric(size: u32, color: [u8; 4], x: int, y: int)
    requires
        size * size * 4 <= u32::MAX,
        0 <= x < size,
        0 <= y < size,
    ensures
        circle_pixel(size, color, size - 1 - x, y) == circle_pixel(size, color, x, y),
        circle_pixel(size, color, x, size - 1 - y) == circle_pixel(size, color, x, y),
        circle_pixel(size, color, y, x) == circle_pixel(size, color, x, y),
{
    assert(size <= 0x7fff) by (nonlinear_arith)
        requires
            size * size * 4 <= 0xffff_ffff,
    ;
    lemma_mirrored(size, x);
    lemma_mirrored(size, y);
    let dx = circle_offset(size, x);
    let dy = circle_offset(size, y);
    lemma_product_valid(Format::Binary32, dx, dx);
    lemma_product_valid(Format::Binary32, dy, dy);
}

/// The squared offset does not tell a position from its mirror image.
proof fn lemma_mirrored(size: u32, position: int)
    requires
        size <= 0x7fff,
        0 <= position < size,
    ensures
        ({
            let a = circle_offset(size, position);
            let b = circle_offset(size, size - 1 - position);
            product(Format::Binary32, b, b) == product(Format::Binary32, a, a)
        }),
{
    lemma_offsets(size, position);
    lemma_offsets(size, size - 1 - position);
    let n = twice_offset(size, position);
    assert(twice_offset(size, size - 1 - position) == -n);
    assert((-n) * pow2(148) == -(n * pow2(148))) by (nonlinear_arith);
    let a = circle_offset(size, position);
    let b = circle_offset(size, size - 1 - position);
    assert(a.units() == b.units());
}

/// The square of a small number of halves is exact.
proof fn lemma_square_of_halves(a: Float, n: int)
    requires
        is_halves(a, n),
        -4096 <= n <= 4096,
    ensures
        product(Format::Binary32, a, a) is Finite,
        product(Format::Binary32, a, a).valid(Format::Binary32),
        product(Format::Binary32, a, a).value() == (n * n) * pow2(147),
{
    let format = Format::Binary32;
    lemma_pow2_values();
    let m = abs(n) as nat;
    let (unit, half, quarter) = (pow2(149), pow2(148), pow2(147));
    lemma_pow2_unfold(149);
    lemma_pow2_unfold(148);
    lemma_pow2_pos(149);
    assert(n * n == m * m) by (nonlinear_arith)
        requires
            m == n || m == -n,
    ;
    assert((-n) * half == -(n * half)) by (nonlinear_arith);
    assert(a.units() == m * half);
    assert((m * half) * (m * half) == ((m * m) * quarter) * unit) by (nonlinear_arith)
        requires
            half == 2 * quarter,
            unit == 2 * half,
    ;
    lemma_rounded_ratio(format, false, (m * m) * quarter, 1, unit);
    if m == 4096 {
        assert(m * m == 0x100_0000) by (nonlinear_arith)
            requires
                m == 4096,
        ;
        assert((m * m) * quarter == 0x80_0000 * half) by (nonlinear_arith)
            requires
                m * m == 0x100_0000,
                half == 2 * quarter,
        ;
        lemma_rounded_exact(format, false, 0x80_0000, 148);
    } else {
        assert(m * m < 0x100_0000) by (nonlinear_arith)
            requires
                m < 4096,
        ;
        lemma_rounded_exact(format, false, m * m, 147);
    }
}

/// The sum of the two squares is exact: it is even, as both offsets are even or
/// both odd.
proof fn lemma_spread(size: u32, x: int, y: int)
    requires
        size <= 4097,
        0 <= x < size,
        0 <= y < size,
    ensures
        ({
            let dx = circle_offset(size, x);
            let dy = circle_offset(size, y);
            let s = sum(
                Format::Binary32,
                product(Format::Binary32, dx, dx),
                product(Format::Binary32, dy, dy),
            );
            &&& s is Finite
            &&& s.valid(Format::Binary32)
            &&& s.value() == spread(size, x, y) * pow2(147)
        }),
        0 <= spread(size, x, y) <= 0x200_0000,
        spread(size, x, y) % 2 == 0,
        size % 2 == 1 ==> spread(size, x, y) % 4 == 0,
{
    let format = Format::Binary32;
    let m = twice_offset(size, x);
    let n = twice_offset(size, y);
    let total = spread(size, x, y);
    lemma_offsets(size, x);
    lemma_offsets(size, y);
    let dx = circle_offset(size, x);
    let dy = circle_offset(size, y);
    lemma_square_of_halves(dx, m);
    lemma_square_of_halves(dy, n);
    lemma_parity(m);
    lemma_parity(n);
    assert(0 <= m * m <= 0x100_0000) by (nonlinear_arith)
        requires
            -4096 <= m <= 4096,
    ;
    assert(0 <= n * n <= 0x100_0000) by (nonlinear_arith)
        requires
            -4096 <= n <= 4096,
    ;
    let (unit, half, quarter) = (pow2(149), pow2(148), pow2(147));
    lemma_pow2_values();
    lemma_pow2_unfold(149);
    lemma_pow2_unfold(148);
    assert((m * m) * quarter + (n * n) * quarter == total * quarter) by (nonlinear_arith)
        requires
            total == m * m + n * n,
    ;
    let a = product(format, dx, dx);
    let b = product(format, dy, dy);
    let zero_negative = a.is_negative() && b.is_negative();
    if total < 0x200_0000 {
        let c = total / 2;
        assert(total * quarter == c * half) by (nonlinear_arith)
            requires
                total == 2 * c,
                half == 2 * quarter,
        ;
        lemma_rounded_value_exact(format, total * quarter, zero_negative, c as nat, 148);
    } else {
        assert(total * quarter == 0x80_0000 * unit) by (nonlinear_arith)
            requires
                total == 0x200_0000,
                unit == 4 * quarter,
        ;
        lemma_rounded_value_exact(format, total * quarter, zero_negative, 0x80_0000, 149);
    }
}

proof fn lemma_parity(n: int)
    ensures
        n % 2 == 0 ==> (n * n) % 4 == 0,
        n % 2 == 1 ==> (n * n) % 4 == 1,
{
    let q = n / 2;
    if n % 2 == 0 {
        assert(n * n == 4 * (q * q)) by (nonlinear_arith)
            requires
                n == 2 * q,
        ;
    } else {
        assert(n * n == 4 * (q * q + q) + 1) by (nonlinear_arith)
            requires
                n == 2 * q + 1,
        ;
    }
}

/// Comparing the rounded distance with a number of halves is comparing the
/// squares.
proof fn lemma_distance_at_most(size: u32, x: int, y: int, limit: Float, t: nat)
    requires
        size <= 4097,
        0 <= x < size,
        0 <= y < size,
        is_halves(limit, t as int),
        t <= 4096,
        t % 2 != size as int % 2,
    ensures
        at_most(circle_distance(size, x, y), limit) <==> spread(size, x, y) <= t * t,
{
    let format = Format::Binary32;
    let total = spread(size, x, y);
    lemma_spread(size, x, y);
    let dx = circle_offset(size, x);
    let dy = circle_offset(size, y);
    let s = sum(format, product(format, dx, dx), product(format, dy, dy));
    let half = pow2(148);
    lemma_pow2_pos(148);
    lemma_pow2_pos(147);
    assert(t * half >= 0) by (nonlinear_arith);
    assert(t * t >= 0) by (nonlinear_arith);
    if total == 0 {
        assert(0 * pow2(147) == 0);
        assert(s.units() == 0);
    } else {
        assert(total * pow2(147) > 0) by (nonlinear_arith)
            requires
                total > 0,
                pow2(147) > 0,
        ;
        assert(s.units() == total * pow2(147));
        let n = s.units() * pow2(149);
        lemma_pow2_adds(147, 149);
        lemma_pow2_adds(148, 148);
        assert(n == total * square(half)) by (nonlinear_arith)
            requires
                n == (total * pow2(147)) * pow2(149),
                pow2(296) == pow2(147) * pow2(149),
                pow2(296) == square(half),
        ;
        let (k, m) = lemma_rounded_root(format, n);
        lemma_root_versus(total as nat, n, k, m, t, size % 2 == 1);
        lemma_packed_units(format, false, m, k);
        assert(limit.units() == t * half);
        let distance = circle_distance(size, x, y);
        assert(distance.units() == m * pow2(k));
        assert(distance.value() == m * pow2(k));
    }
}

proof fn lemma_root_versus(total: nat, n: nat, k: nat, m: nat, t: nat, fours: bool)
    requires
        0 < total <= 0x200_0000,
        t <= 4096,
        n == total * square(pow2(148)),
        is_root_scale(24, n, k),
        nearest_root(n, square(pow2(k)), m),
        fours ==> total % 4 == 0 && t % 2 == 0,
        !fours ==> t % 2 == 1,
    ensures
        k <= 137,
        m * pow2(k) <= t * pow2(148) <==> total <= t * t,
{
    let half = pow2(148);
    lemma_pow2_values();
    lemma_pow2_pos(148);
    // The scale is below that of the halves.
    if k > 137 {
        lemma_pow2_ordered(161, (24 + k - 1) as nat);
        lemma_square_ordered(pow2(161), pow2((24 + k - 1) as nat));
        lemma_pow2_adds(13, 148);
        lemma2_to64();
        lemma_square_times(pow2(13), half);
        let c = square(half);
        lemma_square_strict(0, half);
        assert(square(pow2(13)) == 0x400_0000);
        assert(total * c < 0x400_0000 * c) by (nonlinear_arith)
            requires
                total < 0x400_0000,
                c > 0,
        ;
    }
    let shift = (148 - k) as nat;
    let step = pow2(k);
    let units = pow2(shift);
    lemma_pow2_adds(shift, k);
    lemma_pow2_pos(k);
    lemma_pow2_pos(shift);
    let limit = t * units;
    let c = square(step);
    lemma_square_strict(0, step);
    assert(t * half == limit * step) by (nonlinear_arith)
        requires
            half == units * step,
            limit == t * units,
    ;
    lemma_square_times(units, step);
    // n in squares of the step
    let w = square(units);
    assert(n == (total * w) * c) by (nonlinear_arith)
        requires
            n == total * square(half),
            square(half) == w * c,
    ;
    assert(square(limit) == (t * t) * w) by (nonlinear_arith)
        requires
            limit == t * units,
            square(limit) == limit * limit,
            w == units * units,
    ;
    if total <= t * t {
        assert(total * w <= (t * t) * w) by (nonlinear_arith)
            requires
                total <= t * t,
        ;
        if m > limit {
            lemma_square_times(2, limit);
            lemma_square_strict(2 * limit, (2 * m - 1) as nat);
            assert(square(2) == 4);
            let (p, q) = (square((2 * m - 1) as nat), square(limit));
            assert(p * c > 4 * ((total * w) * c)) by (nonlinear_arith)
                requires
                    p > 4 * q,
                    q >= total * w,
                    c > 0,
            ;
        }
        assert(m * step <= limit * step) by (nonlinear_arith)
            requires
                m <= limit,
        ;
    } else if m <= limit {
        lemma_square_ordered(2 * m + 1, 2 * limit + 1);
        let p = square(2 * m + 1);
        assert(4 * ((total * w) * c) <= p * c);
        assert(4 * (total * w) <= p) by (nonlinear_arith)
            requires
                4 * ((total * w) * c) <= p * c,
                c > 0,
        ;
        assert(square(2 * limit + 1) == 4 * square(limit) + 4 * limit + 1) by (nonlinear_arith)
            requires
                square(2 * limit + 1) == (2 * limit + 1) * (2 * limit + 1),
                square(limit) == limit * limit,
        ;
        let excess = total - t * t;
        assert(total * w == (t * t) * w + excess * w) by (nonlinear_arith)
            requires
                excess == total - t * t,
        ;
        assert(4 * (excess * w) <= 4 * limit + 1);
        // The scale is fixed by the magnitude of the limit.
        lemma_scale_below_limit(total, n, k, t, units, limit, w, c);
        assert(excess * w <= t * units);
        assert(excess * units <= t) by (nonlinear_arith)
            requires
                excess * w <= t * units,
                w == units * units,
                units > 0,
        ;
        lemma_parity(t as int);
        if fours {
            assert(excess >= 4);
            assert(4 * units <= excess * units) by (nonlinear_arith)
                requires
                    excess >= 4,
            ;
        } else {
            assert(units <= excess * units) by (nonlinear_arith)
                requires
                    excess >= 1,
            ;
        }
    } else {
        assert(m * step > limit * step) by (nonlinear_arith)
            requires
                m > limit,
                step > 0,
        ;
    }
}

/// A root that rounds to no more than the limit is small enough for the halves
/// to be resolved.
proof fn lemma_scale_below_limit(
    total: nat,
    n: nat,
    k: nat,
    t: nat,
    units: nat,
    limit: nat,
    w: nat,
    c: nat,
)
    requires
        k <= 148,
        t <= 4096,
        units == pow2((148 - k) as nat),
        limit == t * units,
        w == square(units),
        c == square(pow2(k)),
        n == (total * w) * c,
        is_root_scale(24, n, k),
        4 * (total * w) <= square(2 * limit + 1),
    ensures
        t <= 4095 ==> units >= 4096,
        units >= 2048,
{
    lemma2_to64();
    lemma_pow2_pos(k);
    if k > 0 {
        let step = pow2(k);
        lemma_square_strict(0, step);
        lemma_pow2_adds(23, k);
        assert((24 + k - 1) as nat == 23 + k);
        lemma_square_times(0x80_0000, step);
        assert(square(0x80_0000) <= total * w) by (nonlinear_arith)
            requires
                square(0x80_0000) * c <= (total * w) * c,
                c > 0,
        ;
        lemma_square_times(2, 0x80_0000);
        assert(square(2) == 4);
        if 2 * limit + 1 < 0x100_0000 {
            lemma_square_strict(2 * limit + 1, 0x100_0000);
        }
        assert(limit >= 0x80_0000);
        if (148 - k) as nat <= 11 {
            lemma_pow2_ordered((148 - k) as nat, 11);
            if t <= 4095 {
                assert(limit <= 4095 * 2048) by (nonlinear_arith)
                    requires
                        limit == t * units,
                        t <= 4095,
                        units <= 2048,
                ;
            }
        } else {
            lemma_pow2_ordered(12, (148 - k) as nat);
        }
        if (148 - k) as nat <= 10 {
            lemma_pow2_ordered((148 - k) as nat, 10);
            assert(limit <= 4096 * 1024) by (nonlinear_arith)
                requires
                    limit == t * units,
                    t <= 4096,
                    units <= 1024,
            ;
        } else {
            lemma_pow2_ordered(11, (148 - k) as nat);
        }
    } else {
        lemma_pow2_ordered(12, 148);
    }
}

/// The image shows a disc: a pixel has the full color exactly where its middle
/// is within the radius, counted in halves from the middle of the image.
pub proof fn law_circle_interior(size: u32, color: [u8; 4], x: int, y: int)
    requires
        size <= 4097,
        0 <= x < size,
        0 <= y < size,
    ensures
        at_most(circle_distance(size, x, y), circle_radius(size)) <==> spread(size, x, y) <= (size
            - 1) * (size - 1),
        spread(size, x, y) <= (size - 1) * (size - 1) ==> circle_pixel(size, color, x, y)
            == color@,
{
    lemma_offsets(size, x);
    lemma_distance_at_most(size, x, y, circle_radius(size), (size - 1) as nat);
}

/// Beyond one pixel outside the radius the image is transparent, and in between
/// it has the color with the alpha of the edge.
pub proof fn law_circle_exterior(size: u32, color: [u8; 4], x: int, y: int)
    requires
        size <= 4095,
        0 <= x < size,
        0 <= y < size,
    ensures
        spread(size, x, y) > (size + 1) * (size + 1) ==> circle_pixel(size, color, x, y)
            == seq![0u8, 0, 0, 0],
        (size - 1) * (size - 1) < spread(size, x, y) <= (size + 1) * (size + 1) ==> circle_pixel(
            size,
            color,
            x,
            y,
        ) == color@.update(3, edge_alpha(size, circle_distance(size, x, y), color[3])),
{
    lemma_offsets(size, x);
    lemma_distance_at_most(size, x, y, circle_radius(size), (size - 1) as nat);
    lemma_distance_at_most(size, x, y, circle_rim(size), (size + 1) as nat);
    assert((size - 1) * (size - 1) <= (size + 1) * (size + 1)) by (nonlinear_arith);
}

/// What is left to the rim times the alpha, each rounded.
spec fn faded(rest: nat, alpha: nat) -> nat {
    let format = Format::Binary32;
    rounded(format, false, rounded(format, false, rest, 1).units() * alpha, 1).units()
}

/// Less left to the rim fades more, and a whole pixel left does not fade.
proof fn lemma_faded(rest: nat, more: nat, alpha: nat)
    requires
        rest <= more <= pow2(149),
        alpha <= 255,
    ensures
        faded(rest, alpha) <= faded(more, alpha) <= alpha * pow2(149),
        rounded(Format::Binary32, false, rest, 1) is Finite,
        !rounded(Format::Binary32, false, rest, 1).is_negative(),
        rounded(Format::Binary32, false, rounded(Format::Binary32, false, rest, 1).units() * alpha, 1)
            is Finite,
        !rounded(
            Format::Binary32,
            false,
            rounded(Format::Binary32, false, rest, 1).units() * alpha,
            1,
        ).is_negative(),
{
    let format = Format::Binary32;
    let unit = pow2(149);
    lemma_pow2_values();
    lemma2_to64();
    lemma_pow2_pos(149);
    lemma_pow2_adds(8, 149);
    lemma_pow2_ordered(149, 157);
    assert(24 + 133 == 157nat);
    assert(alpha * unit < 256 * unit) by (nonlinear_arith)
        requires
            alpha <= 255,
            unit > 0,
    ;
    assert(1 * unit == unit);
    lemma_pow2_strictly_increases(149, 157);
    lemma_rounded_exact(format, false, 1, 149);
    lemma_rounded_monotone(format, false, rest, more, 133);
    lemma_rounded_monotone(format, false, more, unit, 133);
    lemma_rounding_error(format, false, rest, 133);
    let u = rounded(format, false, rest, 1).units();
    let v = rounded(format, false, more, 1).units();
    assert(u * alpha <= v * alpha) by (nonlinear_arith)
        requires
            u <= v,
    ;
    assert(v * alpha <= alpha * unit) by (nonlinear_arith)
        requires
            v <= unit,
    ;
    lemma_rounded_exact(format, false, alpha, 149);
    lemma_rounded_monotone(format, false, u * alpha, v * alpha, 133);
    lemma_rounded_monotone(format, false, v * alpha, alpha * unit, 133);
    lemma_rounding_error(format, false, u * alpha, 133);
}

/// The alpha on the edge is the faded one, cut off.
proof fn lemma_edge_alpha(size: u32, distance: Float, alpha: u8)
    requires
        is_halves(circle_rim(size), size + 1),
        distance is Finite,
        0 <= circle_rim(size).value() - distance.value() <= pow2(149),
    ensures
        edge_alpha(size, distance, alpha) == faded(
            (circle_rim(size).value() - distance.value()) as nat,
            alpha as nat,
        ) / pow2(149),
        edge_alpha(size, distance, alpha) <= alpha,
{
    let format = Format::Binary32;
    let unit = pow2(149);
    lemma_pow2_values();
    lemma_pow2_pos(149);
    lemma_pow2_pos(148);
    let rim = circle_rim(size);
    let rest = (rim.value() - distance.value()) as nat;
    lemma_faded(rest, rest, alpha as nat);
    lemma_negation(format, distance);
    assert((size + 1) * pow2(148) > 0) by (nonlinear_arith)
        requires
            pow2(148) > 0,
    ;
    assert(!rim.is_negative());
    let left = difference(format, rim, distance);
    lemma_zero_valid(format, false);
    lemma_rounded_exact(format, false, 0, 0);
    assert(0 * pow2(0) == 0);
    assert(left is Finite && !left.is_negative());
    assert(left.units() == rounded(format, false, rest, 1).units());
    lemma_integer_exact(format, alpha as int);
    let full = single(alpha as int);
    assert(full.units() == alpha * unit) by {
        assert(alpha * unit >= 0) by (nonlinear_arith);
    }
    let u = left.units();
    assert(u * (alpha * unit) == (u * alpha) * unit) by (nonlinear_arith);
    assert(1 * unit == unit);
    lemma_rounded_ratio(format, false, u * alpha as nat, 1, unit);
    let part = faded(rest, alpha as nat);
    assert(part / unit <= alpha) by {
        vstd::arithmetic::div_mod::lemma_div_is_ordered(
            part as int,
            alpha * unit,
            unit as int,
        );
        vstd::arithmetic::div_mod::lemma_div_multiples_vanish(alpha as int, unit as int);
        assert(alpha * unit == unit * alpha) by (nonlinear_arith);
    }
}

/// On the edge at most a whole pixel is left to the rim.
proof fn lemma_on_edge(size: u32, distance: Float)
    requires
        0 < size <= 0x7fff,
        !at_most(distance, circle_radius(size)),
        at_most(distance, circle_rim(size)),
    ensures
        is_halves(circle_rim(size), size + 1),
        distance is Finite,
        0 <= circle_rim(size).value() - distance.value() <= pow2(149),
{
    lemma_offsets(size, 0);
    lemma_pow2_unfold(149);
    assert((size + 1) * pow2(148) == (size - 1) * pow2(148) + 2 * pow2(148)) by (nonlinear_arith);
}

/// The color is straight: a pixel is either nothing or has the channels of the
/// color, never mixed with its alpha, and no pixel has more alpha than the
/// color.
pub proof fn law_circle_color_is_straight(size: u32, color: [u8; 4], x: int, y: int)
    requires
        size * size * 4 <= u32::MAX,
        0 <= x < size,
        0 <= y < size,
    ensures
        ({
            let pixel = circle_pixel(size, color, x, y);
            &&& pixel.len() == 4
            &&& pixel[3] <= color[3]
            &&& pixel == seq![0u8, 0, 0, 0] || pixel.take(3) == color@.take(3)
        }),
{
    assert(size <= 0x7fff) by (nonlinear_arith)
        requires
            size * size * 4 <= 0xffff_ffff,
    ;
    let distance = circle_distance(size, x, y);
    let pixel = circle_pixel(size, color, x, y);
    if !at_most(distance, circle_radius(size)) && at_most(distance, circle_rim(size)) {
        lemma_on_edge(size, distance);
        lemma_edge_alpha(size, distance, color[3]);
        assert(pixel.take(3) =~= color@.take(3));
    }
}

/// The root of a larger number is not smaller, rounded.
proof fn lemma_rounded_root_monotone(a: nat, b: nat, top: nat)
    requires
        a <= b,
        b < square(pow2(24 + top)),
        top < 253,
    ensures
        rounded_root(Format::Binary32, a) is Finite,
        rounded_root(Format::Binary32, b) is Finite,
        !rounded_root(Format::Binary32, a).is_negative(),
        !rounded_root(Format::Binary32, b).is_negative(),
        rounded_root(Format::Binary32, a).units() <= rounded_root(Format::Binary32, b).units(),
{
    let format = Format::Binary32;
    lemma_pow2_values();
    let (j, m) = lemma_rounded_root(format, a);
    let (k, n) = lemma_rounded_root(format, b);
    lemma_root_scale_at_most(a, j, top);
    lemma_root_scale_at_most(b, k, top);
    lemma_packed_units(format, false, m, j);
    lemma_packed_units(format, false, n, k);
    if j > k {
        lemma_pow2_ordered(24 + k, (24 + j - 1) as nat);
        lemma_square_ordered(pow2(24 + k), pow2((24 + j - 1) as nat));
    } else if j == k {
        let c = square(pow2(k));
        lemma_pow2_pos(k);
        lemma_square_strict(0, pow2(k));
        if m > n {
            lemma_square_ordered(2 * n + 1, (2 * m - 1) as nat);
            let (p, q) = (square(2 * n + 1), square((2 * m - 1) as nat));
            assert(p * c <= q * c) by (nonlinear_arith)
                requires
                    p <= q,
            ;
            if 2 * n + 1 < 2 * m - 1 {
                lemma_square_strict(2 * n + 1, (2 * m - 1) as nat);
                assert(p * c < q * c) by (nonlinear_arith)
                    requires
                        p < q,
                        c > 0,
                ;
            }
            assert(m == n + 1);
        }
        assert(m * pow2(k) <= n * pow2(k)) by (nonlinear_arith)
            requires
                m <= n,
        ;
    } else {
        let step = pow2(k);
        lemma_pow2_pos(k);
        lemma_square_strict(0, step);
        let c = square(step);
        lemma_pow2_adds(23, k);
        assert((24 + k - 1) as nat == 23 + k);
        lemma2_to64();
        let low = pow2(23);
        lemma_square_times(low, step);
        assert(n >= low) by {
            if n < low {
                lemma_square_strict(2 * n + 1, 2 * low);
                lemma_square_times(2, low);
                assert(square(2) == 4);
                let (p, q) = (square(2 * n + 1), square(low));
                assert(p * c < 4 * (q * c)) by (nonlinear_arith)
                    requires
                        p < 4 * q,
                        c > 0,
                ;
            }
        }
        lemma_pow2_adds(24, j);
        lemma_pow2_ordered(24 + j, 23 + k);
        let wide = pow2(24);
        assert(m * pow2(j) <= wide * pow2(j)) by (nonlinear_arith)
            requires
                m <= wide,
        ;
        assert(low * step <= n * step) by (nonlinear_arith)
            requires
                low <= n,
        ;
    }
}

proof fn lemma_root_scale_at_most(n: nat, k: nat, top: nat)
    requires
        is_root_scale(24, n, k),
        n < square(pow2(24 + top)),
    ensures
        k <= top,
{
    if k > top {
        lemma_pow2_ordered(24 + top, (24 + k - 1) as nat);
        lemma_square_ordered(pow2(24 + top), pow2((24 + k - 1) as nat));
    }
}

/// A pixel farther out has no smaller distance, rounded.
proof fn lemma_distance_monotone(size: u32, x: int, y: int, other_x: int, other_y: int)
    requires
        size <= 4097,
        0 <= x < size,
        0 <= y < size,
        0 <= other_x < size,
        0 <= other_y < size,
        spread(size, x, y) <= spread(size, other_x, other_y),
    ensures
        circle_distance(size, x, y) is Finite,
        circle_distance(size, other_x, other_y) is Finite,
        circle_distance(size, x, y).value() <= circle_distance(size, other_x, other_y).value(),
{
    let (a, b) = (spread(size, x, y), spread(size, other_x, other_y));
    lemma_spread(size, x, y);
    lemma_spread(size, other_x, other_y);
    let (quarter, unit) = (pow2(147), pow2(149));
    lemma_pow2_pos(147);
    lemma_pow2_pos(149);
    lemma_pow2_values();
    assert(0 <= a * quarter <= b * quarter) by (nonlinear_arith)
        requires
            0 <= a <= b,
    ;
    assert(0 * quarter == 0);
    assert(a > 0 ==> a * quarter > 0) by (nonlinear_arith)
        requires
            quarter > 0,
    ;
    assert(b > 0 ==> b * quarter > 0) by (nonlinear_arith)
        requires
            quarter > 0,
    ;
    let (m, n) = ((a * quarter) as nat * unit, (b * quarter) as nat * unit);
    assert(m <= n) by (nonlinear_arith)
        requires
            m == (a * quarter) * unit,
            n == (b * quarter) * unit,
            a * quarter <= b * quarter,
    ;
    lemma_pow2_adds(147, 149);
    lemma_pow2_adds(148, 148);
    lemma_pow2_adds(13, 148);
    lemma2_to64();
    lemma_square_times(pow2(13), pow2(148));
    assert(square(pow2(13)) == 0x400_0000);
    lemma_pow2_pos(148);
    lemma_square_strict(0, pow2(148));
    let c = square(pow2(148));
    assert(n == b * c) by (nonlinear_arith)
        requires
            n == (b * quarter) * unit,
            c == quarter * unit,
    ;
    assert(b * c < 0x400_0000 * c) by (nonlinear_arith)
        requires
            b < 0x400_0000,
            c > 0,
    ;
    assert(24 + 137 == 161nat);
    lemma_rounded_root_monotone(m, n, 137);
}

/// Alpha never grows outward: of two pixels, the one farther from the middle of
/// the image has no more of it.
pub proof fn law_circle_fades_outward(
    size: u32,
    color: [u8; 4],
    x: int,
    y: int,
    other_x: int,
    other_y: int,
)
    requires
        size <= 4097,
        0 <= x < size,
        0 <= y < size,
        0 <= other_x < size,
        0 <= other_y < size,
        spread(size, x, y) <= spread(size, other_x, other_y),
    ensures
        circle_pixel(size, color, x, y)[3] >= circle_pixel(size, color, other_x, other_y)[3],
{
    assert(size * size <= 4097 * 4097) by (nonlinear_arith)
        requires
            size <= 4097,
    ;
    lemma_distance_monotone(size, x, y, other_x, other_y);
    lemma_offsets(size, x);
    let near = circle_distance(size, x, y);
    let far = circle_distance(size, other_x, other_y);
    let (radius, rim) = (circle_radius(size), circle_rim(size));
    law_circle_color_is_straight(size, color, other_x, other_y);
    if !at_most(near, radius) && at_most(far, rim) {
        lemma_on_edge(size, near);
        lemma_on_edge(size, far);
        lemma_edge_alpha(size, near, color[3]);
        lemma_edge_alpha(size, far, color[3]);
        let more = (rim.value() - near.value()) as nat;
        let rest = (rim.value() - far.value()) as nat;
        lemma_faded(rest, more, color[3] as nat);
        lemma_pow2_pos(149);
        vstd::arithmetic::div_mod::lemma_div_is_ordered(
            faded(rest, color[3] as nat) as int,
            faded(more, color[3] as nat) as int,
            pow2(149) as int,
        );
    }
}

/// The distance of a pixel is the root of the sum of the squares of its offsets:
/// four times its square is that of the doubled distance, give or take a
/// four-thousandth of a pixel.
pub proof fn law_circle_distance_is_the_root(size: u32, x: int, y: int)
    requires
        size <= 4097,
        0 <= x < size,
        0 <= y < size,
    ensures
        ({
            let distance = circle_distance(size, x, y);
            let (twice, step) = (2 * distance.value(), pow2(137) as int);
            let exact = 4 * (spread(size, x, y) * pow2(296));
            &&& distance is Finite
            &&& 0 <= distance.value()
            &&& exact <= (twice + step) * (twice + step)
            &&& twice >= step ==> (twice - step) * (twice - step) <= exact
        }),
{
    let format = Format::Binary32;
    let total = spread(size, x, y);
    lemma_spread(size, x, y);
    let (dx, dy) = (circle_offset(size, x), circle_offset(size, y));
    let s = sum(format, product(format, dx, dx), product(format, dy, dy));
    lemma_pow2_pos(147);
    lemma_pow2_pos(137);
    let wide = pow2(137);
    if total == 0 {
        assert(0 * pow2(147) == 0);
        assert(0 * pow2(296) == 0);
        assert(s.units() == 0);
        assert(wide * wide >= 0) by (nonlinear_arith);
    } else {
        assert(total * pow2(147) > 0) by (nonlinear_arith)
            requires
                total > 0,
                pow2(147) > 0,
        ;
        assert(s.units() == total * pow2(147));
        let n = s.units() * pow2(149);
        lemma_pow2_adds(147, 149);
        lemma_pow2_adds(148, 148);
        assert(n == total * pow2(296)) by (nonlinear_arith)
            requires
                n == (total * pow2(147)) * pow2(149),
                pow2(296) == pow2(147) * pow2(149),
        ;
        lemma_pow2_adds(13, 148);
        lemma2_to64();
        lemma_square_times(pow2(13), pow2(148));
        assert(square(pow2(13)) == 0x400_0000);
        let c = square(pow2(148));
        lemma_pow2_pos(148);
        lemma_square_strict(0, pow2(148));
        assert(total * c < 0x400_0000 * c) by (nonlinear_arith)
            requires
                total < 0x400_0000,
                c > 0,
        ;
        assert(24 + 137 == 161nat);
        let (k, m) = lemma_rounded_root(format, n);
        lemma_root_scale_at_most(n, k, 137);
        lemma_packed_units(format, false, m, k);
        let step = pow2(k);
        lemma_pow2_ordered(k, 137);
        lemma_square_times(2 * m + 1, step);
        let d = m * step;
        assert((2 * m + 1) * step == 2 * d + step) by (nonlinear_arith)
            requires
                d == m * step,
        ;
        lemma_square_ordered(2 * d + step, 2 * d + wide);
        if m > 0 {
            lemma_square_times((2 * m - 1) as nat, step);
            assert((2 * m - 1) * step == 2 * d - step) by (nonlinear_arith)
                requires
                    d == m * step,
            ;
            if 2 * d >= wide {
                lemma_square_ordered((2 * d - wide) as nat, (2 * d - step) as nat);
            }
        } else {
            assert(0 * step == 0);
        }
    }
}

/// The alpha on the edge is the share of the color's that is left to the rim,
/// cut off, give or take a thirty-thousandth.
pub proof fn law_edge_alpha_is_what_is_left(size: u32, color: [u8; 4], x: int, y: int)
    requires
        size * size * 4 <= u32::MAX,
        0 <= x < size,
        0 <= y < size,
        !at_most(circle_distance(size, x, y), circle_radius(size)),
        at_most(circle_distance(size, x, y), circle_rim(size)),
    ensures
        ({
            let left = circle_rim(size).value() - circle_distance(size, x, y).value();
            let (alpha, slack) = (circle_pixel(size, color, x, y)[3], pow2(134) as int);
            &&& circle_rim(size).value() == (size + 1) * pow2(148)
            &&& alpha * pow2(149) - slack <= left * color[3]
            &&& left * color[3] < alpha * pow2(149) + pow2(149) + slack
        }),
{
    assert(size <= 0x7fff) by (nonlinear_arith)
        requires
            size * size * 4 <= 0xffff_ffff,
    ;
    let format = Format::Binary32;
    let distance = circle_distance(size, x, y);
    let full = color[3] as nat;
    lemma_on_edge(size, distance);
    lemma_edge_alpha(size, distance, color[3]);
    let left = (circle_rim(size).value() - distance.value()) as nat;
    let unit = pow2(149);
    lemma_pow2_values();
    lemma2_to64();
    lemma_pow2_pos(149);
    lemma_pow2_adds(8, 149);
    lemma_pow2_adds(8, 126);
    lemma_pow2_unfold(134);
    lemma_pow2_strictly_increases(149, 150);
    assert(24 + 126 == 150nat && 24 + 133 == 157nat);
    lemma_faded(left, left, full);
    lemma_rounding_error(format, false, left, 126);
    let u = rounded(format, false, left, 1).units();
    assert(1 * unit == unit);
    lemma_rounded_exact(format, false, 1, 149);
    lemma_rounded_monotone(format, false, left, unit, 126);
    assert(u * full < 256 * unit) by (nonlinear_arith)
        requires
            u <= unit,
            full <= 255,
            unit > 0,
    ;
    lemma_rounding_error(format, false, u * full, 133);
    lemma_pow2_pos(126);
    let (f, e) = (faded(left, full), pow2(126) as int);
    assert(-(256 * e) <= 2 * (u * full) - 2 * (left * full) <= 256 * e) by (nonlinear_arith)
        requires
            -e <= 2 * (u - left) <= e,
            0 <= full <= 255,
            e > 0,
    ;
    vstd::arithmetic::div_mod::lemma_fundamental_div_mod(f as int, unit as int);
    vstd::arithmetic::div_mod::lemma_mod_bound(f as int, unit as int);
    let alpha = edge_alpha(size, distance, color[3]);
    assert(unit * (f / unit) == alpha * unit) by (nonlinear_arith)
        requires
            alpha == f / unit,
    ;
}

} // verus!
