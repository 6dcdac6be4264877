//! When arithmetic is exact, and how far off it can be when it is not.

use vstd::arithmetic::power2::*;
use vstd::prelude::*;

use crate::ieee::arith::{
    difference, lemma_negation, negation, product, quotient, rounded_value, sum,
};
use crate::ieee::cell::{lemma_pow2_ordered, lemma_times_ordered};
use crate::ieee::convert::from_integer;
use crate::ieee::format::{Float, Format};
use crate::ieee::order::lemma_larger_scale;
use crate::ieee::rounding::{
    lemma_nearest_exists, lemma_pow2_values, lemma_rounded, lemma_rounded_valid,
    lemma_scale_exists, nearest_even, packed, rounded,
};

verus! {

/// Rounding looks at the ratio alone.
pub proof fn lemma_rounded_ratio(format: Format, negative: bool, n: nat, d: nat, c: nat)
    requires
        d > 0,
        c > 0,
    ensures
        rounded(format, negative, n * c, d * c) == rounded(format, negative, n, d),
{
    let p = format.precision();
    let k = lemma_scale_exists(p, n, d);
    lemma_pow2_pos(k);
    let unit = d * pow2(k);
    assert(unit > 0) by (nonlinear_arith)
        requires
            unit == d * pow2(k),
            d > 0,
            pow2(k) > 0,
    ;
    let m = lemma_nearest_exists(n, unit);
    lemma_rounded(format, negative, n, d, k, m);
    let top = pow2(p + k);
    assert(n * c < (d * c) * top) by (nonlinear_arith)
        requires
            n < d * top,
            c > 0,
    ;
    if k > 0 {
        let low = pow2((p + k - 1) as nat);
        assert((d * c) * low <= n * c) by (nonlinear_arith)
            requires
                d * low <= n,
    ;
    }
    assert((d * c) * pow2(k) == unit * c) by (nonlinear_arith)
        requires
            unit == d * pow2(k),
    ;
    let gap = 2 * n - 2 * (m * unit);
    assert(2 * (n * c) - 2 * (m * (unit * c)) == gap * c) by (nonlinear_arith)
        requires
            gap == 2 * n - 2 * (m * unit),
    ;
    assert(-((unit * c) as int) <= gap * c <= unit * c) by (nonlinear_arith)
        requires
            -(unit as int) <= gap <= unit,
            c > 0,
    ;
    if gap * c == unit * c || gap * c == -(unit * c) {
        assert(gap == unit || gap == -(unit as int)) by (nonlinear_arith)
            requires
                gap * c == unit * c || gap * c == -(unit * c),
                c > 0,
        ;
    }
    assert(nearest_even(n * c, unit * c, m));
    assert(d * c > 0) by (nonlinear_arith)
        requires
            d > 0,
            c > 0,
    ;
    lemma_rounded(format, negative, n * c, d * c, k, m);
}

/// A magnitude that the format can hold is kept as it is.
pub proof fn lemma_rounded_exact(format: Format, negative: bool, m: nat, k: nat)
    requires
        m < pow2(format.precision()),
        k <= format.max_scale(),
    ensures
        rounded(format, negative, m * pow2(k), 1) is Finite,
        rounded(format, negative, m * pow2(k), 1).units() == m * pow2(k),
        rounded(format, negative, m * pow2(k), 1).is_negative() == negative,
        rounded(format, negative, m * pow2(k), 1).valid(format),
{
    let p = format.precision();
    let n = m * pow2(k);
    lemma_rounded_valid(format, negative, n, 1);
    lemma_pow2_values();
    let j = lemma_scale_exists(p, n, 1);
    lemma_pow2_pos(k);
    let power = pow2(k);
    let top = pow2(p);
    assert(m * power < top * power) by (nonlinear_arith)
        requires
            m < top,
            power > 0,
    ;
    lemma_pow2_adds(p, k);
    if j > k {
        lemma_pow2_ordered(p + k, (p + j - 1) as nat);
    }
    let shift = (k - j) as nat;
    lemma_pow2_adds(shift, j);
    let q = m * pow2(shift);
    assert(n == q * pow2(j)) by (nonlinear_arith)
        requires
            n == m * power,
            power == pow2(shift) * pow2(j),
            q == m * pow2(shift),
    ;
    lemma_pow2_pos(j);
    assert(1 * pow2(j) == pow2(j));
    assert(nearest_even(n, 1 * pow2(j), q));
    lemma_rounded(format, negative, n, 1, j, q);
    lemma_pow2_adds(p, j);
    let step = pow2(j);
    assert(q < top) by (nonlinear_arith)
        requires
            q * step < top * step,
    ;
    lemma_pow2_ordered(p, 53);
}

/// A number is determined by its sign and magnitude.
pub proof fn lemma_unique(format: Format, a: Float, b: Float)
    requires
        a is Finite,
        b is Finite,
        a.valid(format),
        b.valid(format),
        a.is_negative() == b.is_negative(),
        a.units() == b.units(),
    ensures
        a == b,
{
    let (x, j) = (a->significand as nat, a->scale as nat);
    let (y, k) = (b->significand as nat, b->scale as nat);
    let p = format.precision();
    if j < k {
        lemma_larger_scale(p, x, j, y, k);
    } else if k < j {
        lemma_larger_scale(p, y, k, x, j);
    } else {
        let power = pow2(j);
        lemma_pow2_pos(j);
        assert(x == y) by (nonlinear_arith)
            requires
                x * power == y * power,
                power > 0,
        ;
    }
}

/// Rounding a number of the format gives that number.
pub proof fn lemma_rounded_same(format: Format, a: Float)
    requires
        a is Finite,
        a.valid(format),
    ensures
        rounded(format, a.is_negative(), a.units(), 1) == a,
{
    let (x, j) = (a->significand as nat, a->scale as nat);
    lemma_rounded_exact(format, a.is_negative(), x, j);
    lemma_unique(format, rounded(format, a.is_negative(), a.units(), 1), a);
}

/// Integers of at most as many bits as the significand are exact.
pub proof fn lemma_integer_exact(format: Format, n: int)
    requires
        -pow2(format.precision()) < n < pow2(format.precision()),
    ensures
        from_integer(format, n) is Finite,
        from_integer(format, n).valid(format),
        from_integer(format, n).value() == n * pow2(format.unit()),
        from_integer(format, n).is_negative() == (n < 0),
{
    if n < 0 {
        lemma_rounded_exact(format, true, (-n) as nat, format.unit());
        assert(-((-n) * pow2(format.unit())) == n * pow2(format.unit())) by (nonlinear_arith);
    } else {
        lemma_rounded_exact(format, false, n as nat, format.unit());
    }
}

/// A value that the format can hold is the value of its rounding.
pub proof fn lemma_rounded_value_exact(
    format: Format,
    value: int,
    zero_negative: bool,
    m: nat,
    k: nat,
)
    requires
        m < pow2(format.precision()),
        k <= format.max_scale(),
        value == m * pow2(k) || value == -(m * pow2(k)),
    ensures
        rounded_value(format, value, zero_negative) is Finite,
        rounded_value(format, value, zero_negative).value() == value,
        rounded_value(format, value, zero_negative).valid(format),
{
    lemma_rounded_exact(format, true, m, k);
    lemma_rounded_exact(format, false, m, k);
    crate::ieee::arith::lemma_zero_valid(format, zero_negative);
}

/// The difference of two integers is exact where it fits.
pub proof fn lemma_integer_difference(format: Format, a: int, b: int)
    requires
        -pow2(format.precision()) < a < pow2(format.precision()),
        -pow2(format.precision()) < b < pow2(format.precision()),
        -pow2(format.precision()) < a - b < pow2(format.precision()),
    ensures
        difference(format, from_integer(format, a), from_integer(format, b)) == from_integer(
            format,
            a - b,
        ),
{
    let (x, y) = (from_integer(format, a), from_integer(format, b));
    lemma_integer_exact(format, a);
    lemma_integer_exact(format, b);
    lemma_integer_exact(format, a - b);
    lemma_negation(format, y);
    let unit = pow2(format.unit());
    assert(a * unit - b * unit == (a - b) * unit) by (nonlinear_arith);
    let v = x.value() + negation(y).value();
    let r = difference(format, x, y);
    let expected = from_integer(format, a - b);
    let m = if a - b < 0 {
        (b - a) as nat
    } else {
        (a - b) as nat
    };
    assert((b - a) * unit == -((a - b) * unit)) by (nonlinear_arith);
    lemma_rounded_value_exact(
        format,
        v,
        x.is_negative() && negation(y).is_negative(),
        m,
        format.unit(),
    );
    lemma_pow2_pos(format.unit());
    if a - b < 0 {
        assert((a - b) * unit < 0) by (nonlinear_arith)
            requires
                a - b < 0,
                unit > 0,
        ;
        lemma_rounded_exact(format, true, m, format.unit());
    } else if a - b > 0 {
        assert((a - b) * unit > 0) by (nonlinear_arith)
            requires
                a - b > 0,
                unit > 0,
        ;
        lemma_rounded_exact(format, false, m, format.unit());
    } else {
        assert(v == 0);
    }
    lemma_unique(format, r, expected);
}

/// The sum of two integers is exact where it fits.
pub proof fn lemma_integer_sum(format: Format, a: int, b: int)
    requires
        -pow2(format.precision()) < a < pow2(format.precision()),
        -pow2(format.precision()) < b < pow2(format.precision()),
        -pow2(format.precision()) < a + b < pow2(format.precision()),
    ensures
        sum(format, from_integer(format, a), from_integer(format, b)) == from_integer(
            format,
            a + b,
        ),
{
    let (x, y) = (from_integer(format, a), from_integer(format, b));
    lemma_integer_exact(format, a);
    lemma_integer_exact(format, b);
    lemma_integer_exact(format, a + b);
    let unit = pow2(format.unit());
    assert(a * unit + b * unit == (a + b) * unit) by (nonlinear_arith);
    let v = x.value() + y.value();
    let m = if a + b < 0 {
        (-(a + b)) as nat
    } else {
        (a + b) as nat
    };
    assert((-(a + b)) * unit == -((a + b) * unit)) by (nonlinear_arith);
    lemma_rounded_value_exact(
        format,
        v,
        x.is_negative() && y.is_negative(),
        m,
        format.unit(),
    );
    lemma_pow2_pos(format.unit());
    if a + b < 0 {
        assert((a + b) * unit < 0) by (nonlinear_arith)
            requires
                a + b < 0,
                unit > 0,
        ;
        lemma_rounded_exact(format, true, m, format.unit());
    } else if a + b > 0 {
        assert((a + b) * unit > 0) by (nonlinear_arith)
            requires
                a + b > 0,
                unit > 0,
        ;
        lemma_rounded_exact(format, false, m, format.unit());
    } else {
        assert(v == 0);
    }
    lemma_unique(format, sum(format, x, y), from_integer(format, a + b));
}

/// The product of two integers that are not negative is exact where it fits.
pub proof fn lemma_integer_product(format: Format, a: nat, b: nat)
    requires
        a < pow2(format.precision()),
        b < pow2(format.precision()),
        a * b < pow2(format.precision()),
    ensures
        product(format, from_integer(format, a as int), from_integer(format, b as int))
            == from_integer(format, (a * b) as int),
{
    lemma_integer_exact(format, a as int);
    lemma_integer_exact(format, b as int);
    let unit = pow2(format.unit());
    lemma_pow2_pos(format.unit());
    assert(a * unit >= 0) by (nonlinear_arith);
    assert(b * unit >= 0) by (nonlinear_arith);
    assert((a * unit) * (b * unit) == ((a * b) * unit) * unit) by (nonlinear_arith);
    assert(1 * unit == unit);
    lemma_rounded_ratio(format, false, (a * b) * unit, 1, unit);
}

/// Dividing a multiple by what it is a multiple of is exact.
pub proof fn lemma_integer_quotient(format: Format, n: int, d: nat)
    requires
        0 < d < pow2(format.precision()),
        -pow2(format.precision()) < n * d < pow2(format.precision()),
    ensures
        quotient(format, from_integer(format, n * d), from_integer(format, d as int))
            == from_integer(format, n),
{
    lemma_integer_exact(format, n * d);
    lemma_integer_exact(format, d as int);
    let unit = pow2(format.unit());
    lemma_pow2_pos(format.unit());
    let m = if n < 0 {
        (-n) as nat
    } else {
        n as nat
    };
    assert(n < 0 <==> n * d < 0) by (nonlinear_arith)
        requires
            d > 0,
    ;
    assert(d * unit > 0) by (nonlinear_arith)
        requires
            d > 0,
            unit > 0,
    ;
    let x = from_integer(format, n * d);
    assert(x.units() == (m * d) * unit) by {
        assert((-n) * d == -(n * d)) by (nonlinear_arith);
        assert((-(n * d)) * unit == -((n * d) * unit)) by (nonlinear_arith);
    }
    assert(((m * d) * unit) * unit == (m * unit) * (d * unit)) by (nonlinear_arith);
    assert(1 * (d * unit) == d * unit);
    lemma_rounded_ratio(format, n < 0, m * unit, 1, d * unit);
}

/// Dividing by one changes nothing.
pub proof fn lemma_over_one(format: Format, a: Float)
    requires
        a.valid(format),
    ensures
        quotient(format, a, from_integer(format, 1)) == a,
{
    lemma_pow2_values();
    lemma_pow2_ordered(1, format.precision());
    lemma2_to64();
    lemma_integer_exact(format, 1);
    if a is Finite {
        let unit = pow2(format.unit());
        lemma_pow2_pos(format.unit());
        assert(1 * unit == unit);
        lemma_rounded_ratio(format, a.is_negative(), a.units(), 1, unit);
        lemma_rounded_same(format, a);
    }
}

/// Rounding errs by at most half a unit of the last place, and that place is
/// no higher than `2^k` for a magnitude below `2^(p + k)`.
pub proof fn lemma_rounding_error(format: Format, negative: bool, n: nat, k: nat)
    requires
        n < pow2(format.precision() + k),
        k < format.max_scale(),
    ensures
        rounded(format, negative, n, 1) is Finite,
        rounded(format, negative, n, 1).is_negative() == negative,
        rounded(format, negative, n, 1).valid(format),
        -pow2(k) <= 2 * (rounded(format, negative, n, 1).units() - n) <= pow2(k),
{
    let p = format.precision();
    lemma_rounded_valid(format, negative, n, 1);
    lemma_pow2_values();
    let j = lemma_scale_exists(p, n, 1);
    if j > k {
        lemma_pow2_ordered(p + k, (p + j - 1) as nat);
    }
    lemma_pow2_pos(j);
    let step = pow2(j);
    assert(1 * step == step);
    let m = lemma_nearest_exists(n, step);
    lemma_rounded(format, negative, n, 1, j, m);
    lemma_pow2_ordered(j, k);
    let top = pow2(p);
    lemma_pow2_adds(p, j);
    assert(m <= top) by (nonlinear_arith)
        requires
            2 * n - 2 * (m * step) >= -(step as int),
            n < top * step,
            step > 0,
    ;
    lemma_pow2_ordered(p, 53);
    if m == top {
        let half = pow2((p - 1) as nat);
        lemma_pow2_unfold(p);
        lemma_pow2_unfold(j + 1);
        assert(half * (2 * step) == (2 * half) * step) by (nonlinear_arith);
        assert(rounded(format, negative, n, 1).units() == m * step);
    }
}

/// Rounding a ratio errs by at most half a unit of the last place, and that
/// place is no higher than `2^k` for a magnitude below `2^(p + k)`.
pub proof fn lemma_ratio_error(format: Format, negative: bool, n: nat, d: nat, k: nat)
    requires
        d > 0,
        n < d * pow2(format.precision() + k),
        k < format.max_scale(),
    ensures
        rounded(format, negative, n, d) is Finite,
        rounded(format, negative, n, d).is_negative() == negative,
        rounded(format, negative, n, d).valid(format),
        -(d * pow2(k)) <= 2 * (rounded(format, negative, n, d).units() * d - n) <= d * pow2(k),
{
    let p = format.precision();
    lemma_rounded_valid(format, negative, n, d);
    let j = lemma_scale_exists(p, n, d);
    if j > k {
        lemma_pow2_ordered(p + k, (p + j - 1) as nat);
        let (a, b) = (pow2(p + k), pow2((p + j - 1) as nat));
        assert(d * a <= d * b) by (nonlinear_arith)
            requires
                a <= b,
        ;
    }
    lemma_pow2_pos(j);
    let step = pow2(j);
    let unit = d * step;
    assert(unit > 0) by (nonlinear_arith)
        requires
            unit == d * step,
            d > 0,
            step > 0,
    ;
    let m = lemma_nearest_exists(n, unit);
    lemma_rounded(format, negative, n, d, j, m);
    lemma_pow2_ordered(j, k);
    let top = pow2(p);
    lemma_pow2_adds(p, j);
    assert(d * (top * step) == top * unit) by (nonlinear_arith)
        requires
            unit == d * step,
    ;
    assert(m <= top) by (nonlinear_arith)
        requires
            2 * n - 2 * (m * unit) >= -(unit as int),
            n < top * unit,
            unit > 0,
    ;
    lemma_packed_units(format, negative, m, j);
    assert(m * unit == (m * step) * d) by (nonlinear_arith)
        requires
            unit == d * step,
    ;
    let wide = pow2(k);
    assert(unit <= d * wide) by (nonlinear_arith)
        requires
            unit == d * step,
            step <= wide,
    ;
}

/// The significand at its scale is the magnitude of the rounding, carried or
/// not.
pub proof fn lemma_packed_units(format: Format, negative: bool, m: nat, k: nat)
    requires
        m <= pow2(format.precision()),
        k < format.max_scale(),
    ensures
        packed(format, negative, m, k) is Finite,
        packed(format, negative, m, k).units() == m * pow2(k),
{
    let p = format.precision();
    lemma_pow2_values();
    if m == pow2(p) {
        let half = pow2((p - 1) as nat);
        let step = pow2(k);
        lemma_pow2_unfold(p);
        lemma_pow2_unfold(k + 1);
        assert(half * (2 * step) == (2 * half) * step) by (nonlinear_arith);
    }
}

/// Rounding keeps the order of magnitudes that stay in range.
pub proof fn lemma_rounded_monotone(format: Format, negative: bool, a: nat, b: nat, top: nat)
    requires
        a <= b,
        b < pow2(format.precision() + top),
        top < format.max_scale(),
    ensures
        rounded(format, negative, a, 1).units() <= rounded(format, negative, b, 1).units(),
{
    let p = format.precision();
    let j = lemma_scale_exists(p, a, 1);
    let k = lemma_scale_exists(p, b, 1);
    lemma_pow2_pos(j);
    lemma_pow2_pos(k);
    let (s, t) = (pow2(j), pow2(k));
    assert(1 * s == s);
    assert(1 * t == t);
    let m = lemma_nearest_exists(a, s);
    let n = lemma_nearest_exists(b, t);
    if k > top {
        lemma_pow2_ordered(p + top, (p + k - 1) as nat);
    }
    if j > k {
        lemma_pow2_ordered(p + k, (p + j - 1) as nat);
    }
    let most = pow2(p);
    lemma_pow2_adds(p, j);
    lemma_pow2_adds(p, k);
    assert(m <= most) by (nonlinear_arith)
        requires
            2 * a - 2 * (m * s) >= -(s as int),
            a < most * s,
            s > 0,
    ;
    assert(n <= most) by (nonlinear_arith)
        requires
            2 * b - 2 * (n * t) >= -(t as int),
            b < most * t,
            t > 0,
    ;
    lemma_packed_units(format, negative, m, j);
    lemma_packed_units(format, negative, n, k);
    if j == k {
        if m > n {
            assert(m * s >= n * s + s) by (nonlinear_arith)
                requires
                    m >= n + 1,
                    s > 0,
            ;
            assert(a == b);
        }
        lemma_times_ordered(m, n, s);
    } else {
        let least = pow2((p - 1) as nat);
        lemma_pow2_adds((p - 1) as nat, k);
        lemma_pow2_ordered(p + j, (p + k - 1) as nat);
        assert((p - 1) as nat + k == (p + k - 1) as nat);
        assert(n >= least) by (nonlinear_arith)
            requires
                2 * b - 2 * (n * t) <= t,
                b >= least * t,
                t > 0,
        ;
        lemma_times_ordered(m, most, s);
        lemma_times_ordered(least, n, t);
    }
}

} // verus!
