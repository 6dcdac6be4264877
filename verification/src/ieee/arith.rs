//! Addition, subtraction, multiplication and division.

use vstd::arithmetic::power2::*;
use vstd::prelude::*;

use crate::ieee::cell::{bit_length, in_cell, lemma_raised, power_of_two, raised, round_cell};
use crate::ieee::format::{Float, Format};
use crate::ieee::rounding::{lemma_pow2_values, lemma_rounded_valid, rounded};

verus! {

/// Zero with a sign.
pub open spec fn zero(negative: bool) -> Float {
    Float::Finite { negative, significand: 0, scale: 0 }
}

/// The datum nearest to a value given in units. An exact zero takes the given
/// sign.
pub open spec fn rounded_value(format: Format, value: int, zero_negative: bool) -> Float {
    if value == 0 {
        zero(zero_negative)
    } else if value < 0 {
        rounded(format, true, (-value) as nat, 1)
    } else {
        rounded(format, false, value as nat, 1)
    }
}

/// `a + b`.
pub open spec fn sum(format: Format, a: Float, b: Float) -> Float {
    match (a, b) {
        (Float::NotANumber, _) => Float::NotANumber,
        (_, Float::NotANumber) => Float::NotANumber,
        (Float::Infinite { negative: m }, Float::Infinite { negative: n }) => if m == n {
            a
        } else {
            Float::NotANumber
        },
        (Float::Infinite { .. }, _) => a,
        (_, Float::Infinite { .. }) => b,
        _ => rounded_value(format, a.value() + b.value(), a.is_negative() && b.is_negative()),
    }
}

/// `-a`.
pub open spec fn negation(a: Float) -> Float {
    match a {
        Float::NotANumber => a,
        Float::Infinite { negative } => Float::Infinite { negative: !negative },
        Float::Finite { negative, significand, scale } => Float::Finite {
            negative: !negative,
            significand,
            scale,
        },
    }
}

/// `a - b`.
pub open spec fn difference(format: Format, a: Float, b: Float) -> Float {
    sum(format, a, negation(b))
}

/// `a * b`.
pub open spec fn product(format: Format, a: Float, b: Float) -> Float {
    let negative = a.is_negative() != b.is_negative();
    match (a, b) {
        (Float::NotANumber, _) => Float::NotANumber,
        (_, Float::NotANumber) => Float::NotANumber,
        (Float::Infinite { .. }, Float::Infinite { .. }) => Float::Infinite { negative },
        (Float::Infinite { .. }, _) => if b.units() == 0 {
            Float::NotANumber
        } else {
            Float::Infinite { negative }
        },
        (_, Float::Infinite { .. }) => if a.units() == 0 {
            Float::NotANumber
        } else {
            Float::Infinite { negative }
        },
        _ => rounded(format, negative, a.units() * b.units(), pow2(format.unit())),
    }
}

/// `a / b`.
pub open spec fn quotient(format: Format, a: Float, b: Float) -> Float {
    let negative = a.is_negative() != b.is_negative();
    match (a, b) {
        (Float::NotANumber, _) => Float::NotANumber,
        (_, Float::NotANumber) => Float::NotANumber,
        (Float::Infinite { .. }, Float::Infinite { .. }) => Float::NotANumber,
        (Float::Infinite { .. }, _) => Float::Infinite { negative },
        (_, Float::Infinite { .. }) => zero(negative),
        _ => if b.units() == 0 {
            if a.units() == 0 {
                Float::NotANumber
            } else {
                Float::Infinite { negative }
            }
        } else {
            rounded(format, negative, a.units() * pow2(format.unit()), b.units())
        },
    }
}

pub proof fn lemma_zero_valid(format: Format, negative: bool)
    ensures
        zero(negative).valid(format),
        zero(negative).units() == 0,
        zero(negative).value() == 0,
{
    lemma_pow2_pos(format.precision());
    assert(0 * pow2(0) == 0);
}

pub proof fn lemma_rounded_value_valid(format: Format, value: int, zero_negative: bool)
    ensures
        rounded_value(format, value, zero_negative).valid(format),
{
    lemma_zero_valid(format, zero_negative);
    if value < 0 {
        lemma_rounded_valid(format, true, (-value) as nat, 1);
    } else if value > 0 {
        lemma_rounded_valid(format, false, value as nat, 1);
    }
}

pub proof fn lemma_negation(format: Format, a: Float)
    ensures
        a.valid(format) ==> negation(a).valid(format),
        negation(a).units() == a.units(),
        negation(a).value() == -a.value(),
        negation(negation(a)) == a,
{
}

pub proof fn lemma_sum_valid(format: Format, a: Float, b: Float)
    requires
        a.valid(format),
        b.valid(format),
    ensures
        sum(format, a, b).valid(format),
{
    lemma_rounded_value_valid(
        format,
        a.value() + b.value(),
        a.is_negative() && b.is_negative(),
    );
}

pub proof fn lemma_product_valid(format: Format, a: Float, b: Float)
    ensures
        product(format, a, b).valid(format),
{
    lemma_pow2_pos(format.unit());
    lemma_rounded_valid(
        format,
        a.is_negative() != b.is_negative(),
        a.units() * b.units(),
        pow2(format.unit()),
    );
}

pub proof fn lemma_quotient_valid(format: Format, a: Float, b: Float)
    ensures
        quotient(format, a, b).valid(format),
{
    let negative = a.is_negative() != b.is_negative();
    lemma_zero_valid(format, negative);
    if b.units() > 0 {
        lemma_rounded_valid(format, negative, a.units() * pow2(format.unit()), b.units());
    }
}

/// A value `m * 2^e` units lies in its own cell.
proof fn lemma_exact_cell(m: nat, e: nat)
    ensures
        in_cell(m, e as int, false, m * pow2(e), 1),
{
    lemma_pow2_values();
    assert(raised(e as int) == pow2(e));
    assert(raised(-(e as int)) == 1);
}

/// A value strictly inside `(m, m + 1) * 2^e` units lies in that cell.
proof fn lemma_inexact_cell(m: nat, e: nat, n: nat)
    requires
        m * pow2(e) < n < (m + 1) * pow2(e),
    ensures
        in_cell(m, e as int, true, n, 1),
{
    lemma_pow2_values();
    assert(raised(e as int) == pow2(e));
    assert(raised(-(e as int)) == 1);
}

/// The datum nearest to `m * 2^e` units.
fn round_exact(format: Format, negative: bool, m: u128, e: u32) -> (r: Float)
    requires
        m < pow2(127),
        e <= 10_000,
    ensures
        r == rounded(format, negative, m as nat * pow2(e as nat), 1),
{
    proof {
        lemma_exact_cell(m as nat, e as nat);
    }
    round_cell(format, negative, m, e as i32, false)
}

/// Adds two finite numbers of which the first has the larger scale.
fn plus_finite(
    format: Format,
    a_negative: bool,
    a: u64,
    a_scale: u32,
    b_negative: bool,
    b: u64,
    b_scale: u32,
) -> (r: Float)
    requires
        (Float::Finite { negative: a_negative, significand: a, scale: a_scale }).valid(format),
        (Float::Finite { negative: b_negative, significand: b, scale: b_scale }).valid(format),
        a_scale >= b_scale,
    ensures
        r == sum(
            format,
            Float::Finite { negative: a_negative, significand: a, scale: a_scale },
            Float::Finite { negative: b_negative, significand: b, scale: b_scale },
        ),
{
    let distance: u32 = a_scale - b_scale;
    let ghost low = pow2(b_scale as nat);
    let ghost high = pow2(a_scale as nat);
    proof {
        lemma_pow2_values();
        lemma_pow2_pos(b_scale as nat);
    }
    if distance <= 70 {
        let power: u128 = power_of_two(distance);
        proof {
            lemma_pow2_adds(distance as nat, b_scale as nat);
            lemma_pow2_adds(53, 70);
            lemma_pow2_adds(123, 4);
            if distance < 70 {
                lemma_pow2_strictly_increases(distance as nat, 70);
            }
            assert(a * power <= 0x20_0000_0000_0000 * pow2(70)) by (nonlinear_arith)
                requires
                    a <= 0x20_0000_0000_0000,
                    power <= pow2(70),
            ;
            lemma2_to64();
            assert(a * high == (a * power) * low) by (nonlinear_arith)
                requires
                    high == power * low,
            ;
        }
        let lead: u128 = a as u128 * power;
        let other: u128 = b as u128;
        if a_negative == b_negative {
            assert((lead + other) * low == lead * low + other * low) by (nonlinear_arith);
            if lead + other == 0 {
                return Float::Finite { negative: a_negative, significand: 0, scale: 0 };
            }
            assert((lead + other) * low > 0) by (nonlinear_arith)
                requires
                    lead + other > 0,
                    low > 0,
            ;
            round_exact(format, a_negative, lead + other, b_scale)
        } else if lead >= other {
            assert((lead - other) * low == lead * low - other * low) by (nonlinear_arith);
            if lead == other {
                return Float::Finite { negative: false, significand: 0, scale: 0 };
            }
            assert((lead - other) * low > 0) by (nonlinear_arith)
                requires
                    lead - other > 0,
                    low > 0,
            ;
            round_exact(format, a_negative, lead - other, b_scale)
        } else {
            assert((other - lead) * low == other * low - lead * low) by (nonlinear_arith);
            assert((other - lead) * low > 0) by (nonlinear_arith)
                requires
                    other - lead > 0,
                    low > 0,
            ;
            round_exact(format, b_negative, other - lead, b_scale)
        }
    } else {
        let e: u32 = a_scale - 18;
        let lead: u128 = a as u128 * 0x4_0000;
        let ghost step = pow2(e as nat);
        let ghost n = a * high;
        let ghost tail = b * low;
        proof {
            lemma2_to64();
            lemma_pow2_adds(18, e as nat);
            lemma_pow2_adds(53, b_scale as nat);
            if 53 + b_scale < e {
                lemma_pow2_strictly_increases((53 + b_scale) as nat, e as nat);
            }
            assert(n == lead * step) by (nonlinear_arith)
                requires
                    n == a * high,
                    high == 0x4_0000 * step,
                    lead == a * 0x4_0000,
            ;
            assert(tail < 0x20_0000_0000_0000 * low) by (nonlinear_arith)
                requires
                    tail == b * low,
                    b < 0x20_0000_0000_0000,
                    low > 0,
            ;
            assert((lead + 1) * step == lead * step + step) by (nonlinear_arith);
            assert((lead - 1) * step == lead * step - step) by (nonlinear_arith);
            assert(lead * step >= step) by (nonlinear_arith)
                requires
                    lead >= 1,
            ;
            if b > 0 {
                assert(tail > 0) by (nonlinear_arith)
                    requires
                        tail == b * low,
                        b > 0,
                        low > 0,
                ;
            }
        }
        if b == 0 {
            assert(tail == 0) by (nonlinear_arith)
                requires
                    tail == b * low,
                    b == 0,
            ;
            round_exact(format, a_negative, lead, e)
        } else if a_negative == b_negative {
            proof {
                lemma_inexact_cell(lead as nat, e as nat, (n + tail) as nat);
            }
            round_cell(format, a_negative, lead, e as i32, true)
        } else {
            proof {
                lemma_inexact_cell((lead - 1) as nat, e as nat, (n - tail) as nat);
            }
            round_cell(format, a_negative, lead - 1, e as i32, true)
        }
    }
}

/// `a + b`.
pub fn plus(format: Format, a: Float, b: Float) -> (r: Float)
    requires
        a.valid(format),
        b.valid(format),
    ensures
        r == sum(format, a, b),
        r.valid(format),
{
    proof {
        lemma_sum_valid(format, a, b);
    }
    match (a, b) {
        (Float::NotANumber, _) => Float::NotANumber,
        (_, Float::NotANumber) => Float::NotANumber,
        (Float::Infinite { negative: m }, Float::Infinite { negative: n }) => if m == n {
            a
        } else {
            Float::NotANumber
        },
        (Float::Infinite { .. }, Float::Finite { .. }) => a,
        (Float::Finite { .. }, Float::Infinite { .. }) => b,
        (
            Float::Finite { negative: m, significand: x, scale: j },
            Float::Finite { negative: n, significand: y, scale: k },
        ) => if j >= k {
            plus_finite(format, m, x, j, n, y, k)
        } else {
            plus_finite(format, n, y, k, m, x, j)
        },
    }
}

/// `-a`.
pub fn negate(a: Float) -> (r: Float)
    ensures
        r == negation(a),
{
    match a {
        Float::NotANumber => Float::NotANumber,
        Float::Infinite { negative } => Float::Infinite { negative: !negative },
        Float::Finite { negative, significand, scale } => Float::Finite {
            negative: !negative,
            significand,
            scale,
        },
    }
}

/// `a - b`.
pub fn minus(format: Format, a: Float, b: Float) -> (r: Float)
    requires
        a.valid(format),
        b.valid(format),
    ensures
        r == difference(format, a, b),
        r.valid(format),
{
    proof {
        lemma_negation(format, b);
    }
    plus(format, a, negate(b))
}

fn is_zero(a: Float) -> (r: bool)
    ensures
        r <==> a is Finite && a.units() == 0,
{
    match a {
        Float::Finite { negative, significand, scale } => {
            proof {
                lemma_pow2_pos(scale as nat);
                let power = pow2(scale as nat);
                if significand > 0 {
                    assert(significand * power > 0) by (nonlinear_arith)
                        requires
                            significand > 0,
                            power > 0,
                    ;
                }
                assert(0 * power == 0);
            }
            significand == 0
        },
        _ => false,
    }
}

fn sign_of(a: Float) -> (r: bool)
    ensures
        r == a.is_negative(),
{
    match a {
        Float::Finite { negative, significand, scale } => negative,
        Float::Infinite { negative } => negative,
        Float::NotANumber => false,
    }
}

/// `a * b`.
pub fn times(format: Format, a: Float, b: Float) -> (r: Float)
    requires
        a.valid(format),
        b.valid(format),
    ensures
        r == product(format, a, b),
        r.valid(format),
{
    let negative: bool = sign_of(a) != sign_of(b);
    proof {
        lemma_product_valid(format, a, b);
        lemma_pow2_values();
    }
    match (a, b) {
        (Float::NotANumber, _) => Float::NotANumber,
        (_, Float::NotANumber) => Float::NotANumber,
        (Float::Infinite { .. }, Float::Infinite { .. }) => Float::Infinite { negative },
        (Float::Infinite { .. }, Float::Finite { .. }) => if is_zero(b) {
            Float::NotANumber
        } else {
            Float::Infinite { negative }
        },
        (Float::Finite { .. }, Float::Infinite { .. }) => if is_zero(a) {
            Float::NotANumber
        } else {
            Float::Infinite { negative }
        },
        (
            Float::Finite { negative: _, significand: x, scale: j },
            Float::Finite { negative: _, significand: y, scale: k },
        ) => {
            let unit: u32 = format.unit_exponent();
            assert(x * y < 0x20_0000_0000_0000 * 0x20_0000_0000_0000) by (nonlinear_arith)
                requires
                    x < 0x20_0000_0000_0000,
                    y < 0x20_0000_0000_0000,
            ;
            let m: u128 = x as u128 * y as u128;
            let e: i32 = j as i32 + k as i32 - unit as i32;
            proof {
                lemma_raised(e as int, unit as nat);
                lemma_pow2_adds(j as nat, k as nat);
                lemma_pow2_pos(unit as nat);
                let low = raised(-(e as int));
                let high = raised(e as int);
                let n = a.units() * b.units();
                let d = pow2(unit as nat);
                let left = pow2(j as nat);
                let right = pow2(k as nat);
                assert(n == m * (left * right)) by (nonlinear_arith)
                    requires
                        n == (x * left) * (y * right),
                        m == x * y,
                ;
                assert((m * (left * right)) * low == m * (low * (left * right)))
                    by (nonlinear_arith);
                assert(in_cell(m as nat, e as int, false, n, d));
            }
            round_cell(format, negative, m, e, false)
        },
    }
}

/// `a / b`.
pub fn over(format: Format, a: Float, b: Float) -> (r: Float)
    requires
        a.valid(format),
        b.valid(format),
    ensures
        r == quotient(format, a, b),
        r.valid(format),
{
    let negative: bool = sign_of(a) != sign_of(b);
    proof {
        lemma_quotient_valid(format, a, b);
        lemma_pow2_values();
    }
    match (a, b) {
        (Float::NotANumber, _) => Float::NotANumber,
        (_, Float::NotANumber) => Float::NotANumber,
        (Float::Infinite { .. }, Float::Infinite { .. }) => Float::NotANumber,
        (Float::Infinite { .. }, Float::Finite { .. }) => Float::Infinite { negative },
        (Float::Finite { .. }, Float::Infinite { .. }) => Float::Finite {
            negative,
            significand: 0,
            scale: 0,
        },
        (
            Float::Finite { negative: _, significand: x, scale: j },
            Float::Finite { negative: _, significand: y, scale: k },
        ) => if is_zero(b) {
            if is_zero(a) {
                Float::NotANumber
            } else {
                Float::Infinite { negative }
            }
        } else if is_zero(a) {
            proof {
                let n = a.units() * pow2(format.unit());
                assert(n == 0) by (nonlinear_arith)
                    requires
                        n == a.units() * pow2(format.unit()),
                        a.units() == 0,
                ;
                assert(in_cell(0, 0, false, n, b.units()));
            }
            round_cell(format, negative, 0, 0, false)
        } else {
            proof {
                if x == 0 {
                    assert(0 * pow2(j as nat) == 0);
                }
                if y == 0 {
                    assert(0 * pow2(k as nat) == 0);
                }
            }
            over_nonzero(format, negative, x, j, y, k)
        },
    }
}

fn over_nonzero(format: Format, negative: bool, x: u64, j: u32, y: u64, k: u32) -> (r: Float)
    requires
        0 < x < pow2(53),
        0 < y < pow2(53),
        j <= 2045,
        k <= 2045,
    ensures
        r == rounded(
            format,
            negative,
            (x as nat * pow2(j as nat)) * pow2(format.unit()),
            y as nat * pow2(k as nat),
        ),
{
    proof {
        lemma_pow2_values();
    }
    let unit: u32 = format.unit_exponent();
    let len: u32 = bit_length(x as u128);
    proof {
        if len > 53 {
            if len > 54 {
                lemma_pow2_strictly_increases(53, (len - 1) as nat);
            }
        }
    }
    let shift: u32 = 117 - len;
    let power: u128 = power_of_two(shift);
    proof {
        lemma_pow2_adds(len as nat, shift as nat);
        lemma_pow2_adds((len - 1) as nat, shift as nat);
        lemma_pow2_adds(117, 10);
        lemma_pow2_adds(63, 53);
        lemma2_to64();
        lemma_pow2_pos(shift as nat);
        let most = pow2(len as nat);
        let least = pow2((len - 1) as nat);
        assert(x * power < most * power) by (nonlinear_arith)
            requires
                x < most,
                power > 0,
        ;
        assert(x * power >= least * power) by (nonlinear_arith)
            requires
                x >= least,
        ;
    }
    let big: u128 = x as u128 * power;
    let divisor: u128 = y as u128;
    let m: u128 = big / divisor;
    let rest: u128 = big % divisor;
    let e: i32 = j as i32 - k as i32 + unit as i32 - shift as i32;
    proof {
        vstd::arithmetic::div_mod::lemma_fundamental_div_mod(big as int, divisor as int);
        assert(m >= 0x8000_0000_0000_0000) by (nonlinear_arith)
            requires
                big == divisor * m + rest,
                rest < divisor,
                divisor < 0x20_0000_0000_0000,
                big >= 0x8000_0000_0000_0000 * 0x20_0000_0000_0000,
        ;
        assert(m <= big) by (nonlinear_arith)
            requires
                big == divisor * m + rest,
                rest >= 0,
                divisor >= 1,
        ;
        let n = (x as nat * pow2(j as nat)) * pow2(unit as nat);
        let d = y as nat * pow2(k as nat);
        lemma_quotient_cell(
            x as nat,
            j as nat,
            y as nat,
            k as nat,
            unit as nat,
            shift as nat,
            m as nat,
            rest as nat,
            e as int,
        );
        assert(in_cell(m as nat, e as int, rest != 0, n, d));
        lemma_pow2_pos(k as nat);
        assert(d > 0) by (nonlinear_arith)
            requires
                d == y as nat * pow2(k as nat),
                y > 0,
                pow2(k as nat) > 0,
        ;
    }
    round_cell(format, negative, m, e, rest != 0)
}

proof fn lemma_quotient_cell(
    x: nat,
    j: nat,
    y: nat,
    k: nat,
    unit: nat,
    shift: nat,
    m: nat,
    rest: nat,
    e: int,
)
    requires
        y > 0,
        rest < y,
        x * pow2(shift) == y * m + rest,
        e == j - k + unit - shift,
    ensures
        in_cell(m, e, rest != 0, (x * pow2(j)) * pow2(unit), y * pow2(k)),
{
    let n = (x * pow2(j)) * pow2(unit);
    let d = y * pow2(k);
    let low = raised(-e);
    let high = raised(e);
    lemma_raised(e, shift + k);
    lemma_pow2_adds(shift, k);
    lemma_pow2_adds(j, unit);
    assert(e + (shift + k) == j + unit);
    lemma_pow2_pos(k);
    let w = high * pow2(k);
    let (pj, pu, ps, pk) = (pow2(j), pow2(unit), pow2(shift), pow2(k));
    assert(w > 0) by (nonlinear_arith)
        requires
            w == high * pk,
            high > 0,
            pk > 0,
    ;
    assert(((x * pj) * pu) * low == x * (low * (pj * pu))) by (nonlinear_arith);
    assert(x * (high * (ps * pk)) == (x * ps) * (high * pk)) by (nonlinear_arith);
    assert(n * low == (y * m + rest) * w);
    assert((y * m + rest) * w == m * (y * w) + rest * w) by (nonlinear_arith);
    assert(high * (y * pk) == y * (high * pk)) by (nonlinear_arith);
    assert((m + 1) * (y * w) == m * (y * w) + y * w) by (nonlinear_arith);
    assert(rest * w < y * w) by (nonlinear_arith)
        requires
            rest < y,
            w > 0,
    ;
    if rest != 0 {
        assert(rest * w > 0) by (nonlinear_arith)
            requires
                rest > 0,
                w > 0,
        ;
    } else {
        assert(rest * w == 0) by (nonlinear_arith)
            requires
                rest == 0,
        ;
    }
}

} // verus!
