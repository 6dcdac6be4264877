//! Rounding to nearest, ties to even: its definition, and what determines it.

use vstd::arithmetic::power2::*;
use vstd::prelude::*;

use crate::ieee::format::{Float, Format};

verus! {

/// `m` is the integer nearest to `n / d`, and the even one of two equally near.
pub open spec fn nearest_even(n: nat, d: nat, m: nat) -> bool {
    &&& -(d as int) <= 2 * n - 2 * (m * d) <= d
    &&& (2 * n - 2 * (m * d) == d || 2 * n - 2 * (m * d) == -(d as int)) ==> m % 2 == 0
}

/// `k` is the least scale at which `n / d` has at most `p` significant bits
/// before the point.
pub open spec fn is_scale(p: nat, n: nat, d: nat, k: nat) -> bool {
    &&& n < d * pow2(p + k)
    &&& k > 0 ==> d * pow2((p + k - 1) as nat) <= n
}

pub open spec fn scale_of(p: nat, n: nat, d: nat) -> nat {
    choose|k: nat| is_scale(p, n, d, k)
}

pub open spec fn nearest_of(n: nat, d: nat) -> nat {
    choose|m: nat| nearest_even(n, d, m)
}

/// The datum `m * 2^k`, where `m` may have carried into one more bit; beyond
/// the largest scale it is an infinity.
pub open spec fn packed(format: Format, negative: bool, m: nat, k: nat) -> Float {
    let carried = m == pow2(format.precision());
    let significand = if carried {
        pow2((format.precision() - 1) as nat)
    } else {
        m
    };
    let scale = if carried {
        k + 1
    } else {
        k
    };
    if scale > format.max_scale() {
        Float::Infinite { negative }
    } else {
        Float::Finite { negative, significand: significand as u64, scale: scale as u32 }
    }
}

/// The datum nearest to `n / d` units, with the given sign.
pub open spec fn rounded(format: Format, negative: bool, n: nat, d: nat) -> Float {
    let k = scale_of(format.precision(), n, d);
    packed(format, negative, nearest_of(n, d * pow2(k)), k)
}

pub proof fn lemma_nearest_even_unique(n: nat, d: nat, a: nat, b: nat)
    requires
        d > 0,
        nearest_even(n, d, a),
        nearest_even(n, d, b),
    ensures
        a == b,
{
    lemma_nearest_even_ordered(n, d, a, b);
    lemma_nearest_even_ordered(n, d, b, a);
}

proof fn lemma_nearest_even_ordered(n: nat, d: nat, a: nat, b: nat)
    requires
        d > 0,
        nearest_even(n, d, a),
        nearest_even(n, d, b),
    ensures
        b <= a,
{
    assert(b * d == (b - a) * d + a * d) by (nonlinear_arith);
    if b - a >= 2 {
        assert((b - a) * d >= 2 * d) by (nonlinear_arith)
            requires
                b - a >= 2,
                d > 0,
        ;
    } else if b == a + 1 {
        assert((b - a) * d == d) by (nonlinear_arith)
            requires
                b == a + 1,
        ;
    }
}

pub proof fn lemma_nearest_of(n: nat, d: nat, m: nat)
    requires
        d > 0,
        nearest_even(n, d, m),
    ensures
        nearest_of(n, d) == m,
{
    lemma_nearest_even_unique(n, d, nearest_of(n, d), m);
}

pub proof fn lemma_nearest_exists(n: nat, d: nat) -> (m: nat)
    requires
        d > 0,
    ensures
        nearest_even(n, d, m),
        nearest_of(n, d) == m,
        m == n / d || m == n / d + 1,
{
    let q = n / d;
    let r = n % d;
    vstd::arithmetic::div_mod::lemma_fundamental_div_mod(n as int, d as int);
    assert(n == q * d + r) by (nonlinear_arith)
        requires
            n == d * q + r,
    ;
    assert((q + 1) * d == q * d + d) by (nonlinear_arith);
    let m = if 2 * r < d || (2 * r == d && q % 2 == 0) {
        q
    } else {
        (q + 1) as nat
    };
    assert(r < d);
    assert(nearest_even(n, d, m));
    lemma_nearest_of(n, d, m);
    m
}

pub proof fn lemma_scale_unique(p: nat, n: nat, d: nat, a: nat, b: nat)
    requires
        is_scale(p, n, d, a),
        is_scale(p, n, d, b),
    ensures
        a == b,
{
    lemma_scale_ordered(p, n, d, a, b);
    lemma_scale_ordered(p, n, d, b, a);
}

proof fn lemma_scale_ordered(p: nat, n: nat, d: nat, a: nat, b: nat)
    requires
        is_scale(p, n, d, a),
        is_scale(p, n, d, b),
    ensures
        b <= a,
{
    if a < b {
        let low = pow2(p + a);
        let high = pow2((p + b - 1) as nat);
        if p + a < p + b - 1 {
            lemma_pow2_strictly_increases(p + a, (p + b - 1) as nat);
        }
        assert(d * low <= d * high) by (nonlinear_arith)
            requires
                low <= high,
        ;
    }
}

pub proof fn lemma_scale_of(p: nat, n: nat, d: nat, k: nat)
    requires
        is_scale(p, n, d, k),
    ensures
        scale_of(p, n, d) == k,
{
    lemma_scale_unique(p, n, d, scale_of(p, n, d), k);
}

pub proof fn lemma_scale_exists(p: nat, n: nat, d: nat) -> (k: nat)
    requires
        d > 0,
    ensures
        is_scale(p, n, d, k),
        scale_of(p, n, d) == k,
{
    lemma_below_power(n);
    lemma_pow2_adds(p, n);
    lemma_pow2_pos(p);
    assert(n < d * pow2(p + n)) by (nonlinear_arith)
        requires
            n < pow2(n),
            pow2(p + n) == pow2(p) * pow2(n),
            pow2(p) > 0,
            d > 0,
    ;
    let k = lemma_scale_search(p, n, d, n);
    lemma_scale_of(p, n, d, k);
    k
}

proof fn lemma_below_power(n: nat)
    ensures
        n < pow2(n),
    decreases n,
{
    if n == 0 {
        lemma_pow2_pos(0);
    } else {
        lemma_below_power((n - 1) as nat);
        lemma_pow2_unfold(n);
    }
}

proof fn lemma_scale_search(p: nat, n: nat, d: nat, bound: nat) -> (k: nat)
    requires
        n < d * pow2(p + bound),
    ensures
        is_scale(p, n, d, k),
    decreases bound,
{
    if bound == 0 || d * pow2((p + bound - 1) as nat) <= n {
        bound
    } else {
        lemma_scale_search(p, n, d, (bound - 1) as nat)
    }
}

/// Rounding is settled by a scale and a nearest integer at that scale.
pub proof fn lemma_rounded(format: Format, negative: bool, n: nat, d: nat, k: nat, m: nat)
    requires
        d > 0,
        is_scale(format.precision(), n, d, k),
        nearest_even(n, d * pow2(k), m),
    ensures
        rounded(format, negative, n, d) == packed(format, negative, m, k),
{
    lemma_scale_of(format.precision(), n, d, k);
    lemma_pow2_pos(k);
    assert(d * pow2(k) > 0) by (nonlinear_arith)
        requires
            d > 0,
            pow2(k) > 0,
    ;
    lemma_nearest_of(n, d * pow2(k), m);
}

/// A rounded datum is one of the format's.
pub proof fn lemma_rounded_valid(format: Format, negative: bool, n: nat, d: nat)
    requires
        d > 0,
    ensures
        rounded(format, negative, n, d).valid(format),
        rounded(format, negative, n, d).is_negative() == negative,
        rounded(format, negative, n, d) !is NotANumber,
{
    let p = format.precision();
    let k = lemma_scale_exists(p, n, d);
    lemma_pow2_pos(k);
    let unit = d * pow2(k);
    assert(unit > 0) by (nonlinear_arith)
        requires
            d > 0,
            pow2(k) > 0,
            unit == d * pow2(k),
    ;
    let m = lemma_nearest_exists(n, unit);
    lemma_pow2_adds(p, k);
    let top = pow2(p);
    assert(d * pow2(p + k) == top * unit) by (nonlinear_arith)
        requires
            pow2(p + k) == top * pow2(k),
            unit == d * pow2(k),
    ;
    assert(m <= top) by (nonlinear_arith)
        requires
            2 * n - 2 * (m * unit) >= -(unit as int),
            n < top * unit,
            unit > 0,
    ;
    lemma_pow2_strictly_increases((p - 1) as nat, p);
    lemma_pow2_values();
    if k > 0 {
        let low = pow2((p - 1) as nat);
        lemma_pow2_adds((p - 1) as nat, k);
        assert((p - 1) as nat + k == (p + k - 1) as nat);
        assert(d * pow2((p + k - 1) as nat) == low * unit) by (nonlinear_arith)
            requires
                pow2((p + k - 1) as nat) == low * pow2(k),
                unit == d * pow2(k),
        ;
        assert(m >= low) by (nonlinear_arith)
            requires
                2 * n - 2 * (m * unit) <= unit,
                n >= low * unit,
                unit > 0,
        ;
    }
}

/// The powers of two that bound the significands.
pub proof fn lemma_pow2_values()
    ensures
        pow2(0) == 1,
        pow2(23) == 0x80_0000,
        pow2(24) == 0x100_0000,
        pow2(25) == 0x200_0000,
        pow2(31) == 0x8000_0000,
        pow2(32) == 0x1_0000_0000,
        pow2(52) == 0x10_0000_0000_0000,
        pow2(53) == 0x20_0000_0000_0000,
        pow2(54) == 0x40_0000_0000_0000,
        pow2(63) == 0x8000_0000_0000_0000,
        pow2(64) == 0x1_0000_0000_0000_0000,
        pow2(127) == 0x8000_0000_0000_0000_0000_0000_0000_0000,
        pow2(128) == 0x1_0000_0000_0000_0000_0000_0000_0000_0000,
{
    lemma2_to64();
    lemma2_to64_rest();
    lemma_pow2_adds(63, 64);
    lemma_pow2_adds(64, 64);
}

} // verus!
