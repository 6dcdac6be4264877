//! Comparison of numbers. Not-a-number compares false with everything, and
//! the two zeros are equal.

use vstd::arithmetic::power2::*;
use vstd::prelude::*;

use crate::ieee::format::{Float, Format};

verus! {

/// `a < b`.
pub open spec fn less(a: Float, b: Float) -> bool {
    match (a, b) {
        (Float::NotANumber, _) => false,
        (_, Float::NotANumber) => false,
        (Float::Infinite { negative: m }, Float::Infinite { negative: n }) => m && !n,
        (Float::Infinite { negative }, _) => negative,
        (_, Float::Infinite { negative }) => !negative,
        _ => a.value() < b.value(),
    }
}

/// `a == b`.
pub open spec fn equal(a: Float, b: Float) -> bool {
    match (a, b) {
        (Float::Infinite { negative: m }, Float::Infinite { negative: n }) => m == n,
        (Float::Finite { .. }, Float::Finite { .. }) => a.value() == b.value(),
        _ => false,
    }
}

/// `a <= b`.
pub open spec fn at_most(a: Float, b: Float) -> bool {
    less(a, b) || equal(a, b)
}

/// At a larger scale a number is larger, whatever the significands.
pub proof fn lemma_larger_scale(p: nat, x: nat, j: nat, y: nat, k: nat)
    requires
        p > 0,
        x < pow2(p),
        pow2((p - 1) as nat) <= y,
        j < k,
    ensures
        x * pow2(j) < y * pow2(k),
{
    lemma_pow2_pos(j);
    lemma_pow2_adds((p - 1) as nat, k);
    lemma_pow2_adds(p, j);
    if p + j < p - 1 + k {
        lemma_pow2_strictly_increases(p + j, (p - 1 + k) as nat);
    }
    assert((p - 1) as nat + k == (p - 1 + k) as nat);
    let (pj, pk, top, half) = (pow2(j), pow2(k), pow2(p), pow2((p - 1) as nat));
    assert(x * pj < top * pj) by (nonlinear_arith)
        requires
            x < top,
            pj > 0,
    ;
    assert(half * pk <= y * pk) by (nonlinear_arith)
        requires
            half <= y,
    ;
}

/// `x * 2^j < y * 2^k` for significands in their normal form.
fn smaller(format: Format, x: u64, j: u32, y: u64, k: u32) -> (r: bool)
    requires
        (Float::Finite { negative: false, significand: x, scale: j }).valid(format),
        (Float::Finite { negative: false, significand: y, scale: k }).valid(format),
    ensures
        r <==> x * pow2(j as nat) < y * pow2(k as nat),
{
    let ghost p = format.precision();
    if j < k {
        proof {
            lemma_larger_scale(p, x as nat, j as nat, y as nat, k as nat);
        }
        true
    } else if j > k {
        proof {
            lemma_larger_scale(p, y as nat, k as nat, x as nat, j as nat);
        }
        false
    } else {
        proof {
            let power = pow2(j as nat);
            lemma_pow2_pos(j as nat);
            if x < y {
                assert(x * power < y * power) by (nonlinear_arith)
                    requires
                        x < y,
                        power > 0,
                ;
            } else {
                assert(x * power >= y * power) by (nonlinear_arith)
                    requires
                        x >= y,
                ;
            }
        }
        x < y
    }
}

/// `a < b`.
pub fn is_less(format: Format, a: Float, b: Float) -> (r: bool)
    requires
        a.valid(format),
        b.valid(format),
    ensures
        r == less(a, b),
{
    match (a, b) {
        (Float::NotANumber, _) => false,
        (_, Float::NotANumber) => false,
        (Float::Infinite { negative: m }, Float::Infinite { negative: n }) => m && !n,
        (Float::Infinite { negative }, Float::Finite { .. }) => negative,
        (Float::Finite { .. }, Float::Infinite { negative }) => !negative,
        (
            Float::Finite { negative: m, significand: x, scale: j },
            Float::Finite { negative: n, significand: y, scale: k },
        ) => {
            if m {
                if n {
                    smaller(format, y, k, x, j)
                } else {
                    proof {
                        lemma_pow2_pos(j as nat);
                        lemma_pow2_pos(k as nat);
                        let (pj, pk) = (pow2(j as nat), pow2(k as nat));
                        if x > 0 {
                            assert(x * pj > 0) by (nonlinear_arith)
                                requires
                                    x > 0,
                                    pj > 0,
                            ;
                        }
                        if y > 0 {
                            assert(y * pk > 0) by (nonlinear_arith)
                                requires
                                    y > 0,
                                    pk > 0,
                            ;
                        }
                        assert(0 * pj == 0);
                        assert(0 * pk == 0);
                    }
                    x > 0 || y > 0
                }
            } else if n {
                false
            } else {
                smaller(format, x, j, y, k)
            }
        },
    }
}

/// `a == b`.
pub fn is_equal(format: Format, a: Float, b: Float) -> (r: bool)
    requires
        a.valid(format),
        b.valid(format),
    ensures
        r == equal(a, b),
{
    match (a, b) {
        (Float::Infinite { negative: m }, Float::Infinite { negative: n }) => m == n,
        (Float::Finite { .. }, Float::Finite { .. }) => !is_less(format, a, b) && !is_less(
            format,
            b,
            a,
        ),
        _ => false,
    }
}

/// `a <= b`.
pub fn is_at_most(format: Format, a: Float, b: Float) -> (r: bool)
    requires
        a.valid(format),
        b.valid(format),
    ensures
        r == at_most(a, b),
{
    is_less(format, a, b) || is_equal(format, a, b)
}

} // verus!
