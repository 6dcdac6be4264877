//! Conversion between numbers and integers.

use vstd::arithmetic::power2::*;
use vstd::prelude::*;

use crate::ieee::cell::{in_cell, power_of_two, raised, round_cell};
use crate::ieee::format::{Float, Format};
use crate::ieee::rounding::{lemma_pow2_values, lemma_rounded_valid, rounded};

verus! {

/// The number nearest to an integer.
pub open spec fn from_integer(format: Format, n: int) -> Float {
    if n < 0 {
        rounded(format, true, (-n) as nat * pow2(format.unit()), 1)
    } else {
        rounded(format, false, n as nat * pow2(format.unit()), 1)
    }
}

/// An integer brought into the range of `i32`.
pub open spec fn saturated_i32(n: int) -> i32 {
    if n < i32::MIN {
        i32::MIN
    } else if n > i32::MAX {
        i32::MAX
    } else {
        n as i32
    }
}

/// Magnitude of a finite number, cut off to an integer.
pub open spec fn whole_part(format: Format, a: Float) -> nat {
    a.units() / pow2(format.unit())
}

/// Magnitude of a finite number, rounded to an integer with halves upward.
pub open spec fn whole_nearest(format: Format, a: Float) -> nat {
    (2 * a.units() + pow2(format.unit())) / (2 * pow2(format.unit()))
}

/// Cast to `i32`: toward zero, saturating, zero for not-a-number.
pub open spec fn truncated(format: Format, a: Float) -> i32 {
    match a {
        Float::NotANumber => 0,
        Float::Infinite { negative } => if negative {
            i32::MIN
        } else {
            i32::MAX
        },
        Float::Finite { negative, .. } => if negative {
            saturated_i32(-(whole_part(format, a) as int))
        } else {
            saturated_i32(whole_part(format, a) as int)
        },
    }
}

/// Rounding to the nearest integer, halves away from zero, then a cast to `i32`.
pub open spec fn nearest_i32(format: Format, a: Float) -> i32 {
    match a {
        Float::NotANumber => 0,
        Float::Infinite { negative } => if negative {
            i32::MIN
        } else {
            i32::MAX
        },
        Float::Finite { negative, .. } => if negative {
            saturated_i32(-(whole_nearest(format, a) as int))
        } else {
            saturated_i32(whole_nearest(format, a) as int)
        },
    }
}

/// Cast to `u8`: toward zero, saturating, zero for not-a-number.
pub open spec fn truncated_u8(format: Format, a: Float) -> u8 {
    match a {
        Float::NotANumber => 0,
        Float::Infinite { negative } => if negative {
            0
        } else {
            255
        },
        Float::Finite { negative, .. } => if negative {
            0
        } else if whole_part(format, a) > 255 {
            255
        } else {
            whole_part(format, a) as u8
        },
    }
}

pub proof fn lemma_from_integer_valid(format: Format, n: int)
    ensures
        from_integer(format, n).valid(format),
{
    if n < 0 {
        lemma_rounded_valid(format, true, (-n) as nat * pow2(format.unit()), 1);
    } else {
        lemma_rounded_valid(format, false, n as nat * pow2(format.unit()), 1);
    }
}

/// The number nearest to an integer.
pub fn integer(format: Format, n: i64) -> (r: Float)
    ensures
        r == from_integer(format, n as int),
        r.valid(format),
{
    let unit: u32 = format.unit_exponent();
    let magnitude: u128 = if n < 0 {
        (-(n as i128)) as u128
    } else {
        n as u128
    };
    proof {
        lemma_pow2_values();
        lemma_from_integer_valid(format, n as int);
        assert(raised(unit as int) == pow2(unit as nat));
        assert(raised(-(unit as int)) == 1);
        assert(in_cell(
            magnitude as nat,
            unit as int,
            false,
            magnitude as nat * pow2(unit as nat),
            1,
        ));
    }
    round_cell(format, n < 0, magnitude, unit as i32, false)
}

/// The least of an integer and `2^64`.
pub open spec fn capped(n: nat) -> nat {
    if n < 0x1_0000_0000_0000_0000 {
        n
    } else {
        0x1_0000_0000_0000_0000
    }
}

proof fn lemma_whole_large(x: nat, k: nat, unit: nat)
    requires
        unit <= k,
    ensures
        (x * pow2(k)) / pow2(unit) == x * pow2((k - unit) as nat),
        (2 * (x * pow2(k)) + pow2(unit)) / (2 * pow2(unit)) == x * pow2((k - unit) as nat),
{
    lemma_pow2_adds((k - unit) as nat, unit);
    lemma_pow2_pos(unit);
    let u = pow2(unit);
    let whole = x * pow2((k - unit) as nat);
    assert(x * pow2(k) == whole * u) by (nonlinear_arith)
        requires
            pow2(k) == pow2((k - unit) as nat) * u,
            whole == x * pow2((k - unit) as nat),
    ;
    vstd::arithmetic::div_mod::lemma_fundamental_div_mod_converse(
        (x * pow2(k)) as int,
        u as int,
        whole as int,
        0,
    );
    assert(2 * (x * pow2(k)) + u == whole * (2 * u) + u) by (nonlinear_arith)
        requires
            x * pow2(k) == whole * u,
    ;
    vstd::arithmetic::div_mod::lemma_fundamental_div_mod_converse(
        (2 * (x * pow2(k)) + u) as int,
        (2 * u) as int,
        whole as int,
        u as int,
    );
}

proof fn lemma_whole_small(x: nat, k: nat, unit: nat, power: nat, q: nat, r: nat)
    requires
        k < unit,
        power == pow2((unit - k) as nat),
        x == q * power + r,
        r < power,
    ensures
        (x * pow2(k)) / pow2(unit) == q,
        (2 * (x * pow2(k)) + pow2(unit)) / (2 * pow2(unit)) == if 2 * r >= power {
            q + 1
        } else {
            q
        },
{
    lemma_pow2_adds((unit - k) as nat, k);
    lemma_pow2_pos(k);
    let low = pow2(k);
    let u = pow2(unit);
    assert(u == power * low);
    assert(x * low == q * u + r * low) by (nonlinear_arith)
        requires
            x == q * power + r,
            u == power * low,
    ;
    assert(r * low < u) by (nonlinear_arith)
        requires
            r < power,
            u == power * low,
            low > 0,
    ;
    vstd::arithmetic::div_mod::lemma_fundamental_div_mod_converse(
        (x * low) as int,
        u as int,
        q as int,
        (r * low) as int,
    );
    assert((2 * r) * low == 2 * (r * low)) by (nonlinear_arith);
    if 2 * r >= power {
        assert((2 * r) * low >= u) by (nonlinear_arith)
            requires
                2 * r >= power,
                u == power * low,
        ;
        assert(2 * (x * low) + u == (q + 1) * (2 * u) + (2 * (r * low) - u)) by (nonlinear_arith)
            requires
                x * low == q * u + r * low,
        ;
        vstd::arithmetic::div_mod::lemma_fundamental_div_mod_converse(
            (2 * (x * low) + u) as int,
            (2 * u) as int,
            (q + 1) as int,
            2 * (r * low) - u,
        );
    } else {
        assert((2 * r) * low < u) by (nonlinear_arith)
            requires
                2 * r < power,
                u == power * low,
                low > 0,
        ;
        assert(2 * (x * low) + u == q * (2 * u) + (2 * (r * low) + u)) by (nonlinear_arith)
            requires
                x * low == q * u + r * low,
        ;
        vstd::arithmetic::div_mod::lemma_fundamental_div_mod_converse(
            (2 * (x * low) + u) as int,
            (2 * u) as int,
            q as int,
            (2 * (r * low) + u) as int,
        );
    }
}

/// Magnitude of `x * 2^k` units as an integer, cut off or rounded.
fn whole(format: Format, x: u64, k: u32, nearest: bool) -> (r: u128)
    requires
        x < pow2(53),
        k <= 2045,
    ensures
        r == capped(
            if nearest {
                (2 * (x * pow2(k as nat)) + pow2(format.unit())) as nat / (2 * pow2(format.unit()))
            } else {
                (x * pow2(k as nat)) as nat / pow2(format.unit())
            },
        ),
{
    let unit: u32 = format.unit_exponent();
    proof {
        lemma_pow2_values();
    }
    if k >= unit {
        let shift: u32 = k - unit;
        proof {
            lemma_whole_large(x as nat, k as nat, unit as nat);
        }
        if x == 0 {
            assert(0 * pow2(shift as nat) == 0);
            return 0;
        }
        if shift >= 64 {
            proof {
                if shift > 64 {
                    lemma_pow2_strictly_increases(64, shift as nat);
                }
                let power = pow2(shift as nat);
                assert(x * power >= power) by (nonlinear_arith)
                    requires
                        x >= 1,
                ;
            }
            return 0x1_0000_0000_0000_0000;
        }
        let power: u128 = power_of_two(shift);
        proof {
            lemma_pow2_strictly_increases(shift as nat, 64);
            assert(x * power < 0x20_0000_0000_0000 * 0x1_0000_0000_0000_0000) by (nonlinear_arith)
                requires
                    x < 0x20_0000_0000_0000,
                    power < 0x1_0000_0000_0000_0000,
            ;
        }
        let exact: u128 = x as u128 * power;
        if exact < 0x1_0000_0000_0000_0000 {
            exact
        } else {
            0x1_0000_0000_0000_0000
        }
    } else {
        let shift: u32 = unit - k;
        if shift > 64 {
            proof {
                let power = pow2(shift as nat);
                lemma_pow2_strictly_increases(64, shift as nat);
                assert(0 * power == 0);
                lemma_whole_small(x as nat, k as nat, unit as nat, power, 0, x as nat);
            }
            return 0;
        }
        let power: u128 = power_of_two(shift);
        proof {
            lemma_pow2_pos(shift as nat);
        }
        let q: u128 = x as u128 / power;
        let r: u128 = x as u128 % power;
        proof {
            if shift < 64 {
                lemma_pow2_strictly_increases(shift as nat, 64);
            }
            vstd::arithmetic::div_mod::lemma_fundamental_div_mod(x as int, power as int);
            assert(x == q * power + r) by (nonlinear_arith)
                requires
                    x == power * q + r,
            ;
            assert(q <= x) by (nonlinear_arith)
                requires
                    x == power * q + r,
                    power >= 1,
                    r >= 0,
            ;
            lemma_whole_small(
                x as nat,
                k as nat,
                unit as nat,
                power as nat,
                q as nat,
                r as nat,
            );
        }
        if nearest && 2 * r >= power {
            q + 1
        } else {
            q
        }
    }
}

fn saturate(negative: bool, magnitude: u128) -> (r: i32)
    requires
        magnitude <= 0x1_0000_0000_0000_0000,
    ensures
        forall|n: nat|
            magnitude == #[trigger] capped(n) ==> r == saturated_i32(
                if negative {
                    -(n as int)
                } else {
                    n as int
                },
            ),
{
    if negative {
        if magnitude > 0x8000_0000 {
            i32::MIN
        } else {
            (-(magnitude as i64)) as i32
        }
    } else if magnitude > 0x7fff_ffff {
        i32::MAX
    } else {
        magnitude as i32
    }
}

/// Cast to `i32`.
pub fn truncate(format: Format, a: Float) -> (r: i32)
    requires
        a.valid(format),
    ensures
        r == truncated(format, a),
{
    proof {
        lemma_pow2_values();
    }
    match a {
        Float::NotANumber => 0,
        Float::Infinite { negative } => if negative {
            i32::MIN
        } else {
            i32::MAX
        },
        Float::Finite { negative, significand, scale } => saturate(
            negative,
            whole(format, significand, scale, false),
        ),
    }
}

/// Rounding to the nearest integer, then a cast to `i32`.
pub fn round_to_i32(format: Format, a: Float) -> (r: i32)
    requires
        a.valid(format),
    ensures
        r == nearest_i32(format, a),
{
    proof {
        lemma_pow2_values();
    }
    match a {
        Float::NotANumber => 0,
        Float::Infinite { negative } => if negative {
            i32::MIN
        } else {
            i32::MAX
        },
        Float::Finite { negative, significand, scale } => saturate(
            negative,
            whole(format, significand, scale, true),
        ),
    }
}

/// Cast to `u8`.
pub fn truncate_u8(format: Format, a: Float) -> (r: u8)
    requires
        a.valid(format),
    ensures
        r == truncated_u8(format, a),
{
    proof {
        lemma_pow2_values();
    }
    match a {
        Float::NotANumber => 0,
        Float::Infinite { negative } => if negative {
            0
        } else {
            255
        },
        Float::Finite { negative, significand, scale } => {
            let magnitude: u128 = whole(format, significand, scale, false);
            if negative {
                0
            } else if magnitude > 255 {
                255
            } else {
                magnitude as u8
            }
        },
    }
}

} // verus!
