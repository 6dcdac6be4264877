//! Rounding of a number known by its leading bits.
//!
//! An arithmetic step yields an integer `m`, a power of two `2^e`, and whether
//! anything was cut off below `m`: the exact result lies in the cell
//! `[m * 2^e, (m + 1) * 2^e)`. Given enough bits in `m` that settles how the
//! result is rounded.

use vstd::arithmetic::power2::*;
use vstd::prelude::*;

use crate::ieee::format::{Float, Format};
use crate::ieee::rounding::{
    is_scale, lemma_pow2_values, lemma_rounded, nearest_even, packed, rounded,
};

verus! {

/// `2^e` for a positive exponent, one otherwise.
pub open spec fn raised(e: int) -> nat {
    if e > 0 {
        pow2(e as nat)
    } else {
        1
    }
}

/// `n / d` is `m * 2^e`, or lies strictly between it and `(m + 1) * 2^e`.
pub open spec fn in_cell(m: nat, e: int, inexact: bool, n: nat, d: nat) -> bool {
    if inexact {
        m * (raised(e) * d) < n * raised(-e) < (m + 1) * (raised(e) * d)
    } else {
        n * raised(-e) == m * (raised(e) * d)
    }
}

pub proof fn lemma_raised(e: int, j: nat)
    requires
        e + j >= 0,
    ensures
        raised(e) * pow2(j) == raised(-e) * pow2((e + j) as nat),
        raised(e) > 0,
        raised(-e) > 0,
{
    lemma2_to64();
    if e > 0 {
        lemma_pow2_adds(e as nat, j);
        lemma_pow2_pos(e as nat);
    } else if e < 0 {
        lemma_pow2_adds((-e) as nat, (e + j) as nat);
        assert((-e) as nat + (e + j) as nat == j);
        lemma_pow2_pos((-e) as nat);
    }
}

pub proof fn lemma_pow2_ordered(a: nat, b: nat)
    requires
        a <= b,
    ensures
        pow2(a) <= pow2(b),
{
    if a < b {
        lemma_pow2_strictly_increases(a, b);
    }
}

proof fn lemma_cell_scale(p: nat, m: nat, e: int, inexact: bool, n: nat, d: nat, len: nat, k: nat)
    requires
        d > 0,
        len > 0,
        pow2((len - 1) as nat) <= m < pow2(len),
        in_cell(m, e, inexact, n, d),
        k == if e + len > p {
            e + len - p
        } else {
            0
        },
    ensures
        is_scale(p, n, d, k),
{
    let low = raised(-e);
    let high = raised(e);
    let j = (p + k - e) as nat;
    lemma_raised(e, j);
    lemma_pow2_ordered(len, j);
    let top = pow2(j);
    let bound = pow2(p + k);
    assert(high * d > 0) by (nonlinear_arith)
        requires
            high > 0,
            d > 0,
    ;
    assert((m + 1) * (high * d) == m * (high * d) + high * d) by (nonlinear_arith);
    lemma_times_ordered(m + 1, top, high * d);
    assert(top * (high * d) == (high * top) * d) by (nonlinear_arith);
    assert((low * bound) * d == (d * bound) * low) by (nonlinear_arith);
    lemma_times_strict(n, d * bound, low);
    if k > 0 {
        lemma_raised(e, (len - 1) as nat);
        let least = pow2((len - 1) as nat);
        let under = pow2((p + k - 1) as nat);
        assert(e + (len - 1) as nat == p + k - 1);
        lemma_times_ordered(least, m, high * d);
        assert(least * (high * d) == (high * least) * d) by (nonlinear_arith);
        assert((low * under) * d == (d * under) * low) by (nonlinear_arith);
        if n < d * under {
            assert(n * low < (d * under) * low) by (nonlinear_arith)
                requires
                    n < d * under,
                    low > 0,
            ;
        }
    }
}

pub proof fn lemma_times_ordered(a: nat, b: nat, c: nat)
    requires
        a <= b,
    ensures
        a * c <= b * c,
{
    assert(a * c <= b * c) by (nonlinear_arith)
        requires
            a <= b,
    ;
}

proof fn lemma_times_strict(a: nat, b: nat, c: nat)
    requires
        a * c < b * c,
    ensures
        a < b,
{
    if b <= a {
        lemma_times_ordered(b, a, c);
    }
}

proof fn lemma_nearest_scaled(n: nat, d: nat, m: nat, c: nat)
    requires
        c > 0,
        nearest_even(n * c, d * c, m),
    ensures
        nearest_even(n, d, m),
{
    let gap = 2 * n - 2 * (m * d);
    assert(2 * (n * c) - 2 * (m * (d * c)) == gap * c) by (nonlinear_arith)
        requires
            gap == 2 * n - 2 * (m * d),
    ;
    assert(-(d as int) <= gap <= d) by (nonlinear_arith)
        requires
            -((d * c) as int) <= gap * c <= d * c,
            c > 0,
    ;
    if gap == d || gap == -(d as int) {
        assert(gap * c == d * c || gap * c == -(d * c)) by (nonlinear_arith)
            requires
                gap == d || gap == -(d as int),
        ;
    }
}

/// Rounds up exactly when the part cut off exceeds a half, or is a half below
/// an odd quotient.
pub open spec fn rounds_up(q: nat, r: nat, half: nat, inexact: bool) -> bool {
    r > half || (r == half && (inexact || q % 2 == 1))
}

proof fn lemma_cell_nearest(x: nat, m: nat, u: nat, inexact: bool, q: nat, r: nat, half: nat)
    requires
        u > 0,
        half > 0,
        r < 2 * half,
        m == q * (2 * half) + r,
        if inexact {
            m * u < x < (m + 1) * u
        } else {
            x == m * u
        },
    ensures
        nearest_even(
            x,
            u * (2 * half),
            if rounds_up(q, r, half, inexact) {
                q + 1
            } else {
                q
            },
        ),
{
    let w = u * (2 * half);
    let rest = x - q * w;
    assert(m * u == q * w + r * u) by (nonlinear_arith)
        requires
            m == q * (2 * half) + r,
            w == u * (2 * half),
    ;
    assert((m + 1) * u == m * u + u) by (nonlinear_arith);
    assert((q + 1) * w == q * w + w) by (nonlinear_arith);
    assert(w == 2 * (half * u)) by (nonlinear_arith)
        requires
            w == u * (2 * half),
    ;
    assert(half * u > 0) by (nonlinear_arith)
        requires
            half > 0,
            u > 0,
    ;
    if r < half {
        assert(r * u + u <= half * u) by (nonlinear_arith)
            requires
                r + 1 <= half,
                u > 0,
        ;
    } else if r > half {
        assert(r * u >= half * u + u) by (nonlinear_arith)
            requires
                r >= half + 1,
                u > 0,
        ;
    }
    assert(r * u + u <= 2 * (half * u)) by (nonlinear_arith)
        requires
            r + 1 <= 2 * half,
            u > 0,
    ;
}

/// The integer significand that rounding a cell yields at scale `k`.
pub open spec fn cell_significand(m: nat, e: int, inexact: bool, k: nat) -> nat {
    if k <= e {
        m * pow2((e - k) as nat)
    } else {
        let half = pow2((k - e - 1) as nat);
        let q = m / (2 * half);
        let r = m % (2 * half);
        if rounds_up(q, r, half, inexact) {
            q + 1
        } else {
            q
        }
    }
}

pub proof fn lemma_cell_rounded(
    format: Format,
    negative: bool,
    m: nat,
    e: int,
    inexact: bool,
    n: nat,
    d: nat,
    len: nat,
    k: nat,
)
    requires
        d > 0,
        len > 0,
        pow2((len - 1) as nat) <= m < pow2(len),
        in_cell(m, e, inexact, n, d),
        k == if e + len > format.precision() {
            e + len - format.precision()
        } else {
            0
        },
        inexact ==> len > format.precision(),
    ensures
        rounded(format, negative, n, d) == packed(
            format,
            negative,
            cell_significand(m, e, inexact, k),
            k,
        ),
{
    let result = cell_significand(m, e, inexact, k);
    lemma_cell_scale(format.precision(), m, e, inexact, n, d, len, k);
    lemma_pow2_pos(k);
    let high = raised(e);
    let low = raised(-e);
    if k <= e {
        let shift = (e - k) as nat;
        lemma_pow2_adds(shift, k);
        lemma2_to64();
        assert(high == pow2(shift) * pow2(k));
        assert(low == 1);
        assert(n == m * (high * d));
        assert(m * ((pow2(shift) * pow2(k)) * d) == (m * pow2(shift)) * (d * pow2(k)))
            by (nonlinear_arith);
        assert(n == result * (d * pow2(k)));
        let whole = pow2(k);
        assert(d * whole > 0) by (nonlinear_arith)
            requires
                d > 0,
                whole > 0,
        ;
    } else {
        let s = (k - e) as nat;
        let half = pow2((s - 1) as nat);
        lemma_pow2_unfold(s);
        lemma_pow2_pos((s - 1) as nat);
        lemma_raised(e, s);
        let u = high * d;
        assert(u > 0) by (nonlinear_arith)
            requires
                high > 0,
                d > 0,
                u == high * d,
        ;
        let q = m / (2 * half);
        let r = m % (2 * half);
        vstd::arithmetic::div_mod::lemma_fundamental_div_mod(m as int, (2 * half) as int);
        assert(m == q * (2 * half) + r) by (nonlinear_arith)
            requires
                m == (2 * half) * q + r,
        ;
        lemma_cell_nearest(n * low, m, u, inexact, q, r, half);
        assert(u * (2 * half) == (high * (2 * half)) * d) by (nonlinear_arith)
            requires
                u == high * d,
        ;
        assert((low * pow2(k)) * d == (d * pow2(k)) * low) by (nonlinear_arith);
        lemma_nearest_scaled(n, d * pow2(k), result, low);
    }
    lemma_rounded(format, negative, n, d, k, result);
}

/// `2^n`.
pub fn power_of_two(n: u32) -> (r: u128)
    requires
        n < 128,
    ensures
        r == pow2(n as nat),
{
    let mut r: u128 = 1;
    let mut i: u32 = 0;
    proof {
        lemma_pow2_values();
    }
    while i < n
        invariant
            i <= n < 128,
            r == pow2(i as nat),
        decreases n - i,
    {
        proof {
            lemma_pow2_unfold((i + 1) as nat);
            lemma_pow2_ordered((i + 1) as nat, 127);
            lemma_pow2_values();
        }
        r = r * 2;
        i = i + 1;
    }
    r
}

/// Bits needed to write `m`.
pub fn bit_length(m: u128) -> (len: u32)
    requires
        m > 0,
    ensures
        0 < len <= 128,
        pow2((len - 1) as nat) <= m < pow2(len as nat),
{
    let mut len: u32 = 0;
    let mut rest: u128 = m;
    proof {
        lemma_pow2_values();
    }
    while rest > 0
        invariant
            m > 0,
            len <= 128,
            rest * pow2(len as nat) <= m < (rest + 1) * pow2(len as nat),
            len > 0 && rest == 0 ==> pow2((len - 1) as nat) <= m,
            len == 0 ==> rest == m,
        decreases rest,
    {
        let ghost power = pow2(len as nat);
        proof {
            lemma_pow2_unfold((len + 1) as nat);
            if len == 128 {
                lemma_pow2_values();
                assert(rest * power >= power) by (nonlinear_arith)
                    requires
                        rest >= 1,
                ;
            }
            let next = rest / 2;
            assert(next * (2 * power) <= rest * power) by (nonlinear_arith)
                requires
                    2 * next <= rest,
            ;
            assert((rest + 1) * power <= (next + 1) * (2 * power)) by (nonlinear_arith)
                requires
                    rest + 1 <= 2 * (next + 1),
            ;
            if next == 0 {
                assert(rest * power == power) by (nonlinear_arith)
                    requires
                        rest == 1,
                ;
            }
        }
        rest = rest / 2;
        len = len + 1;
    }
    assert((rest + 1) * pow2(len as nat) == pow2(len as nat)) by (nonlinear_arith)
        requires
            rest == 0,
    ;
    len
}

impl Format {
    /// Bits of the significand.
    pub fn significand_bits(self) -> (p: u32)
        ensures
            p == self.precision(),
    {
        match self {
            Format::Binary32 => 24,
            Format::Binary64 => 53,
        }
    }

    /// Exponent of the reciprocal of the unit.
    pub fn unit_exponent(self) -> (u: u32)
        ensures
            u == self.unit(),
    {
        match self {
            Format::Binary32 => 149,
            Format::Binary64 => 1074,
        }
    }

    /// The largest scale of a finite number.
    pub fn largest_scale(self) -> (k: u32)
        ensures
            k == self.max_scale(),
    {
        match self {
            Format::Binary32 => 253,
            Format::Binary64 => 2045,
        }
    }
}

/// Rounds the number whose cell is `m * 2^e` units.
pub fn round_cell(format: Format, negative: bool, m: u128, e: i32, inexact: bool) -> (r: Float)
    requires
        -10_000 <= e <= 10_000,
        m < pow2(127),
        inexact ==> pow2(format.precision()) <= m,
    ensures
        forall|n: nat, d: nat|
            d > 0 && #[trigger] in_cell(m as nat, e as int, inexact, n, d) ==> r == rounded(
                format,
                negative,
                n,
                d,
            ),
{
    let p: u32 = format.significand_bits();
    proof {
        lemma_pow2_values();
    }
    if m == 0 {
        proof {
            assert forall|n: nat, d: nat|
                d > 0 && #[trigger] in_cell(0, e as int, false, n, d) implies rounded(
                format,
                negative,
                n,
                d,
            ) == (Float::Finite { negative, significand: 0, scale: 0 }) by {
                lemma_raised(e as int, 10_000);
                assert(0 * (raised(e as int) * d) == 0);
                let low = raised(-(e as int));
                assert(n == 0) by (nonlinear_arith)
                    requires
                        n * low == 0,
                        low > 0,
                ;
                lemma_pow2_pos(format.precision());
                let top = pow2(format.precision());
                assert(d * top > 0) by (nonlinear_arith)
                    requires
                        d > 0,
                        top > 0,
                ;
                assert(d * pow2(0) == d);
                lemma_rounded(format, negative, n, d, 0, 0);
            }
        }
        return Float::Finite { negative, significand: 0, scale: 0 };
    }
    let len: u32 = bit_length(m);
    proof {
        if len == 128 {
            assert(pow2(127) <= m);
        }
        if inexact && len <= p {
            lemma_pow2_ordered(len as nat, p as nat);
        }
    }
    let excess: i32 = e + len as i32 - p as i32;
    let k: i32 = if excess > 0 {
        excess
    } else {
        0
    };
    proof {
        assert forall|n: nat, d: nat|
            d > 0 && #[trigger] in_cell(m as nat, e as int, inexact, n, d) implies rounded(
            format,
            negative,
            n,
            d,
        ) == packed(format, negative, cell_significand(m as nat, e as int, inexact, k as nat), k as nat) by {
            lemma_cell_rounded(
                format,
                negative,
                m as nat,
                e as int,
                inexact,
                n,
                d,
                len as nat,
                k as nat,
            );
        }
    }
    let significand: u128 = round_significand(p, m, e, inexact, k, len);
    let ghost exact = significand as nat;
    let largest: i32 = format.largest_scale() as i32;
    let carried: bool = significand == power_of_two(p);
    let top: u128 = power_of_two(p - 1);
    let scale: i32 = if carried {
        k + 1
    } else {
        k
    };
    if scale > largest {
        Float::Infinite { negative }
    } else if carried {
        Float::Finite { negative, significand: top as u64, scale: scale as u32 }
    } else {
        Float::Finite { negative, significand: significand as u64, scale: scale as u32 }
    }
}

fn round_significand(p: u32, m: u128, e: i32, inexact: bool, k: i32, len: u32) -> (r: u128)
    requires
        24 <= p <= 53,
        -10_000 <= e <= 10_000,
        m < pow2(127),
        0 < len <= 127,
        pow2((len - 1) as nat) <= m < pow2(len as nat),
        k == if e + len > p {
            e + len - p
        } else {
            0
        },
        inexact ==> len > p,
    ensures
        r == cell_significand(m as nat, e as int, inexact, k as nat),
        r <= pow2(p as nat),
{
    if k <= e {
        let shift: u32 = (e - k) as u32;
        proof {
            lemma_pow2_adds(len as nat, shift as nat);
            lemma_pow2_ordered(len as nat + shift as nat, p as nat);
            lemma_pow2_ordered(p as nat, 127);
            lemma_pow2_values();
            lemma_times_ordered(m as nat, pow2(len as nat), pow2(shift as nat));
        }
        m * power_of_two(shift)
    } else {
        let s: u32 = (k - e) as u32;
        if s > len {
            proof {
                let half = pow2((s - 1) as nat);
                lemma_pow2_ordered(len as nat, (s - 1) as nat);
                vstd::arithmetic::div_mod::lemma_basic_div(m as int, (2 * half) as int);
                vstd::arithmetic::div_mod::lemma_small_mod(m as nat, 2 * half);
                lemma_pow2_pos(p as nat);
            }
            0
        } else {
            let half: u128 = power_of_two(s - 1);
            proof {
                lemma_pow2_ordered((s - 1) as nat, 126);
                lemma_pow2_unfold(127);
                lemma_pow2_values();
                lemma_pow2_pos((s - 1) as nat);
            }
            let whole: u128 = 2 * half;
            let q: u128 = m / whole;
            let r: u128 = m % whole;
            proof {
                lemma_pow2_unfold(s as nat);
                lemma_pow2_adds(s as nat, p as nat);
                lemma_pow2_ordered(len as nat, s as nat + p as nat);
                vstd::arithmetic::div_mod::lemma_fundamental_div_mod(m as int, whole as int);
                let top = pow2(p as nat);
                assert(q < top) by (nonlinear_arith)
                    requires
                        m == whole * q + r,
                        r >= 0,
                        m < whole * top,
                        whole > 0,
                ;
                lemma_pow2_ordered(p as nat, 53);
            }
            if r > half || (r == half && (inexact || q % 2 == 1)) {
                q + 1
            } else {
                q
            }
        }
    }
}

} // verus!
