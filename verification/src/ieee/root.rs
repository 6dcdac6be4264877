//! Square root.

use vstd::arithmetic::power2::*;
use vstd::prelude::*;

use crate::ieee::cell::{
    bit_length, cell_significand, in_cell, lemma_cell_rounded, lemma_pow2_ordered, power_of_two,
    raised, round_cell, rounds_up,
};
use crate::ieee::format::{Float, Format};
use crate::ieee::rounding::{lemma_pow2_values, lemma_rounded_valid, packed};

verus! {

pub open spec fn square(n: nat) -> nat {
    n * n
}

/// `m` is the integer nearest to the square root of `n / c`, and the even one
/// of two equally near.
pub open spec fn nearest_root(n: nat, c: nat, m: nat) -> bool {
    &&& m > 0 ==> square((2 * m - 1) as nat) * c <= 4 * n
    &&& 4 * n <= square(2 * m + 1) * c
    &&& m > 0 && square((2 * m - 1) as nat) * c == 4 * n ==> m % 2 == 0
    &&& 4 * n == square(2 * m + 1) * c ==> m % 2 == 0
}

/// `k` is the least scale at which the square root of `n` has at most `p`
/// significant bits before the point.
pub open spec fn is_root_scale(p: nat, n: nat, k: nat) -> bool {
    &&& n < square(pow2(p + k))
    &&& k > 0 ==> square(pow2((p + k - 1) as nat)) <= n
}

/// The number nearest to the square root of `n` units.
pub open spec fn rounded_root(format: Format, n: nat) -> Float {
    let k = choose|k: nat| is_root_scale(format.precision(), n, k);
    let m = choose|m: nat| nearest_root(n, square(pow2(k)), m);
    packed(format, false, m, k)
}

/// The square root of `a`.
pub open spec fn square_root(format: Format, a: Float) -> Float {
    match a {
        Float::NotANumber => Float::NotANumber,
        Float::Infinite { negative } => if negative {
            Float::NotANumber
        } else {
            a
        },
        Float::Finite { negative, .. } => if a.units() == 0 {
            a
        } else if negative {
            Float::NotANumber
        } else {
            rounded_root(format, a.units() * pow2(format.unit()))
        },
    }
}

pub proof fn lemma_square_ordered(a: nat, b: nat)
    requires
        a <= b,
    ensures
        square(a) <= square(b),
{
    assert(a * a <= b * b) by (nonlinear_arith)
        requires
            a <= b,
    ;
}

pub proof fn lemma_square_strict(a: nat, b: nat)
    requires
        a < b,
    ensures
        square(a) < square(b),
{
    assert(a * a < b * b) by (nonlinear_arith)
        requires
            a < b,
    ;
}

pub proof fn lemma_square_times(a: nat, b: nat)
    ensures
        square(a * b) == square(a) * square(b),
{
    assert((a * b) * (a * b) == (a * a) * (b * b)) by (nonlinear_arith);
}

proof fn lemma_root_scale_ordered(p: nat, n: nat, a: nat, b: nat)
    requires
        is_root_scale(p, n, a),
        is_root_scale(p, n, b),
    ensures
        b <= a,
{
    if a < b {
        lemma_pow2_ordered(p + a, (p + b - 1) as nat);
        lemma_square_ordered(pow2(p + a), pow2((p + b - 1) as nat));
    }
}

proof fn lemma_nearest_root_ordered(n: nat, c: nat, a: nat, b: nat)
    requires
        c > 0,
        nearest_root(n, c, a),
        nearest_root(n, c, b),
    ensures
        b <= a,
{
    if a < b {
        let x = square(2 * a + 1);
        let y = square((2 * b - 1) as nat);
        if a + 1 < b {
            lemma_square_strict(2 * a + 1, (2 * b - 1) as nat);
            assert(x * c < y * c) by (nonlinear_arith)
                requires
                    x < y,
                    c > 0,
            ;
        } else {
            assert(2 * a + 1 == 2 * b - 1);
            assert(a % 2 == 0 && b % 2 == 0);
        }
    }
}

/// A root known by its leading bits: `r * 2^e`, or strictly between it and
/// `(r + 1) * 2^e`.
spec fn root_in_cell(r: nat, e: nat, inexact: bool, n: nat) -> bool {
    if inexact {
        square(r * pow2(e)) < n < square((r + 1) * pow2(e))
    } else {
        n == square(r * pow2(e))
    }
}

proof fn lemma_root_cell(format: Format, r: nat, e: nat, inexact: bool, n: nat, len: nat, k: nat)
    requires
        len > 0,
        pow2((len - 1) as nat) <= r < pow2(len),
        root_in_cell(r, e, inexact, n),
        k == if e + len > format.precision() {
            e + len - format.precision()
        } else {
            0
        },
        inexact ==> len > format.precision(),
    ensures
        rounded_root(format, n) == packed(
            format,
            false,
            cell_significand(r, e as int, inexact, k),
            k,
        ),
{
    let p = format.precision();
    let m = cell_significand(r, e as int, inexact, k);
    let step = pow2(e);
    lemma_pow2_pos(e);
    assert((r + 1) * step == r * step + step) by (nonlinear_arith);
    lemma_square_strict(r * step, (r + 1) * step);
    // The scale.
    lemma_pow2_adds(len, e);
    lemma_pow2_ordered(len + e, p + k);
    let top = pow2(len);
    assert((r + 1) * step <= top * step) by (nonlinear_arith)
        requires
            r + 1 <= top,
    ;
    lemma_square_ordered((r + 1) * step, pow2(p + k));
    if k > 0 {
        let least = pow2((len - 1) as nat);
        lemma_pow2_adds((len - 1) as nat, e);
        assert((len - 1) as nat + e == (p + k - 1) as nat);
        assert(least * step <= r * step) by (nonlinear_arith)
            requires
                least <= r,
        ;
        lemma_square_ordered(least * step, r * step);
    }
    assert(is_root_scale(p, n, k));
    // The nearest integer.
    let whole = pow2(k);
    lemma_pow2_pos(k);
    if k <= e {
        let shift = (e - k) as nat;
        lemma_pow2_adds(shift, k);
        assert(r * step == m * whole) by (nonlinear_arith)
            requires
                m == r * pow2(shift),
                step == pow2(shift) * whole,
        ;
        lemma_root_exact(n, whole, m);
    } else {
        let half = pow2((k - e - 1) as nat);
        lemma_pow2_adds((k - e - 1) as nat, e);
        lemma_pow2_unfold(k);
        lemma_pow2_pos((k - e - 1) as nat);
        assert((k - e - 1) as nat + e == (k - 1) as nat);
        let q = r / (2 * half);
        let rest = r % (2 * half);
        vstd::arithmetic::div_mod::lemma_fundamental_div_mod(r as int, (2 * half) as int);
        assert(r == q * (2 * half) + rest) by (nonlinear_arith)
            requires
                r == (2 * half) * q + rest,
        ;
        lemma_root_rounds(r, step, inexact, n, q, rest, half);
        assert(whole == 2 * (half * step));
    }
    lemma_square_strict(0, whole);
    let chosen_k = choose|k: nat| is_root_scale(p, n, k);
    lemma_root_scale_ordered(p, n, chosen_k, k);
    lemma_root_scale_ordered(p, n, k, chosen_k);
    let chosen_m = choose|m: nat| nearest_root(n, square(pow2(k)), m);
    lemma_nearest_root_ordered(n, square(whole), chosen_m, m);
    lemma_nearest_root_ordered(n, square(whole), m, chosen_m);
}

proof fn lemma_root_exact(n: nat, whole: nat, m: nat)
    requires
        whole > 0,
        n == square(m * whole),
    ensures
        nearest_root(n, square(whole), m),
{
    let c = square(whole);
    lemma_square_strict(0, whole);
    lemma_square_times(m, whole);
    lemma_square_strict(2 * m, 2 * m + 1);
    lemma_square_times(2, m);
    assert(square(2 * m) * c == 4 * n) by (nonlinear_arith)
        requires
            square(2 * m) == square(2) * square(m),
            square(2) == 4,
            n == square(m) * c,
    ;
    let (low, mid, high) = (square((2 * m - 1) as nat), square(2 * m), square(2 * m + 1));
    assert(mid * c < high * c) by (nonlinear_arith)
        requires
            mid < high,
            c > 0,
    ;
    if m > 0 {
        lemma_square_strict((2 * m - 1) as nat, 2 * m);
        assert(low * c < mid * c) by (nonlinear_arith)
            requires
                low < mid,
                c > 0,
        ;
    }
}

proof fn lemma_root_rounds(r: nat, step: nat, inexact: bool, n: nat, q: nat, rest: nat, half: nat)
    requires
        step > 0,
        half > 0,
        rest < 2 * half,
        r == q * (2 * half) + rest,
        if inexact {
            square(r * step) < n < square((r + 1) * step)
        } else {
            n == square(r * step)
        },
    ensures
        nearest_root(
            n,
            square(2 * (half * step)),
            if rounds_up(q, rest, half, inexact) {
                q + 1
            } else {
                q
            },
        ),
{
    let c = square(2 * (half * step));
    let w = half * step;
    let middle = (2 * q + 1) * w;
    assert(w > 0) by (nonlinear_arith)
        requires
            w == half * step,
            half > 0,
            step > 0,
    ;
    lemma_odd_square(q, w);
    lemma_odd_square(q + 1, w);
    if q > 0 {
        lemma_odd_square((q - 1) as nat, w);
    }
    assert((r + 1) * step == r * step + step) by (nonlinear_arith);
    lemma_square_strict(r * step, (r + 1) * step);
    // Positions of the cell among the half-integers.
    assert(r * step == (2 * q) * w + rest * step) by (nonlinear_arith)
        requires
            r == q * (2 * half) + rest,
            w == half * step,
    ;
    assert(middle == (2 * q) * w + w) by (nonlinear_arith)
        requires
            middle == (2 * q + 1) * w,
    ;
    assert((2 * (q + 1) + 1) * w == middle + 2 * w) by (nonlinear_arith)
        requires
            middle == (2 * q + 1) * w,
    ;
    assert(rest * step + step <= 2 * w) by (nonlinear_arith)
        requires
            rest + 1 <= 2 * half,
            w == half * step,
    ;
    lemma_square_ordered((r + 1) * step, middle + 2 * w);
    if q > 0 {
        assert((2 * (q - 1) + 1) * w == middle - 2 * w) by (nonlinear_arith)
            requires
                middle == (2 * q + 1) * w,
        ;
        lemma_square_strict((middle - 2 * w) as nat, r * step);
    }
    lemma_square_strict(r * step, middle + 2 * w);
    if rest < half {
        assert(rest * step + step <= w) by (nonlinear_arith)
            requires
                rest + 1 <= half,
                w == half * step,
        ;
        lemma_square_ordered((r + 1) * step, middle);
        lemma_square_strict(r * step, middle);
    } else if rest > half {
        assert(rest * step >= w + step) by (nonlinear_arith)
            requires
                rest >= half + 1,
                w == half * step,
        ;
        lemma_square_strict(middle, r * step);
    } else {
        assert(r * step == middle);
    }
}

/// `(2q + 1)^2 * (2w)^2 = 4 * ((2q + 1) * w)^2`.
proof fn lemma_odd_square(q: nat, w: nat)
    ensures
        square(2 * q + 1) * square(2 * w) == 4 * square((2 * q + 1) * w),
{
    lemma_square_times(2, w);
    lemma_square_times(2 * q + 1, w);
    assert(square(2) == 4);
    let (a, b) = (square(2 * q + 1), square(w));
    assert(a * (4 * b) == 4 * (a * b)) by (nonlinear_arith);
}

/// The integer square root.
fn integer_root(n: u128) -> (r: u128)
    requires
        n < pow2(126),
    ensures
        square(r as nat) <= n < square((r + 1) as nat),
        r < pow2(63),
{
    let mut root: u128 = 0;
    let mut i: u32 = 63;
    proof {
        lemma_pow2_values();
        lemma_pow2_adds(63, 63);
    }
    while i > 0
        invariant
            i <= 63,
            root + pow2(i as nat) <= pow2(63),
            square(root as nat) <= n < square((root + pow2(i as nat)) as nat),
        decreases i,
    {
        i = i - 1;
        let bit: u128 = power_of_two(i);
        proof {
            lemma_pow2_unfold((i + 1) as nat);
            lemma_pow2_values();
            let next = root + bit;
            assert(next * next < 0x8000_0000_0000_0000 * 0x8000_0000_0000_0000)
                by (nonlinear_arith)
                requires
                    0 <= next < 0x8000_0000_0000_0000,
            ;
        }
        let next: u128 = root + bit;
        if next * next <= n {
            root = next;
        }
    }
    root
}

/// The square root of `a`.
pub fn sqrt(format: Format, a: Float) -> (r: Float)
    requires
        a.valid(format),
    ensures
        r == square_root(format, a),
        r.valid(format),
{
    match a {
        Float::NotANumber => Float::NotANumber,
        Float::Infinite { negative } => if negative {
            Float::NotANumber
        } else {
            a
        },
        Float::Finite { negative, significand, scale } => {
            let ghost power = pow2(scale as nat);
            proof {
                lemma_pow2_values();
                lemma_pow2_pos(scale as nat);
                assert(0 * power == 0);
                if significand > 0 {
                    assert(significand * power > 0) by (nonlinear_arith)
                        requires
                            significand > 0,
                            power > 0,
                    ;
                }
            }
            if significand == 0 {
                a
            } else if negative {
                Float::NotANumber
            } else {
                sqrt_positive(format, significand, scale)
            }
        },
    }
}

fn sqrt_positive(format: Format, x: u64, k: u32) -> (r: Float)
    requires
        0 < x < pow2(53),
        k <= 2045,
    ensures
        r == rounded_root(format, (x as nat * pow2(k as nat)) * pow2(format.unit())),
        r.valid(format),
{
    proof {
        lemma_pow2_values();
    }
    let total: u32 = k + format.unit_exponent();
    let len: u32 = bit_length(x as u128);
    proof {
        if len > 54 {
            lemma_pow2_strictly_increases(53, (len - 1) as nat);
        }
    }
    let shift: u32 = if (total + len) % 2 == 0 {
        126 - len
    } else {
        125 - len
    };
    let e: u32 = (total - shift) / 2;
    let power: u128 = power_of_two(shift);
    let ghost n = (x as nat * pow2(k as nat)) * pow2(format.unit());
    proof {
        lemma_pow2_pos(shift as nat);
        lemma_pow2_adds(len as nat, shift as nat);
        lemma_pow2_adds((len - 1) as nat, shift as nat);
        lemma_pow2_ordered(len as nat + shift as nat, 126);
        lemma_pow2_ordered(124, (len - 1) as nat + shift as nat);
        let most = pow2(len as nat);
        let least = pow2((len - 1) as nat);
        assert(x * power < most * power) by (nonlinear_arith)
            requires
                x < most,
                power > 0,
        ;
        assert(x * power >= least * power) by (nonlinear_arith)
            requires
                x >= least,
        ;
        lemma_pow2_strictly_increases(126, 127);
    }
    let big: u128 = x as u128 * power;
    let root: u128 = integer_root(big);
    proof {
        lemma_pow2_ordered(63, 64);
        assert(root * root <= big);
    }
    let inexact: bool = root * root != big;
    proof {
        // n = big * 2^(2e)
        lemma_pow2_adds(k as nat, format.unit());
        lemma_pow2_adds(shift as nat, (2 * e) as nat);
        lemma_pow2_adds(e as nat, e as nat);
        assert(shift as nat + (2 * e) as nat == total as nat);
        let step = pow2(e as nat);
        lemma_pow2_pos(e as nat);
        assert(n == big * square(step)) by (nonlinear_arith)
            requires
                n == (x as nat * pow2(k as nat)) * pow2(format.unit()),
                pow2(total as nat) == pow2(k as nat) * pow2(format.unit()),
                pow2(total as nat) == power * square(step),
                big == x * power,
        ;
        lemma_square_times(root as nat, step);
        lemma_square_times((root + 1) as nat, step);
        let c = square(step);
        lemma_square_strict(0, step);
        let (low, high) = (square(root as nat), square((root + 1) as nat));
        assert(big * c < high * c) by (nonlinear_arith)
            requires
                big < high,
                c > 0,
        ;
        if inexact {
            assert(low * c < big * c) by (nonlinear_arith)
                requires
                    low < big,
                    c > 0,
            ;
        }
        assert(root_in_cell(root as nat, e as nat, inexact, n));
        // The root has 63 bits.
        lemma_pow2_adds(62, 62);
        if root < pow2(62) {
            lemma_square_ordered((root + 1) as nat, pow2(62));
        }
        lemma_root_cell(format, root as nat, e as nat, inexact, n, 63, (e + 63 - format.precision()) as nat);
        // The same cell holds a fraction.
        let m = (2 * root + if inexact {
            1int
        } else {
            0
        }) as nat * step;
        assert(raised(e as int) == step);
        assert(raised(-(e as int)) == 1);
        assert(in_cell(root as nat, e as int, inexact, m, 2)) by {
            assert(root * (step * 2) == (2 * root) * step) by (nonlinear_arith);
            assert((root + 1) * (step * 2) == (2 * root + 1) * step + step) by (nonlinear_arith);
            assert((2 * root + 1) * step == (2 * root) * step + step) by (nonlinear_arith);
        }
        lemma_cell_rounded(
            format,
            false,
            root as nat,
            e as int,
            inexact,
            m,
            2,
            63,
            (e + 63 - format.precision()) as nat,
        );
        lemma_rounded_valid(format, false, m, 2);
        lemma_pow2_ordered(format.precision(), 62);
        lemma_pow2_strictly_increases(63, 127);
    }
    round_cell(format, false, root, e as i32, inexact)
}

/// Every root has a scale and a nearest integer at that scale.
pub proof fn lemma_rounded_root(format: Format, n: nat) -> (r: (nat, nat))
    ensures
        is_root_scale(format.precision(), n, r.0),
        nearest_root(n, square(pow2(r.0)), r.1),
        r.1 <= pow2(format.precision()),
        rounded_root(format, n) == packed(format, false, r.1, r.0),
{
    let p = format.precision();
    lemma_below_square(p, n);
    let k = lemma_root_scale_search(p, n, n);
    let step = pow2(k);
    lemma_pow2_pos(k);
    lemma_square_strict(0, step);
    let c = square(step);
    assert(n < square(n + 1) * c) by (nonlinear_arith)
        requires
            square(n + 1) == (n + 1) * (n + 1),
            c > 0,
    ;
    let q = lemma_floor_root_search(n, c, n + 1);
    let middle = square(2 * q + 1);
    let m = if 4 * n < middle * c || (4 * n == middle * c && q % 2 == 0) {
        q
    } else {
        q + 1
    };
    assert(nearest_root(n, c, m)) by {
        lemma_square_times(2, q);
        lemma_square_times(2, q + 1);
        assert(square(2) == 4);
        let (a, b) = (square(q), square(q + 1));
        assert((4 * a) * c == 4 * (a * c)) by (nonlinear_arith);
        assert((4 * b) * c == 4 * (b * c)) by (nonlinear_arith);
        let above = square(2 * (q + 1) + 1);
        lemma_square_strict(2 * (q + 1), 2 * (q + 1) + 1);
        assert((4 * b) * c < above * c) by (nonlinear_arith)
            requires
                4 * b < above,
                c > 0,
        ;
        if q > 0 {
            let below = square((2 * q - 1) as nat);
            lemma_square_strict((2 * q - 1) as nat, 2 * q);
            assert(below * c < (4 * a) * c) by (nonlinear_arith)
                requires
                    below < 4 * a,
                    c > 0,
            ;
        }
        assert((2 * (q + 1) - 1) as nat == 2 * q + 1);
    }
    let chosen_k = choose|k: nat| is_root_scale(p, n, k);
    lemma_root_scale_ordered(p, n, chosen_k, k);
    lemma_root_scale_ordered(p, n, k, chosen_k);
    let chosen_m = choose|m: nat| nearest_root(n, c, m);
    lemma_nearest_root_ordered(n, c, chosen_m, m);
    lemma_nearest_root_ordered(n, c, m, chosen_m);
    let top = pow2(p);
    if m > top {
        lemma_pow2_adds(p, k);
        lemma_square_times(top, step);
        lemma_square_ordered(2 * top, (2 * m - 1) as nat);
        lemma_square_times(2, top);
        assert(square(2) == 4);
        let (x, y) = (square((2 * m - 1) as nat), square(top));
        assert(x * c >= 4 * (y * c)) by (nonlinear_arith)
            requires
                x >= 4 * y,
        ;
    }
    (k, m)
}

proof fn lemma_below_square(p: nat, n: nat)
    ensures
        n < square(pow2(p + n)),
    decreases n,
{
    let power = pow2(p + n);
    lemma_pow2_pos(p + n);
    if n == 0 {
        lemma_square_strict(0, power);
    } else {
        lemma_below_square(p, (n - 1) as nat);
        lemma_pow2_unfold(p + n);
        let half = pow2((p + n - 1) as nat);
        assert((p + (n - 1) as nat) as nat == (p + n - 1) as nat);
        assert(power * power >= half * half + 1) by (nonlinear_arith)
            requires
                power == 2 * half,
                power > 0,
        ;
    }
}

proof fn lemma_root_scale_search(p: nat, n: nat, bound: nat) -> (k: nat)
    requires
        n < square(pow2(p + bound)),
    ensures
        is_root_scale(p, n, k),
    decreases bound,
{
    if bound == 0 || square(pow2((p + bound - 1) as nat)) <= n {
        bound
    } else {
        lemma_root_scale_search(p, n, (bound - 1) as nat)
    }
}

proof fn lemma_floor_root_search(n: nat, c: nat, bound: nat) -> (q: nat)
    requires
        bound > 0,
        n < square(bound) * c,
    ensures
        square(q) * c <= n < square(q + 1) * c,
    decreases bound,
{
    let below = (bound - 1) as nat;
    if square(below) * c <= n {
        below
    } else {
        if below == 0 {
            assert(square(below) * c == 0) by (nonlinear_arith)
                requires
                    square(below) == 0,
            ;
        }
        lemma_floor_root_search(n, c, below)
    }
}

} // verus!
