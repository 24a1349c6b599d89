//! Fixed-point scalar arithmetic: multiplication, flooring division, integer
//! square root and a sine approximation, each with an exact specification.

use vstd::prelude::*;

verus! {

/// Fixed-point value of the circle constant pi.
pub const PI_FX: i64 = 205887;

/// Largest magnitude accepted by [`sin_fx`]: an even number of half-waves,
/// so that shifting an argument into range does not change the result.
pub const SIN_ARG_MAX: i64 = 205887 * 131072;

/// Flooring division: rounds toward minus infinity, extended to negative
/// divisors by `floor(a / b) == floor(-a / -b)`.
pub open spec fn div_floor(a: int, b: int) -> int {
    if b < 0 {
        (-a) / (-b)
    } else {
        a / b
    }
}

/// Product of two fixed-point numbers, rounded toward minus infinity.
pub open spec fn fx_mul(a: int, b: int) -> int {
    div_floor(a * b, crate::SCALE as int)
}

/// Quotient of two fixed-point numbers, rounded toward minus infinity.
pub open spec fn fx_div(a: int, b: int) -> int {
    div_floor(a * (crate::SCALE as int), b)
}

/// The integer square root: the unique `r >= 0` with `r * r <= x < (r+1)*(r+1)`.
pub open spec fn sqrt_i(x: int) -> int {
    choose|r: int| 0 <= r && #[trigger] (r * r) <= x && x < (r + 1) * (r + 1)
}

/// One half-wave of the sine approximation, for arguments in `[0, PI_FX]`:
/// `16 z / (5 pi^2 - 4 z)` with `z = x (pi - x)`, all in fixed point.
pub open spec fn sin_half_wave(x: int) -> int {
    let z = x * (PI_FX as int - x);
    div_floor(16 * z * (crate::SCALE as int), 5 * (PI_FX as int) * (PI_FX as int) - 4 * z)
}

/// Sine of a fixed-point angle: the argument is reduced modulo `PI_FX` and
/// the half-wave value negated on odd multiples.
pub open spec fn sin_fx_spec(x: int) -> int {
    let m = div_floor(x, PI_FX as int);
    let rem = x - m * (PI_FX as int);
    if m % 2 == 0 {
        sin_half_wave(rem)
    } else {
        -sin_half_wave(rem)
    }
}

/// Cosine, as the sine shifted by a quarter turn.
pub open spec fn cos_fx_spec(x: int) -> int {
    sin_fx_spec(x + 102944)
}

/// Flooring division of an `i128` by a positive divisor.
pub fn div_floor_i128(a: i128, b: i128) -> (q: i128)
    requires
        b > 0,
        a > i128::MIN,
    ensures
        q == div_floor(a as int, b as int),
{
    if a >= 0 {
        ((a as u128) / (b as u128)) as i128
    } else {
        let na = (-a) as u128;
        let bu = b as u128;
        let q = (na - 1) / bu + 1;
        proof {
            lemma_neg_div_floor(a as int, b as int, q as int);
        }
        -(q as i128)
    }
}

/// For `a < 0 < b`, the flooring quotient is minus the ceiling of `-a / b`.
proof fn lemma_neg_div_floor(a: int, b: int, q: int)
    requires
        a < 0,
        b > 0,
        q == (-a - 1) / b + 1,
    ensures
        -q == div_floor(a, b),
{
    let na = -a;
    let m = (na - 1) / b;
    vstd::arithmetic::div_mod::lemma_fundamental_div_mod(na - 1, b);
    let r = (na - 1) % b;
    assert(na - 1 == b * m + r);
    assert(0 <= r < b) by {
        vstd::arithmetic::div_mod::lemma_mod_bound(na - 1, b);
    }
    assert(a == b * (-(m + 1)) + (b - 1 - r)) by {
        assert(b * (-(m + 1)) == -(b * m) - b) by (nonlinear_arith);
    }
    vstd::arithmetic::div_mod::lemma_fundamental_div_mod_converse(a, b, -(m + 1), b - 1 - r);
    assert(a / b == -(m + 1));
}

/// A quotient with divisor at least 1 and dividend within `m * b` has
/// magnitude at most `m`.
pub proof fn lemma_div_floor_abs(a: int, b: int, m: int)
    requires
        b >= 1,
        0 <= m,
        -(m * b) <= a <= m * b,
    ensures
        -m <= div_floor(a, b) <= m,
{
    vstd::arithmetic::div_mod::lemma_div_by_multiple(m, b);
    assert(-(m * b) == b * (-m) + 0) by (nonlinear_arith);
    vstd::arithmetic::div_mod::lemma_fundamental_div_mod_converse(-(m * b), b, -m, 0);
    vstd::arithmetic::div_mod::lemma_div_is_ordered(a, m * b, b);
    vstd::arithmetic::div_mod::lemma_div_is_ordered(-(m * b), a, b);
}

/// A nonnegative dividend strictly below `m * b` has quotient strictly
/// below `m`.
pub proof fn lemma_div_floor_lt(a: int, b: int, m: int)
    requires
        b >= 1,
        1 <= m,
        0 <= a,
        a < m * b,
    ensures
        0 <= div_floor(a, b) < m,
{
    vstd::arithmetic::div_mod::lemma_div_pos_is_pos(a, b);
    assert(m * b - 1 == (m - 1) * b + (b - 1) && (m - 1) * b == b * (m - 1)) by (nonlinear_arith);
    vstd::arithmetic::div_mod::lemma_fundamental_div_mod_converse(m * b - 1, b, m - 1, b - 1);
    vstd::arithmetic::div_mod::lemma_div_is_ordered(a, m * b - 1, b);
}

/// Magnitude bound for a product from magnitude bounds on its factors.
pub proof fn lemma_mul_abs(a: int, b: int, ma: int, mb: int)
    by (nonlinear_arith)
    requires
        -ma <= a <= ma,
        -mb <= b <= mb,
    ensures
        -(ma * mb) <= a * b <= ma * mb,
{
}

/// General magnitude bound for a fixed-point product.
pub proof fn lemma_fx_mul_bound(a: int, b: int, ma: int, mb: int, m: int)
    requires
        0 <= ma,
        0 <= mb,
        0 <= m,
        -ma <= a <= ma,
        -mb <= b <= mb,
        ma * mb <= m * 65536,
    ensures
        -m <= fx_mul(a, b) <= m,
{
    lemma_mul_abs(a, b, ma, mb);
    lemma_div_floor_abs(a * b, crate::SCALE as int, m);
}

/// General magnitude bound for a fixed-point quotient with a positive
/// divisor bounded from below.
pub proof fn lemma_fx_div_bound(a: int, b: int, ma: int, blo: int, m: int)
    requires
        0 <= ma,
        0 <= m,
        -ma <= a <= ma,
        b >= blo,
        blo >= 1,
        ma * 65536 <= m * blo,
    ensures
        -m <= fx_div(a, b) <= m,
{
    lemma_mul_abs(a, crate::SCALE as int, ma, crate::SCALE as int);
    assert(m * blo <= m * b) by (nonlinear_arith)
        requires
            0 <= m,
            blo <= b,
    ;
    lemma_div_floor_abs(a * (crate::SCALE as int), b, m);
}

/// Fixed-point products of operands up to `2^39` fit the machine word.
pub proof fn lemma_fx_small(a: int, b: int)
    requires
        -0x80_0000_0000 <= a <= 0x80_0000_0000,
        -0x80_0000_0000 <= b <= 0x80_0000_0000,
    ensures
        -0x4000_0000_0000_0000 <= fx_mul(a, b) <= 0x4000_0000_0000_0000,
{
    lemma_mul_abs(a, b, 0x80_0000_0000, 0x80_0000_0000);
    lemma_div_floor_abs(a * b, crate::SCALE as int, 0x4000_0000_0000_0000);
}

/// Fixed-point quotients of a dividend up to `2^39` fit the machine word.
pub proof fn lemma_fx_div_small(a: int, b: int)
    requires
        -0x80_0000_0000 <= a <= 0x80_0000_0000,
        b != 0,
    ensures
        -0x80_0000_0000_0000 <= fx_div(a, b) <= 0x80_0000_0000_0000,
{
    let s = crate::SCALE as int;
    let m = 0x80_0000_0000_0000int;
    lemma_mul_abs(a, s, 0x80_0000_0000, s);
    if b > 0 {
        assert(m * b >= m) by (nonlinear_arith)
            requires
                b >= 1,
                m > 0,
        ;
        lemma_div_floor_abs(a * s, b, m);
    } else {
        assert(m * (-b) >= m) by (nonlinear_arith)
            requires
                -b >= 1,
                m > 0,
        ;
        lemma_div_floor_abs(-(a * s), -b, m);
        assert(fx_div(a, b) == div_floor(-(a * s), -b));
    }
}

/// Fixed-point product of two machine words.
pub fn mul_fx(a: i64, b: i64) -> (r: i64)
    requires
        i64::MIN <= fx_mul(a as int, b as int) <= i64::MAX,
    ensures
        r == fx_mul(a as int, b as int),
{
    let p: i128 = (a as i128) * (b as i128);
    let q = div_floor_i128(p, crate::SCALE as i128);
    q as i64
}

/// Fixed-point quotient of two machine words.
pub fn div_fx(a: i64, b: i64) -> (r: i64)
    requires
        b != 0,
        i64::MIN <= fx_div(a as int, b as int) <= i64::MAX,
    ensures
        r == fx_div(a as int, b as int),
{
    let num: i128 = (a as i128) * (crate::SCALE as i128);
    let q = if b < 0 {
        div_floor_i128(-num, -(b as i128))
    } else {
        div_floor_i128(num, b as i128)
    };
    q as i64
}

/// The chosen root of [`sqrt_i`] is pinned by any witness.
pub proof fn lemma_sqrt_i(x: int, r: int)
    requires
        0 <= r,
        r * r <= x,
        x < (r + 1) * (r + 1),
    ensures
        sqrt_i(x) == r,
{
    assert(0 <= r && r * r <= x && x < (r + 1) * (r + 1));
    let c = sqrt_i(x);
    assert(0 <= c && c * c <= x && x < (c + 1) * (c + 1));
    if c < r {
        assert((c + 1) * (c + 1) <= r * r) by (nonlinear_arith)
            requires
                0 <= c,
                c < r,
        ;
    }
    if r < c {
        assert((r + 1) * (r + 1) <= c * c) by (nonlinear_arith)
            requires
                0 <= r,
                r < c,
        ;
    }
}

/// Every nonnegative integer has an integer square root, so the chosen
/// root carries its defining properties.
pub proof fn lemma_sqrt_exists(x: int)
    requires
        0 <= x,
    ensures
        0 <= sqrt_i(x),
        sqrt_i(x) * sqrt_i(x) <= x,
        x < (sqrt_i(x) + 1) * (sqrt_i(x) + 1),
    decreases x,
{
    if x == 0 {
        lemma_sqrt_i(0, 0);
    } else {
        lemma_sqrt_exists(x - 1);
        let r = sqrt_i(x - 1);
        if x < (r + 1) * (r + 1) {
            lemma_sqrt_i(x, r);
        } else {
            assert(x == (r + 1) * (r + 1));
            assert((r + 1) * (r + 1) < (r + 2) * (r + 2)) by (nonlinear_arith)
                requires
                    r >= 0,
            ;
            lemma_sqrt_i(x, r + 1);
        }
    }
}

/// Integer square root by bisection.
pub fn isqrt_u128(x: u128) -> (r: u128)
    ensures
        r == sqrt_i(x as int),
        (r as int) * (r as int) <= x as int,
        (x as int) < (r as int + 1) * (r as int + 1),
{
    let mut lo: u128 = 0;
    let mut hi: u128 = 0x1_0000_0000_0000_0000;
    proof {
        assert((hi as int) * (hi as int) > x as int) by (nonlinear_arith)
            requires
                hi == 0x1_0000_0000_0000_0000u128,
                x <= u128::MAX,
        ;
    }
    while hi - lo > 1
        invariant
            0 <= lo < hi <= 0x1_0000_0000_0000_0000,
            (lo as int) * (lo as int) <= x as int,
            (x as int) < (hi as int) * (hi as int),
        decreases hi - lo,
    {
        let mid = lo + (hi - lo) / 2;
        proof {
            assert((mid as int) * (mid as int) < 0x1_0000_0000_0000_0000_0000_0000_0000_0000)
                by (nonlinear_arith)
                requires
                    mid < 0x1_0000_0000_0000_0000u128,
            ;
        }
        if mid * mid <= x {
            lo = mid;
        } else {
            hi = mid;
        }
    }
    proof {
        lemma_sqrt_i(x as int, lo as int);
    }
    lo
}

/// Square root of a nonnegative fixed-point number, as a fixed-point number:
/// the integer square root of the value rescaled by one extra factor.
pub fn sqrt_fx(a: i64) -> (r: i64)
    requires
        a >= 0,
    ensures
        r == sqrt_i(a * (crate::SCALE as int)),
        (r as int) * (r as int) <= a * (crate::SCALE as int),
        a * (crate::SCALE as int) < (r as int + 1) * (r as int + 1),
        0 <= r < 0x100_0000_0000,
{
    let v: u128 = (a as u128) * 65536;
    let r = isqrt_u128(v);
    proof {
        assert(v as int == a as int * 65536);
        assert(r < 0x100_0000_0000) by (nonlinear_arith)
            requires
                (r as int) * (r as int) <= (a as int) * 65536,
                a <= i64::MAX,
        ;
    }
    r as i64
}

/// One half-wave of the sine: `z` stays within a quarter of `pi^2`.
proof fn lemma_half_wave_z(x: int)
    by (nonlinear_arith)
    requires
        0 <= x <= PI_FX as int,
    ensures
        0 <= x * (PI_FX as int - x),
        4 * (x * (PI_FX as int - x)) <= (PI_FX as int) * (PI_FX as int),
{
}

/// The half-wave value lies in `[0, SCALE]`.
pub proof fn lemma_sin_half_wave_bounds(x: int)
    requires
        0 <= x <= PI_FX as int,
    ensures
        0 <= sin_half_wave(x) <= crate::SCALE as int,
{
    lemma_half_wave_z(x);
    let z = x * (PI_FX as int - x);
    let den = 5 * (PI_FX as int) * (PI_FX as int) - 4 * z;
    let num = 16 * z * (crate::SCALE as int);
    assert(den >= 4 * (PI_FX as int) * (PI_FX as int));
    assert(num >= 0);
    vstd::arithmetic::div_mod::lemma_div_pos_is_pos(num, den);
    assert(num <= den * (crate::SCALE as int)) by (nonlinear_arith)
        requires
            num == 16 * z * (crate::SCALE as int),
            den == 5 * (PI_FX as int) * (PI_FX as int) - 4 * z,
            0 <= z,
            4 * z <= (PI_FX as int) * (PI_FX as int),
    ;
    lemma_div_floor_abs(num, den, crate::SCALE as int);
}

/// Sine of a fixed-point angle, exact against [`sin_fx_spec`].
pub fn sin_fx(x: i64) -> (r: i64)
    requires
        -SIN_ARG_MAX <= x <= SIN_ARG_MAX,
    ensures
        r == sin_fx_spec(x as int),
        -(crate::SCALE as int) <= r <= crate::SCALE as int,
{
    let shift: i128 = (PI_FX as i128) * 131072;
    let xs: i128 = (x as i128) + shift;
    let m = div_floor_i128(xs, PI_FX as i128);
    let rem = xs - m * (PI_FX as i128);
    proof {
        vstd::arithmetic::div_mod::lemma_fundamental_div_mod(xs as int, PI_FX as int);
        vstd::arithmetic::div_mod::lemma_mod_bound(xs as int, PI_FX as int);
        assert(m * (PI_FX as int) == (PI_FX as int) * m) by (nonlinear_arith);
        assert(0 <= rem < PI_FX as int);
        // the shift moves the quotient by an even amount and keeps the remainder
        vstd::arithmetic::div_mod::lemma_hoist_over_denominator(x as int, 131072, PI_FX as nat);
        assert(m == div_floor(x as int, PI_FX as int) + 131072);
        let m0 = div_floor(x as int, PI_FX as int);
        assert(m % 2 == m0 % 2) by {
            vstd::arithmetic::div_mod::lemma_mod_add_multiples_vanish(m0, 2);
            assert(m == 2 * 65536 + m0);
        }
        assert(rem == x as int - m0 * (PI_FX as int)) by (nonlinear_arith)
            requires
                m == m0 + 131072,
                rem == xs - m * (PI_FX as i128),
                xs == x as i128 + (PI_FX as i128) * 131072,
        ;
    }
    proof {
        vstd::arithmetic::div_mod::lemma_div_pos_is_pos(xs as int, PI_FX as int);
        lemma_half_wave_z(rem as int);
        lemma_sin_half_wave_bounds(rem as int);
    }
    let z: i128 = rem * ((PI_FX as i128) - rem);
    let den: i128 = 5 * (PI_FX as i128) * (PI_FX as i128) - 4 * z;
    let num: i128 = 16 * z * (crate::SCALE as i128);
    let q = div_floor_i128(num, den);
    let half = q as i64;
    if m % 2 == 0 {
        proof {
            assert((m as int) % 2 == 0);
        }
        half
    } else {
        proof {
            assert((m as int) % 2 == 1);
        }
        -half
    }
}

/// Arctangent on `[0, 1]` in fixed point:
/// `atan(q) ~ (pi/4) q + 0.273 q (1 - q)`.
pub open spec fn atan_01_spec(q: int) -> int {
    fx_mul(q, 51472) + fx_mul(fx_mul(q, crate::SCALE as int - q), 17891)
}

/// Two-argument arctangent in fixed point, in `(-pi, pi]`; both arguments
/// zero yields zero.
pub open spec fn atan2_spec(y: int, x: int) -> int {
    let ax = if x < 0 {
        -x
    } else {
        x
    };
    let ay = if y < 0 {
        -y
    } else {
        y
    };
    if ax == 0 && ay == 0 {
        0
    } else {
        let base = if ay <= ax {
            atan_01_spec(fx_div(ay, ax))
        } else {
            102944 - atan_01_spec(fx_div(ax, ay))
        };
        if x >= 0 {
            if y >= 0 {
                base
            } else {
                -base
            }
        } else {
            if y >= 0 {
                (PI_FX as int) - base
            } else {
                -((PI_FX as int) - base)
            }
        }
    }
}

/// The arctangent on `[0, SCALE]` stays within `[0, 55945]` (a bit over
/// a quarter turn).
pub proof fn lemma_atan_01_bounds(q: int)
    requires
        0 <= q <= crate::SCALE as int,
    ensures
        0 <= atan_01_spec(q) <= 55945,
{
    let s = crate::SCALE as int;
    lemma_mul_abs(q, 51472, s, 51472);
    lemma_div_floor_abs(q * 51472, s, 51472);
    vstd::arithmetic::div_mod::lemma_div_pos_is_pos(q * 51472, s);
    assert(q * 51472 >= 0) by (nonlinear_arith)
        requires
            q >= 0,
    ;
    assert(0 <= q * (s - q) <= 16384 * s) by (nonlinear_arith)
        requires
            0 <= q <= s,
            s == 65536,
    ;
    lemma_div_floor_abs(q * (s - q), s, 16384);
    vstd::arithmetic::div_mod::lemma_div_pos_is_pos(q * (s - q), s);
    let inner = fx_mul(q, s - q);
    assert(0 <= inner <= 16384);
    vstd::arithmetic::div_mod::lemma_div_pos_is_pos(inner * 17891, s);
    assert(inner * 17891 >= 0) by (nonlinear_arith)
        requires
            inner >= 0,
    ;
    assert(fx_mul(inner, 17891) <= 4473) by {
        assert(inner * 17891 < 4474 * s) by (nonlinear_arith)
            requires
                0 <= inner <= 16384,
                s == 65536,
        ;
        lemma_div_floor_lt(inner * 17891, s, 4474);
    }
}

/// Arctangent on the unit interval, exact against [`atan_01_spec`].
fn atan_01(q: i64) -> (r: i64)
    requires
        0 <= q <= crate::SCALE as int,
    ensures
        r == atan_01_spec(q as int),
        0 <= r <= 55945,
{
    proof {
        lemma_atan_01_bounds(q as int);
        lemma_mul_abs(q as int, 51472, crate::SCALE as int, 51472);
        lemma_div_floor_abs((q as int) * 51472, crate::SCALE as int, 51472);
        lemma_mul_abs(q as int, crate::SCALE as int - q as int, crate::SCALE as int, crate::SCALE as int);
        lemma_div_floor_abs((q as int) * (crate::SCALE as int - q as int), crate::SCALE as int, crate::SCALE as int);
        let inner = fx_mul(q as int, crate::SCALE as int - q as int);
        lemma_mul_abs(inner, 17891, crate::SCALE as int, 17891);
        lemma_div_floor_abs(inner * 17891, crate::SCALE as int, crate::SCALE as int * 17891);
    }
    let a = mul_fx(q, 51472);
    let b = mul_fx(mul_fx(q, crate::SCALE - q), 17891);
    a + b
}

/// Quotient of two magnitudes with the numerator at most the denominator
/// stays in the unit interval.
pub proof fn lemma_fx_div_unit(a: int, b: int)
    requires
        0 <= a <= b,
        b >= 1,
    ensures
        0 <= fx_div(a, b) <= crate::SCALE as int,
{
    let s = crate::SCALE as int;
    assert(a * s >= 0) by (nonlinear_arith)
        requires
            a >= 0,
            s > 0,
    ;
    vstd::arithmetic::div_mod::lemma_div_pos_is_pos(a * s, b);
    assert(a * s <= s * b) by (nonlinear_arith)
        requires
            0 <= a <= b,
            s > 0,
    ;
    lemma_div_floor_abs(a * s, b, s);
}

/// Two-argument arctangent, exact against [`atan2_spec`].
pub fn atan2_fx(y: i64, x: i64) -> (r: i64)
    requires
        -0x10_0000 <= y <= 0x10_0000,
        -0x10_0000 <= x <= 0x10_0000,
    ensures
        r == atan2_spec(y as int, x as int),
        -(PI_FX as int) <= r <= PI_FX as int,
{
    let ax = if x < 0 {
        -x
    } else {
        x
    };
    let ay = if y < 0 {
        -y
    } else {
        y
    };
    if ax == 0 && ay == 0 {
        return 0;
    }
    let base = if ay <= ax {
        proof {
            lemma_fx_div_unit(ay as int, ax as int);
        }
        atan_01(div_fx(ay, ax))
    } else {
        proof {
            lemma_fx_div_unit(ax as int, ay as int);
        }
        102944 - atan_01(div_fx(ax, ay))
    };
    if x >= 0 {
        if y >= 0 {
            base
        } else {
            -base
        }
    } else {
        if y >= 0 {
            PI_FX - base
        } else {
            -(PI_FX - base)
        }
    }
}

/// Cosine of a fixed-point angle, exact against [`cos_fx_spec`].
pub fn cos_fx(x: i64) -> (r: i64)
    requires
        -SIN_ARG_MAX + 102944 <= x <= SIN_ARG_MAX - 102944,
    ensures
        r == cos_fx_spec(x as int),
        -(crate::SCALE as int) <= r <= crate::SCALE as int,
{
    sin_fx(x + 102944)
}

} // verus!
