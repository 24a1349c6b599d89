//! Three-component fixed-point vectors and colors.

use vstd::prelude::*;
use crate::fx::{div_floor, fx_mul, fx_div, sqrt_i, mul_fx, div_fx, sqrt_fx, lemma_div_floor_abs, lemma_mul_abs};

verus! {

/// Largest component magnitude accepted by the vector operations; keeps every
/// intermediate product inside `i128` and every result inside `i64`.
pub const VEC_OP_MAX: i64 = 0x40_0000_0000;

/// A point, direction or offset in fixed-point coordinates.
#[derive(Clone, Copy, PartialEq, Eq, Structural, Debug)]
pub struct Vec3 {
    pub x: i64,
    pub y: i64,
    pub z: i64,
}

/// An RGB radiance triple in fixed-point, one unit per channel at full white.
#[derive(Clone, Copy, PartialEq, Eq, Structural, Debug)]
pub struct Color {
    pub r: i64,
    pub g: i64,
    pub b: i64,
}

/// Clamp to a symmetric range.
pub open spec fn clamp_i(v: int, m: int) -> int {
    if v < -m {
        -m
    } else if v > m {
        m
    } else {
        v
    }
}

/// Every component within `m`.
pub open spec fn vec_within(v: Vec3, m: int) -> bool {
    &&& -m <= v.x <= m
    &&& -m <= v.y <= m
    &&& -m <= v.z <= m
}

/// The fixed-point dot product: one flooring division after the exact sum.
pub open spec fn dot_spec(a: Vec3, b: Vec3) -> int {
    div_floor(a.x * b.x + a.y * b.y + a.z * b.z, crate::SCALE as int)
}

/// Length of a vector: square root of the squared length.
pub open spec fn length_spec(v: Vec3) -> int {
    sqrt_i(dot_spec(v, v) * (crate::SCALE as int))
}

/// Normalized copy of `v`: components divided by the length and clamped to
/// the unit range; the zero vector (and any vector shorter than one
/// fixed-point step) maps to zero.
pub open spec fn unit_spec(v: Vec3) -> Vec3 {
    let l = length_spec(v);
    if l <= 0 {
        Vec3 { x: 0, y: 0, z: 0 }
    } else {
        Vec3 {
            x: clamp_i(fx_div(v.x as int, l), crate::SCALE as int) as i64,
            y: clamp_i(fx_div(v.y as int, l), crate::SCALE as int) as i64,
            z: clamp_i(fx_div(v.z as int, l), crate::SCALE as int) as i64,
        }
    }
}

/// Clamp an `i64` to a symmetric range.
pub fn clamp64(v: i64, m: i64) -> (r: i64)
    requires
        m >= 0,
    ensures
        r == clamp_i(v as int, m as int),
{
    if v < -m {
        -m
    } else if v > m {
        m
    } else {
        v
    }
}

impl Vec3 {
    /// Componentwise sum.
    pub fn add(&self, o: &Vec3) -> (r: Vec3)
        requires
            i64::MIN <= self.x + o.x <= i64::MAX,
            i64::MIN <= self.y + o.y <= i64::MAX,
            i64::MIN <= self.z + o.z <= i64::MAX,
        ensures
            r.x == self.x + o.x,
            r.y == self.y + o.y,
            r.z == self.z + o.z,
    {
        Vec3 { x: self.x + o.x, y: self.y + o.y, z: self.z + o.z }
    }

    /// Componentwise difference.
    pub fn sub(&self, o: &Vec3) -> (r: Vec3)
        requires
            i64::MIN <= self.x - o.x <= i64::MAX,
            i64::MIN <= self.y - o.y <= i64::MAX,
            i64::MIN <= self.z - o.z <= i64::MAX,
        ensures
            r.x == self.x - o.x,
            r.y == self.y - o.y,
            r.z == self.z - o.z,
    {
        Vec3 { x: self.x - o.x, y: self.y - o.y, z: self.z - o.z }
    }

    /// Componentwise fixed-point product.
    pub fn mul(&self, o: &Vec3) -> (r: Vec3)
        requires
            i64::MIN <= fx_mul(self.x as int, o.x as int) <= i64::MAX,
            i64::MIN <= fx_mul(self.y as int, o.y as int) <= i64::MAX,
            i64::MIN <= fx_mul(self.z as int, o.z as int) <= i64::MAX,
        ensures
            r.x == fx_mul(self.x as int, o.x as int),
            r.y == fx_mul(self.y as int, o.y as int),
            r.z == fx_mul(self.z as int, o.z as int),
    {
        Vec3 { x: mul_fx(self.x, o.x), y: mul_fx(self.y, o.y), z: mul_fx(self.z, o.z) }
    }

    /// Componentwise fixed-point quotient.
    pub fn div(&self, o: &Vec3) -> (r: Vec3)
        requires
            o.x != 0,
            o.y != 0,
            o.z != 0,
            i64::MIN <= fx_div(self.x as int, o.x as int) <= i64::MAX,
            i64::MIN <= fx_div(self.y as int, o.y as int) <= i64::MAX,
            i64::MIN <= fx_div(self.z as int, o.z as int) <= i64::MAX,
        ensures
            r.x == fx_div(self.x as int, o.x as int),
            r.y == fx_div(self.y as int, o.y as int),
            r.z == fx_div(self.z as int, o.z as int),
    {
        Vec3 { x: div_fx(self.x, o.x), y: div_fx(self.y, o.y), z: div_fx(self.z, o.z) }
    }

    /// Scale by a fixed-point factor.
    pub fn flat_mul(&self, f: i64) -> (r: Vec3)
        requires
            i64::MIN <= fx_mul(self.x as int, f as int) <= i64::MAX,
            i64::MIN <= fx_mul(self.y as int, f as int) <= i64::MAX,
            i64::MIN <= fx_mul(self.z as int, f as int) <= i64::MAX,
        ensures
            r.x == fx_mul(self.x as int, f as int),
            r.y == fx_mul(self.y as int, f as int),
            r.z == fx_mul(self.z as int, f as int),
    {
        Vec3 { x: mul_fx(self.x, f), y: mul_fx(self.y, f), z: mul_fx(self.z, f) }
    }

    /// Divide by a fixed-point factor.
    pub fn flat_div(&self, f: i64) -> (r: Vec3)
        requires
            f != 0,
            i64::MIN <= fx_div(self.x as int, f as int) <= i64::MAX,
            i64::MIN <= fx_div(self.y as int, f as int) <= i64::MAX,
            i64::MIN <= fx_div(self.z as int, f as int) <= i64::MAX,
        ensures
            r.x == fx_div(self.x as int, f as int),
            r.y == fx_div(self.y as int, f as int),
            r.z == fx_div(self.z as int, f as int),
    {
        Vec3 { x: div_fx(self.x, f), y: div_fx(self.y, f), z: div_fx(self.z, f) }
    }

    /// Add a scalar to every component.
    pub fn flat_add(&self, f: i64) -> (r: Vec3)
        requires
            i64::MIN <= self.x + f <= i64::MAX,
            i64::MIN <= self.y + f <= i64::MAX,
            i64::MIN <= self.z + f <= i64::MAX,
        ensures
            r.x == self.x + f,
            r.y == self.y + f,
            r.z == self.z + f,
    {
        Vec3 { x: self.x + f, y: self.y + f, z: self.z + f }
    }

    /// Subtract a scalar from every component.
    pub fn flat_sub(&self, f: i64) -> (r: Vec3)
        requires
            i64::MIN <= self.x - f <= i64::MAX,
            i64::MIN <= self.y - f <= i64::MAX,
            i64::MIN <= self.z - f <= i64::MAX,
        ensures
            r.x == self.x - f,
            r.y == self.y - f,
            r.z == self.z - f,
    {
        Vec3 { x: self.x - f, y: self.y - f, z: self.z - f }
    }

    /// Fixed-point dot product.
    pub fn dot(&self, o: &Vec3) -> (r: i64)
        requires
            vec_within(*self, VEC_OP_MAX as int),
            vec_within(*o, VEC_OP_MAX as int),
        ensures
            r == dot_spec(*self, *o),
    {
        proof {
            lemma_mul_abs(self.x as int, o.x as int, VEC_OP_MAX as int, VEC_OP_MAX as int);
            lemma_mul_abs(self.y as int, o.y as int, VEC_OP_MAX as int, VEC_OP_MAX as int);
            lemma_mul_abs(self.z as int, o.z as int, VEC_OP_MAX as int, VEC_OP_MAX as int);
        }
        let s: i128 = (self.x as i128) * (o.x as i128) + (self.y as i128) * (o.y as i128)
            + (self.z as i128) * (o.z as i128);
        let q = crate::fx::div_floor_i128(s, crate::SCALE as i128);
        proof {
            lemma_div_floor_abs(
                s as int,
                crate::SCALE as int,
                3 * (VEC_OP_MAX as int) * (VEC_OP_MAX as int) / (crate::SCALE as int),
            );
        }
        q as i64
    }

    /// Squared length, a nonnegative fixed-point number.
    pub fn squared_length(&self) -> (r: i64)
        requires
            vec_within(*self, VEC_OP_MAX as int),
        ensures
            r == dot_spec(*self, *self),
            r >= 0,
    {
        let r = self.dot(self);
        proof {
            lemma_mul_abs(self.x as int, self.x as int, VEC_OP_MAX as int, VEC_OP_MAX as int);
            assert(self.x * self.x >= 0) by (nonlinear_arith);
            assert(self.y * self.y >= 0) by (nonlinear_arith);
            assert(self.z * self.z >= 0) by (nonlinear_arith);
            vstd::arithmetic::div_mod::lemma_div_pos_is_pos(
                self.x * self.x + self.y * self.y + self.z * self.z,
                crate::SCALE as int,
            );
        }
        r
    }

    /// Length, a nonnegative fixed-point number.
    pub fn length(&self) -> (r: i64)
        requires
            vec_within(*self, VEC_OP_MAX as int),
        ensures
            r == length_spec(*self),
            r >= 0,
    {
        let sq = self.squared_length();
        sqrt_fx(sq)
    }

    /// Normalized copy; see [`unit_spec`] for the treatment of short vectors.
    pub fn unit_vector(&self) -> (r: Vec3)
        requires
            vec_within(*self, VEC_OP_MAX as int),
        ensures
            r == unit_spec(*self),
            vec_within(r, crate::SCALE as int),
    {
        let l = self.length();
        if l <= 0 {
            Vec3 { x: 0, y: 0, z: 0 }
        } else {
            proof {
                let m = (VEC_OP_MAX as int) * (crate::SCALE as int);
                assert forall|c: int| -(VEC_OP_MAX as int) <= c <= VEC_OP_MAX as int implies -(m
                    * (l as int)) <= #[trigger] (c * (crate::SCALE as int)) <= m * (l as int) by {
                    assert(-(m * (l as int)) <= c * (crate::SCALE as int) <= m * (l as int))
                        by (nonlinear_arith)
                        requires
                            -(VEC_OP_MAX as int) <= c <= VEC_OP_MAX as int,
                            l >= 1,
                            m == (VEC_OP_MAX as int) * (crate::SCALE as int),
                    ;
                }
                lemma_div_floor_abs(self.x * (crate::SCALE as int), l as int, m);
                lemma_div_floor_abs(self.y * (crate::SCALE as int), l as int, m);
                lemma_div_floor_abs(self.z * (crate::SCALE as int), l as int, m);
            }
            Vec3 {
                x: clamp64(div_fx(self.x, l), crate::SCALE),
                y: clamp64(div_fx(self.y, l), crate::SCALE),
                z: clamp64(div_fx(self.z, l), crate::SCALE),
            }
        }
    }

    /// Cross product.
    pub fn cross(&self, o: &Vec3) -> (r: Vec3)
        requires
            vec_within(*self, VEC_OP_MAX as int),
            vec_within(*o, VEC_OP_MAX as int),
        ensures
            r == cross_spec(*self, *o),
            r.x == fx_mul(self.y as int, o.z as int) - fx_mul(self.z as int, o.y as int),
            r.y == -(fx_mul(self.x as int, o.z as int) - fx_mul(self.z as int, o.x as int)),
            r.z == fx_mul(self.x as int, o.y as int) - fx_mul(self.y as int, o.x as int),
    {
        proof {
            lemma_fx_mul_within(VEC_OP_MAX as int, VEC_OP_MAX as int);
        }
        let a = mul_fx(self.y, o.z) - mul_fx(self.z, o.y);
        let b = mul_fx(self.x, o.z) - mul_fx(self.z, o.x);
        let c = mul_fx(self.x, o.y) - mul_fx(self.y, o.x);
        Vec3 { x: a, y: -b, z: c }
    }

    /// Component selected by axis index `0`, `1` or `2`.
    pub fn nth(&self, a: u8) -> (r: i64)
        ensures
            r == nth_spec(*self, a as int),
    {
        if a == 0 {
            self.x
        } else if a == 1 {
            self.y
        } else {
            self.z
        }
    }
}

/// The cross product of two vectors.
pub open spec fn cross_spec(a: Vec3, b: Vec3) -> Vec3 {
    Vec3 {
        x: (fx_mul(a.y as int, b.z as int) - fx_mul(a.z as int, b.y as int)) as i64,
        y: (-(fx_mul(a.x as int, b.z as int) - fx_mul(a.z as int, b.x as int))) as i64,
        z: (fx_mul(a.x as int, b.y as int) - fx_mul(a.y as int, b.x as int)) as i64,
    }
}

/// Component of a vector by axis index.
pub open spec fn nth_spec(v: Vec3, a: int) -> int {
    if a == 0 {
        v.x as int
    } else if a == 1 {
        v.y as int
    } else {
        v.z as int
    }
}

/// Fixed-point products of values within `ma` and `mb` stay within
/// `ma * mb / SCALE + 1`.
pub proof fn lemma_fx_mul_within(ma: int, mb: int)
    requires
        0 <= ma,
        0 <= mb,
    ensures
        forall|a: int, b: int|
            -ma <= a <= ma && -mb <= b <= mb ==> -(ma * mb / (crate::SCALE as int) + 1)
                <= #[trigger] fx_mul(a, b) <= ma * mb / (crate::SCALE as int) + 1,
{
    let s = crate::SCALE as int;
    let mm = ma * mb;
    let m2 = mm / s + 1;
    assert(mm >= 0) by (nonlinear_arith)
        requires
            0 <= ma,
            0 <= mb,
            mm == ma * mb,
    ;
    vstd::arithmetic::div_mod::lemma_div_pos_is_pos(mm, s);
    vstd::arithmetic::div_mod::lemma_fundamental_div_mod(mm, s);
    vstd::arithmetic::div_mod::lemma_mod_bound(mm, s);
    assert(m2 * s == s * (mm / s) + s) by (nonlinear_arith)
        requires
            m2 == mm / s + 1,
    ;
    assert(m2 * s > mm);
    assert forall|a: int, b: int|
        -ma <= a <= ma && -mb <= b <= mb implies -(ma * mb / (crate::SCALE as int) + 1)
        <= #[trigger] fx_mul(a, b) <= ma * mb / (crate::SCALE as int) + 1 by {
        lemma_mul_abs(a, b, ma, mb);
        lemma_div_floor_abs(a * b, s, m2);
    }
}

impl Color {
    /// Componentwise sum.
    pub fn add(&self, o: &Color) -> (r: Color)
        requires
            i64::MIN <= self.r + o.r <= i64::MAX,
            i64::MIN <= self.g + o.g <= i64::MAX,
            i64::MIN <= self.b + o.b <= i64::MAX,
        ensures
            r.r == self.r + o.r,
            r.g == self.g + o.g,
            r.b == self.b + o.b,
    {
        Color { r: self.r + o.r, g: self.g + o.g, b: self.b + o.b }
    }

    /// Componentwise fixed-point product (attenuation).
    pub fn mul(&self, o: &Color) -> (r: Color)
        requires
            i64::MIN <= fx_mul(self.r as int, o.r as int) <= i64::MAX,
            i64::MIN <= fx_mul(self.g as int, o.g as int) <= i64::MAX,
            i64::MIN <= fx_mul(self.b as int, o.b as int) <= i64::MAX,
        ensures
            r.r == fx_mul(self.r as int, o.r as int),
            r.g == fx_mul(self.g as int, o.g as int),
            r.b == fx_mul(self.b as int, o.b as int),
    {
        Color { r: mul_fx(self.r, o.r), g: mul_fx(self.g, o.g), b: mul_fx(self.b, o.b) }
    }

    /// Scale by a fixed-point factor.
    pub fn flat_mul(&self, f: i64) -> (r: Color)
        requires
            i64::MIN <= fx_mul(self.r as int, f as int) <= i64::MAX,
            i64::MIN <= fx_mul(self.g as int, f as int) <= i64::MAX,
            i64::MIN <= fx_mul(self.b as int, f as int) <= i64::MAX,
        ensures
            r.r == fx_mul(self.r as int, f as int),
            r.g == fx_mul(self.g as int, f as int),
            r.b == fx_mul(self.b as int, f as int),
    {
        Color { r: mul_fx(self.r, f), g: mul_fx(self.g, f), b: mul_fx(self.b, f) }
    }

    /// Divide every nonnegative channel by a positive sample count.
    pub fn scale_div(&self, n: i64) -> (r: Color)
        requires
            n >= 1,
            self.r >= 0,
            self.g >= 0,
            self.b >= 0,
        ensures
            r.r == div_floor(self.r as int, n as int),
            r.g == div_floor(self.g as int, n as int),
            r.b == div_floor(self.b as int, n as int),
            r.r >= 0,
            r.g >= 0,
            r.b >= 0,
    {
        proof {
            vstd::arithmetic::div_mod::lemma_div_pos_is_pos(self.r as int, n as int);
            vstd::arithmetic::div_mod::lemma_div_pos_is_pos(self.g as int, n as int);
            vstd::arithmetic::div_mod::lemma_div_pos_is_pos(self.b as int, n as int);
            vstd::arithmetic::div_mod::lemma_div_nonincreasing(self.r as int, n as int);
            vstd::arithmetic::div_mod::lemma_div_nonincreasing(self.g as int, n as int);
            vstd::arithmetic::div_mod::lemma_div_nonincreasing(self.b as int, n as int);
        }
        let r = crate::fx::div_floor_i128(self.r as i128, n as i128) as i64;
        let g = crate::fx::div_floor_i128(self.g as i128, n as i128) as i64;
        let b = crate::fx::div_floor_i128(self.b as i128, n as i128) as i64;
        Color { r, g, b }
    }
}

/// Every channel is a valid radiance fraction, between zero and one.
pub open spec fn color_ok(c: Color) -> bool {
    &&& 0 <= c.r <= crate::SCALE as int
    &&& 0 <= c.g <= crate::SCALE as int
    &&& 0 <= c.b <= crate::SCALE as int
}

/// Gamma-2 encoding of one channel: `floor(255.99 * sqrt(channel))`.
pub open spec fn gamma_byte(c: int) -> int {
    div_floor(sqrt_i(c * (crate::SCALE as int)) * 25599, 6553600)
}

/// One gamma-encoded channel byte.
fn gamma_encode(c: i64) -> (r: u8)
    requires
        0 <= c <= crate::SCALE as int,
    ensures
        r == gamma_byte(c as int),
{
    let s = sqrt_fx(c);
    proof {
        assert(s <= crate::SCALE as int) by (nonlinear_arith)
            requires
                (s as int) * (s as int) <= (c as int) * (crate::SCALE as int),
                c <= crate::SCALE as int,
                s >= 0,
        ;
        crate::fx::lemma_div_floor_lt((s as int) * 25599, 6553600, 256);
    }
    let q = crate::fx::div_floor_i128((s as i128) * 25599, 6553600);
    q as u8
}

impl Color {
    /// The pixel bytes of this color under gamma-2 encoding.
    pub fn as_pixel(&self) -> (p: (u8, u8, u8))
        requires
            color_ok(*self),
        ensures
            p.0 == gamma_byte(self.r as int),
            p.1 == gamma_byte(self.g as int),
            p.2 == gamma_byte(self.b as int),
    {
        (gamma_encode(self.r), gamma_encode(self.g), gamma_encode(self.b))
    }
}

} // verus!
