//! Color lookup by surface position: constant, three-dimensional checker,
//! lattice-gradient noise, and image sampling.

use vstd::prelude::*;
use crate::vec3::{Vec3, Color, vec_within, color_ok, clamp_i, clamp64};
use crate::ray::COORD_FX_MAX;
use crate::fx::{div_floor, fx_mul, sin_fx_spec, sin_fx, mul_fx, div_floor_i128, lemma_div_floor_abs, lemma_mul_abs, lemma_div_floor_lt};

verus! {

/// A single fixed color.
#[derive(Clone, Copy, PartialEq, Eq, Structural, Debug)]
pub struct ConstantTexture {
    pub color: Color,
}

impl ConstantTexture {
    /// Always the stored color.
    pub fn value(&self) -> (c: Color)
        ensures
            c == self.color,
    {
        self.color
    }
}

/// Two colors alternating in a three-dimensional checker pattern.
#[derive(Clone, Copy, PartialEq, Eq, Structural, Debug)]
pub struct CheckeredTexture {
    pub color1: Color,
    pub color2: Color,
}

/// The checker selector: the product of the sines of the three coordinates,
/// each scaled by ten.
pub open spec fn checker_sins(p: Vec3) -> int {
    fx_mul(
        fx_mul(sin_fx_spec(10 * p.x), sin_fx_spec(10 * p.y)),
        sin_fx_spec(10 * p.z),
    )
}

impl CheckeredTexture {
    /// The first color where the sine product is negative, else the second.
    pub fn value(&self, p: &Vec3) -> (c: Color)
        requires
            vec_within(*p, COORD_FX_MAX as int),
        ensures
            c == if checker_sins(*p) < 0 {
                self.color1
            } else {
                self.color2
            },
    {
        let sx = sin_fx(10 * p.x);
        let sy = sin_fx(10 * p.y);
        let sz = sin_fx(10 * p.z);
        proof {
            crate::vec3::lemma_fx_mul_within(crate::SCALE as int, crate::SCALE as int);
            crate::vec3::lemma_fx_mul_within(
                (crate::SCALE as int) + 1,
                crate::SCALE as int,
            );
        }
        let sins = mul_fx(mul_fx(sx, sy), sz);
        if sins < 0 {
            self.color1
        } else {
            self.color2
        }
    }
}

/// Perlin-style noise: three permutations of the byte range pick a random
/// unit lattice vector per cell corner; values are smoothed by trilinear
/// interpolation.
#[derive(Clone, Debug)]
pub struct NoiseTexture {
    pub ran_float: Vec<Vec3>,
    pub permx: Vec<u8>,
    pub permy: Vec<u8>,
    pub permz: Vec<u8>,
    pub scale: i64,
}

/// Structural validity of a noise texture.
pub open spec fn noise_ok(t: NoiseTexture) -> bool {
    &&& t.ran_float@.len() == 256
    &&& forall|i: int|
        0 <= i < 256 ==> vec_within(#[trigger] t.ran_float@[i], crate::SCALE as int)
    &&& t.permx@.len() == 256
    &&& t.permy@.len() == 256
    &&& t.permz@.len() == 256
    &&& 0 <= t.scale < crate::SCALE as int
}

/// The lattice cell byte of one coordinate: its integer floor, wrapped.
pub open spec fn cell_byte(x: int) -> int {
    div_floor(x, crate::SCALE as int) % 256
}

/// The fractional position of one coordinate inside its cell.
pub open spec fn cell_frac(x: int) -> int {
    x - div_floor(x, crate::SCALE as int) * (crate::SCALE as int)
}

/// Hermite smoothing `f f (3 - 2 f)` of a cell fraction.
pub open spec fn smooth(f: int) -> int {
    fx_mul(fx_mul(f, f), 3 * (crate::SCALE as int) - 2 * f)
}

/// The gradient vector chosen for one cell corner.
pub open spec fn corner_vec(t: NoiseTexture, ci: int, cj: int, ck: int) -> Vec3 {
    t.ran_float@[(t.permx@[ci % 256] ^ t.permy@[cj % 256] ^ t.permz@[ck % 256]) as int]
}

/// One corner's contribution: the blend weight times the gradient dotted
/// with the corner-relative offset.
pub open spec fn corner_term_spec(cv: Vec3, u: int, v: int, w: int, i: int, j: int, k: int) -> int {
    let s = crate::SCALE as int;
    let f_bit = fx_mul(
        fx_mul(
            i * u + (1 - i) * (s - u),
            j * v + (1 - j) * (s - v),
        ),
        k * w + (1 - k) * (s - w),
    );
    div_floor(
        fx_mul(cv.x as int, f_bit) * (u - i * s) + fx_mul(cv.y as int, f_bit) * (v - j * s) + fx_mul(
            cv.z as int,
            f_bit,
        ) * (w - k * s),
        s,
    )
}

/// The smoothed noise sample at a point, clamped to the unit range.
pub open spec fn noise_spec(t: NoiseTexture, p: Vec3) -> int {
    let u = smooth(cell_frac(p.x as int));
    let v = smooth(cell_frac(p.y as int));
    let w = smooth(cell_frac(p.z as int));
    let ci = cell_byte(p.x as int);
    let cj = cell_byte(p.y as int);
    let ck = cell_byte(p.z as int);
    let sum = corner_term_spec(corner_vec(t, ci, cj, ck), u, v, w, 0, 0, 0) + corner_term_spec(
        corner_vec(t, ci, cj, ck + 1),
        u,
        v,
        w,
        0,
        0,
        1,
    ) + corner_term_spec(corner_vec(t, ci, cj + 1, ck), u, v, w, 0, 1, 0) + corner_term_spec(
        corner_vec(t, ci, cj + 1, ck + 1),
        u,
        v,
        w,
        0,
        1,
        1,
    ) + corner_term_spec(corner_vec(t, ci + 1, cj, ck), u, v, w, 1, 0, 0) + corner_term_spec(
        corner_vec(t, ci + 1, cj, ck + 1),
        u,
        v,
        w,
        1,
        0,
        1,
    ) + corner_term_spec(corner_vec(t, ci + 1, cj + 1, ck), u, v, w, 1, 1, 0) + corner_term_spec(
        corner_vec(t, ci + 1, cj + 1, ck + 1),
        u,
        v,
        w,
        1,
        1,
        1,
    );
    clamp_i(sum, crate::SCALE as int)
}

/// The turbulence sample: the magnitude of one noise octave.
pub open spec fn turb_spec(t: NoiseTexture, p: Vec3) -> int {
    let n = noise_spec(t, p);
    if n < 0 {
        -n
    } else {
        n
    }
}

/// The marble shade at a point: `sin(10 turb + scale * y) / 2 + 1/2`.
pub open spec fn noise_value_spec(t: NoiseTexture, p: Vec3) -> int {
    (sin_fx_spec(10 * turb_spec(t, p) + fx_mul(p.y as int, t.scale as int)) + crate::SCALE as int) / 2
}

/// The wrapped cell byte and fraction of one coordinate.
fn cell_parts(x: i64) -> (r: (usize, i64))
    requires
        -(COORD_FX_MAX as int) <= x <= COORD_FX_MAX as int,
    ensures
        r.0 == cell_byte(x as int),
        r.1 == cell_frac(x as int),
        r.0 < 256,
        0 <= r.1 < crate::SCALE as int,
{
    let q = div_floor_i128(x as i128, 65536);
    let frac = (x as i128) - q * 65536;
    proof {
        lemma_div_floor_abs(x as int, crate::SCALE as int, COORD_FX_MAX as int);
        vstd::arithmetic::div_mod::lemma_fundamental_div_mod(x as int, crate::SCALE as int);
        vstd::arithmetic::div_mod::lemma_mod_bound(x as int, crate::SCALE as int);
        assert((crate::SCALE as int) * div_floor(x as int, crate::SCALE as int) == div_floor(
            x as int,
            crate::SCALE as int,
        ) * (crate::SCALE as int)) by (nonlinear_arith);
    }
    let qm = div_floor_i128(q, 256);
    let m = q - qm * 256;
    proof {
        vstd::arithmetic::div_mod::lemma_fundamental_div_mod(q as int, 256);
        vstd::arithmetic::div_mod::lemma_mod_bound(q as int, 256);
        assert(256 * div_floor(q as int, 256) == div_floor(q as int, 256) * 256)
            by (nonlinear_arith);
        lemma_div_floor_abs(q as int, 256, COORD_FX_MAX as int);
    }
    (m as usize, frac as i64)
}

/// One corner's contribution in machine words.
fn corner_term(cv: Vec3, u: i64, v: i64, w: i64, i: i64, j: i64, k: i64) -> (r: i64)
    requires
        vec_within(cv, crate::SCALE as int),
        0 <= u <= 4 * (crate::SCALE as int),
        0 <= v <= 4 * (crate::SCALE as int),
        0 <= w <= 4 * (crate::SCALE as int),
        i == 0 || i == 1,
        j == 0 || j == 1,
        k == 0 || k == 1,
    ensures
        r == corner_term_spec(cv, u as int, v as int, w as int, i as int, j as int, k as int),
        -780 * (crate::SCALE as int) <= r <= 780 * (crate::SCALE as int),
{
    proof {
        crate::vec3::lemma_fx_mul_within(4 * (crate::SCALE as int), 4 * (crate::SCALE as int));
        crate::vec3::lemma_fx_mul_within(
            16 * (crate::SCALE as int) + 1,
            4 * (crate::SCALE as int),
        );
        crate::vec3::lemma_fx_mul_within(
            crate::SCALE as int,
            64 * (crate::SCALE as int) + 1,
        );
    }
    let fu = if i == 1 {
        u
    } else {
        crate::SCALE - u
    };
    let fv = if j == 1 {
        v
    } else {
        crate::SCALE - v
    };
    let fw = if k == 1 {
        w
    } else {
        crate::SCALE - w
    };
    proof {
        assert(fu as int == (i as int) * (u as int) + (1 - i as int) * (crate::SCALE as int
            - u as int)) by (nonlinear_arith)
            requires
                i == 0 || i == 1,
                i == 1 ==> fu == u,
                i == 0 ==> fu as int == crate::SCALE as int - (u as int),
        ;
        assert(fv as int == (j as int) * (v as int) + (1 - j as int) * (crate::SCALE as int
            - v as int)) by (nonlinear_arith)
            requires
                j == 0 || j == 1,
                j == 1 ==> fv == v,
                j == 0 ==> fv as int == crate::SCALE as int - (v as int),
        ;
        assert(fw as int == (k as int) * (w as int) + (1 - k as int) * (crate::SCALE as int
            - w as int)) by (nonlinear_arith)
            requires
                k == 0 || k == 1,
                k == 1 ==> fw == w,
                k == 0 ==> fw as int == crate::SCALE as int - (w as int),
        ;
    }
    proof {
        assert(-(4 * (crate::SCALE as int)) <= fu as int <= 4 * (crate::SCALE as int));
        assert(-(4 * (crate::SCALE as int)) <= fv as int <= 4 * (crate::SCALE as int));
        assert(-(4 * (crate::SCALE as int)) <= fw as int <= 4 * (crate::SCALE as int));
        assert(-(16 * (crate::SCALE as int)) <= fx_mul(fu as int, fv as int) <= 16 * (
        crate::SCALE as int)) by {
            lemma_mul_abs(fu as int, fv as int, 4 * (crate::SCALE as int), 4 * (crate::SCALE as int));
            assert((4 * (crate::SCALE as int)) * (4 * (crate::SCALE as int)) == (16 * (
            crate::SCALE as int)) * (crate::SCALE as int)) by (nonlinear_arith);
            lemma_div_floor_abs((fu as int) * (fv as int), crate::SCALE as int, 16 * (crate::SCALE as int));
        }
        assert(-(64 * (crate::SCALE as int)) <= fx_mul(fx_mul(fu as int, fv as int), fw as int)
            <= 64 * (crate::SCALE as int)) by {
            lemma_mul_abs(fx_mul(fu as int, fv as int), fw as int, 16 * (crate::SCALE as int), 4 * (crate::SCALE as int));
            assert((16 * (crate::SCALE as int)) * (4 * (crate::SCALE as int)) == (64 * (
            crate::SCALE as int)) * (crate::SCALE as int)) by (nonlinear_arith);
            lemma_div_floor_abs(fx_mul(fu as int, fv as int) * (fw as int), crate::SCALE as int, 64 * (crate::SCALE as int));
        }
    }
    let f_bit = mul_fx(mul_fx(fu, fv), fw);
    let wx = if i == 1 {
        u - crate::SCALE
    } else {
        u
    };
    let wy = if j == 1 {
        v - crate::SCALE
    } else {
        v
    };
    let wz = if k == 1 {
        w - crate::SCALE
    } else {
        w
    };
    proof {
        assert(wx as int == u as int - (i as int) * (crate::SCALE as int)) by (nonlinear_arith)
            requires
                i == 0 || i == 1,
                i == 1 ==> wx as int == u as int - crate::SCALE as int,
                i == 0 ==> wx == u,
        ;
        assert(wy as int == v as int - (j as int) * (crate::SCALE as int)) by (nonlinear_arith)
            requires
                j == 0 || j == 1,
                j == 1 ==> wy as int == v as int - crate::SCALE as int,
                j == 0 ==> wy == v,
        ;
        assert(wz as int == w as int - (k as int) * (crate::SCALE as int)) by (nonlinear_arith)
            requires
                k == 0 || k == 1,
                k == 1 ==> wz as int == w as int - crate::SCALE as int,
                k == 0 ==> wz == w,
        ;
    }
    proof {
        assert forall|c: int| -(crate::SCALE as int) <= c <= crate::SCALE as int implies -(65
            * (crate::SCALE as int)) <= #[trigger] fx_mul(c, f_bit as int) <= 65 * (
        crate::SCALE as int) by {
            lemma_mul_abs(c, f_bit as int, crate::SCALE as int, 64 * (crate::SCALE as int));
            assert((crate::SCALE as int) * (64 * (crate::SCALE as int)) <= (65 * (
            crate::SCALE as int)) * (crate::SCALE as int)) by (nonlinear_arith);
            lemma_div_floor_abs(c * (f_bit as int), crate::SCALE as int, 65 * (crate::SCALE as int));
        }
    }
    let gx = mul_fx(cv.x, f_bit);
    let gy = mul_fx(cv.y, f_bit);
    let gz = mul_fx(cv.z, f_bit);
    proof {
        lemma_mul_abs(gx as int, wx as int, 65 * (crate::SCALE as int), 4 * (crate::SCALE as int));
        lemma_mul_abs(gy as int, wy as int, 65 * (crate::SCALE as int), 4 * (crate::SCALE as int));
        lemma_mul_abs(gz as int, wz as int, 65 * (crate::SCALE as int), 4 * (crate::SCALE as int));
        lemma_div_floor_abs(
            (gx as int) * (wx as int) + (gy as int) * (wy as int) + (gz as int) * (wz as int),
            crate::SCALE as int,
            780 * (crate::SCALE as int),
        );
    }
    let num: i128 = (gx as i128) * (wx as i128) + (gy as i128) * (wy as i128) + (gz as i128)
        * (wz as i128);
    div_floor_i128(num, 65536) as i64
}

impl NoiseTexture {
    /// The smoothed noise sample at a point, clamped to the unit range.
    pub fn noise(&self, p: &Vec3) -> (r: i64)
        requires
            noise_ok(*self),
            vec_within(*p, COORD_FX_MAX as int),
        ensures
            r == noise_spec(*self, *p),
            -(crate::SCALE as int) <= r <= crate::SCALE as int,
    {
        let (ci, fx_u) = cell_parts(p.x);
        let (cj, fx_v) = cell_parts(p.y);
        let (ck, fx_w) = cell_parts(p.z);
        proof {
            crate::vec3::lemma_fx_mul_within(crate::SCALE as int, crate::SCALE as int);
            crate::vec3::lemma_fx_mul_within(crate::SCALE as int + 1, 3 * (crate::SCALE as int));
        }
        let u = mul_fx(mul_fx(fx_u, fx_u), 3 * crate::SCALE - 2 * fx_u);
        let v = mul_fx(mul_fx(fx_v, fx_v), 3 * crate::SCALE - 2 * fx_v);
        let w = mul_fx(mul_fx(fx_w, fx_w), 3 * crate::SCALE - 2 * fx_w);
        proof {
            assert(0 <= u <= 4 * (crate::SCALE as int)) by {
                lemma_smooth_range(fx_u as int);
            }
            assert(0 <= v <= 4 * (crate::SCALE as int)) by {
                lemma_smooth_range(fx_v as int);
            }
            assert(0 <= w <= 4 * (crate::SCALE as int)) by {
                lemma_smooth_range(fx_w as int);
            }
        }
        let c000 = self.corner(ci, cj, ck);
        let c001 = self.corner(ci, cj, ck + 1);
        let c010 = self.corner(ci, cj + 1, ck);
        let c011 = self.corner(ci, cj + 1, ck + 1);
        let c100 = self.corner(ci + 1, cj, ck);
        let c101 = self.corner(ci + 1, cj, ck + 1);
        let c110 = self.corner(ci + 1, cj + 1, ck);
        let c111 = self.corner(ci + 1, cj + 1, ck + 1);
        let sum = corner_term(c000, u, v, w, 0, 0, 0) + corner_term(c001, u, v, w, 0, 0, 1)
            + corner_term(c010, u, v, w, 0, 1, 0) + corner_term(c011, u, v, w, 0, 1, 1)
            + corner_term(c100, u, v, w, 1, 0, 0) + corner_term(c101, u, v, w, 1, 0, 1)
            + corner_term(c110, u, v, w, 1, 1, 0) + corner_term(c111, u, v, w, 1, 1, 1);
        clamp64(sum, crate::SCALE)
    }

    /// The gradient vector for one corner of the cell.
    fn corner(&self, ci: usize, cj: usize, ck: usize) -> (cv: Vec3)
        requires
            noise_ok(*self),
            ci < 512,
            cj < 512,
            ck < 512,
        ensures
            cv == corner_vec(*self, ci as int, cj as int, ck as int),
            vec_within(cv, crate::SCALE as int),
    {
        let idx = (self.permx[ci % 256] ^ self.permy[cj % 256] ^ self.permz[ck % 256]) as usize;
        self.ran_float[idx]
    }

    /// The turbulence sample: the magnitude of one noise octave.
    pub fn turb(&self, p: &Vec3) -> (r: i64)
        requires
            noise_ok(*self),
            vec_within(*p, COORD_FX_MAX as int),
        ensures
            r == turb_spec(*self, *p),
            0 <= r <= crate::SCALE as int,
    {
        let n = self.noise(p);
        if n < 0 {
            -n
        } else {
            n
        }
    }

    /// The marble shade at a point, the same in all three channels.
    pub fn value(&self, p: &Vec3) -> (c: Color)
        requires
            noise_ok(*self),
            vec_within(*p, COORD_FX_MAX as int),
        ensures
            c.r == noise_value_spec(*self, *p),
            c.g == c.r && c.b == c.r,
            color_ok(c),
    {
        let t = self.turb(p);
        proof {
            crate::vec3::lemma_fx_mul_within(COORD_FX_MAX as int, crate::SCALE as int);
        }
        let arg = 10 * t + mul_fx(p.y, self.scale);
        let s = sin_fx(arg);
        let c = (s + crate::SCALE) / 2;
        proof {
            assert(c as int == (sin_fx_spec(arg as int) + crate::SCALE as int) / 2);
        }
        Color { r: c, g: c, b: c }
    }
}

/// The Hermite smoothing of a cell fraction stays within four units.
proof fn lemma_smooth_range(f: int)
    requires
        0 <= f < crate::SCALE as int,
    ensures
        0 <= smooth(f) <= 4 * (crate::SCALE as int),
{
    let s = crate::SCALE as int;
    assert(0 <= f * f <= s * s) by (nonlinear_arith)
        requires
            0 <= f < s,
    ;
    lemma_div_floor_abs(f * f, s, s);
    vstd::arithmetic::div_mod::lemma_div_pos_is_pos(f * f, s);
    let ff = fx_mul(f, f);
    assert(0 <= ff * (3 * s - 2 * f) <= 3 * s * s) by (nonlinear_arith)
        requires
            0 <= ff <= s,
            0 <= f < s,
    ;
    vstd::arithmetic::div_mod::lemma_div_pos_is_pos(ff * (3 * s - 2 * f), s);
    lemma_div_floor_abs(ff * (3 * s - 2 * f), s, 3 * s);
}

/// A shuffled copy of the byte range: every byte value appears exactly once.
pub fn build_static_perm(rng: &mut crate::rng::XorShift) -> (out: Vec<u8>)
    ensures
        out@.len() == 256,
        out@.to_multiset() == Seq::new(256nat, |k: int| k as u8).to_multiset(),
{
    broadcast use vstd::seq_lib::group_to_multiset_ensures;

    let ghost ident = Seq::new(256nat, |k: int| k as u8);
    let mut result: Vec<u8> = Vec::new();
    let mut i: usize = 0;
    while i < 256
        invariant
            i <= 256,
            result@.len() == i,
            result@ =~= Seq::new(i as nat, |k: int| k as u8),
        decreases 256 - i,
    {
        result.push(i as u8);
        proof {
            assert(result@ =~= Seq::new((i + 1) as nat, |k: int| k as u8));
        }
        i = i + 1;
    }
    proof {
        assert(result@ =~= ident);
    }
    let mut idx: usize = 256;
    while idx > 0
        invariant
            idx <= 256,
            result@.len() == 256,
            result@.to_multiset() == ident.to_multiset(),
        decreases idx,
    {
        idx = idx - 1;
        let u = rng.next_unit();
        proof {
            assert(0 <= (u as int) * (idx as int) <= 65536 * 256) by (nonlinear_arith)
                requires
                    0 <= u < 65536,
                    0 <= idx <= 256,
            ;
            assert((u as int) * (idx as int) < 65536 * (idx as int) || idx == 0)
                by (nonlinear_arith)
                requires
                    0 <= u < 65536,
                    idx >= 0,
            ;
        }
        let target = ((u as usize) * idx) / 65536;
        proof {
            if idx > 0 {
                crate::fx::lemma_div_floor_lt((u as int) * (idx as int), 65536, idx as int);
            } else {
                assert((u as int) * (idx as int) == 0) by (nonlinear_arith)
                    requires
                        idx == 0,
                ;
                crate::fx::lemma_div_floor_lt((u as int) * (idx as int), 65536, 1);
            }
            assert(target < 256);
        }
        let a = result[idx];
        let b = result[target];
        let ghost before = result@;
        result[idx] = b;
        result[target] = a;
        proof {
            lemma_swap_multiset(before, idx as int, target as int);
            assert(result@ =~= before.update(idx as int, before[target as int]).update(
                target as int,
                before[idx as int],
            ));
        }
    }
    result
}

/// Writing two entries over each other's values keeps the multiset.
proof fn lemma_swap_multiset(s: Seq<u8>, i: int, t: int)
    requires
        0 <= i < s.len(),
        0 <= t < s.len(),
    ensures
        s.update(i, s[t]).update(t, s[i]).to_multiset() == s.to_multiset(),
{
    broadcast use vstd::seq_lib::group_to_multiset_ensures;
    broadcast use vstd::multiset::group_multiset_axioms;

    if i == t {
        assert(s.update(i, s[t]).update(t, s[i]) =~= s);
    } else {
        let s1 = s.update(i, s[t]);
        let s2 = s1.update(t, s[i]);
        assert(s1[t] == s[t]);
        assert(s1.to_multiset() == s.to_multiset().remove(s[i]).insert(s[t]));
        assert(s2.to_multiset() == s1.to_multiset().remove(s[t]).insert(s[i]));
        assert(s2.to_multiset() =~= s.to_multiset());
    }
}

/// A fresh noise texture: random permutation tables, random lattice vectors
/// normalized into the unit range, and a random pattern scale. Each table is
/// a permutation of the byte range. A lattice vector is the normalized copy
/// of its random draw; a degenerate draw (shorter than one fixed-point step)
/// yields the zero gradient, which the noise model tolerates.
pub fn build_noise(rng: &mut crate::rng::XorShift) -> (t: NoiseTexture)
    ensures
        noise_ok(t),
        t.permx@.to_multiset() == Seq::new(256nat, |k: int| k as u8).to_multiset(),
        t.permy@.to_multiset() == Seq::new(256nat, |k: int| k as u8).to_multiset(),
        t.permz@.to_multiset() == Seq::new(256nat, |k: int| k as u8).to_multiset(),
{
    let mut ran_float: Vec<Vec3> = Vec::new();
    let mut i: usize = 0;
    while i < 256
        invariant
            i <= 256,
            ran_float@.len() == i,
            forall|k: int|
                0 <= k < i ==> vec_within(#[trigger] ran_float@[k], crate::SCALE as int),
        decreases 256 - i,
    {
        let x = rng.next_signed_unit();
        let y = rng.next_signed_unit();
        let z = rng.next_signed_unit();
        let p = Vec3 { x, y, z };
        let unit = p.unit_vector();
        ran_float.push(unit);
        i = i + 1;
    }
    let permx = build_static_perm(rng);
    let permy = build_static_perm(rng);
    let permz = build_static_perm(rng);
    let scale = rng.next_unit();
    NoiseTexture { ran_float, permx, permy, permz, scale }
}

/// An image used as a texture: a decoded pixel grid sampled by nearest
/// lookup.
#[derive(Clone, Debug)]
pub struct ImageTexture {
    pub width: usize,
    pub height: usize,
    pub pixels: Vec<Color>,
}

/// Structural validity of an image texture.
pub open spec fn image_ok(t: ImageTexture) -> bool {
    &&& t.width >= 1
    &&& t.height >= 1
    &&& t.pixels@.len() == t.width * t.height
    &&& forall|i: int| 0 <= i < t.pixels@.len() ==> color_ok(#[trigger] t.pixels@[i])
}

/// The column sampled for a horizontal coordinate.
pub open spec fn image_col(t: ImageTexture, u: int) -> int {
    let x = div_floor(u * t.width, crate::SCALE as int);
    if x >= t.width {
        t.width - 1
    } else if x < 0 {
        0
    } else {
        x
    }
}

/// The row sampled for a vertical coordinate; row zero is the top.
pub open spec fn image_row(t: ImageTexture, v: int) -> int {
    let y = div_floor((crate::SCALE as int - v) * t.height, crate::SCALE as int);
    if y >= t.height {
        t.height - 1
    } else if y < 0 {
        0
    } else {
        y
    }
}

/// The color sampled for a pair of surface coordinates.
pub open spec fn image_value_spec(t: ImageTexture, u: int, v: int) -> Color {
    t.pixels@[image_row(t, v) * t.width + image_col(t, u)]
}

impl ImageTexture {
    /// Nearest-pixel lookup by surface coordinates, with the vertical axis
    /// flipped so that the top image row is sampled at `v` equal to one.
    pub fn value(&self, u: i64, v: i64) -> (c: Color)
        requires
            image_ok(*self),
            0 <= u <= crate::SCALE as int,
            0 <= v <= crate::SCALE as int,
        ensures
            c == image_value_spec(*self, u as int, v as int),
            color_ok(c),
    {
        proof {
            lemma_mul_abs(u as int, self.width as int, crate::SCALE as int, self.width as int);
            lemma_div_floor_abs(
                (u as int) * (self.width as int),
                crate::SCALE as int,
                self.width as int,
            );
            assert((crate::SCALE as int) * (self.width as int) == (self.width as int) * (
            crate::SCALE as int)) by (nonlinear_arith);
            lemma_mul_abs(
                (crate::SCALE as int) - v as int,
                self.height as int,
                crate::SCALE as int,
                self.height as int,
            );
            lemma_div_floor_abs(
                ((crate::SCALE as int) - v as int) * (self.height as int),
                crate::SCALE as int,
                self.height as int,
            );
        }
        let xq = div_floor_i128((u as i128) * (self.width as i128), 65536);
        let x = if xq >= self.width as i128 {
            self.width - 1
        } else if xq < 0 {
            0
        } else {
            xq as usize
        };
        let yq = div_floor_i128(((crate::SCALE - v) as i128) * (self.height as i128), 65536);
        let y = if yq >= self.height as i128 {
            self.height - 1
        } else if yq < 0 {
            0
        } else {
            yq as usize
        };
        let npix = self.pixels.len();
        proof {
            assert(x < self.width && y < self.height);
            assert(npix == (self.width as int) * (self.height as int));
            assert((y as int) * (self.width as int) + (x as int) < (self.width as int) * (
            self.height as int)) by (nonlinear_arith)
                requires
                    x < self.width,
                    y < self.height,
            ;
            assert((y as int) * (self.width as int) >= 0) by (nonlinear_arith);
        }
        self.pixels[y * self.width + x]
    }
}

/// A color lookup of any kind.
#[derive(Clone, Debug)]
pub enum Texture {
    T(ConstantTexture),
    CT(CheckeredTexture),
    NT(NoiseTexture),
    IT(ImageTexture),
}

/// Structural validity of a texture, including its stored colors.
pub open spec fn texture_ok(t: Texture) -> bool {
    match t {
        Texture::T(c) => color_ok(c.color),
        Texture::CT(c) => color_ok(c.color1) && color_ok(c.color2),
        Texture::NT(n) => noise_ok(n),
        Texture::IT(i) => image_ok(i),
    }
}

/// The color a texture yields at a point and surface coordinates.
pub open spec fn texture_value_spec(t: Texture, p: Vec3, u: int, v: int) -> Color {
    match t {
        Texture::T(c) => c.color,
        Texture::CT(c) => if checker_sins(p) < 0 {
            c.color1
        } else {
            c.color2
        },
        Texture::NT(n) => {
            let g = noise_value_spec(n, p);
            Color { r: g as i64, g: g as i64, b: g as i64 }
        },
        Texture::IT(i) => image_value_spec(i, u, v),
    }
}

impl Texture {
    /// The color at a point and surface coordinates.
    pub fn value(&self, p: &Vec3, u: i64, v: i64) -> (c: Color)
        requires
            texture_ok(*self),
            vec_within(*p, COORD_FX_MAX as int),
            0 <= u <= crate::SCALE as int,
            0 <= v <= crate::SCALE as int,
        ensures
            c == texture_value_spec(*self, *p, u as int, v as int),
            color_ok(c),
    {
        match self {
            Texture::T(t) => t.value(),
            Texture::CT(ct) => ct.value(p),
            Texture::NT(nt) => nt.value(p),
            Texture::IT(it) => it.value(u, v),
        }
    }
}

} // verus!
