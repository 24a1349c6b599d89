//! Spheres, moving spheres, and the closest-hit scan over a flat list.

use vstd::prelude::*;
use crate::vec3::{Vec3, vec_within, clamp_i, clamp64, nth_spec};
use crate::ray::{Ray, ray_ok, COORD_FX_MAX, T_FX_MAX};
use crate::fx::{div_floor, fx_mul, fx_div, sqrt_i, atan2_spec, atan2_fx, sqrt_fx, div_fx, div_floor_i128, lemma_div_floor_abs, lemma_mul_abs};

verus! {

/// Traversals reject hits closer than this, to avoid self-intersection.
pub const HIT_EPS_FX: i64 = 7;

/// Largest magnitude of a hit normal component: the unit range with one bit
/// of slack for rounding.
pub const NORMAL_FX_MAX: i64 = 131072;

/// A confirmed intersection: parameter, point, outward normal, surface
/// coordinates and the index of the material that was struck.
#[derive(Clone, Copy, PartialEq, Eq, Structural, Debug)]
pub struct HitRecord {
    pub t: i64,
    pub p: Vec3,
    pub normal: Vec3,
    pub u: i64,
    pub v: i64,
    pub material_hit: usize,
}

/// A record whose fields lie in the ranges every consumer relies on.
pub open spec fn rec_ok(rec: HitRecord) -> bool {
    &&& vec_within(rec.p, COORD_FX_MAX as int)
    &&& vec_within(rec.normal, NORMAL_FX_MAX as int)
    &&& 0 <= rec.u <= crate::SCALE as int
    &&& 0 <= rec.v <= crate::SCALE as int
    &&& 0 <= rec.t <= T_FX_MAX as int
}

/// A static sphere; a negative radius flips the outward normal (used for
/// hollow glass shells).
#[derive(Clone, Copy, PartialEq, Eq, Structural, Debug)]
pub struct Sphere {
    pub center: Vec3,
    pub radius: i64,
    pub material: usize,
}

/// A sphere whose center moves linearly from `center0` at `time0` to
/// `center1` at `time1`.
#[derive(Clone, Copy, PartialEq, Eq, Structural, Debug)]
pub struct MovingSphere {
    pub center0: Vec3,
    pub center1: Vec3,
    pub radius: i64,
    pub material: usize,
    pub time0: i64,
    pub time1: i64,
}

/// The coordinate plane a rectangle lies in.
#[derive(Clone, Copy, PartialEq, Eq, Structural, Debug)]
pub enum RectAxis {
    XY,
    XZ,
    YZ,
}

/// An axis-aligned rectangle: bounds along its two free axes, the fixed
/// coordinate `k` along the remaining axis, and an optionally flipped
/// constant face normal.
#[derive(Clone, Copy, PartialEq, Eq, Structural, Debug)]
pub struct Rectangle {
    pub a0: i64,
    pub a1: i64,
    pub b0: i64,
    pub b1: i64,
    pub k: i64,
    pub axis: RectAxis,
    pub flip: bool,
    pub material: usize,
}

/// The indices of a rectangle's two free axes and its fixed axis.
pub open spec fn rect_axes(axis: RectAxis) -> (int, int, int) {
    match axis {
        RectAxis::XY => (0int, 1int, 2int),
        RectAxis::XZ => (0int, 2int, 1int),
        RectAxis::YZ => (1int, 2int, 0int),
    }
}

pub open spec fn rect_ok(rc: Rectangle) -> bool {
    &&& -(COORD_FX_MAX as int) <= rc.a0 < rc.a1 <= COORD_FX_MAX as int
    &&& -(COORD_FX_MAX as int) <= rc.b0 < rc.b1 <= COORD_FX_MAX as int
    &&& -(COORD_FX_MAX as int) <= rc.k <= COORD_FX_MAX as int
}

/// Any primitive a ray can strike.
#[derive(Clone, Copy, PartialEq, Eq, Structural, Debug)]
pub enum Hittable {
    Sphere(Sphere),
    MovingSphere(MovingSphere),
    Rectangle(Rectangle),
}

pub open spec fn sphere_geom_ok(center: Vec3, radius: int) -> bool {
    &&& vec_within(center, COORD_FX_MAX as int)
    &&& radius != 0
    &&& -(COORD_FX_MAX as int) <= radius <= COORD_FX_MAX as int
}

pub open spec fn hittable_ok(h: Hittable) -> bool {
    match h {
        Hittable::Sphere(s) => sphere_geom_ok(s.center, s.radius as int),
        Hittable::MovingSphere(s) => {
            &&& sphere_geom_ok(s.center0, s.radius as int)
            &&& vec_within(s.center1, COORD_FX_MAX as int)
            &&& -(COORD_FX_MAX as int) <= s.time0 <= COORD_FX_MAX as int
            &&& -(COORD_FX_MAX as int) <= s.time1 <= COORD_FX_MAX as int
        },
        Hittable::Rectangle(rc) => rect_ok(rc),
    }
}

/// The rectangle intersection: solve for the plane crossing, reject a
/// parameter outside the open range or a crossing outside the bounds, and
/// parametrize the surface by fractional position.
pub open spec fn rect_hit_spec(rc: Rectangle, r: Ray, t_min: int, t_max: int) -> Option<HitRecord> {
    let axes = rect_axes(rc.axis);
    let dk = nth_spec(r.direction, axes.2);
    if dk == 0 {
        None
    } else {
        let t = fx_div(rc.k - nth_spec(r.origin, axes.2), dk);
        if !(t_min < t && t < t_max) {
            None
        } else {
            let xa = nth_spec(r.origin, axes.0) + fx_mul(nth_spec(r.direction, axes.0), t);
            let xb = nth_spec(r.origin, axes.1) + fx_mul(nth_spec(r.direction, axes.1), t);
            if xa < rc.a0 || xa > rc.a1 || xb < rc.b0 || xb > rc.b1 {
                None
            } else {
                Some(rect_rec_spec(rc, r, t, xa, xb))
            }
        }
    }
}

/// The record of a confirmed rectangle crossing.
pub open spec fn rect_rec_spec(rc: Rectangle, r: Ray, t: int, xa: int, xb: int) -> HitRecord {
    let u = fx_div(xa - rc.a0, rc.a1 - rc.a0);
    let v = fx_div(xb - rc.b0, rc.b1 - rc.b0);
    HitRecord {
        t: t as i64,
        p: hit_point_spec(r, t),
        normal: rect_normal_spec(rc),
        u: u as i64,
        v: v as i64,
        material_hit: rc.material as usize,
    }
}

/// The constant face normal of a rectangle: a unit vector along its fixed
/// axis, negated when flipped.
pub open spec fn rect_normal_spec(rc: Rectangle) -> Vec3 {
    let s = if rc.flip {
        (-(crate::SCALE as int)) as i64
    } else {
        crate::SCALE
    };
    match rc.axis {
        RectAxis::XY => Vec3 { x: 0, y: 0, z: s },
        RectAxis::XZ => Vec3 { x: 0, y: s, z: 0 },
        RectAxis::YZ => Vec3 { x: s, y: 0, z: 0 },
    }
}

impl Rectangle {
    /// The crossing of the rectangle's plane strictly inside `(t_min, t_max)`
    /// and inside the bounds, or nothing.
    pub fn hit(&self, r: &Ray, t_min: i64, t_max: i64) -> (res: Option<HitRecord>)
        requires
            rect_ok(*self),
            ray_ok(*r),
            0 <= t_min,
            t_max <= T_FX_MAX as int,
        ensures
            res == rect_hit_spec(*self, *r, t_min as int, t_max as int),
            res is Some ==> rec_ok(res->Some_0) && res->Some_0.material_hit == self.material,
            res is Some ==> t_min < res->Some_0.t < t_max,
    {
        let (oa, ob, okk) = match self.axis {
            RectAxis::XY => (r.origin.x, r.origin.y, r.origin.z),
            RectAxis::XZ => (r.origin.x, r.origin.z, r.origin.y),
            RectAxis::YZ => (r.origin.y, r.origin.z, r.origin.x),
        };
        let (da, db, dk) = match self.axis {
            RectAxis::XY => (r.direction.x, r.direction.y, r.direction.z),
            RectAxis::XZ => (r.direction.x, r.direction.z, r.direction.y),
            RectAxis::YZ => (r.direction.y, r.direction.z, r.direction.x),
        };
        if dk == 0 {
            return None;
        }
        proof {
            crate::fx::lemma_fx_div_small(self.k as int - okk as int, dk as int);
        }
        let t = div_fx(self.k - okk, dk);
        if !(t_min < t && t < t_max) {
            return None;
        }
        proof {
            lemma_mul_abs(da as int, t as int, COORD_FX_MAX as int, T_FX_MAX as int);
            lemma_mul_abs(db as int, t as int, COORD_FX_MAX as int, T_FX_MAX as int);
        }
        let xa128: i128 = (oa as i128) + div_floor_i128((da as i128) * (t as i128), 65536);
        let xb128: i128 = (ob as i128) + div_floor_i128((db as i128) * (t as i128), 65536);
        if xa128 < self.a0 as i128 || xa128 > self.a1 as i128 || xb128 < self.b0 as i128
            || xb128 > self.b1 as i128 {
            return None;
        }
        let xa = xa128 as i64;
        let xb = xb128 as i64;
        proof {
            crate::fx::lemma_fx_div_unit(xa as int - self.a0 as int, self.a1 as int - self.a0 as int);
            crate::fx::lemma_fx_div_unit(xb as int - self.b0 as int, self.b1 as int - self.b0 as int);
        }
        let u = div_fx(xa - self.a0, self.a1 - self.a0);
        let v = div_fx(xb - self.b0, self.b1 - self.b0);
        proof {
            crate::vec3::lemma_fx_mul_within(COORD_FX_MAX as int, T_FX_MAX as int);
        }
        let px = point_comp(r.origin.x, r.direction.x, t);
        let py = point_comp(r.origin.y, r.direction.y, t);
        let pz = point_comp(r.origin.z, r.direction.z, t);
        let sgn: i64 = if self.flip {
            -crate::SCALE
        } else {
            crate::SCALE
        };
        let normal = match self.axis {
            RectAxis::XY => Vec3 { x: 0, y: 0, z: sgn },
            RectAxis::XZ => Vec3 { x: 0, y: sgn, z: 0 },
            RectAxis::YZ => Vec3 { x: sgn, y: 0, z: 0 },
        };
        Some(
            HitRecord {
                t,
                p: Vec3 { x: px, y: py, z: pz },
                normal,
                u,
                v,
                material_hit: self.material,
            },
        )
    }
}

/// The two quadratic roots of `|origin + t direction - center|^2 == radius^2`,
/// in fixed point, smaller first; nothing when the discriminant is not
/// positive or the direction is null.
pub open spec fn sphere_roots(center: Vec3, radius: int, r: Ray) -> Option<(int, int)> {
    let ocx = r.origin.x - center.x;
    let ocy = r.origin.y - center.y;
    let ocz = r.origin.z - center.z;
    let dx = r.direction.x as int;
    let dy = r.direction.y as int;
    let dz = r.direction.z as int;
    let a2 = dx * dx + dy * dy + dz * dz;
    let b2 = ocx * dx + ocy * dy + ocz * dz;
    let c2 = ocx * ocx + ocy * ocy + ocz * ocz - radius * radius;
    let disc = b2 * b2 - a2 * c2;
    if disc > 0 && a2 > 0 {
        let sq = sqrt_i(disc);
        Some((div_floor((-b2 - sq) * (crate::SCALE as int), a2),
              div_floor((-b2 + sq) * (crate::SCALE as int), a2)))
    } else {
        None
    }
}

/// The point struck at parameter `t`, clamped into the coordinate range.
pub open spec fn hit_point_spec(r: Ray, t: int) -> Vec3 {
    Vec3 {
        x: clamp_i(r.origin.x + fx_mul(r.direction.x as int, t), COORD_FX_MAX as int) as i64,
        y: clamp_i(r.origin.y + fx_mul(r.direction.y as int, t), COORD_FX_MAX as int) as i64,
        z: clamp_i(r.origin.z + fx_mul(r.direction.z as int, t), COORD_FX_MAX as int) as i64,
    }
}

/// The outward normal at `p`: the offset from the center divided by the
/// radius, clamped into the unit range with rounding slack.
pub open spec fn normal_spec(p: Vec3, center: Vec3, radius: int) -> Vec3 {
    Vec3 {
        x: clamp_i(div_floor((p.x - center.x) * (crate::SCALE as int), radius), NORMAL_FX_MAX as int) as i64,
        y: clamp_i(div_floor((p.y - center.y) * (crate::SCALE as int), radius), NORMAL_FX_MAX as int) as i64,
        z: clamp_i(div_floor((p.z - center.z) * (crate::SCALE as int), radius), NORMAL_FX_MAX as int) as i64,
    }
}

/// Spherical surface coordinates of a unit normal:
/// `u = 1 - (phi + pi) / (2 pi)`, `v = (theta + pi/2) / pi`.
pub open spec fn sphere_uv_spec(n: Vec3) -> (int, int) {
    let nx = clamp_i(n.x as int, crate::SCALE as int);
    let ny = clamp_i(n.y as int, crate::SCALE as int);
    let nz = clamp_i(n.z as int, crate::SCALE as int);
    let phi = atan2_spec(nz, nx);
    let w = crate::SCALE as int - fx_mul(ny, ny);
    let theta = atan2_spec(ny, sqrt_i(w * (crate::SCALE as int)));
    let u = clamp_i(crate::SCALE as int - div_floor((phi + crate::fx::PI_FX as int) * (crate::SCALE as int), 411774), crate::SCALE as int);
    let v = clamp_i(div_floor((theta + 102944) * (crate::SCALE as int), crate::fx::PI_FX as int), crate::SCALE as int);
    (if u < 0 { 0 } else { u }, if v < 0 { 0 } else { v })
}

/// The full sphere intersection: the smaller root strictly inside
/// `(t_min, t_max)`, else the larger, else nothing.
pub open spec fn sphere_hit_spec(
    center: Vec3,
    radius: int,
    material: int,
    r: Ray,
    t_min: int,
    t_max: int,
) -> Option<HitRecord> {
    match sphere_roots(center, radius, r) {
        Some((t1, t2)) => {
            if t_min < t1 && t1 < t_max {
                Some(make_rec_spec(center, radius, material, r, t1))
            } else if t_min < t2 && t2 < t_max {
                Some(make_rec_spec(center, radius, material, r, t2))
            } else {
                None
            }
        },
        None => None,
    }
}

/// The record produced for a confirmed root.
pub open spec fn make_rec_spec(center: Vec3, radius: int, material: int, r: Ray, t: int) -> HitRecord {
    let p = hit_point_spec(r, t);
    let n = normal_spec(p, center, radius);
    let uv = sphere_uv_spec(n);
    HitRecord {
        t: t as i64,
        p: p,
        normal: n,
        u: uv.0 as i64,
        v: uv.1 as i64,
        material_hit: material as usize,
    }
}

/// Clamp an `i128` into a symmetric `i64` range.
fn clamp128(v: i128, m: i64) -> (r: i64)
    requires
        m >= 0,
    ensures
        r == clamp_i(v as int, m as int),
{
    if v < -(m as i128) {
        -m
    } else if v > m as i128 {
        m
    } else {
        v as i64
    }
}

/// Surface coordinates from a hit normal.
pub fn sphere_uv(n: Vec3) -> (uv: (i64, i64))
    ensures
        (uv.0 as int, uv.1 as int) == sphere_uv_spec(n),
        0 <= uv.0 <= crate::SCALE as int,
        0 <= uv.1 <= crate::SCALE as int,
{
    let nx = clamp64(n.x, crate::SCALE);
    let ny = clamp64(n.y, crate::SCALE);
    let nz = clamp64(n.z, crate::SCALE);
    let phi = atan2_fx(nz, nx);
    proof {
        lemma_mul_abs(ny as int, ny as int, crate::SCALE as int, crate::SCALE as int);
        lemma_div_floor_abs((ny as int) * (ny as int), crate::SCALE as int, crate::SCALE as int);
        assert((ny as int) * (ny as int) >= 0) by (nonlinear_arith);
        vstd::arithmetic::div_mod::lemma_div_pos_is_pos((ny as int) * (ny as int), crate::SCALE as int);
    }
    let w = crate::SCALE - crate::fx::mul_fx(ny, ny);
    let sw = sqrt_fx(w);
    proof {
        assert(sw <= 0x10_0000) by (nonlinear_arith)
            requires
                (sw as int) * (sw as int) <= (w as int) * (crate::SCALE as int),
                0 <= w <= 2 * (crate::SCALE as int),
                sw >= 0,
        ;
    }
    let theta = atan2_fx(ny, sw);
    proof {
        lemma_div_floor_abs((phi as int + crate::fx::PI_FX as int) * (crate::SCALE as int), 411774, crate::SCALE as int);
        lemma_mul_abs(phi as int + crate::fx::PI_FX as int, crate::SCALE as int, 2 * (crate::fx::PI_FX as int), crate::SCALE as int);
        assert(2 * (crate::fx::PI_FX as int) * (crate::SCALE as int) <= (crate::SCALE as int) * 411774) by (nonlinear_arith);
        lemma_div_floor_abs((theta as int + 102944) * (crate::SCALE as int), crate::fx::PI_FX as int, 2 * (crate::SCALE as int));
        lemma_mul_abs(theta as int + 102944, crate::SCALE as int, 2 * (crate::fx::PI_FX as int), crate::SCALE as int);
        assert(2 * (crate::fx::PI_FX as int) * (crate::SCALE as int) <= 2 * (crate::SCALE as int) * (crate::fx::PI_FX as int)) by (nonlinear_arith);
    }
    let un = crate::SCALE - (div_floor_i128((phi as i128 + crate::fx::PI_FX as i128) * (crate::SCALE as i128), 411774) as i64);
    let vn = div_floor_i128((theta as i128 + 102944) * (crate::SCALE as i128), crate::fx::PI_FX as i128) as i64;
    let uc = clamp64(un, crate::SCALE);
    let vc = clamp64(vn, crate::SCALE);
    let u = if uc < 0 {
        0
    } else {
        uc
    };
    let v = if vc < 0 {
        0
    } else {
        vc
    };
    (u, v)
}

/// The center of a moving sphere at a sample time: linear interpolation,
/// or `center0` when the two key times coincide; clamped into range.
pub open spec fn moving_center_spec(s: MovingSphere, time: int) -> Vec3 {
    if s.time0 == s.time1 {
        s.center0
    } else {
        let frac = fx_div(time - s.time0, s.time1 - s.time0);
        Vec3 {
            x: clamp_i(s.center0.x + fx_mul(s.center1.x - s.center0.x, frac), COORD_FX_MAX as int) as i64,
            y: clamp_i(s.center0.y + fx_mul(s.center1.y - s.center0.y, frac), COORD_FX_MAX as int) as i64,
            z: clamp_i(s.center0.z + fx_mul(s.center1.z - s.center0.z, frac), COORD_FX_MAX as int) as i64,
        }
    }
}

impl MovingSphere {
    /// The interpolated center at `time`.
    pub fn center(&self, time: i64) -> (c: Vec3)
        requires
            vec_within(self.center0, COORD_FX_MAX as int),
            vec_within(self.center1, COORD_FX_MAX as int),
            -(COORD_FX_MAX as int) <= self.time0 <= COORD_FX_MAX as int,
            -(COORD_FX_MAX as int) <= self.time1 <= COORD_FX_MAX as int,
            -(COORD_FX_MAX as int) <= time <= COORD_FX_MAX as int,
        ensures
            c == moving_center_spec(*self, time as int),
            vec_within(c, COORD_FX_MAX as int),
    {
        if self.time0 == self.time1 {
            return self.center0;
        }
        let dt: i64 = self.time1 - self.time0;
        let diff: i64 = time - self.time0;
        let num: i128 = (diff as i128) * 65536;
        let frac: i128 = if dt < 0 {
            div_floor_i128(-num, -(dt as i128))
        } else {
            div_floor_i128(num, dt as i128)
        };
        proof {
            lemma_mul_abs(diff as int, crate::SCALE as int, 2 * (COORD_FX_MAX as int), crate::SCALE as int);
            lemma_frac_abs(diff as int, dt as int);
            assert(frac == fx_div(diff as int, dt as int));
        }
        let cx = interp_comp(self.center0.x, self.center1.x, frac);
        let cy = interp_comp(self.center0.y, self.center1.y, frac);
        let cz = interp_comp(self.center0.z, self.center1.z, frac);
        Vec3 { x: cx, y: cy, z: cz }
    }
}

/// The interpolation fraction fits in 48 bits.
proof fn lemma_frac_abs(num: int, dt: int)
    requires
        -2 * (COORD_FX_MAX as int) <= num <= 2 * (COORD_FX_MAX as int),
        dt != 0,
    ensures
        -0x10_0000_0000_0000 <= fx_div(num, dt) <= 0x10_0000_0000_0000,
{
    let s = crate::SCALE as int;
    let m = 0x10_0000_0000_0000int;
    lemma_mul_abs(num, s, 2 * (COORD_FX_MAX as int), s);
    if dt > 0 {
        assert(m * dt >= m) by (nonlinear_arith)
            requires
                dt >= 1,
                m > 0,
        ;
        lemma_div_floor_abs(num * s, dt, m);
    } else {
        assert(m * (-dt) >= m) by (nonlinear_arith)
            requires
                -dt >= 1,
                m > 0,
        ;
        lemma_div_floor_abs(-(num * s), -dt, m);
        assert(fx_div(num, dt) == div_floor(-(num * s), -dt));
    }
}

/// One interpolated, clamped coordinate.
fn interp_comp(c0: i64, c1: i64, frac: i128) -> (r: i64)
    requires
        -(COORD_FX_MAX as int) <= c0 <= COORD_FX_MAX as int,
        -(COORD_FX_MAX as int) <= c1 <= COORD_FX_MAX as int,
        -0x10_0000_0000_0000 <= frac <= 0x10_0000_0000_0000,
    ensures
        r == clamp_i(c0 + fx_mul(c1 - c0, frac as int), COORD_FX_MAX as int),
{
    proof {
        lemma_mul_abs((c1 - c0) as int, frac as int, 2 * (COORD_FX_MAX as int), 0x10_0000_0000_0000int);
    }
    let prod: i128 = ((c1 - c0) as i128) * frac;
    let q = div_floor_i128(prod, crate::SCALE as i128);
    proof {
        lemma_div_floor_abs(prod as int, crate::SCALE as int, 2 * (COORD_FX_MAX as int) * 0x10_0000_0000_0000int);
    }
    clamp128((c0 as i128) + q, COORD_FX_MAX)
}

/// The quadratic solve shared by both sphere kinds.
fn solve_sphere(
    center: Vec3,
    radius: i64,
    r: &Ray,
    t_min: i64,
    t_max: i64,
    material: usize,
) -> (res: Option<HitRecord>)
    requires
        sphere_geom_ok(center, radius as int),
        ray_ok(*r),
        0 <= t_min,
        t_max <= T_FX_MAX as int,
    ensures
        res == sphere_hit_spec(center, radius as int, material as int, *r, t_min as int, t_max as int),
        res is Some ==> rec_ok(res->Some_0) && res->Some_0.material_hit == material,
        res is Some ==> t_min < res->Some_0.t < t_max,
{
    let ocx: i128 = (r.origin.x - center.x) as i128;
    let ocy: i128 = (r.origin.y - center.y) as i128;
    let ocz: i128 = (r.origin.z - center.z) as i128;
    let dx: i128 = r.direction.x as i128;
    let dy: i128 = r.direction.y as i128;
    let dz: i128 = r.direction.z as i128;
    proof {
        let c1 = COORD_FX_MAX as int;
        let c2m = 2 * c1;
        lemma_mul_abs(dx as int, dx as int, c1, c1);
        lemma_mul_abs(dy as int, dy as int, c1, c1);
        lemma_mul_abs(dz as int, dz as int, c1, c1);
        lemma_mul_abs(ocx as int, dx as int, c2m, c1);
        lemma_mul_abs(ocy as int, dy as int, c2m, c1);
        lemma_mul_abs(ocz as int, dz as int, c2m, c1);
        lemma_mul_abs(ocx as int, ocx as int, c2m, c2m);
        lemma_mul_abs(ocy as int, ocy as int, c2m, c2m);
        lemma_mul_abs(ocz as int, ocz as int, c2m, c2m);
        lemma_mul_abs(radius as int, radius as int, c1, c1);
    }
    let a2: i128 = dx * dx + dy * dy + dz * dz;
    let b2: i128 = ocx * dx + ocy * dy + ocz * dz;
    let c2: i128 = ocx * ocx + ocy * ocy + ocz * ocz - (radius as i128) * (radius as i128);
    proof {
        lemma_mul_abs(b2 as int, b2 as int, 0x6000_0000_0000_0000int, 0x6000_0000_0000_0000int);
        lemma_mul_abs(a2 as int, c2 as int, 0x3000_0000_0000_0000int, 0xD000_0000_0000_0000int);
    }
    let disc: i128 = b2 * b2 - a2 * c2;
    if disc > 0 && a2 > 0 {
        let squ = crate::fx::isqrt_u128(disc as u128);
        proof {
            assert(squ <= 0x1_0000_0000_0000_0000u128) by (nonlinear_arith)
                requires
                    (squ as int) * (squ as int) <= disc as int,
                    disc <= 0x4B00_0000_0000_0000_0000_0000_0000_0000int,
                    squ >= 0,
            ;
        }
        let sq: i128 = squ as i128;
        let t1 = root_t(b2, sq, a2, true);
        if (t_min as i128) < t1 && t1 < (t_max as i128) {
            Some(make_rec(center, radius, r, t1 as i64, material))
        } else {
            let t2 = root_t(b2, sq, a2, false);
            if (t_min as i128) < t2 && t2 < (t_max as i128) {
                Some(make_rec(center, radius, r, t2 as i64, material))
            } else {
                None
            }
        }
    } else {
        None
    }
}

/// One root `(-b -/+ sq) / a` in fixed point.
fn root_t(b2: i128, sq: i128, a2: i128, lower: bool) -> (t: i128)
    requires
        a2 > 0,
        -0x6000_0000_0000_0000 <= b2 <= 0x6000_0000_0000_0000,
        0 <= sq <= 0x1_0000_0000_0000_0000,
    ensures
        lower ==> t == div_floor((-(b2 as int) - sq as int) * (crate::SCALE as int), a2 as int),
        !lower ==> t == div_floor((-(b2 as int) + sq as int) * (crate::SCALE as int), a2 as int),
{
    let num: i128 = if lower {
        -b2 - sq
    } else {
        -b2 + sq
    };
    proof {
        lemma_mul_abs(num as int, crate::SCALE as int, 0x1_6000_0000_0000_0000int, crate::SCALE as int);
    }
    div_floor_i128(num * (crate::SCALE as i128), a2)
}

/// Build the hit record for a confirmed root.
fn make_rec(center: Vec3, radius: i64, r: &Ray, t: i64, material: usize) -> (rec: HitRecord)
    requires
        sphere_geom_ok(center, radius as int),
        ray_ok(*r),
        0 <= t <= T_FX_MAX as int,
    ensures
        rec == make_rec_spec(center, radius as int, material as int, *r, t as int),
        rec_ok(rec),
        rec.material_hit == material,
        rec.t == t,
{
    proof {
        crate::vec3::lemma_fx_mul_within(COORD_FX_MAX as int, T_FX_MAX as int);
    }
    let px = point_comp(r.origin.x, r.direction.x, t);
    let py = point_comp(r.origin.y, r.direction.y, t);
    let pz = point_comp(r.origin.z, r.direction.z, t);
    let p = Vec3 { x: px, y: py, z: pz };
    let nx = normal_comp(px, center.x, radius);
    let ny = normal_comp(py, center.y, radius);
    let nz = normal_comp(pz, center.z, radius);
    let n = Vec3 { x: nx, y: ny, z: nz };
    let uv = sphere_uv(n);
    HitRecord { t, p, normal: n, u: uv.0, v: uv.1, material_hit: material }
}

/// One clamped coordinate of the struck point.
fn point_comp(o: i64, d: i64, t: i64) -> (r: i64)
    requires
        -(COORD_FX_MAX as int) <= o <= COORD_FX_MAX as int,
        -(COORD_FX_MAX as int) <= d <= COORD_FX_MAX as int,
        0 <= t <= T_FX_MAX as int,
    ensures
        r == clamp_i(o + fx_mul(d as int, t as int), COORD_FX_MAX as int),
{
    proof {
        lemma_mul_abs(d as int, t as int, COORD_FX_MAX as int, T_FX_MAX as int);
    }
    let prod: i128 = (d as i128) * (t as i128);
    let q = div_floor_i128(prod, crate::SCALE as i128);
    proof {
        lemma_div_floor_abs(prod as int, crate::SCALE as int, (COORD_FX_MAX as int) * (T_FX_MAX as int));
    }
    clamp128((o as i128) + q, COORD_FX_MAX)
}

/// One clamped coordinate of the outward normal.
fn normal_comp(p: i64, c: i64, radius: i64) -> (r: i64)
    requires
        -(COORD_FX_MAX as int) <= p <= COORD_FX_MAX as int,
        -(COORD_FX_MAX as int) <= c <= COORD_FX_MAX as int,
        radius != 0,
    ensures
        r == clamp_i(div_floor((p - c) * (crate::SCALE as int), radius as int), NORMAL_FX_MAX as int),
{
    proof {
        lemma_mul_abs((p - c) as int, crate::SCALE as int, 2 * (COORD_FX_MAX as int), crate::SCALE as int);
    }
    let num: i128 = ((p - c) as i128) * (crate::SCALE as i128);
    let q = if radius < 0 {
        div_floor_i128(-num, -(radius as i128))
    } else {
        div_floor_i128(num, radius as i128)
    };
    proof {
        let m = 2 * (COORD_FX_MAX as int) * (crate::SCALE as int);
        if radius < 0 {
            assert(m * (-(radius as int)) >= m) by (nonlinear_arith)
                requires
                    -(radius as int) >= 1,
                    m == 2 * (COORD_FX_MAX as int) * (crate::SCALE as int),
            ;
            lemma_div_floor_abs(-(num as int), -(radius as int), m);
        } else {
            assert(m * (radius as int) >= m) by (nonlinear_arith)
                requires
                    radius as int >= 1,
                    m == 2 * (COORD_FX_MAX as int) * (crate::SCALE as int),
            ;
            lemma_div_floor_abs(num as int, radius as int, m);
        }
    }
    clamp128(q, NORMAL_FX_MAX)
}

impl Sphere {
    /// The closest intersection strictly inside `(t_min, t_max)`.
    pub fn hit(&self, r: &Ray, t_min: i64, t_max: i64) -> (res: Option<HitRecord>)
        requires
            hittable_ok(Hittable::Sphere(*self)),
            ray_ok(*r),
            0 <= t_min,
            t_max <= T_FX_MAX as int,
        ensures
            res == sphere_hit_spec(self.center, self.radius as int, self.material as int, *r, t_min as int, t_max as int),
            res is Some ==> rec_ok(res->Some_0) && res->Some_0.material_hit == self.material,
            res is Some ==> t_min < res->Some_0.t < t_max,
    {
        solve_sphere(self.center, self.radius, r, t_min, t_max, self.material)
    }
}

impl MovingSphere {
    /// The closest intersection strictly inside `(t_min, t_max)`, against the
    /// center interpolated at the ray's time.
    pub fn hit(&self, r: &Ray, t_min: i64, t_max: i64) -> (res: Option<HitRecord>)
        requires
            hittable_ok(Hittable::MovingSphere(*self)),
            ray_ok(*r),
            0 <= t_min,
            t_max <= T_FX_MAX as int,
        ensures
            res == sphere_hit_spec(moving_center_spec(*self, r.time as int), self.radius as int, self.material as int, *r, t_min as int, t_max as int),
            res is Some ==> rec_ok(res->Some_0) && res->Some_0.material_hit == self.material,
            res is Some ==> t_min < res->Some_0.t < t_max,
    {
        let c = self.center(r.time);
        solve_sphere(c, self.radius, r, t_min, t_max, self.material)
    }
}

/// The axis-aligned box of a static sphere: the center offset by the radius
/// magnitude in every direction.
pub open spec fn sphere_box_spec(center: Vec3, radius: int) -> crate::aabb::BoundingBox {
    let ar = if radius < 0 {
        -radius
    } else {
        radius
    };
    crate::aabb::BoundingBox {
        point1: Vec3 {
            x: (center.x - ar) as i64,
            y: (center.y - ar) as i64,
            z: (center.z - ar) as i64,
        },
        point2: Vec3 {
            x: (center.x + ar) as i64,
            y: (center.y + ar) as i64,
            z: (center.z + ar) as i64,
        },
    }
}

/// The axis-aligned box of any primitive: a moving sphere takes the union
/// of its boxes at the two key times.
pub open spec fn bounding_box_spec(h: Hittable) -> crate::aabb::BoundingBox {
    match h {
        Hittable::Sphere(s) => sphere_box_spec(s.center, s.radius as int),
        Hittable::MovingSphere(s) => crate::aabb::surrounding_spec(
            sphere_box_spec(s.center0, s.radius as int),
            sphere_box_spec(s.center1, s.radius as int),
        ),
        Hittable::Rectangle(rc) => rect_box_spec(rc),
    }
}

/// The box of a rectangle: its bounds in the plane, padded along the fixed
/// axis so the slab test keeps a nonempty interval.
pub open spec fn rect_box_spec(rc: Rectangle) -> crate::aabb::BoundingBox {
    match rc.axis {
        RectAxis::XY => crate::aabb::BoundingBox {
            point1: Vec3 { x: rc.a0, y: rc.b0, z: (rc.k - HIT_EPS_FX) as i64 },
            point2: Vec3 { x: rc.a1, y: rc.b1, z: (rc.k + HIT_EPS_FX) as i64 },
        },
        RectAxis::XZ => crate::aabb::BoundingBox {
            point1: Vec3 { x: rc.a0, y: (rc.k - HIT_EPS_FX) as i64, z: rc.b0 },
            point2: Vec3 { x: rc.a1, y: (rc.k + HIT_EPS_FX) as i64, z: rc.b1 },
        },
        RectAxis::YZ => crate::aabb::BoundingBox {
            point1: Vec3 { x: (rc.k - HIT_EPS_FX) as i64, y: rc.a0, z: rc.b0 },
            point2: Vec3 { x: (rc.k + HIT_EPS_FX) as i64, y: rc.a1, z: rc.b1 },
        },
    }
}

/// The box of one static sphere.
fn sphere_box(center: Vec3, radius: i64) -> (b: crate::aabb::BoundingBox)
    requires
        sphere_geom_ok(center, radius as int),
    ensures
        b == sphere_box_spec(center, radius as int),
        crate::aabb::box_ok(b),
{
    let ar = if radius < 0 {
        -radius
    } else {
        radius
    };
    crate::aabb::BoundingBox {
        point1: Vec3 { x: center.x - ar, y: center.y - ar, z: center.z - ar },
        point2: Vec3 { x: center.x + ar, y: center.y + ar, z: center.z + ar },
    }
}

impl Hittable {
    /// The axis-aligned box that contains this primitive at every sample
    /// time. The result depends only on the primitive's fields, so repeated
    /// calls yield identical boxes.
    pub fn bounding_box(&self) -> (b: crate::aabb::BoundingBox)
        requires
            hittable_ok(*self),
        ensures
            b == bounding_box_spec(*self),
            crate::aabb::box_ok(b),
    {
        match self {
            Hittable::Sphere(s) => sphere_box(s.center, s.radius),
            Hittable::MovingSphere(s) => {
                let b0 = sphere_box(s.center0, s.radius);
                let b1 = sphere_box(s.center1, s.radius);
                crate::aabb::surrounding_box(&b0, &b1)
            },
            Hittable::Rectangle(rc) => match rc.axis {
                RectAxis::XY => crate::aabb::BoundingBox {
                    point1: Vec3 { x: rc.a0, y: rc.b0, z: rc.k - HIT_EPS_FX },
                    point2: Vec3 { x: rc.a1, y: rc.b1, z: rc.k + HIT_EPS_FX },
                },
                RectAxis::XZ => crate::aabb::BoundingBox {
                    point1: Vec3 { x: rc.a0, y: rc.k - HIT_EPS_FX, z: rc.b0 },
                    point2: Vec3 { x: rc.a1, y: rc.k + HIT_EPS_FX, z: rc.b1 },
                },
                RectAxis::YZ => crate::aabb::BoundingBox {
                    point1: Vec3 { x: rc.k - HIT_EPS_FX, y: rc.a0, z: rc.b0 },
                    point2: Vec3 { x: rc.k + HIT_EPS_FX, y: rc.a1, z: rc.b1 },
                },
            },
        }
    }
}

/// The intersection of any primitive, over the same range semantics.
pub open spec fn hit_obj_spec(o: Hittable, r: Ray, t_min: int, t_max: int) -> Option<HitRecord> {
    match o {
        Hittable::Sphere(s) => sphere_hit_spec(s.center, s.radius as int, s.material as int, r, t_min, t_max),
        Hittable::MovingSphere(s) => sphere_hit_spec(
            moving_center_spec(s, r.time as int),
            s.radius as int,
            s.material as int,
            r,
            t_min,
            t_max,
        ),
        Hittable::Rectangle(rc) => rect_hit_spec(rc, r, t_min, t_max),
    }
}

/// The intersection over the full traversal range.
pub open spec fn full_hit(o: Hittable, r: Ray) -> Option<HitRecord> {
    hit_obj_spec(o, r, HIT_EPS_FX as int, T_FX_MAX as int)
}

impl Hittable {
    /// The closest intersection strictly inside `(t_min, t_max)`.
    pub fn hit(&self, r: &Ray, t_min: i64, t_max: i64) -> (res: Option<HitRecord>)
        requires
            hittable_ok(*self),
            ray_ok(*r),
            0 <= t_min,
            t_max <= T_FX_MAX as int,
        ensures
            res == hit_obj_spec(*self, *r, t_min as int, t_max as int),
            res is Some ==> rec_ok(res->Some_0),
            res is Some ==> t_min < res->Some_0.t < t_max,
    {
        match self {
            Hittable::Sphere(s) => s.hit(r, t_min, t_max),
            Hittable::MovingSphere(s) => s.hit(r, t_min, t_max),
            Hittable::Rectangle(rc) => rc.hit(r, t_min, t_max),
        }
    }
}

/// The two roots are ordered: the lower root never exceeds the upper.
proof fn lemma_roots_ordered(center: Vec3, radius: int, r: Ray)
    ensures
        sphere_roots(center, radius, r) matches Some(ts) ==> ts.0 <= ts.1,
{
    if sphere_roots(center, radius, r) is Some {
        let ocx = r.origin.x - center.x;
        let ocy = r.origin.y - center.y;
        let ocz = r.origin.z - center.z;
        let dx = r.direction.x as int;
        let dy = r.direction.y as int;
        let dz = r.direction.z as int;
        let a2 = dx * dx + dy * dy + dz * dz;
        let b2 = ocx * dx + ocy * dy + ocz * dz;
        let sq = sqrt_i(b2 * b2 - a2 * (ocx * ocx + ocy * ocy + ocz * ocz - radius * radius));
        crate::fx::lemma_sqrt_exists(b2 * b2 - a2 * (ocx * ocx + ocy * ocy + ocz * ocz - radius * radius));
        assert((-b2 - sq) * (crate::SCALE as int) <= (-b2 + sq) * (crate::SCALE as int))
            by (nonlinear_arith)
            requires
                sq >= 0,
        ;
        vstd::arithmetic::div_mod::lemma_div_is_ordered(
            (-b2 - sq) * (crate::SCALE as int),
            (-b2 + sq) * (crate::SCALE as int),
            a2,
        );
    }
}

/// Narrowing the far end of the range keeps the same hit when its parameter
/// still fits, and discards it otherwise.
proof fn lemma_hit_shrink(center: Vec3, radius: int, material: int, r: Ray, t_max: int)
    requires
        t_max <= T_FX_MAX as int,
    ensures
        sphere_hit_spec(center, radius, material, r, HIT_EPS_FX as int, t_max) == (
        match sphere_hit_spec(center, radius, material, r, HIT_EPS_FX as int, T_FX_MAX as int) {
            Some(rec) => if rec.t < t_max {
                Some(rec)
            } else {
                None::<HitRecord>
            },
            None => None::<HitRecord>,
        }),
{
    lemma_roots_ordered(center, radius, r);
    if sphere_roots(center, radius, r) is Some {
        let (t1, t2) = sphere_roots(center, radius, r)->Some_0;
        let eps = HIT_EPS_FX as int;
        let full = sphere_hit_spec(center, radius, material, r, eps, T_FX_MAX as int);
        if eps < t1 && t1 < T_FX_MAX as int {
            assert(full == Some(make_rec_spec(center, radius, material, r, t1)));
            assert(full->Some_0.t == t1);
        } else if eps < t2 && t2 < T_FX_MAX as int {
            assert(full == Some(make_rec_spec(center, radius, material, r, t2)));
            assert(full->Some_0.t == t2);
        }
    }
}

/// Narrowing the far end of the range keeps the same rectangle crossing
/// when its parameter still fits, and discards it otherwise.
proof fn lemma_rect_hit_shrink(rc: Rectangle, r: Ray, t_max: int)
    requires
        t_max <= T_FX_MAX as int,
    ensures
        rect_hit_spec(rc, r, HIT_EPS_FX as int, t_max) == (match rect_hit_spec(
            rc,
            r,
            HIT_EPS_FX as int,
            T_FX_MAX as int,
        ) {
            Some(rec) => if rec.t < t_max {
                Some(rec)
            } else {
                None::<HitRecord>
            },
            None => None::<HitRecord>,
        }),
{
}

/// Lift of the shrink property to any primitive.
proof fn lemma_obj_hit_shrink(o: Hittable, r: Ray, t_max: int)
    requires
        t_max <= T_FX_MAX as int,
    ensures
        hit_obj_spec(o, r, HIT_EPS_FX as int, t_max) == (match full_hit(o, r) {
            Some(rec) => if rec.t < t_max {
                Some(rec)
            } else {
                None::<HitRecord>
            },
            None => None::<HitRecord>,
        }),
{
    match o {
        Hittable::Sphere(s) => {
            lemma_hit_shrink(s.center, s.radius as int, s.material as int, r, t_max);
        },
        Hittable::MovingSphere(s) => {
            lemma_hit_shrink(
                moving_center_spec(s, r.time as int),
                s.radius as int,
                s.material as int,
                r,
                t_max,
            );
        },
        Hittable::Rectangle(rc) => {
            lemma_rect_hit_shrink(rc, r, t_max);
        },
    }
}

/// The better of a running best and one more primitive's hit: the strictly
/// closer record wins, the earlier one on ties.
pub open spec fn best_of(cur: Option<HitRecord>, o: Hittable, r: Ray) -> Option<HitRecord> {
    match full_hit(o, r) {
        Some(h) => match cur {
            Some(c) => if h.t < c.t {
                Some(h)
            } else {
                Some(c)
            },
            None => Some(h),
        },
        None => cur,
    }
}

/// The closest hit of a list of primitives, scanning left to right.
pub open spec fn scan_best(objs: Seq<Hittable>, r: Ray) -> Option<HitRecord>
    decreases objs.len(),
{
    if objs.len() == 0 {
        None
    } else {
        best_of(scan_best(objs.drop_last(), r), objs.last(), r)
    }
}

/// Every primitive within the geometric ranges.
pub open spec fn objects_ok(s: Seq<Hittable>) -> bool {
    forall|i: int| 0 <= i < s.len() ==> hittable_ok(#[trigger] s[i])
}

/// The scene as a flat list of primitives.
#[derive(Clone, Debug)]
pub struct HittableObjects {
    pub objects: Vec<Hittable>,
}

impl HittableObjects {
    /// The closest hit over every primitive, or nothing: a brute-force scan,
    /// shrinking the accepted range as closer hits are found.
    pub fn hit_all(&self, r: &Ray) -> (res: Option<HitRecord>)
        requires
            objects_ok(self.objects@),
            ray_ok(*r),
        ensures
            res == scan_best(self.objects@, *r),
            res is Some ==> rec_ok(res->Some_0),
            res is Some ==> (HIT_EPS_FX as int) < res->Some_0.t < (T_FX_MAX as int),
    {
        let mut best: Option<HitRecord> = None;
        let mut closest: i64 = T_FX_MAX;
        let n = self.objects.len();
        let mut i: usize = 0;
        while i < n
            invariant
                0 <= i <= n,
                n == self.objects.len(),
                objects_ok(self.objects@),
                ray_ok(*r),
                best == scan_best(self.objects@.subrange(0, i as int), *r),
                best is Some ==> rec_ok(best->Some_0),
                best is Some ==> (HIT_EPS_FX as int) < best->Some_0.t < (T_FX_MAX as int),
                best is Some ==> closest == best->Some_0.t,
                best is None ==> closest == T_FX_MAX,
            decreases n - i,
        {
            let o = self.objects[i];
            let h = o.hit(r, HIT_EPS_FX, closest);
            proof {
                lemma_obj_hit_shrink(o, *r, closest as int);
                assert(self.objects@.subrange(0, i + 1).drop_last() =~= self.objects@.subrange(
                    0,
                    i as int,
                ));
                assert(self.objects@.subrange(0, i + 1).last() == self.objects@[i as int]);
            }
            match h {
                Some(rec) => {
                    best = Some(rec);
                    closest = rec.t;
                },
                None => {},
            }
            i = i + 1;
        }
        proof {
            assert(self.objects@.subrange(0, n as int) =~= self.objects@);
        }
        best
    }
}

} // verus!
