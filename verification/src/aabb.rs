//! Axis-aligned bounding boxes and the slab ray test.

use vstd::prelude::*;
use crate::vec3::{Vec3, vec_within};
use crate::ray::{Ray, ray_ok, COORD_FX_MAX};
use crate::fx::{fx_div, div_fx, lemma_div_floor_abs, lemma_mul_abs};

verus! {

/// An axis-aligned box between two corner points.
#[derive(Clone, Copy, PartialEq, Eq, Structural, Debug)]
pub struct BoundingBox {
    pub point1: Vec3,
    pub point2: Vec3,
}

/// Both corners within twice the coordinate range: a box may straddle the
/// whole scene.
pub open spec fn box_ok(b: BoundingBox) -> bool {
    &&& vec_within(b.point1, 2 * (COORD_FX_MAX as int))
    &&& vec_within(b.point2, 2 * (COORD_FX_MAX as int))
}

pub open spec fn min_i(a: int, b: int) -> int {
    if a < b {
        a
    } else {
        b
    }
}

pub open spec fn max_i(a: int, b: int) -> int {
    if a > b {
        a
    } else {
        b
    }
}

/// The parameter interval in which a ray coordinate stays inside one slab.
/// A ray parallel to the slab yields the full line when its origin lies
/// between the planes and the empty interval otherwise.
pub open spec fn slab_interval(p1: int, p2: int, o: int, d: int) -> (int, int) {
    if d == 0 {
        if min_i(p1, p2) <= o <= max_i(p1, p2) {
            (i64::MIN as int, i64::MAX as int)
        } else {
            (i64::MAX as int, i64::MIN as int)
        }
    } else {
        let t1 = fx_div(p1 - o, d);
        let t2 = fx_div(p2 - o, d);
        (min_i(t1, t2), max_i(t1, t2))
    }
}

/// The slab test: the entry parameter of the ray into the box, or nothing
/// when the three per-axis intervals have empty intersection.
pub open spec fn slab_hit(b: BoundingBox, r: Ray) -> Option<i64> {
    let ix = slab_interval(b.point1.x as int, b.point2.x as int, r.origin.x as int, r.direction.x as int);
    let iy = slab_interval(b.point1.y as int, b.point2.y as int, r.origin.y as int, r.direction.y as int);
    let iz = slab_interval(b.point1.z as int, b.point2.z as int, r.origin.z as int, r.direction.z as int);
    let tmin = max_i(max_i(ix.0, iy.0), iz.0);
    let tmax = min_i(min_i(ix.1, iy.1), iz.1);
    if tmax <= tmin {
        None
    } else {
        Some(tmin as i64)
    }
}

/// One box contains another when it reaches at least as far on every axis.
pub open spec fn box_contains(outer: BoundingBox, inner: BoundingBox) -> bool {
    &&& outer.point1.x <= inner.point1.x
    &&& outer.point1.y <= inner.point1.y
    &&& outer.point1.z <= inner.point1.z
    &&& outer.point2.x >= inner.point2.x
    &&& outer.point2.y >= inner.point2.y
    &&& outer.point2.z >= inner.point2.z
}

/// The componentwise union of two boxes.
pub open spec fn surrounding_spec(a: BoundingBox, b: BoundingBox) -> BoundingBox {
    BoundingBox {
        point1: Vec3 {
            x: min_i(a.point1.x as int, b.point1.x as int) as i64,
            y: min_i(a.point1.y as int, b.point1.y as int) as i64,
            z: min_i(a.point1.z as int, b.point1.z as int) as i64,
        },
        point2: Vec3 {
            x: max_i(a.point2.x as int, b.point2.x as int) as i64,
            y: max_i(a.point2.y as int, b.point2.y as int) as i64,
            z: max_i(a.point2.z as int, b.point2.z as int) as i64,
        },
    }
}

fn min64(a: i64, b: i64) -> (r: i64)
    ensures
        r == min_i(a as int, b as int),
{
    if a < b {
        a
    } else {
        b
    }
}

fn max64(a: i64, b: i64) -> (r: i64)
    ensures
        r == max_i(a as int, b as int),
{
    if a > b {
        a
    } else {
        b
    }
}

/// The box that contains both arguments.
pub fn surrounding_box(a: &BoundingBox, b: &BoundingBox) -> (r: BoundingBox)
    ensures
        r == surrounding_spec(*a, *b),
{
    let p1 = Vec3 {
        x: min64(a.point1.x, b.point1.x),
        y: min64(a.point1.y, b.point1.y),
        z: min64(a.point1.z, b.point1.z),
    };
    let p2 = Vec3 {
        x: max64(a.point2.x, b.point2.x),
        y: max64(a.point2.y, b.point2.y),
        z: max64(a.point2.z, b.point2.z),
    };
    BoundingBox { point1: p1, point2: p2 }
}

/// One slab interval in machine words.
fn axis_interval(p1: i64, p2: i64, o: i64, d: i64) -> (r: (i64, i64))
    requires
        -2 * (COORD_FX_MAX as int) <= p1 <= 2 * (COORD_FX_MAX as int),
        -2 * (COORD_FX_MAX as int) <= p2 <= 2 * (COORD_FX_MAX as int),
        -(COORD_FX_MAX as int) <= o <= COORD_FX_MAX as int,
    ensures
        (r.0 as int, r.1 as int) == slab_interval(p1 as int, p2 as int, o as int, d as int),
{
    if d == 0 {
        let lo = if p1 < p2 {
            p1
        } else {
            p2
        };
        let hi = if p1 > p2 {
            p1
        } else {
            p2
        };
        if lo <= o && o <= hi {
            (i64::MIN, i64::MAX)
        } else {
            (i64::MAX, i64::MIN)
        }
    } else {
        proof {
            lemma_div_abs_ok(p1 as int, o as int, d as int);
            lemma_div_abs_ok(p2 as int, o as int, d as int);
        }
        let t1 = div_fx(p1 - o, d);
        let t2 = div_fx(p2 - o, d);
        if t1 < t2 {
            (t1, t2)
        } else {
            (t2, t1)
        }
    }
}

/// The quotients in a slab interval fit the machine word.
proof fn lemma_div_abs_ok(p: int, o: int, d: int)
    requires
        -2 * (COORD_FX_MAX as int) <= p <= 2 * (COORD_FX_MAX as int),
        -(COORD_FX_MAX as int) <= o <= COORD_FX_MAX as int,
        d != 0,
    ensures
        -0x8_0000_0000_0000int <= fx_div(p - o, d) <= 0x8_0000_0000_0000int,
{
    let s = crate::SCALE as int;
    let m = 0x8_0000_0000_0000int;
    lemma_mul_abs(p - o, s, 3 * (COORD_FX_MAX as int), s);
    if d > 0 {
        assert(m * d >= m) by (nonlinear_arith)
            requires
                d >= 1,
                m > 0,
        ;
        lemma_div_floor_abs((p - o) * s, d, m);
    } else {
        assert(m * (-d) >= m) by (nonlinear_arith)
            requires
                -d >= 1,
                m > 0,
        ;
        lemma_div_floor_abs(-((p - o) * s), -d, m);
        assert(fx_div(p - o, d) == crate::fx::div_floor(-((p - o) * s), -d));
    }
}

impl BoundingBox {
    /// The slab test: entry parameter of the ray, or nothing on a miss.
    pub fn hit(&self, r: &Ray) -> (res: Option<i64>)
        requires
            box_ok(*self),
            ray_ok(*r),
        ensures
            res == slab_hit(*self, *r),
    {
        let ix = axis_interval(self.point1.x, self.point2.x, r.origin.x, r.direction.x);
        let iy = axis_interval(self.point1.y, self.point2.y, r.origin.y, r.direction.y);
        let iz = axis_interval(self.point1.z, self.point2.z, r.origin.z, r.direction.z);
        let tmin = max64(max64(ix.0, iy.0), iz.0);
        let tmax = min64(min64(ix.1, iy.1), iz.1);
        if tmax <= tmin {
            None
        } else {
            Some(tmin)
        }
    }
}

} // verus!
