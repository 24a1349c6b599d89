//! Parametric rays.

use vstd::prelude::*;
use crate::vec3::{Vec3, vec_within};
use crate::fx::fx_mul;

verus! {

/// Largest coordinate magnitude of a well-formed ray (about sixteen thousand
/// scene units): keeps every intersection intermediate inside `i128`.
pub const COORD_FX_MAX: i64 = 0x4000_0000;

/// Largest ray parameter a traversal will accept.
pub const T_FX_MAX: i64 = 0x10_0000_0000;

/// A ray with a motion-blur sample time.
#[derive(Clone, Copy, PartialEq, Eq, Structural, Debug)]
pub struct Ray {
    pub origin: Vec3,
    pub direction: Vec3,
    pub time: i64,
}

/// Origin, direction and sample time within the coordinate range.
pub open spec fn ray_ok(r: Ray) -> bool {
    &&& vec_within(r.origin, COORD_FX_MAX as int)
    &&& vec_within(r.direction, COORD_FX_MAX as int)
    &&& -(COORD_FX_MAX as int) <= r.time <= COORD_FX_MAX as int
}

/// The point reached after parameter `t`: `origin + direction * t`.
pub open spec fn point_at_spec(r: Ray, t: int) -> Vec3 {
    Vec3 {
        x: (r.origin.x + fx_mul(r.direction.x as int, t)) as i64,
        y: (r.origin.y + fx_mul(r.direction.y as int, t)) as i64,
        z: (r.origin.z + fx_mul(r.direction.z as int, t)) as i64,
    }
}

impl Ray {
    /// The point reached after parameter `p`.
    pub fn point_at_parameter(&self, p: i64) -> (r: Vec3)
        requires
            ray_ok(*self),
            -(T_FX_MAX as int) <= p <= T_FX_MAX as int,
        ensures
            r == point_at_spec(*self, p as int),
    {
        proof {
            crate::vec3::lemma_fx_mul_within(COORD_FX_MAX as int, T_FX_MAX as int);
        }
        let d = self.direction.flat_mul(p);
        self.origin.add(&d)
    }
}

} // verus!
