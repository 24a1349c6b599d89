//! The thin-lens camera: rays with depth-of-field jitter and a shutter-time
//! sample for motion blur.

use vstd::prelude::*;
use crate::vec3::{Vec3, vec_within, dot_spec, unit_spec, cross_spec, length_spec};
use crate::ray::{Ray, ray_ok, COORD_FX_MAX};
use crate::rng::{XorShift, next_spec, unit_draw, signed_draw};
use crate::fx::{div_floor, fx_mul, fx_div, sin_fx_spec, cos_fx_spec, sin_fx, cos_fx, mul_fx, div_fx, lemma_fx_small, lemma_div_floor_abs, lemma_mul_abs};

verus! {

/// Largest component magnitude of a camera basis vector.
pub const CAM_FX_MAX: i64 = 0x800_0000;

/// A camera ready to cast rays.
#[derive(Clone, Copy, PartialEq, Eq, Structural, Debug)]
pub struct Camera {
    pub origin: Vec3,
    pub lower_left: Vec3,
    pub horizontal: Vec3,
    pub vertical: Vec3,
    pub u: Vec3,
    pub v: Vec3,
    pub time0: i64,
    pub time1: i64,
    pub lens_radius: i64,
}

/// Structural validity of a camera.
pub open spec fn camera_ok(c: Camera) -> bool {
    &&& vec_within(c.origin, CAM_FX_MAX as int)
    &&& vec_within(c.lower_left, CAM_FX_MAX as int)
    &&& vec_within(c.horizontal, CAM_FX_MAX as int)
    &&& vec_within(c.vertical, CAM_FX_MAX as int)
    &&& vec_within(c.u, crate::SCALE as int)
    &&& vec_within(c.v, 131074)
    &&& 0 <= c.lens_radius <= crate::SCALE as int
    &&& -(COORD_FX_MAX as int) <= c.time0 <= c.time1 <= COORD_FX_MAX as int
}

/// The rejection-sampled point of the open unit disk, as a function of the
/// generator state: draw two signed fractions, keep the point when it lies
/// strictly inside the disk, and retry, falling back to the center after the
/// attempt budget.
pub open spec fn disk_draw_spec(s: XorShift, tries: int) -> (Vec3, XorShift)
    decreases 64 - tries,
{
    if tries >= 64 {
        (Vec3 { x: 0, y: 0, z: 0 }, s)
    } else {
        let x = signed_draw(s);
        let s1 = next_spec(s);
        let y = signed_draw(s1);
        let s2 = next_spec(s1);
        let p = Vec3 { x: x as i64, y: y as i64, z: 0 };
        if dot_spec(p, p) < crate::SCALE as int {
            (p, s2)
        } else {
            disk_draw_spec(s2, tries + 1)
        }
    }
}

/// A point drawn from the open unit disk in the lens plane: rejection
/// sampling with a bounded number of attempts, falling back to the center;
/// the point and the state left behind are exactly [`disk_draw_spec`] of the
/// incoming state.
pub fn random_in_unit_disk(rng: &mut XorShift) -> (p: Vec3)
    ensures
        vec_within(p, crate::SCALE as int),
        dot_spec(p, p) < crate::SCALE as int,
        p.z == 0,
        (p, *final(rng)) == disk_draw_spec(*old(rng), 0),
{
    let ghost orig = *rng;
    let mut tries: u32 = 0;
    while tries < 64
        invariant
            tries <= 64,
            orig == *old(rng),
            disk_draw_spec(orig, 0) == disk_draw_spec(*rng, tries as int),
        decreases 64 - tries,
    {
        let ghost pre = *rng;
        let x = rng.next_signed_unit();
        let y = rng.next_signed_unit();
        let p = Vec3 { x, y, z: 0 };
        if p.dot(&p) < crate::SCALE {
            proof {
                assert(disk_draw_spec(pre, tries as int) == (p, *rng));
            }
            return p;
        }
        proof {
            assert(disk_draw_spec(pre, tries as int) == disk_draw_spec(*rng, tries as int + 1));
        }
        tries = tries + 1;
    }
    proof {
        vstd::arithmetic::div_mod::lemma_div_of0(crate::SCALE as int);
        assert(dot_spec(Vec3 { x: 0i64, y: 0i64, z: 0i64 }, Vec3 { x: 0i64, y: 0i64, z: 0i64 })
            == 0);
        assert(disk_draw_spec(*rng, 64) == (Vec3 { x: 0i64, y: 0i64, z: 0i64 }, *rng));
    }
    Vec3 { x: 0, y: 0, z: 0 }
}

/// The ray one camera sample yields, as a function of the generator state:
/// a disk draw for the lens offset, then a unit draw for the shutter time.
pub open spec fn camera_ray_spec(c: Camera, s: int, t: int, st: XorShift) -> (Ray, XorShift) {
    let (rd, s1) = disk_draw_spec(st, 0);
    let tu = unit_draw(s1);
    (get_ray_spec(c, s, t, rd, tu), next_spec(s1))
}

/// The ray a camera casts given its random lens offset and shutter sample:
/// it starts at the lens-jittered origin and heads toward the `(s, t)`
/// image-plane point.
pub open spec fn get_ray_spec(c: Camera, s: int, t: int, rd: Vec3, tu: int) -> Ray {
    let ox = fx_mul(rd.x as int, c.lens_radius as int);
    let oy = fx_mul(rd.y as int, c.lens_radius as int);
    let offx = fx_mul(c.u.x as int, ox) + fx_mul(c.v.x as int, oy);
    let offy = fx_mul(c.u.y as int, ox) + fx_mul(c.v.y as int, oy);
    let offz = fx_mul(c.u.z as int, ox) + fx_mul(c.v.z as int, oy);
    let time = c.time0 + fx_mul(tu, c.time1 - c.time0);
    let dx = c.lower_left.x + fx_mul(c.horizontal.x as int, s) + fx_mul(c.vertical.x as int, t) - (
    c.origin.x + offx);
    let dy = c.lower_left.y + fx_mul(c.horizontal.y as int, s) + fx_mul(c.vertical.y as int, t) - (
    c.origin.y + offy);
    let dz = c.lower_left.z + fx_mul(c.horizontal.z as int, s) + fx_mul(c.vertical.z as int, t) - (
    c.origin.z + offz);
    Ray {
        origin: Vec3 {
            x: (c.origin.x + offx) as i64,
            y: (c.origin.y + offy) as i64,
            z: (c.origin.z + offz) as i64,
        },
        direction: Vec3 { x: dx as i64, y: dy as i64, z: dz as i64 },
        time: time as i64,
    }
}

impl Camera {
    /// Cast the ray through image-plane position `(s, t)`, jittered by a lens
    /// sample and carrying a shutter-time sample.
    pub fn get_ray(&self, rng: &mut XorShift, s: i64, t: i64) -> (r: Ray)
        requires
            camera_ok(*self),
            0 <= s <= crate::SCALE as int,
            0 <= t <= crate::SCALE as int,
        ensures
            ray_ok(r),
            self.time0 <= r.time <= self.time1,
            (r, *final(rng)) == camera_ray_spec(*self, s as int, t as int, *old(rng)),
    {
        let rd = random_in_unit_disk(rng);
        proof {
            lemma_fx_small(rd.x as int, self.lens_radius as int);
            lemma_fx_small(rd.y as int, self.lens_radius as int);
            crate::vec3::lemma_fx_mul_within(crate::SCALE as int, crate::SCALE as int);
        }
        let ox = mul_fx(rd.x, self.lens_radius);
        let oy = mul_fx(rd.y, self.lens_radius);
        proof {
            let s1 = crate::SCALE as int;
            crate::vec3::lemma_fx_mul_within(s1, s1 + 1);
            crate::vec3::lemma_fx_mul_within(131074, s1 + 1);
        }
        let offx = mul_fx(self.u.x, ox) + mul_fx(self.v.x, oy);
        let offy = mul_fx(self.u.y, ox) + mul_fx(self.v.y, oy);
        let offz = mul_fx(self.u.z, ox) + mul_fx(self.v.z, oy);
        let tu = rng.next_unit();
        proof {
            crate::fx::lemma_fx_mul_bound(
                tu as int,
                self.time1 as int - self.time0 as int,
                65536,
                0x8000_0000,
                0x8000_0000,
            );
            assert(fx_mul(tu as int, self.time1 as int - self.time0 as int) >= 0) by {
                assert((tu as int) * (self.time1 as int - self.time0 as int) >= 0)
                    by (nonlinear_arith)
                    requires
                        tu >= 0,
                        self.time1 >= self.time0,
                ;
                vstd::arithmetic::div_mod::lemma_div_pos_is_pos(
                    (tu as int) * (self.time1 as int - self.time0 as int),
                    crate::SCALE as int,
                );
            }
            assert(fx_mul(tu as int, self.time1 as int - self.time0 as int) <= self.time1 as int
                - self.time0 as int) by {
                assert((tu as int) * (self.time1 as int - self.time0 as int) <= (self.time1 as int
                    - self.time0 as int) * 65536) by (nonlinear_arith)
                    requires
                        0 <= tu < 65536,
                        self.time1 >= self.time0,
                ;
                lemma_div_floor_abs(
                    (tu as int) * (self.time1 as int - self.time0 as int),
                    crate::SCALE as int,
                    self.time1 as int - self.time0 as int,
                );
            }
        }
        let time = self.time0 + mul_fx(tu, self.time1 - self.time0);
        proof {
            crate::fx::lemma_fx_mul_bound(
                self.horizontal.x as int,
                s as int,
                CAM_FX_MAX as int,
                65536,
                CAM_FX_MAX as int,
            );
            crate::fx::lemma_fx_mul_bound(
                self.horizontal.y as int,
                s as int,
                CAM_FX_MAX as int,
                65536,
                CAM_FX_MAX as int,
            );
            crate::fx::lemma_fx_mul_bound(
                self.horizontal.z as int,
                s as int,
                CAM_FX_MAX as int,
                65536,
                CAM_FX_MAX as int,
            );
            crate::fx::lemma_fx_mul_bound(
                self.vertical.x as int,
                t as int,
                CAM_FX_MAX as int,
                65536,
                CAM_FX_MAX as int,
            );
            crate::fx::lemma_fx_mul_bound(
                self.vertical.y as int,
                t as int,
                CAM_FX_MAX as int,
                65536,
                CAM_FX_MAX as int,
            );
            crate::fx::lemma_fx_mul_bound(
                self.vertical.z as int,
                t as int,
                CAM_FX_MAX as int,
                65536,
                CAM_FX_MAX as int,
            );
        }
        let dx = self.lower_left.x + mul_fx(self.horizontal.x, s) + mul_fx(self.vertical.x, t) - (
        self.origin.x + offx);
        let dy = self.lower_left.y + mul_fx(self.horizontal.y, s) + mul_fx(self.vertical.y, t) - (
        self.origin.y + offy);
        let dz = self.lower_left.z + mul_fx(self.horizontal.z, s) + mul_fx(self.vertical.z, t) - (
        self.origin.z + offz);
        let r = Ray {
            origin: Vec3 { x: self.origin.x + offx, y: self.origin.y + offy, z: self.origin.z + offz },
            direction: Vec3 { x: dx, y: dy, z: dz },
            time,
        };
        proof {
            assert(r == get_ray_spec(*self, s as int, t as int, rd, tu as int));
        }
        r
    }
}

/// The camera a viewing configuration yields, or nothing when the field of
/// view or the derived basis falls outside the workable ranges.
pub open spec fn camera_build_spec(
    look_from: Vec3,
    look_at: Vec3,
    up: Vec3,
    vfov: int,
    aspect: int,
    aperture: int,
    time0: int,
    time1: int,
) -> Option<Camera> {
    let s = crate::SCALE as int;
    let theta = div_floor(fx_mul(vfov, crate::fx::PI_FX as int), 180);
    let ht = div_floor(theta, 2);
    let sn = sin_fx_spec(ht);
    let cs = cos_fx_spec(ht);
    if cs <= 0 {
        None
    } else {
        let hh = fx_div(sn, cs);
        if !(0 <= hh <= 8 * s) {
            None
        } else {
            let hw = fx_mul(aspect, hh);
            let diff = Vec3 {
                x: (look_from.x - look_at.x) as i64,
                y: (look_from.y - look_at.y) as i64,
                z: (look_from.z - look_at.z) as i64,
            };
            let fd = length_spec(diff);
            let w = unit_spec(diff);
            let u = unit_spec(cross_spec(up, w));
            let v = cross_spec(w, u);
            let lower_left = Vec3 {
                x: (look_from.x - fx_mul(fx_mul(u.x as int, hw), fd) - fx_mul(
                    fx_mul(v.x as int, hh),
                    fd,
                ) - fx_mul(w.x as int, fd)) as i64,
                y: (look_from.y - fx_mul(fx_mul(u.y as int, hw), fd) - fx_mul(
                    fx_mul(v.y as int, hh),
                    fd,
                ) - fx_mul(w.y as int, fd)) as i64,
                z: (look_from.z - fx_mul(fx_mul(u.z as int, hw), fd) - fx_mul(
                    fx_mul(v.z as int, hh),
                    fd,
                ) - fx_mul(w.z as int, fd)) as i64,
            };
            let hfac = fx_mul(2 * fd, hw);
            let vfac = fx_mul(2 * fd, hh);
            let horizontal = Vec3 {
                x: fx_mul(u.x as int, hfac) as i64,
                y: fx_mul(u.y as int, hfac) as i64,
                z: fx_mul(u.z as int, hfac) as i64,
            };
            let vertical = Vec3 {
                x: fx_mul(v.x as int, vfac) as i64,
                y: fx_mul(v.y as int, vfac) as i64,
                z: fx_mul(v.z as int, vfac) as i64,
            };
            if vec_within(lower_left, CAM_FX_MAX as int) && vec_within(
                horizontal,
                CAM_FX_MAX as int,
            ) && vec_within(vertical, CAM_FX_MAX as int) {
                Some(
                    Camera {
                        origin: look_from,
                        lower_left,
                        horizontal,
                        vertical,
                        u,
                        v,
                        time0: time0 as i64,
                        time1: time1 as i64,
                        lens_radius: (aperture / 2) as i64,
                    },
                )
            } else {
                None
            }
        }
    }
}

/// Build a camera from a viewing configuration; nothing when the field of
/// view or the derived frame falls outside the workable ranges.
pub fn get_camera(
    look_from: Vec3,
    look_at: Vec3,
    up: Vec3,
    vfov: i64,
    aspect: i64,
    aperture: i64,
    time0: i64,
    time1: i64,
) -> (res: Option<Camera>)
    requires
        vec_within(look_from, 0x100_0000),
        vec_within(look_at, 0x100_0000),
        vec_within(up, crate::SCALE as int),
        0 < vfov <= 11141120,
        0 <= aspect <= 262144,
        0 <= aperture <= crate::SCALE as int,
        -(COORD_FX_MAX as int) <= time0 <= time1 <= COORD_FX_MAX as int,
    ensures
        res == camera_build_spec(
            look_from,
            look_at,
            up,
            vfov as int,
            aspect as int,
            aperture as int,
            time0 as int,
            time1 as int,
        ),
        res is Some ==> camera_ok(res->Some_0),
{
    proof {
        crate::fx::lemma_fx_mul_bound(vfov as int, crate::fx::PI_FX as int, 11141120, 205887, 35010000);
        lemma_div_floor_abs(fx_mul(vfov as int, crate::fx::PI_FX as int), 180, 35010000);
    }
    let theta = crate::fx::div_floor_i128(
        (mul_fx(vfov, crate::fx::PI_FX) as i128),
        180,
    ) as i64;
    let ht = crate::fx::div_floor_i128(theta as i128, 2) as i64;
    proof {
        lemma_div_floor_abs(theta as int, 2, 35010000);
    }
    let sn = sin_fx(ht);
    let cs = cos_fx(ht);
    if cs <= 0 {
        return None;
    }
    proof {
        crate::fx::lemma_fx_div_bound(sn as int, cs as int, 65536, 1, 4294967296);
    }
    let hh = div_fx(sn, cs);
    if !(0 <= hh && hh <= 8 * crate::SCALE) {
        return None;
    }
    proof {
        crate::fx::lemma_fx_mul_bound(aspect as int, hh as int, 262144, 524288, 2097152);
    }
    let hw = mul_fx(aspect, hh);
    let diff = look_from.sub(&look_at);
    let fd = diff.length();
    proof {
        lemma_dot_small(diff);
        crate::fx::lemma_sqrt_exists(dot_spec(diff, diff) * (crate::SCALE as int));
        assert(fd < 0x8_0000_0000) by (nonlinear_arith)
            requires
                (fd as int) * (fd as int) <= dot_spec(diff, diff) * 65536,
                dot_spec(diff, diff) <= 3 * 0x2_0000_0000_0000int + 1,
                fd >= 0,
        ;
    }
    let w = diff.unit_vector();
    let cu = up.cross(&w);
    proof {
        crate::vec3::lemma_fx_mul_within(crate::SCALE as int, crate::SCALE as int);
        assert(vec_within(cu, 131074));
    }
    let u = cu.unit_vector();
    let v = w.cross(&u);
    proof {
        crate::vec3::lemma_fx_mul_within(crate::SCALE as int, crate::SCALE as int);
    }
    let llx = camera_corner_comp(look_from.x, u.x, v.x, w.x, hw, hh, fd);
    let lly = camera_corner_comp(look_from.y, u.y, v.y, w.y, hw, hh, fd);
    let llz = camera_corner_comp(look_from.z, u.z, v.z, w.z, hw, hh, fd);
    proof {
        crate::fx::lemma_fx_mul_bound(2 * (fd as int), hw as int, 0x10_0000_0000, 2097152, 0x8_0000_0000_0000);
        crate::fx::lemma_fx_mul_bound(2 * (fd as int), hh as int, 0x10_0000_0000, 524288, 0x2_0000_0000_0000);
    }
    let hfac = mul_fx(2 * fd, hw);
    let vfac = mul_fx(2 * fd, hh);
    proof {
        crate::fx::lemma_fx_mul_bound(u.x as int, hfac as int, 65536, 0x8_0000_0000_0000, 0x8_0000_0000_0000);
        crate::fx::lemma_fx_mul_bound(u.y as int, hfac as int, 65536, 0x8_0000_0000_0000, 0x8_0000_0000_0000);
        crate::fx::lemma_fx_mul_bound(u.z as int, hfac as int, 65536, 0x8_0000_0000_0000, 0x8_0000_0000_0000);
        crate::fx::lemma_fx_mul_bound(v.x as int, vfac as int, 131074, 0x2_0000_0000_0000, 0x4_0004_0000_0000);
        crate::fx::lemma_fx_mul_bound(v.y as int, vfac as int, 131074, 0x2_0000_0000_0000, 0x4_0004_0000_0000);
        crate::fx::lemma_fx_mul_bound(v.z as int, vfac as int, 131074, 0x2_0000_0000_0000, 0x4_0004_0000_0000);
    }
    let horizontal = Vec3 { x: mul_fx(u.x, hfac), y: mul_fx(u.y, hfac), z: mul_fx(u.z, hfac) };
    let vertical = Vec3 { x: mul_fx(v.x, vfac), y: mul_fx(v.y, vfac), z: mul_fx(v.z, vfac) };
    let lower_left = Vec3 { x: llx, y: lly, z: llz };
    let ok_ll = -CAM_FX_MAX <= lower_left.x && lower_left.x <= CAM_FX_MAX && -CAM_FX_MAX
        <= lower_left.y && lower_left.y <= CAM_FX_MAX && -CAM_FX_MAX <= lower_left.z
        && lower_left.z <= CAM_FX_MAX;
    let ok_h = -CAM_FX_MAX <= horizontal.x && horizontal.x <= CAM_FX_MAX && -CAM_FX_MAX
        <= horizontal.y && horizontal.y <= CAM_FX_MAX && -CAM_FX_MAX <= horizontal.z
        && horizontal.z <= CAM_FX_MAX;
    let ok_v = -CAM_FX_MAX <= vertical.x && vertical.x <= CAM_FX_MAX && -CAM_FX_MAX <= vertical.y
        && vertical.y <= CAM_FX_MAX && -CAM_FX_MAX <= vertical.z && vertical.z <= CAM_FX_MAX;
    if ok_ll && ok_h && ok_v {
        proof {
            assert(vec_within(v, 131074)) by {
                lemma_v_unit_range(w, u);
            }
        }
        Some(
            Camera {
                origin: look_from,
                lower_left,
                horizontal,
                vertical,
                u,
                v,
                time0,
                time1,
                lens_radius: aperture / 2,
            },
        )
    } else {
        None
    }
}

/// One coordinate of the lower-left image-plane corner.
fn camera_corner_comp(lf: i64, u: i64, v: i64, w: i64, hw: i64, hh: i64, fd: i64) -> (r: i64)
    requires
        -0x100_0000 <= lf <= 0x100_0000,
        -65536 <= u <= 65536,
        -131074 <= v <= 131074,
        -65536 <= w <= 65536,
        0 <= hw <= 2097152,
        0 <= hh <= 524288,
        0 <= fd <= 0x8_0000_0000,
    ensures
        r == lf - fx_mul(fx_mul(u as int, hw as int), fd as int) - fx_mul(
            fx_mul(v as int, hh as int),
            fd as int,
        ) - fx_mul(w as int, fd as int),
{
    proof {
        crate::fx::lemma_fx_mul_bound(u as int, hw as int, 65536, 2097152, 2097152);
        crate::fx::lemma_fx_mul_bound(v as int, hh as int, 131074, 524288, 1048592);
        crate::fx::lemma_fx_mul_bound(
            fx_mul(u as int, hw as int),
            fd as int,
            2097152,
            0x8_0000_0000,
            0x10_0000_0000_0000,
        );
        crate::fx::lemma_fx_mul_bound(
            fx_mul(v as int, hh as int),
            fd as int,
            1048592,
            0x8_0000_0000,
            0x8_0008_0000_0000,
        );
        crate::fx::lemma_fx_mul_bound(w as int, fd as int, 65536, 0x8_0000_0000, 0x8_0000_0000);
    }
    lf - mul_fx(mul_fx(u, hw), fd) - mul_fx(mul_fx(v, hh), fd) - mul_fx(w, fd)
}

/// The dot of a vector with small components is small.
proof fn lemma_dot_small(v: Vec3)
    requires
        vec_within(v, 0x200_0000),
    ensures
        0 <= dot_spec(v, v) <= 3 * 0x2_0000_0000_0000int + 1,
{
    lemma_mul_abs(v.x as int, v.x as int, 0x200_0000, 0x200_0000);
    lemma_mul_abs(v.y as int, v.y as int, 0x200_0000, 0x200_0000);
    lemma_mul_abs(v.z as int, v.z as int, 0x200_0000, 0x200_0000);
    assert(v.x * v.x >= 0 && v.y * v.y >= 0 && v.z * v.z >= 0) by (nonlinear_arith);
    vstd::arithmetic::div_mod::lemma_div_pos_is_pos(
        v.x * v.x + v.y * v.y + v.z * v.z,
        crate::SCALE as int,
    );
    lemma_div_floor_abs(v.x * v.x + v.y * v.y + v.z * v.z, crate::SCALE as int, 3 * 0x2_0000_0000_0000int);
}

/// The cross of two unit-range vectors stays inside the unit range with one
/// step of slack per term, which the camera treats as the unit range.
proof fn lemma_v_unit_range(w: Vec3, u: Vec3)
    requires
        vec_within(w, crate::SCALE as int),
        vec_within(u, crate::SCALE as int),
    ensures
        vec_within(cross_spec(w, u), 131074),
{
    crate::vec3::lemma_fx_mul_within(crate::SCALE as int, crate::SCALE as int);
}

} // verus!
