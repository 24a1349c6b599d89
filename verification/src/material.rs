//! Material scattering: diffuse, fuzzy metal, dielectric refraction with
//! Fresnel weighting, and diffuse emission.

use vstd::prelude::*;
use crate::vec3::{Vec3, Color, vec_within, color_ok, clamp_i, clamp64, dot_spec, unit_spec, length_spec};
use crate::ray::{Ray, ray_ok, COORD_FX_MAX};
use crate::sphere::{HitRecord, rec_ok, NORMAL_FX_MAX};
use crate::texture::{Texture, texture_ok, texture_value_spec};
use crate::rng::{XorShift, next_spec, unit_draw, signed_draw};
use crate::fx::{fx_mul, fx_div, sqrt_i, mul_fx, div_fx, sqrt_fx, lemma_fx_small, lemma_fx_div_small, lemma_div_floor_abs, lemma_mul_abs};

verus! {

/// A matte surface colored by a texture.
#[derive(Clone, Debug)]
pub struct Lambertian {
    pub texture: Texture,
}

/// A reflective surface, optionally roughened by a fuzz radius.
#[derive(Clone, Copy, PartialEq, Eq, Structural, Debug)]
pub struct Metal {
    pub albedo: Color,
    pub fuzz: i64,
}

/// A clear refractive surface such as glass or water.
#[derive(Clone, Copy, PartialEq, Eq, Structural, Debug)]
pub struct Dielectric {
    pub reflective_index: i64,
}

/// A surface that emits rather than reflects light.
#[derive(Clone, Copy, PartialEq, Eq, Structural, Debug)]
pub struct DiffuseLight {
    pub brightness: Color,
}

/// Any of the scattering models.
#[derive(Clone, Debug)]
pub enum Material {
    Lambertian(Lambertian),
    Metal(Metal),
    Dielectric(Dielectric),
    DiffuseLight(DiffuseLight),
}

/// Structural validity of a material: colors are radiance fractions, fuzz is
/// at most one, and the refractive index lies between a quarter and sixteen.
pub open spec fn material_ok(m: Material) -> bool {
    match m {
        Material::Lambertian(l) => texture_ok(l.texture),
        Material::Metal(mt) => color_ok(mt.albedo) && 0 <= mt.fuzz <= crate::SCALE as int,
        Material::Dielectric(d) => 16384 <= d.reflective_index <= 1048576,
        Material::DiffuseLight(dl) => color_ok(dl.brightness),
    }
}

/// The mirror reflection of `v` about the normal `n`.
pub open spec fn reflect_spec(v: Vec3, n: Vec3) -> Vec3 {
    let d2 = 2 * dot_spec(v, n);
    Vec3 {
        x: (v.x - fx_mul(n.x as int, d2)) as i64,
        y: (v.y - fx_mul(n.y as int, d2)) as i64,
        z: (v.z - fx_mul(n.z as int, d2)) as i64,
    }
}

/// Schlick's reflectance approximation:
/// `r0^2 + (1 - r0^2)(1 - cos)^5` with `r0 = (1 - n) / (1 + n)`.
pub open spec fn schlick_spec(cos: int, idx: int) -> int {
    let s = crate::SCALE as int;
    let r0 = fx_div(s - idx, s + idx);
    let r0s = fx_mul(r0, r0);
    let c1 = s - cos;
    let p2 = fx_mul(c1, c1);
    let p5 = fx_mul(fx_mul(p2, p2), c1);
    r0s + fx_mul(s - r0s, p5)
}

/// The cosine term of the dielectric decision: the incident dot scaled by
/// the direction's length, clamped to a few units.
pub open spec fn part_cos_spec(dir: Vec3, normal: Vec3) -> int {
    let d = dot_spec(dir, normal);
    let len = length_spec(dir);
    if len > 0 {
        clamp_i(fx_div(d, len), 4 * (crate::SCALE as int))
    } else {
        0
    }
}

/// The refraction vector through the outward normal, by Snell's law.
pub open spec fn refract_vec_spec(uv: Vec3, out_n: Vec3, ni: int, discrim: int) -> Vec3 {
    let dt = dot_spec(uv, out_n);
    let sq = sqrt_i(discrim * (crate::SCALE as int));
    Vec3 {
        x: (fx_mul(uv.x - fx_mul(out_n.x as int, dt), ni) - fx_mul(out_n.x as int, sq)) as i64,
        y: (fx_mul(uv.y - fx_mul(out_n.y as int, dt), ni) - fx_mul(out_n.y as int, sq)) as i64,
        z: (fx_mul(uv.z - fx_mul(out_n.z as int, dt), ni) - fx_mul(out_n.z as int, sq)) as i64,
    }
}

/// The Snell discriminant `1 - ni^2 (1 - dt^2)`.
pub open spec fn snell_discrim_spec(uv: Vec3, out_n: Vec3, ni: int) -> int {
    let s = crate::SCALE as int;
    let dt = dot_spec(uv, out_n);
    s - fx_mul(fx_mul(ni, ni), s - fx_mul(dt, dt))
}

/// The dielectric scattering direction given the stochastic sample that
/// decides between reflection and refraction: refract by Snell's law unless
/// total internal reflection or the Schlick test forces a reflection.
pub open spec fn diel_dir_spec(sample: int, dir: Vec3, normal: Vec3, idx: int) -> Vec3 {
    let s = crate::SCALE as int;
    let d = dot_spec(dir, normal);
    let pc = part_cos_spec(dir, normal);
    let out_n = if d > 0 {
        Vec3 { x: (-normal.x) as i64, y: (-normal.y) as i64, z: (-normal.z) as i64 }
    } else {
        normal
    };
    let ni = if d > 0 {
        idx
    } else {
        fx_div(s, idx)
    };
    let cos = if d > 0 {
        fx_mul(pc, idx)
    } else {
        -pc
    };
    let uv = unit_spec(dir);
    let discrim = snell_discrim_spec(uv, out_n, ni);
    let refl = reflect_spec(uv, normal);
    if discrim <= 0 {
        refl
    } else if sample < schlick_spec(cos, idx) {
        refl
    } else {
        refract_vec_spec(uv, out_n, ni, discrim)
    }
}

/// The rejection-sampled point of the open unit ball, as a function of the
/// generator state: draw three signed fractions, keep the point when it lies
/// strictly inside the ball, and retry, falling back to the center after the
/// attempt budget.
pub open spec fn sphere_draw_spec(s: XorShift, tries: int) -> (Vec3, XorShift)
    decreases 64 - tries,
{
    if tries >= 64 {
        (Vec3 { x: 0, y: 0, z: 0 }, s)
    } else {
        let x = signed_draw(s);
        let s1 = next_spec(s);
        let y = signed_draw(s1);
        let s2 = next_spec(s1);
        let z = signed_draw(s2);
        let s3 = next_spec(s2);
        let p = Vec3 { x: x as i64, y: y as i64, z: z as i64 };
        if dot_spec(p, p) < crate::SCALE as int {
            (p, s3)
        } else {
            sphere_draw_spec(s3, tries + 1)
        }
    }
}

/// A point drawn from the open unit ball: rejection sampling with a bounded
/// number of attempts, falling back to the center; the point and the state
/// left behind are exactly [`sphere_draw_spec`] of the incoming state.
pub fn random_in_sphere(rng: &mut XorShift) -> (p: Vec3)
    ensures
        vec_within(p, crate::SCALE as int),
        dot_spec(p, p) < crate::SCALE as int,
        (p, *final(rng)) == sphere_draw_spec(*old(rng), 0),
{
    let ghost orig = *rng;
    let mut tries: u32 = 0;
    while tries < 64
        invariant
            tries <= 64,
            orig == *old(rng),
            sphere_draw_spec(orig, 0) == sphere_draw_spec(*rng, tries as int),
        decreases 64 - tries,
    {
        let ghost pre = *rng;
        let x = rng.next_signed_unit();
        let y = rng.next_signed_unit();
        let z = rng.next_signed_unit();
        let p = Vec3 { x, y, z };
        if p.squared_length() < crate::SCALE {
            proof {
                assert(sphere_draw_spec(pre, tries as int) == (p, *rng));
            }
            return p;
        }
        proof {
            assert(sphere_draw_spec(pre, tries as int) == sphere_draw_spec(
                *rng,
                tries as int + 1,
            ));
        }
        tries = tries + 1;
    }
    proof {
        vstd::arithmetic::div_mod::lemma_div_of0(crate::SCALE as int);
        assert(sphere_draw_spec(*rng, 64) == (Vec3 { x: 0i64, y: 0i64, z: 0i64 }, *rng));
    }
    Vec3 { x: 0, y: 0, z: 0 }
}

/// The diffuse scattering step as a function of the generator state: one
/// ball draw perturbs the surface normal; always scatters.
pub open spec fn lambertian_scatter_spec(s: XorShift, ray: Ray, hit: HitRecord) -> (Option<Ray>, XorShift) {
    let (q, s1) = sphere_draw_spec(s, 0);
    (
        Some(
            Ray {
                origin: hit.p,
                direction: Vec3 {
                    x: (hit.normal.x + q.x) as i64,
                    y: (hit.normal.y + q.y) as i64,
                    z: (hit.normal.z + q.z) as i64,
                },
                time: ray.time,
            },
        ),
        s1,
    )
}

/// The specular scattering step as a function of the generator state: the
/// mirror reflection of the unit incoming direction, perturbed by a
/// fuzz-scaled ball draw; absorbed exactly when the perturbed direction
/// points into the surface.
pub open spec fn metal_scatter_spec(mt: Metal, s: XorShift, ray: Ray, hit: HitRecord) -> (Option<Ray>, XorShift) {
    let (q, s1) = sphere_draw_spec(s, 0);
    let refl = reflect_spec(unit_spec(ray.direction), hit.normal);
    let d = Vec3 {
        x: (refl.x + fx_mul(q.x as int, mt.fuzz as int)) as i64,
        y: (refl.y + fx_mul(q.y as int, mt.fuzz as int)) as i64,
        z: (refl.z + fx_mul(q.z as int, mt.fuzz as int)) as i64,
    };
    if dot_spec(d, hit.normal) > 0 {
        (Some(Ray { origin: hit.p, direction: d, time: ray.time }), s1)
    } else {
        (None, s1)
    }
}

/// The dielectric scattering step as a function of the generator state: one
/// unit draw decides reflection against refraction; never absorbs.
pub open spec fn dielectric_scatter_spec(di: Dielectric, s: XorShift, ray: Ray, hit: HitRecord) -> (Option<Ray>, XorShift) {
    (
        Some(
            Ray {
                origin: hit.p,
                direction: diel_dir_spec(
                    unit_draw(s),
                    ray.direction,
                    hit.normal,
                    di.reflective_index as int,
                ),
                time: ray.time,
            },
        ),
        next_spec(s),
    )
}

/// The scattering step of any material as a function of the generator
/// state: the scattered ray (absence meaning absorption) and the state the
/// draws leave behind. A light draws nothing and never scatters.
pub open spec fn scatter_spec(m: Material, s: XorShift, ray: Ray, hit: HitRecord) -> (Option<Ray>, XorShift) {
    match m {
        Material::Lambertian(_) => lambertian_scatter_spec(s, ray, hit),
        Material::Metal(mt) => metal_scatter_spec(mt, s, ray, hit),
        Material::Dielectric(di) => dielectric_scatter_spec(di, s, ray, hit),
        Material::DiffuseLight(_) => (None, s),
    }
}

/// The mirror reflection of `v` about the normal `n`.
pub fn reflect(v: &Vec3, n: &Vec3) -> (r: Vec3)
    requires
        vec_within(*v, 4 * (crate::SCALE as int)),
        vec_within(*n, NORMAL_FX_MAX as int),
    ensures
        r == reflect_spec(*v, *n),
        vec_within(r, 6700000),
{
    let d = v.dot(n);
    proof {
        lemma_dot_bound(*v, *n, 262144, 131072);
        crate::fx::lemma_fx_mul_bound(n.x as int, 2 * (d as int), 131072, 3200000, 6400000);
        crate::fx::lemma_fx_mul_bound(n.y as int, 2 * (d as int), 131072, 3200000, 6400000);
        crate::fx::lemma_fx_mul_bound(n.z as int, 2 * (d as int), 131072, 3200000, 6400000);
    }
    let rx = v.x - mul_fx(n.x, 2 * d);
    let ry = v.y - mul_fx(n.y, 2 * d);
    let rz = v.z - mul_fx(n.z, 2 * d);
    Vec3 { x: rx, y: ry, z: rz }
}

/// The dot of vectors within `ma` and `mb` is within `3 ma mb / SCALE + 1`.
proof fn lemma_dot_bound(a: Vec3, b: Vec3, ma: int, mb: int)
    requires
        0 <= ma,
        0 <= mb,
        vec_within(a, ma),
        vec_within(b, mb),
    ensures
        -(3 * (ma * mb) / 65536 + 1) <= dot_spec(a, b) <= 3 * (ma * mb) / 65536 + 1,
{
    let s = crate::SCALE as int;
    assert(s == 65536);
    lemma_mul_abs(a.x as int, b.x as int, ma, mb);
    lemma_mul_abs(a.y as int, b.y as int, ma, mb);
    lemma_mul_abs(a.z as int, b.z as int, ma, mb);
    let mm = 3 * (ma * mb);
    let m2 = mm / s + 1;
    assert(mm >= 0) by (nonlinear_arith)
        requires
            0 <= ma,
            0 <= mb,
            mm == 3 * (ma * mb),
    ;
    vstd::arithmetic::div_mod::lemma_div_pos_is_pos(mm, s);
    vstd::arithmetic::div_mod::lemma_fundamental_div_mod(mm, s);
    vstd::arithmetic::div_mod::lemma_mod_bound(mm, s);
    assert(m2 * s == s * (mm / s) + s) by (nonlinear_arith)
        requires
            m2 == mm / s + 1,
    ;
    lemma_div_floor_abs(
        a.x * b.x + a.y * b.y + a.z * b.z,
        s,
        m2,
    );
}

impl Lambertian {
    /// Diffuse scatter: the normal perturbed by a random point in the unit
    /// ball; always scatters.
    pub fn scatter(&self, rng: &mut XorShift, ray: &Ray, hit: &HitRecord) -> (res: Option<Ray>)
        requires
            ray_ok(*ray),
            rec_ok(*hit),
        ensures
            res is Some,
            ray_ok(res->Some_0),
            res->Some_0.origin == hit.p,
            res->Some_0.time == ray.time,
            (res, *final(rng)) == lambertian_scatter_spec(*old(rng), *ray, *hit),
    {
        let q = random_in_sphere(rng);
        let direction = hit.normal.add(&q);
        let res = Ray { origin: hit.p, direction, time: ray.time };
        proof {
            assert(res.direction == (Vec3 {
                x: (hit.normal.x + q.x) as i64,
                y: (hit.normal.y + q.y) as i64,
                z: (hit.normal.z + q.z) as i64,
            }));
        }
        Some(res)
    }
}

impl Metal {
    /// Specular scatter: the reflected direction perturbed by the fuzz
    /// radius; absorbed when the result points into the surface.
    pub fn scatter(&self, rng: &mut XorShift, ray: &Ray, hit: &HitRecord) -> (res: Option<Ray>)
        requires
            material_ok(Material::Metal(*self)),
            ray_ok(*ray),
            rec_ok(*hit),
        ensures
            res is Some ==> ray_ok(res->Some_0) && res->Some_0.origin == hit.p
                && res->Some_0.time == ray.time,
            res is Some ==> dot_spec(res->Some_0.direction, hit.normal) > 0,
            (res, *final(rng)) == metal_scatter_spec(*self, *old(rng), *ray, *hit),
    {
        let unit = ray.direction.unit_vector();
        let reflected = reflect(&unit, &hit.normal);
        let q = random_in_sphere(rng);
        proof {
            lemma_fx_small(q.x as int, self.fuzz as int);
            lemma_fx_small(q.y as int, self.fuzz as int);
            lemma_fx_small(q.z as int, self.fuzz as int);
            crate::vec3::lemma_fx_mul_within(crate::SCALE as int, crate::SCALE as int);
        }
        let fq = q.flat_mul(self.fuzz);
        let direction = reflected.add(&fq);
        let d = direction.dot(&hit.normal);
        if d > 0 {
            Some(Ray { origin: hit.p, direction, time: ray.time })
        } else {
            None
        }
    }
}

impl Dielectric {
    /// Schlick's reflectance at a given cosine.
    pub fn schlick(&self, cos: i64) -> (r: i64)
        requires
            material_ok(Material::Dielectric(*self)),
            -0x80_0000 <= cos <= 0x80_0000,
        ensures
            r == schlick_spec(cos as int, self.reflective_index as int),
    {
        proof {
            let s = crate::SCALE as int;
            assert(s == 65536);
            let idx = self.reflective_index as int;
            crate::fx::lemma_fx_div_bound(s - idx, s + idx, 1048576, 65536, 1048576);
            let r0 = fx_div(s - idx, s + idx);
            crate::fx::lemma_fx_mul_bound(r0, r0, 1048576, 1048576, 16777216);
            let r0s = fx_mul(r0, r0);
            let c1 = s - cos as int;
            crate::fx::lemma_fx_mul_bound(c1, c1, 8454144, 8454144, 1090584576);
            let p2 = fx_mul(c1, c1);
            crate::fx::lemma_fx_mul_bound(p2, p2, 1090584576, 1090584576, 18148417929216);
            let p4 = fx_mul(p2, p2);
            crate::fx::lemma_fx_mul_bound(p4, c1, 18148417929216, 8454144, 2341145912868864);
            let p5 = fx_mul(p4, c1);
            crate::fx::lemma_fx_mul_bound(s - r0s, p5, 16842752, 2341145912868864, 601674499607298048);
        }
        let r0 = div_fx(crate::SCALE - self.reflective_index, crate::SCALE + self.reflective_index);
        let r0s = mul_fx(r0, r0);
        let c1 = crate::SCALE - cos;
        let p2 = mul_fx(c1, c1);
        let p5 = mul_fx(mul_fx(p2, p2), c1);
        r0s + mul_fx(crate::SCALE - r0s, p5)
    }

    /// The dielectric scattering direction, given the stochastic sample
    /// deciding between reflection and refraction; never absorbs.
    pub fn scatter_with(&self, sample: i64, ray: &Ray, hit: &HitRecord) -> (s: Ray)
        requires
            material_ok(Material::Dielectric(*self)),
            ray_ok(*ray),
            rec_ok(*hit),
            0 <= sample <= crate::SCALE as int,
        ensures
            s.origin == hit.p,
            s.time == ray.time,
            s.direction == diel_dir_spec(
                sample as int,
                ray.direction,
                hit.normal,
                self.reflective_index as int,
            ),
            ray_ok(s),
    {
        let s_fx = crate::SCALE;
        let idx = self.reflective_index;
        let d = ray.direction.dot(&hit.normal);
        let len = ray.direction.length();
        proof {
            lemma_dot_bound(ray.direction, hit.normal, 0x4000_0000, 131072);
            if len > 0 {
                lemma_fx_div_small(d as int, len as int);
            }
        }
        let pc = if len > 0 {
            clamp64(div_fx(d, len), 4 * crate::SCALE)
        } else {
            0
        };
        proof {
            crate::fx::lemma_fx_mul_bound(pc as int, idx as int, 262144, 1048576, 4194304);
            crate::fx::lemma_fx_div_bound(crate::SCALE as int, idx as int, 65536, 16384, 262144);
        }
        let out_n = if d > 0 {
            Vec3 { x: -hit.normal.x, y: -hit.normal.y, z: -hit.normal.z }
        } else {
            hit.normal
        };
        let ni = if d > 0 {
            idx
        } else {
            div_fx(s_fx, idx)
        };
        let cos = if d > 0 {
            mul_fx(pc, idx)
        } else {
            -pc
        };
        let uv = ray.direction.unit_vector();
        let dt = uv.dot(&out_n);
        proof {
            lemma_dot_bound(uv, out_n, 65536, 131072);
            crate::fx::lemma_fx_mul_bound(dt as int, dt as int, 400000, 400000, 2441407);
            crate::fx::lemma_fx_mul_bound(ni as int, ni as int, 1048576, 1048576, 16777216);
        }
        let dt2 = mul_fx(dt, dt);
        let ni2 = mul_fx(ni, ni);
        proof {
            crate::fx::lemma_fx_mul_bound(
                ni2 as int,
                crate::SCALE as int - dt2 as int,
                16777216,
                2600000,
                665600000,
            );
        }
        let discrim = s_fx - mul_fx(ni2, s_fx - dt2);
        let refl = reflect(&uv, &hit.normal);
        if discrim <= 0 {
            Ray { origin: hit.p, direction: refl, time: ray.time }
        } else {
            let rp = self.schlick(cos);
            if sample < rp {
                Ray { origin: hit.p, direction: refl, time: ray.time }
            } else {
                let sq = sqrt_fx(discrim);
                proof {
                    assert(sq <= 6700000) by (nonlinear_arith)
                        requires
                            (sq as int) * (sq as int) <= (discrim as int) * 65536,
                            0 < discrim <= 666000000,
                            sq >= 0,
                    ;
                    crate::fx::lemma_fx_mul_bound(out_n.x as int, dt as int, 131072, 400000, 800000);
                    crate::fx::lemma_fx_mul_bound(out_n.y as int, dt as int, 131072, 400000, 800000);
                    crate::fx::lemma_fx_mul_bound(out_n.z as int, dt as int, 131072, 400000, 800000);
                }
                let mx = uv.x - mul_fx(out_n.x, dt);
                let my = uv.y - mul_fx(out_n.y, dt);
                let mz = uv.z - mul_fx(out_n.z, dt);
                proof {
                    crate::fx::lemma_fx_mul_bound(mx as int, ni as int, 900000, 1048576, 14400000);
                    crate::fx::lemma_fx_mul_bound(my as int, ni as int, 900000, 1048576, 14400000);
                    crate::fx::lemma_fx_mul_bound(mz as int, ni as int, 900000, 1048576, 14400000);
                    crate::fx::lemma_fx_mul_bound(out_n.x as int, sq as int, 131072, 6700000, 13400000);
                    crate::fx::lemma_fx_mul_bound(out_n.y as int, sq as int, 131072, 6700000, 13400000);
                    crate::fx::lemma_fx_mul_bound(out_n.z as int, sq as int, 131072, 6700000, 13400000);
                }
                let rx = mul_fx(mx, ni) - mul_fx(out_n.x, sq);
                let ry = mul_fx(my, ni) - mul_fx(out_n.y, sq);
                let rz = mul_fx(mz, ni) - mul_fx(out_n.z, sq);
                Ray { origin: hit.p, direction: Vec3 { x: rx, y: ry, z: rz }, time: ray.time }
            }
        }
    }

    /// Stochastic scatter: draws the reflect-or-refract sample.
    pub fn scatter(&self, rng: &mut XorShift, ray: &Ray, hit: &HitRecord) -> (res: Option<Ray>)
        requires
            material_ok(Material::Dielectric(*self)),
            ray_ok(*ray),
            rec_ok(*hit),
        ensures
            res is Some,
            ray_ok(res->Some_0),
            res->Some_0.origin == hit.p,
            res->Some_0.time == ray.time,
            *final(rng) == next_spec(*old(rng)),
            res->Some_0.direction == diel_dir_spec(
                unit_draw(*old(rng)),
                ray.direction,
                hit.normal,
                self.reflective_index as int,
            ),
            (res, *final(rng)) == dielectric_scatter_spec(*self, *old(rng), *ray, *hit),
    {
        let sample = rng.next_unit();
        Some(self.scatter_with(sample, ray, hit))
    }
}

/// The stochastic dielectric choice is exactly one of reflection and
/// refraction: total internal reflection and a Schlick sample below the
/// reflectance both reflect, and every other outcome refracts.
pub proof fn lemma_dielectric_reflect_or_refract(sample: int, dir: Vec3, normal: Vec3, idx: int)
    ensures
        ({
            let s = crate::SCALE as int;
            let d = dot_spec(dir, normal);
            let out_n = if d > 0 {
                Vec3 { x: (-normal.x) as i64, y: (-normal.y) as i64, z: (-normal.z) as i64 }
            } else {
                normal
            };
            let ni = if d > 0 {
                idx
            } else {
                fx_div(s, idx)
            };
            let cos = if d > 0 {
                fx_mul(part_cos_spec(dir, normal), idx)
            } else {
                -part_cos_spec(dir, normal)
            };
            let uv = unit_spec(dir);
            let discrim = snell_discrim_spec(uv, out_n, ni);
            let chosen = diel_dir_spec(sample, dir, normal, idx);
            &&& (chosen == reflect_spec(uv, normal) || chosen == refract_vec_spec(uv, out_n, ni, discrim))
            &&& (discrim <= 0 ==> chosen == reflect_spec(uv, normal))
            &&& (discrim > 0 && sample < schlick_spec(cos, idx) ==> chosen == reflect_spec(uv, normal))
            &&& (discrim > 0 && sample >= schlick_spec(cos, idx) ==> chosen == refract_vec_spec(uv, out_n, ni, discrim))
        }),
{
}

/// The color a material emits: nothing unless it is a light.
pub open spec fn emitted_spec(m: Material) -> Color {
    match m {
        Material::DiffuseLight(dl) => dl.brightness,
        _ => Color { r: 0, g: 0, b: 0 },
    }
}

/// The attenuation a material applies to scattered light.
pub open spec fn albedo_spec(m: Material, p: Vec3, u: int, v: int) -> Color {
    match m {
        Material::Lambertian(l) => texture_value_spec(l.texture, p, u, v),
        Material::Metal(mt) => mt.albedo,
        Material::Dielectric(_) => Color {
            r: crate::SCALE,
            g: crate::SCALE,
            b: crate::SCALE,
        },
        Material::DiffuseLight(_) => Color { r: 0, g: 0, b: 0 },
    }
}

impl Material {
    /// The emitted radiance.
    pub fn emitted(&self) -> (c: Color)
        requires
            material_ok(*self),
        ensures
            c == emitted_spec(*self),
            color_ok(c),
    {
        match self {
            Material::DiffuseLight(dl) => dl.brightness,
            _ => Color { r: 0, g: 0, b: 0 },
        }
    }

    /// The attenuation applied to scattered light.
    pub fn get_albedo(&self, p: &Vec3, u: i64, v: i64) -> (c: Color)
        requires
            material_ok(*self),
            vec_within(*p, COORD_FX_MAX as int),
            0 <= u <= crate::SCALE as int,
            0 <= v <= crate::SCALE as int,
        ensures
            c == albedo_spec(*self, *p, u as int, v as int),
            color_ok(c),
    {
        match self {
            Material::Lambertian(l) => l.texture.value(p, u, v),
            Material::Metal(mt) => mt.albedo,
            Material::Dielectric(_) => Color {
                r: crate::SCALE,
                g: crate::SCALE,
                b: crate::SCALE,
            },
            Material::DiffuseLight(_) => Color { r: 0, g: 0, b: 0 },
        }
    }

    /// Scatter an incoming ray at a hit: absence means absorption. A light
    /// never scatters; a diffuse surface always does; a dielectric always
    /// does, with the stochastic sample pinned to the generator's next draw.
    pub fn scatter(&self, rng: &mut XorShift, ray: &Ray, hit: &HitRecord) -> (res: Option<Ray>)
        requires
            material_ok(*self),
            ray_ok(*ray),
            rec_ok(*hit),
        ensures
            (res, *final(rng)) == scatter_spec(*self, *old(rng), *ray, *hit),
            res is Some ==> ray_ok(res->Some_0) && res->Some_0.origin == hit.p
                && res->Some_0.time == ray.time,
            self is DiffuseLight ==> res is None,
            self is Lambertian ==> res is Some,
            self is Dielectric ==> res is Some,
            self matches Material::Metal(mt) ==> (res is Some ==> dot_spec(
                res->Some_0.direction,
                hit.normal,
            ) > 0),
    {
        match self {
            Material::Lambertian(l) => l.scatter(rng, ray, hit),
            Material::Metal(mt) => mt.scatter(rng, ray, hit),
            Material::Dielectric(d) => d.scatter(rng, ray, hit),
            Material::DiffuseLight(_) => None,
        }
    }
}

} // verus!
