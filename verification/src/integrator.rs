//! The recursive light-transport integrator: emission plus attenuated
//! recursive scatter, truncated at a fixed depth. Every function here is
//! pinned to a spec-level mirror over the generator state, so the traced
//! radiance is a mathematical function of scene, camera, pixel index and
//! random seed.

use vstd::prelude::*;
use crate::vec3::{Vec3, Color, vec_within, color_ok, unit_spec};
use crate::ray::{Ray, ray_ok, T_FX_MAX};
use crate::bvh::{BvhBox, bvh_wf, dig_spec};
use crate::material::{Material, material_ok, emitted_spec, albedo_spec, scatter_spec};
use crate::camera::{Camera, camera_ok, camera_ray_spec};
use crate::rng::{XorShift, next_spec, unit_draw};
use crate::fx::{fx_mul, div_floor, lemma_div_floor_abs, lemma_div_floor_lt};

verus! {

/// Recursion ceiling of the integrator.
pub const MAX_DEPTH: u32 = 50;

/// A renderable scene: the primitive tree and the material table the
/// primitives' material indices point into.
pub struct Scene {
    pub root: BvhBox,
    pub materials: Vec<Material>,
}

/// Structural validity of a scene.
pub open spec fn scene_ok(s: Scene) -> bool {
    &&& bvh_wf(s.root)
    &&& forall|i: int| 0 <= i < s.materials@.len() ==> material_ok(#[trigger] s.materials@[i])
}

/// The analytic sky: a vertical blend from white at the horizon toward blue
/// overhead, by the upward component of the unit direction.
pub open spec fn background_spec(dir: Vec3) -> Color {
    let uy = unit_spec(dir).y as int;
    let t = (uy + crate::SCALE as int) / 2;
    let init_c = crate::SCALE as int - t;
    Color {
        r: (init_c + fx_mul(t, 32768)) as i64,
        g: (init_c + fx_mul(t, 45875)) as i64,
        b: (init_c + t) as i64,
    }
}

/// The sky color for a direction.
pub fn background(dir: &Vec3) -> (c: Color)
    requires
        vec_within(*dir, crate::ray::COORD_FX_MAX as int),
    ensures
        c == background_spec(*dir),
        color_ok(c),
{
    let ud = dir.unit_vector();
    let t = (ud.y + crate::SCALE) / 2;
    let init_c = crate::SCALE - t;
    proof {
        assert(0 <= t <= crate::SCALE as int);
        crate::fx::lemma_fx_mul_bound(t as int, 32768, 65536, 32768, 32768);
        crate::fx::lemma_fx_mul_bound(t as int, 45875, 65536, 45875, 45875);
        assert((t as int) * 32768 >= 0 && (t as int) * 45875 >= 0) by (nonlinear_arith)
            requires
                t >= 0,
        ;
        vstd::arithmetic::div_mod::lemma_div_pos_is_pos((t as int) * 32768, crate::SCALE as int);
        vstd::arithmetic::div_mod::lemma_div_pos_is_pos((t as int) * 45875, crate::SCALE as int);
        assert((t as int) * 32768 <= (t as int) * 65536 && (t as int) * 45875 <= (t as int)
            * 65536) by (nonlinear_arith)
            requires
                t >= 0,
        ;
        lemma_div_floor_abs((t as int) * 32768, crate::SCALE as int, t as int);
        lemma_div_floor_abs((t as int) * 45875, crate::SCALE as int, t as int);
    }
    Color {
        r: init_c + crate::fx::mul_fx(t, 32768),
        g: init_c + crate::fx::mul_fx(t, 45875),
        b: init_c + t,
    }
}

/// The radiance along a ray as a function of the generator state: black at
/// the recursion ceiling; the sky on a miss; and at a hit, emission plus
/// the attenuated radiance of the scattered ray, or emission alone on
/// absorption. A hit naming a material outside the table yields black.
pub open spec fn color_spec(
    s: XorShift,
    r: Ray,
    root: BvhBox,
    mats: Seq<Material>,
    depth: int,
) -> (Color, XorShift)
    decreases MAX_DEPTH as int - depth,
{
    if depth >= MAX_DEPTH as int {
        (Color { r: 0, g: 0, b: 0 }, s)
    } else {
        match dig_spec(root, r, T_FX_MAX as int) {
            None => (background_spec(r.direction), s),
            Some(rec) => {
                if rec.material_hit as int >= mats.len() {
                    (Color { r: 0, g: 0, b: 0 }, s)
                } else {
                    let m = mats[rec.material_hit as int];
                    let e = emitted_spec(m);
                    let (sc, s1) = scatter_spec(m, s, r, rec);
                    match sc {
                        None => (e, s1),
                        Some(sr) => {
                            let a = albedo_spec(m, rec.p, rec.u as int, rec.v as int);
                            let (c2, s2) = color_spec(s1, sr, root, mats, depth + 1);
                            (
                                Color {
                                    r: (e.r + fx_mul(a.r as int, c2.r as int)) as i64,
                                    g: (e.g + fx_mul(a.g as int, c2.g as int)) as i64,
                                    b: (e.b + fx_mul(a.b as int, c2.b as int)) as i64,
                                },
                                s2,
                            )
                        },
                    }
                }
            },
        }
    }
}

/// The radiance along a ray: the result and the state the draws leave
/// behind are exactly [`color_spec`] of the incoming state, so the traced
/// radiance is deterministic in the seed. Channels always lie in the unit
/// range: a surface that emits never scatters, and every albedo is a
/// radiance fraction.
pub fn color(rng: &mut XorShift, r: &Ray, scene: &Scene, depth: u32) -> (c: Color)
    requires
        scene_ok(*scene),
        ray_ok(*r),
    ensures
        ({
            let (cc, ss) = color_spec(
                *old(rng),
                *r,
                scene.root,
                scene.materials@,
                depth as int,
            );
            c == cc && *final(rng) == ss
        }),
        depth >= MAX_DEPTH ==> c == (Color { r: 0i64, g: 0i64, b: 0i64 }),
        color_ok(c),
        depth < MAX_DEPTH && dig_spec(scene.root, *r, T_FX_MAX as int) is None ==> c
            == background_spec(r.direction),
    decreases MAX_DEPTH - depth,
{
    if depth >= MAX_DEPTH {
        return Color { r: 0, g: 0, b: 0 };
    }
    match scene.root.dig(r, T_FX_MAX) {
        Some(hit) => {
            if hit.material_hit < scene.materials.len() {
                let mat = &scene.materials[hit.material_hit];
                let emitted = mat.emitted();
                match mat.scatter(rng, r, &hit) {
                    Some(scattered) => {
                        proof {
                            // a material that scattered is no light, so it
                            // emits nothing
                            assert(!(scene.materials@[hit.material_hit as int] is DiffuseLight));
                            assert(emitted == (Color { r: 0i64, g: 0i64, b: 0i64 }));
                        }
                        let rec = color(rng, &scattered, scene, depth + 1);
                        let albedo = mat.get_albedo(&hit.p, hit.u, hit.v);
                        proof {
                            lemma_attenuate(albedo.r as int, rec.r as int);
                            lemma_attenuate(albedo.g as int, rec.g as int);
                            lemma_attenuate(albedo.b as int, rec.b as int);
                        }
                        let shaded = albedo.mul(&rec);
                        emitted.add(&shaded)
                    },
                    None => emitted,
                }
            } else {
                Color { r: 0, g: 0, b: 0 }
            }
        },
        None => background(&r.direction),
    }
}

/// Attenuating a unit-range channel by a radiance fraction keeps it in the
/// unit range and never brightens it.
proof fn lemma_attenuate(a: int, ch: int)
    requires
        0 <= a <= crate::SCALE as int,
        0 <= ch <= crate::SCALE as int,
    ensures
        0 <= fx_mul(a, ch) <= ch,
{
    let s = crate::SCALE as int;
    assert(0 <= a * ch <= ch * s) by (nonlinear_arith)
        requires
            0 <= a <= s,
            0 <= ch,
    ;
    vstd::arithmetic::div_mod::lemma_div_pos_is_pos(a * ch, s);
    lemma_div_floor_abs(a * ch, s, ch);
}

/// One pixel sample as a function of the generator state: two unit draws
/// jitter the pixel position, a camera ray is cast, and its radiance traced.
pub open spec fn pixel_sample_spec(
    s: XorShift,
    cam: Camera,
    root: BvhBox,
    mats: Seq<Material>,
    i: int,
    j: int,
    nx: int,
    ny: int,
) -> (Color, XorShift) {
    let du = unit_draw(s);
    let s1 = next_spec(s);
    let dv = unit_draw(s1);
    let s2 = next_spec(s1);
    let u = div_floor(i * (crate::SCALE as int) + du, nx);
    let v = div_floor(j * (crate::SCALE as int) + dv, ny);
    let (ray, s3) = camera_ray_spec(cam, u, v, s2);
    color_spec(s3, ray, root, mats, 0)
}

/// The sum of the first `k` pixel samples, and the state they leave behind.
pub open spec fn pixel_sum_spec(
    s: XorShift,
    cam: Camera,
    root: BvhBox,
    mats: Seq<Material>,
    i: int,
    j: int,
    nx: int,
    ny: int,
    k: int,
) -> (Color, XorShift)
    decreases k,
{
    if k <= 0 {
        (Color { r: 0, g: 0, b: 0 }, s)
    } else {
        let (acc, s1) = pixel_sum_spec(s, cam, root, mats, i, j, nx, ny, k - 1);
        let (smp, s2) = pixel_sample_spec(s1, cam, root, mats, i, j, nx, ny);
        (
            Color {
                r: (acc.r + smp.r) as i64,
                g: (acc.g + smp.g) as i64,
                b: (acc.b + smp.b) as i64,
            },
            s2,
        )
    }
}

/// The averaged pixel: the floor-average of `ns` traced samples.
pub open spec fn calc_pixel_spec(
    s: XorShift,
    cam: Camera,
    root: BvhBox,
    mats: Seq<Material>,
    i: int,
    j: int,
    nx: int,
    ny: int,
    ns: int,
) -> (Color, XorShift) {
    let (sum, s1) = pixel_sum_spec(s, cam, root, mats, i, j, nx, ny, ns);
    (
        Color {
            r: div_floor(sum.r as int, ns) as i64,
            g: div_floor(sum.g as int, ns) as i64,
            b: div_floor(sum.b as int, ns) as i64,
        },
        s1,
    )
}

/// The averaged color of one pixel: `ns` stratified camera rays, traced and
/// averaged. The result and the state left behind are exactly
/// [`calc_pixel_spec`] of the incoming state — the pixel is a function of
/// camera, scene, pixel index and seed — and its channels lie in the unit
/// range before gamma encoding.
pub fn calc_pixel(
    rng: &mut XorShift,
    cam: &Camera,
    scene: &Scene,
    i: u32,
    j: u32,
    nx: u32,
    ny: u32,
    ns: u32,
) -> (c: Color)
    requires
        camera_ok(*cam),
        scene_ok(*scene),
        i < nx <= 16384,
        j < ny <= 16384,
        1 <= ns <= 1024,
    ensures
        ({
            let (cc, ss) = calc_pixel_spec(
                *old(rng),
                *cam,
                scene.root,
                scene.materials@,
                i as int,
                j as int,
                nx as int,
                ny as int,
                ns as int,
            );
            c == cc && *final(rng) == ss
        }),
        color_ok(c),
{
    let ghost orig = *rng;
    let mut col = Color { r: 0, g: 0, b: 0 };
    let mut k: u32 = 0;
    while k < ns
        invariant
            k <= ns,
            ns <= 1024,
            orig == *old(rng),
            camera_ok(*cam),
            scene_ok(*scene),
            i < nx <= 16384,
            j < ny <= 16384,
            ({
                let (acc, sk) = pixel_sum_spec(
                    orig,
                    *cam,
                    scene.root,
                    scene.materials@,
                    i as int,
                    j as int,
                    nx as int,
                    ny as int,
                    k as int,
                );
                col == acc && *rng == sk
            }),
            0 <= col.r <= k * (crate::SCALE as int),
            0 <= col.g <= k * (crate::SCALE as int),
            0 <= col.b <= k * (crate::SCALE as int),
        decreases ns - k,
    {
        let ghost pre = *rng;
        let du = rng.next_unit();
        let dv = rng.next_unit();
        let u = pixel_frac(i, du, nx);
        let v = pixel_frac(j, dv, ny);
        let ray = cam.get_ray(rng, u, v);
        let sample = color(rng, &ray, scene, 0);
        proof {
            assert(pixel_sample_spec(
                pre,
                *cam,
                scene.root,
                scene.materials@,
                i as int,
                j as int,
                nx as int,
                ny as int,
            ) == (sample, *rng));
            assert(pixel_sum_spec(
                orig,
                *cam,
                scene.root,
                scene.materials@,
                i as int,
                j as int,
                nx as int,
                ny as int,
                k as int + 1,
            ) == (
                Color {
                    r: (col.r + sample.r) as i64,
                    g: (col.g + sample.g) as i64,
                    b: (col.b + sample.b) as i64,
                },
                *rng,
            ));
            assert((k + 1) * (crate::SCALE as int) == k * (crate::SCALE as int) + (
            crate::SCALE as int)) by (nonlinear_arith);
            assert(k * (crate::SCALE as int) <= 1024 * (crate::SCALE as int))
                by (nonlinear_arith)
                requires
                    k <= 1024,
            ;
        }
        col = Color { r: col.r + sample.r, g: col.g + sample.g, b: col.b + sample.b };
        k = k + 1;
    }
    let avg = col.scale_div(ns as i64);
    proof {
        assert(ns * (crate::SCALE as int) <= (crate::SCALE as int) * ns) by (nonlinear_arith);
        lemma_div_floor_abs(col.r as int, ns as int, crate::SCALE as int);
        lemma_div_floor_abs(col.g as int, ns as int, crate::SCALE as int);
        lemma_div_floor_abs(col.b as int, ns as int, crate::SCALE as int);
    }
    avg
}

/// The jittered image-plane fraction of pixel index `i` of `n`: a value in
/// the unit range.
fn pixel_frac(i: u32, jitter: i64, n: u32) -> (r: i64)
    requires
        i < n,
        n <= 16384,
        0 <= jitter < crate::SCALE as int,
    ensures
        r == div_floor((i as int) * (crate::SCALE as int) + jitter, n as int),
        0 <= r < crate::SCALE as int,
{
    let num: i128 = (i as i128) * 65536 + (jitter as i128);
    proof {
        assert(0 <= (i as int) * 65536 + jitter < (n as int) * 65536) by (nonlinear_arith)
            requires
                0 <= i < n,
                0 <= jitter < 65536,
        ;
        lemma_div_floor_lt((i as int) * 65536 + jitter as int, n as int, 65536);
    }
    crate::fx::div_floor_i128(num, n as i128) as i64
}

} // verus!
