//! Textures, materials, the camera, and the integrator end to end.

use raytrace::vec3::{Vec3, Color};
use raytrace::ray::Ray;
use raytrace::sphere::{Sphere, Hittable, HitRecord};
use raytrace::bvh::{BvhLeaf, get_bvh_box};
use raytrace::texture::{Texture, ConstantTexture, CheckeredTexture, ImageTexture, build_noise, build_static_perm};
use raytrace::material::{Material, Lambertian, Metal, Dielectric, DiffuseLight};
use raytrace::camera::get_camera;
use raytrace::integrator::{Scene, color, calc_pixel, MAX_DEPTH};
use raytrace::rng::XorShift;
use raytrace::SCALE;

fn fx(v: f64) -> i64 {
    (v * SCALE as f64) as i64
}

fn vec(x: f64, y: f64, z: f64) -> Vec3 {
    Vec3 { x: fx(x), y: fx(y), z: fx(z) }
}

fn col(r: f64, g: f64, b: f64) -> Color {
    Color { r: fx(r), g: fx(g), b: fx(b) }
}

fn gray_metal_scene() -> Scene {
    let mut rng = XorShift::from_seed(7, 8, 9, 10);
    let ground = Hittable::Sphere(Sphere {
        center: vec(0.0, -100.5, -1.0),
        radius: fx(100.0),
        material: 0,
    });
    let mirror = Hittable::Sphere(Sphere {
        center: vec(0.0, 0.0, -1.0),
        radius: fx(0.5),
        material: 1,
    });
    let leaves = vec![
        BvhLeaf { boxx: ground.bounding_box(), has_a: ground },
        BvhLeaf { boxx: mirror.bounding_box(), has_a: mirror },
    ];
    let root = get_bvh_box(leaves, &mut rng);
    let materials = vec![
        Material::Lambertian(Lambertian {
            texture: Texture::T(ConstantTexture { color: col(0.5, 0.5, 0.5) }),
        }),
        Material::Metal(Metal { albedo: col(0.9, 0.9, 0.9), fuzz: 0 }),
    ];
    Scene { root, materials }
}

#[test]
fn test_noise() {
    let mut rng = XorShift::from_seed(255, 256, 100, 10);
    let n = build_noise(&mut rng);
    for i in 0..100i64 {
        let p = Vec3 { x: fx(0.5), y: fx(10.5) - i * SCALE / 300, z: fx(0.5) };
        let a = n.noise(&p);
        assert!(-SCALE <= a && a <= SCALE);
        let c = n.value(&p);
        assert!(0 <= c.r && c.r <= SCALE);
        assert_eq!(c.r, c.g);
        assert_eq!(c.r, c.b);
    }
}

#[test]
fn test_perm_is_permutation() {
    let mut rng = XorShift::from_seed(1, 2, 3, 4);
    let perm = build_static_perm(&mut rng);
    assert_eq!(perm.len(), 256);
    let mut seen = [false; 256];
    for &b in perm.iter() {
        assert!(!seen[b as usize], "byte value repeated");
        seen[b as usize] = true;
    }
}

#[test]
fn test_checker_alternates() {
    let t = CheckeredTexture { color1: col(1.0, 0.0, 0.0), color2: col(0.0, 1.0, 0.0) };
    // sin(10 * 0.2)^3 > 0 picks the second color; shifting x by about pi/10
    // flips the sign of the first sine factor
    let a = t.value(&vec(0.2, 0.2, 0.2));
    let b = t.value(&vec(0.2 + 0.3141593, 0.2, 0.2));
    assert_ne!(a, b);
}

#[test]
fn test_image_texture_lookup() {
    let pix = vec![
        col(1.0, 0.0, 0.0),
        col(0.0, 1.0, 0.0),
        col(0.0, 0.0, 1.0),
        col(1.0, 1.0, 1.0),
    ];
    let t = ImageTexture { width: 2, height: 2, pixels: pix };
    // v = 1 samples the top row, u = 0 the left column
    assert_eq!(t.value(0, SCALE), col(1.0, 0.0, 0.0));
    assert_eq!(t.value(SCALE, SCALE), col(0.0, 1.0, 0.0));
    assert_eq!(t.value(0, 0), col(0.0, 0.0, 1.0));
    assert_eq!(t.value(SCALE, 0), col(1.0, 1.0, 1.0));
}

fn glass_hit() -> (Ray, HitRecord) {
    // a ray striking a glass surface at about forty-five degrees
    let r = Ray { origin: vec(-1.0, 0.0, 1.0), direction: Vec3 { x: 46341, y: 0, z: -46341 }, time: 0 };
    let hit = HitRecord {
        t: fx(1.0),
        p: vec(0.0, 0.0, 0.0),
        normal: vec(0.0, 0.0, 1.0),
        u: 0,
        v: 0,
        material_hit: 0,
    };
    (r, hit)
}

#[test]
fn test_dielectric_always_scatters() {
    let d = Dielectric { reflective_index: fx(1.5) };
    let (r, hit) = glass_hit();
    let mut rng = XorShift::from_seed(5, 6, 7, 8);
    for _ in 0..100 {
        let s = d.scatter(&mut rng, &r, &hit).expect("a dielectric never absorbs");
        assert_eq!(s.origin, hit.p);
        assert_eq!(s.time, r.time);
    }
}

#[test]
fn test_dielectric_reflect_or_refract_frequency() {
    let d = Dielectric { reflective_index: fx(1.5) };
    let (r, hit) = glass_hit();
    // the sample pins the choice: zero always reflects, one always refracts
    let reflected = d.scatter_with(0, &r, &hit).direction;
    let refracted = d.scatter_with(SCALE, &r, &hit).direction;
    assert!(reflected.z > 0, "reflection must leave the surface");
    assert!(refracted.z < 0, "refraction must pass through the surface");
    // the empirical reflection rate converges to the Schlick value
    let cos = 46341 * SCALE / d_len(&r.direction);
    let rp = d.schlick(cos) as f64 / SCALE as f64;
    let mut rng = XorShift::from_seed(42, 43, 44, 45);
    let trials = 20000;
    let mut reflections = 0;
    for _ in 0..trials {
        let s = d.scatter(&mut rng, &r, &hit).unwrap();
        assert!(s.direction == reflected || s.direction == refracted);
        if s.direction == reflected {
            reflections += 1;
        }
    }
    let freq = reflections as f64 / trials as f64;
    assert!((freq - rp).abs() < 0.02, "frequency {} against Schlick {}", freq, rp);
}

fn d_len(v: &Vec3) -> i64 {
    v.length()
}

#[test]
fn test_metal_absorbs_into_surface() {
    let m = Metal { albedo: col(0.8, 0.8, 0.8), fuzz: 0 };
    let mut rng = XorShift::from_seed(1, 1, 2, 3);
    let hit = HitRecord {
        t: fx(1.0),
        p: vec(0.0, 0.0, 0.0),
        normal: vec(0.0, 0.0, 1.0),
        u: 0,
        v: 0,
        material_hit: 0,
    };
    // head-on: the reflection leaves the surface
    let r1 = Ray { origin: vec(0.0, 0.0, 1.0), direction: vec(0.0, 0.0, -1.0), time: 0 };
    let s = m.scatter(&mut rng, &r1, &hit).expect("head-on reflection scatters");
    assert!(s.direction.z > 0);
}

#[test]
fn test_lambertian_always_scatters() {
    let l = Lambertian { texture: Texture::T(ConstantTexture { color: col(0.5, 0.4, 0.3) }) };
    let mut rng = XorShift::from_seed(9, 9, 9, 9);
    let hit = HitRecord {
        t: fx(1.0),
        p: vec(0.0, 1.0, 0.0),
        normal: vec(0.0, 1.0, 0.0),
        u: 0,
        v: 0,
        material_hit: 0,
    };
    let r = Ray { origin: vec(0.0, 2.0, 0.0), direction: vec(0.0, -1.0, 0.0), time: 5 };
    for _ in 0..50 {
        let s = l.scatter(&mut rng, &r, &hit).expect("diffuse surfaces always scatter");
        assert_eq!(s.origin, hit.p);
        assert_eq!(s.time, 5);
    }
}

#[test]
fn test_light_never_scatters() {
    let m = Material::DiffuseLight(DiffuseLight { brightness: col(1.0, 1.0, 1.0) });
    let mut rng = XorShift::from_seed(4, 4, 4, 4);
    let hit = HitRecord {
        t: fx(1.0),
        p: vec(0.0, 0.0, 0.0),
        normal: vec(0.0, 0.0, 1.0),
        u: 0,
        v: 0,
        material_hit: 0,
    };
    let r = Ray { origin: vec(0.0, 0.0, 1.0), direction: vec(0.0, 0.0, -1.0), time: 0 };
    assert!(m.scatter(&mut rng, &r, &hit).is_none());
    assert_eq!(m.emitted(), col(1.0, 1.0, 1.0));
}

#[test]
fn test_depth_termination() {
    let scene = gray_metal_scene();
    let mut rng = XorShift::from_seed(2, 4, 6, 8);
    let r = Ray { origin: vec(0.0, 0.5, 1.0), direction: vec(0.0, 0.0, -1.0), time: 0 };
    let black = Color { r: 0, g: 0, b: 0 };
    assert_eq!(color(&mut rng, &r, &scene, MAX_DEPTH), black);
    assert_eq!(color(&mut rng, &r, &scene, MAX_DEPTH + 1), black);
}

#[test]
fn test_background_gradient() {
    let scene = gray_metal_scene();
    let mut rng = XorShift::from_seed(3, 5, 7, 9);
    // straight up: the deep sky color
    let up = Ray { origin: vec(0.0, 5.0, 0.0), direction: vec(0.0, 1.0, 0.0), time: 0 };
    let c = color(&mut rng, &up, &scene, 0);
    assert!(c.b > c.r, "the sky is blue overhead");
    assert!(0 <= c.r && c.r <= SCALE);
    assert!(0 <= c.g && c.g <= SCALE);
    assert!(0 <= c.b && c.b <= SCALE);
}

#[test]
fn test_render_deterministic() {
    let scene1 = gray_metal_scene();
    let scene2 = gray_metal_scene();
    let cam = get_camera(
        vec(0.0, 1.0, 2.0),
        vec(0.0, 0.0, -1.0),
        vec(0.0, 1.0, 0.0),
        fx(60.0),
        fx(2.0),
        fx(0.01),
        0,
        fx(1.0),
    )
    .expect("a modest field of view yields a camera");
    let nx = 20u32;
    let ny = 10u32;
    let ns = 4u32;
    let mut first: Vec<Color> = Vec::new();
    let mut second: Vec<Color> = Vec::new();
    for (buf, scene) in [(&mut first, &scene1), (&mut second, &scene2)] {
        let mut rng = XorShift::from_seed(101, 202, 303, 404);
        for j in (0..ny).rev() {
            for i in 0..nx {
                let c = calc_pixel(&mut rng, &cam, scene, i, j, nx, ny, ns);
                assert!(0 <= c.r && c.r <= SCALE, "channel out of range before gamma");
                assert!(0 <= c.g && c.g <= SCALE);
                assert!(0 <= c.b && c.b <= SCALE);
                buf.push(c);
            }
        }
    }
    assert_eq!(first, second, "the same seed must reproduce the same image");
}

#[test]
fn test_emitted_light_reaches_the_eye() {
    let mut rng = XorShift::from_seed(12, 34, 56, 78);
    let lamp = Hittable::Sphere(Sphere { center: vec(0.0, 3.0, -1.0), radius: fx(1.0), material: 0 });
    let leaves = vec![BvhLeaf { boxx: lamp.bounding_box(), has_a: lamp }];
    let root = get_bvh_box(leaves, &mut rng);
    let materials = vec![Material::DiffuseLight(DiffuseLight { brightness: col(1.0, 1.0, 1.0) })];
    let scene = Scene { root, materials };
    let r = Ray { origin: vec(0.0, 3.0, 2.0), direction: vec(0.0, 0.0, -1.0), time: 0 };
    assert_eq!(color(&mut rng, &r, &scene, 0), col(1.0, 1.0, 1.0));
}

#[test]
fn test_camera_construction_and_rays() {
    let cam = get_camera(
        vec(13.0, 2.0, 1.0),
        vec(0.0, 0.5, 0.0),
        vec(0.0, 1.0, 0.0),
        fx(10.0),
        fx(2.0),
        fx(0.00001),
        0,
        fx(1.0),
    )
    .expect("a narrow field of view yields a camera");
    assert_eq!(cam.origin, vec(13.0, 2.0, 1.0));
    assert_eq!(cam.time0, 0);
    assert_eq!(cam.time1, fx(1.0));
    let mut rng = XorShift::from_seed(21, 22, 23, 24);
    for _ in 0..20 {
        let r = cam.get_ray(&mut rng, SCALE / 2, SCALE / 2);
        // the aperture quantizes to a zero lens radius, so the eye is exact
        assert_eq!(r.origin, vec(13.0, 2.0, 1.0));
        assert!(0 <= r.time && r.time <= fx(1.0));
        // the central ray heads from the eye toward the focus point
        assert!(r.direction.x < 0);
    }
    // a nearly flat field of view pushes the image plane out of range
    let bad = get_camera(
        vec(0.0, 0.0, 0.0),
        vec(0.0, 0.0, -1.0),
        vec(0.0, 1.0, 0.0),
        fx(170.0),
        fx(2.0),
        0,
        0,
        0,
    );
    assert!(bad.is_none());
}

#[test]
fn test_metal_fuzzy_scatter_repeatable() {
    // a roughened metal draws a ball sample, yet stays a function of the seed
    let m = Metal { albedo: col(0.8, 0.8, 0.8), fuzz: fx(0.3) };
    let hit = HitRecord {
        t: fx(1.0),
        p: vec(0.0, 0.0, 0.0),
        normal: vec(0.0, 0.0, 1.0),
        u: 0,
        v: 0,
        material_hit: 0,
    };
    let r = Ray { origin: vec(0.3, 0.1, 1.0), direction: vec(-0.3, -0.1, -1.0), time: 0 };
    let mut rng1 = XorShift::from_seed(77, 78, 79, 80);
    let mut rng2 = XorShift::from_seed(77, 78, 79, 80);
    for _ in 0..30 {
        let a = m.scatter(&mut rng1, &r, &hit);
        let b = m.scatter(&mut rng2, &r, &hit);
        assert_eq!(a, b, "equal seeds must give equal fuzzy reflections");
        if let Some(s) = a {
            // a kept reflection leaves the surface
            assert!(s.direction.z > 0);
            assert_eq!(s.origin, hit.p);
        }
    }
}
