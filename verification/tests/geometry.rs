//! Bounding boxes, sphere intersection, and the tree against the flat scan.

use raytrace::vec3::Vec3;
use raytrace::ray::{Ray, T_FX_MAX};
use raytrace::aabb::BoundingBox;
use raytrace::sphere::{Sphere, MovingSphere, Rectangle, RectAxis, Hittable, HittableObjects, HIT_EPS_FX};
use raytrace::bvh::{BvhLeaf, get_bvh_box};
use raytrace::rng::XorShift;
use raytrace::SCALE;

fn fx(v: f64) -> i64 {
    (v * SCALE as f64) as i64
}

fn vec(x: f64, y: f64, z: f64) -> Vec3 {
    Vec3 { x: fx(x), y: fx(y), z: fx(z) }
}

fn ray(o: Vec3, d: Vec3) -> Ray {
    Ray { origin: o, direction: d, time: 0 }
}

#[test]
fn test_bound_box() {
    let a = vec(1.0, 1.0, 1.0);
    let b = vec(1.1, -1.0, -1.0);
    let bb = BoundingBox { point1: a, point2: b };
    // fire ray right (hit)
    let r_hit = ray(vec(0.0, 0.0, 0.0), vec(1.0, 0.000001, 0.000001));
    // fire ray up
    let r_miss_y = ray(vec(0.0, 0.0, 0.0), vec(0.0, 1.1, 0.000001));
    // fire ray forwards
    let r_miss_z = ray(vec(0.0, 0.0, 0.0), vec(0.0, 0.0, 1.0));
    // fire ray right but over the box
    let r_miss_x = ray(vec(0.0, 2.0, 0.0), vec(1.0, 0.0, 1.0));
    // fire angled ray
    let r_hit_funny = ray(vec(0.0, 2.0, 2.0), vec(1.0, -2.0, -1.5));
    assert!(bb.hit(&r_hit).is_some());
    assert!(bb.hit(&r_miss_y).is_none());
    assert!(bb.hit(&r_miss_z).is_none());
    assert!(bb.hit(&r_miss_x).is_none());
    assert!(bb.hit(&r_hit_funny).is_some());
}

#[test]
fn test_sphere_hit_round_trip() {
    let s = Sphere { center: vec(0.0, 0.0, -1.0), radius: fx(0.5), material: 0 };
    let r = ray(vec(0.0, 0.0, 0.0), vec(0.0, 0.0, -1.0));
    let hit = s.hit(&r, HIT_EPS_FX, T_FX_MAX).expect("ray along -z must strike the sphere");
    assert_eq!(hit.t, fx(0.5));
    assert_eq!(hit.normal, vec(0.0, 0.0, 1.0));
    assert_eq!(hit.p, vec(0.0, 0.0, -0.5));
}

#[test]
fn test_sphere_miss_behind() {
    let s = Sphere { center: vec(0.0, 0.0, -1.0), radius: fx(0.5), material: 0 };
    // the sphere lies behind this ray
    let r = ray(vec(0.0, 0.0, 0.0), vec(0.0, 0.0, 1.0));
    assert!(s.hit(&r, HIT_EPS_FX, T_FX_MAX).is_none());
}

#[test]
fn test_moving_sphere_center() {
    let s = MovingSphere {
        center0: vec(0.0, 0.0, 0.0),
        center1: vec(1.0, 0.0, 0.0),
        radius: fx(0.5),
        material: 0,
        time0: 0,
        time1: fx(1.0),
    };
    assert_eq!(s.center(0), vec(0.0, 0.0, 0.0));
    assert_eq!(s.center(fx(1.0)), vec(1.0, 0.0, 0.0));
    assert_eq!(s.center(fx(0.5)), vec(0.5, 0.0, 0.0));
}

#[test]
fn test_bounding_box_idempotent() {
    let s = Hittable::Sphere(Sphere { center: vec(1.0, 2.0, 3.0), radius: fx(0.5), material: 0 });
    let b1 = s.bounding_box();
    let b2 = s.bounding_box();
    assert_eq!(b1, b2);
    assert_eq!(b1.point1, vec(0.5, 1.5, 2.5));
    assert_eq!(b1.point2, vec(1.5, 2.5, 3.5));
    let m = Hittable::MovingSphere(MovingSphere {
        center0: vec(0.0, 0.0, 0.0),
        center1: vec(0.0, 1.0, 0.0),
        radius: fx(0.25),
        material: 0,
        time0: 0,
        time1: fx(1.0),
    });
    assert_eq!(m.bounding_box(), m.bounding_box());
    assert_eq!(m.bounding_box().point2, vec(0.25, 1.25, 0.25));
    // repeated hits of the same ray yield identical records
    let r = ray(vec(1.0, 2.0, 0.0), vec(0.0, 0.0, 1.0));
    let inner = Sphere { center: vec(1.0, 2.0, 3.0), radius: fx(0.5), material: 0 };
    assert_eq!(inner.hit(&r, HIT_EPS_FX, T_FX_MAX), inner.hit(&r, HIT_EPS_FX, T_FX_MAX));
}

#[test]
fn test_bvh_matches_flat() {
    // a grid of small spheres: disjoint by construction
    let mut rng = XorShift::from_seed(11, 22, 33, 44);
    let mut objects: Vec<Hittable> = Vec::new();
    for gx in 0..5i64 {
        for gz in 0..5i64 {
            let r = 16384 + ((rng.next_unit() / 4) & 0x3fff);
            let cy = rng.next_unit();
            let c = Vec3 { x: gx * 2 * SCALE, y: cy, z: gz * 2 * SCALE };
            objects.push(Hittable::Sphere(Sphere {
                center: c,
                radius: r,
                material: (gx * 5 + gz) as usize,
            }));
        }
    }
    let mut leaves: Vec<BvhLeaf> = Vec::new();
    for o in objects.iter() {
        leaves.push(BvhLeaf { boxx: o.bounding_box(), has_a: *o });
    }
    let flat = HittableObjects { objects: objects.clone() };
    let tree = get_bvh_box(leaves, &mut rng);
    for _trial in 0..400 {
        let o = Vec3 {
            x: rng.next_signed_unit() * 8,
            y: rng.next_signed_unit() * 4,
            z: rng.next_signed_unit() * 8,
        };
        let d = Vec3 {
            x: rng.next_signed_unit(),
            y: rng.next_signed_unit() / 4,
            z: rng.next_signed_unit(),
        };
        let r = ray(o, d);
        let from_tree = tree.dig(&r, T_FX_MAX);
        let from_flat = flat.hit_all(&r);
        match (from_tree, from_flat) {
            (None, None) => {},
            (Some(a), Some(b)) => {
                assert_eq!(a.t, b.t, "tree and flat scan disagree on the closest parameter");
                assert_eq!(a.material_hit, b.material_hit);
            },
            (a, b) => panic!("tree {:?} but flat {:?}", a.map(|h| h.t), b.map(|h| h.t)),
        }
    }
}

#[test]
fn test_hit_all_picks_closest() {
    let near = Sphere { center: vec(0.0, 0.0, -1.0), radius: fx(0.25), material: 0 };
    let far = Sphere { center: vec(0.0, 0.0, -3.0), radius: fx(0.25), material: 1 };
    let world = HittableObjects {
        objects: vec![Hittable::Sphere(far), Hittable::Sphere(near)],
    };
    let r = ray(vec(0.0, 0.0, 0.0), vec(0.0, 0.0, -1.0));
    let hit = world.hit_all(&r).expect("both spheres lie on the ray");
    assert_eq!(hit.material_hit, 0);
    assert_eq!(hit.t, fx(0.75));
}

#[test]
fn test_rectangle_hit() {
    let rect = Rectangle {
        a0: fx(-1.0),
        a1: fx(1.0),
        b0: fx(-1.0),
        b1: fx(1.0),
        k: fx(-2.0),
        axis: RectAxis::XY,
        flip: false,
        material: 3,
    };
    let r = ray(vec(0.0, 0.0, 0.0), vec(0.0, 0.0, -1.0));
    let hit = rect.hit(&r, HIT_EPS_FX, T_FX_MAX).expect("ray along -z crosses the plane");
    assert_eq!(hit.t, fx(2.0));
    assert_eq!(hit.normal, vec(0.0, 0.0, 1.0));
    assert_eq!(hit.u, fx(0.5));
    assert_eq!(hit.v, fx(0.5));
    assert_eq!(hit.material_hit, 3);
    // beyond the bounds the plane crossing does not count
    let wide = ray(vec(3.0, 0.0, 0.0), vec(0.0, 0.0, -1.0));
    assert!(rect.hit(&wide, HIT_EPS_FX, T_FX_MAX).is_none());
    // parallel to the plane there is no crossing
    let par = ray(vec(0.0, 0.0, 0.0), vec(1.0, 0.0, 0.0));
    assert!(rect.hit(&par, HIT_EPS_FX, T_FX_MAX).is_none());
}
