//! Vector arithmetic, ported to the fixed-point representation: one unit is
//! `SCALE` steps.

use raytrace::vec3::{Vec3, Color};
use raytrace::SCALE;

fn fx(v: f64) -> i64 {
    (v * SCALE as f64) as i64
}

fn vec(x: f64, y: f64, z: f64) -> Vec3 {
    Vec3 { x: fx(x), y: fx(y), z: fx(z) }
}

fn assert_close(a: i64, b: i64) {
    // the original compared with a tolerance of 1e-4 units
    assert!((a - b).abs() <= 7, "{} vs {}", a, b);
}

#[test]
fn test_add() {
    let a = vec(2.0, 3.0, 4.0);
    let b = vec(0.0, 4.0, 14.0);
    let c = a.add(&b);
    assert_eq!(c, vec(2.0, 7.0, 18.0));
}

#[test]
fn test_sub() {
    let a = vec(2.0, 3.0, 4.0);
    let b = vec(0.0, 4.0, 14.0);
    let c = a.sub(&b);
    assert_eq!(c, vec(2.0, -1.0, -10.0));
}

#[test]
fn test_mul() {
    let a = vec(2.0, 3.0, 4.0);
    let b = vec(0.0, 4.0, 14.0);
    let c = a.mul(&b);
    assert_eq!(c, vec(0.0, 12.0, 56.0));
}

#[test]
fn test_div() {
    let a = vec(2.0, 3.0, 4.0);
    let b = vec(1.0, 0.5, 2.0);
    let c = a.div(&b);
    assert_eq!(c, vec(2.0, 6.0, 2.0));
}

#[test]
fn test_mul_f32() {
    let a = vec(2.0, 3.0, 4.0);
    let b = fx(2.0);
    let c = a.flat_mul(b);
    assert_eq!(c, vec(4.0, 6.0, 8.0));
}

#[test]
fn test_div_f32() {
    let a = vec(2.0, 3.0, 4.0);
    let b = fx(2.0);
    let c = a.flat_div(b);
    assert_eq!(c, vec(1.0, 1.5, 2.0));
}

#[test]
fn test_unit_vec() {
    let a = vec(2.0, 3.0, 4.0);
    let u = a.unit_vector();
    assert_close(u.x, fx(0.37139067));
    assert_close(u.y, fx(0.557086));
    assert_close(u.z, fx(0.74278134));
}

#[test]
fn test_cross() {
    let a = vec(2.0, 3.0, 4.0);
    let b = vec(5.0, 6.0, 7.0);
    let c = a.cross(&b);
    assert_eq!(c.x, fx(-3.0));
    assert_eq!(c.y, fx(6.0));
    assert_eq!(c.z, fx(-3.0));
}

#[test]
fn test_dot_and_lengths() {
    let a = vec(2.0, 3.0, 4.0);
    let b = vec(5.0, 6.0, 7.0);
    assert_eq!(a.dot(&b), fx(56.0));
    assert_eq!(a.squared_length(), fx(29.0));
    assert_close(a.length(), fx(5.3851648));
}

#[test]
fn test_flat_add_sub() {
    let a = vec(2.0, 3.0, 4.0);
    assert_eq!(a.flat_add(fx(1.0)), vec(3.0, 4.0, 5.0));
    assert_eq!(a.flat_sub(fx(1.0)), vec(1.0, 2.0, 3.0));
}

#[test]
fn test_as_pixel_gamma() {
    let white = Color { r: SCALE, g: SCALE, b: SCALE };
    assert_eq!(white.as_pixel(), (255, 255, 255));
    let black = Color { r: 0, g: 0, b: 0 };
    assert_eq!(black.as_pixel(), (0, 0, 0));
    // a quarter of full radiance has square root one half: 255.99 / 2 floors to 127
    let quarter = Color { r: SCALE / 4, g: SCALE / 4, b: SCALE / 4 };
    assert_eq!(quarter.as_pixel(), (127, 127, 127));
}
