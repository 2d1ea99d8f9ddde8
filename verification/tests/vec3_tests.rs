use mrender::fixed::SCALE;
use mrender::vec3::Vec3;

#[test]
fn basics() {
    let v = Vec3::new(1 * SCALE, 2 * SCALE, 3 * SCALE);
    let w = Vec3::new(4 * SCALE, 5 * SCALE, 6 * SCALE);
    assert_eq!(v.add(&w), Vec3::new(5 * SCALE, 7 * SCALE, 9 * SCALE));
    assert_eq!(v.dot(&w), 32 * SCALE);
    assert_eq!(v.cross(&w), Vec3::new(-3 * SCALE, 6 * SCALE, -3 * SCALE));
}

#[test]
fn dot_commutes() {
    let a = Vec3::new(12345, -777, 3 * SCALE + 1);
    let b = Vec3::new(-SCALE, 98765, 42);
    assert_eq!(a.dot(&b), b.dot(&a));
}

#[test]
fn cross_antisymmetric() {
    let a = Vec3::new(12345, -777, 3 * SCALE + 1);
    let b = Vec3::new(-SCALE, 98765, 42);
    assert_eq!(a.cross(&b), b.cross(&a).neg());
}

#[test]
fn sum_length_squared_expands() {
    let a = Vec3::new(3 * SCALE, -2 * SCALE, SCALE / 2);
    let b = Vec3::new(-SCALE, 4 * SCALE + 3, 2 * SCALE);
    let lhs = a.add(&b).length_squared();
    let rhs = a.dot(&a) + 2 * a.dot(&b) + b.dot(&b);
    assert!((lhs - rhs).abs() <= 12, "difference {}", lhs - rhs);
}

#[test]
fn unit_vector_has_unit_length() {
    let v = Vec3::new(3 * SCALE, 4 * SCALE, 12 * SCALE);
    let u = v.unit_vector();
    // |(3,4,12)| = 13, so the unit vector is exact up to truncation
    let len = u.length();
    assert!((len - SCALE).abs() <= 64, "length {}", len);
    let w = Vec3::new(-7 * SCALE + 123, SCALE / 3, 2 * SCALE - 55);
    let lw = w.unit_vector().length();
    assert!((lw - SCALE).abs() <= 64, "length {}", lw);
}

#[test]
fn unit_vector_of_zero_is_zero() {
    assert_eq!(Vec3::zero().unit_vector(), Vec3::zero());
}

#[test]
fn reflect_simple() {
    // reflecting (1, -1, 0) about the y axis flips the y component
    let v = Vec3::new(SCALE, -SCALE, 0);
    let n = Vec3::new(0, SCALE, 0);
    assert_eq!(Vec3::reflect(&v, &n), Vec3::new(SCALE, SCALE, 0));
}

#[test]
fn reflect_twice_returns_original() {
    let n = Vec3::new(0, SCALE, 0);
    let v = Vec3::new(3 * SCALE, -2 * SCALE, SCALE);
    let rr = Vec3::reflect(&Vec3::reflect(&v, &n), &n);
    assert!((rr.x - v.x).abs() <= 8, "x {} vs {}", rr.x, v.x);
    assert!((rr.y - v.y).abs() <= 8, "y {} vs {}", rr.y, v.y);
    assert!((rr.z - v.z).abs() <= 8, "z {} vs {}", rr.z, v.z);
}

#[test]
fn reflect_twice_about_tilted_normal_is_near_identity() {
    // a 3-4-5 unit normal, representable to within a couple of steps
    let n = Vec3::new(39321, 52428, 0);
    let v = Vec3::new(2 * SCALE, -3 * SCALE, SCALE / 2);
    let rr = Vec3::reflect(&Vec3::reflect(&v, &n), &n);
    assert!((rr.x - v.x).abs() <= 2048, "x {} vs {}", rr.x, v.x);
    assert!((rr.y - v.y).abs() <= 2048, "y {} vs {}", rr.y, v.y);
    assert!((rr.z - v.z).abs() <= 2048, "z {} vs {}", rr.z, v.z);
}

#[test]
fn near_zero_is_exact_zero_at_this_resolution() {
    assert!(Vec3::zero().near_zero());
    assert!(!Vec3::new(1, 0, 0).near_zero());
}

#[test]
fn clamp_saturates_componentwise() {
    let v = Vec3::new(-3 * SCALE, SCALE / 2, 3 * SCALE);
    assert_eq!(v.clamp(0, SCALE), Vec3::new(0, SCALE / 2, SCALE));
}

#[test]
fn random_unit_vector_is_bounded() {
    for _ in 0..100 {
        let u = Vec3::random_unit_vector();
        assert!(u.x.abs() <= 2 * SCALE && u.y.abs() <= 2 * SCALE && u.z.abs() <= 2 * SCALE);
        let len = u.length();
        assert!((len - SCALE).abs() <= 64, "length {}", len);
    }
}

#[test]
fn random_in_unit_disk_stays_in_disk() {
    for _ in 0..100 {
        let p = Vec3::random_in_unit_disk();
        assert_eq!(p.z, 0);
        assert!(p.length_squared() < SCALE);
    }
}

#[test]
fn random_on_hemisphere_faces_normal() {
    let n = Vec3::new(0, SCALE, 0);
    for _ in 0..100 {
        let u = Vec3::random_on_hemisphere(&n);
        assert!(u.dot(&n) >= 0);
        assert!((u.length() - SCALE).abs() <= 64);
    }
}

#[test]
fn random_range_respects_bounds() {
    for _ in 0..100 {
        let v = Vec3::random_range(-SCALE, SCALE);
        assert!(-SCALE <= v.x && v.x < SCALE);
        assert!(-SCALE <= v.y && v.y < SCALE);
        assert!(-SCALE <= v.z && v.z < SCALE);
    }
}

#[test]
fn refract_straight_through() {
    // head-on transmission with matched indices passes straight through
    let uv = Vec3::new(0, 0, -SCALE);
    let n = Vec3::new(0, 0, SCALE);
    let r = Vec3::refract(&uv, &n, SCALE);
    assert!((r.x).abs() <= 4 && (r.y).abs() <= 4 && (r.z + SCALE).abs() <= 4);
}
