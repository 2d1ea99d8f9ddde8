use mrender::fixed::SCALE;
use mrender::rtweekend::PI_FX;
use mrender::rtweekend::degrees_to_radians;
use mrender::rtweekend::random_double;
use mrender::rtweekend::random_double_range;

#[test]
fn random_double_is_in_unit_interval() {
    for _ in 0..1000 {
        let r = random_double();
        assert!((0..SCALE).contains(&r));
    }
}

#[test]
fn random_double_range_respects_bounds() {
    for _ in 0..1000 {
        let r = random_double_range(-SCALE, 3 * SCALE);
        assert!(-SCALE <= r && r < 3 * SCALE);
    }
    assert_eq!(random_double_range(42, 42), 42);
}

#[test]
fn degrees_to_radians_half_turn_is_pi() {
    assert_eq!(degrees_to_radians(180 * SCALE), PI_FX);
    assert_eq!(degrees_to_radians(0), 0);
    assert_eq!(degrees_to_radians(-180 * SCALE), -PI_FX);
}

#[test]
fn degrees_to_radians_right_angle() {
    // pi/2, up to the truncation of pi itself
    let r = degrees_to_radians(90 * SCALE);
    assert!((r - PI_FX / 2).abs() <= 1);
}
