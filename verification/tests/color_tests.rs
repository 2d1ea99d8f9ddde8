use mrender::color::Color;
use mrender::fixed::SCALE;
use mrender::interval::Interval;
use mrender::vec3::Vec3;

#[test]
fn quantize_white_with_gamma_is_255() {
    // full intensity must give 255, never 256, under the 0.999 ceiling
    let c = Color::new(SCALE, SCALE, SCALE);
    assert_eq!(c.to_rgb_i32(true), (255, 255, 255));
}

#[test]
fn quantize_black_is_zero() {
    let c = Color::new(0, 0, 0);
    assert_eq!(c.to_rgb_i32(true), (0, 0, 0));
    assert_eq!(c.to_rgb_i32(false), (0, 0, 0));
}

#[test]
fn gamma_brightens_quarter_intensity() {
    // sqrt(0.25) = 0.5, so a quarter intensity quantizes to 128 with gamma
    // and 64 without
    let c = Color::new(SCALE / 4, SCALE / 4, SCALE / 4);
    assert_eq!(c.to_rgb_i32(true), (128, 128, 128));
    assert_eq!(c.to_rgb_i32(false), (64, 64, 64));
}

#[test]
fn quantize_clamps_out_of_range_channels() {
    let c = Color::new(-3 * SCALE, 2 * SCALE, SCALE / 2);
    let (r, g, b) = c.to_rgb_i32(false);
    assert_eq!(r, 0);
    assert_eq!(g, 255);
    assert_eq!(b, 128);
}

#[test]
fn color_arithmetic() {
    let a = Color::new(SCALE, SCALE / 2, 0);
    let b = Color::new(SCALE / 2, SCALE / 2, SCALE);
    assert_eq!(a.add(&b), Color::new(3 * SCALE / 2, SCALE, SCALE));
    assert_eq!(a.mul(SCALE / 2), Color::new(SCALE / 2, SCALE / 4, 0));
    assert_eq!(a.div(2 * SCALE), Color::new(SCALE / 2, SCALE / 4, 0));
    // attenuation is a componentwise product
    assert_eq!(a.attenuate(&b), Color::new(SCALE / 2, SCALE / 4, 0));
    let mut acc = Color::new(0, 0, 0);
    acc.add_assign(&a);
    acc.add_assign(&b);
    assert_eq!(acc, a.add(&b));
}

#[test]
fn color_accessors_and_vec_round_trip() {
    let c = Color::new(1, 2, 3);
    assert_eq!((c.r(), c.g(), c.b()), (1, 2, 3));
    assert_eq!(Color::of_vec3(c.to_vec3()), c);
    assert_eq!(c.to_vec3(), Vec3::new(1, 2, 3));
    assert_eq!(Color::from(Vec3::new(1, 2, 3)), c);
    assert_eq!(Vec3::from(c), Vec3::new(1, 2, 3));
    assert_eq!(c.clamp(2, 2), Color::new(2, 2, 2));
}

#[test]
fn interval_surrounds_is_strict() {
    let i = Interval::new(0, 10);
    assert!(i.surrounds(5));
    assert!(!i.surrounds(0));
    assert!(!i.surrounds(10));
}

#[test]
fn interval_clamp_saturates() {
    let i = Interval::new(0, 10);
    assert_eq!(i.clamp(-5), 0);
    assert_eq!(i.clamp(5), 5);
    assert_eq!(i.clamp(15), 10);
}
