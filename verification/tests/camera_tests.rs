use mrender::camera::Camera;
use mrender::camera::CameraError;
use mrender::color::Color;
use mrender::fixed::SCALE;
use mrender::hittable_list::HittableList;
use mrender::material::Lambertian;
use mrender::material::Material;
use mrender::ray::Ray;
use mrender::sphere::Sphere;
use mrender::vec3::Vec3;

fn single_sphere_world() -> HittableList {
    // one sphere of radius 0.5 centred at (0, 0, -1)
    let mat = Material::Lambertian(Lambertian::new(Color::new(SCALE / 2, SCALE / 2, SCALE / 2)));
    let mut world = HittableList::new();
    world.add(Sphere::new(Vec3::new(0, 0, -SCALE), SCALE / 2, mat));
    world
}

#[test]
fn render_small_image_center_hits_sphere() {
    let mut cam = Camera::new_with(10, 116508, 1);
    cam.max_depth = 1;
    let world = single_sphere_world();
    let img = cam.render(&world).expect("valid configuration renders");
    assert_eq!(img.width, 10);
    assert_eq!(img.height, 5);
    assert_eq!(img.pixels.len(), 50);
    for &(r, g, b) in &img.pixels {
        assert!((0..=255).contains(&r) && (0..=255).contains(&g) && (0..=255).contains(&b));
    }
    // the centre pixel sees the sphere; at depth one its bounce terminates
    // in black, so the pixel is black rather than any sky shade
    let center = img.pixels[2 * 10 + 4];
    assert_eq!(center, (0, 0, 0));
    // a top corner pixel sees only sky, which is never black
    let corner = img.pixels[0];
    assert!(corner != (0, 0, 0));
}

#[test]
fn depth_zero_renders_black_everywhere() {
    let mut cam = Camera::new_with(10, 116508, 1);
    cam.max_depth = 0;
    let world = single_sphere_world();
    let img = cam.render(&world).expect("valid configuration renders");
    for &px in &img.pixels {
        assert_eq!(px, (0, 0, 0));
    }
}

#[test]
fn multithreaded_render_matches_layout() {
    let mut cam = Camera::new_with(12, 116508, 2);
    cam.max_depth = 1;
    let world = single_sphere_world();
    let img = cam.render_multithreaded(&world).expect("valid configuration renders");
    assert_eq!(img.width, 12);
    assert_eq!(img.height, 6);
    assert_eq!(img.pixels.len(), 72);
    for &(r, g, b) in &img.pixels {
        assert!((0..=255).contains(&r) && (0..=255).contains(&g) && (0..=255).contains(&b));
    }
    let center = img.pixels[2 * 12 + 5];
    assert_eq!(center, (0, 0, 0));
}

#[test]
fn ray_color_miss_is_exact_sky_gradient() {
    let world = single_sphere_world();
    // straight up: the unit direction's y component is exactly one, so the
    // sky blend lands entirely on the light blue
    let up = Ray::new(Vec3::zero(), Vec3::new(0, SCALE, 0));
    let c = Camera::ray_color(&up, &world, 4);
    assert_eq!(c, Color::new(SCALE / 2, 45875, SCALE));
    // straight down: entirely on white
    let down = Ray::new(Vec3::zero(), Vec3::new(0, -SCALE, 0));
    let d = Camera::ray_color(&down, &world, 4);
    assert_eq!(d, Color::new(SCALE, SCALE, SCALE));
}

#[test]
fn ray_color_depth_zero_is_black() {
    let world = single_sphere_world();
    let up = Ray::new(Vec3::zero(), Vec3::new(0, SCALE, 0));
    assert_eq!(Camera::ray_color(&up, &world, 0), Color::new(0, 0, 0));
}

#[test]
fn invalid_aspect_is_rejected() {
    let mut cam = Camera::new_with(10, 0, 1);
    let world = single_sphere_world();
    assert_eq!(cam.render(&world).err(), Some(CameraError::InvalidAspect));
    let mut neg = Camera::new_with(10, -3, 1);
    assert_eq!(neg.render(&world).err(), Some(CameraError::InvalidAspect));
}

#[test]
fn zero_width_is_rejected() {
    let mut cam = Camera::new_with(0, 116508, 1);
    let world = single_sphere_world();
    assert_eq!(cam.render(&world).err(), Some(CameraError::InvalidWidth));
}

#[test]
fn one_pixel_wide_image_is_rejected() {
    // a one-pixel dimension would divide the viewport span by zero
    let mut cam = Camera::new_with(1, SCALE, 1);
    let world = single_sphere_world();
    assert_eq!(cam.render(&world).err(), Some(CameraError::InvalidDimensions));
}

#[test]
fn degenerate_view_is_rejected() {
    let mut cam = Camera::new_with(10, 116508, 1);
    cam.lookat = cam.lookfrom;
    let world = single_sphere_world();
    assert_eq!(cam.render(&world).err(), Some(CameraError::DegenerateView));
}

#[test]
fn defocus_render_stays_in_range() {
    let mut cam = Camera::new_with(8, SCALE, 1);
    cam.max_depth = 2;
    cam.defocus_tan_half = SCALE / 8;
    cam.focus_dist = SCALE;
    let world = single_sphere_world();
    let img = cam.render(&world).expect("defocus configuration renders");
    assert_eq!(img.pixels.len(), 8 * 8);
    for &(r, g, b) in &img.pixels {
        assert!((0..=255).contains(&r) && (0..=255).contains(&g) && (0..=255).contains(&b));
    }
}

#[test]
fn config_ok_reports_machine_limits() {
    let cam = Camera::new_with(10, 116508, 1);
    assert!(cam.config_ok());
    let big = Camera::new_with(100000, 116508, 1);
    assert!(!big.config_ok());
}
