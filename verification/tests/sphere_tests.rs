use mrender::color::Color;
use mrender::fixed::SCALE;
use mrender::hittable::T_RANGE;
use mrender::hittable_list::HittableList;
use mrender::material::Lambertian;
use mrender::material::Material;
use mrender::ray::Ray;
use mrender::sphere::Sphere;
use mrender::vec3::Vec3;

fn gray() -> Material {
    Material::Lambertian(Lambertian::new(Color::new(SCALE / 2, SCALE / 2, SCALE / 2)))
}

#[test]
fn head_on_hit_at_distance_minus_radius() {
    // from (0,0,3) straight at a unit sphere at the origin: t = 3 - 1 = 2
    let sphere = Sphere::new(Vec3::zero(), SCALE, gray());
    let ray = Ray::new(Vec3::new(0, 0, 3 * SCALE), Vec3::new(0, 0, -SCALE));
    let rec = sphere.hit(&ray, 66, T_RANGE).expect("head-on ray must hit");
    assert_eq!(rec.t, 2 * SCALE);
    assert!(rec.front_face);
    assert_eq!(rec.p, Vec3::new(0, 0, SCALE));
    assert_eq!(rec.normal, Vec3::new(0, 0, SCALE));
}

#[test]
fn ray_aimed_away_never_hits() {
    let sphere = Sphere::new(Vec3::zero(), SCALE, gray());
    let ray = Ray::new(Vec3::new(0, 0, 3 * SCALE), Vec3::new(0, 0, SCALE));
    assert!(sphere.hit(&ray, 66, T_RANGE).is_none());
}

#[test]
fn tangent_ray_grazes_with_zero_discriminant() {
    // the ray passes at distance exactly one radius from the centre
    let sphere = Sphere::new(Vec3::zero(), SCALE, gray());
    let ray = Ray::new(Vec3::new(SCALE, 0, 3 * SCALE), Vec3::new(0, 0, -SCALE));
    let rec = sphere.hit(&ray, 66, T_RANGE).expect("tangent ray grazes");
    assert_eq!(rec.t, 3 * SCALE);
    assert_eq!(rec.p, Vec3::new(SCALE, 0, 0));
}

#[test]
fn window_excludes_near_root_then_far_root_is_used() {
    // from inside the window's far side: the near surface is at t = 2, the
    // far one at t = 4; excluding t = 2 must yield the far root
    let sphere = Sphere::new(Vec3::zero(), SCALE, gray());
    let ray = Ray::new(Vec3::new(0, 0, 3 * SCALE), Vec3::new(0, 0, -SCALE));
    let rec = sphere.hit(&ray, 2 * SCALE + 1, T_RANGE).expect("far root inside window");
    assert_eq!(rec.t, 4 * SCALE);
    assert!(!rec.front_face);
}

#[test]
fn negative_radius_is_clamped_to_zero() {
    let sphere = Sphere::new(Vec3::zero(), -5 * SCALE, gray());
    assert_eq!(sphere.radius, 0);
    // a zero-radius sphere can never be hit
    let ray = Ray::new(Vec3::new(0, 0, 3 * SCALE), Vec3::new(0, 0, -SCALE));
    assert!(sphere.hit(&ray, 66, T_RANGE).is_none());
}

#[test]
fn overlapping_spheres_closest_wins() {
    // two overlapping spheres on the axis: the closer surface must win,
    // whatever the insertion order
    let near = Sphere::new(Vec3::new(0, 0, -2 * SCALE), SCALE, gray());
    let far = Sphere::new(Vec3::new(0, 0, -3 * SCALE), SCALE, gray());
    let ray = Ray::new(Vec3::zero(), Vec3::new(0, 0, -SCALE));

    let mut world = HittableList::new();
    world.add(near);
    world.add(far);
    let rec = world.hit(&ray, 66, T_RANGE).expect("both spheres are ahead");
    assert_eq!(rec.t, SCALE);

    let mut reversed = HittableList::new();
    reversed.add(far);
    reversed.add(near);
    let rec2 = reversed.hit(&ray, 66, T_RANGE).expect("both spheres are ahead");
    assert_eq!(rec2.t, SCALE);
}

#[test]
fn empty_list_never_hits() {
    let world = HittableList::new();
    let ray = Ray::new(Vec3::zero(), Vec3::new(0, 0, -SCALE));
    assert!(world.hit(&ray, 66, T_RANGE).is_none());
}

#[test]
fn list_add_push_clear() {
    let mut world = HittableList::with_capacity(4);
    world.push(Sphere::new(Vec3::zero(), SCALE, gray()));
    world.add(Sphere::new(Vec3::new(0, 0, -2 * SCALE), SCALE, gray()));
    assert_eq!(world.objects.len(), 2);
    world.clear();
    assert_eq!(world.objects.len(), 0);
}
