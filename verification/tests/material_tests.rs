use mrender::color::Color;
use mrender::fixed::SCALE;
use mrender::hittable::HitRecord;
use mrender::material::Dielectric;
use mrender::material::Lambertian;
use mrender::material::Material;
use mrender::material::Metal;
use mrender::ray::Ray;
use mrender::vec3::Vec3;

fn record_at_origin(normal: Vec3, ray: &Ray) -> HitRecord {
    let mat = Material::Lambertian(Lambertian::new(Color::new(SCALE, SCALE, SCALE)));
    HitRecord::new(Vec3::zero(), SCALE, ray, normal, mat)
}

#[test]
fn lambertian_always_scatters() {
    let albedo = Color::new(SCALE / 2, SCALE / 4, SCALE / 8);
    let lam = Lambertian::new(albedo);
    let ray = Ray::new(Vec3::new(0, 0, SCALE), Vec3::new(0, 0, -SCALE));
    let rec = record_at_origin(Vec3::new(0, 0, SCALE), &ray);
    for _ in 0..100 {
        let scattered = lam.scatter(&ray, &rec);
        let (attenuation, out) = scattered.expect("diffuse scatter must always happen");
        assert_eq!(attenuation, albedo);
        assert_eq!(out.origin, rec.p);
    }
}

#[test]
fn lambertian_stores_albedo_unchanged() {
    // colours are unbounded until quantization; the constructor stores what
    // it is given, and the rendering boundary checks the unit interval
    let lam = Lambertian::new(Color::new(3 * SCALE, -SCALE, SCALE / 2));
    assert_eq!(lam.albedo, Color::new(3 * SCALE, -SCALE, SCALE / 2));
    assert!(!Material::Lambertian(lam).wf());
    let ok = Lambertian::new(Color::new(SCALE / 2, 0, SCALE));
    assert!(Material::Lambertian(ok).wf());
}

#[test]
fn metal_reflects_above_surface() {
    let albedo = Color::new(SCALE, SCALE, SCALE);
    let metal = Metal::new(albedo, 0);
    // incoming at 45 degrees onto an upward-facing surface
    let ray = Ray::new(Vec3::new(-SCALE, SCALE, 0), Vec3::new(SCALE, -SCALE, 0));
    let rec = record_at_origin(Vec3::new(0, SCALE, 0), &ray);
    let (attenuation, out) = metal.scatter(&ray, &rec).expect("mirror reflection scatters");
    assert_eq!(attenuation, albedo);
    // the reflected direction points back up
    assert!(out.direction.dot(&rec.normal) > 0);
    assert!(out.direction.y > 0);
}

#[test]
fn metal_absorbs_below_surface() {
    // a hand-built record whose normal faces away from the reflection:
    // the perturbed (here: exact) reflection points into the surface, so
    // the scatter is dropped
    let metal = Metal::new(Color::new(SCALE, SCALE, SCALE), 0);
    let ray = Ray::new(Vec3::new(0, 0, SCALE), Vec3::new(0, 0, -SCALE));
    let mat = Material::Metal(metal);
    let rec = HitRecord {
        p: Vec3::zero(),
        normal: Vec3::new(0, 0, -SCALE),
        t: SCALE,
        front_face: false,
        mat,
    };
    assert!(metal.scatter(&ray, &rec).is_none());
}

#[test]
fn metal_clamps_fuzz_to_one() {
    // fuzz is silently clamped at one whole unit; the albedo is stored as
    // given
    let m = Metal::new(Color::new(2 * SCALE, 0, 0), 3 * SCALE);
    assert_eq!(m.fuzz, SCALE);
    assert_eq!(m.albedo, Color::new(2 * SCALE, 0, 0));
    let m2 = Metal::new(Color::new(0, 0, 0), SCALE / 4);
    assert_eq!(m2.fuzz, SCALE / 4);
    assert!(Material::Metal(m2).wf());
}

#[test]
fn dielectric_always_scatters_white() {
    let glass = Dielectric::new(98304);  // index 1.5
    let ray = Ray::new(Vec3::new(0, SCALE, 0), Vec3::new(0, -SCALE, 0));
    let rec = record_at_origin(Vec3::new(0, SCALE, 0), &ray);
    for _ in 0..100 {
        let (attenuation, out) = glass.scatter(&ray, &rec).expect("glass never absorbs");
        assert_eq!(attenuation, Color::new(SCALE, SCALE, SCALE));
        assert_eq!(out.origin, rec.p);
    }
}

#[test]
fn dielectric_stores_index_unchanged() {
    let d = Dielectric::new(98304);
    assert_eq!(d.refraction_index, 98304);
    assert!(Material::Dielectric(d).wf());
    // an index outside the representable band is stored but flagged
    let out = Dielectric::new(7);
    assert_eq!(out.refraction_index, 7);
    assert!(!Material::Dielectric(out).wf());
}

#[test]
fn material_dispatch_matches_variants() {
    let ray = Ray::new(Vec3::new(0, SCALE, 0), Vec3::new(0, -SCALE, 0));
    let rec = record_at_origin(Vec3::new(0, SCALE, 0), &ray);
    let lam = Material::Lambertian(Lambertian::new(Color::new(SCALE / 2, SCALE / 2, SCALE / 2)));
    assert!(lam.scatter(&ray, &rec).is_some());
    let glass = Material::Dielectric(Dielectric::new(98304));
    assert!(glass.scatter(&ray, &rec).is_some());
}
