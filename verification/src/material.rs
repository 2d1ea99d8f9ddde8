//! Materials: how a surface scatters an incoming ray.
//!
//! The fixed set of behaviours is a sum type: diffuse, fuzzy-reflective and
//! refractive. Scattering draws randomness, so the contracts state what
//! holds of every outcome; where a material is deterministic (metal with
//! zero fuzz) the scattered ray is pinned exactly.

use vstd::prelude::*;
use crate::color::Color;
use crate::fixed::SCALE;
use crate::fixed::fdiv;
use crate::fixed::fmul;
use crate::fixed::fx_div;
use crate::fixed::fx_mul;
use crate::fixed::fx_sqrt;
use crate::fixed::lemma_div_window;
use crate::fixed::lemma_fmul_range;
use crate::fixed::lemma_fmul_self_nonneg;
use crate::fixed::lemma_isqrt_le;
use crate::fixed::lemma_mul_mag;
use crate::fixed::lemma_tdiv;
use crate::fixed::mag;
use crate::hittable::DIR_RANGE;
use crate::hittable::HitRecord;
use crate::ray::Ray;
use crate::rtweekend::random_double;
use crate::vec3::UNIT_RANGE;
use crate::vec3::V3;
use crate::vec3::Vec3;
use crate::vec3::s_dot;
use crate::vec3::s_in_range;
use crate::vec3::s_reflect;
use crate::vec3::s_unit;

verus! {

/// Colour channels within one whole unit: a light attenuation.
pub open spec fn s_color01(c: V3) -> bool {
    &&& 0 <= c.x <= SCALE
    &&& 0 <= c.y <= SCALE
    &&& 0 <= c.z <= SCALE
}

/// Diffuse: scatters into the normal's hemisphere, attenuating by `albedo`.
#[derive(Clone, Copy, Debug)]
pub struct Lambertian {
    pub albedo: Color,
}

/// Specular with a randomized perturbation of magnitude `fuzz`.
#[derive(Clone, Copy, Debug)]
pub struct Metal {
    pub albedo: Color,
    pub fuzz: i64,
}

/// Transmissive, choosing between reflection and refraction by the Schlick
/// approximation.
#[derive(Clone, Copy, Debug)]
pub struct Dielectric {
    pub refraction_index: i64,
}

/// The closed set of materials a surface can carry.
#[derive(Clone, Copy, Debug)]
pub enum Material {
    Lambertian(Lambertian),
    Metal(Metal),
    Dielectric(Dielectric),
}

/// What scattering and rendering rely on: attenuations inside the unit
/// interval (so bounced radiance stays representable — a machine limit of
/// the fixed-point model, not a bound the constructors impose) and a
/// refraction index inside the representable band. `Material::wf` checks it
/// at run time.
pub open spec fn s_mat_wf(m: Material) -> bool {
    match m {
        Material::Lambertian(l) => s_color01(l.albedo@),
        Material::Metal(me) => s_color01(me.albedo@) && 0 <= me.fuzz <= SCALE,
        Material::Dielectric(d) => 4096 <= d.refraction_index <= 1048576,
    }
}

/// The Schlick reflectance approximation, in fixed point:
/// `r0 + (1 - r0) (1 - cos)^5` with `r0 = ((1 - ri) / (1 + ri))^2`.
pub open spec fn s_reflectance(cos: int, ri: int) -> int {
    let r0l = fdiv(SCALE - ri, SCALE + ri);
    let r0 = fmul(r0l, r0l);
    let b = SCALE - cos;
    r0 + fmul(SCALE - r0, fmul(fmul(fmul(fmul(b, b), b), b), b))
}

/// Schlick reflectance, exact per `s_reflectance`.
fn reflectance(cos: i64, ri: i64) -> (r: i64)
    requires
        -0xC_0000 <= cos <= SCALE,
        1 <= ri <= 0x10_0000,
    ensures
        r == s_reflectance(cos as int, ri as int),
{
    let r0l = fx_div(SCALE - ri, SCALE + ri);
    proof {
        lemma_tdiv(((SCALE - ri) as int) * (SCALE as int), (SCALE + ri) as int);
        lemma_mul_mag((SCALE - ri) as int, SCALE as int);
        assert(mag(r0l as int) <= SCALE) by (nonlinear_arith)
            requires
                mag(r0l as int) * ((SCALE + ri) as int) <= mag((SCALE - ri) as int) * (
                SCALE as int),
                mag((SCALE - ri) as int) <= (SCALE + ri) as int,
                SCALE + ri > 0,
                SCALE > 0,
                mag(r0l as int) >= 0,
        ;
    }
    let r0 = fx_mul(r0l, r0l);
    proof {
        lemma_fmul_self_nonneg(r0l as int);
        lemma_fmul_range(r0l as int, r0l as int, SCALE as int, SCALE as int, SCALE as int);
    }
    let b = SCALE - cos;
    let b2 = fx_mul(b, b);
    proof {
        lemma_fmul_range(b as int, b as int, 0x10_0000, 0x10_0000, 0x100_0000);
    }
    let b3 = fx_mul(b2, b);
    proof {
        lemma_fmul_range(b2 as int, b as int, 0x100_0000, 0x10_0000, 0x1000_0000);
    }
    let b4 = fx_mul(b3, b);
    proof {
        lemma_fmul_range(b3 as int, b as int, 0x1000_0000, 0x10_0000, 0x1_0000_0000);
    }
    let b5 = fx_mul(b4, b);
    proof {
        lemma_fmul_range(b4 as int, b as int, 0x1_0000_0000, 0x10_0000, 0x10_0000_0000);
        lemma_fmul_range((SCALE - r0) as int, b5 as int, SCALE as int, 0x10_0000_0000, 0x10_0000_0000);
    }
    r0 + fx_mul(SCALE - r0, b5)
}

impl Lambertian {
    /// The albedo is stored unchanged; like any colour it is unbounded
    /// until quantization. Scattering and rendering ask (via `s_mat_wf`)
    /// for unit-interval attenuations — a machine limit of the fixed-point
    /// radiance model, checkable with `Material::wf`.
    pub fn new(a: Color) -> (r: Self)
        ensures
            r.albedo == a,
    {
        Self { albedo: a }
    }

    /// Diffuse scattering: the outgoing direction is the normal plus a
    /// random unit vector, falling back to the normal itself when the sum
    /// degenerates to zero. Never absorbs.
    pub fn scatter(&self, _r_in: &Ray, rec: &HitRecord) -> (res: Option<(Color, Ray)>)
        requires
            s_color01(self.albedo@),
            s_in_range(rec@.normal, UNIT_RANGE as int),
        ensures
            res matches Some(pr) && pr.0@ == self.albedo@ && pr.1@.orig == rec@.p && s_in_range(
                pr.1@.dir,
                4 * UNIT_RANGE as int,
            ) && (!crate::vec3::s_near_zero(rec@.normal) ==> !crate::vec3::s_near_zero(
                pr.1@.dir,
            )),
    {
        let u = Vec3::random_unit_vector();
        let mut scatter_direction = rec.normal.add(&u);
        if scatter_direction.near_zero() {
            scatter_direction = rec.normal;
        }
        Some((self.albedo, Ray::new(rec.p, scatter_direction)))
    }
}

impl Metal {
    /// The albedo is stored unchanged; the fuzz is silently clamped to at
    /// most one whole unit, beyond which it is not meaningful.
    pub fn new(a: Color, fuzz: i64) -> (r: Self)
        ensures
            r.albedo == a,
            r.fuzz == (if fuzz > SCALE {
                SCALE as int
            } else {
                fuzz as int
            }),
            fuzz >= 0 ==> 0 <= r.fuzz <= SCALE,
    {
        let f = if fuzz > SCALE {
            SCALE
        } else {
            fuzz
        };
        Self { albedo: a, fuzz: f }
    }

    /// Fuzzy reflection: the unit reflection perturbed by `fuzz` times a
    /// random unit vector. The scatter is dropped entirely when the
    /// perturbed direction points into the surface; with zero fuzz the
    /// outcome is deterministic.
    pub fn scatter(&self, r_in: &Ray, rec: &HitRecord) -> (res: Option<(Color, Ray)>)
        requires
            s_color01(self.albedo@),
            0 <= self.fuzz <= SCALE,
            s_in_range(r_in@.dir, DIR_RANGE as int),
            s_in_range(rec@.normal, UNIT_RANGE as int),
        ensures
            res matches Some(pr) ==> pr.0@ == self.albedo@ && pr.1@.orig == rec@.p && s_dot(
                pr.1@.dir,
                rec@.normal,
            ) > 0 && s_in_range(pr.1@.dir, 4 * UNIT_RANGE as int),
            res is None ==> self.fuzz > 0 || s_dot(
                s_unit(s_reflect(r_in@.dir, rec@.normal)),
                rec@.normal,
            ) <= 0,
            self.fuzz == 0 && s_dot(s_unit(s_reflect(r_in@.dir, rec@.normal)), rec@.normal) > 0
                ==> (res matches Some(pr) && pr.1@.dir == s_unit(s_reflect(r_in@.dir, rec@.normal))),
    {
        proof {
            crate::vec3::lemma_reflect_range(r_in@.dir, rec@.normal);
        }
        let reflected = Vec3::reflect(&r_in.direction, &rec.normal);
        let unit_r = reflected.unit_vector();
        let u = Vec3::random_unit_vector();
        let fuzz_vec = u.scale(self.fuzz);
        proof {
            lemma_fmul_range(self.fuzz as int, u@.x, SCALE as int, UNIT_RANGE as int, UNIT_RANGE as int);
            lemma_fmul_range(self.fuzz as int, u@.y, SCALE as int, UNIT_RANGE as int, UNIT_RANGE as int);
            lemma_fmul_range(self.fuzz as int, u@.z, SCALE as int, UNIT_RANGE as int, UNIT_RANGE as int);
            if self.fuzz == 0 {
                assert(0int * u@.x == 0 && 0int * u@.y == 0 && 0int * u@.z == 0) by (nonlinear_arith);
                assert(fmul(0, u@.x) == 0);
                assert(fmul(0, u@.y) == 0);
                assert(fmul(0, u@.z) == 0);
            }
        }
        let dir = unit_r.add(&fuzz_vec);
        let scattered = Ray::new(rec.p, dir);
        if dir.dot(&rec.normal) > 0 {
            Some((self.albedo, scattered))
        } else {
            None
        }
    }
}

impl Dielectric {
    /// The refraction index is stored unchanged. Scattering asks (via
    /// `s_mat_wf`) for an index inside the representable band [1/16, 16],
    /// which covers every physical medium.
    pub fn new(refraction_index: i64) -> (r: Self)
        ensures
            r.refraction_index == refraction_index,
    {
        Self { refraction_index }
    }

    /// Transmissive scattering: refract when Snell's law allows it and a
    /// Schlick-weighted draw does not choose reflection; reflect otherwise.
    /// Attenuation is pure white, and the ray is never absorbed.
    pub fn scatter(&self, r_in: &Ray, rec: &HitRecord) -> (res: Option<(Color, Ray)>)
        requires
            4096 <= self.refraction_index <= 1048576,
            s_in_range(r_in@.dir, DIR_RANGE as int),
            s_in_range(rec@.normal, UNIT_RANGE as int),
        ensures
            res matches Some(pr) && pr.0@ == (V3 {
                x: SCALE as int,
                y: SCALE as int,
                z: SCALE as int,
            }) && pr.1@.orig == rec@.p && s_in_range(pr.1@.dir, 0x2_0000_0000),
    {
        let ri = if rec.front_face {
            let q = fx_div(SCALE, self.refraction_index);
            proof {
                lemma_div_window((SCALE as int) * (SCALE as int), self.refraction_index as int);
                assert(q >= 4096) by (nonlinear_arith)
                    requires
                        (self.refraction_index as int) * q + self.refraction_index as int > (
                        SCALE as int) * (SCALE as int),
                        4096 <= self.refraction_index <= 1048576,
                        q >= 0,
                        SCALE == 65536,
                ;
                assert(q <= 1048576) by (nonlinear_arith)
                    requires
                        (self.refraction_index as int) * q <= (SCALE as int) * (SCALE as int),
                        4096 <= self.refraction_index <= 1048576,
                        q >= 0,
                        SCALE == 65536,
                ;
            }
            q
        } else {
            self.refraction_index
        };
        let unit_direction = r_in.direction.unit_vector();
        let d = unit_direction.neg().dot(&rec.normal);
        proof {
            lemma_fmul_range(-unit_direction@.x, rec@.normal.x, UNIT_RANGE as int, UNIT_RANGE as int, 4 * SCALE as int);
            lemma_fmul_range(-unit_direction@.y, rec@.normal.y, UNIT_RANGE as int, UNIT_RANGE as int, 4 * SCALE as int);
            lemma_fmul_range(-unit_direction@.z, rec@.normal.z, UNIT_RANGE as int, UNIT_RANGE as int, 4 * SCALE as int);
        }
        let cos_theta = if d < SCALE {
            d
        } else {
            SCALE
        };
        // The square root's domain is clamped at zero, absorbing
        // floating-point-style overshoot of the cosine.
        let cos_c = if cos_theta < 0 {
            0
        } else {
            cos_theta
        };
        let root_cos = fx_sqrt(cos_c);
        proof {
            lemma_isqrt_le((cos_c as int) * (SCALE as int), SCALE as int);
        }
        // NOTE: the sine is taken as sqrt(1 - sqrt(cos)), not via the
        // identity sin^2 = 1 - cos^2; it overstates the sine at grazing
        // angles, so total internal reflection sets in early. Kept as the
        // renderer's behaviour; a correction belongs with its own tests.
        let sin_theta = fx_sqrt(SCALE - root_cos);
        proof {
            lemma_isqrt_le(((SCALE - root_cos) as int) * (SCALE as int), SCALE as int);
        }
        let cannot_refract = fx_mul(ri, sin_theta) > SCALE;
        let direction = if cannot_refract || reflectance(cos_theta, ri) > random_double() {
            Vec3::reflect(&unit_direction, &rec.normal)
        } else {
            Vec3::refract(&unit_direction, &rec.normal, ri)
        };
        proof {
            crate::vec3::lemma_reflect_range(unit_direction@, rec@.normal);
            crate::vec3::lemma_refract_range(unit_direction@, rec@.normal, ri as int);
        }
        Some((Color::new(SCALE, SCALE, SCALE), Ray::new(rec.p, direction)))
    }
}

impl Material {
    /// Scatter an incoming ray at a hit point: the hit's material decides
    /// whether the ray continues, in which direction, and under what
    /// attenuation.
    pub fn scatter(&self, r_in: &Ray, rec: &HitRecord) -> (res: Option<(Color, Ray)>)
        requires
            s_mat_wf(*self),
            s_in_range(r_in@.dir, DIR_RANGE as int),
            s_in_range(rec@.normal, UNIT_RANGE as int),
        ensures
            res matches Some(pr) ==> s_color01(pr.0@) && pr.1@.orig == rec@.p && s_in_range(
                pr.1@.dir,
                0x2_0000_0000,
            ),
            !(self matches Material::Metal(_)) ==> res is Some,
            self matches Material::Lambertian(l) ==> (res matches Some(pr) && pr.0@ == l.albedo@),
            self matches Material::Metal(m) ==> {
                &&& (res matches Some(pr) ==> pr.0@ == m.albedo@ && s_dot(pr.1@.dir, rec@.normal)
                    > 0)
                &&& (res is None ==> m.fuzz > 0 || s_dot(
                    s_unit(s_reflect(r_in@.dir, rec@.normal)),
                    rec@.normal,
                ) <= 0)
            },
            self matches Material::Dielectric(_) ==> (res matches Some(pr) && pr.0@ == (V3 {
                x: SCALE as int,
                y: SCALE as int,
                z: SCALE as int,
            })),
    {
        match self {
            Material::Lambertian(l) => l.scatter(r_in, rec),
            Material::Metal(m) => m.scatter(r_in, rec),
            Material::Dielectric(d) => d.scatter(r_in, rec),
        }
    }

    /// Whether this material meets the representation limits that
    /// scattering and rendering ask for.
    pub fn wf(&self) -> (b: bool)
        ensures
            b == s_mat_wf(*self),
    {
        match self {
            Material::Lambertian(l) => {
                0 <= l.albedo.0.x && l.albedo.0.x <= SCALE && 0 <= l.albedo.0.y && l.albedo.0.y
                    <= SCALE && 0 <= l.albedo.0.z && l.albedo.0.z <= SCALE
            },
            Material::Metal(m) => {
                0 <= m.albedo.0.x && m.albedo.0.x <= SCALE && 0 <= m.albedo.0.y && m.albedo.0.y
                    <= SCALE && 0 <= m.albedo.0.z && m.albedo.0.z <= SCALE && 0 <= m.fuzz && m.fuzz
                    <= SCALE
            },
            Material::Dielectric(d) => 4096 <= d.refraction_index && d.refraction_index
                <= 1048576,
        }
    }
}

} // verus!
