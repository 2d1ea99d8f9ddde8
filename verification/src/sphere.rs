//! Spheres, and their ray intersection.
//!
//! The quadratic uses the half-angle form (`h` in place of `b = 2h`) to
//! halve cancellation error. The whole routine is total: rays, centres or
//! windows outside the representable envelope simply cannot hit, which the
//! spec function `s_sphere_hit` states alongside the quadratic itself.

use vstd::prelude::*;
use crate::fixed::SCALE;
use crate::fixed::fdiv;
use crate::fixed::fmul;
use crate::fixed::fsqrt;
use crate::fixed::tdiv;
use crate::fixed::fx_div;
use crate::fixed::fx_mul;
use crate::fixed::fx_sqrt;
use crate::fixed::lemma_fmul_range;
use crate::fixed::lemma_fmul_self_nonneg;
use crate::hittable::DIR_RANGE;
use crate::hittable::HitRecord;
use crate::hittable::HitV;
use crate::hittable::Hittable;
use crate::hittable::POS_RANGE;
use crate::hittable::T_RANGE;
use crate::hittable::s_hit_record;
use crate::material::Material;
use crate::ray::R3;
use crate::ray::Ray;
use crate::ray::s_ray_at;
use crate::vec3::UNIT_RANGE;
use crate::vec3::V3;
use crate::vec3::Vec3;
use crate::vec3::s_clampv;
use crate::vec3::s_divs;
use crate::vec3::s_dot;
use crate::vec3::s_in_range;
use crate::vec3::s_len_sq;
use crate::vec3::s_subv;

verus! {

/// What the intersection routine accepts: every quantity inside the scene
/// envelope, a positive (representable) radius, and an ordered window.
pub open spec fn s_hit_inputs_ok(center: V3, radius: int, r: R3, tmin: int, tmax: int) -> bool {
    &&& s_in_range(r.orig, POS_RANGE as int)
    &&& s_in_range(r.dir, DIR_RANGE as int)
    &&& s_in_range(center, POS_RANGE as int)
    &&& 1 <= radius <= POS_RANGE
    &&& -T_RANGE <= tmin <= tmax <= T_RANGE
}

/// The record built at a root accepted by the window: the hit point must
/// itself lie in the envelope; the outward normal is the offset from the
/// centre over the radius, held within two whole units.
pub open spec fn s_sphere_hit_at(
    center: V3,
    radius: int,
    mat: Material,
    r: R3,
    root: int,
) -> Option<HitV> {
    let p = s_ray_at(r, root);
    if !s_in_range(p, POS_RANGE as int) {
        None
    } else {
        let outward = s_clampv(
            s_divs(s_subv(p, center), radius),
            -UNIT_RANGE as int,
            UNIT_RANGE as int,
        );
        Some(s_hit_record(p, root, r, outward, mat))
    }
}

/// Ray-sphere intersection. Solve `a t^2 + 2 h t + c = 0` from the ray and
/// the implicit sphere equation; a negative discriminant misses, else the
/// smaller root is preferred and the larger one stands in when the window
/// excludes the smaller.
pub open spec fn s_sphere_hit(
    center: V3,
    radius: int,
    mat: Material,
    r: R3,
    tmin: int,
    tmax: int,
) -> Option<HitV> {
    if !s_hit_inputs_ok(center, radius, r, tmin, tmax) {
        None
    } else {
        let oc = s_subv(r.orig, center);
        let a = s_len_sq(r.dir);
        let h = s_dot(oc, r.dir);
        let c = s_len_sq(oc) - fmul(radius, radius);
        let disc = fmul(h, h) - fmul(a, c);
        if a == 0 || disc < 0 {
            None
        } else {
            let sq = fsqrt(disc);
            let root1 = fdiv(-h - sq, a);
            let root2 = fdiv(-h + sq, a);
            if tmin < root1 && root1 < tmax {
                s_sphere_hit_at(center, radius, mat, r, root1)
            } else if tmin < root2 && root2 < tmax {
                s_sphere_hit_at(center, radius, mat, r, root2)
            } else {
                None
            }
        }
    }
}

/// A sphere bound to a material.
#[derive(Clone, Copy, Debug)]
pub struct Sphere {
    pub center: Vec3,
    pub radius: i64,
    pub mat: Material,
}

impl Sphere {
    /// Negative radii are clamped to zero at construction, silently.
    pub fn new(center: Vec3, radius: i64, mat: Material) -> (s: Self)
        ensures
            s.center@ == center@,
            s.radius == (if radius < 0 {
                0int
            } else {
                radius as int
            }),
            s.mat == mat,
    {
        Self { center, radius: if radius < 0 { 0 } else { radius }, mat }
    }

    /// The closest hit strictly inside (t_min, t_max), exactly as
    /// `s_sphere_hit` lays it out. Beyond the quadratic, `None` also
    /// answers inputs or hit points outside the fixed-point envelope
    /// (`s_hit_inputs_ok`, `s_sphere_hit_at`) — the adaptation of the
    /// original unbounded real-number domain, stated in the spec function
    /// rather than assumed away.
    pub fn hit(&self, r: &Ray, ray_t_min: i64, ray_t_max: i64) -> (res: Option<HitRecord>)
        ensures
            res is Some <==> s_sphere_hit(
                self.center@,
                self.radius as int,
                self.mat,
                r@,
                ray_t_min as int,
                ray_t_max as int,
            ) is Some,
            res matches Some(rec) ==> s_sphere_hit(
                self.center@,
                self.radius as int,
                self.mat,
                r@,
                ray_t_min as int,
                ray_t_max as int,
            ) == Some(rec@),
            res matches Some(rec) ==> ray_t_min < rec@.t < ray_t_max && s_in_range(
                rec@.p,
                POS_RANGE as int,
            ) && s_in_range(rec@.normal, UNIT_RANGE as int) && rec@.mat == self.mat,
    {
        let ghost spec_res = s_sphere_hit(
            self.center@,
            self.radius as int,
            self.mat,
            r@,
            ray_t_min as int,
            ray_t_max as int,
        );
        if !(r.origin.in_range(POS_RANGE) && r.direction.in_range(DIR_RANGE)
            && self.center.in_range(POS_RANGE) && 1 <= self.radius && self.radius <= POS_RANGE
            && -T_RANGE <= ray_t_min && ray_t_min <= ray_t_max && ray_t_max <= T_RANGE) {
            return None;
        }
        let oc = r.origin.sub(&self.center);
        let a = r.direction.length_squared();
        let h = oc.dot(&r.direction);
        proof {
            lemma_fmul_range(r@.dir.x, r@.dir.x, 0x400_0000, 0x400_0000, 0x10_0000_0000);
            lemma_fmul_range(r@.dir.y, r@.dir.y, 0x400_0000, 0x400_0000, 0x10_0000_0000);
            lemma_fmul_range(r@.dir.z, r@.dir.z, 0x400_0000, 0x400_0000, 0x10_0000_0000);
            lemma_fmul_range(oc@.x, r@.dir.x, 0x200_0000, 0x400_0000, 0x8_0000_0000);
            lemma_fmul_range(oc@.y, r@.dir.y, 0x200_0000, 0x400_0000, 0x8_0000_0000);
            lemma_fmul_range(oc@.z, r@.dir.z, 0x200_0000, 0x400_0000, 0x8_0000_0000);
            lemma_fmul_range(oc@.x, oc@.x, 0x200_0000, 0x200_0000, 0x4_0000_0000);
            lemma_fmul_range(oc@.y, oc@.y, 0x200_0000, 0x200_0000, 0x4_0000_0000);
            lemma_fmul_range(oc@.z, oc@.z, 0x200_0000, 0x200_0000, 0x4_0000_0000);
            lemma_fmul_range(self.radius as int, self.radius as int, 0x100_0000, 0x100_0000, 0x1_0000_0000);
            lemma_fmul_self_nonneg(r@.dir.x);
            lemma_fmul_self_nonneg(r@.dir.y);
            lemma_fmul_self_nonneg(r@.dir.z);
        }
        let c = oc.length_squared() - fx_mul(self.radius, self.radius);
        proof {
            lemma_fmul_range(h as int, h as int, 0x18_0000_0000, 0x18_0000_0000, 0x240_0000_0000_0000);
            lemma_fmul_range(a as int, c as int, 0x30_0000_0000, 0xd_0000_0000, 0x270_0000_0000_0000);
        }
        let disc = fx_mul(h, h) - fx_mul(a, c);
        if a == 0 || disc < 0 {
            return None;
        }
        let sqrtd = fx_sqrt(disc);
        let mut root = fx_div(0 - h - sqrtd, a);
        if root <= ray_t_min || ray_t_max <= root {
            root = fx_div(0 - h + sqrtd, a);
            if root <= ray_t_min || ray_t_max <= root {
                return None;
            }
        }
        let p = r.at(root);
        if !p.in_range(POS_RANGE) {
            return None;
        }
        let outward = p.sub(&self.center).div_s(self.radius).clamp(-UNIT_RANGE, UNIT_RANGE);
        let rec = HitRecord::new(p, root, r, outward, self.mat);
        proof {
            assert(spec_res == Some(rec@));
        }
        Some(rec)
    }
}


/// What a successful intersection guarantees: the parameter lies strictly
/// inside the window, the hit point and (clamped) normal lie in their
/// envelopes, the record carries this sphere's material, and the inputs were
/// acceptable at all.
pub proof fn lemma_sphere_hit_props(
    center: V3,
    radius: int,
    mat: Material,
    r: R3,
    tmin: int,
    tmax: int,
)
    ensures
        s_sphere_hit(center, radius, mat, r, tmin, tmax) matches Some(h) ==> {
            &&& tmin < h.t < tmax
            &&& s_in_range(h.p, POS_RANGE as int)
            &&& s_in_range(h.normal, UNIT_RANGE as int)
            &&& h.mat == mat
            &&& s_hit_inputs_ok(center, radius, r, tmin, tmax)
        },
{
}

/// Narrowing the window cannot create a hit: if the scan window (t_min, w1)
/// produced no hit, or a hit no closer than w2, then the narrower window
/// (t_min, w2) produces none.
pub proof fn lemma_sphere_hit_narrow(
    center: V3,
    radius: int,
    mat: Material,
    r: R3,
    tmin: int,
    w1: int,
    w2: int,
)
    requires
        tmin <= w2 <= w1 <= T_RANGE,
        match s_sphere_hit(center, radius, mat, r, tmin, w1) {
            Some(h) => h.t >= w2,
            None => true,
        },
    ensures
        s_sphere_hit(center, radius, mat, r, tmin, w2) is None,
{
    if s_hit_inputs_ok(center, radius, r, tmin, w2) {
        assert(s_hit_inputs_ok(center, radius, r, tmin, w1));
        let oc = s_subv(r.orig, center);
        let a = s_len_sq(r.dir);
        let h = s_dot(oc, r.dir);
        let c = s_len_sq(oc) - fmul(radius, radius);
        let disc = fmul(h, h) - fmul(a, c);
        if !(a == 0 || disc < 0) {
            crate::fixed::lemma_fmul_self_nonneg(r.dir.x);
            crate::fixed::lemma_fmul_self_nonneg(r.dir.y);
            crate::fixed::lemma_fmul_self_nonneg(r.dir.z);
            let sq = fsqrt(disc);
            crate::fixed::lemma_isqrt(disc * SCALE);
            let root1 = fdiv(-h - sq, a);
            let root2 = fdiv(-h + sq, a);
            crate::fixed::lemma_tdiv_mono((-h - sq) * SCALE, (-h + sq) * SCALE, a);
            assert((-h - sq) * SCALE <= (-h + sq) * SCALE) by (nonlinear_arith)
                requires
                    sq >= 0,
                    SCALE > 0,
            ;
            assert(root1 <= root2);
        }
    }
}

/// A ray fired from distance `dist` straight down the axis at a sphere of
/// radius `radius` centred at the origin hits its front face at a parameter
/// within one fixed-point step of `dist - radius`. The law is stated for
/// the axis-aligned family: there the arithmetic is exact, while a general
/// direction first passes through truncated normalization, whose error the
/// tests exercise instead.
pub proof fn lemma_sphere_head_on(dist: int, radius: int, mat: Material, tmin: int, tmax: int)
    requires
        32769 <= radius <= POS_RANGE,
        radius < dist <= POS_RANGE,
        0 <= tmin < dist - radius,
        dist - radius + 1 < tmax <= T_RANGE,
    ensures
        ({
            let r = R3 {
                orig: V3 { x: 0, y: 0, z: dist },
                dir: V3 { x: 0, y: 0, z: -SCALE as int },
            };
            &&& s_sphere_hit(V3 { x: 0, y: 0, z: 0 }, radius, mat, r, tmin, tmax) matches Some(h)
            &&& dist - radius <= h.t <= dist - radius + 1
            &&& h.front_face
        }),
{
    let r = R3 { orig: V3 { x: 0, y: 0, z: dist }, dir: V3 { x: 0, y: 0, z: -SCALE as int } };
    let center = V3 { x: 0, y: 0, z: 0 };
    assert(s_hit_inputs_ok(center, radius, r, tmin, tmax));
    let oc = s_subv(r.orig, center);
    crate::fixed::lemma_scale_cancel(0);
    crate::fixed::lemma_scale_cancel(-(SCALE as int));
    crate::fixed::lemma_scale_cancel(dist);
    crate::fixed::lemma_scale_cancel(-dist);
    assert((-SCALE as int) * (-SCALE as int) == SCALE * SCALE) by (nonlinear_arith);
    assert(dist * (-SCALE as int) == (-dist) * (SCALE as int)) by (nonlinear_arith);
    let a = s_len_sq(r.dir);
    assert(a == SCALE as int) by {
        assert(fmul(0, 0) == 0);
        assert(fmul(-SCALE as int, -SCALE as int) == tdiv(SCALE as int * SCALE, SCALE as int));
        crate::fixed::lemma_scale_cancel(SCALE as int);
    }
    let h = s_dot(oc, r.dir);
    assert(h == -dist) by {
        assert(fmul(0, 0) == 0);
        assert(fmul(dist, -SCALE as int) == tdiv((-dist) * SCALE, SCALE as int));
    }
    let c = s_len_sq(oc) - fmul(radius, radius);
    assert(s_len_sq(oc) == fmul(dist, dist)) by {
        assert(fmul(0, 0) == 0);
    }
    let disc = fmul(h, h) - fmul(a, c);
    assert(fmul(h, h) == fmul(dist, dist)) by {
        assert((-dist) * (-dist) == dist * dist) by (nonlinear_arith);
    }
    assert(fmul(a, c) == c) by {
        crate::fixed::lemma_scale_cancel(c);
        crate::fixed::lemma_fmul_comm(SCALE as int, c);
    }
    assert(disc == fmul(radius, radius));
    crate::fixed::lemma_fmul_self_nonneg(radius);
    // the square root of the discriminant is within one step of the radius
    crate::fixed::lemma_tdiv(radius * radius, SCALE as int);
    assert(radius * radius >= 0) by (nonlinear_arith);
    let sq = fsqrt(disc);
    assert(disc * SCALE <= radius * radius);
    crate::fixed::lemma_isqrt_le(disc * SCALE, radius);
    assert(disc * SCALE == SCALE * disc) by (nonlinear_arith);
    assert(disc * SCALE >= radius * radius - SCALE + 1);
    assert((radius - 1) * (radius - 1) <= radius * radius - SCALE + 1) by (nonlinear_arith)
        requires
            radius >= 32769,
            SCALE == 65536,
    ;
    crate::fixed::lemma_isqrt_ge(disc * SCALE, radius - 1);
    assert(radius - 1 <= sq <= radius);
    // first root: distance minus the root of the discriminant, exactly
    let root1 = fdiv(-h - sq, a);
    assert(root1 == dist - sq) by {
        crate::fixed::lemma_scale_cancel(dist - sq);
    }
    assert(tmin < root1 && root1 < tmax);
    // the hit point is on the axis at the sphere's near surface
    let p = s_ray_at(r, root1);
    assert(p == (V3 { x: 0, y: 0, z: sq })) by {
        assert(fmul(root1, 0) == 0);
        assert(fmul(root1, -SCALE as int) == -root1) by {
            crate::fixed::lemma_scale_cancel(-root1);
            assert(root1 * (-SCALE as int) == (-root1) * (SCALE as int)) by (nonlinear_arith);
        }
    }
    assert(s_in_range(p, POS_RANGE as int));
    let outward = s_clampv(s_divs(s_subv(p, center), radius), -UNIT_RANGE as int, UNIT_RANGE as int);
    let oz = fdiv(sq, radius);
    crate::fixed::lemma_tdiv(sq * SCALE, radius);
    assert(sq * SCALE >= radius) by (nonlinear_arith)
        requires
            sq >= radius - 1,
            radius >= 32769,
            SCALE == 65536,
    ;
    assert(oz >= 1) by (nonlinear_arith)
        requires
            radius * oz + radius > sq * SCALE,
            sq * SCALE >= radius,
            radius > 0,
    ;
    assert(oz * radius <= sq * SCALE);
    assert(oz <= SCALE) by (nonlinear_arith)
        requires
            oz * radius <= sq * SCALE,
            sq <= radius,
            radius > 0,
            SCALE > 0,
            oz >= 0,
    ;
    assert(outward == (V3 { x: 0, y: 0, z: oz })) by {
        assert(fdiv(0, radius) == 0) by {
            crate::fixed::lemma_tdiv(0, radius);
        }
    }
    assert(s_dot(r.dir, outward) == -oz) by {
        assert(fmul(0, 0) == 0);
        assert(fmul(-SCALE as int, oz) == -oz) by {
            crate::fixed::lemma_scale_cancel(-oz);
            assert((-SCALE as int) * oz == (-oz) * SCALE) by (nonlinear_arith);
        }
    }
    assert(s_dot(r.dir, outward) < 0);
}

/// A ray fired from outside the sphere, straight away from it, never hits.
pub proof fn lemma_sphere_aimed_away(dist: int, radius: int, mat: Material, tmin: int, tmax: int)
    requires
        32769 <= radius <= POS_RANGE,
        radius < dist <= POS_RANGE,
        0 <= tmin <= tmax <= T_RANGE,
    ensures
        s_sphere_hit(
            V3 { x: 0, y: 0, z: 0 },
            radius,
            mat,
            R3 { orig: V3 { x: 0, y: 0, z: dist }, dir: V3 { x: 0, y: 0, z: SCALE as int } },
            tmin,
            tmax,
        ) is None,
{
    let r = R3 { orig: V3 { x: 0, y: 0, z: dist }, dir: V3 { x: 0, y: 0, z: SCALE as int } };
    let center = V3 { x: 0, y: 0, z: 0 };
    crate::fixed::lemma_scale_cancel(SCALE as int);
    crate::fixed::lemma_scale_cancel(dist);
    let a = s_len_sq(r.dir);
    assert(a == SCALE as int) by {
        assert(fmul(0, 0) == 0);
    }
    let oc = s_subv(r.orig, center);
    let h = s_dot(oc, r.dir);
    assert(h == dist) by {
        assert(fmul(0, 0) == 0);
    }
    let c = s_len_sq(oc) - fmul(radius, radius);
    let disc = fmul(h, h) - fmul(a, c);
    if !(a == 0 || disc < 0) {
        let sq = fsqrt(disc);
        crate::fixed::lemma_isqrt(disc * SCALE);
        // the root of the discriminant stays below the distance
        assert(s_len_sq(oc) == fmul(dist, dist)) by {
            assert(fmul(0, 0) == 0);
        }
        assert(fmul(h, h) == fmul(dist, dist));
        assert(fmul(a, c) == c) by {
            crate::fixed::lemma_scale_cancel(c);
            crate::fixed::lemma_fmul_comm(SCALE as int, c);
        }
        assert(disc == fmul(radius, radius));
        crate::fixed::lemma_tdiv(radius * radius, SCALE as int);
        crate::fixed::lemma_isqrt_le(disc * SCALE, radius);
        let sq2 = sq;
        assert(sq2 <= radius);
        let root1 = fdiv(-h - sq, a);
        let root2 = fdiv(-h + sq, a);
        assert(root1 == -(dist + sq)) by {
            crate::fixed::lemma_scale_cancel(-(dist + sq));
        }
        assert(root2 == sq - dist) by {
            crate::fixed::lemma_scale_cancel(sq - dist);
        }
        assert(root1 <= tmin);
        assert(root2 <= tmin);
    }
}

impl Hittable for Sphere {
    fn hit(&self, r: &Ray, t_min: i64, t_max: i64) -> Option<HitRecord> {
        Sphere::hit(self, r, t_min, t_max)
    }
}

} // verus!
