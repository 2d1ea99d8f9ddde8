//! Hit records and the capability of being hit by a ray.

use vstd::prelude::*;
use crate::material::Material;
use crate::ray::R3;
use crate::ray::Ray;
use crate::vec3::V3;
use crate::vec3::Vec3;
use crate::vec3::VEC_DOT_RANGE;
use crate::vec3::s_dot;
use crate::vec3::s_in_range;
use crate::vec3::s_negv;

verus! {

/// The scene envelope: positions the intersection routines work within.
pub const POS_RANGE: i64 = 0x100_0000;

/// The scene envelope: ray directions the intersection routines work within.
pub const DIR_RANGE: i64 = 0x400_0000;

/// The widest parametric window the intersection routines work within.
pub const T_RANGE: i64 = 0x40_0000_0000;

/// Spec-level image of a hit record.
pub struct HitV {
    pub p: V3,
    pub normal: V3,
    pub t: int,
    pub front_face: bool,
    pub mat: Material,
}

/// Build a hit record: the normal is reoriented to oppose the incoming ray,
/// and `front_face` records whether the geometric normal already did.
pub open spec fn s_hit_record(p: V3, t: int, r: R3, outward: V3, mat: Material) -> HitV {
    let front = s_dot(r.dir, outward) < 0;
    HitV {
        p,
        normal: if front {
            outward
        } else {
            s_negv(outward)
        },
        t,
        front_face: front,
        mat,
    }
}

/// A successful intersection: hit point, reoriented surface normal,
/// parametric distance, orientation flag, and the material at the point.
/// Records are created per `hit` call and consumed at once, never stored.
#[derive(Clone, Copy, Debug)]
pub struct HitRecord {
    pub p: Vec3,
    pub normal: Vec3,
    pub t: i64,
    pub front_face: bool,
    pub mat: Material,
}

impl View for HitRecord {
    type V = HitV;

    open spec fn view(&self) -> HitV {
        HitV {
            p: self.p@,
            normal: self.normal@,
            t: self.t as int,
            front_face: self.front_face,
            mat: self.mat,
        }
    }
}

impl HitRecord {
    pub fn new(p: Vec3, t: i64, r: &Ray, outward_normal: Vec3, mat: Material) -> (rec: Self)
        requires
            s_in_range(r@.dir, VEC_DOT_RANGE as int),
            s_in_range(outward_normal@, VEC_DOT_RANGE as int),
        ensures
            rec@ == s_hit_record(p@, t as int, r@, outward_normal@, mat),
    {
        let front_face = r.direction.dot(&outward_normal) < 0;
        let normal = if front_face {
            outward_normal
        } else {
            outward_normal.neg()
        };
        Self { p, normal, t, front_face, mat }
    }
}

/// Geometry a ray can strike within a parametric window. The concrete
/// shapes' inherent `hit` methods carry the exact contracts; this capability
/// only fixes the shape of the question.
pub trait Hittable {
    /// The closest hit strictly inside (t_min, t_max), if any.
    fn hit(&self, r: &Ray, t_min: i64, t_max: i64) -> Option<HitRecord>;
}

} // verus!
