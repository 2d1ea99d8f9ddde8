//! Rays: an origin point and a direction vector.

use vstd::prelude::*;
use crate::vec3::Vec3;
use crate::vec3::V3;
use crate::vec3::s_addv;
use crate::vec3::s_scalev;
use crate::vec3::s_in_range;
use crate::vec3::VEC_ADD_RANGE;
use crate::vec3::VEC_MUL_RANGE;

verus! {

/// Spec-level image of a ray.
pub struct R3 {
    pub orig: V3,
    pub dir: V3,
}

/// The point the ray reaches at parameter `t`: origin plus `t` times the
/// direction.
pub open spec fn s_ray_at(r: R3, t: int) -> V3 {
    s_addv(r.orig, s_scalev(t, r.dir))
}

/// A ray; neither field is mutated after construction.
#[derive(Clone, Copy, Debug)]
pub struct Ray {
    pub origin: Vec3,
    pub direction: Vec3,
}

impl View for Ray {
    type V = R3;

    open spec fn view(&self) -> R3 {
        R3 { orig: self.origin@, dir: self.direction@ }
    }
}

impl Ray {
    pub fn new(origin: Vec3, direction: Vec3) -> (r: Self)
        ensures
            r@ == (R3 { orig: origin@, dir: direction@ }),
    {
        Self { origin, direction }
    }

    /// Evaluate the ray at parameter `t`. Range checks are the caller's
    /// affair, as they are for intersection windows.
    pub fn at(&self, t: i64) -> (r: Vec3)
        requires
            s_in_range(self@.orig, VEC_ADD_RANGE as int / 2),
            s_in_range(self@.dir, 0x40_0000_0000),
            -0x40_0000_0000 <= t <= 0x40_0000_0000,
        ensures
            r@ == s_ray_at(self@, t as int),
    {
        proof {
            crate::fixed::lemma_fmul_range(t as int, self@.dir.x, 0x40_0000_0000, 0x40_0000_0000, 0x1000_0000_0000_0000);
            crate::fixed::lemma_fmul_range(t as int, self@.dir.y, 0x40_0000_0000, 0x40_0000_0000, 0x1000_0000_0000_0000);
            crate::fixed::lemma_fmul_range(t as int, self@.dir.z, 0x40_0000_0000, 0x40_0000_0000, 0x1000_0000_0000_0000);
        }
        self.origin.add(&self.direction.scale(t))
    }
}

} // verus!
