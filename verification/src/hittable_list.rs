//! A flat list of spheres, itself hittable: the closest hit wins.

use vstd::prelude::*;
use crate::hittable::HitRecord;
use crate::hittable::HitV;
use crate::hittable::Hittable;
use crate::ray::R3;
use crate::ray::Ray;
use crate::sphere::Sphere;
use crate::material::s_mat_wf;
use crate::sphere::s_sphere_hit;
use vstd::prelude::Seq;

verus! {

/// The scan of the first `i` objects: each object is tested against a
/// window narrowed to the closest `t` accepted so far, so a later accepted
/// hit is always strictly closer.
pub open spec fn s_list_hit_upto(
    objs: Seq<Sphere>,
    r: R3,
    tmin: int,
    tmax: int,
    i: int,
) -> Option<HitV>
    decreases i,
{
    if i <= 0 {
        None
    } else {
        let prev = s_list_hit_upto(objs, r, tmin, tmax, i - 1);
        let cur_max = match prev {
            Some(h) => h.t,
            None => tmax,
        };
        match s_sphere_hit(
            objs[i - 1].center@,
            objs[i - 1].radius as int,
            objs[i - 1].mat,
            r,
            tmin,
            cur_max,
        ) {
            Some(h) => Some(h),
            None => prev,
        }
    }
}

/// The closest hit over the whole list.
pub open spec fn s_list_hit(objs: Seq<Sphere>, r: R3, tmin: int, tmax: int) -> Option<HitV> {
    s_list_hit_upto(objs, r, tmin, tmax, objs.len() as int)
}

/// A scene whose materials all meet the representation limits that
/// rendering asks for.
pub open spec fn s_scene_wf(objs: Seq<Sphere>) -> bool {
    forall|k: int| 0 <= k < objs.len() ==> s_mat_wf(#[trigger] objs[k].mat)
}

/// An ordered collection of spheres, constructed once and read-only during
/// rendering.
#[derive(Debug)]
pub struct HittableList {
    pub objects: Vec<Sphere>,
}

impl HittableList {
    pub fn new() -> (l: Self)
        ensures
            l.objects@ =~= Seq::<Sphere>::empty(),
    {
        Self { objects: Vec::new() }
    }

    pub fn with_capacity(cap: usize) -> (l: Self)
        ensures
            l.objects@ =~= Seq::<Sphere>::empty(),
    {
        Self { objects: Vec::with_capacity(cap) }
    }

    /// Append an object to the scene.
    pub fn add(&mut self, object: Sphere)
        ensures
            final(self).objects@ == old(self).objects@.push(object),
    {
        self.objects.push(object);
    }

    /// Append an object to the scene.
    pub fn push(&mut self, v: Sphere)
        ensures
            final(self).objects@ == old(self).objects@.push(v),
    {
        self.objects.push(v);
    }

    pub fn clear(&mut self)
        ensures
            final(self).objects@ =~= Seq::<Sphere>::empty(),
    {
        self.objects.clear()
    }

    /// Whether every material in the scene meets the representation limits
    /// that rendering asks for.
    pub fn wf(&self) -> (b: bool)
        ensures
            b == s_scene_wf(self.objects@),
    {
        let mut k: usize = 0;
        while k < self.objects.len()
            invariant
                k <= self.objects.len(),
                forall|i: int| 0 <= i < k ==> s_mat_wf(#[trigger] self.objects@[i].mat),
            decreases self.objects.len() - k,
        {
            if !self.objects[k].mat.wf() {
                return false;
            }
            k = k + 1;
        }
        true
    }

    /// Linear scan for the closest hit: each candidate is tested only up to
    /// the closest `t` so far, so the returned record (if any) is the
    /// nearest along the ray.
    pub fn hit(&self, r: &Ray, t_min: i64, t_max: i64) -> (res: Option<HitRecord>)
        ensures
            res is Some <==> s_list_hit(self.objects@, r@, t_min as int, t_max as int) is Some,
            res matches Some(rec) ==> s_list_hit(self.objects@, r@, t_min as int, t_max as int)
                == Some(rec@),
    {
        let mut closest = t_max;
        let mut result: Option<HitRecord> = None;
        let mut idx: usize = 0;
        while idx < self.objects.len()
            invariant
                0 <= idx <= self.objects.len(),
                match result {
                    Some(rec) => s_list_hit_upto(
                        self.objects@,
                        r@,
                        t_min as int,
                        t_max as int,
                        idx as int,
                    ) == Some(rec@) && closest == rec@.t,
                    None => s_list_hit_upto(
                        self.objects@,
                        r@,
                        t_min as int,
                        t_max as int,
                        idx as int,
                    ) is None && closest == t_max,
                },
            decreases self.objects.len() - idx,
        {
            let obj = &self.objects[idx];
            if let Some(rec) = obj.hit(r, t_min, closest) {
                closest = rec.t;
                result = Some(rec);
            }
            idx = idx + 1;
        }
        result
    }
}


/// What a successful list scan guarantees: the record's parameter lies
/// strictly inside the original window, its geometry lies in the envelopes,
/// its material belongs to one of the scanned objects, and the ray itself
/// was inside the envelope.
pub proof fn lemma_list_hit_upto_props(objs: Seq<Sphere>, r: R3, tmin: int, tmax: int, i: int)
    requires
        0 <= i <= objs.len(),
        tmin <= tmax,
    ensures
        s_list_hit_upto(objs, r, tmin, tmax, i) matches Some(h) ==> {
            &&& tmin < h.t < tmax
            &&& crate::vec3::s_in_range(h.p, crate::hittable::POS_RANGE as int)
            &&& crate::vec3::s_in_range(h.normal, crate::vec3::UNIT_RANGE as int)
            &&& exists|k: int| 0 <= k < i && objs[k].mat == h.mat
            &&& crate::vec3::s_in_range(r.orig, crate::hittable::POS_RANGE as int)
            &&& crate::vec3::s_in_range(r.dir, crate::hittable::DIR_RANGE as int)
        },
    decreases i,
{
    if i > 0 {
        lemma_list_hit_upto_props(objs, r, tmin, tmax, i - 1);
        let prev = s_list_hit_upto(objs, r, tmin, tmax, i - 1);
        let cur_max: int = match prev {
            Some(h) => h.t,
            None => tmax,
        };
        crate::sphere::lemma_sphere_hit_props(
            objs[i - 1].center@,
            objs[i - 1].radius as int,
            objs[i - 1].mat,
            r,
            tmin,
            cur_max,
        );
        match s_list_hit_upto(objs, r, tmin, tmax, i) {
            Some(h) => {
                match s_sphere_hit(
                    objs[i - 1].center@,
                    objs[i - 1].radius as int,
                    objs[i - 1].mat,
                    r,
                    tmin,
                    cur_max,
                ) {
                    Some(hh) => {
                        assert(objs[i - 1].mat == h.mat);
                        assert(0 <= i - 1 < i && objs[i - 1].mat == h.mat);
                    },
                    None => {
                        let k = choose|k: int| 0 <= k < i - 1 && objs[k].mat == h.mat;
                        assert(0 <= k < i && objs[k].mat == h.mat);
                    },
                }
            },
            None => {},
        }
    }
}

/// The narrowed window the scan of the first `i` objects leaves behind: the
/// closest accepted parameter, or the original window's far end.
pub open spec fn s_scan_max(objs: Seq<Sphere>, r: R3, tmin: int, tmax: int, i: int) -> int {
    match s_list_hit_upto(objs, r, tmin, tmax, i) {
        Some(h) => h.t,
        None => tmax,
    }
}

/// The closest-hit law, over a scanned prefix: no scanned object has a hit
/// strictly closer than the scan's result.
proof fn lemma_list_closest_upto(objs: Seq<Sphere>, r: R3, tmin: int, tmax: int, i: int)
    requires
        0 <= i <= objs.len(),
        -crate::hittable::T_RANGE <= tmin <= tmax <= crate::hittable::T_RANGE,
    ensures
        tmin <= s_scan_max(objs, r, tmin, tmax, i) <= tmax,
        forall|k: int| 0 <= k < i ==> s_sphere_hit(
            objs[k].center@,
            objs[k].radius as int,
            objs[k].mat,
            r,
            tmin,
            s_scan_max(objs, r, tmin, tmax, i),
        ) is None,
    decreases i,
{
    lemma_list_hit_upto_props(objs, r, tmin, tmax, i);
    if i > 0 {
        lemma_list_closest_upto(objs, r, tmin, tmax, i - 1);
        lemma_list_hit_upto_props(objs, r, tmin, tmax, i - 1);
        let prev_max = s_scan_max(objs, r, tmin, tmax, i - 1);
        let cur_max = s_scan_max(objs, r, tmin, tmax, i);
        let step = s_sphere_hit(
            objs[i - 1].center@,
            objs[i - 1].radius as int,
            objs[i - 1].mat,
            r,
            tmin,
            prev_max,
        );
        crate::sphere::lemma_sphere_hit_props(
            objs[i - 1].center@,
            objs[i - 1].radius as int,
            objs[i - 1].mat,
            r,
            tmin,
            prev_max,
        );
        match step {
            Some(hh) => {
                assert(cur_max == hh.t);
                assert(tmin < cur_max < prev_max);
                assert forall|k: int| 0 <= k < i implies s_sphere_hit(
                    objs[k].center@,
                    objs[k].radius as int,
                    objs[k].mat,
                    r,
                    tmin,
                    cur_max,
                ) is None by {
                    crate::sphere::lemma_sphere_hit_narrow(
                        objs[k].center@,
                        objs[k].radius as int,
                        objs[k].mat,
                        r,
                        tmin,
                        prev_max,
                        cur_max,
                    );
                }
            },
            None => {
                assert(cur_max == prev_max);
            },
        }
    }
}

/// The closest-hit law: whatever record the scan of the whole list returns,
/// no object in the list has a hit strictly closer along the ray. In
/// particular, over two overlapping spheres the record with the smaller
/// parameter wins.
pub proof fn lemma_list_hit_is_closest(objs: Seq<Sphere>, r: R3, tmin: int, tmax: int)
    requires
        -crate::hittable::T_RANGE <= tmin <= tmax <= crate::hittable::T_RANGE,
    ensures
        s_list_hit(objs, r, tmin, tmax) matches Some(h) ==> forall|k: int|
            0 <= k < objs.len() ==> s_sphere_hit(
                objs[k].center@,
                objs[k].radius as int,
                objs[k].mat,
                r,
                tmin,
                h.t,
            ) is None,
{
    lemma_list_closest_upto(objs, r, tmin, tmax, objs.len() as int);
}

impl Hittable for HittableList {
    fn hit(&self, r: &Ray, t_min: i64, t_max: i64) -> Option<HitRecord> {
        HittableList::hit(self, r, t_min, t_max)
    }
}

} // verus!
