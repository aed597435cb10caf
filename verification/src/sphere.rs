//! Scene geometry: ray/sphere intersection and the closest-hit scan over an
//! object list.

use crate::fixed::{
    fx_add, fx_div, fx_mul, fx_sqrt, fx_sub, lemma_sat_div_mono, sat_add, sat_div, sat_mul,
    sat_sqrt, sat_sub,
};
use crate::interval::{itv_surrounds, Interval};
use crate::material::{Lambertian, Material};
use crate::ray::{ray_at, Origin, Point3, Ray};
use crate::vec3::{sv_divs, sv_dot, sv_len_sq, sv_neg, sv_sub, sv_zero, Vec3};
use vstd::prelude::*;

verus! {

/// The outcome of a successful intersection.  The stored normal always faces
/// the incoming ray: `front_face` says whether it is the outward normal.
#[derive(Clone, Copy, PartialEq, Eq, Structural, Debug)]
pub struct HitRecord {
    pub p: Point3,
    pub normal: Vec3,
    pub t: i64,
    pub front_face: bool,
    pub mat: Material,
}

#[derive(Clone, Copy, PartialEq, Eq, Structural, Debug)]
pub struct Sphere {
    pub center: Point3,
    pub radius: i64,
    pub mat: Material,
}

#[derive(Clone, Copy, PartialEq, Eq, Structural, Debug)]
pub enum HittableObject {
    Sphere(Sphere),
}

/// An unordered collection of primitives; intersection resolves the closest
/// hit along a ray.
#[derive(Clone, Debug)]
pub struct HittableList {
    objects: Vec<HittableObject>,
}

/// Whether the ray strikes the outward face: its direction runs against the
/// outward normal.
pub open spec fn ff_front(r: Ray, outward: Vec3) -> bool {
    sv_dot(r.dir, outward) < 0
}

/// The stored normal: the outward normal turned to face the incoming ray.
pub open spec fn ff_normal(r: Ray, outward: Vec3) -> Vec3 {
    if ff_front(r, outward) {
        outward
    } else {
        sv_neg(outward)
    }
}

/// Things that intersect rays.  Each implementation fixes what its result
/// must satisfy through `hit_post`.
pub trait Hit {
    spec fn hit_post(&self, r: Ray, ray_t: Interval, res: Option<HitRecord>) -> bool;

    fn hit(&self, r: Ray, ray_t: Interval) -> (res: Option<HitRecord>)
        ensures
            self.hit_post(r, ray_t, res),
    ;
}

/// Types with a canonical fresh value.
pub trait New: Sized {
    spec fn new_post(r: Self) -> bool;

    fn new() -> (r: Self)
        ensures
            Self::new_post(r),
    ;
}

/// Containers that can be emptied.
pub trait Clear {
    spec fn clear_post(&self) -> bool;

    fn clear(&mut self)
        ensures
            final(self).clear_post(),
    ;
}

/// Containers of primitives that grow by appending.
pub trait Add: View<V = Seq<HittableObject>> {
    fn add(&mut self, rhs: HittableObject)
        ensures
            final(self)@ == old(self)@.push(rhs),
    ;
}

// --- the quadratic of a ray against a sphere, in the fixed-point algebra ---
pub open spec fn sphere_oc(s: Sphere, r: Ray) -> Vec3 {
    sv_sub(s.center, r.orig)
}

pub open spec fn sphere_a(r: Ray) -> int {
    sv_len_sq(r.dir)
}

pub open spec fn sphere_h(s: Sphere, r: Ray) -> int {
    sv_dot(sphere_oc(s, r), r.dir)
}

pub open spec fn sphere_c(s: Sphere, r: Ray) -> int {
    sat_sub(sv_len_sq(sphere_oc(s, r)), sat_mul(s.radius as int, s.radius as int))
}

pub open spec fn sphere_disc(s: Sphere, r: Ray) -> int {
    sat_sub(
        sat_mul(sphere_h(s, r), sphere_h(s, r)),
        sat_mul(sphere_a(r), sphere_c(s, r)),
    )
}

/// The smaller quadratic root `(h - sqrt(disc)) / a`.
pub open spec fn sphere_root_low(s: Sphere, r: Ray) -> int
    recommends
        sphere_a(r) > 0,
{
    sat_div(sat_sub(sphere_h(s, r), sat_sqrt(sphere_disc(s, r))), sphere_a(r))
}

/// The larger quadratic root `(h + sqrt(disc)) / a`.
pub open spec fn sphere_root_high(s: Sphere, r: Ray) -> int
    recommends
        sphere_a(r) > 0,
{
    sat_div(sat_add(sphere_h(s, r), sat_sqrt(sphere_disc(s, r))), sphere_a(r))
}

/// The record a sphere produces for hit parameter `t`: the hit point, the
/// face-corrected normal `(p - center) / radius`, and the sphere's material.
pub open spec fn sphere_hit_record(s: Sphere, r: Ray, t: int) -> HitRecord
    recommends
        s.radius != 0,
{
    let p = ray_at(r, t);
    let outward = sv_divs(sv_sub(p, s.center), s.radius as int);
    HitRecord {
        p,
        normal: ff_normal(r, outward),
        t: t as i64,
        front_face: ff_front(r, outward),
        mat: s.mat,
    }
}

/// Ray/sphere intersection: no hit when the discriminant is negative (or the
/// geometry is degenerate); otherwise the smaller root if the interval
/// strictly surrounds it, else the larger root, else no hit.
pub open spec fn sphere_hit(s: Sphere, r: Ray, ray_t: Interval) -> Option<HitRecord> {
    if s.radius == 0 || sphere_a(r) <= 0 || sphere_disc(s, r) < 0 {
        None
    } else if itv_surrounds(ray_t, sphere_root_low(s, r)) {
        Some(sphere_hit_record(s, r, sphere_root_low(s, r)))
    } else if itv_surrounds(ray_t, sphere_root_high(s, r)) {
        Some(sphere_hit_record(s, r, sphere_root_high(s, r)))
    } else {
        None
    }
}

/// The smaller root never exceeds the larger one, so a returned hit parameter
/// is the nearest root inside the interval.
pub proof fn lemma_sphere_roots_ordered(s: Sphere, r: Ray)
    requires
        sphere_a(r) > 0,
    ensures
        sphere_root_low(s, r) <= sphere_root_high(s, r),
{
    let h = sphere_h(s, r);
    let sq = sat_sqrt(sphere_disc(s, r));
    assert(sq >= 0);
    lemma_sat_div_mono(sat_sub(h, sq), sat_add(h, sq), sphere_a(r));
}

/// A successful hit carries the smallest root that the interval strictly
/// surrounds; no hit means the interval surrounds neither root (or there are
/// no roots at all).
pub proof fn lemma_sphere_hit_nearest(s: Sphere, r: Ray, ray_t: Interval)
    requires
        s.radius != 0,
        sphere_a(r) > 0,
        sphere_disc(s, r) >= 0,
    ensures
        match sphere_hit(s, r, ray_t) {
            Some(rec) => {
                &&& rec.t as int == sphere_root_low(s, r) || rec.t as int == sphere_root_high(s, r)
                &&& itv_surrounds(ray_t, rec.t as int)
                &&& forall|t: int|
                    (t == sphere_root_low(s, r) || t == sphere_root_high(s, r))
                        && #[trigger] itv_surrounds(ray_t, t) ==> rec.t as int <= t
            },
            None => !itv_surrounds(ray_t, sphere_root_low(s, r)) && !itv_surrounds(
                ray_t,
                sphere_root_high(s, r),
            ),
        },
{
    lemma_sphere_roots_ordered(s, r);
}

/// What every successful sphere hit satisfies: the parameter lies strictly
/// inside the interval, the ray is not degenerate, and the record is the one
/// the hit parameter determines.
pub proof fn lemma_sphere_hit_props(s: Sphere, r: Ray, ray_t: Interval)
    ensures
        match sphere_hit(s, r, ray_t) {
            Some(rec) => itv_surrounds(ray_t, rec.t as int) && sv_len_sq(r.dir) > 0 && s.radius
                != 0 && rec == sphere_hit_record(s, r, rec.t as int) && rec.mat == s.mat,
            None => true,
        },
{
}

/// Shrinking only the upper end of the interval filters the same hit: the
/// result survives exactly when its parameter still lies below the new end.
pub proof fn lemma_sphere_hit_shrink(s: Sphere, r: Ray, t0: Interval, t1: Interval)
    requires
        t1.min == t0.min,
        t1.max <= t0.max,
    ensures
        sphere_hit(s, r, t1) == (match sphere_hit(s, r, t0) {
            Some(rec) => if (rec.t as int) < t1.max as int {
                Some(rec)
            } else {
                None::<HitRecord>
            },
            None => None::<HitRecord>,
        }),
{
    if s.radius == 0 || sphere_a(r) <= 0 || sphere_disc(s, r) < 0 {
    } else {
        lemma_sphere_roots_ordered(s, r);
        let low = sphere_root_low(s, r);
        let high = sphere_root_high(s, r);
        if itv_surrounds(t0, low) {
            if low < t1.max as int {
                assert(itv_surrounds(t1, low));
            } else {
                assert(!itv_surrounds(t1, low));
                assert(!itv_surrounds(t1, high));
            }
        } else if itv_surrounds(t0, high) {
            assert(low <= t0.min as int || low >= t0.max as int);
            assert(high < t0.max as int);
            assert(low <= t0.min as int);
            assert(!itv_surrounds(t1, low));
            if high < t1.max as int {
                assert(itv_surrounds(t1, high));
            } else {
                assert(!itv_surrounds(t1, high));
            }
        } else {
            assert(!itv_surrounds(t1, low));
            assert(!itv_surrounds(t1, high));
        }
    }
}

impl HitRecord {
    /// Stores the face flag and the normal turned toward the incoming ray.
    pub fn set_face_normal(&mut self, r: Ray, outward_normal: Vec3)
        ensures
            final(self).front_face == ff_front(r, outward_normal),
            final(self).normal == ff_normal(r, outward_normal),
            final(self).p == old(self).p,
            final(self).t == old(self).t,
            final(self).mat == old(self).mat,
    {
        self.front_face = r.dir.dot(outward_normal) < 0;
        self.normal = if self.front_face {
            outward_normal
        } else {
            outward_normal.neg()
        };
    }
}

impl New for HitRecord {
    open spec fn new_post(r: HitRecord) -> bool {
        r == (HitRecord {
            p: sv_zero(),
            normal: sv_zero(),
            t: 0,
            front_face: false,
            mat: Material::Lambertian(Lambertian { albedo: sv_zero() }),
        })
    }

    fn new() -> HitRecord {
        HitRecord {
            p: Vec3 { x: 0, y: 0, z: 0 },
            normal: Vec3 { x: 0, y: 0, z: 0 },
            t: 0,
            front_face: false,
            mat: Material::Lambertian(Lambertian { albedo: Vec3 { x: 0, y: 0, z: 0 } }),
        }
    }
}

impl Sphere {
    /// A sphere is constructed with its center, radius and material.
    pub fn new(center: Point3, radius: i64, mat: Material) -> (r: Sphere)
        ensures
            r == (Sphere { center, radius, mat }),
    {
        Sphere { center, radius, mat }
    }

    fn make_record(&self, r: Ray, t: i64) -> (rec: HitRecord)
        requires
            self.radius != 0,
        ensures
            rec == sphere_hit_record(*self, r, t as int),
    {
        let p: Vec3 = r.at(t);
        let outward_normal: Vec3 = p.sub(self.center).div(self.radius);
        let mut rec: HitRecord = New::new();
        rec.p = p;
        rec.t = t;
        rec.mat = self.mat;
        rec.set_face_normal(r, outward_normal);
        rec
    }
}

impl Origin for Sphere {
    open spec fn origin_spec(&self) -> Point3 {
        self.center
    }

    fn origin(&self) -> Point3 {
        self.center
    }
}

impl Hit for Sphere {
    open spec fn hit_post(&self, r: Ray, ray_t: Interval, res: Option<HitRecord>) -> bool {
        res == sphere_hit(*self, r, ray_t)
    }

    fn hit(&self, r: Ray, ray_t: Interval) -> (res: Option<HitRecord>) {
        if self.radius == 0 {
            return None;
        }
        let oc: Vec3 = self.center.sub(r.orig);
        let a: i64 = r.direction().length_squared();
        if a <= 0 {
            return None;
        }
        let h: i64 = oc.dot(r.dir);
        let c: i64 = fx_sub(oc.length_squared(), fx_mul(self.radius, self.radius));
        let discriminant: i64 = fx_sub(fx_mul(h, h), fx_mul(a, c));
        if discriminant < 0 {
            return None;
        }
        let sqrtd: i64 = fx_sqrt(discriminant);
        let root_low: i64 = fx_div(fx_sub(h, sqrtd), a);
        if ray_t.surrounds(root_low) {
            return Some(self.make_record(r, root_low));
        }
        let root_high: i64 = fx_div(fx_add(h, sqrtd), a);
        if ray_t.surrounds(root_high) {
            return Some(self.make_record(r, root_high));
        }
        None
    }
}

/// The hit rule of one scene object.  Opaque so that reasoning about whole
/// lists treats each object's hit as one atomic value.
#[verifier::opaque]
pub open spec fn obj_hit(o: HittableObject, r: Ray, ray_t: Interval) -> Option<HitRecord> {
    match o {
        HittableObject::Sphere(s) => sphere_hit(s, r, ray_t),
    }
}

impl Hit for HittableObject {
    open spec fn hit_post(&self, r: Ray, ray_t: Interval, res: Option<HitRecord>) -> bool {
        res == obj_hit(*self, r, ray_t)
    }

    fn hit(&self, r: Ray, ray_t: Interval) -> (res: Option<HitRecord>) {
        proof {
            reveal(obj_hit);
        }
        match self {
            HittableObject::Sphere(sphere) => sphere.hit(r, ray_t),
        }
    }
}

/// The material of one scene object.
pub open spec fn obj_mat(o: HittableObject) -> Material {
    match o {
        HittableObject::Sphere(s) => s.mat,
    }
}

/// Every material in the sequence is fit for scattering.
pub open spec fn list_materials_wf(objs: Seq<HittableObject>) -> bool {
    forall|i: int| 0 <= i < objs.len() ==> crate::material::material_wf(#[trigger] obj_mat(objs[i]))
}

/// The value the closest-hit scan computes over the first `n` objects: each
/// object is intersected against the window shrunk to the best parameter so
/// far, and a hit replaces the best.
pub open spec fn scan_hit(objs: Seq<HittableObject>, r: Ray, ray_t: Interval, n: int) -> Option<
    HitRecord,
>
    decreases n,
{
    if n <= 0 {
        None
    } else {
        let prev = scan_hit(objs, r, ray_t, n - 1);
        let closest = match prev {
            Some(p) => p.t,
            None => ray_t.max,
        };
        match obj_hit(objs[n - 1], r, Interval { min: ray_t.min, max: closest }) {
            Some(rec) => Some(rec),
            None => prev,
        }
    }
}

/// Every albedo in the sequence is a color with components in `[0, 1]`.
pub open spec fn list_albedos_unit(objs: Seq<HittableObject>) -> bool {
    forall|i: int|
        0 <= i < objs.len() ==> crate::material::material_albedo_unit(#[trigger] obj_mat(objs[i]))
}

/// No object among the first `n` hits the ray inside the interval.
pub open spec fn misses_all_upto(
    objs: Seq<HittableObject>,
    r: Ray,
    ray_t: Interval,
    n: int,
) -> bool {
    forall|i: int| 0 <= i < n ==> (#[trigger] obj_hit(objs[i], r, ray_t)) is None
}

/// No object among the first `n` hits the ray strictly before `t`.
pub open spec fn none_closer_upto(
    objs: Seq<HittableObject>,
    r: Ray,
    ray_t: Interval,
    n: int,
    t: int,
) -> bool {
    forall|i: int|
        0 <= i < n ==> ((#[trigger] obj_hit(objs[i], r, ray_t)) matches Some(q) ==> q.t >= t)
}

/// Every hit among the first `n` objects lies strictly beyond `t`.
pub open spec fn all_farther_upto(
    objs: Seq<HittableObject>,
    r: Ray,
    ray_t: Interval,
    n: int,
    t: int,
) -> bool {
    forall|i: int|
        0 <= i < n ==> ((#[trigger] obj_hit(objs[i], r, ray_t)) matches Some(q) ==> q.t > t)
}

/// The nearest-hit contract over the first `n` objects: no result exactly
/// when everything misses; otherwise the result is the record of the first
/// object that attains the smallest hit parameter.
pub open spec fn nearest_hit_upto(
    objs: Seq<HittableObject>,
    r: Ray,
    ray_t: Interval,
    n: int,
    res: Option<HitRecord>,
) -> bool {
    match res {
        None => misses_all_upto(objs, r, ray_t, n),
        Some(rec) => {
            &&& exists|i: int|
                0 <= i < n && (#[trigger] obj_hit(objs[i], r, ray_t)) == Some(rec)
                    && all_farther_upto(objs, r, ray_t, i, rec.t as int)
            &&& none_closer_upto(objs, r, ray_t, n, rec.t as int)
        },
    }
}

/// No object of the sequence hits the ray inside the interval.
pub open spec fn misses_all(objs: Seq<HittableObject>, r: Ray, ray_t: Interval) -> bool {
    misses_all_upto(objs, r, ray_t, objs.len() as int)
}

/// The nearest-hit contract over a whole object sequence.
pub open spec fn nearest_hit(
    objs: Seq<HittableObject>,
    r: Ray,
    ray_t: Interval,
    res: Option<HitRecord>,
) -> bool {
    nearest_hit_upto(objs, r, ray_t, objs.len() as int, res)
}

impl View for HittableList {
    type V = Seq<HittableObject>;

    closed spec fn view(&self) -> Seq<HittableObject> {
        self.objects@
    }
}

impl New for HittableList {
    open spec fn new_post(r: HittableList) -> bool {
        r@ == Seq::<HittableObject>::empty()
    }

    fn new() -> HittableList {
        HittableList { objects: Vec::new() }
    }
}

impl Clear for HittableList {
    open spec fn clear_post(&self) -> bool {
        self@ == Seq::<HittableObject>::empty()
    }

    fn clear(&mut self) {
        self.objects.clear();
    }
}

impl Add for HittableList {
    fn add(&mut self, rhs: HittableObject) {
        self.objects.push(rhs);
    }
}

impl Hit for HittableList {
    open spec fn hit_post(&self, r: Ray, ray_t: Interval, res: Option<HitRecord>) -> bool {
        &&& res == scan_hit(self@, r, ray_t, self@.len() as int)
        &&& nearest_hit(self@, r, ray_t, res)
        &&& (res matches Some(rec) ==> itv_surrounds(ray_t, rec.t as int) && sv_len_sq(r.dir) > 0)
    }

    /// A linear scan that keeps a shrinking upper bound, so later candidates
    /// can only improve on the best hit so far.
    #[verifier::rlimit(60)]
    fn hit(&self, r: Ray, ray_t: Interval) -> (res: Option<HitRecord>) {
        let mut result: Option<HitRecord> = None;
        let mut closest_so_far: i64 = ray_t.max;
        let n: usize = self.objects.len();
        let mut k: usize = 0;
        while k < n
            invariant
                n == self.objects@.len(),
                k <= n,
                result == scan_hit(self.objects@, r, ray_t, k as int),
                nearest_hit_upto(self.objects@, r, ray_t, k as int, result),
                match result {
                    None => closest_so_far == ray_t.max,
                    Some(rec) => closest_so_far == rec.t && itv_surrounds(ray_t, rec.t as int)
                        && sv_len_sq(r.dir) > 0,
                },
            decreases n - k,
        {
            let ghost objs = self.objects@;
            let ghost prev = result;
            let object: &HittableObject = &self.objects[k];
            let shrunk: Interval = Interval { min: ray_t.min, max: closest_so_far };
            let this_hit: Option<HitRecord> = object.hit(r, shrunk);
            proof {
                lemma_obj_hit_shrink(objs[k as int], r, ray_t, shrunk);
                lemma_obj_hit_props(objs[k as int], r, ray_t);
            }
            match this_hit {
                Some(rec) => {
                    result = Some(rec);
                    closest_so_far = rec.t;
                },
                None => {},
            }
            proof {
                let kk = k as int;
                match prev {
                    Some(prec) => {
                        assert(none_closer_upto(objs, r, ray_t, kk, prec.t as int));
                        match this_hit {
                            Some(rec) => {
                                assert(obj_hit(objs[kk], r, ray_t) == Some(rec));
                                assert((rec.t as int) < prec.t as int);
                                assert(all_farther_upto(objs, r, ray_t, kk, rec.t as int));
                                assert(none_closer_upto(objs, r, ray_t, kk + 1, rec.t as int));
                            },
                            None => {
                                assert(none_closer_upto(objs, r, ray_t, kk + 1, prec.t as int));
                            },
                        }
                    },
                    None => {
                        assert(misses_all_upto(objs, r, ray_t, kk));
                        match this_hit {
                            Some(rec) => {
                                assert(obj_hit(objs[kk], r, ray_t) == Some(rec));
                                assert(all_farther_upto(objs, r, ray_t, kk, rec.t as int));
                                assert(none_closer_upto(objs, r, ray_t, kk + 1, rec.t as int));
                            },
                            None => {
                                assert(misses_all_upto(objs, r, ray_t, kk + 1));
                            },
                        }
                    },
                }
            }
            k = k + 1;
        }
        result
    }
}

/// `lemma_sphere_hit_props`, lifted to a scene object.
pub proof fn lemma_obj_hit_props(o: HittableObject, r: Ray, ray_t: Interval)
    ensures
        match obj_hit(o, r, ray_t) {
            Some(rec) => itv_surrounds(ray_t, rec.t as int) && sv_len_sq(r.dir) > 0 && rec.mat
                == obj_mat(o),
            None => true,
        },
{
    reveal(obj_hit);
    match o {
        HittableObject::Sphere(s) => lemma_sphere_hit_props(s, r, ray_t),
    }
}

/// `lemma_sphere_hit_shrink`, lifted to a scene object.
pub proof fn lemma_obj_hit_shrink(o: HittableObject, r: Ray, t0: Interval, t1: Interval)
    requires
        t1.min == t0.min,
        t1.max <= t0.max,
    ensures
        obj_hit(o, r, t1) == (match obj_hit(o, r, t0) {
            Some(rec) => if (rec.t as int) < t1.max as int {
                Some(rec)
            } else {
                None::<HitRecord>
            },
            None => None::<HitRecord>,
        }),
{
    reveal(obj_hit);
    match o {
        HittableObject::Sphere(s) => lemma_sphere_hit_shrink(s, r, t0, t1),
    }
}

/// The nearest hit does not depend on the order of the objects: two lists
/// holding the same objects give hits with the same parameter (the records
/// may differ only when distinct objects tie at the same parameter).
#[verifier::rlimit(60)]
pub proof fn lemma_nearest_hit_order_independent(
    objs1: Seq<HittableObject>,
    objs2: Seq<HittableObject>,
    r: Ray,
    ray_t: Interval,
    res1: Option<HitRecord>,
    res2: Option<HitRecord>,
)
    requires
        objs1.to_multiset() == objs2.to_multiset(),
        nearest_hit(objs1, r, ray_t, res1),
        nearest_hit(objs2, r, ray_t, res2),
    ensures
        match (res1, res2) {
            (Some(a), Some(b)) => a.t == b.t,
            (None, None) => true,
            _ => false,
        },
{
    broadcast use vstd::seq_lib::group_to_multiset_ensures;

    match res1 {
        Some(a) => {
            let i = choose|i: int|
                0 <= i < objs1.len() && (#[trigger] obj_hit(objs1[i], r, ray_t)) == Some(a)
                    && all_farther_upto(objs1, r, ray_t, i, a.t as int);
            assert(objs1.contains(objs1[i]));
            assert(objs1.to_multiset().count(objs1[i]) > 0);
            assert(objs2.to_multiset().count(objs1[i]) > 0);
            assert(objs2.contains(objs1[i]));
            let j = choose|j: int| 0 <= j < objs2.len() && objs2[j] == objs1[i];
            assert(obj_hit(objs2[j], r, ray_t) == Some(a));
            match res2 {
                Some(b) => {
                    assert(a.t >= b.t);
                    let i2 = choose|i2: int|
                        0 <= i2 < objs2.len() && (#[trigger] obj_hit(objs2[i2], r, ray_t)) == Some(
                            b,
                        ) && all_farther_upto(objs2, r, ray_t, i2, b.t as int);
                    assert(objs2.contains(objs2[i2]));
                    assert(objs2.to_multiset().count(objs2[i2]) > 0);
                    assert(objs1.to_multiset().count(objs2[i2]) > 0);
                    assert(objs1.contains(objs2[i2]));
                    let j2 = choose|j2: int| 0 <= j2 < objs1.len() && objs1[j2] == objs2[i2];
                    assert(obj_hit(objs1[j2], r, ray_t) == Some(b));
                    assert(b.t >= a.t);
                },
                None => {
                    assert(obj_hit(objs2[j], r, ray_t) is None);
                    assert(false);
                },
            }
        },
        None => {
            match res2 {
                Some(b) => {
                    let i = choose|i: int|
                        0 <= i < objs2.len() && (#[trigger] obj_hit(objs2[i], r, ray_t)) == Some(b)
                            && all_farther_upto(objs2, r, ray_t, i, b.t as int);
                    assert(objs2.contains(objs2[i]));
                    assert(objs2.to_multiset().count(objs2[i]) > 0);
                    assert(objs1.to_multiset().count(objs2[i]) > 0);
                    assert(objs1.contains(objs2[i]));
                    let j = choose|j: int| 0 <= j < objs1.len() && objs1[j] == objs2[i];
                    assert(obj_hit(objs1[j], r, ray_t) == Some(b));
                    assert(false);
                },
                None => {},
            }
        },
    }
}

} // verus!
