//! A ray: an origin point and a direction vector.

use crate::vec3::{sv_add, sv_scale, Vec3};
use vstd::prelude::*;

verus! {

/// Points are vectors used as positions.
pub type Point3 = Vec3;

#[derive(Clone, Copy, PartialEq, Eq, Structural, Debug)]
pub struct Ray {
    pub orig: Point3,
    pub dir: Vec3,
}

/// The point `origin + t * direction`.
pub open spec fn ray_at(r: Ray, t: int) -> Vec3 {
    sv_add(r.orig, sv_scale(r.dir, t))
}

/// Things that have an origin point.
pub trait Origin {
    spec fn origin_spec(&self) -> Point3;

    fn origin(&self) -> (r: Point3)
        ensures
            r == self.origin_spec(),
    ;
}

impl Origin for Ray {
    open spec fn origin_spec(&self) -> Point3 {
        self.orig
    }

    fn origin(&self) -> Point3 {
        self.orig
    }
}

impl Ray {
    pub fn new(orig: Point3, dir: Vec3) -> (r: Ray)
        ensures
            r == (Ray { orig, dir }),
    {
        Ray { orig, dir }
    }

    pub fn direction(&self) -> (r: Vec3)
        ensures
            r == self.dir,
    {
        self.dir
    }

    pub fn at(&self, t: i64) -> (r: Vec3)
        ensures
            r == ray_at(*self, t as int),
    {
        self.orig.add(self.dir.mul(t))
    }
}

} // verus!
