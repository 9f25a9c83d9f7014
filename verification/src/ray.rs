//! Rays: an origin plus a (not necessarily unit) direction.

use vstd::prelude::*;

use crate::fx::mag;
use crate::vec3::{bounded, spec_add, spec_scale, Point3, Vec3};

verus! {

#[derive(Clone, Copy, Debug)]
pub struct Ray {
    pub origin: Point3,
    pub direction: Vec3,
}

/// The point the ray reaches at parameter `t`: `origin + t * direction`.
pub open spec fn spec_at(r: Ray, t: int) -> Point3 {
    spec_add(r.origin, spec_scale(r.direction, t))
}

impl Ray {
    pub fn new(origin: Point3, direction: Vec3) -> (r: Ray)
        ensures
            r == (Ray { origin, direction }),
    {
        Ray { origin, direction }
    }

    pub fn at(&self, t: i64) -> (r: Point3)
        requires
            bounded(self.origin, 0x400000000000),
            bounded(self.direction, 0x2000000000),
            mag(t as int) <= 0x2000000000,
        ensures
            r == spec_at(*self, t as int),
            bounded(r, 0x800000000000000),
    {
        proof {
            crate::vec3::lemma_scale_fits(self.direction, t as int, 0x2000000000, 0x2000000000);
            crate::vec3::lemma_scale_bound(self.direction, t as int, 0x2000000000, 0x2000000000);
        }
        let step = self.direction.scale(t);
        self.origin.add(step)
    }
}

} // verus!
