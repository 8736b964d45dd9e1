//! Rays: a starting point and a direction.

use vstd::prelude::*;
use crate::fixed::{fdiv, fdiv_spec, SCALE};
use crate::vector::Vector3;

verus! {

/// The largest magnitude of a coordinate or of a direction component for
/// which the geometric tests are exact. What lies beyond it is never hit.
pub const RANGE: i64 = 4294967296;

#[derive(Clone, Copy, Debug, PartialEq, Eq, Structural)]
pub struct Ray {
    pub origin: Vector3,
    pub direction: Vector3,
    /// One divided by each component of `direction`, rounded; zero where the
    /// component is zero. The tests against boxes and triangles compare
    /// exact products and do not read it.
    pub direction_inv: Vector3,
    pub t: i64,
    pub t_min: i64,
    pub t_max: i64,
}

/// One divided by each component of `d`.
pub open spec fn reciprocal(d: Vector3) -> Vector3 {
    Vector3 { x: fdiv_spec(SCALE, d.x), y: fdiv_spec(SCALE, d.y), z: fdiv_spec(SCALE, d.z) }
}

impl Ray {
    /// Whether the reciprocal that the ray carries belongs to its direction.
    pub open spec fn wf(self) -> bool {
        self.direction_inv == reciprocal(self.direction)
    }

    /// Whether origin and direction lie in the range of the exact tests.
    pub open spec fn in_range(self) -> bool {
        self.origin.within(RANGE) && self.direction.within(RANGE)
    }

    /// The point at parameter `t`, a fixed-point multiple of the direction.
    pub open spec fn at_spec(self, t: i64) -> Vector3 {
        self.direction.scaled_spec(t).plus_spec(self.origin)
    }

    /// The ray from `origin` in `direction`, bounded by nothing.
    pub open spec fn made(origin: Vector3, direction: Vector3, t: i64) -> Ray {
        Ray { origin, direction, direction_inv: reciprocal(direction), t, t_min: 0, t_max: i64::MAX }
    }

    pub fn new(origin: Vector3, direction: Vector3, t: i64) -> (r: Ray)
        ensures
            r == Ray::made(origin, direction, t),
            r.wf(),
    {
        let direction_inv = Vector3::new(
            fdiv(SCALE, direction.x),
            fdiv(SCALE, direction.y),
            fdiv(SCALE, direction.z),
        );
        Ray { origin, direction, direction_inv, t, t_min: 0, t_max: i64::MAX }
    }

    /// The point at parameter `t`.
    pub fn at(&self, t: i64) -> (p: Vector3)
        ensures
            p == self.at_spec(t),
    {
        self.direction.scaled(t).plus(&self.origin)
    }

    /// Points the ray in a new direction and renews the reciprocal.
    pub fn change_dir(&mut self, dir: Vector3)
        ensures
            final(self).wf(),
            final(self).direction == dir,
            final(self).origin == old(self).origin,
            final(self).t == old(self).t,
            final(self).t_min == old(self).t_min,
            final(self).t_max == old(self).t_max,
    {
        self.direction_inv.x = fdiv(SCALE, dir.x);
        self.direction_inv.y = fdiv(SCALE, dir.y);
        self.direction_inv.z = fdiv(SCALE, dir.z);
        self.direction = dir;
    }

    /// Whether origin and direction lie in the range of the exact tests.
    pub fn is_in_range(&self) -> (b: bool)
        ensures
            b == self.in_range(),
    {
        self.origin.is_within(RANGE) && self.direction.is_within(RANGE)
    }
}

} // verus!
