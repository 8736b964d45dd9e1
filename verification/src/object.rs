//! What the renderer asks of a primitive.

use vstd::prelude::*;
use crate::bounds3::Bounds3;
use crate::global::SampleStream;
use crate::intersection::Intersection;
use crate::ray::Ray;

verus! {

/// A surface that rays can meet and that light can be drawn from.
pub trait Object: Sized {
    /// Whether the primitive's stored parts agree with each other.
    spec fn wf(&self) -> bool;

    /// What `ray` meets on the primitive.
    spec fn hit_spec(&self, ray: Ray) -> Intersection;

    /// The smallest box around the primitive.
    spec fn bounds_spec(&self) -> Bounds3;

    /// The primitive's surface area.
    spec fn area_spec(&self) -> i64;

    /// Whether the primitive gives off light.
    spec fn emits(&self) -> bool;

    /// The point drawn from the surface, the density of the draw, and the
    /// stream after it.
    spec fn sample_spec(&self, s: SampleStream) -> (Intersection, i64, SampleStream);

    fn get_intersection(&self, ray: Ray) -> (i: Intersection)
        requires
            self.wf(),
        ensures
            i == self.hit_spec(ray),
    ;

    fn get_bounds(&self) -> (b: Bounds3)
        requires
            self.wf(),
        ensures
            b == self.bounds_spec(),
    ;

    fn get_area(&self) -> (a: i64)
        requires
            self.wf(),
        ensures
            a == self.area_spec(),
            a >= 0,
    ;

    fn sample(&self, s: &mut SampleStream) -> (r: (Intersection, i64))
        requires
            self.wf(),
        ensures
            (r.0, r.1, *final(s)) == self.sample_spec(*old(s)),
    ;

    fn has_emit(&self) -> (b: bool)
        requires
            self.wf(),
        ensures
            b == self.emits(),
    ;

    /// What a ray meets is a miss or a hit at a finite distance, and a ray
    /// that meets the primitive is in range and passes through its box.
    proof fn lemma_hit_in_bounds(&self, ray: Ray)
        requires
            self.wf(),
        ensures
            self.hit_spec(ray).wf(),
            self.hit_spec(ray).happened ==> ray.in_range() && self.bounds_spec().hit_by(ray),
    ;
}

} // verus!
