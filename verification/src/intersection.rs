//! The record of what a ray met.

use vstd::prelude::*;
use crate::material::Material;
use crate::vector::Vector3;

verus! {

/// What a query found. Where nothing was met, `happened` is false and the
/// distance is the largest value there is.
#[derive(Clone, Copy, Debug)]
pub struct Intersection {
    pub happened: bool,
    pub coords: Vector3,
    pub normal: Vector3,
    pub distance: i64,
    pub m: Option<Material>,
    pub emit: Vector3,
}

impl Intersection {
    /// The record of a miss.
    pub open spec fn none() -> Intersection {
        Intersection {
            happened: false,
            coords: Vector3 { x: 0, y: 0, z: 0 },
            normal: Vector3 { x: 0, y: 0, z: 0 },
            distance: i64::MAX,
            m: None,
            emit: Vector3 { x: 0, y: 0, z: 0 },
        }
    }

    /// The nearer of two records; the first where they are equally far.
    pub open spec fn nearer(a: Intersection, b: Intersection) -> Intersection {
        if b.distance < a.distance {
            b
        } else {
            a
        }
    }

    /// Whether the record is a miss, or a hit nearer than the end of `i64`.
    pub open spec fn wf(self) -> bool {
        if self.happened {
            self.distance < i64::MAX
        } else {
            self == Intersection::none()
        }
    }

    /// The record of a miss.
    pub fn new() -> (i: Intersection)
        ensures
            i == Intersection::none(),
    {
        Intersection {
            happened: false,
            coords: Vector3::zeros(),
            normal: Vector3::zeros(),
            distance: i64::MAX,
            m: None,
            emit: Vector3::zeros(),
        }
    }
}

} // verus!
