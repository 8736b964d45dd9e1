//! Axis-aligned bounding boxes.

use vstd::prelude::*;
use crate::fixed::{fdiv, fdiv_spec, fmul, fmul_spec, sat, sat_add, sat_sub, saturate};
use crate::vector::Vector3;

verus! {

/// A box given by its two extreme corners. A box is empty as soon as
/// `p_min` exceeds `p_max` on some axis.
#[derive(Clone, Copy, Debug, PartialEq, Eq, Structural)]
pub struct Bounds3 {
    pub p_min: Vector3,
    pub p_max: Vector3,
}

/// One of the three coordinate axes.
#[derive(Clone, Copy, Debug, PartialEq, Eq, Structural)]
pub enum Axis {
    X,
    Y,
    Z,
}

/// One half as a fixed-point value.
pub const HALF: i64 = 32768;

impl Vector3 {
    /// The component along `axis`.
    pub open spec fn axis_spec(self, axis: Axis) -> i64 {
        match axis {
            Axis::X => self.x,
            Axis::Y => self.y,
            Axis::Z => self.z,
        }
    }

    /// The component along `axis`.
    pub fn axis(&self, axis: Axis) -> (r: i64)
        ensures
            r == self.axis_spec(axis),
    {
        match axis {
            Axis::X => self.x,
            Axis::Y => self.y,
            Axis::Z => self.z,
        }
    }
}

impl Bounds3 {
    /// The box that nothing lies in: joined with any box it gives that box.
    pub open spec fn empty_spec() -> Bounds3 {
        Bounds3 {
            p_min: Vector3 { x: i64::MAX, y: i64::MAX, z: i64::MAX },
            p_max: Vector3 { x: i64::MIN, y: i64::MIN, z: i64::MIN },
        }
    }

    /// The smallest box that holds both points.
    pub open spec fn of_points(p1: Vector3, p2: Vector3) -> Bounds3 {
        Bounds3 { p_min: Vector3::min_of(p1, p2), p_max: Vector3::max_of(p1, p2) }
    }

    /// The smallest box that holds both boxes.
    pub open spec fn union_spec(b1: Bounds3, b2: Bounds3) -> Bounds3 {
        Bounds3 {
            p_min: Vector3::min_of(b1.p_min, b2.p_min),
            p_max: Vector3::max_of(b1.p_max, b2.p_max),
        }
    }

    /// The smallest box that holds the box and the point.
    pub open spec fn union_point_spec(b: Bounds3, p: Vector3) -> Bounds3 {
        Bounds3 { p_min: Vector3::min_of(b.p_min, p), p_max: Vector3::max_of(b.p_max, p) }
    }

    /// What the two boxes have in common.
    pub open spec fn intersect_spec(self, b: Bounds3) -> Bounds3 {
        Bounds3 {
            p_min: Vector3::max_of(self.p_min, b.p_min),
            p_max: Vector3::min_of(self.p_max, b.p_max),
        }
    }

    /// Whether the point lies in the box, its faces included.
    pub open spec fn contains(self, p: Vector3) -> bool {
        &&& self.p_min.x <= p.x <= self.p_max.x
        &&& self.p_min.y <= p.y <= self.p_max.y
        &&& self.p_min.z <= p.z <= self.p_max.z
    }

    /// Whether the point lies in the box and on none of its faces.
    pub open spec fn contains_strictly(self, p: Vector3) -> bool {
        &&& self.p_min.x < p.x < self.p_max.x
        &&& self.p_min.y < p.y < self.p_max.y
        &&& self.p_min.z < p.z < self.p_max.z
    }

    /// Whether `inner` lies within this box.
    pub open spec fn encloses(self, inner: Bounds3) -> bool {
        &&& self.p_min.x <= inner.p_min.x && inner.p_max.x <= self.p_max.x
        &&& self.p_min.y <= inner.p_min.y && inner.p_max.y <= self.p_max.y
        &&& self.p_min.z <= inner.p_min.z && inner.p_max.z <= self.p_max.z
    }

    /// Whether the two boxes share a point.
    pub open spec fn overlaps_spec(b1: Bounds3, b2: Bounds3) -> bool {
        &&& b1.p_max.x >= b2.p_min.x && b1.p_min.x <= b2.p_max.x
        &&& b1.p_max.y >= b2.p_min.y && b1.p_min.y <= b2.p_max.y
        &&& b1.p_max.z >= b2.p_min.z && b1.p_min.z <= b2.p_max.z
    }

    /// The vector from the least corner to the greatest.
    pub open spec fn diagonal_spec(self) -> Vector3 {
        self.p_max.minus_spec(self.p_min)
    }

    /// The axis along which the box is longest: X only if it is strictly
    /// longer than both others, else Y if strictly longer than Z, else Z.
    pub open spec fn max_extent_spec(self) -> Axis {
        let d = self.diagonal_spec();
        if d.x > d.y && d.x > d.z {
            Axis::X
        } else if d.y > d.z {
            Axis::Y
        } else {
            Axis::Z
        }
    }

    /// The middle of the box: on each axis half of the least corner plus
    /// half of the greatest, each half rounded down.
    pub open spec fn centroid_spec(self) -> Vector3 {
        Vector3 {
            x: (self.p_min.x / 2 + self.p_max.x / 2) as i64,
            y: (self.p_min.y / 2 + self.p_max.y / 2) as i64,
            z: (self.p_min.z / 2 + self.p_max.z / 2) as i64,
        }
    }

    /// The position of `p` on one axis relative to the box: the distance from
    /// `lo` as a fraction of the box's extent, or the distance itself where
    /// the box has no extent.
    pub open spec fn offset_axis(lo: i64, hi: i64, p: i64) -> i64 {
        let o = saturate(p - lo);
        if hi > lo {
            fdiv_spec(o, saturate(hi - lo))
        } else {
            o
        }
    }

    pub open spec fn offset_spec(self, p: Vector3) -> Vector3 {
        Vector3 {
            x: Self::offset_axis(self.p_min.x, self.p_max.x, p.x),
            y: Self::offset_axis(self.p_min.y, self.p_max.y, p.y),
            z: Self::offset_axis(self.p_min.z, self.p_max.z, p.z),
        }
    }

    /// Twice the sum of the areas of three faces that meet in a corner.
    pub open spec fn surface_area_spec(self) -> i64 {
        let d = self.diagonal_spec();
        let sum = saturate(saturate(fmul_spec(d.x, d.y) + fmul_spec(d.y, d.z)) + fmul_spec(d.z, d.x));
        saturate(2 * sum)
    }

    /// The smallest box that holds both points.
    pub fn new(p1: Vector3, p2: Vector3) -> (b: Bounds3)
        ensures
            b == Bounds3::of_points(p1, p2),
    {
        Bounds3 { p_min: Vector3::min(&p1, &p2), p_max: Vector3::max(&p1, &p2) }
    }

    /// The box that nothing lies in.
    pub fn empty() -> (b: Bounds3)
        ensures
            b == Bounds3::empty_spec(),
    {
        Bounds3 { p_min: Vector3::same(i64::MAX), p_max: Vector3::same(i64::MIN) }
    }

    pub fn diagonal(&self) -> (d: Vector3)
        ensures
            d == self.diagonal_spec(),
    {
        self.p_max.minus(&self.p_min)
    }

    pub fn max_extent(&self) -> (a: Axis)
        ensures
            a == self.max_extent_spec(),
    {
        let d = self.diagonal();
        if d.x > d.y && d.x > d.z {
            Axis::X
        } else if d.y > d.z {
            Axis::Y
        } else {
            Axis::Z
        }
    }

    pub fn surface_area(&self) -> (a: i64)
        ensures
            a == self.surface_area_spec(),
    {
        let d = self.diagonal();
        let sum = sat_add(sat_add(fmul(d.x, d.y), fmul(d.y, d.z)), fmul(d.z, d.x));
        sat(2 * (sum as i128))
    }

    pub fn centroid(&self) -> (c: Vector3)
        ensures
            c == self.centroid_spec(),
    {
        proof {
            lemma_half(self.p_min.x);
            lemma_half(self.p_min.y);
            lemma_half(self.p_min.z);
            lemma_half(self.p_max.x);
            lemma_half(self.p_max.y);
            lemma_half(self.p_max.z);
        }
        self.p_min.scaled(HALF).plus(&self.p_max.scaled(HALF))
    }

    /// The coordinate of the middle of the box along `axis`.
    pub fn centroid_axis(&self, axis: Axis) -> (c: i64)
        ensures
            c == self.centroid_spec().axis_spec(axis),
    {
        self.centroid().axis(axis)
    }

    pub fn intersect(&self, b: &Bounds3) -> (r: Bounds3)
        ensures
            r == self.intersect_spec(*b),
    {
        Bounds3 {
            p_min: Vector3::max(&self.p_min, &b.p_min),
            p_max: Vector3::min(&self.p_max, &b.p_max),
        }
    }

    pub fn offset(&self, p: &Vector3) -> (o: Vector3)
        ensures
            o == self.offset_spec(*p),
    {
        let mut o = p.minus(&self.p_min);
        if self.p_max.x > self.p_min.x {
            o.x = fdiv(o.x, sat_sub(self.p_max.x, self.p_min.x));
        }
        if self.p_max.y > self.p_min.y {
            o.y = fdiv(o.y, sat_sub(self.p_max.y, self.p_min.y));
        }
        if self.p_max.z > self.p_min.z {
            o.z = fdiv(o.z, sat_sub(self.p_max.z, self.p_min.z));
        }
        o
    }

    pub fn overlaps(b1: &Bounds3, b2: &Bounds3) -> (r: bool)
        ensures
            r == Bounds3::overlaps_spec(*b1, *b2),
    {
        let x = b1.p_max.x >= b2.p_min.x && b1.p_min.x <= b2.p_max.x;
        let y = b1.p_max.y >= b2.p_min.y && b1.p_min.y <= b2.p_max.y;
        let z = b1.p_max.z >= b2.p_min.z && b1.p_min.z <= b2.p_max.z;
        x && y && z
    }

    pub fn inside(p: &Vector3, b: &Bounds3) -> (r: bool)
        ensures
            r == b.contains(*p),
    {
        p.x >= b.p_min.x && p.x <= b.p_max.x && p.y >= b.p_min.y && p.y <= b.p_max.y
            && p.z >= b.p_min.z && p.z <= b.p_max.z
    }

    pub fn union_bounds(b1: &Bounds3, b2: &Bounds3) -> (r: Bounds3)
        ensures
            r == Bounds3::union_spec(*b1, *b2),
    {
        Bounds3 {
            p_min: Vector3::min(&b1.p_min, &b2.p_min),
            p_max: Vector3::max(&b1.p_max, &b2.p_max),
        }
    }

    pub fn union_point(b: &Bounds3, p: &Vector3) -> (r: Bounds3)
        ensures
            r == Bounds3::union_point_spec(*b, *p),
    {
        Bounds3 { p_min: Vector3::min(&b.p_min, p), p_max: Vector3::max(&b.p_max, p) }
    }
}

impl Default for Bounds3 {
    fn default() -> (b: Bounds3)
        ensures
            b == Bounds3::empty_spec(),
    {
        Bounds3::empty()
    }
}

/// Multiplying by one half is halving, rounded down.
pub proof fn lemma_half(a: i64)
    ensures
        fmul_spec(a, HALF) == a / 2,
{
    let p = a * 32768;
    vstd::arithmetic::div_mod::lemma_fundamental_div_mod(a as int, 2);
    vstd::arithmetic::div_mod::lemma_mod_bound(a as int, 2);
    let q = a as int / 2;
    let m = a as int % 2;
    assert(p - q * 65536 == m * 32768);
    crate::fixed::lemma_floor_unique(p, 65536, q);
}

/// Joining boxes does not depend on their order.
pub proof fn lemma_union_commutative(a: Bounds3, b: Bounds3)
    ensures
        Bounds3::union_spec(a, b) == Bounds3::union_spec(b, a),
{
}

/// Joining three boxes does not depend on the grouping.
pub proof fn lemma_union_associative(a: Bounds3, b: Bounds3, c: Bounds3)
    ensures
        Bounds3::union_spec(Bounds3::union_spec(a, b), c) == Bounds3::union_spec(
            a,
            Bounds3::union_spec(b, c),
        ),
{
}

/// A box joined with itself is itself.
pub proof fn lemma_union_idempotent(a: Bounds3)
    ensures
        Bounds3::union_spec(a, a) == a,
{
}

/// The empty box joined with any box, on either side, is that box.
pub proof fn lemma_union_empty(b: Bounds3)
    ensures
        Bounds3::union_spec(Bounds3::empty_spec(), b) == b,
        Bounds3::union_spec(b, Bounds3::empty_spec()) == b,
{
}

} // verus!
