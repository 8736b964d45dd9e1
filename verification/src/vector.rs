//! Three-component vectors of fixed-point values.

use vstd::prelude::*;
use crate::fixed::{fdiv, fdiv_spec, fmul, fmul_spec, isqrt, isqrt_spec, join, lemma_product_fits,
    mul_split, sat_add, sat_neg, sat_sub, saturate, SCALE};

verus! {

/// A point, a direction or a colour.
#[derive(Clone, Copy, Debug, PartialEq, Eq, Structural)]
pub struct Vector3 {
    pub x: i64,
    pub y: i64,
    pub z: i64,
}

/// The smaller of two values.
pub open spec fn min_spec(a: i64, b: i64) -> i64 {
    if a <= b {
        a
    } else {
        b
    }
}

/// The larger of two values.
pub open spec fn max_spec(a: i64, b: i64) -> i64 {
    if a >= b {
        a
    } else {
        b
    }
}

/// The smaller of two values.
pub fn min_i64(a: i64, b: i64) -> (r: i64)
    ensures
        r == min_spec(a, b),
{
    if a <= b {
        a
    } else {
        b
    }
}

/// The larger of two values.
pub fn max_i64(a: i64, b: i64) -> (r: i64)
    ensures
        r == max_spec(a, b),
{
    if a >= b {
        a
    } else {
        b
    }
}

impl Vector3 {
    /// The sum of the squares of the components, in raw units.
    pub open spec fn norm_squared(self) -> int {
        self.x * self.x + self.y * self.y + self.z * self.z
    }

    /// The exact scalar product, in raw units squared.
    pub open spec fn dot_raw(self, o: Vector3) -> int {
        self.x * o.x + self.y * o.y + self.z * o.z
    }

    pub open spec fn plus_spec(self, o: Vector3) -> Vector3 {
        Vector3 { x: saturate(self.x + o.x), y: saturate(self.y + o.y), z: saturate(self.z + o.z) }
    }

    pub open spec fn minus_spec(self, o: Vector3) -> Vector3 {
        Vector3 { x: saturate(self.x - o.x), y: saturate(self.y - o.y), z: saturate(self.z - o.z) }
    }

    pub open spec fn negated_spec(self) -> Vector3 {
        Vector3 { x: saturate(-self.x), y: saturate(-self.y), z: saturate(-self.z) }
    }

    pub open spec fn scaled_spec(self, k: i64) -> Vector3 {
        Vector3 { x: fmul_spec(self.x, k), y: fmul_spec(self.y, k), z: fmul_spec(self.z, k) }
    }

    pub open spec fn divided_spec(self, k: i64) -> Vector3 {
        Vector3 { x: fdiv_spec(self.x, k), y: fdiv_spec(self.y, k), z: fdiv_spec(self.z, k) }
    }

    pub open spec fn times_spec(self, o: Vector3) -> Vector3 {
        Vector3 { x: fmul_spec(self.x, o.x), y: fmul_spec(self.y, o.y), z: fmul_spec(self.z, o.z) }
    }

    pub open spec fn min_of(a: Vector3, b: Vector3) -> Vector3 {
        Vector3 { x: min_spec(a.x, b.x), y: min_spec(a.y, b.y), z: min_spec(a.z, b.z) }
    }

    pub open spec fn max_of(a: Vector3, b: Vector3) -> Vector3 {
        Vector3 { x: max_spec(a.x, b.x), y: max_spec(a.y, b.y), z: max_spec(a.z, b.z) }
    }

    /// The scalar product as a fixed-point value.
    pub open spec fn dot_spec(self, o: Vector3) -> i64 {
        saturate(self.dot_raw(o) / (SCALE as int))
    }

    /// The vector product as fixed-point values.
    pub open spec fn cross_spec(self, o: Vector3) -> Vector3 {
        Vector3 {
            x: saturate((self.y * o.z - self.z * o.y) / (SCALE as int)),
            y: saturate((self.z * o.x - self.x * o.z) / (SCALE as int)),
            z: saturate((self.x * o.y - self.y * o.x) / (SCALE as int)),
        }
    }

    /// The length, rounded down to a raw unit.
    pub open spec fn norm_spec(self) -> i64 {
        saturate(isqrt_spec(self.norm_squared()))
    }

    /// The vector scaled to unit length; zero for the zero vector.
    pub open spec fn normalize_spec(self) -> Vector3 {
        self.divided_spec(self.norm_spec())
    }

    /// Whether every component lies within `limit` of zero.
    pub open spec fn within(self, limit: i64) -> bool {
        &&& -limit <= self.x <= limit
        &&& -limit <= self.y <= limit
        &&& -limit <= self.z <= limit
    }

    pub fn new(x: i64, y: i64, z: i64) -> (v: Vector3)
        ensures
            v == (Vector3 { x, y, z }),
    {
        Vector3 { x, y, z }
    }

    /// The vector whose three components are `v`.
    pub fn same(v: i64) -> (r: Vector3)
        ensures
            r == (Vector3 { x: v, y: v, z: v }),
    {
        Vector3 { x: v, y: v, z: v }
    }

    pub fn zeros() -> (r: Vector3)
        ensures
            r == (Vector3 { x: 0, y: 0, z: 0 }),
    {
        Vector3 { x: 0, y: 0, z: 0 }
    }

    /// Whether every component lies within `limit` of zero.
    pub fn is_within(&self, limit: i64) -> (b: bool)
        ensures
            b == self.within(limit),
    {
        let lo = -(limit as i128);
        let hi = limit as i128;
        lo <= self.x as i128 && self.x as i128 <= hi && lo <= self.y as i128 && self.y as i128 <= hi
            && lo <= self.z as i128 && self.z as i128 <= hi
    }

    pub fn plus(&self, o: &Vector3) -> (r: Vector3)
        ensures
            r == self.plus_spec(*o),
    {
        Vector3 { x: sat_add(self.x, o.x), y: sat_add(self.y, o.y), z: sat_add(self.z, o.z) }
    }

    pub fn minus(&self, o: &Vector3) -> (r: Vector3)
        ensures
            r == self.minus_spec(*o),
    {
        Vector3 { x: sat_sub(self.x, o.x), y: sat_sub(self.y, o.y), z: sat_sub(self.z, o.z) }
    }

    pub fn negated(&self) -> (r: Vector3)
        ensures
            r == self.negated_spec(),
    {
        Vector3 { x: sat_neg(self.x), y: sat_neg(self.y), z: sat_neg(self.z) }
    }

    /// Each component multiplied by the fixed-point value `k`.
    pub fn scaled(&self, k: i64) -> (r: Vector3)
        ensures
            r == self.scaled_spec(k),
    {
        Vector3 { x: fmul(self.x, k), y: fmul(self.y, k), z: fmul(self.z, k) }
    }

    /// Each component divided by the fixed-point value `k`; zero where `k` is zero.
    pub fn divided(&self, k: i64) -> (r: Vector3)
        ensures
            r == self.divided_spec(k),
    {
        Vector3 { x: fdiv(self.x, k), y: fdiv(self.y, k), z: fdiv(self.z, k) }
    }

    /// The componentwise product.
    pub fn times(&self, o: &Vector3) -> (r: Vector3)
        ensures
            r == self.times_spec(*o),
    {
        Vector3 { x: fmul(self.x, o.x), y: fmul(self.y, o.y), z: fmul(self.z, o.z) }
    }

    /// The componentwise minimum.
    pub fn min(a: &Vector3, b: &Vector3) -> (r: Vector3)
        ensures
            r == Vector3::min_of(*a, *b),
    {
        Vector3 { x: min_i64(a.x, b.x), y: min_i64(a.y, b.y), z: min_i64(a.z, b.z) }
    }

    /// The componentwise maximum.
    pub fn max(a: &Vector3, b: &Vector3) -> (r: Vector3)
        ensures
            r == Vector3::max_of(*a, *b),
    {
        Vector3 { x: max_i64(a.x, b.x), y: max_i64(a.y, b.y), z: max_i64(a.z, b.z) }
    }
}

/// `(a * b - c * d) / SCALE`, cut off at the ends of `i64`.
fn cross_term(a: i64, b: i64, c: i64, d: i64) -> (r: i64)
    ensures
        r == saturate((a * b - c * d) / (SCALE as int)),
{
    let (q1, r1) = mul_split(a, b);
    let (q2, r2) = mul_split(c, d);
    join(q1 - q2, r1 - r2)
}

/// The scalar product of two vectors.
pub fn dot(a: &Vector3, b: &Vector3) -> (r: i64)
    ensures
        r == a.dot_spec(*b),
{
    let (q1, r1) = mul_split(a.x, b.x);
    let (q2, r2) = mul_split(a.y, b.y);
    let (q3, r3) = mul_split(a.z, b.z);
    join(q1 + q2 + q3, r1 + r2 + r3)
}

/// The vector product of two vectors.
pub fn cross(a: &Vector3, b: &Vector3) -> (r: Vector3)
    ensures
        r == a.cross_spec(*b),
{
    Vector3 {
        x: cross_term(a.y, b.z, a.z, b.y),
        y: cross_term(a.z, b.x, a.x, b.z),
        z: cross_term(a.x, b.y, a.y, b.x),
    }
}

/// A length is not negative.
pub proof fn lemma_norm_nonnegative(v: Vector3)
    ensures
        v.norm_spec() >= 0,
{
    assert(v.x * v.x >= 0 && v.y * v.y >= 0 && v.z * v.z >= 0) by (nonlinear_arith);
    crate::fixed::lemma_sqrt_exists(v.norm_squared());
}

/// The length of a vector.
pub fn norm(v: &Vector3) -> (r: i64)
    ensures
        r == v.norm_spec(),
        r >= 0,
{
    proof {
        lemma_product_fits(v.x, v.x);
        lemma_product_fits(v.y, v.y);
        lemma_product_fits(v.z, v.z);
        assert(v.x * v.x >= 0 && v.y * v.y >= 0 && v.z * v.z >= 0) by (nonlinear_arith);
    }
    let xx: u128 = (v.x as i128 * v.x as i128) as u128;
    let yy: u128 = (v.y as i128 * v.y as i128) as u128;
    let zz: u128 = (v.z as i128 * v.z as i128) as u128;
    let root: u128 = isqrt(xx + yy + zz);
    if root > i64::MAX as u128 {
        i64::MAX
    } else {
        root as i64
    }
}

/// The vector scaled to unit length; the zero vector stays zero.
pub fn normalize(v: &Vector3) -> (r: Vector3)
    ensures
        r == v.normalize_spec(),
{
    v.divided(norm(v))
}

} // verus!
