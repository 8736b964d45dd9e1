//! The slab test: does a ray pass through a box?
//!
//! The test compares fractions by cross-multiplying, so its answer is exact:
//! it says yes if and only if some point of the ray lies in the box.

use vstd::prelude::*;
use crate::bounds3::Bounds3;
use crate::ray::{Ray, RANGE};

verus! {

/// Whether `a / b <= c / d`, for positive `b` and `d`.
spec fn frac_le(a: int, b: int, c: int, d: int) -> bool {
    a * d <= c * b
}

/// Whether on one axis the point `o + (n / m) * d` lies between `lo` and `hi`.
pub open spec fn axis_reaches(lo: i64, hi: i64, o: i64, d: i64, n: int, m: int) -> bool {
    lo * m <= o * m + n * d <= hi * m
}

impl Bounds3 {
    /// Whether the point of the ray at parameter `n / m` lies in the box.
    pub open spec fn reaches(self, ray: Ray, n: int, m: int) -> bool {
        &&& m > 0
        &&& n >= 0
        &&& axis_reaches(self.p_min.x, self.p_max.x, ray.origin.x, ray.direction.x, n, m)
        &&& axis_reaches(self.p_min.y, self.p_max.y, ray.origin.y, ray.direction.y, n, m)
        &&& axis_reaches(self.p_min.z, self.p_max.z, ray.origin.z, ray.direction.z, n, m)
    }

    /// Whether some point of the ray, at a parameter that is not negative,
    /// lies in the box or on its faces.
    pub open spec fn hit_by(self, ray: Ray) -> bool {
        exists|n: int, m: int| self.reaches(ray, n, m)
    }
}

/// What one axis asks of the ray's parameter: where the direction has a
/// component along the axis, `near / den <= t <= far / den`.
struct Slab {
    bounded: bool,
    inside: bool,
    near: i128,
    far: i128,
    den: i128,
}

impl Slab {
    spec fn of(lo: i64, hi: i64, o: i64, d: i64) -> Slab {
        if d > 0 {
            Slab { bounded: true, inside: true, near: (lo - o) as i128, far: (hi - o) as i128, den: d as i128 }
        } else if d < 0 {
            Slab { bounded: true, inside: true, near: (o - hi) as i128, far: (o - lo) as i128, den: (-d) as i128 }
        } else {
            Slab { bounded: false, inside: lo <= o <= hi, near: 0, far: 0, den: 1 }
        }
    }

    spec fn wf(self) -> bool {
        &&& 0 < self.den <= RANGE
        &&& -0x1_0000_0000_0000_0000 <= self.near <= 0x1_0000_0000_0000_0000
        &&& -0x1_0000_0000_0000_0000 <= self.far <= 0x1_0000_0000_0000_0000
    }

    /// Whether the parameter `n / m` meets what the axis asks.
    spec fn admits(self, n: int, m: int) -> bool {
        if self.bounded {
            frac_le(self.near as int, self.den as int, n, m) && frac_le(n, m, self.far as int, self.den as int)
        } else {
            self.inside
        }
    }

    fn new(lo: i64, hi: i64, o: i64, d: i64) -> (s: Slab)
        requires
            -RANGE <= o <= RANGE,
            -RANGE <= d <= RANGE,
        ensures
            s == Slab::of(lo, hi, o, d),
            s.wf(),
    {
        if d > 0 {
            Slab { bounded: true, inside: true, near: lo as i128 - o as i128, far: hi as i128 - o as i128, den: d as i128 }
        } else if d < 0 {
            Slab { bounded: true, inside: true, near: o as i128 - hi as i128, far: o as i128 - lo as i128, den: -(d as i128) }
        } else {
            Slab { bounded: false, inside: lo <= o && o <= hi, near: 0, far: 0, den: 1 }
        }
    }

    /// The later of the parameter `n / m` and the one at which the ray
    /// enters the slab.
    fn raise(&self, n: i128, m: i128) -> (r: (i128, i128))
        requires
            self.wf(),
            0 < m <= RANGE,
            0 <= n <= 0x1_0000_0000_0000_0000,
        ensures
            0 < r.1 <= RANGE,
            0 <= r.0 <= 0x1_0000_0000_0000_0000,
            r == (n, m) || (self.bounded && r == (self.near, self.den)),
            frac_le(n as int, m as int, r.0 as int, r.1 as int),
            self.bounded ==> frac_le(self.near as int, self.den as int, r.0 as int, r.1 as int),
    {
        if !self.bounded {
            return (n, m);
        }
        proof {
            lemma_product_bound(self.near as int, m as int);
            lemma_product_bound(n as int, self.den as int);
        }
        if self.near * m > n * self.den {
            proof {
                assert(self.near > 0) by (nonlinear_arith)
                    requires
                        self.near * m > n * self.den,
                        m > 0,
                        n >= 0,
                        self.den > 0,
                ;
            }
            (self.near, self.den)
        } else {
            (n, m)
        }
    }

    /// Whether the ray has not left the slab at parameter `n / m`.
    fn within_far(&self, n: i128, m: i128) -> (b: bool)
        requires
            self.wf(),
            0 < m <= RANGE,
            0 <= n <= 0x1_0000_0000_0000_0000,
        ensures
            b == (self.bounded ==> frac_le(n as int, m as int, self.far as int, self.den as int)),
    {
        if !self.bounded {
            return true;
        }
        proof {
            lemma_product_bound(self.far as int, m as int);
            lemma_product_bound(n as int, self.den as int);
        }
        n * self.den <= self.far * m
    }
}

/// A product of a 65-bit and a 33-bit factor fits in `i128`.
proof fn lemma_product_bound(a: int, b: int)
    requires
        -0x1_0000_0000_0000_0000 <= a <= 0x1_0000_0000_0000_0000,
        -0x1_0000_0000 <= b <= 0x1_0000_0000,
    ensures
        -0x1_0000_0000_0000_0000_0000_0000 <= a * b <= 0x1_0000_0000_0000_0000_0000_0000,
{
    assert(-0x1_0000_0000_0000_0000_0000_0000 <= a * b <= 0x1_0000_0000_0000_0000_0000_0000)
        by (nonlinear_arith)
        requires
            -0x1_0000_0000_0000_0000 <= a <= 0x1_0000_0000_0000_0000,
            -0x1_0000_0000 <= b <= 0x1_0000_0000,
    ;
}

/// The order of fractions with positive denominators is transitive.
proof fn lemma_frac_le_transitive(a: int, b: int, c: int, d: int, e: int, f: int)
    requires
        b > 0,
        d > 0,
        f > 0,
        frac_le(a, b, c, d),
        frac_le(c, d, e, f),
    ensures
        frac_le(a, b, e, f),
{
    assert((a * d) * f <= (c * b) * f) by (nonlinear_arith)
        requires
            a * d <= c * b,
            f > 0,
    ;
    assert((c * f) * b <= (e * d) * b) by (nonlinear_arith)
        requires
            c * f <= e * d,
            b > 0,
    ;
    assert((a * d) * f == (a * f) * d) by (nonlinear_arith);
    assert((c * b) * f == (c * f) * b) by (nonlinear_arith);
    assert((e * d) * b == (e * b) * d) by (nonlinear_arith);
    assert(a * f <= e * b) by (nonlinear_arith)
        requires
            (a * f) * d <= (e * b) * d,
            d > 0,
    ;
}

/// On one axis, a parameter meets what the slab asks exactly when the point
/// at that parameter lies between the two faces.
proof fn lemma_admits_is_reaches(lo: i64, hi: i64, o: i64, d: i64, n: int, m: int)
    requires
        m > 0,
    ensures
        Slab::of(lo, hi, o, d).admits(n, m) == axis_reaches(lo, hi, o, d, n, m),
{
    let s = Slab::of(lo, hi, o, d);
    if d > 0 {
        assert((lo - o) * m == lo * m - o * m) by (nonlinear_arith);
        assert((hi - o) * m == hi * m - o * m) by (nonlinear_arith);
    } else if d < 0 {
        assert((o - hi) * m == o * m - hi * m) by (nonlinear_arith);
        assert((o - lo) * m == o * m - lo * m) by (nonlinear_arith);
        assert(n * (-d) == -(n * d)) by (nonlinear_arith);
    } else {
        assert(n * d == 0) by (nonlinear_arith)
            requires
                d == 0,
        ;
        assert((lo <= o) == (lo * m <= o * m)) by (nonlinear_arith)
            requires
                m > 0,
        ;
        assert((o <= hi) == (o * m <= hi * m)) by (nonlinear_arith)
            requires
                m > 0,
        ;
    }
}

impl Bounds3 {
    /// What the three axes ask of the ray.
    spec fn slabs(self, ray: Ray) -> (Slab, Slab, Slab) {
        (
            Slab::of(self.p_min.x, self.p_max.x, ray.origin.x, ray.direction.x),
            Slab::of(self.p_min.y, self.p_max.y, ray.origin.y, ray.direction.y),
            Slab::of(self.p_min.z, self.p_max.z, ray.origin.z, ray.direction.z),
        )
    }

    /// A parameter reaches the box exactly when all three slabs admit it.
    proof fn lemma_reaches_is_admitted(self, ray: Ray, n: int, m: int)
        ensures
            self.reaches(ray, n, m) == {
                let (sx, sy, sz) = self.slabs(ray);
                m > 0 && n >= 0 && sx.admits(n, m) && sy.admits(n, m) && sz.admits(n, m)
            },
    {
        if m > 0 {
            lemma_admits_is_reaches(self.p_min.x, self.p_max.x, ray.origin.x, ray.direction.x, n, m);
            lemma_admits_is_reaches(self.p_min.y, self.p_max.y, ray.origin.y, ray.direction.y, n, m);
            lemma_admits_is_reaches(self.p_min.z, self.p_max.z, ray.origin.z, ray.direction.z, n, m);
        }
    }

    /// The slab test. A ray outside the exact range hits nothing; any other
    /// ray hits the box exactly when one of its points lies in the box, a
    /// point on a face or in a box without thickness included.
    pub fn intersect_p(&self, ray: &Ray) -> (hit: bool)
        ensures
            hit == (ray.in_range() && self.hit_by(*ray)),
    {
        if !ray.is_in_range() {
            return false;
        }
        let sx = Slab::new(self.p_min.x, self.p_max.x, ray.origin.x, ray.direction.x);
        let sy = Slab::new(self.p_min.y, self.p_max.y, ray.origin.y, ray.direction.y);
        let sz = Slab::new(self.p_min.z, self.p_max.z, ray.origin.z, ray.direction.z);
        if !(sx.inside && sy.inside && sz.inside) {
            proof {
                assert forall|n: int, m: int| !self.reaches(*ray, n, m) by {
                    self.lemma_reaches_is_admitted(*ray, n, m);
                }
            }
            return false;
        }
        let (n1, m1) = sx.raise(0, 1);
        let (n2, m2) = sy.raise(n1, m1);
        let (n3, m3) = sz.raise(n2, m2);
        let fx = sx.within_far(n3, m3);
        let fy = sy.within_far(n3, m3);
        let fz = sz.within_far(n3, m3);
        let hit = fx && fy && fz;
        proof {
            let (n, m) = (n3 as int, m3 as int);
            lemma_frac_le_transitive(n1 as int, m1 as int, n2 as int, m2 as int, n, m);
            if sx.bounded {
                lemma_frac_le_transitive(sx.near as int, sx.den as int, n1 as int, m1 as int, n2 as int, m2 as int);
                lemma_frac_le_transitive(sx.near as int, sx.den as int, n2 as int, m2 as int, n, m);
            }
            if sy.bounded {
                lemma_frac_le_transitive(sy.near as int, sy.den as int, n2 as int, m2 as int, n, m);
            }
            if hit {
                self.lemma_reaches_is_admitted(*ray, n, m);
                assert(self.reaches(*ray, n, m));
            } else {
                assert forall|k: int, l: int| !self.reaches(*ray, k, l) by {
                    self.lemma_reaches_is_admitted(*ray, k, l);
                    if l > 0 && k >= 0 && sx.admits(k, l) && sy.admits(k, l) && sz.admits(k, l) {
                        // the entry parameter is no later than any admitted one
                        assert(frac_le(n, m, k, l)) by {
                            assert(0 * l <= k * 1);
                        }
                        if !fx {
                            lemma_frac_le_transitive(n, m, k, l, sx.far as int, sx.den as int);
                        } else if !fy {
                            lemma_frac_le_transitive(n, m, k, l, sy.far as int, sy.den as int);
                        } else {
                            lemma_frac_le_transitive(n, m, k, l, sz.far as int, sz.den as int);
                        }
                    }
                }
            }
        }
        hit
    }
}

/// A ray in range that starts strictly inside a box hits the box, whatever
/// its direction.
pub proof fn lemma_origin_inside_hits(b: Bounds3, ray: Ray)
    requires
        ray.in_range(),
        b.contains_strictly(ray.origin),
    ensures
        ray.in_range() && b.hit_by(ray),
{
    assert(b.reaches(ray, 0, 1));
}

/// On one axis, a point between two faces lies between any two faces
/// further out.
proof fn lemma_axis_wider(lo: i64, hi: i64, lo2: i64, hi2: i64, o: i64, d: i64, n: int, m: int)
    requires
        m > 0,
        lo2 <= lo,
        hi <= hi2,
        axis_reaches(lo, hi, o, d, n, m),
    ensures
        axis_reaches(lo2, hi2, o, d, n, m),
{
    assert(lo2 * m <= lo * m) by (nonlinear_arith)
        requires
            lo2 <= lo,
            m > 0,
    ;
    assert(hi * m <= hi2 * m) by (nonlinear_arith)
        requires
            hi <= hi2,
            m > 0,
    ;
}

/// A ray that passes through a box passes through every box around it.
pub proof fn lemma_enclosing_hit(outer: Bounds3, inner: Bounds3, ray: Ray)
    requires
        outer.encloses(inner),
        inner.hit_by(ray),
    ensures
        outer.hit_by(ray),
{
    let (n, m) = choose|n: int, m: int| inner.reaches(ray, n, m);
    lemma_axis_wider(inner.p_min.x, inner.p_max.x, outer.p_min.x, outer.p_max.x, ray.origin.x, ray.direction.x, n, m);
    lemma_axis_wider(inner.p_min.y, inner.p_max.y, outer.p_min.y, outer.p_max.y, ray.origin.y, ray.direction.y, n, m);
    lemma_axis_wider(inner.p_min.z, inner.p_max.z, outer.p_min.z, outer.p_max.z, ray.origin.z, ray.direction.z, n, m);
    assert(outer.reaches(ray, n, m));
}

} // verus!
