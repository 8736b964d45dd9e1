//! Triangles, and meshes of triangles behind a hierarchy of their own.

use vstd::prelude::*;
use crate::bounds3::{Bounds3, HALF};
use crate::bvh::{all_wf, areas_of, boxes_of, BVHAccel};
use crate::exact::{cross_exact, cross_raw, dot_exact, dot_triple};
use crate::fixed::{fdiv, fdiv_spec, floor_div, fmul, fmul_spec, sat_sub, saturate, SCALE};
use crate::global::SampleStream;
use crate::intersection::Intersection;
use crate::material::{fsqrt, fsqrt_spec, Material};
use crate::object::Object;
use crate::ray::{Ray, RANGE};
use crate::utils::{faces_spec, load_triangles, total_area, total_bounds};
use crate::vector::{cross, dot, norm, normalize, Vector3};

verus! {

/// The least determinant, in raw units cubed, below which a ray counts as
/// parallel to a triangle: the tolerance `EPSILON` at the scale of the
/// determinant.
pub const DET_MIN: i128 = 4294967296;

#[derive(Clone, Copy, Debug)]
pub struct Triangle {
    pub v0: Vector3,
    pub v1: Vector3,
    pub v2: Vector3,
    pub e1: Vector3,
    pub e2: Vector3,
    pub normal: Vector3,
    pub area: i64,
    pub m: Option<Material>,
}

/// The numbers that decide whether a ray meets a triangle: the determinant
/// and the numerators of the two surface coordinates and of the ray's
/// parameter, all over the determinant, with signs turned so that the
/// determinant is not negative.
pub struct Solution {
    pub det: int,
    pub u: int,
    pub v: int,
    pub t: int,
}

impl Triangle {
    /// Whether the vertices lie in the range of the exact tests.
    pub open spec fn in_range(self) -> bool {
        &&& self.v0.within(RANGE)
        &&& self.v1.within(RANGE)
        &&& self.v2.within(RANGE)
    }

    /// The edges, the normal and the area as they follow from the vertices.
    pub open spec fn of(v0: Vector3, v1: Vector3, v2: Vector3, m: Option<Material>) -> Triangle {
        let e1 = v1.minus_spec(v0);
        let e2 = v2.minus_spec(v0);
        Triangle {
            v0,
            v1,
            v2,
            e1,
            e2,
            normal: e1.cross_spec(e2).normalize_spec(),
            area: fmul_spec(e1.cross_spec(e2).norm_spec(), HALF),
            m,
        }
    }

    /// Whether edges, normal and area are those that follow from the vertices.
    pub open spec fn consistent(self) -> bool {
        self == Triangle::of(self.v0, self.v1, self.v2, self.m)
    }

    /// The linear system of ray and triangle, solved by determinants.
    pub open spec fn solve(self, ray: Ray) -> Solution {
        let pvec = cross_raw(ray.direction, self.e2);
        let det = dot_triple(self.e1, pvec);
        let tvec = ray.origin.minus_spec(self.v0);
        let qvec = cross_raw(tvec, self.e1);
        let u = dot_triple(tvec, pvec);
        let v = dot_triple(ray.direction, qvec);
        let t = dot_triple(self.e2, qvec);
        if det < 0 {
            Solution { det: -det, u: -u, v: -v, t: -t }
        } else {
            Solution { det, u, v, t }
        }
    }

    /// What a ray meets on the triangle. A ray that leaves through the back,
    /// runs parallel, passes outside or starts beyond the triangle meets
    /// nothing; neither does a ray or a triangle out of range.
    pub open spec fn hit(self, ray: Ray) -> Intersection {
        let s = self.solve(ray);
        let dist = (s.t * SCALE) / s.det;
        if !self.in_range() || !ray.in_range() {
            Intersection::none()
        } else if ray.direction.dot_spec(self.normal) > 0 {
            Intersection::none()
        } else if s.det < DET_MIN {
            Intersection::none()
        } else if s.u < 0 || s.u > s.det {
            Intersection::none()
        } else if s.v < 0 || s.u + s.v > s.det {
            Intersection::none()
        } else if s.t < 0 || dist >= i64::MAX {
            Intersection::none()
        } else {
            Intersection {
                happened: true,
                coords: ray.at_spec(dist as i64),
                normal: self.normal,
                distance: dist as i64,
                m: self.m,
                emit: Vector3 { x: 0, y: 0, z: 0 },
            }
        }
    }

    /// The smallest box around the three vertices.
    pub open spec fn bounds(self) -> Bounds3 {
        Bounds3::union_point_spec(Bounds3::of_points(self.v0, self.v1), self.v2)
    }

    pub fn new(v0: Vector3, v1: Vector3, v2: Vector3, m: Option<Material>) -> (t: Triangle)
        ensures
            t == Triangle::of(v0, v1, v2, m),
            t.consistent(),
    {
        let e1 = v1.minus(&v0);
        let e2 = v2.minus(&v0);
        let area = fmul(norm(&cross(&e1, &e2)), HALF);
        let normal = normalize(&cross(&e1, &e2));
        Triangle { v0, v1, v2, e1, e2, normal, area, m }
    }

    /// Whether the vertices lie in the range of the exact tests.
    pub fn is_in_range(&self) -> (b: bool)
        ensures
            b == self.in_range(),
    {
        self.v0.is_within(RANGE) && self.v1.is_within(RANGE) && self.v2.is_within(RANGE)
    }
}

/// A weighted mean of three values lies between their bounds: with weights
/// `det - u - v`, `u` and `v` that are not negative.
proof fn lemma_between(det: int, u: int, v: int, x0: int, x1: int, x2: int, lo: int, hi: int)
    requires
        0 <= u,
        0 <= v,
        u + v <= det,
        lo <= x0 <= hi,
        lo <= x1 <= hi,
        lo <= x2 <= hi,
    ensures
        lo * det <= (det - u - v) * x0 + u * x1 + v * x2 <= hi * det,
{
    let w = det - u - v;
    assert(w * lo <= w * x0 <= w * hi) by (nonlinear_arith)
        requires
            0 <= w,
            lo <= x0 <= hi,
    ;
    assert(u * lo <= u * x1 <= u * hi) by (nonlinear_arith)
        requires
            0 <= u,
            lo <= x1 <= hi,
    ;
    assert(v * lo <= v * x2 <= v * hi) by (nonlinear_arith)
        requires
            0 <= v,
            lo <= x2 <= hi,
    ;
    assert(w * lo + u * lo + v * lo == lo * det) by (nonlinear_arith)
        requires
            w + u + v == det,
    ;
    assert(w * hi + u * hi + v * hi == hi * det) by (nonlinear_arith)
        requires
            w + u + v == det,
    ;
}

/// On one axis: where Cramer's rule holds of the solution, the point of the
/// ray at parameter `t / det` is the weighted mean of the three vertices.
proof fn lemma_axis(
    det: int, u: int, v: int, t: int,
    o: int, d: int, x0: int, x1: int, x2: int, lo: int, hi: int,
)
    requires
        0 <= u,
        0 <= v,
        u + v <= det,
        det * (o - x0) + t * d == u * (x1 - x0) + v * (x2 - x0),
        lo <= x0 <= hi,
        lo <= x1 <= hi,
        lo <= x2 <= hi,
    ensures
        lo * det <= o * det + t * d <= hi * det,
{
    lemma_between(det, u, v, x0, x1, x2, lo, hi);
    assert(det * (o - x0) == o * det - det * x0) by (nonlinear_arith);
    assert(u * (x1 - x0) == u * x1 - u * x0) by (nonlinear_arith);
    assert(v * (x2 - x0) == v * x2 - v * x0) by (nonlinear_arith);
    assert((det - u - v) * x0 == det * x0 - u * x0 - v * x0) by (nonlinear_arith);
}

/// Negating all four numbers of a solution keeps Cramer's rule.
proof fn lemma_negate(det: int, u: int, v: int, t: int, tx: int, dx: int, ax: int, bx: int)
    requires
        det * tx + t * dx == u * ax + v * bx,
    ensures
        (-det) * tx + (-t) * dx == (-u) * ax + (-v) * bx,
{
    assert((-det) * tx == -(det * tx)) by (nonlinear_arith);
    assert((-t) * dx == -(t * dx)) by (nonlinear_arith);
    assert((-u) * ax == -(u * ax)) by (nonlinear_arith);
    assert((-v) * bx == -(v * bx)) by (nonlinear_arith);
}

impl Triangle {
    /// Cramer's rule for the solution of ray and triangle, on all three axes.
    pub proof fn lemma_solution(self, ray: Ray)
        ensures
            ({
                let s = self.solve(ray);
                let tv = ray.origin.minus_spec(self.v0);
                let d = ray.direction;
                &&& s.det * tv.x + s.t * d.x == s.u * self.e1.x + s.v * self.e2.x
                &&& s.det * tv.y + s.t * d.y == s.u * self.e1.y + s.v * self.e2.y
                &&& s.det * tv.z + s.t * d.z == s.u * self.e1.z + s.v * self.e2.z
            }),
    {
        let tv = ray.origin.minus_spec(self.v0);
        let d = ray.direction;
        let a = self.e1;
        let b = self.e2;
        let pvec = cross_raw(d, b);
        let qvec = cross_raw(tv, a);
        let det = dot_triple(a, pvec);
        let u = dot_triple(tv, pvec);
        let v = dot_triple(d, qvec);
        let t = dot_triple(b, qvec);
        crate::exact::lemma_cramer(
            tv.x as int, tv.y as int, tv.z as int, d.x as int, d.y as int, d.z as int,
            a.x as int, a.y as int, a.z as int, b.x as int, b.y as int, b.z as int,
        );
        crate::exact::lemma_cramer(
            tv.y as int, tv.z as int, tv.x as int, d.y as int, d.z as int, d.x as int,
            a.y as int, a.z as int, a.x as int, b.y as int, b.z as int, b.x as int,
        );
        crate::exact::lemma_cramer(
            tv.z as int, tv.x as int, tv.y as int, d.z as int, d.x as int, d.y as int,
            a.z as int, a.x as int, a.y as int, b.z as int, b.x as int, b.y as int,
        );
        assert(det * tv.x + t * d.x == u * a.x + v * b.x);
        assert(det * tv.y + t * d.y == u * a.y + v * b.y);
        assert(det * tv.z + t * d.z == u * a.z + v * b.z);
        if det < 0 {
            lemma_negate(det, u, v, t, tv.x as int, d.x as int, a.x as int, b.x as int);
            lemma_negate(det, u, v, t, tv.y as int, d.y as int, a.y as int, b.y as int);
            lemma_negate(det, u, v, t, tv.z as int, d.z as int, a.z as int, b.z as int);
        }
    }
}

impl Triangle {
    /// The point and density that the area-uniform sampler gives for the
    /// uniform values `u1` and `u2`: with `x` the root of `u1`, the point
    /// `v0 (1 - x) + v1 x (1 - u2) + v2 x u2`, at density one over the area.
    pub open spec fn sample_at(self, u1: i64, u2: i64) -> (Intersection, i64) {
        let x = fsqrt_spec(u1);
        let y = u2;
        let coords = self.v0.scaled_spec(saturate(SCALE - x)).plus_spec(
            self.v1.scaled_spec(fmul_spec(x, saturate(SCALE - y))),
        ).plus_spec(self.v2.scaled_spec(fmul_spec(x, y)));
        (
            Intersection {
                happened: false,
                coords,
                normal: self.normal,
                distance: i64::MAX,
                m: None,
                emit: Vector3 { x: 0, y: 0, z: 0 },
            },
            fdiv_spec(SCALE, self.area),
        )
    }

    /// Whether the triangle's material gives off light.
    pub open spec fn emits_light(self) -> bool {
        match self.m {
            Some(m) => m.emits(),
            None => false,
        }
    }
}

impl Object for Triangle {
    open spec fn wf(&self) -> bool {
        self.consistent()
    }

    open spec fn hit_spec(&self, ray: Ray) -> Intersection {
        self.hit(ray)
    }

    open spec fn bounds_spec(&self) -> Bounds3 {
        self.bounds()
    }

    open spec fn area_spec(&self) -> i64 {
        self.area
    }

    open spec fn emits(&self) -> bool {
        self.emits_light()
    }

    open spec fn sample_spec(&self, s: SampleStream) -> (Intersection, i64, SampleStream) {
        let (pos, pdf) = self.sample_at(s.peek(), s.advanced().peek());
        (pos, pdf, s.advanced().advanced())
    }

    fn get_intersection(&self, ray: Ray) -> (inter: Intersection) {
        let inter = Intersection::new();
        if !self.is_in_range() || !ray.is_in_range() {
            return inter;
        }
        if dot(&ray.direction, &self.normal) > 0 {
            return inter;
        }
        let pvec = cross_exact(&ray.direction, &self.e2);
        let det0 = dot_exact(&self.e1, &pvec);
        let tvec = ray.origin.minus(&self.v0);
        let qvec = cross_exact(&tvec, &self.e1);
        let u0 = dot_exact(&tvec, &pvec);
        let v0 = dot_exact(&ray.direction, &qvec);
        let t0 = dot_exact(&self.e2, &qvec);
        let (det, u, v, t) = if det0 < 0 {
            (-det0, -u0, -v0, -t0)
        } else {
            (det0, u0, v0, t0)
        };
        if det < DET_MIN {
            return inter;
        }
        if u < 0 || u > det {
            return inter;
        }
        if v < 0 || u + v > det {
            return inter;
        }
        if t < 0 {
            return inter;
        }
        let dist = floor_div(t * 65536, det);
        if dist >= i64::MAX as i128 {
            return inter;
        }
        Intersection {
            happened: true,
            coords: ray.at(dist as i64),
            normal: self.normal,
            distance: dist as i64,
            m: self.m,
            emit: Vector3::zeros(),
        }
    }

    fn get_bounds(&self) -> (b: Bounds3) {
        Bounds3::union_point(&Bounds3::new(self.v0, self.v1), &self.v2)
    }

    fn get_area(&self) -> (a: i64) {
        proof {
            crate::bounds3::lemma_half(self.e1.cross_spec(self.e2).norm_spec());
            crate::vector::lemma_norm_nonnegative(self.e1.cross_spec(self.e2));
        }
        self.area
    }

    fn sample(&self, s: &mut SampleStream) -> (r: (Intersection, i64)) {
        let x = fsqrt(s.get_random_float());
        let y = s.get_random_float();
        let mut pos = Intersection::new();
        pos.coords = self.v0.scaled(sat_sub(SCALE, x)).plus(
            &self.v1.scaled(fmul(x, sat_sub(SCALE, y))),
        ).plus(&self.v2.scaled(fmul(x, y)));
        pos.normal = self.normal;
        let pdf = fdiv(SCALE, self.area);
        (pos, pdf)
    }

    fn has_emit(&self) -> (b: bool) {
        if let Some(m) = self.m.as_ref() {
            m.has_emission()
        } else {
            false
        }
    }

    proof fn lemma_hit_in_bounds(&self, ray: Ray) {
        let h = self.hit(ray);
        if h.happened {
            let s = self.solve(ray);
            self.lemma_solution(ray);
            let b = self.bounds();
            lemma_axis(
                s.det, s.u, s.v, s.t, ray.origin.x as int, ray.direction.x as int,
                self.v0.x as int, self.v1.x as int, self.v2.x as int,
                b.p_min.x as int, b.p_max.x as int,
            );
            lemma_axis(
                s.det, s.u, s.v, s.t, ray.origin.y as int, ray.direction.y as int,
                self.v0.y as int, self.v1.y as int, self.v2.y as int,
                b.p_min.y as int, b.p_max.y as int,
            );
            lemma_axis(
                s.det, s.u, s.v, s.t, ray.origin.z as int, ray.direction.z as int,
                self.v0.z as int, self.v1.z as int, self.v2.z as int,
                b.p_min.z as int, b.p_max.z as int,
            );
            assert(b.reaches(ray, s.t, s.det));
        }
    }
}

/// A mesh of triangles with one material, behind a tree of its own.
#[derive(Debug)]
pub struct MeshTriangle {
    pub bounding_box: Bounds3,
    pub triangles: Vec<Triangle>,
    pub bvh: Option<BVHAccel>,
    pub m: Option<Material>,
    pub area: i64,
}

impl MeshTriangle {
    /// What a ray meets on the mesh: the nearest of what it meets on the
    /// triangles; nothing where the mesh has no tree.
    pub open spec fn hit(self, ray: Ray) -> Intersection {
        match self.bvh {
            Some(b) => b.hit(self.triangles@, ray),
            None => Intersection::none(),
        }
    }

    /// Whether the mesh's material gives off light.
    pub open spec fn emits_light(self) -> bool {
        match self.m {
            Some(m) => m.emits(),
            None => false,
        }
    }

    /// What the mesh emits: nothing where it has no material.
    pub open spec fn emission(self) -> Vector3 {
        match self.m {
            Some(m) => m.m_emission,
            None => Vector3 { x: 0, y: 0, z: 0 },
        }
    }

    /// The point drawn from the mesh: the one its tree draws, with the
    /// mesh's emission noted in it.
    pub open spec fn sample_from(self, s: SampleStream) -> (Intersection, i64, SampleStream) {
        match self.bvh {
            Some(b) => {
                let (pos, pdf, after) = b.sample_spec(self.triangles@, s);
                (
                    Intersection {
                        happened: pos.happened,
                        coords: pos.coords,
                        normal: pos.normal,
                        distance: pos.distance,
                        m: pos.m,
                        emit: self.emission(),
                    },
                    pdf,
                    after,
                )
            },
            None => (Intersection::none(), 0, s),
        }
    }

    /// The mesh with the given coordinates and faces, each three by three,
    /// and the material `m`, with its tree built.
    pub fn from_obj(positions: &Vec<i64>, indices: &Vec<u32>, m: Material) -> (r: MeshTriangle)
        ensures
            r.wf(),
            r.triangles@ == faces_spec(positions@, indices@, m, indices.len() as int / 3),
            r.bounding_box == total_bounds(r.triangles@),
            r.area == total_area(r.triangles@),
            r.m == Some(m),
            r.bvh matches Some(b) && b.covers(r.triangles@),
    {
        let (bounding_box, triangles, area) = load_triangles(positions, indices, m);
        let bvh = BVHAccel::default(&triangles);
        proof {
            if bvh.root is Some {
                let n = *bvh.root->0;
                let boxes = boxes_of(triangles@);
                n.lemma_leaves_valid(boxes, areas_of(triangles@));
                assert forall|i: int| 0 <= i < n.leaves().len() implies bounding_box.encloses(
                    boxes[(#[trigger] n.leaves()[i]) as int],
                ) by {
                    let k = n.leaves()[i] as int;
                    assert(bounding_box.encloses(triangles[k].bounds()));
                }
                n.lemma_enclosed_by(boxes, areas_of(triangles@), bounding_box);
            }
        }
        MeshTriangle { bounding_box, triangles, bvh: Some(bvh), m: Some(m), area }
    }
}

impl Object for MeshTriangle {
    open spec fn wf(&self) -> bool {
        &&& all_wf(self.triangles@)
        &&& self.area >= 0
        &&& self.bvh matches Some(b) ==> {
            &&& b.wf(self.triangles@)
            &&& b.covers(self.triangles@)
            &&& b.root matches Some(n) ==> self.bounding_box.encloses(n.bounds)
        }
    }

    open spec fn hit_spec(&self, ray: Ray) -> Intersection {
        self.hit(ray)
    }

    open spec fn bounds_spec(&self) -> Bounds3 {
        self.bounding_box
    }

    open spec fn area_spec(&self) -> i64 {
        self.area
    }

    open spec fn emits(&self) -> bool {
        self.emits_light()
    }

    open spec fn sample_spec(&self, s: SampleStream) -> (Intersection, i64, SampleStream) {
        self.sample_from(s)
    }

    fn get_intersection(&self, ray: Ray) -> (inter: Intersection) {
        if self.bvh.is_some() {
            let bvh = self.bvh.as_ref().unwrap();
            bvh.intersect(&self.triangles, &ray)
        } else {
            Intersection::new()
        }
    }

    fn get_bounds(&self) -> (b: Bounds3) {
        self.bounding_box
    }

    fn get_area(&self) -> (a: i64) {
        self.area
    }

    fn sample(&self, s: &mut SampleStream) -> (r: (Intersection, i64)) {
        match &self.bvh {
            Some(bvh) => {
                let (mut pos, pdf) = bvh.sample(&self.triangles, s);
                pos.emit = match &self.m {
                    Some(m) => *m.get_emission(),
                    None => Vector3::zeros(),
                };
                (pos, pdf)
            },
            None => (Intersection::new(), 0),
        }
    }

    fn has_emit(&self) -> (b: bool) {
        if let Some(m) = self.m.as_ref() {
            m.has_emission()
        } else {
            false
        }
    }

    proof fn lemma_hit_in_bounds(&self, ray: Ray) {
        match self.bvh {
            Some(b) => {
                b.lemma_intersect_is_nearest(self.triangles@, ray);
                match b.root {
                    Some(n) => {
                        if n.hit(self.triangles@, ray).happened {
                            crate::slab::lemma_enclosing_hit(self.bounding_box, n.bounds, ray);
                        }
                    },
                    None => {},
                }
            },
            None => {},
        }
    }
}

} // verus!
