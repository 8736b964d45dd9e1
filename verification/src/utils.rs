//! Assembling meshes from arrays of coordinates and vertex indices.

use vstd::prelude::*;
use crate::bounds3::Bounds3;
use crate::bvh::all_wf;
use crate::fixed::{sat_add, saturate};
use crate::material::Material;
use crate::object::Object;
use crate::triangle::Triangle;
use crate::vector::Vector3;

verus! {

/// The vertex with index `i` of a mesh whose coordinates stand three by
/// three in `positions`; none where the index leads past their end.
pub open spec fn vertex_spec(positions: Seq<i64>, i: u32) -> Option<Vector3> {
    if 3 * i + 2 < positions.len() {
        Some(Vector3 { x: positions[3 * i], y: positions[3 * i + 1], z: positions[3 * i + 2] })
    } else {
        None
    }
}

/// The triangle of face `f` of a mesh, whose vertex indices stand three by
/// three in `indices`. A face is left out where an index leads nowhere, a
/// vertex lies out of range, or the triangle has no area.
pub open spec fn face_spec(positions: Seq<i64>, indices: Seq<u32>, m: Material, f: int) -> Option<
    Triangle,
> {
    match (
        vertex_spec(positions, indices[3 * f]),
        vertex_spec(positions, indices[3 * f + 1]),
        vertex_spec(positions, indices[3 * f + 2]),
    ) {
        (Some(v0), Some(v1), Some(v2)) => {
            let t = Triangle::of(v0, v1, v2, Some(m));
            if t.in_range() && t.area > 0 {
                Some(t)
            } else {
                None
            }
        },
        _ => None,
    }
}

/// The triangles of the first `n` faces of a mesh, in the order of the faces.
pub open spec fn faces_spec(positions: Seq<i64>, indices: Seq<u32>, m: Material, n: int) -> Seq<
    Triangle,
>
    decreases n,
{
    if n <= 0 {
        Seq::empty()
    } else {
        let before = faces_spec(positions, indices, m, n - 1);
        match face_spec(positions, indices, m, n - 1) {
            Some(t) => before.push(t),
            None => before,
        }
    }
}

/// The areas of the triangles, summed and cut off at the upper end of `i64`.
pub open spec fn total_area(ts: Seq<Triangle>) -> i64
    decreases ts.len(),
{
    if ts.len() == 0 {
        0
    } else {
        saturate(total_area(ts.drop_last()) + ts.last().area)
    }
}

/// The smallest box around all the triangles.
pub open spec fn total_bounds(ts: Seq<Triangle>) -> Bounds3
    decreases ts.len(),
{
    if ts.len() == 0 {
        Bounds3::empty_spec()
    } else {
        Bounds3::union_spec(total_bounds(ts.drop_last()), ts.last().bounds())
    }
}

/// The vertex with index `i`, where the index leads to one.
fn vertex(positions: &Vec<i64>, i: u32) -> (v: Option<Vector3>)
    ensures
        v == vertex_spec(positions@, i),
{
    let at = i as u64 * 3;
    if at + 2 < positions.len() as u64 {
        let at = at as usize;
        Some(Vector3::new(positions[at], positions[at + 1], positions[at + 2]))
    } else {
        None
    }
}

/// Assembles the triangles of a mesh from its coordinates and its faces'
/// vertex indices, each three by three, all with the material `m`. Gives
/// the box around the triangles, the triangles, and the sum of their areas.
/// Indices left over after the last whole face are not read.
pub fn load_triangles(positions: &Vec<i64>, indices: &Vec<u32>, m: Material) -> (r: (
    Bounds3,
    Vec<Triangle>,
    i64,
))
    ensures
        r.1@ == faces_spec(positions@, indices@, m, indices.len() as int / 3),
        r.0 == total_bounds(r.1@),
        r.2 == total_area(r.1@),
        r.2 >= 0,
        all_wf(r.1@),
        forall|i: int| 0 <= i < r.1.len() ==> r.0.encloses((#[trigger] r.1[i]).bounds()),
{
    let n = indices.len() / 3;
    let mut triangles: Vec<Triangle> = Vec::new();
    let mut bounding_box = Bounds3::empty();
    let mut area: i64 = 0;
    let mut f: usize = 0;
    while f < n
        invariant
            0 <= f <= n,
            n == indices.len() / 3,
            triangles@ == faces_spec(positions@, indices@, m, f as int),
            bounding_box == total_bounds(triangles@),
            area == total_area(triangles@),
            area >= 0,
            all_wf(triangles@),
            forall|i: int|
                0 <= i < triangles.len() ==> bounding_box.encloses((#[trigger] triangles[i]).bounds()),
        decreases n - f,
    {
        let v0 = vertex(positions, indices[3 * f]);
        let v1 = vertex(positions, indices[3 * f + 1]);
        let v2 = vertex(positions, indices[3 * f + 2]);
        if v0.is_some() && v1.is_some() && v2.is_some() {
            let t = Triangle::new(v0.unwrap(), v1.unwrap(), v2.unwrap(), Some(m));
            if t.is_in_range() && t.area > 0 {
                let ghost before = triangles@;
                bounding_box = Bounds3::union_bounds(&bounding_box, &t.get_bounds());
                area = sat_add(area, t.area);
                triangles.push(t);
                proof {
                    assert(triangles@.drop_last() =~= before);
                    assert(triangles@.last() == t);
                }
            }
        }
        f += 1;
    }
    (bounding_box, triangles, area)
}

} // verus!
