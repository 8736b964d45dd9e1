//! Drawing points from the surfaces of the tree, in proportion to area.

use vstd::prelude::*;
use crate::bounds3::Bounds3;
use crate::bvh::{all_wf, areas_of, boxes_of, lemma_sum_areas_concat, lemma_sum_areas_nonnegative,
    BVHAccel, BVHBuildNode};
use crate::fixed::{fdiv, fdiv_spec, fmul, fmul_spec, sat_sub, saturate};
use crate::global::SampleStream;
use crate::intersection::Intersection;
use crate::material::{fsqrt, fsqrt_spec};
use crate::object::Object;

verus! {

impl BVHBuildNode {
    /// The leaf that the walk with target area `p` ends in: at an inner
    /// node it goes left where `p` is less than the left child's area, else
    /// right with the left child's area taken off `p`.
    pub open spec fn chosen(self, p: i64) -> Option<usize>
        decreases self,
    {
        match (self.left, self.right) {
            (Some(l), Some(r)) => if p < l.area {
                l.chosen(p)
            } else {
                r.chosen(saturate(p - l.area))
            },
            _ => self.object,
        }
    }

    /// The area of the leaf that the walk with target area `p` ends in.
    pub open spec fn chosen_area(self, p: i64) -> i64
        decreases self,
    {
        match (self.left, self.right) {
            (Some(l), Some(r)) => if p < l.area {
                l.chosen_area(p)
            } else {
                r.chosen_area(saturate(p - l.area))
            },
            _ => self.area,
        }
    }

    /// The point that the walk with target area `p` draws: the sample of
    /// the primitive in the leaf it ends in, its density multiplied by the
    /// leaf's area.
    pub open spec fn sample_spec<T: Object>(self, prims: Seq<T>, p: i64, s: SampleStream) -> (
        Intersection,
        i64,
        SampleStream,
    ) {
        match self.chosen(p) {
            Some(k) => {
                let (pos, pdf, after) = prims[k as int].sample_spec(s);
                (pos, fmul_spec(pdf, self.chosen_area(p)), after)
            },
            None => (Intersection::none(), 0, s),
        }
    }
}

impl BVHAccel {
    /// The point that `sample` draws: the walk from the root with the
    /// target area `sqrt(u) * area` for the next uniform value `u`, its
    /// density divided by the area of the root.
    pub open spec fn sample_spec<T: Object>(self, prims: Seq<T>, s: SampleStream) -> (
        Intersection,
        i64,
        SampleStream,
    ) {
        match self.root {
            Some(root) => {
                let p = fmul_spec(fsqrt_spec(s.peek()), root.area);
                let (pos, pdf, after) = root.sample_spec(prims, p, s.advanced());
                (pos, fdiv_spec(pdf, root.area), after)
            },
            None => (Intersection::none(), 0, s),
        }
    }

    /// Walks from `node` down to the leaf that the target area `p` falls
    /// in and draws a point from its primitive.
    pub fn get_sample<T: Object>(
        node: &BVHBuildNode,
        prims: &Vec<T>,
        p: i64,
        s: &mut SampleStream,
    ) -> (r: (Intersection, i64))
        requires
            all_wf(prims@),
            node.wf(boxes_of(prims@), areas_of(prims@)),
        ensures
            (r.0, r.1, *final(s)) == node.sample_spec(prims@, p, *old(s)),
        decreases node,
    {
        if node.left.is_none() || node.right.is_none() {
            let k = node.object.unwrap();
            let (pos, pdf) = prims[k].sample(s);
            return (pos, fmul(pdf, node.area));
        }
        let left = node.left.as_ref().unwrap();
        if p < left.area {
            Self::get_sample(left, prims, p, s)
        } else {
            Self::get_sample(node.right.as_ref().unwrap(), prims, sat_sub(p, left.area), s)
        }
    }

    /// Draws a point from the surfaces of the tree, in proportion to area.
    /// Where there is no tree, nothing is drawn and the density is zero.
    pub fn sample<T: Object>(&self, prims: &Vec<T>, s: &mut SampleStream) -> (r: (
        Intersection,
        i64,
    ))
        requires
            all_wf(prims@),
            self.wf(prims@),
        ensures
            (r.0, r.1, *final(s)) == self.sample_spec(prims@, *old(s)),
    {
        match &self.root {
            None => (Intersection::new(), 0),
            Some(root) => {
                let p = fmul(fsqrt(s.get_random_float()), root.area);
                let (pos, pdf) = Self::get_sample(root, prims, p, s);
                (pos, fdiv(pdf, root.area))
            },
        }
    }
}

/// The areas of the first `j` primitives named in `ks`, summed: the start
/// of the stretch of target areas that belongs to the primitive after them.
pub open spec fn area_before(ks: Seq<usize>, areas: Seq<i64>, j: int) -> int {
    BVHBuildNode::sum_areas(ks.take(j), areas)
}

/// The sum over the first part of a list is at most the sum over the list.
pub proof fn lemma_area_before_bounds(ks: Seq<usize>, areas: Seq<i64>, j: int)
    requires
        0 <= j <= ks.len(),
        forall|i: int| 0 <= i < ks.len() ==> 0 <= #[trigger] ks[i] < areas.len(),
        forall|k: int| 0 <= k < areas.len() ==> #[trigger] areas[k] >= 0,
    ensures
        0 <= area_before(ks, areas, j) <= BVHBuildNode::sum_areas(ks, areas),
        j < ks.len() ==> area_before(ks, areas, j + 1) == area_before(ks, areas, j)
            + areas[ks[j] as int],
{
    assert(ks =~= ks.take(j) + ks.skip(j));
    lemma_sum_areas_concat(ks.take(j), ks.skip(j), areas);
    lemma_sum_areas_nonnegative(ks.take(j), areas);
    lemma_sum_areas_nonnegative(ks.skip(j), areas);
    if j < ks.len() {
        assert(ks.take(j + 1).drop_last() =~= ks.take(j));
        assert(ks.take(j + 1).last() == ks[j]);
    }
}

impl BVHBuildNode {
    /// The walk chooses in proportion to area: laid end to end in the
    /// order of the leaves, each primitive owns a stretch of target areas
    /// as long as its own area, and a target in that stretch ends in its
    /// leaf. This holds wherever the areas sum without overflow.
    pub proof fn lemma_chosen_by_area(self, boxes: Seq<Bounds3>, areas: Seq<i64>, p: i64, j: int)
        requires
            self.wf(boxes, areas),
            forall|k: int| 0 <= k < areas.len() ==> #[trigger] areas[k] >= 0,
            Self::sum_areas(self.leaves(), areas) <= i64::MAX,
            0 <= j < self.leaves().len(),
            area_before(self.leaves(), areas, j) <= p < area_before(self.leaves(), areas, j + 1),
        ensures
            self.chosen(p) == Some(self.leaves()[j]),
            self.chosen_area(p) == areas[self.leaves()[j] as int],
        decreases self,
    {
        self.lemma_leaves_valid(boxes, areas);
        match (self.left, self.right) {
            (Some(l), Some(r)) => {
                let ll = l.leaves();
                let rl = r.leaves();
                let nl = ll.len() as int;
                l.lemma_leaves_valid(boxes, areas);
                r.lemma_leaves_valid(boxes, areas);
                l.lemma_area_is_sum(boxes, areas);
                r.lemma_area_is_sum(boxes, areas);
                lemma_sum_areas_concat(ll, rl, areas);
                lemma_sum_areas_nonnegative(ll, areas);
                lemma_sum_areas_nonnegative(rl, areas);
                if j < nl {
                    assert(self.leaves().take(j) =~= ll.take(j));
                    assert(self.leaves().take(j + 1) =~= ll.take(j + 1));
                    lemma_area_before_bounds(ll, areas, j + 1);
                    l.lemma_chosen_by_area(boxes, areas, p, j);
                } else {
                    assert(self.leaves().take(j) =~= ll + rl.take(j - nl));
                    assert(self.leaves().take(j + 1) =~= ll + rl.take(j + 1 - nl));
                    lemma_sum_areas_concat(ll, rl.take(j - nl), areas);
                    lemma_sum_areas_concat(ll, rl.take(j + 1 - nl), areas);
                    lemma_area_before_bounds(rl, areas, j - nl);
                    r.lemma_chosen_by_area(boxes, areas, saturate(p - l.area), j - nl);
                }
            },
            _ => {},
        }
    }
}

} // verus!
