//! Nearest-hit traversal of the tree.

use vstd::prelude::*;
use crate::bvh::{all_wf, areas_of, boxes_of, indices, lemma_same_items, BVHAccel, BVHBuildNode};
use crate::intersection::Intersection;
use crate::object::Object;
use crate::ray::Ray;

verus! {

impl BVHBuildNode {
    /// What a ray meets under the node: nothing where it misses the node's
    /// box; in a leaf what it meets on the primitive; in an inner node the
    /// nearer of what it meets under the two children.
    pub open spec fn hit<T: Object>(self, prims: Seq<T>, ray: Ray) -> Intersection
        decreases self,
    {
        if !(ray.in_range() && self.bounds.hit_by(ray)) {
            Intersection::none()
        } else {
            match (self.left, self.right) {
                (Some(l), Some(r)) => Intersection::nearer(l.hit(prims, ray), r.hit(prims, ray)),
                (None, None) => match self.object {
                    Some(k) => prims[k as int].hit_spec(ray),
                    None => Intersection::none(),
                },
                _ => Intersection::none(),
            }
        }
    }
}

impl BVHAccel {
    /// What a ray meets in the tree: nothing where there is no tree.
    pub open spec fn hit<T: Object>(self, prims: Seq<T>, ray: Ray) -> Intersection {
        match self.root {
            None => Intersection::none(),
            Some(n) => n.hit(prims, ray),
        }
    }

    /// The nearest of what `ray` meets among the primitives of the tree.
    pub fn intersect<T: Object>(&self, prims: &Vec<T>, ray: &Ray) -> (i: Intersection)
        requires
            all_wf(prims@),
            self.wf(prims@),
        ensures
            i == self.hit(prims@, *ray),
    {
        match &self.root {
            None => Intersection::new(),
            Some(root) => Self::get_intersection(root, prims, ray),
        }
    }

    /// The nearest of what `ray` meets among the primitives under `node`.
    pub fn get_intersection<T: Object>(node: &BVHBuildNode, prims: &Vec<T>, ray: &Ray) -> (i:
        Intersection)
        requires
            all_wf(prims@),
            node.wf(boxes_of(prims@), areas_of(prims@)),
        ensures
            i == node.hit(prims@, *ray),
        decreases node,
    {
        let res = Intersection::new();
        if !node.bounds.intersect_p(ray) {
            return res;
        }
        if node.left.is_none() && node.right.is_none() {
            return match node.object {
                None => res,
                Some(k) => prims[k].get_intersection(*ray),
            };
        }
        let hit1 = Self::get_intersection(node.left.as_ref().unwrap(), prims, ray);
        let hit2 = Self::get_intersection(node.right.as_ref().unwrap(), prims, ray);
        if hit2.distance < hit1.distance {
            hit2
        } else {
            hit1
        }
    }
}

/// Whether `h` is the nearest of what `ray` meets on the primitives named
/// in `ks`: it is what the ray meets on one of them, or a miss, and none of
/// them is met nearer.
pub open spec fn nearest_among<T: Object>(
    h: Intersection,
    prims: Seq<T>,
    ks: Seq<usize>,
    ray: Ray,
) -> bool {
    &&& h.wf()
    &&& h.happened ==> exists|i: int|
        0 <= i < ks.len() && h == prims[(#[trigger] ks[i]) as int].hit_spec(ray)
    &&& forall|i: int|
        0 <= i < ks.len() ==> h.distance <= prims[(#[trigger] ks[i]) as int].hit_spec(ray).distance
}

impl BVHBuildNode {
    /// A ray that misses the box of a node meets none of the primitives
    /// beneath it.
    pub proof fn lemma_miss<T: Object>(self, prims: Seq<T>, ray: Ray)
        requires
            all_wf(prims),
            self.wf(boxes_of(prims), areas_of(prims)),
            !(ray.in_range() && self.bounds.hit_by(ray)),
        ensures
            forall|i: int|
                0 <= i < self.leaves().len() ==> prims[(#[trigger] self.leaves()[i]) as int].hit_spec(
                    ray,
                ) == Intersection::none(),
    {
        self.lemma_encloses_leaves(boxes_of(prims), areas_of(prims));
        self.lemma_leaves_valid(boxes_of(prims), areas_of(prims));
        assert forall|i: int| 0 <= i < self.leaves().len() implies prims[(
        #[trigger] self.leaves()[i]) as int].hit_spec(ray) == Intersection::none() by {
            let k = self.leaves()[i] as int;
            prims[k].lemma_hit_in_bounds(ray);
            if prims[k].hit_spec(ray).happened {
                crate::slab::lemma_enclosing_hit(self.bounds, prims[k].bounds_spec(), ray);
            }
        }
    }

    /// Nearest-hit correctness: what the traversal returns is the nearest of
    /// what the ray meets on the primitives beneath the node, as a search
    /// through all of them would find it.
    pub proof fn lemma_hit_is_nearest<T: Object>(self, prims: Seq<T>, ray: Ray)
        requires
            all_wf(prims),
            self.wf(boxes_of(prims), areas_of(prims)),
        ensures
            nearest_among(self.hit(prims, ray), prims, self.leaves(), ray),
        decreases self,
    {
        let h = self.hit(prims, ray);
        self.lemma_leaves_valid(boxes_of(prims), areas_of(prims));
        if !(ray.in_range() && self.bounds.hit_by(ray)) {
            self.lemma_miss(prims, ray);
        } else {
            match (self.left, self.right) {
                (Some(l), Some(r)) => {
                    l.lemma_hit_is_nearest(prims, ray);
                    r.lemma_hit_is_nearest(prims, ray);
                    let hl = l.hit(prims, ray);
                    let hr = r.hit(prims, ray);
                    let nl = l.leaves().len() as int;
                    assert forall|i: int| 0 <= i < self.leaves().len() implies h.distance <= prims[(
                    #[trigger] self.leaves()[i]) as int].hit_spec(ray).distance by {
                        if i < nl {
                            assert(self.leaves()[i] == l.leaves()[i]);
                        } else {
                            assert(self.leaves()[i] == r.leaves()[i - nl]);
                        }
                    }
                    if h.happened {
                        if !(hr.distance < hl.distance) {
                            let i = choose|i: int|
                                0 <= i < l.leaves().len() && hl == prims[(
                                #[trigger] l.leaves()[i]) as int].hit_spec(ray);
                            assert(self.leaves()[i] == l.leaves()[i]);
                        } else {
                            let i = choose|i: int|
                                0 <= i < r.leaves().len() && hr == prims[(
                                #[trigger] r.leaves()[i]) as int].hit_spec(ray);
                            assert(self.leaves()[nl + i] == r.leaves()[i]);
                        }
                    }
                },
                _ => {
                    let k = self.object->0;
                    prims[k as int].lemma_hit_in_bounds(ray);
                    assert(self.leaves()[0] == k);
                },
            }
        }
    }
}

/// Two answers that are both the nearest among the same primitives agree
/// on whether anything was met and on the distance.
pub proof fn lemma_nearest_unique<T: Object>(
    h1: Intersection,
    h2: Intersection,
    prims: Seq<T>,
    ks: Seq<usize>,
    ray: Ray,
)
    requires
        nearest_among(h1, prims, ks, ray),
        nearest_among(h2, prims, ks, ray),
    ensures
        h1.happened == h2.happened,
        h1.distance == h2.distance,
{
    if h1.happened {
        let i = choose|i: int| 0 <= i < ks.len() && h1 == prims[(#[trigger] ks[i]) as int].hit_spec(ray);
        assert(h2.distance <= prims[ks[i] as int].hit_spec(ray).distance);
    }
    if h2.happened {
        let i = choose|i: int| 0 <= i < ks.len() && h2 == prims[(#[trigger] ks[i]) as int].hit_spec(ray);
        assert(h1.distance <= prims[ks[i] as int].hit_spec(ray).distance);
    }
}

impl BVHAccel {
    /// Nearest-hit correctness for a tree built over the whole list: what
    /// `intersect` returns is the nearest of what the ray meets on any
    /// primitive of the list.
    pub proof fn lemma_intersect_is_nearest<T: Object>(self, prims: Seq<T>, ray: Ray)
        requires
            all_wf(prims),
            self.covers(prims),
        ensures
            nearest_among(self.hit(prims, ray), prims, indices(prims.len()), ray),
    {
        let all = indices(prims.len());
        match self.root {
            None => {},
            Some(n) => {
                n.lemma_hit_is_nearest(prims, ray);
                lemma_same_items(n.leaves(), all);
                let h = n.hit(prims, ray);
                assert forall|i: int| 0 <= i < all.len() implies h.distance <= prims[(
                #[trigger] all[i]) as int].hit_spec(ray).distance by {
                    assert(n.leaves().contains(all[i]));
                    let j = choose|j: int| 0 <= j < n.leaves().len() && n.leaves()[j] == all[i];
                    assert(h.distance <= prims[n.leaves()[j] as int].hit_spec(ray).distance);
                }
                if h.happened {
                    let j = choose|j: int|
                        0 <= j < n.leaves().len() && h == prims[(#[trigger] n.leaves()[j]) as int].hit_spec(
                            ray,
                        );
                    assert(all.contains(n.leaves()[j]));
                    let i = choose|i: int| 0 <= i < all.len() && all[i] == n.leaves()[j];
                    assert(h == prims[all[i] as int].hit_spec(ray));
                }
            },
        }
    }
}

} // verus!
