//! The bounding-volume hierarchy: a binary tree of nested boxes over a list
//! of primitives.

pub mod builder;
pub mod sample;
pub mod traverse;

use vstd::prelude::*;
use crate::bounds3::Bounds3;
use crate::fixed::{sat_add, saturate};
use crate::object::Object;

verus! {

/// A node of the tree. A leaf names one primitive by its index and has no
/// children; an inner node has two children and names no primitive.
#[derive(Debug)]
pub struct BVHBuildNode {
    pub bounds: Bounds3,
    pub left: Option<Box<BVHBuildNode>>,
    pub right: Option<Box<BVHBuildNode>>,
    pub object: Option<usize>,
    pub area: i64,
}

/// How the builder divides the primitives of a node.
#[derive(Clone, Copy, Debug, PartialEq, Eq, Structural)]
pub enum SplitMethod {
    Naive,
    SAH,
}

/// The tree over a list of primitives. The list itself stays with its
/// owner: the tree names the primitives by their indices in it.
#[derive(Debug)]
pub struct BVHAccel {
    pub root: Option<Box<BVHBuildNode>>,
    pub max_prims_in_node: i32,
    pub split_method: SplitMethod,
}

impl BVHBuildNode {
    /// The indices of the primitives under the node, from left to right.
    pub open spec fn leaves(self) -> Seq<usize>
        decreases self,
    {
        match (self.left, self.right) {
            (Some(l), Some(r)) => l.leaves() + r.leaves(),
            _ => match self.object {
                Some(k) => seq![k],
                None => seq![],
            },
        }
    }

    /// The invariant of the tree over primitives with the given boxes and
    /// areas: a leaf has the box and the area of its primitive; an inner
    /// node has the union of its children's boxes and the sum of their areas.
    pub open spec fn wf(self, boxes: Seq<Bounds3>, areas: Seq<i64>) -> bool
        decreases self,
    {
        match (self.left, self.right) {
            (Some(l), Some(r)) => {
                &&& self.object is None
                &&& l.wf(boxes, areas)
                &&& r.wf(boxes, areas)
                &&& self.bounds == Bounds3::union_spec(l.bounds, r.bounds)
                &&& self.area == saturate(l.area + r.area)
            },
            (None, None) => {
                &&& self.object matches Some(k)
                &&& k < boxes.len()
                &&& k < areas.len()
                &&& self.bounds == boxes[k as int]
                &&& self.area == areas[k as int]
            },
            _ => false,
        }
    }

    /// The sum of the areas of the primitives named in `ks`.
    pub open spec fn sum_areas(ks: Seq<usize>, areas: Seq<i64>) -> int
        decreases ks.len(),
    {
        if ks.len() == 0 {
            0
        } else {
            Self::sum_areas(ks.drop_last(), areas) + areas[ks.last() as int]
        }
    }

    /// The union of the boxes of the primitives named in `ks`.
    pub open spec fn union_boxes(ks: Seq<usize>, boxes: Seq<Bounds3>) -> Bounds3
        decreases ks.len(),
    {
        if ks.len() == 0 {
            Bounds3::empty_spec()
        } else {
            Bounds3::union_spec(Self::union_boxes(ks.drop_last(), boxes), boxes[ks.last() as int])
        }
    }

    /// A leaf for the primitive `k`.
    pub fn leaf(k: usize, bounds: Bounds3, area: i64) -> (n: BVHBuildNode)
        ensures
            n == (BVHBuildNode { bounds, left: None, right: None, object: Some(k), area }),
            n.leaves() == seq![k],
    {
        BVHBuildNode { bounds, left: None, right: None, object: Some(k), area }
    }

    /// The inner node over two subtrees.
    pub fn join(l: BVHBuildNode, r: BVHBuildNode) -> (n: BVHBuildNode)
        ensures
            n.left == Some(Box::new(l)),
            n.right == Some(Box::new(r)),
            n.object is None,
            n.bounds == Bounds3::union_spec(l.bounds, r.bounds),
            n.area == saturate(l.area + r.area),
            n.leaves() == l.leaves() + r.leaves(),
    {
        let bounds = Bounds3::union_bounds(&l.bounds, &r.bounds);
        let area = sat_add(l.area, r.area);
        BVHBuildNode { bounds, left: Some(Box::new(l)), right: Some(Box::new(r)), object: None, area }
    }
}

impl Default for BVHBuildNode {
    /// A node without children, primitive or area, around nothing.
    fn default() -> (n: BVHBuildNode)
        ensures
            n == (BVHBuildNode {
                bounds: Bounds3::empty_spec(),
                left: None,
                right: None,
                object: None,
                area: 0,
            }),
    {
        BVHBuildNode { bounds: Bounds3::empty(), left: None, right: None, object: None, area: 0 }
    }
}

/// The boxes of the primitives, by index.
pub open spec fn boxes_of<T: Object>(prims: Seq<T>) -> Seq<Bounds3> {
    Seq::new(prims.len(), |i: int| prims[i].bounds_spec())
}

/// The areas of the primitives, by index.
pub open spec fn areas_of<T: Object>(prims: Seq<T>) -> Seq<i64> {
    Seq::new(prims.len(), |i: int| prims[i].area_spec())
}

/// Whether every primitive of the list is well formed.
pub open spec fn all_wf<T: Object>(prims: Seq<T>) -> bool {
    forall|i: int| 0 <= i < prims.len() ==> (#[trigger] prims[i]).wf()
}

/// The indices `0, 1, ..` below `n`.
pub open spec fn indices(n: nat) -> Seq<usize> {
    Seq::new(n, |i: int| i as usize)
}

impl BVHAccel {
    /// Whether the tree meets its invariant over the list.
    pub open spec fn wf<T: Object>(self, prims: Seq<T>) -> bool {
        match self.root {
            None => true,
            Some(n) => n.wf(boxes_of(prims), areas_of(prims)),
        }
    }
}

/// The areas named in two lists joined are the areas of both.
pub proof fn lemma_sum_areas_concat(a: Seq<usize>, b: Seq<usize>, areas: Seq<i64>)
    ensures
        BVHBuildNode::sum_areas(a + b, areas) == BVHBuildNode::sum_areas(a, areas)
            + BVHBuildNode::sum_areas(b, areas),
    decreases b.len(),
{
    if b.len() == 0 {
        assert(a + b =~= a);
    } else {
        assert((a + b).drop_last() =~= a + b.drop_last());
        lemma_sum_areas_concat(a, b.drop_last(), areas);
    }
}

/// The union over two lists joined is the union of the two unions.
pub proof fn lemma_union_boxes_concat(a: Seq<usize>, b: Seq<usize>, boxes: Seq<Bounds3>)
    ensures
        BVHBuildNode::union_boxes(a + b, boxes) == Bounds3::union_spec(
            BVHBuildNode::union_boxes(a, boxes),
            BVHBuildNode::union_boxes(b, boxes),
        ),
    decreases b.len(),
{
    if b.len() == 0 {
        assert(a + b =~= a);
    } else {
        assert((a + b).drop_last() =~= a + b.drop_last());
        lemma_union_boxes_concat(a, b.drop_last(), boxes);
    }
}

/// A sum of areas, none of them negative, is not negative.
pub proof fn lemma_sum_areas_nonnegative(ks: Seq<usize>, areas: Seq<i64>)
    requires
        forall|i: int| 0 <= i < ks.len() ==> 0 <= #[trigger] ks[i] < areas.len(),
        forall|k: int| 0 <= k < areas.len() ==> #[trigger] areas[k] >= 0,
    ensures
        BVHBuildNode::sum_areas(ks, areas) >= 0,
    decreases ks.len(),
{
    if ks.len() > 0 {
        assert(ks.drop_last().len() == ks.len() - 1);
        assert forall|i: int| 0 <= i < ks.drop_last().len() implies 0 <= #[trigger] ks.drop_last()[i]
            < areas.len() by {
            assert(ks.drop_last()[i] == ks[i]);
        }
        lemma_sum_areas_nonnegative(ks.drop_last(), areas);
        assert(0 <= ks[ks.len() - 1] < areas.len());
    }
}

/// Two lists with the same items, in whatever order, hold the same values.
pub proof fn lemma_same_items(a: Seq<usize>, b: Seq<usize>)
    requires
        a.to_multiset() == b.to_multiset(),
    ensures
        a.len() == b.len(),
        forall|i: int| 0 <= i < a.len() ==> b.contains(#[trigger] a[i]),
        forall|i: int| 0 <= i < b.len() ==> a.contains(#[trigger] b[i]),
{
    broadcast use vstd::seq_lib::group_to_multiset_ensures;

    a.to_multiset_ensures();
    b.to_multiset_ensures();
    assert forall|i: int| 0 <= i < a.len() implies b.contains(#[trigger] a[i]) by {
        assert(a.contains(a[i]));
        assert(a.to_multiset().count(a[i]) > 0);
    }
    assert forall|i: int| 0 <= i < b.len() implies a.contains(#[trigger] b[i]) by {
        assert(b.contains(b[i]));
        assert(b.to_multiset().count(b[i]) > 0);
    }
}

impl BVHBuildNode {
    /// A tree that meets the invariant has at least one leaf, and each leaf
    /// names a primitive of the list.
    pub proof fn lemma_leaves_valid(self, boxes: Seq<Bounds3>, areas: Seq<i64>)
        requires
            self.wf(boxes, areas),
        ensures
            self.leaves().len() >= 1,
            forall|i: int|
                0 <= i < self.leaves().len() ==> (#[trigger] self.leaves()[i]) < boxes.len()
                    && self.leaves()[i] < areas.len(),
        decreases self,
    {
        match (self.left, self.right) {
            (Some(l), Some(r)) => {
                l.lemma_leaves_valid(boxes, areas);
                r.lemma_leaves_valid(boxes, areas);
            },
            _ => {},
        }
    }

    /// The box of every node is the union of the boxes of all primitives
    /// beneath it.
    pub proof fn lemma_bounds_is_union(self, boxes: Seq<Bounds3>, areas: Seq<i64>)
        requires
            self.wf(boxes, areas),
        ensures
            self.bounds == Self::union_boxes(self.leaves(), boxes),
        decreases self,
    {
        match (self.left, self.right) {
            (Some(l), Some(r)) => {
                l.lemma_bounds_is_union(boxes, areas);
                r.lemma_bounds_is_union(boxes, areas);
                lemma_union_boxes_concat(l.leaves(), r.leaves(), boxes);
            },
            _ => {
                let k = self.object->0;
                assert(seq![k].drop_last() =~= Seq::<usize>::empty());
                assert(seq![k].last() == k);
                assert(Self::union_boxes(Seq::<usize>::empty(), boxes) == Bounds3::empty_spec());
                assert(Self::union_boxes(seq![k], boxes) == Bounds3::union_spec(
                    Bounds3::empty_spec(),
                    boxes[k as int],
                ));
            },
        }
    }

    /// The area of every node is the sum of the areas of all primitives
    /// beneath it, cut off at the upper end of `i64`.
    pub proof fn lemma_area_is_sum(self, boxes: Seq<Bounds3>, areas: Seq<i64>)
        requires
            self.wf(boxes, areas),
            forall|k: int| 0 <= k < areas.len() ==> #[trigger] areas[k] >= 0,
        ensures
            self.area == saturate(Self::sum_areas(self.leaves(), areas)),
            self.area >= 0,
        decreases self,
    {
        self.lemma_leaves_valid(boxes, areas);
        lemma_sum_areas_nonnegative(self.leaves(), areas);
        match (self.left, self.right) {
            (Some(l), Some(r)) => {
                l.lemma_area_is_sum(boxes, areas);
                r.lemma_area_is_sum(boxes, areas);
                l.lemma_leaves_valid(boxes, areas);
                r.lemma_leaves_valid(boxes, areas);
                lemma_sum_areas_nonnegative(l.leaves(), areas);
                lemma_sum_areas_nonnegative(r.leaves(), areas);
                lemma_sum_areas_concat(l.leaves(), r.leaves(), areas);
            },
            _ => {
                let k = self.object->0;
                assert(seq![k].drop_last() =~= Seq::<usize>::empty());
                assert(seq![k].last() == k);
                assert(Self::sum_areas(Seq::<usize>::empty(), areas) == 0);
                assert(Self::sum_areas(seq![k], areas) == 0 + areas[k as int]);
            },
        }
    }

    /// The box of a node lies around the box of every primitive beneath it.
    pub proof fn lemma_encloses_leaves(self, boxes: Seq<Bounds3>, areas: Seq<i64>)
        requires
            self.wf(boxes, areas),
        ensures
            forall|i: int|
                0 <= i < self.leaves().len() ==> self.bounds.encloses(
                    boxes[(#[trigger] self.leaves()[i]) as int],
                ),
        decreases self,
    {
        match (self.left, self.right) {
            (Some(l), Some(r)) => {
                l.lemma_encloses_leaves(boxes, areas);
                r.lemma_encloses_leaves(boxes, areas);
                assert forall|i: int| 0 <= i < self.leaves().len() implies self.bounds.encloses(
                    boxes[(#[trigger] self.leaves()[i]) as int],
                ) by {
                    if i < l.leaves().len() {
                        assert(self.leaves()[i] == l.leaves()[i]);
                    } else {
                        assert(self.leaves()[i] == r.leaves()[i - l.leaves().len()]);
                    }
                }
            },
            _ => {},
        }
    }

    /// A box that lies around the box of every primitive beneath a node
    /// lies around the node's box.
    pub proof fn lemma_enclosed_by(self, boxes: Seq<Bounds3>, areas: Seq<i64>, outer: Bounds3)
        requires
            self.wf(boxes, areas),
            forall|i: int|
                0 <= i < self.leaves().len() ==> outer.encloses(
                    boxes[(#[trigger] self.leaves()[i]) as int],
                ),
        ensures
            outer.encloses(self.bounds),
        decreases self,
    {
        match (self.left, self.right) {
            (Some(l), Some(r)) => {
                let nl = l.leaves().len() as int;
                assert forall|i: int| 0 <= i < l.leaves().len() implies outer.encloses(
                    boxes[(#[trigger] l.leaves()[i]) as int],
                ) by {
                    assert(self.leaves()[i] == l.leaves()[i]);
                }
                assert forall|i: int| 0 <= i < r.leaves().len() implies outer.encloses(
                    boxes[(#[trigger] r.leaves()[i]) as int],
                ) by {
                    assert(self.leaves()[nl + i] == r.leaves()[i]);
                }
                l.lemma_enclosed_by(boxes, areas, outer);
                r.lemma_enclosed_by(boxes, areas, outer);
            },
            _ => {
                assert(self.leaves()[0] == self.object->0);
            },
        }
    }

    /// A tree keeps its invariant when primitives are added at the end of
    /// the list.
    pub proof fn lemma_wf_grows(
        self,
        boxes: Seq<Bounds3>,
        areas: Seq<i64>,
        more_boxes: Seq<Bounds3>,
        more_areas: Seq<i64>,
    )
        requires
            self.wf(boxes, areas),
            boxes.len() <= more_boxes.len(),
            areas.len() <= more_areas.len(),
            forall|i: int| 0 <= i < boxes.len() ==> #[trigger] more_boxes[i] == boxes[i],
            forall|i: int| 0 <= i < areas.len() ==> #[trigger] more_areas[i] == areas[i],
        ensures
            self.wf(more_boxes, more_areas),
        decreases self,
    {
        match (self.left, self.right) {
            (Some(l), Some(r)) => {
                l.lemma_wf_grows(boxes, areas, more_boxes, more_areas);
                r.lemma_wf_grows(boxes, areas, more_boxes, more_areas);
            },
            _ => {},
        }
    }
}

impl BVHAccel {
    /// A tree keeps its invariant when a primitive is added at the end of
    /// the list.
    pub proof fn lemma_wf_push<T: Object>(self, prims: Seq<T>, extra: T)
        requires
            self.wf(prims),
        ensures
            self.wf(prims.push(extra)),
    {
        match self.root {
            Some(n) => {
                let more = prims.push(extra);
                assert forall|i: int| 0 <= i < prims.len() implies #[trigger] boxes_of(more)[i]
                    == boxes_of(prims)[i] by {
                    assert(more[i] == prims[i]);
                }
                assert forall|i: int| 0 <= i < prims.len() implies #[trigger] areas_of(more)[i]
                    == areas_of(prims)[i] by {
                    assert(more[i] == prims[i]);
                }
                n.lemma_wf_grows(boxes_of(prims), areas_of(prims), boxes_of(more), areas_of(more));
            },
            None => {},
        }
    }
}

} // verus!
