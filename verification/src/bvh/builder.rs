//! Building the tree: the median split along the axis on which the
//! primitives spread furthest.

use vstd::prelude::*;
use crate::bounds3::{Axis, Bounds3};
use crate::bvh::{all_wf, areas_of, boxes_of, indices, lemma_same_items, BVHAccel, BVHBuildNode,
    SplitMethod};
use crate::fixed::saturate;
use crate::object::Object;

verus! {

/// The coordinate along `dim` of the middle of the box of primitive `k`.
pub open spec fn centroid_key_spec(boxes: Seq<Bounds3>, k: usize, dim: Axis) -> i64 {
    boxes[k as int].centroid_spec().axis_spec(dim)
}

/// The smallest box around the middles of the boxes of the primitives
/// named in `ks`.
pub open spec fn centroid_bounds(ks: Seq<usize>, boxes: Seq<Bounds3>) -> Bounds3 {
    ks.fold_left(
        Bounds3::empty_spec(),
        |b: Bounds3, k: usize| Bounds3::union_point_spec(b, boxes[k as int].centroid_spec()),
    )
}

/// Whether no primitive named in `l` lies behind one named in `r` along `dim`.
pub open spec fn split_along(l: Seq<usize>, r: Seq<usize>, boxes: Seq<Bounds3>, dim: Axis) -> bool {
    forall|i: int, j: int|
        0 <= i < l.len() && 0 <= j < r.len() ==> centroid_key_spec(boxes, #[trigger] l[i], dim)
            <= centroid_key_spec(boxes, #[trigger] r[j], dim)
}

impl BVHBuildNode {
    /// What the median split gives at every inner node: the left child
    /// holds half of the primitives, rounded down; and where there are three
    /// or more, no primitive on the left lies behind one on the right along
    /// the axis on which the middles of their boxes spread furthest.
    pub open spec fn balanced(self, boxes: Seq<Bounds3>) -> bool
        decreases self,
    {
        match (self.left, self.right) {
            (Some(l), Some(r)) => {
                let n = self.leaves().len();
                &&& l.leaves().len() == n / 2
                &&& l.balanced(boxes)
                &&& r.balanced(boxes)
                &&& n >= 3 ==> split_along(
                    l.leaves(),
                    r.leaves(),
                    boxes,
                    centroid_bounds(self.leaves(), boxes).max_extent_spec(),
                )
            },
            _ => true,
        }
    }
}

/// What `recursive_build` owes for the list `items`: no tree for an empty
/// list; else a tree that meets the invariant, is split at the median in
/// every inner node, and whose leaves are the items, each once, in the
/// given order where there are at most two.
pub open spec fn built_from(
    r: Option<Box<BVHBuildNode>>,
    items: Seq<usize>,
    boxes: Seq<Bounds3>,
    areas: Seq<i64>,
) -> bool {
    match r {
        None => items.len() == 0,
        Some(n) => {
            &&& items.len() > 0
            &&& n.wf(boxes, areas)
            &&& n.balanced(boxes)
            &&& n.leaves().to_multiset() == items.to_multiset()
            &&& items.len() <= 2 ==> n.leaves() == items
        },
    }
}

/// The coordinate along `dim` of the middle of the box of primitive `k`.
pub fn centroid_key(boxes: &Vec<Bounds3>, k: usize, dim: Axis) -> (c: i64)
    requires
        k < boxes.len(),
    ensures
        c == centroid_key_spec(boxes@, k, dim),
{
    boxes[k].centroid_axis(dim)
}

/// `select_nth_unstable_by_key` of std's slices, with the middle of a
/// primitive's box along `dim` as the key. It reorders `items` so that the
/// item at index `k` is where a sort by key would put it: no item before it
/// has a greater key, no item after it a smaller one. The items are the
/// same as before; their order within the two parts is left open.
#[verifier::external_body]
fn select_nth_by_centroid(items: &mut Vec<usize>, k: usize, boxes: &Vec<Bounds3>, dim: Axis)
    requires
        k < old(items).len(),
        forall|i: int| 0 <= i < old(items).len() ==> (#[trigger] old(items)[i]) < boxes.len(),
    ensures
        final(items).len() == old(items).len(),
        final(items)@.to_multiset() == old(items)@.to_multiset(),
        forall|i: int|
            0 <= i < k ==> centroid_key_spec(boxes@, #[trigger] final(items)[i], dim)
                <= centroid_key_spec(boxes@, final(items)[k as int], dim),
        forall|i: int|
            k < i < final(items).len() ==> centroid_key_spec(boxes@, final(items)[k as int], dim)
                <= centroid_key_spec(boxes@, #[trigger] final(items)[i], dim),
{
    items.select_nth_unstable_by_key(k, |i| centroid_key(boxes, *i, dim));
}

/// The smallest box around the middles of the boxes of the primitives
/// named in `items`.
fn centroid_bounds_of(boxes: &Vec<Bounds3>, items: &Vec<usize>) -> (cb: Bounds3)
    requires
        forall|i: int| 0 <= i < items.len() ==> (#[trigger] items[i]) < boxes.len(),
    ensures
        cb == centroid_bounds(items@, boxes@),
{
    let mut cb = Bounds3::default();
    let mut i: usize = 0;
    assert(items@.subrange(0, 0) =~= Seq::<usize>::empty());
    while i < items.len()
        invariant
            0 <= i <= items.len(),
            forall|j: int| 0 <= j < items.len() ==> (#[trigger] items[j]) < boxes.len(),
            cb == centroid_bounds(items@.subrange(0, i as int), boxes@),
        decreases items.len() - i,
    {
        proof {
            let next = items@.subrange(0, i + 1);
            assert(next.drop_last() =~= items@.subrange(0, i as int));
            assert(next.last() == items[i as int]);
        }
        cb = Bounds3::union_point(&cb, &boxes[items[i]].centroid());
        i += 1;
    }
    assert(items@.subrange(0, items.len() as int) =~= items@);
    cb
}

/// The box around the middles does not depend on the order of the list.
pub proof fn lemma_centroid_bounds_order(a: Seq<usize>, b: Seq<usize>, boxes: Seq<Bounds3>)
    requires
        a.to_multiset() == b.to_multiset(),
    ensures
        centroid_bounds(a, boxes) == centroid_bounds(b, boxes),
{
    let f = |b: Bounds3, k: usize| Bounds3::union_point_spec(b, boxes[k as int].centroid_spec());
    assert(vstd::seq_lib::commutative_foldl(f));
    vstd::seq_lib::lemma_fold_left_permutation(a, b, f, Bounds3::empty_spec());
}

/// The two parts of a list reordered by `select_nth_by_centroid` name
/// primitives of the list, and their items together are those from before.
proof fn lemma_parts(
    before: Seq<usize>,
    after: Seq<usize>,
    left: Seq<usize>,
    right: Seq<usize>,
    half: int,
    len: nat,
)
    requires
        after.to_multiset() == before.to_multiset(),
        0 <= half <= after.len(),
        left == after.subrange(0, half),
        right == after.subrange(half, after.len() as int),
        forall|i: int| 0 <= i < before.len() ==> (#[trigger] before[i]) < len,
    ensures
        forall|i: int| 0 <= i < left.len() ==> (#[trigger] left[i]) < len,
        forall|i: int| 0 <= i < right.len() ==> (#[trigger] right[i]) < len,
        left.to_multiset().add(right.to_multiset()) == before.to_multiset(),
{
    lemma_same_items(after, before);
    assert(after =~= left + right);
    vstd::seq_lib::lemma_multiset_commutative(left, right);
    assert forall|i: int| 0 <= i < left.len() implies (#[trigger] left[i]) < len by {
        assert(left[i] == after[i]);
        assert(before.contains(after[i]));
    }
    assert forall|i: int| 0 <= i < right.len() implies (#[trigger] right[i]) < len by {
        assert(right[i] == after[half + i]);
        assert(before.contains(after[half + i]));
    }
}

/// Subtrees over the two parts of a list split at its median make, joined,
/// a tree split at the median.
proof fn lemma_joined(
    node: BVHBuildNode,
    before: Seq<usize>,
    after: Seq<usize>,
    half: int,
    boxes: Seq<Bounds3>,
    areas: Seq<i64>,
    dim: Axis,
)
    requires
        before.len() >= 3,
        half == before.len() / 2,
        after.len() == before.len(),
        after.to_multiset() == before.to_multiset(),
        dim == centroid_bounds(before, boxes).max_extent_spec(),
        forall|i: int|
            0 <= i < half ==> centroid_key_spec(boxes, #[trigger] after[i], dim) <= centroid_key_spec(
                boxes,
                after[half],
                dim,
            ),
        forall|i: int|
            half < i < after.len() ==> centroid_key_spec(boxes, after[half], dim)
                <= centroid_key_spec(boxes, #[trigger] after[i], dim),
        node.left matches Some(l) && built_from(Some(l), after.subrange(0, half), boxes, areas),
        node.right matches Some(r) && built_from(
            Some(r),
            after.subrange(half, after.len() as int),
            boxes,
            areas,
        ),
        node.object is None,
        node.bounds == Bounds3::union_spec(node.left->0.bounds, node.right->0.bounds),
        node.area == saturate(node.left->0.area + node.right->0.area),
    ensures
        built_from(Some(Box::new(node)), before, boxes, areas),
{
    let l = *node.left->0;
    let r = *node.right->0;
    let left_seq = after.subrange(0, half);
    let right_seq = after.subrange(half, after.len() as int);
    lemma_same_items(l.leaves(), left_seq);
    lemma_same_items(r.leaves(), right_seq);
    vstd::seq_lib::lemma_multiset_commutative(l.leaves(), r.leaves());
    assert(after =~= left_seq + right_seq);
    vstd::seq_lib::lemma_multiset_commutative(left_seq, right_seq);
    assert(node.leaves() == l.leaves() + r.leaves());
    assert(node.leaves().to_multiset() == before.to_multiset());
    lemma_same_items(node.leaves(), before);
    lemma_centroid_bounds_order(before, node.leaves(), boxes);
    assert forall|i: int, j: int|
        0 <= i < l.leaves().len() && 0 <= j < r.leaves().len() implies centroid_key_spec(
        boxes,
        #[trigger] l.leaves()[i],
        dim,
    ) <= centroid_key_spec(boxes, #[trigger] r.leaves()[j], dim) by {
        assert(left_seq.contains(l.leaves()[i]));
        assert(right_seq.contains(r.leaves()[j]));
        let a = choose|a: int| 0 <= a < left_seq.len() && left_seq[a] == l.leaves()[i];
        let b = choose|b: int| 0 <= b < right_seq.len() && right_seq[b] == r.leaves()[j];
        assert(left_seq[a] == after[a]);
        assert(right_seq[b] == after[half + b]);
    }
    assert(split_along(l.leaves(), r.leaves(), boxes, dim));
}

impl BVHAccel {
    /// Builds the tree over the primitives named in `items`, whose boxes and
    /// areas are given by index.
    pub fn recursive_build(
        boxes: &Vec<Bounds3>,
        areas: &Vec<i64>,
        items: Vec<usize>,
        split_method: SplitMethod,
    ) -> (r: Option<Box<BVHBuildNode>>)
        requires
            boxes.len() == areas.len(),
            forall|i: int| 0 <= i < items.len() ==> (#[trigger] items[i]) < boxes.len(),
        ensures
            built_from(r, items@, boxes@, areas@),
        decreases items.len(),
    {
        let n = items.len();
        if n == 0 {
            return None;
        }
        if n == 1 {
            let k = items[0];
            assert(items@ =~= seq![k]);
            return Some(Box::new(BVHBuildNode::leaf(k, boxes[k], areas[k])));
        }
        if n == 2 {
            let (k0, k1) = (items[0], items[1]);
            let mut first: Vec<usize> = Vec::new();
            first.push(k0);
            let mut second: Vec<usize> = Vec::new();
            second.push(k1);
            assert(first@ =~= seq![k0]);
            assert(second@ =~= seq![k1]);
            let l = Self::recursive_build(boxes, areas, first, split_method);
            let r = Self::recursive_build(boxes, areas, second, split_method);
            let node = BVHBuildNode::join(*l.unwrap(), *r.unwrap());
            assert(node.leaves() =~= items@);
            return Some(Box::new(node));
        }
        let cb = centroid_bounds_of(boxes, &items);
        let dim = cb.max_extent();
        let half = n / 2;
        let mut left_items = items;
        let ghost before = left_items@;
        select_nth_by_centroid(&mut left_items, half, boxes, dim);
        let ghost after = left_items@;
        let right_items = left_items.split_off(half);
        proof {
            lemma_parts(before, after, left_items@, right_items@, half as int, boxes@.len());
        }
        let l = Self::recursive_build(boxes, areas, left_items, split_method);
        let r = Self::recursive_build(boxes, areas, right_items, split_method);
        let node = BVHBuildNode::join(*l.unwrap(), *r.unwrap());
        proof {
            lemma_joined(node, before, after, half as int, boxes@, areas@, dim);
        }
        Some(Box::new(node))
    }

    /// Whether the tree was built over the whole list: none for an empty
    /// list, else a tree with each primitive in one leaf, split at the
    /// median in every inner node.
    pub open spec fn covers<T: Object>(self, prims: Seq<T>) -> bool {
        built_from(self.root, indices(prims.len()), boxes_of(prims), areas_of(prims))
    }

    /// Builds the tree over `p`. The limit on the primitives of a node is
    /// raised to 255 where it is less.
    pub fn new<T: Object>(p: &Vec<T>, max_prims_in_node: i32, split_method: SplitMethod) -> (r:
        BVHAccel)
        requires
            all_wf(p@),
        ensures
            r.wf(p@),
            r.covers(p@),
            r.max_prims_in_node == (if max_prims_in_node > 255 {
                max_prims_in_node
            } else {
                255i32
            }),
            r.split_method == split_method,
    {
        let max_prims_in_node = if max_prims_in_node > 255 {
            max_prims_in_node
        } else {
            255
        };
        let mut boxes: Vec<Bounds3> = Vec::new();
        let mut areas: Vec<i64> = Vec::new();
        let mut items: Vec<usize> = Vec::new();
        let mut i: usize = 0;
        while i < p.len()
            invariant
                0 <= i <= p.len(),
                all_wf(p@),
                boxes@ == boxes_of(p@.subrange(0, i as int)),
                areas@ == areas_of(p@.subrange(0, i as int)),
                items@ == indices(i as nat),
            decreases p.len() - i,
        {
            boxes.push(p[i].get_bounds());
            areas.push(p[i].get_area());
            items.push(i);
            i += 1;
            proof {
                let next = p@.subrange(0, i as int);
                assert(boxes@ =~= boxes_of(next));
                assert(areas@ =~= areas_of(next));
                assert(items@ =~= indices(i as nat));
            }
        }
        assert(p@.subrange(0, p.len() as int) =~= p@);
        let root = Self::recursive_build(&boxes, &areas, items, split_method);
        BVHAccel { root, max_prims_in_node, split_method }
    }

    /// Builds the tree over `p` with the naive split.
    pub fn default<T: Object>(p: &Vec<T>) -> (r: BVHAccel)
        requires
            all_wf(p@),
        ensures
            r.wf(p@),
            r.covers(p@),
            r.max_prims_in_node == 255,
            r.split_method == SplitMethod::Naive,
    {
        Self::new(p, 1, SplitMethod::Naive)
    }
}

} // verus!
