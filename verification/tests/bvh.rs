use pathtracer::bounds3::{Axis, Bounds3};
use pathtracer::bvh::builder::centroid_key;
use pathtracer::bvh::{BVHAccel, BVHBuildNode, SplitMethod};
use pathtracer::fixed::SCALE;
use pathtracer::global::SampleStream;
use pathtracer::intersection::Intersection;
use pathtracer::object::Object;
use pathtracer::ray::Ray;
use pathtracer::triangle::Triangle;
use pathtracer::vector::Vector3;

fn p(x: i64, y: i64, z: i64) -> Vector3 {
    Vector3::new(x * SCALE, y * SCALE, z * SCALE)
}

/// An upward-facing right triangle with legs of length `size`, its right
/// angle at `(x, y, z)`.
fn tile(x: i64, y: i64, z: i64, size: i64) -> Triangle {
    Triangle::new(p(x, y, z), p(x, y, z + size), p(x + size, y, z), None)
}

/// Tiles spread along x at different heights, given in no particular order.
fn tiles() -> Vec<Triangle> {
    vec![
        tile(30, 5, 0, 2),
        tile(0, 1, 0, 4),
        tile(50, 2, 0, 2),
        tile(10, 7, 0, 2),
        tile(40, 3, 0, 6),
        tile(20, 9, 0, 2),
        tile(60, 4, 0, 2),
    ]
}

fn leaves(n: &BVHBuildNode, out: &mut Vec<usize>) {
    match (&n.left, &n.right) {
        (Some(l), Some(r)) => {
            leaves(l, out);
            leaves(r, out);
        }
        _ => out.push(n.object.unwrap()),
    }
}

/// Checks the invariants of a subtree against the primitives and returns its
/// number of leaves.
fn check(n: &BVHBuildNode, prims: &Vec<Triangle>) -> usize {
    match (&n.left, &n.right) {
        (Some(l), Some(r)) => {
            assert!(n.object.is_none());
            let nl = check(l, prims);
            let nr = check(r, prims);
            assert_eq!(n.bounds, Bounds3::union_bounds(&l.bounds, &r.bounds));
            assert_eq!(n.area, l.area + r.area);
            assert_eq!(nl, (nl + nr) / 2);
            nl + nr
        }
        (None, None) => {
            let k = n.object.unwrap();
            assert_eq!(n.bounds, prims[k].get_bounds());
            assert_eq!(n.area, prims[k].get_area());
            1
        }
        _ => panic!("a node with one child"),
    }
}

#[test]
fn no_primitives_no_tree() {
    let prims: Vec<Triangle> = vec![];
    let bvh = BVHAccel::new(&prims, 1, SplitMethod::Naive);
    assert!(bvh.root.is_none());
    let hit = bvh.intersect(&prims, &Ray::new(p(0, 5, 0), Vector3::new(0, -SCALE, 0), 0));
    assert!(!hit.happened);
    assert_eq!(hit.distance, i64::MAX);
}

#[test]
fn a_fresh_node_is_empty() {
    let n = BVHBuildNode::default();
    assert_eq!(n.bounds, Bounds3::empty());
    assert!(n.left.is_none() && n.right.is_none() && n.object.is_none());
    assert_eq!(n.area, 0);
}

#[test]
fn one_primitive_makes_a_leaf() {
    let prims = vec![tile(0, 0, 0, 4)];
    let bvh = BVHAccel::default(&prims);
    let root = bvh.root.unwrap();
    assert!(root.left.is_none() && root.right.is_none());
    assert_eq!(root.object, Some(0));
    assert_eq!(root.bounds, prims[0].get_bounds());
    assert_eq!(root.area, 8 * SCALE);
}

#[test]
fn two_primitives_make_two_leaves_in_order() {
    let prims = vec![tile(10, 0, 0, 2), tile(0, 0, 0, 4)];
    let bvh = BVHAccel::new(&prims, 1, SplitMethod::Naive);
    let root = bvh.root.unwrap();
    assert!(root.object.is_none());
    assert_eq!(root.left.as_ref().unwrap().object, Some(0));
    assert_eq!(root.right.as_ref().unwrap().object, Some(1));
    assert_eq!(root.bounds, Bounds3 { p_min: p(0, 0, 0), p_max: p(12, 0, 4) });
    assert_eq!(root.area, 10 * SCALE);
}

#[test]
fn the_limit_on_primitives_is_at_least_255() {
    let prims = vec![tile(0, 0, 0, 4)];
    assert_eq!(BVHAccel::new(&prims, 1, SplitMethod::Naive).max_prims_in_node, 255);
    assert_eq!(BVHAccel::new(&prims, 300, SplitMethod::SAH).max_prims_in_node, 300);
    assert_eq!(BVHAccel::new(&prims, -4, SplitMethod::Naive).max_prims_in_node, 255);
    assert!(matches!(BVHAccel::new(&prims, 300, SplitMethod::SAH).split_method, SplitMethod::SAH));
    assert!(matches!(BVHAccel::default(&prims).split_method, SplitMethod::Naive));
}

#[test]
fn every_node_holds_the_union_of_boxes_and_the_sum_of_areas() {
    let prims = tiles();
    let bvh = BVHAccel::new(&prims, 1, SplitMethod::Naive);
    let root = bvh.root.unwrap();
    assert_eq!(check(&root, &prims), prims.len());
    // 2 + 8 + 2 + 2 + 18 + 2 + 2
    assert_eq!(root.area, 36 * SCALE);
    assert_eq!(root.bounds, Bounds3 { p_min: p(0, 1, 0), p_max: p(62, 9, 6) });
    let mut found = Vec::new();
    leaves(&root, &mut found);
    found.sort();
    assert_eq!(found, vec![0, 1, 2, 3, 4, 5, 6]);
}

#[test]
fn the_split_puts_the_lower_half_along_the_widest_axis_on_the_left() {
    let prims = tiles();
    let boxes: Vec<Bounds3> = prims.iter().map(|t| t.get_bounds()).collect();
    let bvh = BVHAccel::new(&prims, 1, SplitMethod::Naive);
    let root = bvh.root.unwrap();
    let (mut left, mut right) = (Vec::new(), Vec::new());
    leaves(root.left.as_ref().unwrap(), &mut left);
    leaves(root.right.as_ref().unwrap(), &mut right);
    assert_eq!(left.len(), 3);
    assert_eq!(right.len(), 4);
    // the tiles spread furthest along x: the three with the least x go left
    left.sort();
    right.sort();
    assert_eq!(left, vec![1, 3, 5]);
    assert_eq!(right, vec![0, 2, 4, 6]);
    for &l in &left {
        for &r in &right {
            assert!(centroid_key(&boxes, l, Axis::X) <= centroid_key(&boxes, r, Axis::X));
        }
    }
}

#[test]
fn recursive_build_works_on_a_part_of_the_list() {
    let prims = tiles();
    let boxes: Vec<Bounds3> = prims.iter().map(|t| t.get_bounds()).collect();
    let areas: Vec<i64> = prims.iter().map(|t| t.get_area()).collect();
    assert!(BVHAccel::recursive_build(&boxes, &areas, vec![], SplitMethod::Naive).is_none());
    let root = BVHAccel::recursive_build(&boxes, &areas, vec![6, 0, 3], SplitMethod::Naive).unwrap();
    let mut left = Vec::new();
    leaves(root.left.as_ref().unwrap(), &mut left);
    assert_eq!(left, vec![3]);
    let mut all = Vec::new();
    leaves(&root, &mut all);
    all.sort();
    assert_eq!(all, vec![0, 3, 6]);
    assert_eq!(root.area, 6 * SCALE);
}

fn brute_force(prims: &Vec<Triangle>, ray: &Ray) -> (Option<usize>, Intersection) {
    let mut best = Intersection::new();
    let mut which = None;
    for (k, t) in prims.iter().enumerate() {
        let hit = t.get_intersection(*ray);
        if hit.distance < best.distance {
            best = hit;
            which = Some(k);
        }
    }
    (which, best)
}

#[test]
fn the_tree_finds_what_a_search_through_all_primitives_finds() {
    let prims = tiles();
    let bvh = BVHAccel::new(&prims, 1, SplitMethod::Naive);
    let down = Vector3::new(0, -SCALE, 0);
    let mut hits = 0;
    for x in -2..66 {
        for z in [0, 1, 3, 5, 7] {
            for dir in [down, Vector3::new(SCALE / 8, -SCALE, 0), Vector3::new(-3 * SCALE, -SCALE, SCALE / 4)] {
                let ray = Ray::new(Vector3::new(x * SCALE + 77, 20 * SCALE, z * SCALE + 5), dir, 0);
                let (which, expected) = brute_force(&prims, &ray);
                let found = bvh.intersect(&prims, &ray);
                assert_eq!(found.happened, expected.happened);
                assert_eq!(found.distance, expected.distance);
                assert_eq!(found.coords, expected.coords);
                assert_eq!(found.normal, expected.normal);
                if let Some(k) = which {
                    hits += 1;
                    let own = prims[k].get_intersection(ray);
                    assert_eq!(found.distance, own.distance);
                    assert_eq!(found.coords, own.coords);
                }
            }
        }
    }
    assert!(hits > 50);
}

#[test]
fn the_nearer_of_two_tiles_in_a_line_is_found() {
    let prims = vec![tile(0, 1, 0, 4), tile(0, 6, 0, 4), tile(0, 3, 0, 4)];
    let bvh = BVHAccel::new(&prims, 1, SplitMethod::Naive);
    let hit = bvh.intersect(&prims, &Ray::new(p(1, 10, 1), Vector3::new(0, -SCALE, 0), 0));
    assert!(hit.happened);
    assert_eq!(hit.distance, 4 * SCALE);
    assert_eq!(hit.coords, p(1, 6, 1));
    let between = bvh.intersect(&prims, &Ray::new(p(1, 5, 1), Vector3::new(0, -SCALE, 0), 0));
    assert_eq!(between.distance, 2 * SCALE);
    let node = BVHAccel::get_intersection(bvh.root.as_ref().unwrap(), &prims, &Ray::new(p(1, 2, 1), Vector3::new(0, -SCALE, 0), 0));
    assert_eq!(node.distance, SCALE);
}

#[test]
fn of_two_equally_near_primitives_the_first_is_found() {
    let mut red = pathtracer::material::Material::new(
        pathtracer::global::MaterialType::Diffuse,
        Vector3::zeros(),
        Vector3::zeros(),
    );
    red.kd = Vector3::new(SCALE, 0, 0);
    let mut blue = red;
    blue.kd = Vector3::new(0, 0, SCALE);
    let prims = vec![
        Triangle::new(p(0, 0, 0), p(0, 0, 4), p(4, 0, 0), Some(red)),
        Triangle::new(p(0, 0, 0), p(0, 0, 4), p(4, 0, 0), Some(blue)),
    ];
    let bvh = BVHAccel::new(&prims, 1, SplitMethod::Naive);
    let hit = bvh.intersect(&prims, &Ray::new(p(1, 3, 1), Vector3::new(0, -SCALE, 0), 0));
    assert_eq!(hit.distance, 3 * SCALE);
    assert_eq!(hit.m.unwrap().kd, Vector3::new(SCALE, 0, 0));
}

#[test]
fn the_walk_ends_in_the_leaf_whose_stretch_of_area_holds_the_target() {
    let prims = vec![tile(0, 0, 0, 2), tile(10, 0, 0, 4), tile(20, 0, 0, 2)];
    let bvh = BVHAccel::new(&prims, 1, SplitMethod::Naive);
    let root = bvh.root.as_ref().unwrap();
    let mut order = Vec::new();
    leaves(root, &mut order);
    assert_eq!(order, vec![0, 1, 2]);
    // areas 2, 8, 2: the stretches are [0, 2), [2, 10), [10, 12)
    let cases = [(0, 0), (2 * SCALE - 1, 0), (2 * SCALE, 1), (10 * SCALE - 1, 1), (10 * SCALE, 2), (12 * SCALE - 1, 2)];
    for (target, leaf) in cases {
        let mut s = SampleStream::new(vec![0], vec![]);
        let (pos, _) = BVHAccel::get_sample(root, &prims, target, &mut s);
        // with both values zero the sample is the first vertex
        assert_eq!(pos.coords, prims[leaf].v0);
    }
}

#[test]
fn sample_scales_the_density_to_the_whole_area() {
    let prims = vec![tile(0, 0, 0, 2), tile(10, 0, 0, 4), tile(20, 0, 0, 2)];
    let bvh = BVHAccel::new(&prims, 1, SplitMethod::Naive);
    // sqrt(1/4) * 12 = 6: the second tile
    let mut s = SampleStream::new(vec![SCALE / 4, 0, 0], vec![]);
    let (pos, pdf) = bvh.sample(&prims, &mut s);
    assert_eq!(pos.coords, prims[1].v0);
    // (1/8 * 8) / 12
    assert_eq!(pdf, SCALE / 12);
    let none: Vec<Triangle> = vec![];
    let (pos, pdf) = BVHAccel::new(&none, 1, SplitMethod::Naive).sample(&none, &mut s);
    assert!(!pos.happened);
    assert_eq!(pdf, 0);
}
