use pathtracer::fixed::SCALE;
use pathtracer::ray::{Ray, RANGE};
use pathtracer::vector::Vector3;

#[test]
fn new_keeps_origin_and_direction_and_sets_the_reciprocal() {
    let r = Ray::new(Vector3::new(1, 2, 3), Vector3::new(2 * SCALE, -4 * SCALE, 0), 7);
    assert_eq!(r.origin, Vector3::new(1, 2, 3));
    assert_eq!(r.direction, Vector3::new(2 * SCALE, -4 * SCALE, 0));
    assert_eq!(r.direction_inv, Vector3::new(32768, -16384, 0));
    assert_eq!(r.t, 7);
    assert_eq!(r.t_min, 0);
    assert_eq!(r.t_max, i64::MAX);
}

#[test]
fn at_walks_along_the_direction() {
    let r = Ray::new(Vector3::new(SCALE, 0, 0), Vector3::new(0, 2 * SCALE, -SCALE), 0);
    assert_eq!(r.at(0), Vector3::new(SCALE, 0, 0));
    assert_eq!(r.at(3 * SCALE), Vector3::new(SCALE, 6 * SCALE, -3 * SCALE));
    assert_eq!(r.at(SCALE / 2), Vector3::new(SCALE, SCALE, -SCALE / 2));
}

#[test]
fn change_dir_renews_the_reciprocal() {
    let mut r = Ray::new(Vector3::new(1, 2, 3), Vector3::new(SCALE, SCALE, SCALE), 5);
    r.change_dir(Vector3::new(4 * SCALE, 0, -SCALE));
    assert_eq!(r.direction, Vector3::new(4 * SCALE, 0, -SCALE));
    assert_eq!(r.direction_inv, Vector3::new(16384, 0, -SCALE));
    assert_eq!(r.origin, Vector3::new(1, 2, 3));
    assert_eq!(r.t, 5);
}

#[test]
fn range_is_checked_on_origin_and_direction() {
    assert_eq!(RANGE, 1 << 32);
    assert!(Ray::new(Vector3::same(RANGE), Vector3::same(-RANGE), 0).is_in_range());
    assert!(!Ray::new(Vector3::new(0, RANGE + 1, 0), Vector3::same(1), 0).is_in_range());
    assert!(!Ray::new(Vector3::same(0), Vector3::new(0, 0, -RANGE - 1), 0).is_in_range());
}
