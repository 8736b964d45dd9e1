use pathtracer::bounds3::Axis;
use pathtracer::fixed::SCALE;
use pathtracer::vector::{cross, dot, max_i64, min_i64, norm, normalize, Vector3};

fn whole(x: i64, y: i64, z: i64) -> Vector3 {
    Vector3::new(x * SCALE, y * SCALE, z * SCALE)
}

#[test]
fn constructors() {
    assert_eq!(Vector3::new(1, 2, 3), Vector3 { x: 1, y: 2, z: 3 });
    assert_eq!(Vector3::same(7), Vector3 { x: 7, y: 7, z: 7 });
    assert_eq!(Vector3::zeros(), Vector3 { x: 0, y: 0, z: 0 });
}

#[test]
fn componentwise_arithmetic() {
    let a = whole(1, 2, 3);
    let b = whole(4, -5, 6);
    assert_eq!(a.plus(&b), whole(5, -3, 9));
    assert_eq!(a.minus(&b), whole(-3, 7, -3));
    assert_eq!(a.negated(), whole(-1, -2, -3));
    assert_eq!(a.scaled(2 * SCALE), whole(2, 4, 6));
    assert_eq!(a.scaled(SCALE / 2), Vector3::new(32768, 65536, 98304));
    assert_eq!(whole(2, 4, 6).divided(2 * SCALE), a);
    assert_eq!(a.times(&b), whole(4, -10, 18));
    assert_eq!(a.divided(0), Vector3::zeros());
}

#[test]
fn arithmetic_saturates() {
    let big = Vector3::same(i64::MAX);
    assert_eq!(big.plus(&big), big);
    assert_eq!(big.negated().minus(&big), Vector3::same(i64::MIN));
    assert_eq!(Vector3::same(i64::MIN).negated(), big);
}

#[test]
fn min_and_max_are_componentwise() {
    let a = Vector3::new(1, 9, -3);
    let b = Vector3::new(4, 2, -7);
    assert_eq!(Vector3::min(&a, &b), Vector3::new(1, 2, -7));
    assert_eq!(Vector3::max(&a, &b), Vector3::new(4, 9, -3));
    assert_eq!(min_i64(3, -3), -3);
    assert_eq!(max_i64(3, -3), 3);
}

#[test]
fn dot_product() {
    assert_eq!(dot(&whole(1, 2, 3), &whole(4, -5, 6)), 12 * SCALE);
    assert_eq!(dot(&whole(1, 0, 0), &whole(0, 1, 0)), 0);
    // one raw unit squared is less than a raw unit: rounds down
    assert_eq!(dot(&Vector3::new(1, 0, 0), &Vector3::new(1, 0, 0)), 0);
    assert_eq!(dot(&Vector3::new(-1, 0, 0), &Vector3::new(1, 0, 0)), -1);
    assert_eq!(dot(&Vector3::same(i64::MAX), &Vector3::same(i64::MAX)), i64::MAX);
    assert_eq!(dot(&Vector3::same(i64::MAX), &Vector3::same(i64::MIN)), i64::MIN);
}

#[test]
fn cross_product() {
    assert_eq!(cross(&whole(1, 0, 0), &whole(0, 1, 0)), whole(0, 0, 1));
    assert_eq!(cross(&whole(0, 1, 0), &whole(1, 0, 0)), whole(0, 0, -1));
    assert_eq!(cross(&whole(1, 2, 3), &whole(4, 5, 6)), whole(-3, 6, -3));
    assert_eq!(cross(&whole(2, 2, 2), &whole(2, 2, 2)), Vector3::zeros());
}

#[test]
fn norm_is_the_length() {
    assert_eq!(norm(&whole(3, 4, 0)), 5 * SCALE);
    assert_eq!(norm(&whole(0, 0, -2)), 2 * SCALE);
    assert_eq!(norm(&Vector3::zeros()), 0);
    // sqrt(3) rounded down
    assert_eq!(norm(&Vector3::new(1, 1, 1)), 1);
    assert_eq!(norm(&Vector3::same(i64::MIN)), i64::MAX);
}

#[test]
fn normalize_gives_unit_length() {
    assert_eq!(normalize(&whole(0, 0, 5)), whole(0, 0, 1));
    assert_eq!(normalize(&whole(3, 4, 0)), Vector3::new(39321, 52428, 0));
    assert_eq!(normalize(&whole(-3, 0, 0)), whole(-1, 0, 0));
    assert_eq!(normalize(&Vector3::zeros()), Vector3::zeros());
}

#[test]
fn axis_picks_a_component() {
    let a = Vector3::new(1, 2, 3);
    assert_eq!(a.axis(Axis::X), 1);
    assert_eq!(a.axis(Axis::Y), 2);
    assert_eq!(a.axis(Axis::Z), 3);
}

#[test]
fn is_within_checks_every_component() {
    assert!(Vector3::new(5, -5, 0).is_within(5));
    assert!(!Vector3::new(5, -6, 0).is_within(5));
    assert!(!Vector3::new(0, 0, 6).is_within(5));
}
