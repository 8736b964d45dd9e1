use pathtracer::fixed::SCALE;
use pathtracer::global::{MaterialType, SampleStream};
use pathtracer::intersection::Intersection;
use pathtracer::material::Material;
use pathtracer::object::Object;
use pathtracer::ray::Ray;
use pathtracer::scene::{indirect, offset_origin, Scene, SHADOW_TOLERANCE};
use pathtracer::triangle::MeshTriangle;
use pathtracer::vector::Vector3;

fn p(x: i64, y: i64, z: i64) -> Vector3 {
    Vector3::new(x * SCALE, y * SCALE, z * SCALE)
}

fn grey() -> Material {
    let mut m = Material::new(MaterialType::Diffuse, Vector3::zeros(), Vector3::zeros());
    m.kd = Vector3::same(SCALE / 2);
    m
}

fn lamp(power: i64) -> Material {
    Material::new(MaterialType::Diffuse, Vector3::zeros(), Vector3::same(power * SCALE))
}

/// A rectangle in the plane y = `y` from `(x0, z0)` to `(x1, z1)`, facing
/// up or down.
fn quad(x0: i64, z0: i64, x1: i64, z1: i64, y: i64, up: bool, m: Material) -> MeshTriangle {
    let corners = if up {
        [p(x0, y, z0), p(x0, y, z1), p(x1, y, z0), p(x1, y, z1)]
    } else {
        [p(x0, y, z0), p(x1, y, z0), p(x0, y, z1), p(x1, y, z1)]
    };
    let mut positions = Vec::new();
    for c in corners {
        positions.extend([c.x, c.y, c.z]);
    }
    MeshTriangle::from_obj(&positions, &vec![0, 1, 2, 3, 2, 1], m)
}

/// A floor of 4 by 4 at height 0 under a lamp of 2 by 2 at height 4.
fn room() -> Scene {
    let mut scene = Scene::new(8, 8);
    scene.add_obj(quad(0, 0, 4, 4, 0, true, grey()));
    scene.add_obj(quad(1, 1, 3, 3, 4, false, lamp(8)));
    scene.build_bvh();
    scene
}

fn stream() -> SampleStream {
    SampleStream::new(
        vec![19661, 39322, 13107, 58982, 6554, 45875, 32768, 60000, 1000, 26214, 52000],
        vec![(SCALE, 0), (0, SCALE), (-46341, 46341), (46341, -46341), (-SCALE, 0)],
    )
}

fn down() -> Vector3 {
    Vector3::new(0, -SCALE, 0)
}

#[test]
fn new_sets_the_defaults() {
    let s = Scene::new(784, 512);
    assert_eq!((s.width, s.height), (784, 512));
    assert_eq!(s.fov, 40 * SCALE);
    assert_eq!(s.background_color, Vector3::new(15420, 44205, 55256));
    assert_eq!(s.max_depth, 5);
    assert_eq!(s.epsilon, 16);
    assert_eq!(s.russian_roulette, 52429);
    assert!(s.objects.is_empty());
    assert!(s.bvh.is_none());
}

#[test]
fn nothing_is_met_before_the_tree_is_built() {
    let mut scene = Scene::new(8, 8);
    scene.add_obj(quad(0, 0, 4, 4, 0, true, grey()));
    let ray = Ray::new(p(2, 1, 2), down(), 0);
    assert!(!scene.intersect(&ray).happened);
    scene.build_bvh();
    let hit = scene.intersect(&ray);
    assert!(hit.happened);
    assert_eq!(hit.distance, SCALE);
    assert_eq!(hit.coords, p(2, 0, 2));
}

#[test]
fn an_object_added_after_the_build_is_not_in_the_tree() {
    let mut scene = room();
    scene.add_obj(quad(0, 0, 4, 4, 2, true, grey()));
    assert_eq!(scene.objects.len(), 3);
    let ray = Ray::new(p(2, 3, 2), down(), 0);
    assert_eq!(scene.intersect(&ray).distance, 3 * SCALE);
    scene.build_bvh();
    assert_eq!(scene.intersect(&ray).distance, SCALE);
}

#[test]
fn the_nearest_object_is_met() {
    let scene = room();
    let up = scene.intersect(&Ray::new(p(2, 1, 2), Vector3::new(0, SCALE, 0), 0));
    assert!(up.happened);
    assert_eq!(up.distance, 3 * SCALE);
    assert_eq!(up.normal, Vector3::new(0, -SCALE, 0));
    assert!(up.m.unwrap().has_emission());
    let past = scene.intersect(&Ray::new(p(10, 1, 10), down(), 0));
    assert!(!past.happened);
    assert_eq!(past.distance, i64::MAX);
}

#[test]
fn a_ray_that_misses_everything_brings_nothing() {
    let scene = room();
    let mut s = stream();
    assert_eq!(scene.cast_ray(&Ray::new(p(10, 1, 10), down(), 0), 0, &mut s), Vector3::zeros());
    // nothing was drawn
    assert_eq!(s.cursor, 0);
}

#[test]
fn a_ray_that_meets_the_lamp_brings_its_emission() {
    let scene = room();
    let mut s = stream();
    let seen = scene.cast_ray(&Ray::new(p(2, 1, 2), Vector3::new(0, SCALE, 0), 0), 0, &mut s);
    assert_eq!(seen, Vector3::same(8 * SCALE));
    assert_eq!(s.cursor, 0);
}

#[test]
fn the_floor_under_the_lamp_is_lit() {
    let scene = room();
    for depth in [0, 5, 9] {
        let mut s = stream();
        let r = scene.cast_ray(&Ray::new(p(2, 1, 2), down(), 0), depth, &mut s);
        assert!(r.x > 0 && r.y > 0 && r.z > 0);
        assert!(r.x < 8 * SCALE);
    }
}

#[test]
fn at_the_depth_limit_only_the_lamp_s_own_light_counts() {
    let scene = room();
    let ray = Ray::new(p(2, 1, 2), down(), 0);
    let hit = scene.intersect(&ray);
    let mut s = stream();
    let shallow = scene.cast_ray(&ray, 5, &mut s);
    // the same draws by hand: the light sample, then the direct term
    let mut t = stream();
    let (light, pdf) = scene.sample_light(&mut t);
    let expected = scene.direct(&hit.coords, &hit.normal, &ray.direction, &hit.m.unwrap(), &light, pdf);
    assert_eq!(shallow, expected);
    // one more value was drawn for the roulette
    t.get_random_float();
    assert_eq!(s.cursor, t.cursor);
}

#[test]
fn the_roulette_ends_the_path() {
    let scene = room();
    let ray = Ray::new(p(2, 1, 2), down(), 0);
    // every value is 0.9, above the continuation probability of 0.8
    let mut high = SampleStream::new(vec![58982], vec![(SCALE, 0)]);
    let ended = scene.cast_ray(&ray, 0, &mut high);
    let mut again = SampleStream::new(vec![58982], vec![(SCALE, 0)]);
    let capped = scene.cast_ray(&ray, 5, &mut again);
    assert_eq!(ended, capped);
    assert_eq!(high.turn_cursor, 0);
}

#[test]
fn direct_light_from_straight_above() {
    let scene = room();
    let mut light = Intersection::new();
    light.coords = p(2, 4, 2);
    light.normal = Vector3::new(0, -SCALE, 0);
    light.emit = Vector3::same(8 * SCALE);
    let normal = Vector3::new(0, SCALE, 0);
    // 8 * (0.5 / pi) * 1 * 1 / 4^2 / 0.25 = 0.3183
    let lit = scene.direct(&p(2, 0, 2), &normal, &down(), &grey(), &light, SCALE / 4);
    assert_eq!(lit, Vector3::same(20860));
    // no density, no light
    assert_eq!(scene.direct(&p(2, 0, 2), &normal, &down(), &grey(), &light, 0), Vector3::zeros());
    // the lamp at the point itself: no distance, no light
    let mut here = light;
    here.coords = p(2, 0, 2);
    assert_eq!(scene.direct(&p(2, 0, 2), &normal, &down(), &grey(), &here, SCALE / 4), Vector3::zeros());
}

#[test]
fn a_hidden_lamp_gives_no_direct_light() {
    let mut scene = room();
    // a screen below the lamp that faces down
    scene.add_obj(quad(0, 0, 4, 4, 2, false, grey()));
    scene.build_bvh();
    let mut light = Intersection::new();
    light.coords = p(2, 4, 2);
    light.normal = Vector3::new(0, -SCALE, 0);
    light.emit = Vector3::same(8 * SCALE);
    let normal = Vector3::new(0, SCALE, 0);
    let lit = scene.direct(&p(2, 0, 2), &normal, &down(), &grey(), &light, SCALE / 4);
    assert_eq!(lit, Vector3::zeros());
    let mut s = stream();
    assert_eq!(scene.cast_ray(&Ray::new(p(2, 1, 2), down(), 0), 5, &mut s), Vector3::zeros());
}

#[test]
fn an_occluder_within_the_tolerance_does_not_hide_the_lamp() {
    assert_eq!(SHADOW_TOLERANCE, 66);
    let normal = Vector3::new(0, SCALE, 0);
    let mut light = Intersection::new();
    light.normal = Vector3::new(0, -SCALE, 0);
    light.emit = Vector3::same(8 * SCALE);
    let scene = room();
    // the sampled point lies 49 raw units behind the lamp: the lamp is met 65 units
    // before it, counting the offset of 16 at the start, and still counts as seen
    light.coords = Vector3::new(2 * SCALE, 4 * SCALE + 49, 2 * SCALE);
    let near = scene.direct(&p(2, 0, 2), &normal, &down(), &grey(), &light, SCALE / 4);
    assert!(near.x > 0);
    // one unit more and the lamp hides it
    light.coords = Vector3::new(2 * SCALE, 4 * SCALE + 50, 2 * SCALE);
    let far = scene.direct(&p(2, 0, 2), &normal, &down(), &grey(), &light, SCALE / 4);
    assert_eq!(far, Vector3::zeros());
}

#[test]
fn a_scene_without_light_is_black() {
    let mut scene = Scene::new(8, 8);
    scene.add_obj(quad(0, 0, 4, 4, 0, true, grey()));
    scene.add_obj(quad(1, 1, 3, 3, 4, false, grey()));
    scene.add_obj(quad(0, 0, 4, 4, 2, true, lamp(0)));
    scene.build_bvh();
    let dirs = [down(), Vector3::new(0, SCALE, 0), Vector3::new(SCALE / 3, -SCALE, SCALE / 5), Vector3::new(-SCALE, SCALE / 2, 0)];
    let mut s = stream();
    for x in 0..5 {
        for z in 0..5 {
            for y in [1, 3, 5] {
                for d in dirs {
                    let ray = Ray::new(Vector3::new(x * SCALE + 9, y * SCALE, z * SCALE + 9), d, 0);
                    assert_eq!(scene.cast_ray(&ray, 0, &mut s), Vector3::zeros());
                }
            }
        }
    }
    let (nothing, pdf) = scene.sample_light(&mut s);
    assert!(!nothing.happened);
    assert_eq!(pdf, 0);
}

/// Three lamps of areas 4, 16 and 12 and a floor that gives no light.
fn lamps() -> Scene {
    let mut scene = Scene::new(8, 8);
    scene.add_obj(quad(0, 0, 2, 2, 10, false, lamp(1)));
    scene.add_obj(quad(0, 0, 40, 40, 0, true, grey()));
    scene.add_obj(quad(10, 0, 14, 4, 10, false, lamp(2)));
    scene.add_obj(quad(20, 0, 23, 4, 10, false, lamp(3)));
    scene.build_bvh();
    scene
}

#[test]
fn lights_are_chosen_in_proportion_to_their_areas() {
    let scene = lamps();
    assert_eq!(scene.objects[0].get_area(), 4 * SCALE);
    assert_eq!(scene.objects[2].get_area(), 16 * SCALE);
    assert_eq!(scene.objects[3].get_area(), 12 * SCALE);
    let n = 4096;
    let mut counts = [0i64; 4];
    for k in 0..n {
        let u = k * SCALE / n;
        let mut s = SampleStream::new(vec![u, 0, 0, 0], vec![]);
        let (pos, _) = scene.sample_light(&mut s);
        let power = pos.emit.x / SCALE;
        counts[power as usize] += 1;
        // the stretch of targets that each lamp owns
        let target = u * 32;
        let expected = if target <= 4 * SCALE { 1 } else if target <= 20 * SCALE { 2 } else { 3 };
        assert_eq!(power, expected);
    }
    assert_eq!(counts[0], 0);
    // 4 : 16 : 12 of 4096, the first lamp with the one target more that is zero
    assert_eq!(counts[1], 513);
    assert_eq!(counts[2], 2048);
    assert_eq!(counts[3], 1535);
}

#[test]
fn a_light_sample_lies_on_the_chosen_lamp() {
    let scene = lamps();
    // 0.5 * 32 = 16: the second lamp; then a target within its tree, then the triangle's point
    let mut s = SampleStream::new(vec![SCALE / 2, 0, 0, 0], vec![]);
    let (pos, pdf) = scene.sample_light(&mut s);
    assert_eq!(pos.emit, Vector3::same(2 * SCALE));
    assert_eq!(pos.coords, p(10, 10, 0));
    assert_eq!(pos.normal, Vector3::new(0, -SCALE, 0));
    // one over the lamp's area of 16
    assert_eq!(pdf, SCALE / 16);
    assert_eq!(s.cursor, 0);
}

#[test]
fn secondary_rays_start_off_the_surface() {
    let n = Vector3::new(0, SCALE, 0);
    let at = p(1, 0, 1);
    let above = offset_origin(&at, &n, &Vector3::new(0, SCALE, 0), SCALE / 4);
    assert_eq!(above, Vector3::new(SCALE, SCALE / 4, SCALE));
    let below = offset_origin(&at, &n, &Vector3::new(SCALE, -SCALE, 0), SCALE / 4);
    assert_eq!(below, Vector3::new(SCALE, -SCALE / 4, SCALE));
    let along = offset_origin(&at, &n, &Vector3::new(SCALE, 0, 0), SCALE / 4);
    assert_eq!(along, Vector3::new(SCALE, SCALE / 4, SCALE));
}

#[test]
fn a_bounce_weighs_what_comes_in() {
    let n = Vector3::new(0, SCALE, 0);
    let wi = Vector3::new(0, SCALE, 0);
    let wo = down();
    let shade = Vector3::new(SCALE, 2 * SCALE, 0);
    // 1 * (0.5 / pi) * 1 / (0.5 / pi) / 0.5 = 2
    let r = indirect(&shade, &grey(), &wo, &wi, &n, SCALE / 2);
    assert_eq!(r, Vector3::new(2 * SCALE, 4 * SCALE, 0));
    // below the surface nothing comes of it
    let under = indirect(&shade, &grey(), &wo, &down(), &n, SCALE / 2);
    assert_eq!(under, Vector3::zeros());
    assert_eq!(indirect(&Vector3::zeros(), &grey(), &wo, &wi, &n, SCALE / 2), Vector3::zeros());
}
