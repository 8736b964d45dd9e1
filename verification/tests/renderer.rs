use pathtracer::fixed::SCALE;
use pathtracer::global::{MaterialType, SampleStream};
use pathtracer::material::Material;
use pathtracer::renderer::{decimal, Renderer};
use pathtracer::scene::Scene;
use pathtracer::triangle::MeshTriangle;
use pathtracer::vector::Vector3;

#[test]
fn decimal_writes_numbers_as_text() {
    assert_eq!(decimal(0), b"0".to_vec());
    assert_eq!(decimal(7), b"7".to_vec());
    assert_eq!(decimal(10), b"10".to_vec());
    assert_eq!(decimal(1280), b"1280".to_vec());
    assert_eq!(decimal(-12), b"-12".to_vec());
    assert_eq!(decimal(i32::MAX), b"2147483647".to_vec());
    assert_eq!(decimal(i32::MIN), b"-2147483648".to_vec());
}

#[test]
fn the_header_names_format_size_and_depth() {
    assert_eq!(Renderer::header(4, 4), b"P6\n4 4\n255\n".to_vec());
    assert_eq!(Renderer::header(784, 1024), b"P6\n784 1024\n255\n".to_vec());
}

/// Reads a PPM header back: the magic number and three numbers, separated
/// by white space, and one white space after the last.
fn parse_header(bytes: &[u8]) -> Option<(String, u32, u32, u32, usize)> {
    let mut fields: Vec<String> = Vec::new();
    let mut at = 0;
    while fields.len() < 4 {
        let mut word = String::new();
        while at < bytes.len() && !bytes[at].is_ascii_whitespace() {
            word.push(bytes[at] as char);
            at += 1;
        }
        if word.is_empty() || at >= bytes.len() {
            return None;
        }
        at += 1;
        fields.push(word);
    }
    Some((
        fields[0].clone(),
        fields[1].parse().ok()?,
        fields[2].parse().ok()?,
        fields[3].parse().ok()?,
        at,
    ))
}

#[test]
fn the_header_of_a_4_by_4_image_reads_back() {
    let header = Renderer::header(4, 4);
    let (magic, width, height, maxval, len) = parse_header(&header).unwrap();
    assert_eq!(magic, "P6");
    assert_eq!((width, height, maxval), (4, 4, 255));
    assert_eq!(len, header.len());
}

#[test]
fn headers_of_many_sizes_read_back() {
    for (w, h) in [(1, 1), (4, 4), (10, 9), (640, 480), (99999, 100000), (0, 7)] {
        let header = Renderer::header(w, h);
        let (magic, width, height, maxval, len) = parse_header(&header).unwrap();
        assert_eq!(magic, "P6");
        assert_eq!((width as i32, height as i32, maxval), (w, h, 255));
        assert_eq!(len, header.len());
    }
}

#[test]
fn the_tone_curve_raises_to_the_power_six_tenths() {
    assert_eq!(Renderer::gamma(0), 0);
    assert_eq!(Renderer::gamma(SCALE), SCALE);
    // 0.5 ^ 0.6 = 0.65975...
    assert_eq!(Renderer::gamma(SCALE / 2), 43237);
    assert_eq!(Renderer::gamma(SCALE / 4), 28526);
    assert_eq!(Renderer::gamma(3 * SCALE / 4), 55146);
    assert_eq!(Renderer::gamma(6553), 16460);
    assert_eq!(Renderer::gamma(1), 84);
    // held between zero and one first
    assert_eq!(Renderer::gamma(-5), 0);
    assert_eq!(Renderer::gamma(2 * SCALE), SCALE);
    assert_eq!(Renderer::gamma(i64::MAX), SCALE);
    assert_eq!(Renderer::gamma(i64::MIN), 0);
}

#[test]
fn sample_values_run_from_0_to_255() {
    assert_eq!(Renderer::to_byte(0), 0);
    assert_eq!(Renderer::to_byte(-1), 0);
    assert_eq!(Renderer::to_byte(1), 0);
    assert_eq!(Renderer::to_byte(100), 5);
    assert_eq!(Renderer::to_byte(6553), 64);
    assert_eq!(Renderer::to_byte(SCALE / 4), 110);
    assert_eq!(Renderer::to_byte(SCALE / 2), 168);
    assert_eq!(Renderer::to_byte(3 * SCALE / 4), 214);
    assert_eq!(Renderer::to_byte(SCALE - 1), 254);
    assert_eq!(Renderer::to_byte(SCALE), 255);
    assert_eq!(Renderer::to_byte(2 * SCALE), 255);
}

#[test]
fn encode_appends_three_bytes_for_each_pixel() {
    let fb = vec![
        Vector3::new(0, SCALE / 2, SCALE),
        Vector3::new(-1, 2 * SCALE, SCALE / 4),
    ];
    let bytes = Renderer::encode(2, 1, &fb);
    let mut expected = b"P6\n2 1\n255\n".to_vec();
    expected.extend([0, 168, 255, 0, 255, 110]);
    assert_eq!(bytes, expected);
    assert_eq!(Renderer::encode(0, 0, &vec![]), b"P6\n0 0\n255\n".to_vec());
}

fn check_partition(ranges: &Vec<(i32, i32)>, height: i32, size: i32) {
    let mut owner = vec![0; height.max(0) as usize];
    for (k, &(first, end)) in ranges.iter().enumerate() {
        assert!(first < end);
        assert_eq!(first, k as i32 * size);
        if k + 1 < ranges.len() {
            assert_eq!(end - first, size);
        } else {
            assert!(end - first <= size);
            assert_eq!(end, height);
        }
        for row in first..end {
            owner[row as usize] += 1;
        }
    }
    assert!(owner.iter().all(|&n| n == 1));
}

#[test]
fn chunks_give_every_row_to_one_worker() {
    let r = Renderer::chunks(100, 16);
    assert_eq!(r.len(), 17);
    assert_eq!(r[0], (0, 6));
    assert_eq!(r[16], (96, 100));
    check_partition(&r, 100, 6);
    let even = Renderer::chunks(64, 16);
    assert_eq!(even.len(), 16);
    check_partition(&even, 64, 4);
    assert_eq!(Renderer::chunks(10, 1), vec![(0, 10)]);
    check_partition(&Renderer::chunks(1024, 16), 1024, 64);
}

#[test]
fn chunks_with_more_workers_than_rows_are_single_rows() {
    let r = Renderer::chunks(5, 16);
    assert_eq!(r, vec![(0, 1), (1, 2), (2, 3), (3, 4), (4, 5)]);
    check_partition(&Renderer::chunks(10, 0), 10, 1);
    check_partition(&Renderer::chunks(10, -3), 10, 1);
}

#[test]
fn chunks_of_no_rows_are_none() {
    assert!(Renderer::chunks(0, 16).is_empty());
    assert!(Renderer::chunks(-4, 16).is_empty());
}

#[test]
fn the_camera_looks_through_the_middle_of_each_pixel() {
    assert_eq!(Renderer::eye_pos(), Vector3::new(278 * SCALE, 273 * SCALE, -800 * SCALE));
    // a 2 by 2 image at an opening of 90 degrees: the pixel middles lie at +-0.5
    let top_left = Renderer::camera_ray(2, 2, 0, 0, SCALE);
    assert_eq!(top_left.origin, Renderer::eye_pos());
    assert_eq!(top_left.direction, Vector3::new(26755, 26755, 53510));
    let bottom_right = Renderer::camera_ray(2, 2, 1, 1, SCALE);
    assert_eq!(bottom_right.direction, Vector3::new(-26756, -26756, 53510));
    // a single pixel looks straight ahead
    let ahead = Renderer::camera_ray(1, 1, 0, 0, SCALE);
    assert_eq!(ahead.direction, Vector3::new(0, 0, SCALE));
}

fn push(v: &mut Vec<i64>, x: i64, y: i64, z: i64) {
    v.push(x * SCALE);
    v.push(y * SCALE);
    v.push(z * SCALE);
}

/// A wall at z = 0 that faces the camera, lit by a lamp in front of it
/// that shines towards the wall.
fn lit_wall(width: i32, height: i32) -> Scene {
    let mut grey = Material::new(MaterialType::Diffuse, Vector3::zeros(), Vector3::zeros());
    grey.kd = Vector3::new(SCALE / 2, SCALE / 4, SCALE / 8);
    let lamp = Material::new(MaterialType::Diffuse, Vector3::zeros(), Vector3::same(4000 * SCALE));
    let mut wall = Vec::new();
    push(&mut wall, -2000, -2000, 0);
    push(&mut wall, -2000, 2000, 0);
    push(&mut wall, 2000, -2000, 0);
    push(&mut wall, 2000, 2000, 0);
    let mut light = Vec::new();
    push(&mut light, 228, 223, -100);
    push(&mut light, 328, 223, -100);
    push(&mut light, 228, 323, -100);
    push(&mut light, 328, 323, -100);
    let faces = vec![0, 1, 2, 3, 2, 1];
    let mut scene = Scene::new(width, height);
    scene.add_obj(MeshTriangle::from_obj(&wall, &faces, grey));
    scene.add_obj(MeshTriangle::from_obj(&light, &faces, lamp));
    scene.build_bvh();
    scene
}

fn stream() -> SampleStream {
    SampleStream::new(
        vec![19661, 39322, 13107, 58982, 6554, 45875, 32768, 60000, 1000, 26214, 52000],
        vec![(SCALE, 0), (0, SCALE), (-46341, 46341), (46341, -46341), (-SCALE, 0)],
    )
}

#[test]
fn a_render_is_a_header_and_three_bytes_a_pixel() {
    let scene = lit_wall(4, 4);
    let bytes = Renderer::render(&scene, 23853, 4, &mut stream());
    assert_eq!(bytes.len(), 11 + 4 * 4 * 3);
    assert_eq!(&bytes[..11], b"P6\n4 4\n255\n");
    let (magic, width, height, maxval, len) = parse_header(&bytes).unwrap();
    assert_eq!(magic, "P6");
    assert_eq!((width, height, maxval, len), (4, 4, 255, 11));
    // the wall is lit, and its red reflectance is the highest
    let body = &bytes[11..];
    assert!(body.iter().any(|&b| b > 0));
    for px in body.chunks(3) {
        assert!(px[0] >= px[1] && px[1] >= px[2]);
    }
}

#[test]
fn two_renders_with_the_same_samples_give_the_same_bytes() {
    let first = Renderer::render(&lit_wall(4, 4), 23853, 3, &mut stream());
    let second = Renderer::render(&lit_wall(4, 4), 23853, 3, &mut stream());
    assert_eq!(first, second);
    let scene = lit_wall(5, 3);
    let mut s = stream();
    let a = Renderer::render(&scene, 23853, 2, &mut s);
    let mut t = stream();
    let b = Renderer::render(&scene, 23853, 2, &mut t);
    assert_eq!(a, b);
    assert_eq!(s.cursor, t.cursor);
    assert_eq!(s.turn_cursor, t.turn_cursor);
}

#[test]
fn rows_rendered_apart_with_one_stream_make_the_whole_image() {
    let scene = lit_wall(3, 4);
    let mut s = stream();
    let whole = Renderer::render_rows(&scene, 0, 4, 23853, 2, &mut s);
    let mut t = stream();
    let mut parts = Renderer::render_rows(&scene, 0, 1, 23853, 2, &mut t);
    parts.extend(Renderer::render_rows(&scene, 1, 4, 23853, 2, &mut t));
    assert_eq!(whole.len(), 12);
    assert_eq!(whole, parts);
    assert_eq!(Renderer::encode(3, 4, &whole), Renderer::render(&scene, 23853, 2, &mut stream()));
}

#[test]
fn a_pixel_is_the_mean_of_its_samples() {
    let scene = lit_wall(1, 1);
    let ray = Renderer::camera_ray(1, 1, 0, 0, 23853);
    let mut s = stream();
    let one = scene.cast_ray(&ray, 0, &mut s);
    let two = scene.cast_ray(&ray, 0, &mut s);
    let mean = one.scaled(SCALE / 2).plus(&two.scaled(SCALE / 2));
    assert_eq!(Renderer::render_pixel(&scene, &ray, 2, &mut stream()), mean);
    assert_eq!(Renderer::render_pixel(&scene, &ray, 0, &mut stream()), Vector3::zeros());
}

#[test]
fn an_image_without_size_is_a_header_alone() {
    let scene = Scene::new(0, 5);
    assert_eq!(Renderer::render(&scene, SCALE, 4, &mut stream()), b"P6\n0 5\n255\n".to_vec());
    let negative = Scene::new(3, -1);
    assert_eq!(Renderer::render(&negative, SCALE, 4, &mut stream()), b"P6\n3 -1\n255\n".to_vec());
}
