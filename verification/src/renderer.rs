//! The driver's arithmetic: the camera, the rows each worker owns, the
//! tone curve, and the image file's bytes.

use vstd::prelude::*;
use crate::fixed::{fdiv, fdiv_spec, fmul, fmul_spec, sat_neg, saturate, SCALE};
use crate::global::{clamp, clamp_spec, SampleStream};
use crate::ray::Ray;
use crate::scene::Scene;
use crate::vector::{normalize, Vector3};

verus! {

pub struct Renderer;

/// The decimal digits of `n`, most significant first.
pub open spec fn digits_spec(n: nat) -> Seq<u8>
    decreases n,
{
    if n < 10 {
        seq![(48 + n) as u8]
    } else {
        digits_spec(n / 10).push((48 + n % 10) as u8)
    }
}

/// `n` written in decimal, with a minus sign before a negative number.
pub open spec fn decimal_spec(n: int) -> Seq<u8> {
    if n < 0 {
        seq![45u8] + digits_spec((-n) as nat)
    } else {
        digits_spec(n as nat)
    }
}

/// The header of a binary PPM image: `P6`, width and height, and the
/// largest sample value 255, each line ended by a line feed.
pub open spec fn header_spec(width: int, height: int) -> Seq<u8> {
    seq![80u8, 54u8, 10u8] + decimal_spec(width) + seq![32u8] + decimal_spec(height) + seq![
        10u8,
        50u8,
        53u8,
        53u8,
        10u8,
    ]
}

/// The decimal digits of `n`.
fn digits(n: u64) -> (r: Vec<u8>)
    ensures
        r@ == digits_spec(n as nat),
    decreases n,
{
    if n < 10 {
        let mut r: Vec<u8> = Vec::new();
        r.push((48 + n) as u8);
        assert(r@ =~= seq![(48 + n) as u8]);
        r
    } else {
        let mut r = digits(n / 10);
        r.push((48 + n % 10) as u8);
        r
    }
}

/// `n` written in decimal.
pub fn decimal(n: i32) -> (r: Vec<u8>)
    ensures
        r@ == decimal_spec(n as int),
{
    if n < 0 {
        let mut r: Vec<u8> = Vec::new();
        r.push(45);
        let mut d = digits((-(n as i64)) as u64);
        let ghost sign = r@;
        let ghost ds = d@;
        r.append(&mut d);
        assert(r@ =~= seq![45u8] + ds);
        r
    } else {
        digits(n as u64)
    }
}

impl Renderer {
    /// The header of the image file for an image of the given size.
    pub fn header(width: i32, height: i32) -> (r: Vec<u8>)
        ensures
            r@ == header_spec(width as int, height as int),
    {
        let mut r: Vec<u8> = Vec::new();
        r.push(80);
        r.push(54);
        r.push(10);
        assert(r@ =~= seq![80u8, 54u8, 10u8]);
        let mut w = decimal(width);
        r.append(&mut w);
        r.push(32);
        let mut h = decimal(height);
        r.append(&mut h);
        r.push(10);
        r.push(50);
        r.push(53);
        r.push(53);
        r.push(10);
        assert(r@ =~= header_spec(width as int, height as int));
        r
    }
}

/// The fifth power.
pub open spec fn pow5(r: int) -> int {
    r * r * r * r * r
}

/// Whether `r` is the fifth root of `n`, rounded down.
pub open spec fn is_fifth_root(n: int, r: int) -> bool {
    0 <= r && pow5(r) <= n < pow5(r + 1)
}

/// The fifth root of `n`, rounded down.
pub open spec fn fifth_root_spec(n: int) -> int {
    choose|r: int| is_fifth_root(n, r)
}

/// The tone curve: `v` held between zero and one and raised to the power
/// 0.6, the fifth root of its cube.
pub open spec fn gamma_spec(v: i64) -> i64 {
    let c = clamp_spec(0, SCALE, v);
    fifth_root_spec(SCALE * SCALE * (c * c * c)) as i64
}

/// The sample value of a colour component: the tone curve on a scale of
/// 0 to 255, rounded down.
pub open spec fn to_byte_spec(v: i64) -> u8 {
    ((255 * gamma_spec(v)) / (SCALE as int)) as u8
}

/// The three sample values of each pixel, one pixel after the other.
pub open spec fn body_spec(fb: Seq<Vector3>) -> Seq<u8>
    decreases fb.len(),
{
    if fb.len() == 0 {
        Seq::empty()
    } else {
        body_spec(fb.drop_last()) + seq![
            to_byte_spec(fb.last().x),
            to_byte_spec(fb.last().y),
            to_byte_spec(fb.last().z),
        ]
    }
}

/// Fifth powers grow with their base.
pub proof fn lemma_pow5_grows(a: int, b: int)
    requires
        0 <= a <= b,
    ensures
        pow5(a) <= pow5(b),
{
    assert(a * a <= b * b) by (nonlinear_arith)
        requires
            0 <= a <= b,
    ;
    assert(a * a * a <= b * b * b) by (nonlinear_arith)
        requires
            0 <= a <= b,
            0 <= a * a <= b * b,
    ;
    assert(a * a * a * a <= b * b * b * b) by (nonlinear_arith)
        requires
            0 <= a <= b,
            0 <= a * a * a <= b * b * b,
    ;
    assert(a * a * a * a * a <= b * b * b * b * b) by (nonlinear_arith)
        requires
            0 <= a <= b,
            0 <= a * a * a * a <= b * b * b * b,
    ;
}

/// A number has at most one fifth root.
pub proof fn lemma_fifth_root_unique(n: int, r1: int, r2: int)
    requires
        is_fifth_root(n, r1),
        is_fifth_root(n, r2),
    ensures
        r1 == r2,
{
    if r1 < r2 {
        lemma_pow5_grows(r1 + 1, r2);
    } else if r2 < r1 {
        lemma_pow5_grows(r2 + 1, r1);
    }
}

/// The fifth power of a number below 2^17.
fn pow5_of(r: u128) -> (p: u128)
    requires
        r <= 0x2_0000,
    ensures
        p == pow5(r as int),
{
    proof {
        lemma_pow5_grows(r as int, 0x2_0000);
        assert(pow5(0x2_0000) == 0x20_0000_0000_0000_0000_0000) by (nonlinear_arith);
        assert(r * r <= 0x2_0000 * 0x2_0000) by (nonlinear_arith)
            requires
                0 <= r <= 0x2_0000,
        ;
        assert(r * r * r <= 0x2_0000 * 0x2_0000 * 0x2_0000) by (nonlinear_arith)
            requires
                0 <= r <= 0x2_0000,
                0 <= r * r <= 0x2_0000 * 0x2_0000,
        ;
        assert(r * r * r * r <= 0x2_0000 * 0x2_0000 * 0x2_0000 * 0x2_0000) by (nonlinear_arith)
            requires
                0 <= r <= 0x2_0000,
                0 <= r * r * r <= 0x2_0000 * 0x2_0000 * 0x2_0000,
        ;
    }
    r * r * r * r * r
}

impl Renderer {
    /// The tone curve: `v` held between zero and one, to the power 0.6.
    pub fn gamma(v: i64) -> (r: i64)
        ensures
            r == gamma_spec(v),
            0 <= r <= SCALE,
    {
        let c = clamp(0, SCALE, v) as u128;
        proof {
            assert(c * c <= 65536 * 65536) by (nonlinear_arith)
                requires
                    0 <= c <= 65536,
            ;
            assert(c * c * c <= 65536 * 65536 * 65536) by (nonlinear_arith)
                requires
                    0 <= c <= 65536,
                    0 <= c * c <= 65536 * 65536,
            ;
        }
        let n: u128 = 65536 * 65536 * (c * c * c);
        let mut lo: u128 = 0;
        let mut hi: u128 = 65537;
        proof {
            assert(pow5(0) == 0) by (nonlinear_arith);
            assert(pow5(65537) > 65536 * 65536 * (65536 * 65536 * 65536)) by (nonlinear_arith);
        }
        while hi - lo > 1
            invariant
                lo < hi <= 65537,
                pow5(lo as int) <= n < pow5(hi as int),
            decreases hi - lo,
        {
            let mid = lo + (hi - lo) / 2;
            if pow5_of(mid) <= n {
                lo = mid;
            } else {
                hi = mid;
            }
        }
        proof {
            assert(is_fifth_root(n as int, lo as int));
            lemma_fifth_root_unique(n as int, lo as int, fifth_root_spec(n as int));
        }
        lo as i64
    }

    /// The sample value of a colour component.
    pub fn to_byte(v: i64) -> (b: u8)
        ensures
            b == to_byte_spec(v),
    {
        ((255 * Self::gamma(v)) / SCALE) as u8
    }

    /// The bytes of the image file: the header, then three sample values
    /// for each pixel of the frame buffer in its order, rows from the top.
    pub fn encode(width: i32, height: i32, fb: &Vec<Vector3>) -> (r: Vec<u8>)
        ensures
            r@ == header_spec(width as int, height as int) + body_spec(fb@),
    {
        let mut r = Self::header(width, height);
        let ghost head = r@;
        let mut i: usize = 0;
        assert(fb@.subrange(0, 0) =~= Seq::<Vector3>::empty());
        assert(r@ =~= head + body_spec(Seq::<Vector3>::empty()));
        while i < fb.len()
            invariant
                0 <= i <= fb.len(),
                r@ == head + body_spec(fb@.subrange(0, i as int)),
            decreases fb.len() - i,
        {
            let c = fb[i];
            let ghost before = r@;
            r.push(Self::to_byte(c.x));
            r.push(Self::to_byte(c.y));
            r.push(Self::to_byte(c.z));
            i += 1;
            proof {
                let done = fb@.subrange(0, i as int);
                assert(done.drop_last() =~= fb@.subrange(0, i - 1));
                assert(done.last() == c);
                assert(r@ =~= head + body_spec(done));
            }
        }
        assert(fb@.subrange(0, fb.len() as int) =~= fb@);
        r
    }
}

/// Where the camera stands: at (278, 273, -800).
pub open spec fn eye_spec() -> Vector3 {
    Vector3 { x: 18219008, y: 17891328, z: -52428800i64 }
}

/// The ray from the eye through the middle of pixel `(i, j)`, counted
/// from the left and from the top, for a camera that looks along +z.
/// `scale` is the tangent of half the field of view.
pub open spec fn camera_ray_spec(width: i32, height: i32, i: i32, j: i32, scale: i64) -> Ray {
    let aspect = fdiv_spec(width as i64, height as i64);
    let x = fmul_spec(fmul_spec(fdiv_spec((2 * i + 1 - width) as i64, width as i64), scale), aspect);
    let y = fmul_spec(fdiv_spec((height - (2 * j + 1)) as i64, height as i64), scale);
    let dir = (Vector3 { x: saturate(-x), y, z: SCALE }).normalize_spec();
    Ray::made(eye_spec(), dir, 0)
}

/// The share of one sample in a pixel: one over the number of samples.
pub open spec fn share_spec(spp: u32) -> i64 {
    fdiv_spec(SCALE, (spp * SCALE) as i64)
}

/// The sum of the first `k` samples of the radiance along `ray`, each
/// multiplied by `share`, and the stream after them.
pub open spec fn samples_spec(scene: Scene, ray: Ray, share: i64, k: nat, s: SampleStream) -> (
    Vector3,
    SampleStream,
)
    decreases k,
{
    if k == 0 {
        (Vector3 { x: 0, y: 0, z: 0 }, s)
    } else {
        let (sum, s1) = samples_spec(scene, ray, share, (k - 1) as nat, s);
        let (r, s2) = scene.radiance(ray, 0, s1);
        (sum.plus_spec(r.scaled_spec(share)), s2)
    }
}

/// The pixels with the indices `first` to `first + n - 1`, counted row by
/// row from the top left, and the stream after them.
pub open spec fn pixels_spec(
    scene: Scene,
    scale: i64,
    spp: u32,
    first: int,
    n: nat,
    s: SampleStream,
) -> (Seq<Vector3>, SampleStream)
    decreases n,
{
    if n == 0 {
        (Seq::empty(), s)
    } else {
        let (before, s1) = pixels_spec(scene, scale, spp, first, (n - 1) as nat, s);
        let m = first + n - 1;
        let ray = camera_ray_spec(
            scene.width,
            scene.height,
            (m % (scene.width as int)) as i32,
            (m / (scene.width as int)) as i32,
            scale,
        );
        let (c, s2) = samples_spec(scene, ray, share_spec(spp), spp as nat, s1);
        (before.push(c), s2)
    }
}

impl Renderer {
    /// Where the camera stands.
    pub fn eye_pos() -> (e: Vector3)
        ensures
            e == eye_spec(),
    {
        Vector3::new(18219008, 17891328, -52428800)
    }

    /// The ray from the eye through the middle of pixel `(i, j)`.
    pub fn camera_ray(width: i32, height: i32, i: i32, j: i32, scale: i64) -> (r: Ray)
        ensures
            r == camera_ray_spec(width, height, i, j, scale),
    {
        let aspect = fdiv(width as i64, height as i64);
        let across = 2 * (i as i64) + 1 - width as i64;
        let down = height as i64 - (2 * (j as i64) + 1);
        let x = fmul(fmul(fdiv(across, width as i64), scale), aspect);
        let y = fmul(fdiv(down, height as i64), scale);
        let dir = normalize(&Vector3::new(sat_neg(x), y, SCALE));
        Ray::new(Self::eye_pos(), dir, 0)
    }

    /// The colour of one pixel: the mean of `spp` samples of the radiance
    /// along `ray`.
    pub fn render_pixel(scene: &Scene, ray: &Ray, spp: u32, s: &mut SampleStream) -> (c: Vector3)
        requires
            scene.wf(),
        ensures
            (c, *final(s)) == samples_spec(*scene, *ray, share_spec(spp), spp as nat, *old(s)),
    {
        let share = fdiv(SCALE, spp as i64 * SCALE);
        let mut sum = Vector3::zeros();
        let mut k: u32 = 0;
        while k < spp
            invariant
                0 <= k <= spp,
                scene.wf(),
                share == share_spec(spp),
                (sum, *s) == samples_spec(*scene, *ray, share, k as nat, *old(s)),
            decreases spp - k,
        {
            let r = scene.cast_ray(ray, 0, s);
            sum = sum.plus(&r.scaled(share));
            k += 1;
        }
        sum
    }

    /// The colours of the pixels of the rows `first_row` up to, not
    /// including, `end_row`, row by row from the left.
    pub fn render_rows(
        scene: &Scene,
        first_row: i32,
        end_row: i32,
        scale: i64,
        spp: u32,
        s: &mut SampleStream,
    ) -> (fb: Vec<Vector3>)
        requires
            scene.wf(),
            0 <= first_row <= end_row <= scene.height,
            0 < scene.width,
        ensures
            (fb@, *final(s)) == pixels_spec(
                *scene,
                scale,
                spp,
                first_row * scene.width,
                ((end_row - first_row) * scene.width) as nat,
                *old(s),
            ),
    {
        let w = scene.width as u64;
        proof {
            assert(0 <= first_row * scene.width <= end_row * scene.width) by (nonlinear_arith)
                requires
                    0 <= first_row <= end_row,
                    0 < scene.width,
            ;
            assert(end_row * scene.width <= 0x7fff_ffff * 0x7fff_ffff) by (nonlinear_arith)
                requires
                    0 <= end_row <= 0x7fff_ffff,
                    0 < scene.width <= 0x7fff_ffff,
            ;
            assert((end_row - first_row) * scene.width == end_row * scene.width - first_row
                * scene.width) by (nonlinear_arith);
        }
        let first = first_row as u64 * w;
        let end = end_row as u64 * w;
        let mut fb: Vec<Vector3> = Vec::new();
        let mut m = first;
        while m < end
            invariant
                first <= m <= end,
                end == end_row * scene.width,
                0 <= end_row <= 0x7fff_ffff,
                end <= 0x7fff_ffff * 0x7fff_ffff,
                w == scene.width,
                0 < w <= 0x7fff_ffff,
                scene.wf(),
                (fb@, *s) == pixels_spec(*scene, scale, spp, first as int, (m - first) as nat, *old(s)),
            decreases end - m,
        {
            let i = (m % w) as i32;
            proof {
                assert(m / w < end_row) by (nonlinear_arith)
                    requires
                        0 <= m < end_row * w,
                        0 < w,
                ;
            }
            let j = (m / w) as i32;
            let ray = Self::camera_ray(scene.width, scene.height, i, j, scale);
            let c = Self::render_pixel(scene, &ray, spp, s);
            fb.push(c);
            m += 1;
        }
        fb
    }
}

/// The number of rows that each worker but the last owns: the rows
/// divided evenly among the workers, rounded down, and at least one.
pub open spec fn chunk_size_spec(height: i32, n_threads: i32) -> int {
    if n_threads >= 1 && height >= n_threads {
        height as int / n_threads as int
    } else {
        1
    }
}

/// Whether `ranges` share the rows `0` to `height - 1` out in runs of
/// `size` rows, in order, the last run ending with the last row: every
/// row belongs to exactly one range.
pub open spec fn shares_rows(ranges: Seq<(i32, i32)>, height: i32, size: int) -> bool {
    &&& forall|k: int|
        0 <= k < ranges.len() ==> (#[trigger] ranges[k]).0 == k * size && ranges[k].0 < ranges[k].1
            <= height && ranges[k].1 <= (k + 1) * size
    &&& forall|k: int| 0 <= k < ranges.len() - 1 ==> (#[trigger] ranges[k]).1 == (k + 1) * size
    &&& ranges.len() > 0 ==> ranges.last().1 == height
    &&& ranges.len() == 0 ==> height <= 0
}

/// Every row has one owner: the range with the index `row / size`, and
/// no other range holds the row.
pub proof fn lemma_row_has_one_owner(ranges: Seq<(i32, i32)>, height: i32, size: int, row: int)
    requires
        size >= 1,
        shares_rows(ranges, height, size),
        0 <= row < height,
    ensures
        0 <= row / size < ranges.len(),
        ranges[row / size].0 <= row < ranges[row / size].1,
        forall|j: int|
            0 <= j < ranges.len() && (#[trigger] ranges[j]).0 <= row < ranges[j].1 ==> j == row / size,
{
    let k = row / size;
    let n = ranges.len() as int;
    vstd::arithmetic::div_mod::lemma_fundamental_div_mod(row, size);
    vstd::arithmetic::div_mod::lemma_mod_bound(row, size);
    assert(k * size == size * k) by (nonlinear_arith);
    assert(k * size <= row < (k + 1) * size) by {
        assert((k + 1) * size == k * size + size) by (nonlinear_arith);
    }
    assert(k >= 0) by (nonlinear_arith)
        requires
            row >= 0,
            size >= 1,
            row < (k + 1) * size,
    ;
    // the last range ends with the last row, so the owner is no later
    assert(ranges[n - 1].1 == height);
    assert(k < n) by {
        if k >= n {
            assert(n * size <= k * size) by (nonlinear_arith)
                requires
                    n <= k,
                    size >= 1,
            ;
            assert(ranges[n - 1].1 <= (n - 1 + 1) * size);
        }
    }
    if k < n - 1 {
        assert(ranges[k].1 == (k + 1) * size);
    }
    assert forall|j: int|
        0 <= j < ranges.len() && (#[trigger] ranges[j]).0 <= row < ranges[j].1 implies j == k by {
        assert(j * size <= row < (j + 1) * size);
        if j < k {
            assert((j + 1) * size <= k * size) by (nonlinear_arith)
                requires
                    j + 1 <= k,
                    size >= 1,
            ;
        } else if j > k {
            assert((k + 1) * size <= j * size) by (nonlinear_arith)
                requires
                    k + 1 <= j,
                    size >= 1,
            ;
        }
    }
}

/// The image file of the whole render: the header, then the pixels of all
/// rows from the top. An image without width or height has no pixels.
pub open spec fn image_spec(scene: Scene, scale: i64, spp: u32, s: SampleStream) -> (
    Seq<u8>,
    SampleStream,
) {
    if scene.width <= 0 || scene.height <= 0 {
        (header_spec(scene.width as int, scene.height as int), s)
    } else {
        let (fb, after) = pixels_spec(scene, scale, spp, 0, (scene.height * scene.width) as nat, s);
        (header_spec(scene.width as int, scene.height as int) + body_spec(fb), after)
    }
}

impl Renderer {
    /// Shares the rows of an image out among `n_threads` workers: the
    /// ranges of rows, first row and end, that the workers own. No row
    /// belongs to two workers and none is left out.
    pub fn chunks(height: i32, n_threads: i32) -> (ranges: Vec<(i32, i32)>)
        ensures
            shares_rows(ranges@, height, chunk_size_spec(height, n_threads)),
    {
        let size = if n_threads >= 1 && height >= n_threads {
            proof {
                vstd::arithmetic::div_mod::lemma_div_is_ordered(
                    n_threads as int,
                    height as int,
                    n_threads as int,
                );
                vstd::arithmetic::div_mod::lemma_div_basics(n_threads as int);
            }
            height / n_threads
        } else {
            1
        };
        let mut ranges: Vec<(i32, i32)> = Vec::new();
        let mut start: i32 = 0;
        assert(0 * size == 0);
        while start < height
            invariant
                1 <= size,
                size == chunk_size_spec(height, n_threads),
                0 <= start,
                start == ranges.len() * size,
                ranges.len() == 0 ==> start == 0,
                ranges.len() > 0 ==> ranges@.last().1 == start && start <= height,
                forall|k: int|
                    0 <= k < ranges.len() ==> (#[trigger] ranges[k]).0 == k * size && ranges[k].0
                        < ranges[k].1 <= height && ranges[k].1 <= (k + 1) * size,
                forall|k: int| 0 <= k < ranges.len() - 1 ==> (#[trigger] ranges[k]).1 == (k + 1) * size,
            decreases height - start,
        {
            let end = if height - start > size {
                start + size
            } else {
                height
            };
            proof {
                assert((ranges.len() + 1) * size == ranges.len() * size + size) by (nonlinear_arith);
            }
            ranges.push((start, end));
            start = end;
            if end == height {
                proof {
                    assert(ranges@.last().1 == height);
                }
                return ranges;
            }
        }
        ranges
    }

    /// Renders the whole image, one pixel after the other, and gives the
    /// bytes of the image file. With the same scene and the same stream of
    /// values, the bytes are the same.
    pub fn render(scene: &Scene, scale: i64, spp: u32, s: &mut SampleStream) -> (r: Vec<u8>)
        requires
            scene.wf(),
        ensures
            (r@, *final(s)) == image_spec(*scene, scale, spp, *old(s)),
    {
        if scene.width <= 0 || scene.height <= 0 {
            let fb: Vec<Vector3> = Vec::new();
            let r = Self::encode(scene.width, scene.height, &fb);
            assert(body_spec(fb@) =~= Seq::<u8>::empty());
            assert(r@ =~= header_spec(scene.width as int, scene.height as int));
            return r;
        }
        let fb = Self::render_rows(scene, 0, scene.height, scale, spp, s);
        Self::encode(scene.width, scene.height, &fb)
    }
}

} // verus!
