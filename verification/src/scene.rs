//! The scene: its objects, the tree over them, and the integrator.

use vstd::prelude::*;
use crate::bvh::{all_wf, areas_of, boxes_of, BVHAccel, SplitMethod};
use crate::fixed::{fdiv_spec, fmul, fmul_spec, sat_add, sat_sub, saturate, SCALE};
use crate::global::SampleStream;
use crate::intersection::Intersection;
use crate::material::Material;
use crate::object::Object;
use crate::ray::Ray;
use crate::triangle::MeshTriangle;
use crate::vector::{dot, norm, normalize, Vector3};

verus! {

#[derive(Debug)]
pub struct Scene {
    pub width: i32,
    pub height: i32,
    /// The vertical field of view, in degrees.
    pub fov: i64,
    pub background_color: Vector3,
    /// The depth beyond which no path is followed.
    pub max_depth: u32,
    /// How far the start of a secondary ray is moved off the surface.
    pub epsilon: i64,
    pub objects: Vec<MeshTriangle>,
    pub bvh: Option<BVHAccel>,
    /// The probability with which a path goes on after each bounce.
    pub russian_roulette: i64,
}

impl Scene {
    /// Whether the objects are well formed and the tree, where there is
    /// one, meets its invariant over them.
    pub open spec fn wf(self) -> bool {
        &&& all_wf(self.objects@)
        &&& self.bvh matches Some(b) ==> b.wf(self.objects@)
    }

    /// What a ray meets in the scene: the nearest of what it meets on the
    /// objects of the tree; nothing before the tree is built.
    pub open spec fn hit(self, ray: Ray) -> Intersection {
        match self.bvh {
            Some(b) => b.hit(self.objects@, ray),
            None => Intersection::none(),
        }
    }

    /// An empty scene for an image of the given size: a field of view of
    /// 40 degrees, paths of at most 5 bounces that go on with probability
    /// 0.8, and an offset of 16 raw units.
    pub fn new(width: i32, height: i32) -> (s: Scene)
        ensures
            s.wf(),
            s.width == width,
            s.height == height,
            s.fov == 40 * SCALE,
            s.background_color == (Vector3 { x: 15420, y: 44205, z: 55256 }),
            s.max_depth == 5,
            s.epsilon == 16,
            s.objects@ == Seq::<MeshTriangle>::empty(),
            s.bvh is None,
            s.russian_roulette == 52429,
    {
        Scene {
            width,
            height,
            fov: 40 * SCALE,
            background_color: Vector3::new(15420, 44205, 55256),
            max_depth: 5,
            epsilon: 16,
            objects: Vec::new(),
            bvh: None,
            russian_roulette: 52429,
        }
    }

    /// Adds an object at the end of the list. A tree built before does not
    /// know of it.
    pub fn add_obj(&mut self, object: MeshTriangle)
        requires
            old(self).wf(),
            object.wf(),
        ensures
            final(self).wf(),
            final(self).objects@ == old(self).objects@.push(object),
            final(self).bvh == old(self).bvh,
            final(self).width == old(self).width,
            final(self).height == old(self).height,
            final(self).fov == old(self).fov,
            final(self).background_color == old(self).background_color,
            final(self).max_depth == old(self).max_depth,
            final(self).epsilon == old(self).epsilon,
            final(self).russian_roulette == old(self).russian_roulette,
    {
        proof {
            if self.bvh is Some {
                self.bvh->0.lemma_wf_push(self.objects@, object);
            }
        }
        self.objects.push(object);
    }

    /// Builds the tree over the objects that the scene holds now.
    pub fn build_bvh(&mut self)
        requires
            old(self).wf(),
        ensures
            final(self).wf(),
            final(self).bvh matches Some(b) && b.covers(final(self).objects@),
            final(self).objects == old(self).objects,
            final(self).width == old(self).width,
            final(self).height == old(self).height,
            final(self).fov == old(self).fov,
            final(self).background_color == old(self).background_color,
            final(self).max_depth == old(self).max_depth,
            final(self).epsilon == old(self).epsilon,
            final(self).russian_roulette == old(self).russian_roulette,
    {
        self.bvh = Some(BVHAccel::new(&self.objects, 1, SplitMethod::Naive));
    }

    /// The nearest of what `ray` meets in the scene.
    pub fn intersect(&self, ray: &Ray) -> (i: Intersection)
        requires
            self.wf(),
        ensures
            i == self.hit(*ray),
    {
        if let Some(bvh) = &self.bvh {
            bvh.intersect(&self.objects, ray)
        } else {
            Intersection::new()
        }
    }
}

/// The areas of the light-giving objects among the first `n`, summed and
/// cut off at the upper end of `i64`.
pub open spec fn emit_area(objects: Seq<MeshTriangle>, n: int) -> i64
    decreases n,
{
    if n <= 0 {
        0
    } else {
        let before = emit_area(objects, n - 1);
        if objects[n - 1].emits() {
            saturate(before + objects[n - 1].area)
        } else {
            before
        }
    }
}

/// The first light-giving object from index `from` on at which the running
/// sum of areas reaches the target `p`.
pub open spec fn light_index(objects: Seq<MeshTriangle>, p: i64, from: int) -> Option<int>
    decreases objects.len() - from,
{
    if from < 0 || from >= objects.len() {
        None
    } else if objects[from].emits() && p <= emit_area(objects, from + 1) {
        Some(from)
    } else {
        light_index(objects, p, from + 1)
    }
}

/// The running sum of the areas of the light-giving objects does not fall.
pub proof fn lemma_emit_area_grows(objects: Seq<MeshTriangle>, i: int, j: int)
    requires
        all_wf(objects),
        0 <= i <= j <= objects.len(),
    ensures
        0 <= emit_area(objects, i) <= emit_area(objects, j),
    decreases j,
{
    if j > 0 {
        if i < j {
            lemma_emit_area_grows(objects, i, j - 1);
            assert(objects[j - 1].wf());
        } else {
            lemma_emit_area_grows(objects, i - 1, j - 1);
            assert(objects[j - 1].wf());
        }
    }
}

/// Light is chosen in proportion to area: laid end to end in the order of
/// the list, each light-giving object owns a stretch of targets as long as
/// its area, and a target in that stretch picks that object.
pub proof fn lemma_light_by_area(objects: Seq<MeshTriangle>, p: i64, i: int)
    requires
        all_wf(objects),
        0 <= i < objects.len(),
        objects[i].emits(),
        emit_area(objects, i) < p <= emit_area(objects, i + 1),
    ensures
        light_index(objects, p, 0) == Some(i),
{
    lemma_light_from(objects, p, i, 0);
}

/// What the scan from `from` on picks is a light-giving object at which
/// the running sum has reached the target, and at no light-giving object
/// before it had the sum reached the target.
pub proof fn lemma_light_index_is_first(objects: Seq<MeshTriangle>, p: i64, from: int)
    requires
        0 <= from,
    ensures
        match light_index(objects, p, from) {
            Some(i) => {
                &&& from <= i < objects.len()
                &&& objects[i].emits()
                &&& p <= emit_area(objects, i + 1)
                &&& forall|j: int|
                    from <= j < i && (#[trigger] objects[j]).emits() ==> p > emit_area(objects, j + 1)
            },
            None => forall|j: int|
                from <= j < objects.len() && (#[trigger] objects[j]).emits() ==> p > emit_area(
                    objects,
                    j + 1,
                ),
        },
    decreases objects.len() - from,
{
    if from < objects.len() {
        lemma_light_index_is_first(objects, p, from + 1);
    }
}

/// The scan from `from` passes over every object before `i` whose running
/// sum lies below the target.
proof fn lemma_light_from(objects: Seq<MeshTriangle>, p: i64, i: int, from: int)
    requires
        all_wf(objects),
        0 <= from <= i < objects.len(),
        objects[i].emits(),
        emit_area(objects, i) < p <= emit_area(objects, i + 1),
    ensures
        light_index(objects, p, from) == Some(i),
    decreases i - from,
{
    if from < i {
        lemma_emit_area_grows(objects, from + 1, i);
        lemma_light_from(objects, p, i, from + 1);
    }
}

impl Scene {
    /// The sum of the areas of the light-giving objects.
    pub open spec fn emit_area_sum(self) -> i64 {
        emit_area(self.objects@, self.objects@.len() as int)
    }

    /// The point on a light that `sample_light` draws: the target `u`
    /// times the sum of the lights' areas, for the next uniform value `u`,
    /// picks the light, and the light draws the point. Where no light is
    /// picked, nothing is drawn and the density is zero.
    pub open spec fn light_sample(self, s: SampleStream) -> (Intersection, i64, SampleStream) {
        let p = fmul_spec(s.peek(), self.emit_area_sum());
        match light_index(self.objects@, p, 0) {
            Some(i) => self.objects@[i].sample_from(s.advanced()),
            None => (Intersection::none(), 0, s.advanced()),
        }
    }

    /// Draws a point on a light-giving object, the objects weighted by
    /// their areas.
    pub fn sample_light(&self, s: &mut SampleStream) -> (r: (Intersection, i64))
        requires
            self.wf(),
        ensures
            (r.0, r.1, *final(s)) == self.light_sample(*old(s)),
    {
        let n = self.objects.len();
        let mut emit_area_sum: i64 = 0;
        let mut k: usize = 0;
        while k < n
            invariant
                0 <= k <= n,
                n == self.objects.len(),
                self.wf(),
                emit_area_sum == emit_area(self.objects@, k as int),
                *s == *old(s),
            decreases n - k,
        {
            if self.objects[k].has_emit() {
                emit_area_sum = sat_add(emit_area_sum, self.objects[k].get_area());
            }
            k += 1;
        }
        let ghost before = *s;
        let p = fmul(s.get_random_float(), emit_area_sum);
        let mut running: i64 = 0;
        let mut i: usize = 0;
        while i < n
            invariant
                0 <= i <= n,
                n == self.objects.len(),
                self.wf(),
                running == emit_area(self.objects@, i as int),
                before == *old(s),
                *s == before.advanced(),
                p == fmul_spec(before.peek(), self.emit_area_sum()),
                light_index(self.objects@, p, 0) == light_index(self.objects@, p, i as int),
            decreases n - i,
        {
            let object = &self.objects[i];
            if object.has_emit() {
                running = sat_add(running, object.get_area());
                if p <= running {
                    assert(running == emit_area(self.objects@, i + 1));
                    assert(light_index(self.objects@, p, i as int) == Some(i as int));
                    return object.sample(s);
                }
            }
            i += 1;
        }
        (Intersection::new(), 0)
    }
}

/// By how much an occluder may be nearer than the light and the light
/// still count as seen: a thousandth.
pub const SHADOW_TOLERANCE: i64 = 66;

/// Where a secondary ray in direction `dir` starts: the point `p` moved by
/// `epsilon` along the normal, to the side that `dir` leaves on.
pub open spec fn offset_origin_spec(p: Vector3, normal: Vector3, dir: Vector3, epsilon: i64) -> Vector3 {
    if dir.dot_spec(normal) < 0 {
        p.minus_spec(normal.scaled_spec(epsilon))
    } else {
        p.plus_spec(normal.scaled_spec(epsilon))
    }
}

/// Where a secondary ray in direction `dir` starts.
pub fn offset_origin(p: &Vector3, normal: &Vector3, dir: &Vector3, epsilon: i64) -> (o: Vector3)
    ensures
        o == offset_origin_spec(*p, *normal, *dir, epsilon),
{
    if dot(dir, normal) < 0 {
        p.minus(&normal.scaled(epsilon))
    } else {
        p.plus(&normal.scaled(epsilon))
    }
}

/// Whether what was met has a material that gives off light.
pub open spec fn glows(i: Intersection) -> bool {
    match i.m {
        Some(m) => m.emits(),
        None => false,
    }
}

/// What a bounce adds: the radiance `shade` that comes in along `wi`,
/// times the reflectance and the cosine at the surface, over the density
/// of `wi` and over the probability `rr` with which the path went on.
pub open spec fn indirect_spec(
    shade: Vector3,
    m: Material,
    wo: Vector3,
    wi: Vector3,
    normal: Vector3,
    rr: i64,
) -> Vector3 {
    shade.times_spec(m.eval_spec(wi, normal)).scaled_spec(wi.dot_spec(normal)).divided_spec(
        m.pdf_spec(wi, normal),
    ).divided_spec(rr)
}

/// What a bounce adds to the radiance.
pub fn indirect(shade: &Vector3, m: &Material, wo: &Vector3, wi: &Vector3, normal: &Vector3, rr: i64) -> (r:
    Vector3)
    ensures
        r == indirect_spec(*shade, *m, *wo, *wi, *normal, rr),
{
    shade.times(&m.eval(wo, wi, normal)).scaled(dot(wi, normal)).divided(m.pdf(wo, wi, normal)).divided(
        rr,
    )
}

impl Scene {
    /// The light that reaches the point `p` straight from the sampled
    /// point `light` of a lamp: the lamp's emission times the reflectance,
    /// the cosines at the surface and at the lamp, over the squared
    /// distance and over the density `pdf_l` of the sample. Nothing where
    /// the lamp is hidden, the density is not positive, or the distance is
    /// zero.
    pub open spec fn direct_spec(
        self,
        p: Vector3,
        normal: Vector3,
        wo: Vector3,
        m: Material,
        light: Intersection,
        pdf_l: i64,
    ) -> Vector3 {
        let ws = light.coords.minus_spec(p).normalize_spec();
        let light_ray = Ray::made(offset_origin_spec(p, normal, ws, self.epsilon), ws, 0);
        let d = p.minus_spec(light.coords).norm_spec();
        let seen = saturate(self.hit(light_ray).distance - d) > -SHADOW_TOLERANCE;
        if pdf_l > 0 && d > 0 && seen {
            light.emit.times_spec(m.eval_spec(ws, normal)).scaled_spec(ws.dot_spec(normal)).scaled_spec(
                ws.dot_spec(light.normal.negated_spec().normalize_spec()),
            ).divided_spec(fmul_spec(d, d)).divided_spec(pdf_l)
        } else {
            Vector3 { x: 0, y: 0, z: 0 }
        }
    }

    /// The light that reaches `p` straight from the sampled point of a lamp.
    pub fn direct(
        &self,
        p: &Vector3,
        normal: &Vector3,
        wo: &Vector3,
        m: &Material,
        light: &Intersection,
        pdf_l: i64,
    ) -> (r: Vector3)
        requires
            self.wf(),
        ensures
            r == self.direct_spec(*p, *normal, *wo, *m, *light, pdf_l),
    {
        let ws = normalize(&light.coords.minus(p));
        let light_ray = Ray::new(offset_origin(p, normal, &ws, self.epsilon), ws, 0);
        let d = norm(&p.minus(&light.coords));
        let light_inter = self.intersect(&light_ray);
        if pdf_l > 0 && d > 0 && sat_sub(light_inter.distance, d) > -SHADOW_TOLERANCE {
            let ev = m.eval(wo, &ws, normal);
            let dot1 = dot(&ws, normal);
            let dot2 = dot(&ws, &normalize(&light.normal.negated()));
            light.emit.times(&ev).scaled(dot1).scaled(dot2).divided(fmul(d, d)).divided(pdf_l)
        } else {
            Vector3::zeros()
        }
    }
}

impl Scene {
    /// The radiance that comes back along `ray`, and the stream after it
    /// was estimated.
    ///
    /// A ray that meets nothing, or a surface without a material, brings
    /// nothing. A ray that meets a lamp brings the lamp's emission. Any
    /// other ray brings the light that reaches the surface straight from
    /// a sampled point of a lamp, and, where the path goes on, what one
    /// bounce adds. The path goes on where `depth` is below the limit and
    /// the next uniform value does not exceed the continuation probability.
    pub open spec fn radiance(self, ray: Ray, depth: u32, s: SampleStream) -> (Vector3, SampleStream)
        decreases self.max_depth - depth,
    {
        let zero = Vector3 { x: 0, y: 0, z: 0 };
        let here = self.hit(ray);
        if !here.happened || here.m is None {
            (zero, s)
        } else {
            let m = here.m->0;
            if m.emits() {
                (m.m_emission, s)
            } else {
                let p = here.coords;
                let normal = here.normal.normalize_spec();
                let wo = ray.direction;
                let (light, pdf_l, s1) = self.light_sample(s);
                let l_dir = self.direct_spec(p, normal, wo, m, light, pdf_l);
                if depth >= self.max_depth || s1.peek() > self.russian_roulette {
                    (l_dir, s1.advanced())
                } else {
                    let s2 = s1.advanced();
                    let wi = m.sample_spec(normal, s2.peek(), s2.advanced().peek_turn()).normalize_spec();
                    let s3 = s2.advanced().turned();
                    let t_ray = Ray::made(offset_origin_spec(p, normal, wi, self.epsilon), wi, 0);
                    let next = self.hit(t_ray);
                    if next.happened && !glows(next) {
                        let (shade, s4) = self.radiance(t_ray, (depth + 1) as u32, s3);
                        (
                            l_dir.plus_spec(
                                indirect_spec(shade, m, wo, wi, normal, self.russian_roulette),
                            ),
                            s4,
                        )
                    } else {
                        (l_dir.plus_spec(zero), s3)
                    }
                }
            }
        }
    }

    /// Estimates the radiance that comes back along `ray`, at the given
    /// depth of the path, with values drawn from `s`.
    pub fn cast_ray(&self, ray: &Ray, depth: u32, s: &mut SampleStream) -> (r: Vector3)
        requires
            self.wf(),
        ensures
            (r, *final(s)) == self.radiance(*ray, depth, *old(s)),
        decreases self.max_depth - depth,
    {
        let obj_inter = self.intersect(ray);
        if !obj_inter.happened {
            return Vector3::zeros();
        }
        let m = match obj_inter.m {
            Some(m) => m,
            None => {
                return Vector3::zeros();
            },
        };
        if m.has_emission() {
            return *m.get_emission();
        }
        let p = obj_inter.coords;
        let normal = normalize(&obj_inter.normal);
        let wo = ray.direction;
        let (light_point, pdf_l) = self.sample_light(s);
        let l_dir = self.direct(&p, &normal, &wo, &m, &light_point, pdf_l);

        let u = s.get_random_float();
        if depth >= self.max_depth || u > self.russian_roulette {
            return l_dir;
        }
        let x1 = s.get_random_float();
        let turn = s.get_random_turn();
        let wi = normalize(&m.sample(&wo, &normal, x1, turn));
        let t_ray = Ray::new(offset_origin(&p, &normal, &wi, self.epsilon), wi, 0);
        let new_inter = self.intersect(&t_ray);
        let mut l_indir = Vector3::zeros();
        let lit = match new_inter.m {
            Some(nm) => nm.has_emission(),
            None => false,
        };
        if new_inter.happened && !lit {
            let shade = self.cast_ray(&t_ray, depth + 1, s);
            l_indir = indirect(&shade, &m, &wo, &wi, &normal, self.russian_roulette);
        }
        l_dir.plus(&l_indir)
    }
}

/// Nothing comes of a bounce that brings no light.
pub proof fn lemma_indirect_of_nothing(m: Material, wo: Vector3, wi: Vector3, normal: Vector3, rr: i64)
    ensures
        indirect_spec(Vector3 { x: 0, y: 0, z: 0 }, m, wo, wi, normal, rr) == (Vector3 {
            x: 0,
            y: 0,
            z: 0,
        }),
{
    let zero = Vector3 { x: 0, y: 0, z: 0 };
    let a = zero.times_spec(m.eval_spec(wi, normal));
    assert(a == zero);
    let b = a.scaled_spec(wi.dot_spec(normal));
    assert(b == zero);
    lemma_zero_divided(m.pdf_spec(wi, normal));
    let c = b.divided_spec(m.pdf_spec(wi, normal));
    assert(c == zero);
    lemma_zero_divided(rr);
}

/// Zero divided by anything is zero.
pub proof fn lemma_zero_divided(k: i64)
    ensures
        fdiv_spec(0, k) == 0,
{
    if k > 0 {
        vstd::arithmetic::div_mod::lemma_div_basics(k as int);
    } else if k < 0 {
        vstd::arithmetic::div_mod::lemma_div_basics(-(k as int));
    }
}

impl Scene {
    /// Whether nothing in the scene gives off light: neither an object
    /// nor a triangle of an object.
    pub open spec fn dark(self) -> bool {
        forall|i: int|
            0 <= i < self.objects@.len() ==> {
                &&& !(#[trigger] self.objects@[i]).emits_light()
                &&& forall|j: int|
                    0 <= j < self.objects@[i].triangles@.len() ==> !(
                    #[trigger] self.objects@[i].triangles@[j]).emits_light()
            }
    }

    /// In a scene where nothing gives off light, nothing that a ray meets
    /// does.
    pub proof fn lemma_dark_hit(self, ray: Ray)
        requires
            self.wf(),
            self.dark(),
        ensures
            !glows(self.hit(ray)),
    {
        let h = self.hit(ray);
        if self.bvh is Some && self.bvh->0.root is Some {
            let n = *self.bvh->0.root->0;
            n.lemma_hit_is_nearest(self.objects@, ray);
        }
        if h.happened {
            let n = *self.bvh->0.root->0;
            n.lemma_leaves_valid(boxes_of(self.objects@), areas_of(self.objects@));
            let i = choose|i: int|
                0 <= i < n.leaves().len() && h == self.objects@[(#[trigger] n.leaves()[i]) as int].hit_spec(
                    ray,
                );
            let mesh = self.objects@[n.leaves()[i] as int];
            assert(mesh.wf());
            let tree = mesh.bvh->0;
            let root = *tree.root->0;
            root.lemma_hit_is_nearest(mesh.triangles@, ray);
            root.lemma_leaves_valid(boxes_of(mesh.triangles@), areas_of(mesh.triangles@));
            let j = choose|j: int|
                0 <= j < root.leaves().len() && h == mesh.triangles@[(
                #[trigger] root.leaves()[j]) as int].hit_spec(ray);
            let t = mesh.triangles@[root.leaves()[j] as int];
            assert(!t.emits_light());
            assert(h.m == t.m);
        }
    }

    /// In a scene where nothing gives off light, no light is drawn.
    pub proof fn lemma_dark_light(self, s: SampleStream)
        requires
            self.dark(),
        ensures
            self.light_sample(s) == (Intersection::none(), 0i64, s.advanced()),
    {
        let p = fmul_spec(s.peek(), self.emit_area_sum());
        lemma_no_light(self.objects@, p, 0);
    }

    /// Energy sanity: in a scene where nothing gives off light, every ray
    /// brings back exactly nothing.
    pub proof fn lemma_dark_radiance(self, ray: Ray, depth: u32, s: SampleStream)
        requires
            self.wf(),
            self.dark(),
        ensures
            self.radiance(ray, depth, s).0 == (Vector3 { x: 0, y: 0, z: 0 }),
        decreases self.max_depth - depth,
    {
        let zero = Vector3 { x: 0, y: 0, z: 0 };
        let here = self.hit(ray);
        self.lemma_dark_hit(ray);
        if here.happened && here.m is Some {
            let m = here.m->0;
            let p = here.coords;
            let normal = here.normal.normalize_spec();
            let wo = ray.direction;
            self.lemma_dark_light(s);
            let (light, pdf_l, s1) = self.light_sample(s);
            assert(self.direct_spec(p, normal, wo, m, light, pdf_l) == zero);
            if !(depth >= self.max_depth || s1.peek() > self.russian_roulette) {
                let s2 = s1.advanced();
                let wi = m.sample_spec(normal, s2.peek(), s2.advanced().peek_turn()).normalize_spec();
                let s3 = s2.advanced().turned();
                let t_ray = Ray::made(offset_origin_spec(p, normal, wi, self.epsilon), wi, 0);
                self.lemma_dark_radiance(t_ray, (depth + 1) as u32, s3);
                lemma_indirect_of_nothing(m, wo, wi, normal, self.russian_roulette);
            }
        }
    }
}

/// Where no object gives off light, the scan picks none.
proof fn lemma_no_light(objects: Seq<MeshTriangle>, p: i64, from: int)
    requires
        forall|i: int| 0 <= i < objects.len() ==> !(#[trigger] objects[i]).emits_light(),
        0 <= from,
    ensures
        light_index(objects, p, from) is None,
    decreases objects.len() - from,
{
    if from < objects.len() {
        lemma_no_light(objects, p, from + 1);
    }
}

} // verus!
