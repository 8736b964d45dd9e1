//! Surface materials: what a surface emits and how it scatters light.

use vstd::prelude::*;
use crate::bounds3::HALF;
use crate::fixed::{fdiv, fdiv_spec, fmul, fmul_spec, isqrt, isqrt_spec, sat_neg, sat_sub, saturate,
    EPSILON, PI, SCALE};
use crate::global::MaterialType;
use crate::vector::{cross, dot, norm, Vector3};

verus! {

#[derive(Clone, Copy, Debug, PartialEq, Eq, Structural)]
pub struct Material {
    pub material_type: MaterialType,
    pub m_color: Vector3,
    pub m_emission: Vector3,
    pub ior: i64,
    pub kd: Vector3,
    pub ks: Vector3,
    pub diffuse_color: Vector3,
    pub specular_exponent: i64,
}

/// The magnitude of `v`, cut off at the upper end of `i64`.
pub open spec fn abs_spec(v: i64) -> i64 {
    if v < 0 {
        saturate(-v)
    } else {
        v
    }
}

/// The magnitude of `v`.
pub fn abs_i64(v: i64) -> (r: i64)
    ensures
        r == abs_spec(v),
        r >= 0,
{
    if v < 0 {
        sat_neg(v)
    } else {
        v
    }
}

/// The square root of a fixed-point value; zero for a negative one.
pub open spec fn fsqrt_spec(v: i64) -> i64 {
    if v <= 0 {
        0
    } else {
        isqrt_spec(v * SCALE) as i64
    }
}

/// The square root of a fixed-point value; zero for a negative one.
pub fn fsqrt(v: i64) -> (r: i64)
    ensures
        r == fsqrt_spec(v),
        r >= 0,
{
    if v <= 0 {
        return 0;
    }
    let n: u128 = (v as u128) * 65536;
    let root = isqrt(n);
    proof {
        assert(root < 0x8000_0000_0000_0000) by (nonlinear_arith)
            requires
                root * root <= n,
                n < 0x8000_0000_0000_0000 * 65536,
                root >= 0,
        ;
    }
    root as i64
}

impl Material {
    /// A tangent of the surface: the normal turned a quarter about the axis
    /// on which it is smaller, brought to unit length.
    pub open spec fn tangent_spec(normal: Vector3) -> Vector3 {
        if abs_spec(normal.x) > abs_spec(normal.y) {
            let len = (Vector3 { x: normal.x, y: 0, z: normal.z }).norm_spec();
            Vector3 { x: fdiv_spec(normal.z, len), y: 0, z: fdiv_spec(saturate(-normal.x), len) }
        } else {
            let len = (Vector3 { x: 0, y: normal.y, z: normal.z }).norm_spec();
            Vector3 { x: 0, y: fdiv_spec(normal.z, len), z: fdiv_spec(saturate(-normal.y), len) }
        }
    }

    /// The direction `a`, given about the axis +z, carried over to the frame
    /// whose third axis is `normal`.
    pub open spec fn go_world_spec(a: Vector3, normal: Vector3) -> Vector3 {
        let c = Self::tangent_spec(normal);
        let b = c.cross_spec(normal);
        b.scaled_spec(a.x).plus_spec(c.scaled_spec(a.y)).plus_spec(normal.scaled_spec(a.z))
    }

    /// The direction about +z that the sampler draws from a uniform value
    /// `x1` and a point `turn` of the unit circle: height `|1 - 2 x1|`.
    pub open spec fn local_direction(x1: i64, turn: (i64, i64)) -> Vector3 {
        let z = abs_spec(saturate(SCALE - saturate(2 * x1)));
        let r = fsqrt_spec(saturate(SCALE - fmul_spec(z, z)));
        Vector3 { x: fmul_spec(r, turn.0), y: fmul_spec(r, turn.1), z }
    }

    pub open spec fn sample_spec(self, normal: Vector3, x1: i64, turn: (i64, i64)) -> Vector3 {
        Self::go_world_spec(Self::local_direction(x1, turn), normal)
    }

    /// Whether the material gives off light.
    pub open spec fn emits(self) -> bool {
        self.m_emission.norm_spec() > EPSILON
    }

    /// The reflectance towards `wo`: `kd / PI` on the side of the normal,
    /// nothing below the surface.
    pub open spec fn eval_spec(self, wo: Vector3, normal: Vector3) -> Vector3 {
        if normal.dot_spec(wo) > 0 {
            self.kd.divided_spec(PI)
        } else {
            Vector3 { x: 0, y: 0, z: 0 }
        }
    }

    /// The density with which `wo` is drawn: `1 / (2 PI)` on the side of the
    /// normal, zero below the surface.
    pub open spec fn pdf_spec(self, wo: Vector3, normal: Vector3) -> i64 {
        if wo.dot_spec(normal) > 0 {
            fdiv_spec(HALF, PI)
        } else {
            0
        }
    }

    /// A material of kind `material_type` with colour `c` and emission `e`.
    pub fn new(material_type: MaterialType, c: Vector3, e: Vector3) -> (m: Material)
        ensures
            m == (Material {
                material_type,
                m_color: c,
                m_emission: e,
                ior: 85197,
                kd: Vector3 { x: 0, y: 0, z: 0 },
                ks: Vector3 { x: 0, y: 0, z: 0 },
                diffuse_color: Vector3 { x: 13107, y: 13107, z: 13107 },
                specular_exponent: 1638400,
            }),
    {
        Material {
            material_type,
            m_color: c,
            m_emission: e,
            ior: 85197,
            kd: Vector3::zeros(),
            ks: Vector3::zeros(),
            diffuse_color: Vector3::same(13107),
            specular_exponent: 1638400,
        }
    }

    pub fn has_emission(&self) -> (b: bool)
        ensures
            b == self.emits(),
    {
        norm(&self.m_emission) > EPSILON
    }

    pub fn get_emission(&self) -> (e: &Vector3)
        ensures
            *e == self.m_emission,
    {
        &self.m_emission
    }

    /// An outgoing direction about `normal`, from a uniform value `x1` in
    /// `[0, 1)` and a point `turn` of the unit circle.
    pub fn sample(&self, _wi: &Vector3, normal: &Vector3, x1: i64, turn: (i64, i64)) -> (d: Vector3)
        ensures
            d == self.sample_spec(*normal, x1, turn),
    {
        match self.material_type {
            MaterialType::Diffuse => {
                let z = abs_i64(sat_sub(SCALE, crate::fixed::sat(2 * (x1 as i128))));
                let r = fsqrt(sat_sub(SCALE, fmul(z, z)));
                let local_ray = Vector3::new(fmul(r, turn.0), fmul(r, turn.1), z);
                Self::go_world(&local_ray, normal)
            },
        }
    }

    pub fn eval(&self, _wi: &Vector3, wo: &Vector3, normal: &Vector3) -> (f: Vector3)
        ensures
            f == self.eval_spec(*wo, *normal),
    {
        match self.material_type {
            MaterialType::Diffuse => {
                let cos_alpha = dot(normal, wo);
                if cos_alpha > 0 {
                    self.kd.divided(PI)
                } else {
                    Vector3::zeros()
                }
            },
        }
    }

    pub fn pdf(&self, _wi: &Vector3, wo: &Vector3, normal: &Vector3) -> (p: i64)
        ensures
            p == self.pdf_spec(*wo, *normal),
    {
        match self.material_type {
            MaterialType::Diffuse => {
                if dot(wo, normal) > 0 {
                    fdiv(HALF, PI)
                } else {
                    0
                }
            },
        }
    }

    /// Carries the direction `a`, given about +z, over to the frame whose
    /// third axis is `normal`.
    pub fn go_world(a: &Vector3, normal: &Vector3) -> (w: Vector3)
        ensures
            w == Self::go_world_spec(*a, *normal),
    {
        let (x, y, z) = (normal.x, normal.y, normal.z);
        let c = if abs_i64(normal.x) > abs_i64(normal.y) {
            let len = norm(&Vector3::new(x, 0, z));
            Vector3::new(fdiv(z, len), 0, fdiv(sat_neg(x), len))
        } else {
            let len = norm(&Vector3::new(0, y, z));
            Vector3::new(0, fdiv(z, len), fdiv(sat_neg(y), len))
        };
        let b = cross(&c, normal);
        b.scaled(a.x).plus(&c.scaled(a.y)).plus(&normal.scaled(a.z))
    }
}

} // verus!
