//! Exact products of vectors in wide integers, for the tests whose answer
//! must not depend on rounding.

use vstd::prelude::*;
use crate::vector::Vector3;

verus! {

/// The bound on the vectors that the exact products take: twice the range
/// of a coordinate.
pub(crate) const WIDE_IN: i64 = 8589934592;

/// A vector of wide integers.
#[derive(Clone, Copy, Debug)]
pub(crate) struct Wide {
    pub x: i128,
    pub y: i128,
    pub z: i128,
}

/// The exact vector product, in raw units squared.
pub open spec fn cross_raw(a: Vector3, b: Vector3) -> (int, int, int) {
    (a.y * b.z - a.z * b.y, a.z * b.x - a.x * b.z, a.x * b.y - a.y * b.x)
}

/// The exact scalar product of a vector with a triple of integers.
pub open spec fn dot_triple(a: Vector3, w: (int, int, int)) -> int {
    a.x * w.0 + a.y * w.1 + a.z * w.2
}

impl Wide {
    pub(crate) open spec fn view(self) -> (int, int, int) {
        (self.x as int, self.y as int, self.z as int)
    }

    pub(crate) open spec fn within(self, limit: int) -> bool {
        &&& -limit <= self.x <= limit
        &&& -limit <= self.y <= limit
        &&& -limit <= self.z <= limit
    }
}

/// The magnitude of a product is at most the product of the bounds.
pub(crate) proof fn lemma_mul_bound(a: int, b: int, la: int, lb: int)
    requires
        -la <= a <= la,
        -lb <= b <= lb,
    ensures
        -(la * lb) <= a * b <= la * lb,
{
    assert(-(la * lb) <= a * b <= la * lb) by (nonlinear_arith)
        requires
            -la <= a <= la,
            -lb <= b <= lb,
    ;
}

/// The exact vector product of two vectors within `WIDE_IN`.
pub(crate) fn cross_exact(a: &Vector3, b: &Vector3) -> (w: Wide)
    requires
        a.within(WIDE_IN),
        b.within(WIDE_IN),
    ensures
        w@ == cross_raw(*a, *b),
        w.within(0x8_0000_0000_0000_0000),
{
    proof {
        let l = WIDE_IN as int;
        assert(l * l == 0x4_0000_0000_0000_0000) by (nonlinear_arith)
            requires
                l == 8589934592,
        ;
        lemma_mul_bound(a.y as int, b.z as int, l, l);
        lemma_mul_bound(a.z as int, b.y as int, l, l);
        lemma_mul_bound(a.z as int, b.x as int, l, l);
        lemma_mul_bound(a.x as int, b.z as int, l, l);
        lemma_mul_bound(a.x as int, b.y as int, l, l);
        lemma_mul_bound(a.y as int, b.x as int, l, l);
    }
    Wide {
        x: a.y as i128 * b.z as i128 - a.z as i128 * b.y as i128,
        y: a.z as i128 * b.x as i128 - a.x as i128 * b.z as i128,
        z: a.x as i128 * b.y as i128 - a.y as i128 * b.x as i128,
    }
}

/// The exact scalar product of a vector within `WIDE_IN` and a wide vector.
pub(crate) fn dot_exact(a: &Vector3, w: &Wide) -> (d: i128)
    requires
        a.within(WIDE_IN),
        w.within(0x8_0000_0000_0000_0000),
    ensures
        d == dot_triple(*a, w@),
        -0x30_0000_0000_0000_0000_0000_0000 <= d <= 0x30_0000_0000_0000_0000_0000_0000,
{
    proof {
        let l = WIDE_IN as int;
        let k = 0x8_0000_0000_0000_0000int;
        assert(l * k == 0x10_0000_0000_0000_0000_0000_0000) by (nonlinear_arith)
            requires
                l == 8589934592,
                k == 0x8_0000_0000_0000_0000,
        ;
        lemma_mul_bound(a.x as int, w.x as int, l, k);
        lemma_mul_bound(a.y as int, w.y as int, l, k);
        lemma_mul_bound(a.z as int, w.z as int, l, k);
    }
    a.x as i128 * w.x + a.y as i128 * w.y + a.z as i128 * w.z
}

/// `(a * c) * t == (t * a) * c`.
proof fn lemma_regroup(a: int, c: int, t: int)
    ensures
        (a * c) * t == (t * a) * c,
{
    assert((a * c) * t == (t * a) * c) by (nonlinear_arith);
}

/// `(a1 c1 + a2 c2 + a3 c3) t == (t a1) c1 + (t a2) c2 + (t a3) c3`.
proof fn lemma_spread(a1: int, a2: int, a3: int, c1: int, c2: int, c3: int, t: int)
    ensures
        (a1 * c1 + a2 * c2 + a3 * c3) * t == (t * a1) * c1 + (t * a2) * c2 + (t * a3) * c3,
{
    lemma_regroup(a1, c1, t);
    lemma_regroup(a2, c2, t);
    lemma_regroup(a3, c3, t);
    assert((a1 * c1 + a2 * c2 + a3 * c3) * t == (a1 * c1) * t + (a2 * c2) * t + (a3 * c3) * t)
        by (nonlinear_arith);
}

/// The identity of `lemma_cramer` for products already taken in pairs:
/// `p` holds the products of a component of `d` with one of `b`, `q` those of
/// a component of `t` with one of `a`, first index first.
proof fn lemma_bilinear(
    pxx: int, pxy: int, pxz: int, pyx: int, pyz: int, pzx: int, pzy: int,
    qxx: int, qxy: int, qxz: int, qyx: int, qyz: int, qzx: int, qzy: int,
)
    ensures
        qxx * (pyz - pzy) + qxy * (pzx - pxz) + qxz * (pxy - pyx)
            + (pxx * (qyz - qzy) + pxy * (qzx - qxz) + pxz * (qxy - qyx))
            == qxx * (pyz - pzy) + qyx * (pzx - pxz) + qzx * (pxy - pyx)
            + (pxx * (qyz - qzy) + pyx * (qzx - qxz) + pzx * (qxy - qyx)),
{
    assert(qxy * (pzx - pxz) == qxy * pzx - qxy * pxz) by (nonlinear_arith);
    assert(qxz * (pxy - pyx) == qxz * pxy - qxz * pyx) by (nonlinear_arith);
    assert(pxy * (qzx - qxz) == qzx * pxy - qxz * pxy) by (nonlinear_arith);
    assert(pxz * (qxy - qyx) == qxy * pxz - qyx * pxz) by (nonlinear_arith);
    assert(qyx * (pzx - pxz) == qyx * pzx - qyx * pxz) by (nonlinear_arith);
    assert(qzx * (pxy - pyx) == qzx * pxy - qzx * pyx) by (nonlinear_arith);
    assert(pyx * (qzx - qxz) == qzx * pyx - qxz * pyx) by (nonlinear_arith);
    assert(pzx * (qxy - qyx) == qxy * pzx - qyx * pzx) by (nonlinear_arith);
}

/// Cramer's rule on the first axis for the system `t == u a + v b - s d` in
/// the unknowns `u`, `v` and `s`: with the determinant of the system and the
/// three numerators, `det t.x + s d.x == u a.x + v b.x`.
pub proof fn lemma_cramer(
    tx: int, ty: int, tz: int,
    dx: int, dy: int, dz: int,
    ax: int, ay: int, az: int,
    bx: int, by: int, bz: int,
)
    ensures
        ({
            let (cx, cy, cz) = (dy * bz - dz * by, dz * bx - dx * bz, dx * by - dy * bx);
            let (qx, qy, qz) = (ty * az - tz * ay, tz * ax - tx * az, tx * ay - ty * ax);
            (ax * cx + ay * cy + az * cz) * tx + (bx * qx + by * qy + bz * qz) * dx
                == (tx * cx + ty * cy + tz * cz) * ax + (dx * qx + dy * qy + dz * qz) * bx
        }),
{
    let (cx, cy, cz) = (dy * bz - dz * by, dz * bx - dx * bz, dx * by - dy * bx);
    let (qx, qy, qz) = (ty * az - tz * ay, tz * ax - tx * az, tx * ay - ty * ax);
    lemma_spread(ax, ay, az, cx, cy, cz, tx);
    lemma_spread(bx, by, bz, qx, qy, qz, dx);
    lemma_spread(tx, ty, tz, cx, cy, cz, ax);
    lemma_spread(dx, dy, dz, qx, qy, qz, bx);
    assert(ax * tx == tx * ax && ax * ty == ty * ax && ax * tz == tz * ax) by (nonlinear_arith);
    assert(bx * dx == dx * bx && bx * dy == dy * bx && bx * dz == dz * bx) by (nonlinear_arith);
    lemma_bilinear(
        dx * bx, dx * by, dx * bz, dy * bx, dy * bz, dz * bx, dz * by,
        tx * ax, tx * ay, tx * az, ty * ax, ty * az, tz * ax, tz * ay,
    );
}

} // verus!
