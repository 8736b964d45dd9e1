//! Fixed-point scalars: an `i64` that stands for `raw / SCALE`.
//!
//! Every operation is total. A result that does not fit is cut off at the
//! ends of `i64`, and a division by zero gives zero.

use vstd::prelude::*;

verus! {

/// The number of raw units in one whole.
pub const SCALE: i64 = 65536;

/// The smallest positive value: the tolerance of the geometric tests.
pub const EPSILON: i64 = 1;

/// The circle constant, rounded to the nearest raw unit.
pub const PI: i64 = 205887;

/// The value of `v` cut off at the ends of `i64`.
pub open spec fn saturate(v: int) -> i64 {
    if v > i64::MAX {
        i64::MAX
    } else if v < i64::MIN {
        i64::MIN
    } else {
        v as i64
    }
}

/// The product of two fixed-point values, rounded down.
pub open spec fn fmul_spec(a: i64, b: i64) -> i64 {
    saturate((a * b) / (SCALE as int))
}

/// The quotient of two fixed-point values, rounded down; zero where `b` is zero.
pub open spec fn fdiv_spec(a: i64, b: i64) -> i64 {
    if b == 0 {
        0
    } else if b > 0 {
        saturate((a * SCALE) / (b as int))
    } else {
        saturate((-(a * SCALE)) / (-(b as int)))
    }
}

/// Whether `r` is the largest number with `r * r <= n`.
pub open spec fn is_sqrt(n: int, r: int) -> bool {
    0 <= r && r * r <= n < (r + 1) * (r + 1)
}

/// The integer square root of `n`, rounded down.
pub open spec fn isqrt_spec(n: int) -> int {
    choose|r: int| is_sqrt(n, r)
}

/// Cuts a wide integer off at the ends of `i64`.
pub fn sat(v: i128) -> (r: i64)
    ensures
        r == saturate(v as int),
{
    if v > i64::MAX as i128 {
        i64::MAX
    } else if v < i64::MIN as i128 {
        i64::MIN
    } else {
        v as i64
    }
}

/// `a + b`, cut off at the ends of `i64`.
pub fn sat_add(a: i64, b: i64) -> (r: i64)
    ensures
        r == saturate(a + b),
{
    sat(a as i128 + b as i128)
}

/// `a - b`, cut off at the ends of `i64`.
pub fn sat_sub(a: i64, b: i64) -> (r: i64)
    ensures
        r == saturate(a - b),
{
    sat(a as i128 - b as i128)
}

/// `-a`, cut off at the upper end of `i64`.
pub fn sat_neg(a: i64) -> (r: i64)
    ensures
        r == saturate(-a),
{
    sat(-(a as i128))
}

/// The quotient of `a` by a positive `b`, rounded down.
pub fn floor_div(a: i128, b: i128) -> (r: i128)
    requires
        b > 0,
    ensures
        r == a / b,
{
    let q: i128 = a / b;
    let m: i128 = a % b;
    proof {
        if a >= 0 {
            vstd::arithmetic::div_mod::lemma_fundamental_div_mod(a as int, b as int);
            vstd::arithmetic::div_mod::lemma_mod_bound(a as int, b as int);
        } else {
            let n = -(a as int);
            vstd::arithmetic::div_mod::lemma_fundamental_div_mod(n, b as int);
            vstd::arithmetic::div_mod::lemma_mod_bound(n, b as int);
            assert(q == -(n / (b as int)));
            assert(m == -(n % (b as int)));
            assert(b * (n / (b as int)) == (n / (b as int)) * b) by (nonlinear_arith);
            assert((-(n / (b as int))) * b == -((n / (b as int)) * b)) by (nonlinear_arith);
            assert((-(n / (b as int)) - 1) * b == -((n / (b as int)) * b) - b) by (nonlinear_arith);
        }
        let qq: int = if m < 0 { q - 1 } else { q as int };
        assert(0 <= a - qq * b < b) by {
            assert(b * (a as int / b as int) == (a as int / b as int) * b) by (nonlinear_arith);
        }
        lemma_floor_unique(a as int, b as int, qq);
        lemma_floor_lower(i128::MIN as int, b as int);
        vstd::arithmetic::div_mod::lemma_div_is_ordered(i128::MIN as int, a as int, b as int);
    }
    if m < 0 {
        q - 1
    } else {
        q
    }
}

/// For a negative `a` and a positive `b`, the floor quotient is no less than `a`.
pub proof fn lemma_floor_lower(a: int, b: int)
    requires
        b > 0,
        a <= 0,
    ensures
        a / b >= a,
{
    vstd::arithmetic::div_mod::lemma_fundamental_div_mod(a, b);
    vstd::arithmetic::div_mod::lemma_mod_bound(a, b);
    let q = a / b;
    assert(q >= a) by (nonlinear_arith)
        requires
            a == b * q + a % b,
            0 <= a % b < b,
            b > 0,
            a <= 0,
    ;
}

/// A quotient `q` whose remainder lies in `[0, b)` is the floor quotient.
pub proof fn lemma_floor_unique(a: int, b: int, q: int)
    requires
        b > 0,
        0 <= a - q * b < b,
    ensures
        q == a / b,
{
    vstd::arithmetic::div_mod::lemma_fundamental_div_mod_converse(a, b, q, a - q * b);
}

/// The product of two `i64` values fits in `i128`.
pub proof fn lemma_product_fits(a: i64, b: i64)
    ensures
        -0x4000_0000_0000_0000_0000_0000_0000_0000 <= a * b
            <= 0x4000_0000_0000_0000_0000_0000_0000_0000,
{
    assert(-0x4000_0000_0000_0000_0000_0000_0000_0000 <= a * b
        <= 0x4000_0000_0000_0000_0000_0000_0000_0000) by (nonlinear_arith)
        requires
            -0x8000_0000_0000_0000 <= a <= 0x8000_0000_0000_0000,
            -0x8000_0000_0000_0000 <= b <= 0x8000_0000_0000_0000,
    ;
}

/// The product of two fixed-point values.
pub fn fmul(a: i64, b: i64) -> (r: i64)
    ensures
        r == fmul_spec(a, b),
{
    proof {
        lemma_product_fits(a, b);
    }
    let p: i128 = a as i128 * b as i128;
    sat(floor_div(p, SCALE as i128))
}

/// The quotient of two fixed-point values; zero where `b` is zero.
pub fn fdiv(a: i64, b: i64) -> (r: i64)
    ensures
        r == fdiv_spec(a, b),
{
    if b == 0 {
        return 0;
    }
    let n: i128 = a as i128 * 65536;
    if b > 0 {
        sat(floor_div(n, b as i128))
    } else {
        sat(floor_div(-n, -(b as i128)))
    }
}

/// The integer square root of `n`, rounded down.
pub fn isqrt(n: u128) -> (r: u128)
    ensures
        is_sqrt(n as int, r as int),
        r == isqrt_spec(n as int),
        r < 0x1_0000_0000_0000_0000,
{
    let mut lo: u128 = 0;
    let mut hi: u128 = 0x1_0000_0000_0000_0000;
    assert(0x1_0000_0000_0000_0000 * 0x1_0000_0000_0000_0000 > u128::MAX) by (nonlinear_arith);
    while hi - lo > 1
        invariant
            lo < hi <= 0x1_0000_0000_0000_0000,
            lo * lo <= n < hi * hi,
        decreases hi - lo,
    {
        let mid: u128 = lo + (hi - lo) / 2;
        assert(mid * mid < 0x1_0000_0000_0000_0000 * 0x1_0000_0000_0000_0000) by (nonlinear_arith)
            requires
                0 <= mid < 0x1_0000_0000_0000_0000,
        ;
        if mid * mid <= n {
            lo = mid;
        } else {
            hi = mid;
        }
    }
    proof {
        lemma_sqrt_unique(n as int, lo as int, isqrt_spec(n as int));
    }
    lo
}

/// The square root of `n` is unique.
pub proof fn lemma_sqrt_unique(n: int, r1: int, r2: int)
    requires
        is_sqrt(n, r1),
        is_sqrt(n, r2),
    ensures
        r1 == r2,
{
    if r1 < r2 {
        assert((r1 + 1) * (r1 + 1) <= r2 * r2) by (nonlinear_arith)
            requires
                0 <= r1,
                r1 + 1 <= r2,
        ;
    } else if r2 < r1 {
        assert((r2 + 1) * (r2 + 1) <= r1 * r1) by (nonlinear_arith)
            requires
                0 <= r2,
                r2 + 1 <= r1,
        ;
    }
}

/// Every number that is not negative has a square root, and it is not negative.
pub proof fn lemma_sqrt_exists(n: int)
    requires
        n >= 0,
    ensures
        is_sqrt(n, isqrt_spec(n)),
        isqrt_spec(n) >= 0,
    decreases n,
{
    if n == 0 {
        assert(is_sqrt(0, 0));
    } else {
        lemma_sqrt_exists(n - 1);
        let r = isqrt_spec(n - 1);
        if (r + 1) * (r + 1) <= n {
            assert((r + 2) * (r + 2) > (r + 1) * (r + 1)) by (nonlinear_arith)
                requires
                    r >= 0,
            ;
            assert(is_sqrt(n, r + 1));
        } else {
            assert(is_sqrt(n, r));
        }
    }
}

/// The product `a * b` as `q * SCALE + r` with `0 <= r < SCALE`.
pub(crate) fn mul_split(a: i64, b: i64) -> (qr: (i128, i128))
    ensures
        a * b == qr.0 * SCALE + qr.1,
        0 <= qr.1 < SCALE,
        qr.0 == (a * b) / (SCALE as int),
        -0x4000_0000_0000_0000_0000_0000_0000 <= qr.0 <= 0x4000_0000_0000_0000_0000_0000_0000,
{
    proof {
        lemma_product_fits(a, b);
    }
    let p: i128 = a as i128 * b as i128;
    let q: i128 = floor_div(p, 65536);
    proof {
        vstd::arithmetic::div_mod::lemma_fundamental_div_mod(p as int, 65536);
        vstd::arithmetic::div_mod::lemma_mod_bound(p as int, 65536);
    }
    (q, p - q * 65536)
}

/// The value `(q * SCALE + r) / SCALE`, cut off at the ends of `i64`.
pub(crate) fn join(q: i128, r: i128) -> (v: i64)
    requires
        -0x1_0000_0000_0000_0000_0000_0000_0000_0000 < q * 4
            < 0x1_0000_0000_0000_0000_0000_0000_0000_0000,
        -0x1_0000_0000 < r < 0x1_0000_0000,
    ensures
        v == saturate((q * SCALE + r) / (SCALE as int)),
{
    let c: i128 = floor_div(r, 65536);
    proof {
        vstd::arithmetic::div_mod::lemma_fundamental_div_mod(r as int, 65536);
        vstd::arithmetic::div_mod::lemma_mod_bound(r as int, 65536);
        let m = r as int % 65536;
        assert(q * 65536 + r - (q + c) * 65536 == m);
        lemma_floor_unique(q * 65536 + r, 65536, q + c);
    }
    sat(q + c)
}

} // verus!
