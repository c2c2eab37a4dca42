//! Three-dimensional integer vectors and the exact arithmetic the engine
//! rests on: squared Euclidean distance, floor square and cube roots, and
//! division that truncates toward zero.

use vstd::prelude::*;
use vstd::arithmetic::div_mod::lemma_fundamental_div_mod;
use vstd::arithmetic::mul::lemma_mul_inequality;

use crate::consts::MAX_COORD;

verus! {

/// One point or velocity in three-dimensional space, one `i64` per axis.
#[derive(Clone, Copy, PartialEq, Eq, Structural, Debug)]
pub struct Vec3 {
    pub x: i64,
    pub y: i64,
    pub z: i64,
}

/// The square of an integer.
pub open spec fn sq(x: int) -> int {
    x * x
}

/// The cube of an integer.
pub open spec fn cube(x: int) -> int {
    x * x * x
}

/// Magnitude of an integer.
pub open spec fn abs_val(x: int) -> int {
    if x >= 0 {
        x
    } else {
        -x
    }
}

/// Division truncating toward zero, for a positive divisor; this is the
/// division the executable code performs on signed quantities.
pub open spec fn tdiv(num: int, den: int) -> int
    recommends
        den > 0,
{
    if num >= 0 {
        num / den
    } else {
        -((-num) / den)
    }
}

/// Exact squared Euclidean distance between two points.
pub open spec fn spec_dist_sq(a: Vec3, b: Vec3) -> int {
    sq(b.x - a.x) + sq(b.y - a.y) + sq(b.z - a.z)
}

/// `r` is the floor of the square root of `n`.
pub open spec fn is_sqrt_floor(n: int, r: int) -> bool {
    0 <= r && sq(r) <= n && n < sq(r + 1)
}

/// The floor of the square root of a nonnegative integer.
pub open spec fn sqrt_floor(n: int) -> int {
    choose|r: int| is_sqrt_floor(n, r)
}

/// `r` is the floor of the cube root of `n`.
pub open spec fn is_cbrt_floor(n: int, r: int) -> bool {
    0 <= r && cube(r) <= n && n < cube(r + 1)
}

/// The floor of the cube root of a nonnegative integer.
pub open spec fn cbrt_floor(n: int) -> int {
    choose|r: int| is_cbrt_floor(n, r)
}

/// A quotient of nonnegative integers is below `q` as soon as the numerator
/// is below `q` times the denominator.
pub proof fn lemma_div_lt(num: int, den: int, q: int)
    requires
        0 <= num,
        0 < den,
        num < q * den,
    ensures
        num / den < q,
{
    lemma_fundamental_div_mod(num, den);
    if num / den >= q {
        lemma_mul_inequality(q, num / den, den);
        assert(q * den <= (num / den) * den);
        assert(den * (num / den) == (num / den) * den) by (nonlinear_arith);
    }
}

/// Truncating division keeps a quotient within `b` whenever the numerator
/// is within `b` times the denominator.
pub proof fn lemma_tdiv_bound(num: int, den: int, b: int)
    requires
        den > 0,
        0 <= b,
        abs_val(num) <= b * den,
    ensures
        abs_val(tdiv(num, den)) <= b,
{
    vstd::arithmetic::mul::lemma_mul_strict_inequality(b, b + 1, den);
    if num >= 0 {
        vstd::arithmetic::div_mod::lemma_div_pos_is_pos(num, den);
        lemma_div_lt(num, den, b + 1);
    } else {
        vstd::arithmetic::div_mod::lemma_div_pos_is_pos(-num, den);
        lemma_div_lt(-num, den, b + 1);
    }
}

/// The floor square root is the only integer satisfying `is_sqrt_floor`.
pub proof fn lemma_sqrt_floor_is(n: int, r: int)
    requires
        is_sqrt_floor(n, r),
    ensures
        sqrt_floor(n) == r,
{
    assert(exists|x: int| is_sqrt_floor(n, x));
    let c = sqrt_floor(n);
    assert(is_sqrt_floor(n, c));
    if c < r {
        assert(sq(c + 1) <= sq(r)) by (nonlinear_arith)
            requires
                0 <= c,
                c + 1 <= r,
        ;
    }
    if r < c {
        assert(sq(r + 1) <= sq(c)) by (nonlinear_arith)
            requires
                0 <= r,
                r + 1 <= c,
        ;
    }
}

/// The floor cube root is the only integer satisfying `is_cbrt_floor`.
pub proof fn lemma_cbrt_floor_is(n: int, r: int)
    requires
        is_cbrt_floor(n, r),
    ensures
        cbrt_floor(n) == r,
{
    assert(exists|x: int| is_cbrt_floor(n, x));
    let c = cbrt_floor(n);
    assert(is_cbrt_floor(n, c));
    if c < r {
        assert(cube(c + 1) <= cube(r)) by (nonlinear_arith)
            requires
                0 <= c,
                c + 1 <= r,
        ;
    }
    if r < c {
        assert(cube(r + 1) <= cube(c)) by (nonlinear_arith)
            requires
                0 <= r,
                r + 1 <= c,
        ;
    }
}

/// Exact squared distance between two points whose coordinates are within
/// the admissible range.
pub fn dist_sq(a: &Vec3, b: &Vec3) -> (d2: u128)
    requires
        abs_val(a.x as int) <= MAX_COORD,
        abs_val(a.y as int) <= MAX_COORD,
        abs_val(a.z as int) <= MAX_COORD,
        abs_val(b.x as int) <= MAX_COORD,
        abs_val(b.y as int) <= MAX_COORD,
        abs_val(b.z as int) <= MAX_COORD,
    ensures
        d2 == spec_dist_sq(*a, *b),
{
    let dx: i128 = (b.x as i128) - (a.x as i128);
    let dy: i128 = (b.y as i128) - (a.y as i128);
    let dz: i128 = (b.z as i128) - (a.z as i128);
    let ax: u128 = if dx >= 0 {
        dx as u128
    } else {
        (-dx) as u128
    };
    let ay: u128 = if dy >= 0 {
        dy as u128
    } else {
        (-dy) as u128
    };
    let az: u128 = if dz >= 0 {
        dz as u128
    } else {
        (-dz) as u128
    };
    assert(ax * ax == sq(b.x - a.x) && ax * ax <= sq(2 * MAX_COORD)) by (nonlinear_arith)
        requires
            ax == abs_val(b.x - a.x),
            abs_val(a.x as int) <= MAX_COORD,
            abs_val(b.x as int) <= MAX_COORD,
    ;
    assert(ay * ay == sq(b.y - a.y) && ay * ay <= sq(2 * MAX_COORD)) by (nonlinear_arith)
        requires
            ay == abs_val(b.y - a.y),
            abs_val(a.y as int) <= MAX_COORD,
            abs_val(b.y as int) <= MAX_COORD,
    ;
    assert(az * az == sq(b.z - a.z) && az * az <= sq(2 * MAX_COORD)) by (nonlinear_arith)
        requires
            az == abs_val(b.z - a.z),
            abs_val(a.z as int) <= MAX_COORD,
            abs_val(b.z as int) <= MAX_COORD,
    ;
    ax * ax + ay * ay + az * az
}

/// Floor square root of an arbitrary `u128`.
pub fn isqrt(n: u128) -> (r: u64)
    ensures
        is_sqrt_floor(n as int, r as int),
{
    let mut lo: u128 = 0;
    let mut hi: u128 = 0xFFFF_FFFF_FFFF_FFFF;
    assert(n < sq(hi + 1));
    while lo < hi
        invariant
            lo <= hi,
            hi <= 0xFFFF_FFFF_FFFF_FFFF,
            sq(lo as int) <= n,
            n < sq(hi + 1),
        decreases hi - lo,
    {
        let mid: u128 = lo + (hi - lo + 1) / 2;
        assert(lo < mid && mid <= hi);
        assert(mid * mid <= 0xFFFF_FFFF_FFFF_FFFF * 0xFFFF_FFFF_FFFF_FFFFu128) by (nonlinear_arith)
            requires
                mid <= 0xFFFF_FFFF_FFFF_FFFFu128,
        ;
        if mid * mid <= n {
            lo = mid;
        } else {
            hi = mid - 1;
        }
    }
    lo as u64
}

/// Floor cube root of a `u128` no greater than `3 * 10^36`.
pub fn icbrt(n: u128) -> (r: u64)
    requires
        n <= 3_000_000_000_000_000_000_000_000_000_000_000_000u128,
    ensures
        is_cbrt_floor(n as int, r as int),
{
    let mut lo: u128 = 0;
    let mut hi: u128 = 1_500_000_000_000;
    assert(n < cube(hi + 1)) by (nonlinear_arith)
        requires
            n <= 3_000_000_000_000_000_000_000_000_000_000_000_000u128,
            hi == 1_500_000_000_000u128,
    ;
    while lo < hi
        invariant
            lo <= hi,
            hi <= 1_500_000_000_000,
            cube(lo as int) <= n,
            n < cube(hi + 1),
        decreases hi - lo,
    {
        let mid: u128 = lo + (hi - lo + 1) / 2;
        assert(lo < mid && mid <= hi);
        assert(mid * mid <= 1_500_000_000_000u128 * 1_500_000_000_000) by (nonlinear_arith)
            requires
                mid <= 1_500_000_000_000u128,
        ;
        let m2: u128 = mid * mid;
        assert(m2 * mid <= 1_500_000_000_000u128 * 1_500_000_000_000 * 1_500_000_000_000
            && m2 * mid == cube(mid as int)) by (nonlinear_arith)
            requires
                mid <= 1_500_000_000_000u128,
                m2 == mid * mid,
        ;
        if m2 * mid <= n {
            lo = mid;
        } else {
            hi = mid - 1;
        }
    }
    lo as u64
}

/// Euclidean distance between two points, rounded down to whole meters.
pub fn measure_distance(a: &Vec3, b: &Vec3) -> (d: u64)
    requires
        abs_val(a.x as int) <= MAX_COORD,
        abs_val(a.y as int) <= MAX_COORD,
        abs_val(a.z as int) <= MAX_COORD,
        abs_val(b.x as int) <= MAX_COORD,
        abs_val(b.y as int) <= MAX_COORD,
        abs_val(b.z as int) <= MAX_COORD,
    ensures
        d == sqrt_floor(spec_dist_sq(*a, *b)),
{
    let d2: u128 = dist_sq(a, b);
    let r: u64 = isqrt(d2);
    proof {
        lemma_sqrt_floor_is(d2 as int, r as int);
    }
    r
}

/// Division of an `i128` by a positive divisor, truncating toward zero.
pub fn div_trunc(num: i128, den: i128) -> (q: i128)
    requires
        den > 0,
        num > i128::MIN,
    ensures
        q == tdiv(num as int, den as int),
{
    if num >= 0 {
        let q: u128 = (num as u128) / (den as u128);
        assert(q <= num as u128) by (nonlinear_arith)
            requires
                q == (num as u128) / (den as u128),
                den as u128 >= 1,
        ;
        q as i128
    } else {
        let q: u128 = ((-num) as u128) / (den as u128);
        assert(q <= (-num) as u128) by (nonlinear_arith)
            requires
                q == ((-num) as u128) / (den as u128),
                den as u128 >= 1,
        ;
        -(q as i128)
    }
}

} // verus!
