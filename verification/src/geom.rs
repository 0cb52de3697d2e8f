//! Exact integer geometry: world positions, squared distances, floor and
//! rounding division, and an integer square root for Euclidean lengths.
//!
//! World coordinates are plain `i64` values. Every operation here has an
//! exact arithmetic contract; lengths are floor square roots of exact
//! squared distances.

use vstd::prelude::*;

verus! {

/// Largest world coordinate magnitude the geometry accepts. Keeping
/// coordinates within this bound lets every intermediate product of the
/// ray traversal fit comfortably in `i128`.
pub const MAX_COORD: i64 = 1_000_000_000;

/// A 2D world position or direction with integer coordinates.
#[derive(Clone, Copy, Debug, Hash, PartialEq, Eq, Structural)]
pub struct Vec2i {
    pub x: i64,
    pub y: i64,
}

impl Vec2i {
    pub fn new(x: i64, y: i64) -> (r: Vec2i)
        ensures
            r == (Vec2i { x, y }),
    {
        Vec2i { x, y }
    }

    /// True when both coordinates are within the supported world range.
    pub open spec fn in_range(self) -> bool {
        -MAX_COORD <= self.x <= MAX_COORD && -MAX_COORD <= self.y <= MAX_COORD
    }

    pub fn bounded(self) -> (r: bool)
        ensures
            r == self.in_range(),
    {
        -MAX_COORD <= self.x && self.x <= MAX_COORD && -MAX_COORD <= self.y && self.y
            <= MAX_COORD
    }
}

/// An axis-aligned rectangle in world space: corner position and size.
#[derive(Clone, Copy, Debug, PartialEq, Eq, Structural)]
pub struct Quad {
    pub pos: Vec2i,
    pub siz: Vec2i,
}

/// Squared Euclidean distance between two positions, as a mathematical
/// integer.
pub open spec fn dist2_spec(a: Vec2i, b: Vec2i) -> int {
    (a.x - b.x) * (a.x - b.x) + (a.y - b.y) * (a.y - b.y)
}

/// Squared Euclidean distance. Exact.
pub fn dist2(a: Vec2i, b: Vec2i) -> (r: u64)
    requires
        a.in_range(),
        b.in_range(),
    ensures
        r == dist2_spec(a, b),
        r <= 8_000_000_000_000_000_000,
{
    let dx: i64 = a.x - b.x;
    let dy: i64 = a.y - b.y;
    proof {
        assert(dx * dx <= 4_000_000_000_000_000_000 && dx * dx >= 0) by (nonlinear_arith)
            requires
                -2_000_000_000 <= dx <= 2_000_000_000,
        ;
        assert(dy * dy <= 4_000_000_000_000_000_000 && dy * dy >= 0) by (nonlinear_arith)
            requires
                -2_000_000_000 <= dy <= 2_000_000_000,
        ;
    }
    (dx * dx) as u64 + (dy * dy) as u64
}

/// Floor of the square root, as a mathematical function.
pub closed spec fn sqrt_floor(n: int) -> int
    decreases n,
{
    if n <= 0 {
        0
    } else {
        let p = sqrt_floor(n - 1);
        if (p + 1) * (p + 1) <= n {
            p + 1
        } else {
            p
        }
    }
}

/// `sqrt_floor(n)` is the unique non-negative `s` with
/// `s*s <= n < (s+1)*(s+1)`.
pub proof fn lemma_sqrt_floor_bounds(n: int)
    requires
        n >= 0,
    ensures
        sqrt_floor(n) >= 0,
        sqrt_floor(n) * sqrt_floor(n) <= n,
        n < (sqrt_floor(n) + 1) * (sqrt_floor(n) + 1),
    decreases n,
{
    if n == 0 {
    } else {
        lemma_sqrt_floor_bounds(n - 1);
        let p = sqrt_floor(n - 1);
        if (p + 1) * (p + 1) <= n {
            assert(n < (p + 2) * (p + 2)) by (nonlinear_arith)
                requires
                    n - 1 < (p + 1) * (p + 1) && p >= 0,
            ;
        }
    }
}

/// Any `r` within the square-root bounds is `sqrt_floor(n)`.
pub proof fn lemma_sqrt_floor_unique(n: int, r: int)
    requires
        n >= 0,
        r >= 0,
        r * r <= n,
        n < (r + 1) * (r + 1),
    ensures
        r == sqrt_floor(n),
{
    lemma_sqrt_floor_bounds(n);
    let s = sqrt_floor(n);
    assert(r == s) by (nonlinear_arith)
        requires
            r >= 0 && s >= 0 && r * r <= n && n < (r + 1) * (r + 1) && s * s <= n && n < (s + 1) * (
            s + 1),
    ;
}

/// Floor of the square root: the unique `r` with `r*r <= n < (r+1)*(r+1)`.
pub fn isqrt(n: u64) -> (r: u64)
    ensures
        r * r <= n,
        n < (r + 1) * (r + 1),
        r == sqrt_floor(n as int),
{
    let mut lo: u64 = 0;
    let mut hi: u64 = 4_294_967_296;
    proof {
        assert(n < hi * hi) by (nonlinear_arith)
            requires
                hi == 4_294_967_296u64 && n <= 0xffff_ffff_ffff_ffffu64,
        ;
    }
    while lo + 1 < hi
        invariant
            lo < hi <= 4_294_967_296,
            lo * lo <= n,
            n < hi * hi,
        decreases hi - lo,
    {
        let mid: u64 = lo + (hi - lo) / 2;
        proof {
            assert(mid * mid < 0xffff_ffff_ffff_ffffu64) by (nonlinear_arith)
                requires
                    mid <= 4_294_967_295u64,
            ;
        }
        if mid * mid <= n {
            lo = mid;
        } else {
            hi = mid;
        }
    }
    proof {
        assert((lo + 1) * (lo + 1) >= hi * hi) by (nonlinear_arith)
            requires
                lo + 1 >= hi && hi >= 0,
        ;
        lemma_sqrt_floor_unique(n as int, lo as int);
    }
    lo
}

/// Euclidean distance between two positions, rounded down, as a
/// mathematical function.
pub open spec fn dist_spec(a: Vec2i, b: Vec2i) -> int {
    sqrt_floor(dist2_spec(a, b))
}

/// Euclidean distance rounded down: `isqrt` of the exact squared distance.
pub fn dist_approx(a: Vec2i, b: Vec2i) -> (r: u64)
    requires
        a.in_range(),
        b.in_range(),
    ensures
        r == dist_spec(a, b),
        r * r <= dist2_spec(a, b),
        dist2_spec(a, b) < (r + 1) * (r + 1),
        r <= 3_000_000_000,
    {
    let d2: u64 = dist2(a, b);
    let r: u64 = isqrt(d2);
    proof {
        assert(r <= 3_000_000_000) by (nonlinear_arith)
            requires
                r * r <= d2 && d2 <= 8_000_000_000_000_000_000u64,
        ;
    }
    r
}

/// Floor division for `b > 0`: agrees with mathematical `a / b`.
pub fn div_floor(a: i128, b: i128) -> (q: i128)
    requires
        b > 0,
        -0x1000_0000_0000_0000_0000_0000 <= a <= 0x1000_0000_0000_0000_0000_0000,
        b <= 0x1000_0000_0000_0000_0000_0000,
    ensures
        q == a as int / b as int,
{
    if a >= 0 {
        a / b
    } else {
        let m: i128 = -a;
        let qm: i128 = m / b;
        let r: i128 = m % b;
        proof {
            vstd::arithmetic::div_mod::lemma_fundamental_div_mod(m as int, b as int);
        }
        if r == 0 {
            proof {
                assert(a as int == (-(qm as int)) * (b as int) + 0) by (nonlinear_arith)
                    requires
                        a == -(m as int) && m as int == (b as int) * (qm as int) + (r as int) && r
                            == 0,
                ;
                vstd::arithmetic::div_mod::lemma_fundamental_div_mod_converse(
                    a as int,
                    b as int,
                    -(qm as int),
                    0,
                );
            }
            -qm
        } else {
            proof {
                assert(a as int == (-(qm as int) - 1) * (b as int) + ((b - r) as int))
                    by (nonlinear_arith)
                    requires
                        a == -(m as int) && m as int == (b as int) * (qm as int) + (r as int),
                ;
                vstd::arithmetic::div_mod::lemma_fundamental_div_mod_converse(
                    a as int,
                    b as int,
                    -(qm as int) - 1,
                    (b - r) as int,
                );
            }
            -qm - 1
        }
    }
}

/// Rounding of the fraction `a / b` for `b > 0`, halves away from zero,
/// as a mathematical integer.
pub open spec fn round_frac_spec(a: int, b: int) -> int {
    if a >= 0 {
        (2 * a + b) / (2 * b)
    } else {
        -((2 * (-a) + b) / (2 * b))
    }
}

/// The rounded quotient stays within one denominator of the fraction:
/// `a - b <= round(a/b) * b <= a + b`.
pub proof fn lemma_round_frac_bounds(a: int, b: int)
    requires
        b > 0,
    ensures
        a - b <= round_frac_spec(a, b) * b <= a + b,
{
    if a >= 0 {
        let q = (2 * a + b) / (2 * b);
        vstd::arithmetic::div_mod::lemma_fundamental_div_mod(2 * a + b, 2 * b);
        let rm = (2 * a + b) % (2 * b);
        assert(a - b <= q * b <= a + b) by (nonlinear_arith)
            requires
                2 * a + b == 2 * b * q + rm && 0 <= rm < 2 * b && b > 0,
        ;
    } else {
        let m = -a;
        let mq = (2 * m + b) / (2 * b);
        vstd::arithmetic::div_mod::lemma_fundamental_div_mod(2 * m + b, 2 * b);
        let rm = (2 * m + b) % (2 * b);
        assert(a - b <= (-mq) * b <= a + b) by (nonlinear_arith)
            requires
                2 * m + b == 2 * b * mq + rm && 0 <= rm < 2 * b && b > 0 && m == -a,
        ;
    }
}

/// Rounding division `round(a / b)` for `b > 0`, halves away from zero.
pub fn round_frac(a: i64, b: i64) -> (q: i64)
    requires
        0 < b <= MAX_COORD,
        -4 * MAX_COORD <= a <= 4 * MAX_COORD,
    ensures
        q == round_frac_spec(a as int, b as int),
        -4 * MAX_COORD <= q <= 4 * MAX_COORD,
{
    if a >= 0 {
        let q: i64 = (2 * a + b) / (2 * b);
        proof {
            assert(0 <= (2 * a + b) as int / (2 * b) as int <= a) by (nonlinear_arith)
                requires
                    0 <= a && 0 < b,
            ;
        }
        q
    } else {
        let q: i64 = -((2 * -a + b) / (2 * b));
        proof {
            assert(0 <= (2 * -a + b) as int / (2 * b) as int <= -a) by (nonlinear_arith)
                requires
                    a < 0 && 0 < b,
            ;
        }
        q
    }
}

} // verus!
