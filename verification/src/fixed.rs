//! Fixed-point scalars: an `i64` that counts millionths of a unit.

use vstd::prelude::*;

verus! {

/// The raw value that stands for 1.
pub const ONE: i64 = 1_000_000;

/// The largest magnitude a plotted coordinate may have: one million units.
pub const LIMIT: i64 = 1_000_000_000_000;

/// The farthest, along each coordinate, that a point may lie from the camera
/// that projects it: three million units, which leaves room for points within
/// twice [`LIMIT`] seen from a camera within [`LIMIT`].
pub const COORD_LIMIT: i64 = 3_000_000_000_000;

/// Absolute value of a mathematical integer.
pub open spec fn magnitude(x: int) -> int {
    if x < 0 { -x } else { x }
}

/// `x` limited to the interval `[lo, hi]`.
pub open spec fn clamped(x: int, lo: int, hi: int) -> int {
    if x < lo { lo } else if x > hi { hi } else { x }
}

/// Whether a scalar lies within `[-LIMIT, LIMIT]`.
pub open spec fn in_range(x: int) -> bool {
    -LIMIT <= x <= LIMIT
}

/// Whether `r` is the floor of the real square root of `n`.
pub open spec fn is_floor_sqrt(n: int, r: int) -> bool {
    r >= 0 && r * r <= n && n < (r + 1) * (r + 1)
}

/// The floor of the real square root of a non-negative `n`.
pub open spec fn floor_sqrt(n: int) -> int {
    choose|r: int| is_floor_sqrt(n, r)
}

/// A number has at most one floor square root, so whatever satisfies
/// [`is_floor_sqrt`] is [`floor_sqrt`].
pub proof fn lemma_floor_sqrt_unique(n: int, r: int)
    requires
        is_floor_sqrt(n, r),
    ensures
        floor_sqrt(n) == r,
{
    let s = floor_sqrt(n);
    assert(is_floor_sqrt(n, s));
    if s < r {
        assert((s + 1) * (s + 1) <= r * r) by (nonlinear_arith)
            requires 0 <= s, s + 1 <= r;
    } else if r < s {
        assert((r + 1) * (r + 1) <= s * s) by (nonlinear_arith)
            requires 0 <= r, r + 1 <= s;
    }
}

/// The distance between two scalars, which always fits an unsigned word.
pub fn distance(a: i64, b: i64) -> (d: u64)
    ensures
        d == magnitude(a - b),
{
    let wide: i128 = a as i128 - b as i128;
    if wide < 0 {
        (-wide) as u64
    } else {
        wide as u64
    }
}

/// Executable test for [`in_range`].
pub fn within_limit(x: i64) -> (b: bool)
    ensures
        b == in_range(x as int),
{
    -LIMIT <= x && x <= LIMIT
}

/// Quotient rounded toward negative infinity.
pub fn div_floor(a: i128, b: i128) -> (q: i128)
    requires
        b > 0,
    ensures
        q == a / b,
{
    proof {
        lemma_floor_quotient_bounds(a as int, b as int);
    }
    match a.checked_div_euclid(b) {
        Some(q) => q,
        None => 0,
    }
}

/// A quotient by a positive divisor is no larger in magnitude than the dividend.
pub proof fn lemma_floor_quotient_bounds(a: int, b: int)
    requires
        b > 0,
    ensures
        a >= 0 ==> 0 <= a / b <= a,
        a < 0 ==> a <= a / b < 0,
{
    let q = a / b;
    let r = a % b;
    assert(a == b * q + r && 0 <= r < b) by {
        vstd::arithmetic::div_mod::lemma_fundamental_div_mod(a, b);
        vstd::arithmetic::div_mod::lemma_mod_bound(a, b);
    }
    if a >= 0 {
        assert(q >= 0) by (nonlinear_arith)
            requires a == b * q + r, 0 <= r < b, a >= 0, b > 0;
        assert(q <= a) by (nonlinear_arith)
            requires a == b * q + r, 0 <= r < b, q >= 0, b > 0;
    } else {
        assert(q < 0) by (nonlinear_arith)
            requires a == b * q + r, 0 <= r < b, a < 0, b > 0;
        assert(q >= a) by (nonlinear_arith)
            requires a == b * q + r, 0 <= r < b, q < 0, b > 0;
    }
}

/// Floor of the square root, by bisection.
pub fn isqrt(n: u128) -> (r: u64)
    ensures
        is_floor_sqrt(n as int, r as int),
        r == floor_sqrt(n as int),
{
    let mut lo: u128 = 0;
    let mut hi: u128 = 0x1_0000_0000_0000_0000;
    assert(n < hi * hi) by (nonlinear_arith)
        requires hi == 0x1_0000_0000_0000_0000, n <= u128::MAX;
    while hi - lo > 1
        invariant
            lo < hi <= 0x1_0000_0000_0000_0000,
            lo * lo <= n,
            n < hi * hi,
        decreases hi - lo,
    {
        let mid: u128 = lo + (hi - lo) / 2;
        assert(mid * mid <= 0xffff_ffff_ffff_ffff * 0xffff_ffff_ffff_ffff) by (nonlinear_arith)
            requires 0 <= mid <= 0xffff_ffff_ffff_ffff;
        if mid * mid <= n {
            lo = mid;
        } else {
            hi = mid;
        }
    }
    proof {
        lemma_floor_sqrt_unique(n as int, lo as int);
    }
    lo as u64
}

} // verus!
