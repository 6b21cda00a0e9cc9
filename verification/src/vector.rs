//! Three-dimensional vectors and matrices over fixed-point scalars. The
//! products are computed by `nalgebra`.

use vstd::prelude::*;
use crate::fixed::{div_floor, floor_sqrt, isqrt, magnitude, COORD_LIMIT, ONE};
use vstd::arithmetic::div_mod::lemma_div_is_ordered;

verus! {

/// A point or direction in space.
#[derive(Debug, Clone, Copy, PartialEq, Eq, Structural)]
pub struct Vector3 {
    pub x: i64,
    pub y: i64,
    pub z: i64,
}

/// The three axes of a camera: the directions to its right, upward and
/// forward, each of length [`ONE`].
#[derive(Debug, Clone, Copy, PartialEq, Eq, Structural)]
pub struct Matrix3 {
    pub right: Vector3,
    pub up: Vector3,
    pub forward: Vector3,
}

/// The largest component magnitude that [`cross`] accepts.
pub const CROSS_LIMIT: i64 = 0x7fff_ffff;

/// The largest component magnitude that [`normalize`] accepts: ten million
/// units. Up to it the squared length, scaled twice by [`ONE`], fits 128 bits.
pub const NORM_LIMIT: i64 = 10_000_000_000_000;

/// How far the squared length of a unit vector may lie from `ONE * ONE`.
pub const UNIT_SLACK: i64 = 8_000_003;

/// How far the dot product of two perpendicular unit vectors may lie from
/// zero.
pub const ANGLE_SLACK: i64 = 3_000_000;

impl Vector3 {
    /// Every component has magnitude at most `bound`.
    pub open spec fn within(&self, bound: int) -> bool {
        &&& -bound <= self.x <= bound
        &&& -bound <= self.y <= bound
        &&& -bound <= self.z <= bound
    }

    /// The vector with the given components.
    pub fn new(x: i64, y: i64, z: i64) -> (v: Vector3)
        ensures
            v == (Vector3 { x, y, z }),
    {
        Vector3 { x, y, z }
    }

    /// Executable test for [`Vector3::within`].
    pub fn is_within(&self, bound: i64) -> (b: bool)
        requires
            bound >= 0,
        ensures
            b == self.within(bound as int),
    {
        -bound <= self.x && self.x <= bound && -bound <= self.y && self.y <= bound && -bound
            <= self.z && self.z <= bound
    }
}

impl Matrix3 {
    /// Every entry has magnitude at most `bound`.
    pub open spec fn within(&self, bound: int) -> bool {
        self.right.within(bound) && self.up.within(bound) && self.forward.within(bound)
    }
}

/// The dot product.
pub open spec fn dot(a: Vector3, b: Vector3) -> int {
    a.x * b.x + a.y * b.y + a.z * b.z
}

/// The Euclidean length, rounded down.
pub open spec fn length(v: Vector3) -> int {
    floor_sqrt(dot(v, v))
}

/// The length of `v` in millionths of a raw unit, rounded down: the root is
/// taken after the squared length is scaled twice by [`ONE`].
pub open spec fn fine_length(v: Vector3) -> int {
    floor_sqrt(dot(v, v) * (ONE * ONE))
}

/// Whether `v` is the zero vector.
pub open spec fn is_zero(v: Vector3) -> bool {
    v.x == 0 && v.y == 0 && v.z == 0
}

/// The vector along `v` whose length is [`ONE`] to within a few raw units
/// (see [`lemma_unit_length`]): each component is scaled by `ONE * ONE`,
/// divided by [`fine_length`] and rounded toward negative infinity. The zero
/// vector stays zero.
pub open spec fn unit(v: Vector3) -> Vector3 {
    if is_zero(v) {
        v
    } else {
        Vector3 {
            x: ((v.x * (ONE * ONE)) / fine_length(v)) as i64,
            y: ((v.y * (ONE * ONE)) / fine_length(v)) as i64,
            z: ((v.z * (ONE * ONE)) / fine_length(v)) as i64,
        }
    }
}

/// Whether the squared length of `u` is `ONE * ONE` to within [`UNIT_SLACK`].
pub open spec fn nearly_unit(u: Vector3) -> bool {
    ONE * ONE - UNIT_SLACK <= dot(u, u) <= ONE * ONE + UNIT_SLACK
}

/// Whether the dot product of `a` and `b` is zero to within [`ANGLE_SLACK`]:
/// for two unit vectors, a cosine of at most three millionths.
pub open spec fn nearly_orthogonal(a: Vector3, b: Vector3) -> bool {
    -ANGLE_SLACK <= dot(a, b) <= ANGLE_SLACK
}

impl Matrix3 {
    /// The three axes are unit vectors, perpendicular to one another, as
    /// far as the resolution allows.
    pub open spec fn orthonormal(&self) -> bool {
        &&& nearly_unit(self.right)
        &&& nearly_unit(self.up)
        &&& nearly_unit(self.forward)
        &&& nearly_orthogonal(self.right, self.up)
        &&& nearly_orthogonal(self.right, self.forward)
        &&& nearly_orthogonal(self.up, self.forward)
    }
}

/// The components of the cross product.
pub open spec fn cross_of(a: Vector3, b: Vector3) -> (int, int, int) {
    (a.y * b.z - a.z * b.y, a.z * b.x - a.x * b.z, a.x * b.y - a.y * b.x)
}

/// Calls `Matrix::cross` on two column vectors, which multiplies and
/// subtracts machine integers: the bound on the components keeps each product
/// and each difference in range.
#[verifier::external_body]
pub(crate) fn cross(a: Vector3, b: Vector3) -> (c: Vector3)
    requires
        a.within(CROSS_LIMIT as int),
        b.within(CROSS_LIMIT as int),
    ensures
        (c.x as int, c.y as int, c.z as int) == cross_of(a, b),
{
    let left = nalgebra::Vector3::new(a.x, a.y, a.z);
    let right = nalgebra::Vector3::new(b.x, b.y, b.z);
    let c = left.cross(&right);
    Vector3 { x: c.x, y: c.y, z: c.z }
}

/// Builds the matrix whose rows are the three axes with `Matrix3::from_rows`
/// and multiplies it by the column vector `q`: the result holds the dot
/// product of `q` with each axis. The product sums `entry * component` terms
/// in machine integers: with entries of magnitude at most [`ONE`], the bound on
/// `q` keeps every partial sum in range.
#[verifier::external_body]
pub(crate) fn transform(m: &Matrix3, q: Vector3) -> (image: Vector3)
    requires
        m.within(ONE as int),
        q.within(COORD_LIMIT as int),
    ensures
        image.x == dot(m.right, q),
        image.y == dot(m.up, q),
        image.z == dot(m.forward, q),
{
    let rows = [
        nalgebra::RowVector3::new(m.right.x, m.right.y, m.right.z),
        nalgebra::RowVector3::new(m.up.x, m.up.y, m.up.z),
        nalgebra::RowVector3::new(m.forward.x, m.forward.y, m.forward.z),
    ];
    let image = nalgebra::Matrix3::from_rows(&rows) * nalgebra::Vector3::new(q.x, q.y, q.z);
    Vector3 { x: image.x, y: image.y, z: image.z }
}

/// The Euclidean length of `v`, rounded down.
pub fn norm(v: &Vector3) -> (n: u64)
    ensures
        n == length(*v),
{
    isqrt(square(v.x) + square(v.y) + square(v.z))
}

/// The square of a scalar.
fn square(c: i64) -> (s: u128)
    ensures
        s == c * c,
        s <= 0x4000_0000_0000_0000_0000_0000_0000_0000,
{
    assert(0 <= c * c <= 0x4000_0000_0000_0000_0000_0000_0000_0000) by (nonlinear_arith)
        requires -0x8000_0000_0000_0000 <= c <= 0x7fff_ffff_ffff_ffff;
    (c as i128 * c as i128) as u128
}

/// Scales `v` to length [`ONE`]; the zero vector stays zero.
pub fn normalize(v: &Vector3) -> (u: Vector3)
    requires
        v.within(NORM_LIMIT as int),
    ensures
        u == unit(*v),
        u.within(ONE as int),
        !is_zero(*v) ==> nearly_unit(u),
{
    if v.x == 0 && v.y == 0 && v.z == 0 {
        return *v;
    }
    proof {
        lemma_unit_components(*v);
        lemma_unit_length(*v);
        lemma_squares_in_range(v.x as int);
        lemma_squares_in_range(v.y as int);
        lemma_squares_in_range(v.z as int);
    }
    let squares: u128 = square(v.x) + square(v.y) + square(v.z);
    assert(squares * 1_000_000_000_000 <= 300_000_000_000_000_000_000_000_000_000_000_000_000)
        by (nonlinear_arith)
        requires squares <= 300_000_000_000_000_000_000_000_000;
    let root = isqrt(squares * 1_000_000_000_000);
    Vector3 {
        x: div_floor(v.x as i128 * 1_000_000_000_000, root as i128) as i64,
        y: div_floor(v.y as i128 * 1_000_000_000_000, root as i128) as i64,
        z: div_floor(v.z as i128 * 1_000_000_000_000, root as i128) as i64,
    }
}

/// The square of a component within [`NORM_LIMIT`], and the component scaled
/// twice, stay within 128 bits.
proof fn lemma_squares_in_range(c: int)
    requires
        -NORM_LIMIT <= c <= NORM_LIMIT,
    ensures
        0 <= c * c <= 100_000_000_000_000_000_000_000_000,
        -10_000_000_000_000_000_000_000_000 <= c * 1_000_000_000_000
            <= 10_000_000_000_000_000_000_000_000,
{
    assert(0 <= c * c <= 100_000_000_000_000_000_000_000_000) by (nonlinear_arith)
        requires -10_000_000_000_000 <= c <= 10_000_000_000_000;
}

/// For a vector other than zero the fine length is at least [`ONE`], no
/// component scaled by [`ONE`] exceeds it, and so no component of the unit
/// vector exceeds [`ONE`].
pub proof fn lemma_unit_components(v: Vector3)
    requires
        !is_zero(v),
    ensures
        fine_length(v) >= ONE,
        crate::fixed::is_floor_sqrt(dot(v, v) * (ONE * ONE), fine_length(v)),
        magnitude(v.x * ONE) <= fine_length(v),
        magnitude(v.y * ONE) <= fine_length(v),
        magnitude(v.z * ONE) <= fine_length(v),
        unit(v).within(ONE as int),
        -ONE <= (v.x * (ONE * ONE)) / fine_length(v) <= ONE,
        -ONE <= (v.y * (ONE * ONE)) / fine_length(v) <= ONE,
        -ONE <= (v.z * (ONE * ONE)) / fine_length(v) <= ONE,
{
    let d = dot(v, v);
    let s = d * (ONE * ONE);
    assert(v.x * v.x >= 0 && v.y * v.y >= 0 && v.z * v.z >= 0) by (nonlinear_arith);
    assert(v.x * v.x >= 1 || v.x == 0) by (nonlinear_arith);
    assert(v.y * v.y >= 1 || v.y == 0) by (nonlinear_arith);
    assert(v.z * v.z >= 1 || v.z == 0) by (nonlinear_arith);
    assert(d >= 1);
    assert(s >= ONE * ONE && s >= 0) by (nonlinear_arith)
        requires s == d * (ONE * ONE), d >= 1;
    lemma_sqrt_exists(s);
    let r = fine_length(v);
    lemma_square_below(ONE as int, r, s);
    lemma_scaled_square(v.x as int, d, s);
    lemma_scaled_square(v.y as int, d, s);
    lemma_scaled_square(v.z as int, d, s);
    lemma_square_below(v.x * ONE, r, s);
    lemma_square_below(v.y * ONE, r, s);
    lemma_square_below(v.z * ONE, r, s);
    lemma_scaled_component(v.x * ONE, r);
    lemma_scaled_component(v.y * ONE, r);
    lemma_scaled_component(v.z * ONE, r);
    assert((v.x * ONE) * ONE == v.x * (ONE * ONE)) by (nonlinear_arith);
    assert((v.y * ONE) * ONE == v.y * (ONE * ONE)) by (nonlinear_arith);
    assert((v.z * ONE) * ONE == v.z * (ONE * ONE)) by (nonlinear_arith);
}

/// The square of a scaled component is at most the scaled squared length.
proof fn lemma_scaled_square(c: int, d: int, s: int)
    requires
        0 <= c * c <= d,
        s == d * (ONE * ONE),
    ensures
        (c * ONE) * (c * ONE) <= s,
{
    assert((c * ONE) * (c * ONE) == (c * c) * (ONE * ONE)) by (nonlinear_arith);
    assert((c * c) * (ONE * ONE) <= d * (ONE * ONE)) by (nonlinear_arith)
        requires c * c <= d;
}

/// What rounding one component of a unit vector costs: with `u` the floor of
/// `n / r`, the square of `r * u` lies within `r * r * (2 * ONE + 1)` of the
/// square of `n`, and `r * u` within `r` below `n`.
proof fn lemma_rounded_square(n: int, r: int, u: int)
    requires
        r > 0,
        -r * ONE <= n <= r * ONE,
        u == n / r,
    ensures
        n - r < r * u <= n,
        (r * u) * (r * u) >= n * n - r * r * (2 * ONE),
        (r * u) * (r * u) <= n * n + r * r * (2 * ONE + 1),
{
    vstd::arithmetic::div_mod::lemma_fundamental_div_mod(n, r);
    vstd::arithmetic::div_mod::lemma_mod_bound(n, r);
    let a = r * u;
    let e = n % r;
    assert(a == n - e);
    assert(a * a == n * n - 2 * (n * e) + e * e) by (nonlinear_arith)
        requires a == n - e;
    assert(-((r * ONE) * r) <= n * e <= (r * ONE) * r) by (nonlinear_arith)
        requires -(r * ONE) <= n <= r * ONE, 0 <= e < r;
    assert(0 <= e * e <= r * r) by (nonlinear_arith)
        requires 0 <= e < r;
    assert((r * ONE) * r == r * r * ONE) by (nonlinear_arith);
    assert(r * r * (2 * ONE) == 2 * (r * r * ONE)) by (nonlinear_arith);
    assert(r * r * (2 * ONE + 1) == 2 * (r * r * ONE) + r * r) by (nonlinear_arith);
}

/// The unit vector of a vector other than zero has the length [`ONE`] to
/// within a few raw units: its squared length lies within [`UNIT_SLACK`] of
/// `ONE * ONE`.
pub proof fn lemma_unit_length(v: Vector3)
    requires
        !is_zero(v),
    ensures
        nearly_unit(unit(v)),
{
    lemma_unit_components(v);
    let r = fine_length(v);
    let s = dot(v, v) * (ONE * ONE);
    let u = unit(v);
    let k = ONE * ONE;
    let nx = v.x * k;
    let ny = v.y * k;
    let nz = v.z * k;
    assert(v.x * k == (v.x * ONE) * ONE && v.y * k == (v.y * ONE) * ONE && v.z * k == (v.z * ONE)
        * ONE) by (nonlinear_arith)
        requires k == ONE * ONE;
    assert(-r * ONE <= nx <= r * ONE) by (nonlinear_arith)
        requires nx == (v.x * ONE) * ONE, -r <= v.x * ONE <= r;
    assert(-r * ONE <= ny <= r * ONE) by (nonlinear_arith)
        requires ny == (v.y * ONE) * ONE, -r <= v.y * ONE <= r;
    assert(-r * ONE <= nz <= r * ONE) by (nonlinear_arith)
        requires nz == (v.z * ONE) * ONE, -r <= v.z * ONE <= r;
    lemma_rounded_square(nx, r, u.x as int);
    lemma_rounded_square(ny, r, u.y as int);
    lemma_rounded_square(nz, r, u.z as int);
    let rr = r * r;
    let total = nx * nx + ny * ny + nz * nz;
    assert(total == s * k) by (nonlinear_arith)
        requires
            total == nx * nx + ny * ny + nz * nz,
            nx == v.x * k,
            ny == v.y * k,
            nz == v.z * k,
            s == (v.x * v.x + v.y * v.y + v.z * v.z) * k,
    ;
    let d = dot(u, u);
    assert(rr > 0) by (nonlinear_arith)
        requires rr == r * r, r >= 1;
    let px = u.x * u.x;
    let py = u.y * u.y;
    let pz = u.z * u.z;
    assert((r * u.x) * (r * u.x) == rr * px) by (nonlinear_arith)
        requires rr == r * r, px == u.x * u.x;
    assert((r * u.y) * (r * u.y) == rr * py) by (nonlinear_arith)
        requires rr == r * r, py == u.y * u.y;
    assert((r * u.z) * (r * u.z) == rr * pz) by (nonlinear_arith)
        requires rr == r * r, pz == u.z * u.z;
    assert(rr * d == rr * px + rr * py + rr * pz) by (nonlinear_arith)
        requires d == px + py + pz;
    // from below: the scaled squared length is at least the square of its root
    assert(s * k >= rr * k) by (nonlinear_arith)
        requires s >= rr, k >= 0;
    assert(rr * d >= rr * (k - 6 * ONE)) by (nonlinear_arith)
        requires
            rr * d >= total - 3 * (rr * (2 * ONE)),
            total >= rr * k,
    ;
    assert(d >= k - 6 * ONE) by (nonlinear_arith)
        requires rr * d >= rr * (k - 6 * ONE), rr > 0;
    // from above: the scaled squared length is below the square of the next number
    assert(s <= rr + 2 * r) by (nonlinear_arith)
        requires s < (r + 1) * (r + 1), rr == r * r;
    assert(s * k <= rr * k + 2 * (rr * ONE)) by (nonlinear_arith)
        requires s <= rr + 2 * r, r >= ONE, k == ONE * ONE, rr == r * r, ONE == 1_000_000;
    assert(rr * d <= rr * (k + 8 * ONE + 3)) by (nonlinear_arith)
        requires
            rr * d <= total + 3 * (rr * (2 * ONE + 1)),
            total <= rr * k + 2 * (rr * ONE),
    ;
    assert(d <= k + 8 * ONE + 3) by (nonlinear_arith)
        requires rr * d <= rr * (k + 8 * ONE + 3), rr > 0;
}

/// Scaling a vector to unit length keeps what is perpendicular to it nearly
/// so: where `w` is exactly perpendicular to `v` and has no component beyond
/// [`ONE`], its dot product with the unit vector of `v` is zero to within
/// [`ANGLE_SLACK`].
pub proof fn lemma_unit_stays_orthogonal(v: Vector3, w: Vector3)
    requires
        dot(v, w) == 0,
        w.within(ONE as int),
    ensures
        nearly_orthogonal(unit(v), w),
{
    if is_zero(v) {
        assert(dot(v, w) == 0);
    } else {
        lemma_unit_components(v);
        let r = fine_length(v);
        let u = unit(v);
        let k = ONE * ONE;
        let nx = v.x * k;
        let ny = v.y * k;
        let nz = v.z * k;
        assert(v.x * k == (v.x * ONE) * ONE && v.y * k == (v.y * ONE) * ONE && v.z * k == (v.z
            * ONE) * ONE) by (nonlinear_arith)
            requires k == ONE * ONE;
        assert(-r * ONE <= nx <= r * ONE) by (nonlinear_arith)
            requires nx == (v.x * ONE) * ONE, -r <= v.x * ONE <= r;
        assert(-r * ONE <= ny <= r * ONE) by (nonlinear_arith)
            requires ny == (v.y * ONE) * ONE, -r <= v.y * ONE <= r;
        assert(-r * ONE <= nz <= r * ONE) by (nonlinear_arith)
            requires nz == (v.z * ONE) * ONE, -r <= v.z * ONE <= r;
        lemma_rounded_square(nx, r, u.x as int);
        lemma_rounded_square(ny, r, u.y as int);
        lemma_rounded_square(nz, r, u.z as int);
        let ex = nx - r * u.x;
        let ey = ny - r * u.y;
        let ez = nz - r * u.z;
        let d = dot(u, w);
        assert(nx * w.x + ny * w.y + nz * w.z == 0) by (nonlinear_arith)
            requires
                nx == v.x * k,
                ny == v.y * k,
                nz == v.z * k,
                v.x * w.x + v.y * w.y + v.z * w.z == 0,
        ;
        let px = u.x * w.x;
        let py = u.y * w.y;
        let pz = u.z * w.z;
        assert(ex * w.x == nx * w.x - r * px) by (nonlinear_arith)
            requires ex == nx - r * u.x, px == u.x * w.x;
        assert(ey * w.y == ny * w.y - r * py) by (nonlinear_arith)
            requires ey == ny - r * u.y, py == u.y * w.y;
        assert(ez * w.z == nz * w.z - r * pz) by (nonlinear_arith)
            requires ez == nz - r * u.z, pz == u.z * w.z;
        assert(r * d == r * px + r * py + r * pz) by (nonlinear_arith)
            requires d == px + py + pz;
        assert(r * d == -(ex * w.x + ey * w.y + ez * w.z));
        assert(-(r * ONE) <= ex * w.x <= r * ONE) by (nonlinear_arith)
            requires 0 <= ex < r, -ONE <= w.x <= ONE;
        assert(-(r * ONE) <= ey * w.y <= r * ONE) by (nonlinear_arith)
            requires 0 <= ey < r, -ONE <= w.y <= ONE;
        assert(-(r * ONE) <= ez * w.z <= r * ONE) by (nonlinear_arith)
            requires 0 <= ez < r, -ONE <= w.z <= ONE;
        assert(-(3 * ONE) <= d <= 3 * ONE) by (nonlinear_arith)
            requires -(3 * (r * ONE)) <= r * d <= 3 * (r * ONE), r > 0;
    }
}

/// Only the zero vector has length zero.
pub proof fn lemma_zero_length(v: Vector3)
    requires
        length(v) == 0,
    ensures
        v.x == 0 && v.y == 0 && v.z == 0,
{
    let n = dot(v, v);
    assert(v.x * v.x >= 0 && v.y * v.y >= 0 && v.z * v.z >= 0) by (nonlinear_arith);
    lemma_sqrt_exists(n);
    assert(n < 1);
    assert(v.x * v.x >= 1 || v.x == 0) by (nonlinear_arith);
    assert(v.y * v.y >= 1 || v.y == 0) by (nonlinear_arith);
    assert(v.z * v.z >= 1 || v.z == 0) by (nonlinear_arith);
}

/// Every non-negative number has a floor square root.
pub proof fn lemma_sqrt_exists(n: int)
    requires
        n >= 0,
    ensures
        crate::fixed::is_floor_sqrt(n, floor_sqrt(n)),
    decreases n,
{
    if n == 0 {
        assert(crate::fixed::is_floor_sqrt(0, 0));
    } else {
        lemma_sqrt_exists(n - 1);
        let r = floor_sqrt(n - 1);
        if n < (r + 1) * (r + 1) {
            assert(crate::fixed::is_floor_sqrt(n, r));
        } else {
            assert((r + 2) * (r + 2) > (r + 1) * (r + 1)) by (nonlinear_arith)
                requires r >= 0;
            assert(crate::fixed::is_floor_sqrt(n, r + 1));
        }
    }
}

/// No component is longer than the vector.
pub proof fn lemma_component_below_length(v: Vector3)
    ensures
        magnitude(v.x as int) <= length(v),
        magnitude(v.y as int) <= length(v),
        magnitude(v.z as int) <= length(v),
{
    let n = dot(v, v);
    assert(v.x * v.x >= 0 && v.y * v.y >= 0 && v.z * v.z >= 0) by (nonlinear_arith);
    lemma_sqrt_exists(n);
    let r = length(v);
    lemma_square_below(v.x as int, r, n);
    lemma_square_below(v.y as int, r, n);
    lemma_square_below(v.z as int, r, n);
}

proof fn lemma_square_below(c: int, r: int, n: int)
    requires
        r >= 0,
        c * c <= n,
        n < (r + 1) * (r + 1),
    ensures
        magnitude(c) <= r,
{
    if magnitude(c) > r {
        assert(c * c >= (r + 1) * (r + 1)) by (nonlinear_arith)
            requires r >= 0, c >= r + 1 || -c >= r + 1;
    }
}

/// A component scaled by `ONE / n` stays within `ONE` when the component is
/// no larger than `n`.
pub proof fn lemma_scaled_component(c: int, n: int)
    requires
        n > 0,
        magnitude(c) <= n,
    ensures
        -ONE <= (c * ONE) / n <= ONE,
{
    assert(-(n * ONE) <= c * ONE <= n * ONE) by (nonlinear_arith)
        requires -n <= c <= n;
    lemma_div_is_ordered(c * ONE, n * ONE, n);
    lemma_div_is_ordered(-(n * ONE), c * ONE, n);
    assert((n * ONE) / n == ONE) by {
        vstd::arithmetic::div_mod::lemma_div_multiples_vanish(ONE as int, n);
    }
    assert((-(n * ONE)) / n == -ONE) by {
        assert(-(n * ONE) == n * (-ONE)) by (nonlinear_arith);
        vstd::arithmetic::div_mod::lemma_div_multiples_vanish(-ONE as int, n);
    }
}

/// What scaling to unit length does to a dot product: for a vector `v` other
/// than zero and any `a` within [`ONE`], the dot product of `a` with `v`,
/// scaled by `ONE * ONE`, is the dot product of `a` with the unit vector,
/// scaled by the fine length, to within three times the fine length times
/// [`ONE`].
pub proof fn lemma_unit_scales_back(v: Vector3, a: Vector3)
    requires
        !is_zero(v),
        a.within(ONE as int),
    ensures
        -(3 * (fine_length(v) * ONE)) <= (ONE * ONE) * dot(a, v) - fine_length(v) * dot(a, unit(v))
            <= 3 * (fine_length(v) * ONE),
{
    lemma_unit_components(v);
    let r = fine_length(v);
    let u = unit(v);
    let k = ONE * ONE;
    let nx = v.x * k;
    let ny = v.y * k;
    let nz = v.z * k;
    assert(v.x * k == (v.x * ONE) * ONE && v.y * k == (v.y * ONE) * ONE && v.z * k == (v.z * ONE)
        * ONE) by (nonlinear_arith)
        requires k == ONE * ONE;
    assert(-r * ONE <= nx <= r * ONE) by (nonlinear_arith)
        requires nx == (v.x * ONE) * ONE, -r <= v.x * ONE <= r;
    assert(-r * ONE <= ny <= r * ONE) by (nonlinear_arith)
        requires ny == (v.y * ONE) * ONE, -r <= v.y * ONE <= r;
    assert(-r * ONE <= nz <= r * ONE) by (nonlinear_arith)
        requires nz == (v.z * ONE) * ONE, -r <= v.z * ONE <= r;
    lemma_rounded_square(nx, r, u.x as int);
    lemma_rounded_square(ny, r, u.y as int);
    lemma_rounded_square(nz, r, u.z as int);
    let ex = nx - r * u.x;
    let ey = ny - r * u.y;
    let ez = nz - r * u.z;
    let qx = a.x * v.x;
    let qy = a.y * v.y;
    let qz = a.z * v.z;
    let px = a.x * u.x;
    let py = a.y * u.y;
    let pz = a.z * u.z;
    assert(a.x * ex == k * qx - r * px) by (nonlinear_arith)
        requires ex == nx - r * u.x, nx == v.x * k, qx == a.x * v.x, px == a.x * u.x;
    assert(a.y * ey == k * qy - r * py) by (nonlinear_arith)
        requires ey == ny - r * u.y, ny == v.y * k, qy == a.y * v.y, py == a.y * u.y;
    assert(a.z * ez == k * qz - r * pz) by (nonlinear_arith)
        requires ez == nz - r * u.z, nz == v.z * k, qz == a.z * v.z, pz == a.z * u.z;
    assert(k * dot(a, v) == k * qx + k * qy + k * qz) by (nonlinear_arith)
        requires dot(a, v) == qx + qy + qz;
    assert(r * dot(a, u) == r * px + r * py + r * pz) by (nonlinear_arith)
        requires dot(a, u) == px + py + pz;
    assert(-(r * ONE) <= a.x * ex <= r * ONE) by (nonlinear_arith)
        requires 0 <= ex < r, -ONE <= a.x <= ONE;
    assert(-(r * ONE) <= a.y * ey <= r * ONE) by (nonlinear_arith)
        requires 0 <= ey < r, -ONE <= a.y <= ONE;
    assert(-(r * ONE) <= a.z * ez <= r * ONE) by (nonlinear_arith)
        requires 0 <= ez < r, -ONE <= a.z <= ONE;
}

/// The cross product as a vector.
pub open spec fn cross_vector(a: Vector3, b: Vector3) -> Vector3 {
    Vector3 { x: cross_of(a, b).0 as i64, y: cross_of(a, b).1 as i64, z: cross_of(a, b).2 as i64 }
}

/// The cross product of two vectors within [`ONE`] has no component beyond
/// `2 * ONE * ONE` and is perpendicular to both.
pub proof fn lemma_cross_orthogonal(a: Vector3, b: Vector3)
    requires
        a.within(ONE as int),
        b.within(ONE as int),
    ensures
        cross_vector(a, b).within(2 * ONE * ONE),
        (cross_vector(a, b).x as int, cross_vector(a, b).y as int, cross_vector(a, b).z as int)
            == cross_of(a, b),
        dot(cross_vector(a, b), a) == 0,
        dot(cross_vector(a, b), b) == 0,
{
    assert(forall|p: int, q: int| -ONE <= p <= ONE && -ONE <= q <= ONE ==> -ONE * ONE <= #[trigger] (p
        * q) <= ONE * ONE) by (nonlinear_arith);
    let x = a.y * b.z - a.z * b.y;
    let y = a.z * b.x - a.x * b.z;
    let z = a.x * b.y - a.y * b.x;
    assert(x * a.x + y * a.y + z * a.z == 0) by (nonlinear_arith)
        requires
            x == a.y * b.z - a.z * b.y,
            y == a.z * b.x - a.x * b.z,
            z == a.x * b.y - a.y * b.x,
    ;
    assert(x * b.x + y * b.y + z * b.z == 0) by (nonlinear_arith)
        requires
            x == a.y * b.z - a.z * b.y,
            y == a.z * b.x - a.x * b.z,
            z == a.x * b.y - a.y * b.x,
    ;
}

/// The squared length of a cross product is the product of the squared
/// lengths less the square of the dot product.
pub proof fn lemma_cross_length(a: Vector3, b: Vector3)
    requires
        a.within(ONE as int),
        b.within(ONE as int),
    ensures
        dot(cross_vector(a, b), cross_vector(a, b)) == dot(a, a) * dot(b, b) - dot(a, b) * dot(a, b),
{
    lemma_cross_orthogonal(a, b);
    let x = a.y * b.z - a.z * b.y;
    let y = a.z * b.x - a.x * b.z;
    let z = a.x * b.y - a.y * b.x;
    let (ax, ay, az) = (a.x as int, a.y as int, a.z as int);
    let (bx, by, bz) = (b.x as int, b.y as int, b.z as int);
    let (ax2, ay2, az2) = (ax * ax, ay * ay, az * az);
    let (bx2, by2, bz2) = (bx * bx, by * by, bz * bz);
    let (s1, s2, s3) = (ax * bx, ay * by, az * bz);
    let (p1, p2, p3) = (ay * bz, az * by, az * bx);
    let (p4, p5, p6) = (ax * bz, ax * by, ay * bx);
    let aa = ax2 + ay2 + az2;
    let bb = bx2 + by2 + bz2;
    let ab = s1 + s2 + s3;
    assert(ax2 * bx2 == s1 * s1) by (nonlinear_arith)
        requires ax2 == ax * ax, bx2 == bx * bx, s1 == ax * bx;
    assert(ay2 * by2 == s2 * s2) by (nonlinear_arith)
        requires ay2 == ay * ay, by2 == by * by, s2 == ay * by;
    assert(az2 * bz2 == s3 * s3) by (nonlinear_arith)
        requires az2 == az * az, bz2 == bz * bz, s3 == az * bz;
    assert(ay2 * bz2 == p1 * p1) by (nonlinear_arith)
        requires ay2 == ay * ay, bz2 == bz * bz, p1 == ay * bz;
    assert(az2 * by2 == p2 * p2) by (nonlinear_arith)
        requires az2 == az * az, by2 == by * by, p2 == az * by;
    assert(az2 * bx2 == p3 * p3) by (nonlinear_arith)
        requires az2 == az * az, bx2 == bx * bx, p3 == az * bx;
    assert(ax2 * bz2 == p4 * p4) by (nonlinear_arith)
        requires ax2 == ax * ax, bz2 == bz * bz, p4 == ax * bz;
    assert(ax2 * by2 == p5 * p5) by (nonlinear_arith)
        requires ax2 == ax * ax, by2 == by * by, p5 == ax * by;
    assert(ay2 * bx2 == p6 * p6) by (nonlinear_arith)
        requires ay2 == ay * ay, bx2 == bx * bx, p6 == ay * bx;
    assert(p1 * p2 == s2 * s3) by (nonlinear_arith)
        requires p1 == ay * bz, p2 == az * by, s2 == ay * by, s3 == az * bz;
    assert(p3 * p4 == s1 * s3) by (nonlinear_arith)
        requires p3 == az * bx, p4 == ax * bz, s1 == ax * bx, s3 == az * bz;
    assert(p5 * p6 == s1 * s2) by (nonlinear_arith)
        requires p5 == ax * by, p6 == ay * bx, s1 == ax * bx, s2 == ay * by;
    assert(aa * bb == ax2 * bx2 + ax2 * by2 + ax2 * bz2 + ay2 * bx2 + ay2 * by2 + ay2 * bz2 + az2
        * bx2 + az2 * by2 + az2 * bz2) by (nonlinear_arith)
        requires aa == ax2 + ay2 + az2, bb == bx2 + by2 + bz2;
    assert(ab * ab == s1 * s1 + s2 * s2 + s3 * s3 + 2 * (s1 * s2) + 2 * (s1 * s3) + 2 * (s2 * s3))
        by (nonlinear_arith)
        requires ab == s1 + s2 + s3;
    assert(x * x == p1 * p1 - 2 * (p1 * p2) + p2 * p2) by (nonlinear_arith)
        requires x == p1 - p2;
    assert(y * y == p3 * p3 - 2 * (p3 * p4) + p4 * p4) by (nonlinear_arith)
        requires y == p3 - p4;
    assert(z * z == p5 * p5 - 2 * (p5 * p6) + p6 * p6) by (nonlinear_arith)
        requires z == p5 - p6;
    assert(x * x + y * y + z * z == aa * bb - ab * ab);
}

} // verus!
