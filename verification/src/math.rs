//! The coordinate mapper and the camera algebra.

use vstd::prelude::*;
use vstd::arithmetic::div_mod::lemma_fundamental_div_mod_converse;
use vstd::arithmetic::div_mod::{lemma_div_is_ordered, lemma_div_multiples_vanish};
use crate::fixed::{
    clamped, distance, div_floor, lemma_floor_quotient_bounds, magnitude, COORD_LIMIT, ONE,
};
use crate::vector::{
    cross, cross_vector, dot, fine_length, is_zero, lemma_cross_length, lemma_cross_orthogonal,
    lemma_unit_components, lemma_unit_length, lemma_unit_stays_orthogonal, length, nearly_unit,
    lemma_unit_scales_back, norm, normalize, transform, unit, Matrix3, Vector3, NORM_LIMIT,
    UNIT_SLACK,
};
use crate::mesh::{mesh_shape, Mesh};
use crate::plot::{firsts, sample, seconds, Linspace};

verus! {

/// Pairs each data value with the pixel value of the same index on a uniform
/// grid that runs from `interval.0` to `interval.1`, both ends included. A
/// single value is paired with `interval.0`.
///
/// The pairing is positional: it is a correct mapping only for values that are
/// themselves evenly spaced.
pub fn map_points(points: &[i64], interval: (i64, i64)) -> (map: Vec<(i64, i64)>)
    ensures
        map@.len() == points@.len(),
        forall|i: int| 0 <= i < map@.len() ==> #[trigger] map@[i] == (
            points@[i],
            sample(interval.0 as int, interval.1 as int, points@.len() - 1, i) as i64,
        ),
        map@.len() > 0 ==> map@[0].1 == interval.0,
        map@.len() > 1 ==> map@[map@.len() - 1].1 == interval.1,
        forall|i: int, j: int| 0 <= i <= j < map@.len() && interval.0 <= interval.1
            ==> map@[i].1 <= map@[j].1,
        forall|i: int, j: int| 0 <= i <= j < map@.len() && interval.0 >= interval.1
            ==> map@[i].1 >= map@[j].1,
        forall|i: int, j: int|
            0 <= i < j < map@.len() && interval.1 - interval.0 >= map@.len() - 1 ==> map@[i].1
                < map@[j].1,
        forall|i: int, j: int|
            0 <= i < j < map@.len() && interval.0 - interval.1 >= map@.len() - 1 ==> map@[i].1
                > map@[j].1,
{
    let mut map: Vec<(i64, i64)> = Vec::new();
    let n = points.len();
    if n == 0 {
        return map;
    }
    let pixels = Linspace::linspace(interval.0, interval.1, n - 1);
    let mut i: usize = 0;
    while i < n
        invariant
            i <= n,
            n == points@.len(),
            pixels@.len() == n,
            map@.len() == i,
            forall|k: int| 0 <= k < i ==> #[trigger] map@[k] == (points@[k], pixels@[k]),
        decreases n - i,
    {
        map.push((points[i], pixels[i]));
        i += 1;
    }
    map
}

/// The position of the key closest to `p`; among equally close keys, the
/// first. Zero for an empty sequence.
pub open spec fn nearest_index(keys: Seq<i64>, p: int) -> int
    decreases keys.len(),
{
    if keys.len() <= 1 {
        0
    } else {
        let k = nearest_index(keys.drop_last(), p);
        if magnitude(keys.last() - p) < magnitude(keys[k] - p) {
            keys.len() - 1
        } else {
            k
        }
    }
}

/// `nearest_index` names a key at minimal distance from `p`, and no key
/// before it is as close.
pub proof fn lemma_nearest_index(keys: Seq<i64>, p: int)
    requires
        keys.len() > 0,
    ensures
        0 <= nearest_index(keys, p) < keys.len(),
        forall|j: int| 0 <= j < keys.len() ==> magnitude(keys[nearest_index(keys, p)] - p)
            <= magnitude(#[trigger] keys[j] - p),
        forall|j: int| 0 <= j < nearest_index(keys, p) ==> magnitude(#[trigger] keys[j] - p)
            > magnitude(keys[nearest_index(keys, p)] - p),
    decreases keys.len(),
{
    if keys.len() > 1 {
        let front = keys.drop_last();
        lemma_nearest_index(front, p);
        let k = nearest_index(front, p);
        assert(front[k] == keys[k]);
        assert forall|j: int| 0 <= j < keys.len() implies magnitude(
            keys[nearest_index(keys, p)] - p,
        ) <= magnitude(#[trigger] keys[j] - p) by {
            if j < front.len() {
                assert(front[j] == keys[j]);
            }
        }
        assert forall|j: int| 0 <= j < nearest_index(keys, p) implies magnitude(
            #[trigger] keys[j] - p,
        ) > magnitude(keys[nearest_index(keys, p)] - p) by {
            assert(front[j] == keys[j]);
        }
    }
}

/// A key equal to `p` is found exactly: the nearest key is then `p` itself.
pub proof fn lemma_nearest_exact(keys: Seq<i64>, p: int, j: int)
    requires
        0 <= j < keys.len(),
        keys[j] == p,
    ensures
        keys[nearest_index(keys, p)] == p,
        nearest_index(keys, p) <= j,
{
    lemma_nearest_index(keys, p);
    let k = nearest_index(keys, p);
    assert(magnitude(keys[k] - p) <= magnitude(keys[j] - p));
    if k > j {
        assert(magnitude(keys[j] - p) > magnitude(keys[k] - p));
    }
}

/// Linear scan for the position of the key closest to `p`. With `by_pixel`
/// the keys are the second components of `points`, otherwise the first.
pub fn nearest_position(p: i64, points: &[(i64, i64)], by_pixel: bool) -> (k: usize)
    requires
        points@.len() > 0,
    ensures
        k < points@.len(),
        k == nearest_index(if by_pixel { seconds(points@) } else { firsts(points@) }, p as int),
{
    let ghost keys = if by_pixel { seconds(points@) } else { firsts(points@) };
    let mut best: usize = 0;
    let mut best_distance: u64 = distance(if by_pixel { points[0].1 } else { points[0].0 }, p);
    let mut i: usize = 1;
    assert(keys.take(1).len() == 1);
    while i < points.len()
        invariant
            1 <= i <= points@.len(),
            keys == if by_pixel { seconds(points@) } else { firsts(points@) },
            best < i,
            best == nearest_index(keys.take(i as int), p as int),
            best_distance == magnitude(keys[best as int] - p),
        decreases points@.len() - i,
    {
        proof {
            assert(keys.take(i + 1).drop_last() =~= keys.take(i as int));
            assert(keys.take(i + 1).last() == keys[i as int]);
            assert(keys.take(i + 1)[best as int] == keys[best as int]);
        }
        let d = distance(if by_pixel { points[i].1 } else { points[i].0 }, p);
        if d < best_distance {
            best = i;
            best_distance = d;
        }
        i += 1;
    }
    proof {
        assert(keys.take(i as int) =~= keys);
    }
    best
}

/// `xs` repeated `times` times, one copy after the other.
fn repeat(xs: &[i64], times: usize) -> (cells: Vec<i64>)
    requires
        xs@.len() * times <= usize::MAX,
    ensures
        cells@.len() == xs@.len() * times,
        forall|k: int| 0 <= k < cells@.len() ==> #[trigger] cells@[k] == xs@[k % (xs@.len() as int)],
{
    let n = xs.len();
    let mut cells: Vec<i64> = Vec::new();
    let mut round: usize = 0;
    while round < times
        invariant
            n == xs@.len(),
            round <= times,
            n * times <= usize::MAX,
            cells@.len() == n * round,
            forall|k: int| 0 <= k < cells@.len() ==> #[trigger] cells@[k] == xs@[k % (n as int)],
        decreases times - round,
    {
        let mut a: usize = 0;
        while a < n
            invariant
                n == xs@.len(),
                round < times,
                a <= n,
                n * times <= usize::MAX,
                cells@.len() == n * round + a,
                forall|k: int| 0 <= k < cells@.len() ==> #[trigger] cells@[k] == xs@[k % (n as int)],
            decreases n - a,
        {
            proof {
                assert(n * round == round * n) by (nonlinear_arith);
                lemma_fundamental_div_mod_converse(n * round + a, n as int, round as int, a as int);
            }
            cells.push(xs[a]);
            a += 1;
        }
        proof {
            assert(n * round + n == n * (round + 1)) by (nonlinear_arith);
        }
        round += 1;
    }
    cells
}

/// The two coordinate grids of the rectangle spanned by `x` and `y`: both have
/// one row per element of `y` and one column per element of `x`; the first
/// holds `x[j]` in column `j`, the second `y[i]` in row `i`.
pub fn meshgrid(x: &[i64], y: &[i64]) -> (grids: (Mesh, Mesh))
    requires
        x@.len() * y@.len() <= usize::MAX,
    ensures
        mesh_shape(grids.0) == (y@.len(), x@.len()),
        mesh_shape(grids.1) == (y@.len(), x@.len()),
        grids.0.wf(),
        grids.1.wf(),
        forall|i: int, j: int| 0 <= i < y@.len() && 0 <= j < x@.len() ==> #[trigger] grids.0.at(i, j)
            == x@[j],
        forall|i: int, j: int| 0 <= i < y@.len() && 0 <= j < x@.len() ==> #[trigger] grids.1.at(i, j)
            == y@[i],
{
    let rows = y.len();
    let cols = x.len();
    assert(rows * cols == cols * rows) by (nonlinear_arith);
    let by_rows = Mesh::build(cols, rows, repeat(x, rows));
    let x_grid = by_rows.transpose();
    let y_grid = Mesh::build(rows, cols, repeat(y, cols));
    proof {
        assert forall|i: int, j: int| 0 <= i < rows && 0 <= j < cols implies #[trigger] x_grid.at(i, j)
            == x@[j] by {
            assert(by_rows.at(j, i) == x_grid.at(i, j));
            assert(0 <= i * cols + j < rows * cols) by (nonlinear_arith)
                requires 0 <= i < rows, 0 <= j < cols;
            lemma_fundamental_div_mod_converse(i * cols + j, cols as int, i, j);
        }
        assert forall|i: int, j: int| 0 <= i < rows && 0 <= j < cols implies #[trigger] y_grid.at(i, j)
            == y@[i] by {
            assert(0 <= j * rows + i < rows * cols) by (nonlinear_arith)
                requires 0 <= i < rows, 0 <= j < cols;
            lemma_fundamental_div_mod_converse(j * rows + i, rows as int, j, i);
        }
    }
    (x_grid, y_grid)
}

/// The world's up direction.
pub open spec fn world_up() -> Vector3 {
    Vector3 { x: 0, y: ONE, z: 0 }
}

/// The reference direction used where the view direction is vertical.
pub open spec fn world_depth() -> Vector3 {
    Vector3 { x: 0, y: 0, z: ONE }
}

/// Whether a camera at `pos` can look at `target`: no component of
/// `target - pos` exceeds [`NORM_LIMIT`].
pub open spec fn separable(pos: Vector3, target: Vector3) -> bool {
    &&& -NORM_LIMIT <= target.x - pos.x <= NORM_LIMIT
    &&& -NORM_LIMIT <= target.y - pos.y <= NORM_LIMIT
    &&& -NORM_LIMIT <= target.z - pos.z <= NORM_LIMIT
}

/// The vector from `from` to `to`.
pub open spec fn offset(from: Vector3, to: Vector3) -> Vector3 {
    Vector3 { x: (to.x - from.x) as i64, y: (to.y - from.y) as i64, z: (to.z - from.z) as i64 }
}

/// The unit direction from `pos` toward `target`; the depth axis where the
/// two coincide.
pub open spec fn forward_axis(pos: Vector3, target: Vector3) -> Vector3 {
    if is_zero(offset(pos, target)) {
        world_depth()
    } else {
        unit(offset(pos, target))
    }
}

/// The unit direction perpendicular to `forward` and to the world's up
/// direction; where `forward` is itself vertical, the depth axis takes the
/// place of the up direction.
pub open spec fn right_axis(forward: Vector3) -> Vector3 {
    if forward.x == 0 && forward.z == 0 {
        unit(cross_vector(forward, world_depth()))
    } else {
        unit(cross_vector(forward, world_up()))
    }
}

/// The camera's own up direction, perpendicular to the other two axes.
pub open spec fn up_axis(right: Vector3, forward: Vector3) -> Vector3 {
    unit(cross_vector(right, forward))
}

/// The axes of a camera at `pos` that looks at `target`.
pub open spec fn camera_of(pos: Vector3, target: Vector3) -> Matrix3 {
    let forward = forward_axis(pos, target);
    let right = right_axis(forward);
    Matrix3 { right, up: up_axis(right, forward), forward }
}

/// A view transform: a rotation into the camera's axes together with the
/// translation that puts the camera at the origin.
#[derive(Debug, Clone, Copy, PartialEq, Eq, Structural)]
pub struct Viewpoint {
    /// The camera's axes.
    pub axes: Matrix3,
    /// Where the camera stands.
    pub eye: Vector3,
}

impl Viewpoint {
    /// Whether the view can take `p`: no component of `p` is farther than
    /// [`COORD_LIMIT`] from the camera.
    pub open spec fn sees(&self, p: Vector3) -> bool {
        &&& -COORD_LIMIT <= p.x - self.eye.x <= COORD_LIMIT
        &&& -COORD_LIMIT <= p.y - self.eye.y <= COORD_LIMIT
        &&& -COORD_LIMIT <= p.z - self.eye.z <= COORD_LIMIT
    }

    /// The component of `p`, seen from the camera, along the camera's right
    /// axis: the horizontal screen coordinate.
    pub open spec fn horizontal(&self, p: Vector3) -> int {
        dot(self.axes.right, offset(self.eye, p)) / (ONE as int)
    }

    /// The component of `p`, seen from the camera, along the camera's up
    /// axis.
    pub open spec fn upward(&self, p: Vector3) -> int {
        dot(self.axes.up, offset(self.eye, p)) / (ONE as int)
    }

    /// The component of `p`, seen from the camera, along the camera's forward
    /// axis: the vertical screen coordinate.
    pub open spec fn vertical(&self, p: Vector3) -> int {
        dot(self.axes.forward, offset(self.eye, p)) / (ONE as int)
    }
}

/// The view of a camera at `pos` that looks at `target`.
pub open spec fn view_of(pos: Vector3, target: Vector3) -> Viewpoint {
    Viewpoint { axes: camera_of(pos, target), eye: pos }
}

/// A camera sees its own position at the origin of its axes, and so on the
/// view axis: whatever the axes, all three components vanish.
pub proof fn lemma_eye_on_view_axis(view: Viewpoint)
    ensures
        view.horizontal(view.eye) == 0,
        view.upward(view.eye) == 0,
        view.vertical(view.eye) == 0,
{
    let zero = offset(view.eye, view.eye);
    assert(zero == (Vector3 { x: 0, y: 0, z: 0 }));
    assert(dot(view.axes.right, zero) == 0) by (nonlinear_arith)
        requires zero.x == 0 && zero.y == 0 && zero.z == 0;
    assert(dot(view.axes.up, zero) == 0) by (nonlinear_arith)
        requires zero.x == 0 && zero.y == 0 && zero.z == 0;
    assert(dot(view.axes.forward, zero) == 0) by (nonlinear_arith)
        requires zero.x == 0 && zero.y == 0 && zero.z == 0;
    assert(0int / (ONE as int) == 0);
}

/// The three axes of a camera are unit vectors, perpendicular to one another
/// as far as the resolution allows, and the right axis is level. This holds
/// wherever the camera stands, also straight above or below its target.
pub proof fn lemma_camera_orthonormal(pos: Vector3, target: Vector3)
    requires
        separable(pos, target),
    ensures
        camera_of(pos, target).orthonormal(),
        camera_of(pos, target).within(ONE as int),
        camera_of(pos, target).right.y == 0,
{
    let d = offset(pos, target);
    let f = forward_axis(pos, target);
    let k = ONE * ONE;
    assert(k == 1_000_000_000_000) by (nonlinear_arith)
        requires k == ONE * ONE, ONE == 1_000_000;
    if is_zero(d) {
        assert(dot(f, f) == k) by (nonlinear_arith)
            requires f.x == 0, f.y == 0, f.z == ONE, k == ONE * ONE;
    } else {
        lemma_unit_components(d);
        lemma_unit_length(d);
    }
    assert(f.within(ONE as int) && nearly_unit(f));
    assert(!is_zero(f)) by {
        if is_zero(f) {
            assert(dot(f, f) == 0) by (nonlinear_arith)
                requires f.x == 0 && f.y == 0 && f.z == 0;
        }
    }
    let e = if f.x == 0 && f.z == 0 { world_depth() } else { world_up() };
    let c1 = cross_vector(f, e);
    lemma_cross_orthogonal(f, e);
    assert(c1.y == 0 && !is_zero(c1)) by {
        if f.x == 0 && f.z == 0 {
            assert(f.z * 0 == 0 && f.x * ONE == 0);
            assert(f.y * ONE != 0) by (nonlinear_arith)
                requires f.y != 0, ONE == 1_000_000;
            assert(f.z * 0 == 0);
        } else {
            assert(f.z * 0 == 0 && f.x * 0 == 0 && f.y * 0 == 0);
            assert(f.z * ONE != 0 || f.x * ONE != 0) by (nonlinear_arith)
                requires f.z != 0 || f.x != 0, ONE == 1_000_000;
        }
    }
    let r = unit(c1);
    assert(r == right_axis(f));
    lemma_unit_components(c1);
    lemma_unit_length(c1);
    lemma_unit_stays_orthogonal(c1, f);
    assert(r.y == 0) by {
        assert(c1.y * k == 0) by (nonlinear_arith)
            requires c1.y == 0;
        assert(0int / fine_length(c1) == 0);
    }
    let c2 = cross_vector(r, f);
    lemma_cross_orthogonal(r, f);
    lemma_cross_length(r, f);
    assert(!is_zero(c2)) by {
        let rr = dot(r, r);
        let ff = dot(f, f);
        let rf = dot(r, f);
        assert(rr * ff - rf * rf > 0) by (nonlinear_arith)
            requires
                rr >= 999_991_000_000,
                ff >= 999_991_000_000,
                -3_000_000 <= rf <= 3_000_000,
        ;
        if is_zero(c2) {
            assert(dot(c2, c2) == 0) by (nonlinear_arith)
                requires c2.x == 0 && c2.y == 0 && c2.z == 0;
        }
    }
    let u = unit(c2);
    assert(u == up_axis(r, f));
    lemma_unit_components(c2);
    lemma_unit_length(c2);
    lemma_unit_stays_orthogonal(c2, r);
    lemma_unit_stays_orthogonal(c2, f);
    assert(dot(r, u) == dot(u, r)) by (nonlinear_arith);
}

/// A camera looks straight at its target: seen from the camera, the target
/// has no component along the right or the up axis beyond six millionths of
/// its distance, and its component along the forward axis is that distance to
/// within eleven millionths. The three statements compare the dot products
/// with the fine length of the way to the target, both scaled so that no
/// division is needed.
pub proof fn lemma_target_on_view_axis(pos: Vector3, target: Vector3)
    requires
        separable(pos, target),
        !is_zero(offset(pos, target)),
    ensures
        magnitude((ONE * ONE) * dot(camera_of(pos, target).right, offset(pos, target))) <= 6 * (
        fine_length(offset(pos, target)) * ONE),
        magnitude((ONE * ONE) * dot(camera_of(pos, target).up, offset(pos, target))) <= 6 * (
        fine_length(offset(pos, target)) * ONE),
        magnitude(
            (ONE * ONE) * dot(camera_of(pos, target).forward, offset(pos, target)) - fine_length(
                offset(pos, target),
            ) * (ONE * ONE),
        ) <= fine_length(offset(pos, target)) * (UNIT_SLACK + 3 * ONE),
{
    lemma_camera_orthonormal(pos, target);
    let d = offset(pos, target);
    let axes = camera_of(pos, target);
    let f = axes.forward;
    assert(f == unit(d));
    let r = fine_length(d);
    lemma_unit_components(d);
    lemma_unit_scales_back(d, axes.right);
    lemma_unit_scales_back(d, axes.up);
    lemma_unit_scales_back(d, f);
    assert(-(r * (3 * ONE)) <= r * dot(axes.right, f) <= r * (3 * ONE)) by (nonlinear_arith)
        requires -(3 * ONE) <= dot(axes.right, f) <= 3 * ONE, r >= 0;
    assert(-(r * (3 * ONE)) <= r * dot(axes.up, f) <= r * (3 * ONE)) by (nonlinear_arith)
        requires -(3 * ONE) <= dot(axes.up, f) <= 3 * ONE, r >= 0;
    assert(r * (3 * ONE) == 3 * (r * ONE)) by (nonlinear_arith);
    let k = ONE * ONE;
    assert(r * (k - UNIT_SLACK) <= r * dot(f, f) <= r * (k + UNIT_SLACK)) by (nonlinear_arith)
        requires k - UNIT_SLACK <= dot(f, f) <= k + UNIT_SLACK, r >= 0;
    assert(r * (k - UNIT_SLACK) == r * k - r * UNIT_SLACK && r * (k + UNIT_SLACK) == r * k + r
        * UNIT_SLACK && r * (UNIT_SLACK + 3 * ONE) == r * UNIT_SLACK + 3 * (r * ONE))
        by (nonlinear_arith);
}

/// The cross product of two vectors whose components are at most [`ONE`].
fn cross_units(a: Vector3, b: Vector3) -> (c: Vector3)
    requires
        a.within(ONE as int),
        b.within(ONE as int),
    ensures
        c == cross_vector(a, b),
        c.within(NORM_LIMIT as int),
{
    proof {
        lemma_cross_orthogonal(a, b);
    }
    cross(a, b)
}

/// Builds the view of a camera at `pos` that looks at `target`: a rotation
/// into the camera's right, up and forward axes, each of length [`ONE`],
/// together with the translation that puts `pos` at the origin. A vertical
/// view direction, for which the world's up direction gives no right axis,
/// takes the depth axis as reference instead.
pub fn create_camera(pos: &Vector3, target: &Vector3) -> (view: Viewpoint)
    requires
        separable(*pos, *target),
    ensures
        view == view_of(*pos, *target),
        view.axes.within(ONE as int),
        view.axes.orthonormal(),
        view.axes.right.y == 0,
{
    proof {
        lemma_camera_orthonormal(*pos, *target);
    }
    let d = Vector3 { x: target.x - pos.x, y: target.y - pos.y, z: target.z - pos.z };
    let forward = if d.x == 0 && d.y == 0 && d.z == 0 {
        Vector3 { x: 0, y: 0, z: ONE }
    } else {
        normalize(&d)
    };
    let reference = if forward.x == 0 && forward.z == 0 {
        Vector3 { x: 0, y: 0, z: ONE }
    } else {
        Vector3 { x: 0, y: ONE, z: 0 }
    };
    let right = normalize(&cross_units(forward, reference));
    let up = normalize(&cross_units(right, forward));
    Viewpoint { axes: Matrix3 { right, up, forward }, eye: *pos }
}

/// Applies the view to `point` and keeps the screen coordinates: the
/// component along the camera's right axis is the horizontal one, the
/// component along its forward axis the vertical one. Both are scaled back by
/// [`ONE`], rounded toward negative infinity.
pub fn project(view: &Viewpoint, point: &Vector3) -> (screen: [i64; 2])
    requires
        view.axes.within(ONE as int),
        view.sees(*point),
    ensures
        screen@[0] == view.horizontal(*point),
        screen@[1] == view.vertical(*point),
        -3 * COORD_LIMIT <= screen@[0] <= 3 * COORD_LIMIT,
        -3 * COORD_LIMIT <= screen@[1] <= 3 * COORD_LIMIT,
{
    let q = Vector3 {
        x: point.x - view.eye.x,
        y: point.y - view.eye.y,
        z: point.z - view.eye.z,
    };
    let image = transform(&view.axes, q);
    proof {
        lemma_dot_bound(view.axes.right, q);
        lemma_dot_bound(view.axes.forward, q);
        lemma_div_is_ordered(image.x as int, 3 * COORD_LIMIT * ONE, ONE as int);
        lemma_div_is_ordered(-(3 * COORD_LIMIT * ONE), image.x as int, ONE as int);
        lemma_div_is_ordered(image.z as int, 3 * COORD_LIMIT * ONE, ONE as int);
        lemma_div_is_ordered(-(3 * COORD_LIMIT * ONE), image.z as int, ONE as int);
        lemma_div_multiples_vanish(3 * COORD_LIMIT, ONE as int);
        lemma_div_multiples_vanish(-3 * COORD_LIMIT, ONE as int);
    }
    [div_floor(image.x as i128, ONE as i128) as i64, div_floor(image.z as i128, ONE as i128) as i64]
}

/// The dot product of an axis with a vector within [`COORD_LIMIT`] stays
/// within three times the product of the two bounds.
proof fn lemma_dot_bound(axis: Vector3, q: Vector3)
    requires
        axis.within(ONE as int),
        q.within(COORD_LIMIT as int),
    ensures
        -(3 * COORD_LIMIT * ONE) <= dot(axis, q) <= 3 * COORD_LIMIT * ONE,
{
    assert(forall|a: int, b: int|
        -ONE <= a <= ONE && -COORD_LIMIT <= b <= COORD_LIMIT ==> -(COORD_LIMIT * ONE) <= #[trigger] (a
            * b) <= COORD_LIMIT * ONE) by (nonlinear_arith);
}

/// Projects the two endpoints of a segment.
pub fn project_line(view: &Viewpoint, p1: &Vector3, p2: &Vector3) -> (ends: [(i64, i64); 2])
    requires
        view.axes.within(ONE as int),
        view.sees(*p1),
        view.sees(*p2),
    ensures
        ends@[0] == (view.horizontal(*p1) as i64, view.vertical(*p1) as i64),
        ends@[1] == (view.horizontal(*p2) as i64, view.vertical(*p2) as i64),
{
    let a = project(view, p1);
    let b = project(view, p2);
    [(a[0], a[1]), (b[0], b[1])]
}

/// An angle, held by its sine and its cosine, each scaled to [`ONE`].
#[derive(Debug, Clone, Copy, PartialEq, Eq, Structural)]
pub struct Angle {
    pub sin: i64,
    pub cos: i64,
}

impl Angle {
    /// Sine and cosine have magnitude at most [`ONE`].
    pub open spec fn wf(&self) -> bool {
        -ONE <= self.sin <= ONE && -ONE <= self.cos <= ONE
    }

    /// Executable test for [`Angle::wf`].
    pub fn is_wf(&self) -> (b: bool)
        ensures
            b == self.wf(),
    {
        -ONE <= self.sin && self.sin <= ONE && -ONE <= self.cos && self.cos <= ONE
    }
}

/// Half a turn, in radians.
pub const PI: i64 = 3_141_593;

/// `r * a * b`, scaled back twice.
pub open spec fn scaled_twice(r: int, a: int, b: int) -> int {
    (r * a * b) / (ONE as int * ONE as int)
}

/// The point at distance `r` from the origin whose polar angle against the
/// `y` axis is `theta` and whose azimuth, measured from `x` toward `-z`, is
/// `phi`.
pub open spec fn polar_point(r: i64, theta: Angle, phi: Angle) -> Vector3 {
    Vector3 {
        x: scaled_twice(r as int, theta.sin as int, phi.cos as int) as i64,
        y: ((r * theta.cos) / (ONE as int)) as i64,
        z: scaled_twice(-r, theta.sin as int, phi.sin as int) as i64,
    }
}

/// A scalar times two factors of magnitude at most [`ONE`], scaled back
/// twice, is no larger than the scalar.
pub proof fn lemma_scaled_twice_bound(r: int, a: int, b: int)
    requires
        -ONE <= a <= ONE,
        -ONE <= b <= ONE,
    ensures
        -magnitude(r) <= scaled_twice(r, a, b) <= magnitude(r),
        -magnitude(r) * (ONE * ONE) <= r * a * b <= magnitude(r) * (ONE * ONE),
{
    let m = magnitude(r);
    let unit = ONE as int * ONE as int;
    assert(-unit <= a * b <= unit) by (nonlinear_arith)
        requires -1_000_000 <= a <= 1_000_000, -1_000_000 <= b <= 1_000_000, unit == 1_000_000_000_000;
    assert(r * a * b == r * (a * b)) by (nonlinear_arith);
    assert(-(m * unit) <= r * (a * b) <= m * unit) by (nonlinear_arith)
        requires -unit <= a * b <= unit, -m <= r <= m, unit > 0;
    lemma_div_is_ordered(r * a * b, m * unit, unit);
    lemma_div_is_ordered(-(m * unit), r * a * b, unit);
    lemma_div_multiples_vanish(m, unit);
    lemma_div_multiples_vanish(-m, unit);
    assert(unit * m == m * unit && unit * (-m) == -(m * unit)) by (nonlinear_arith);
}

/// `r * a * b`, scaled back twice, for factors of magnitude at most [`ONE`].
fn scale_twice(r: i128, a: i64, b: i64) -> (p: i64)
    requires
        -0x7fff_ffff_ffff_ffff <= r <= 0x7fff_ffff_ffff_ffff,
        -ONE <= a <= ONE,
        -ONE <= b <= ONE,
    ensures
        p == scaled_twice(r as int, a as int, b as int),
{
    proof {
        lemma_scaled_twice_bound(r as int, a as int, b as int);
        assert(r * a * b == r * (a * b)) by (nonlinear_arith);
    }
    assert(-1_000_000_000_000 <= a * b <= 1_000_000_000_000) by (nonlinear_arith)
        requires -1_000_000 <= a <= 1_000_000, -1_000_000 <= b <= 1_000_000;
    let factor: i128 = a as i128 * b as i128;
    assert(-0x8000_0000_0000_0000 * 1_000_000_000_000 <= r * factor <= 0x8000_0000_0000_0000
        * 1_000_000_000_000) by (nonlinear_arith)
        requires
            -0x8000_0000_0000_0000 <= r <= 0x8000_0000_0000_0000,
            -1_000_000_000_000 <= factor <= 1_000_000_000_000,
    ;
    div_floor(r * factor, ONE as i128 * ONE as i128) as i64
}

/// Converts polar coordinates to Cartesian ones; the angles come as sines and
/// cosines. Each component is rounded toward negative infinity.
pub fn polar_to_cartesian(r: i64, theta: &Angle, phi: &Angle) -> (coords: Vector3)
    requires
        theta.wf(),
        phi.wf(),
        r > i64::MIN,
    ensures
        coords == polar_point(r, *theta, *phi),
{
    proof {
        lemma_scaled_twice_bound(r as int, theta.sin as int, phi.cos as int);
        lemma_scaled_twice_bound(-r, theta.sin as int, phi.sin as int);
        assert(-ONE * magnitude(r as int) <= r * theta.cos <= ONE * magnitude(r as int))
            by (nonlinear_arith)
            requires -ONE <= theta.cos <= ONE;
        lemma_div_is_ordered(r * theta.cos, magnitude(r as int) * ONE, ONE as int);
        lemma_div_is_ordered(-(magnitude(r as int) * ONE), r * theta.cos, ONE as int);
        lemma_div_multiples_vanish(magnitude(r as int), ONE as int);
        lemma_div_multiples_vanish(-magnitude(r as int), ONE as int);
        assert(ONE * magnitude(r as int) == magnitude(r as int) * ONE && ONE * (-magnitude(r as int))
            == -(magnitude(r as int) * ONE)) by (nonlinear_arith);
    }
    assert(-0x8000_0000_0000_0000 * 1_000_000 <= r * theta.cos <= 0x8000_0000_0000_0000 * 1_000_000)
        by (nonlinear_arith)
        requires -0x8000_0000_0000_0000 <= r <= 0x8000_0000_0000_0000, -1_000_000 <= theta.cos <= 1_000_000;
    Vector3 {
        x: scale_twice(r as i128, theta.sin, phi.cos),
        y: div_floor(r as i128 * theta.cos as i128, ONE as i128) as i64,
        z: scale_twice(-(r as i128), theta.sin, phi.sin),
    }
}

/// The canonical form of a pair of polar angle and azimuth, in radians: a
/// polar angle beyond half a turn is brought back by half a turn, a negative
/// one is mirrored, and either way the azimuth moves on by half a turn.
pub open spec fn canonical(theta: i64, phi: i64) -> (i64, i64) {
    if theta > PI {
        ((theta - PI) as i64, clamped(phi + PI, i64::MIN as int, i64::MAX as int) as i64)
    } else if theta < 0 {
        (
            clamped(-theta, i64::MIN as int, i64::MAX as int) as i64,
            clamped(phi + PI, i64::MIN as int, i64::MAX as int) as i64,
        )
    } else {
        (theta, phi)
    }
}

/// Executable form of [`canonical`].
pub fn canonical_angles(theta: i64, phi: i64) -> (angles: (i64, i64))
    ensures
        angles == canonical(theta, phi),
{
    let moved = if phi > i64::MAX - PI {
        i64::MAX
    } else {
        phi + PI
    };
    if theta > PI {
        (theta - PI, moved)
    } else if theta < 0 {
        (
            if theta == i64::MIN {
                i64::MAX
            } else {
                -theta
            },
            moved,
        )
    } else {
        (theta, phi)
    }
}

/// The polar coordinates of `points`: the distance from the origin, as far as
/// a scalar can hold it, and the canonical form of the two angles. The angles
/// themselves are the arc cosine of `y / r` and the arc tangent of `-z` over
/// `x`, in radians: the caller computes them and hands them in.
pub fn cartesian_to_polar(points: &Vector3, theta: i64, phi: i64) -> (polar: (i64, i64, i64))
    ensures
        polar.0 == clamped(length(*points), 0, i64::MAX as int),
        (polar.1, polar.2) == canonical(theta, phi),
{
    let r = norm(points);
    proof {
        crate::vector::lemma_component_below_length(*points);
    }
    let angles = canonical_angles(theta, phi);
    (
        if r > i64::MAX as u64 {
            i64::MAX
        } else {
            r as i64
        },
        angles.0,
        angles.1,
    )
}

/// The pixel value that `window` gives to the data value closest to `v`.
pub open spec fn pixel(window: Seq<(i64, i64)>, v: int) -> i64 {
    window[nearest_index(firsts(window), v)].1
}

/// The coordinate window of `steps + 1` entries that lets the data values of
/// `[lo, hi]` correspond to the pixel values of `[p0, p1]`, index by index.
pub open spec fn window(lo: int, hi: int, p0: int, p1: int, steps: int) -> Seq<(i64, i64)> {
    Seq::new(
        (steps + 1) as nat,
        |i: int| (sample(lo, hi, steps, i) as i64, sample(p0, p1, steps, i) as i64),
    )
}

/// Whatever is looked up in a window lands between the two ends of its pixel
/// interval.
pub proof fn lemma_pixel_within(lo: int, hi: int, p0: int, p1: int, steps: int, v: int)
    requires
        steps >= 0,
        i64::MIN <= p0 <= i64::MAX,
        i64::MIN <= p1 <= i64::MAX,
    ensures
        p0 <= p1 ==> p0 <= pixel(window(lo, hi, p0, p1, steps), v) <= p1,
        p0 >= p1 ==> p1 <= pixel(window(lo, hi, p0, p1, steps), v) <= p0,
{
    let w = window(lo, hi, p0, p1, steps);
    lemma_nearest_index(firsts(w), v);
    let k = nearest_index(firsts(w), v);
    crate::plot::lemma_sample_bounds(p0, p1, steps, k);
}

/// Over limits that lie symmetric about zero, a window of an even number of
/// steps, none of them shorter than a raw unit, places the data value zero on
/// the middle of its pixel interval.
pub proof fn lemma_zero_at_centre(a: int, p0: int, p1: int, half: int)
    requires
        0 < half <= a <= i64::MAX,
        i64::MIN <= p0 <= i64::MAX,
        i64::MIN <= p1 <= i64::MAX,
    ensures
        pixel(window(-a, a, p0, p1, 2 * half), 0) == p0 + (p1 - p0) / 2,
{
    let n = 2 * half;
    let w = window(-a, a, p0, p1, n);
    let keys = firsts(w);
    assert(sample(-a, a, n, half) == 0) by {
        assert(half * (a - (-a)) == a * n) by (nonlinear_arith)
            requires n == 2 * half;
        lemma_div_multiples_vanish(a, n);
        assert(n * a == a * n) by (nonlinear_arith);
    }
    assert(keys[half] == 0);
    lemma_nearest_exact(keys, 0, half);
    let k = nearest_index(keys, 0);
    lemma_nearest_index(keys, 0);
    crate::plot::lemma_sample_bounds(-a, a, n, k);
    if k < half {
        crate::plot::lemma_sample_strictly_monotone(-a, a, n, k, half);
    }
    assert(k == half);
    let d = p1 - p0;
    assert((half * d) / n == d / 2) by {
        let q = d / 2;
        let r = d % 2;
        vstd::arithmetic::div_mod::lemma_fundamental_div_mod(d, 2);
        assert(half * d == q * n + half * r) by (nonlinear_arith)
            requires d == 2 * q + r, n == 2 * half;
        assert(0 <= half * r < n) by (nonlinear_arith)
            requires 0 <= r < 2, half > 0, n == 2 * half;
        lemma_fundamental_div_mod_converse(half * d, n, q, half * r);
    }
    crate::plot::lemma_sample_bounds(p0, p1, n, half);
}

/// Builds the window of [`window`].
pub fn make_window(lo: i64, hi: i64, p0: i64, p1: i64, steps: usize) -> (entries: Vec<(i64, i64)>)
    requires
        steps < usize::MAX,
    ensures
        entries@ == window(lo as int, hi as int, p0 as int, p1 as int, steps as int),
        entries@.len() == steps + 1,
{
    let grid = Linspace::linspace(lo, hi, steps);
    let entries = map_points(grid.as_slice(), (p0, p1));
    proof {
        assert(entries@ =~= window(lo as int, hi as int, p0 as int, p1 as int, steps as int));
    }
    entries
}

/// The number of whole tick distances between `lo` and `hi`; zero where the
/// interval or the distance is not positive.
pub open spec fn tick_count(lo: int, hi: int, spacing: int) -> int {
    if spacing > 0 && hi > lo {
        let whole = (hi - lo) / spacing;
        if whole >= usize::MAX {
            usize::MAX - 1
        } else {
            whole
        }
    } else {
        0
    }
}

/// Executable form of [`tick_count`].
pub fn count_ticks(lo: i64, hi: i64, spacing: i64) -> (n: usize)
    ensures
        n == tick_count(lo as int, hi as int, spacing as int),
        n < usize::MAX,
{
    if spacing > 0 && hi > lo {
        let whole = div_floor(hi as i128 - lo as i128, spacing as i128);
        proof {
            lemma_floor_quotient_bounds(hi - lo, spacing as int);
        }
        if whole >= usize::MAX as i128 {
            usize::MAX - 1
        } else {
            whole as usize
        }
    } else {
        0
    }
}

} // verus!
