//! The three-dimensional scene: projection of a surface plot onto the canvas
//! and the state machine that rotates the camera with the pointer.

use vstd::prelude::*;
use crate::fixed::{
    clamped, div_floor, in_range, lemma_floor_quotient_bounds, magnitude, LIMIT, ONE,
};
use crate::math::{
    count_ticks, create_camera, lemma_nearest_index, make_window, nearest_index,
    nearest_position, pixel, project, tick_count, view_of, window, Angle, Viewpoint,
};
use crate::plot::{firsts, lemma_sample_bounds, sample, seconds, Axes3D, Linspace};
use crate::plot::{Color, Plot3D, Surface3D};
use crate::scene::{HorizontalAlignment, Label, Point, Primitive, VerticalAlignment};
use crate::vector::{is_zero, nearly_unit, normalize, unit, Vector3};

verus! {

/// Messages of the three-dimensional window.
#[derive(Debug, Clone, Copy, PartialEq, Eq, Structural)]
pub enum Message {
    MousePressed,
    MouseReleased,
}

/// The entry of `points` whose first component is closest to `p`; among
/// equally close entries, the first.
pub fn find_point(p: i64, points: &[(i64, i64)]) -> (entry: (i64, i64))
    requires
        points@.len() > 0,
    ensures
        entry == points@[nearest_index(firsts(points@), p as int)],
        forall|j: int| 0 <= j < points@.len() ==> magnitude(entry.0 - p) <= magnitude(
            (#[trigger] points@[j]).0 - p,
        ),
        forall|j: int| 0 <= j < points@.len() && points@[j].0 == p ==> entry.0 == p,
        exists|k: int|
            0 <= k < points@.len() && entry == points@[k] && forall|j: int|
                0 <= j < k ==> magnitude((#[trigger] points@[j]).0 - p) > magnitude(entry.0 - p),
{
    proof {
        lemma_nearest_index(firsts(points@), p as int);
        let k = nearest_index(firsts(points@), p as int);
        assert forall|j: int| 0 <= j < k implies magnitude((#[trigger] points@[j]).0 - p)
            > magnitude(points@[k].0 - p) by {
            assert(firsts(points@)[j] == points@[j].0);
        }
        assert forall|j: int| 0 <= j < points@.len() implies magnitude(
            points@[nearest_index(firsts(points@), p as int)].0 - p,
        ) <= magnitude((#[trigger] points@[j]).0 - p) by {
            assert(firsts(points@)[j] == points@[j].0);
        }
    }
    points[nearest_position(p, points, false)]
}

/// The entry of `points` whose second component is closest to `p`; among
/// equally close entries, the first.
pub fn find_coord(p: i64, points: &[(i64, i64)]) -> (entry: (i64, i64))
    requires
        points@.len() > 0,
    ensures
        entry == points@[nearest_index(seconds(points@), p as int)],
        forall|j: int| 0 <= j < points@.len() ==> magnitude(entry.1 - p) <= magnitude(
            (#[trigger] points@[j]).1 - p,
        ),
        forall|j: int| 0 <= j < points@.len() && points@[j].1 == p ==> entry.1 == p,
        exists|k: int|
            0 <= k < points@.len() && entry == points@[k] && forall|j: int|
                0 <= j < k ==> magnitude((#[trigger] points@[j]).1 - p) > magnitude(entry.1 - p),
{
    proof {
        lemma_nearest_index(seconds(points@), p as int);
        let k = nearest_index(seconds(points@), p as int);
        assert forall|j: int| 0 <= j < k implies magnitude((#[trigger] points@[j]).1 - p)
            > magnitude(points@[k].1 - p) by {
            assert(seconds(points@)[j] == points@[j].1);
        }
        assert forall|j: int| 0 <= j < points@.len() implies magnitude(
            points@[nearest_index(seconds(points@), p as int)].1 - p,
        ) <= magnitude((#[trigger] points@[j]).1 - p) by {
            assert(seconds(points@)[j] == points@[j].1);
        }
    }
    points[nearest_position(p, points, true)]
}

/// A view together with the two coordinate windows of a frame, as contracts
/// see it.
pub struct Lens {
    pub view: Viewpoint,
    pub x_window: Seq<(i64, i64)>,
    pub y_window: Seq<(i64, i64)>,
}

impl Lens {
    /// Where the point `p` of space lands on the canvas: it is projected by
    /// the view, and each screen coordinate is snapped to its window.
    pub open spec fn snap(&self, p: Vector3) -> Point {
        Point {
            x: pixel(self.x_window, self.view.horizontal(p)),
            y: pixel(self.y_window, self.view.vertical(p)),
        }
    }
}

/// A view together with the two coordinate windows of a frame.
pub struct Projector {
    pub view: Viewpoint,
    pub x_window: Vec<(i64, i64)>,
    pub y_window: Vec<(i64, i64)>,
}

impl Projector {
    /// The projector as contracts see it.
    pub open spec fn lens(&self) -> Lens {
        Lens { view: self.view, x_window: self.x_window@, y_window: self.y_window@ }
    }

    /// The camera's axes are no longer than [`ONE`], the camera stands within
    /// the coordinate range, and both windows hold an entry.
    pub open spec fn wf(&self) -> bool {
        &&& self.view.axes.within(ONE as int)
        &&& self.view.eye.within(LIMIT as int)
        &&& self.x_window@.len() > 0
        &&& self.y_window@.len() > 0
    }

    /// Projects `p` and snaps it to the pixel grid.
    pub fn snap(&self, p: &Vector3) -> (at: Point)
        requires
            self.wf(),
            p.within(2 * LIMIT),
        ensures
            at == self.lens().snap(*p),
    {
        let screen = project(&self.view, p);
        Point {
            x: find_point(screen[0], self.x_window.as_slice()).1,
            y: find_point(screen[1], self.y_window.as_slice()).1,
        }
    }
}

/// The three axes of a surface plot. In space the abscissa runs along `x`,
/// the height along `y`, and the ordinate along `-z`.
#[derive(Debug, Clone, Copy, PartialEq, Eq, Structural)]
pub enum Axis {
    X,
    Y,
    Z,
}

/// The three background panels of a surface plot.
#[derive(Debug, Clone, Copy, PartialEq, Eq, Structural)]
pub enum Panel {
    /// The floor, spanned by the x and y ticks at the lowest height.
    Floor,
    /// The wall behind the surface, spanned by the x and z ticks.
    Back,
    /// The wall beside the surface, spanned by the z and y ticks.
    Side,
}

/// The number of decimals that `frac / ONE` needs from decimal `d` on, six at
/// most in all.
pub open spec fn decimals_from(frac: int, d: nat) -> nat
    decreases 6 - d,
{
    if d >= 6 || frac % (ONE as int) == 0 {
        d
    } else {
        decimals_from(frac * 10, d + 1)
    }
}

/// The number of decimals that writing `spacing` takes.
pub open spec fn decimals_of(spacing: int) -> nat {
    decimals_from(spacing % (ONE as int), 0)
}

/// Ten to the power `d`, for the six decimals that a label can have.
spec fn ten_to(d: int) -> int {
    if d <= 0 {
        1
    } else if d == 1 {
        10
    } else if d == 2 {
        100
    } else if d == 3 {
        1_000
    } else if d == 4 {
        10_000
    } else if d == 5 {
        100_000
    } else {
        1_000_000
    }
}

/// Executable form of [`decimals_of`].
pub fn count_decimals(spacing: i64) -> (d: u32)
    ensures
        d == decimals_of(spacing as int),
        d <= 6,
{
    let mut frac: i128 = match (spacing as i128).checked_rem_euclid(ONE as i128) {
        Some(r) => r,
        None => 0,
    };
    let mut d: u32 = 0;
    while d < 6 && frac % (ONE as i128) != 0
        invariant
            d <= 6,
            0 <= frac < 1_000_000 * ten_to(d as int),
            decimals_from(frac as int, d as nat) == decimals_of(spacing as int),
        decreases 6 - d,
    {
        frac = frac * 10;
        d += 1;
    }
    d
}

/// The measures of one frame of a surface plot: what the scene's geometry is
/// computed from.
#[derive(Debug, Clone, Copy)]
pub struct Layout {
    /// The limits of the abscissa.
    pub x: (i64, i64),
    /// The limits of the ordinate.
    pub y: (i64, i64),
    /// The limits of the height.
    pub z: (i64, i64),
    /// The number of tick distances on the x, y and z axis.
    pub steps: (usize, usize, usize),
    /// The largest tick distance; tick marks are half as long.
    pub spacing: i64,
    /// Whether the axes stand on the far side, as they do once the camera has
    /// turned past half a turn.
    pub flipped: bool,
    /// The number of decimals of the tick labels on the x, y and z axis.
    pub decimals: (u32, u32, u32),
}

impl Layout {
    /// All measures lie in the coordinate range.
    pub open spec fn wf(&self) -> bool {
        &&& in_range(self.x.0 as int) && in_range(self.x.1 as int)
        &&& in_range(self.y.0 as int) && in_range(self.y.1 as int)
        &&& in_range(self.z.0 as int) && in_range(self.z.1 as int)
        &&& 0 <= self.spacing <= LIMIT
    }

    /// The limits of `axis`.
    pub open spec fn limits(&self, axis: Axis) -> (i64, i64) {
        match axis {
            Axis::X => self.x,
            Axis::Y => self.y,
            Axis::Z => self.z,
        }
    }

    /// The number of tick distances on `axis`.
    pub open spec fn steps_of(&self, axis: Axis) -> usize {
        match axis {
            Axis::X => self.steps.0,
            Axis::Y => self.steps.1,
            Axis::Z => self.steps.2,
        }
    }

    /// The number of decimals of the tick labels on `axis`.
    pub open spec fn decimals_of(&self, axis: Axis) -> u32 {
        match axis {
            Axis::X => self.decimals.0,
            Axis::Y => self.decimals.1,
            Axis::Z => self.decimals.2,
        }
    }

    /// The value of tick `k` on `axis`.
    pub open spec fn tick(&self, axis: Axis, k: int) -> i64 {
        sample(
            self.limits(axis).0 as int,
            self.limits(axis).1 as int,
            self.steps_of(axis) as int,
            k,
        ) as i64
    }

    /// The ordinate along which the x axis runs.
    pub open spec fn x_anchor(&self) -> i64 {
        if self.flipped {
            self.y.1
        } else {
            self.y.0
        }
    }

    /// The ordinate at which the z axis and the back wall stand.
    pub open spec fn z_anchor(&self) -> i64 {
        if self.flipped {
            self.y.0
        } else {
            self.y.1
        }
    }

    /// `d` away from the surface: its sign turns with the axes.
    pub open spec fn outward(&self, d: int) -> int {
        if self.flipped {
            -d
        } else {
            d
        }
    }

    /// The two ends of tick mark `k` on `axis`.
    pub open spec fn dash(&self, axis: Axis, k: int) -> (Vector3, Vector3) {
        let t = self.tick(axis, k);
        let q = self.spacing / 4;
        match axis {
            Axis::X => (
                Vector3 { x: t, y: self.z.0, z: (-self.x_anchor() + self.outward(q as int)) as i64 },
                Vector3 { x: t, y: self.z.0, z: (-self.x_anchor() - self.outward(q as int)) as i64 },
            ),
            Axis::Y => (
                Vector3 { x: (self.x.0 - q) as i64, y: self.z.0, z: (-t) as i64 },
                Vector3 { x: (self.x.0 + q) as i64, y: self.z.0, z: (-t) as i64 },
            ),
            Axis::Z => (
                Vector3 { x: self.x.0, y: t, z: (-self.z_anchor() - self.outward(q as int)) as i64 },
                Vector3 { x: self.x.0, y: t, z: (-self.z_anchor() + self.outward(q as int)) as i64 },
            ),
        }
    }

    /// Where the label of tick `k` on `axis` stands.
    pub open spec fn label_at(&self, axis: Axis, k: int) -> Vector3 {
        let t = self.tick(axis, k);
        let h = self.spacing / 2;
        match axis {
            Axis::X => Vector3 {
                x: t,
                y: self.z.0,
                z: (-self.x_anchor() + self.outward(h as int)) as i64,
            },
            Axis::Y => Vector3 { x: (self.x.0 - h) as i64, y: self.z.0, z: (-t) as i64 },
            Axis::Z => Vector3 {
                x: self.x.0,
                y: t,
                z: (-self.z_anchor() - self.outward(h as int)) as i64,
            },
        }
    }

    /// The two axes whose ticks span `panel`.
    pub open spec fn spanning(panel: Panel) -> (Axis, Axis) {
        match panel {
            Panel::Floor => (Axis::X, Axis::Y),
            Panel::Back => (Axis::X, Axis::Z),
            Panel::Side => (Axis::Z, Axis::Y),
        }
    }

    /// The point of `panel` at tick `i` of its first axis and tick `j` of its
    /// second.
    pub open spec fn corner(&self, panel: Panel, i: int, j: int) -> Vector3 {
        let u = self.tick(Self::spanning(panel).0, i);
        let v = self.tick(Self::spanning(panel).1, j);
        match panel {
            Panel::Floor => Vector3 { x: u, y: self.z.0, z: (-v) as i64 },
            Panel::Back => Vector3 { x: u, y: v, z: (-self.z_anchor()) as i64 },
            Panel::Side => Vector3 { x: self.x.1, y: u, z: (-v) as i64 },
        }
    }

    /// The two ends of the line that stands for `axis`.
    pub open spec fn axis_line(&self, axis: Axis) -> (Vector3, Vector3) {
        match axis {
            Axis::X => (
                Vector3 { x: self.x.0, y: self.z.0, z: (-self.x_anchor()) as i64 },
                Vector3 { x: self.x.1, y: self.z.0, z: (-self.x_anchor()) as i64 },
            ),
            Axis::Y => (
                Vector3 { x: self.x.0, y: self.z.0, z: (-self.y.0) as i64 },
                Vector3 { x: self.x.0, y: self.z.0, z: (-self.y.1) as i64 },
            ),
            Axis::Z => (
                Vector3 { x: self.x.0, y: self.z.0, z: (-self.z_anchor()) as i64 },
                Vector3 { x: self.x.0, y: self.z.1, z: (-self.z_anchor()) as i64 },
            ),
        }
    }

    /// Where the name of `axis` stands: a little beyond its far end.
    pub open spec fn axis_label_at(&self, axis: Axis) -> Vector3 {
        match axis {
            Axis::X => Vector3 {
                x: (self.x.1 + (self.x.1 - self.x.0) / 30) as i64,
                y: self.z.0,
                z: (-self.x_anchor()) as i64,
            },
            Axis::Y => Vector3 {
                x: self.x.0,
                y: self.z.0,
                z: (-self.y.1 - (self.y.1 - self.y.0) / 10) as i64,
            },
            Axis::Z => Vector3 {
                x: self.x.0,
                y: (self.z.1 + (self.z.1 - self.z.0) / 8) as i64,
                z: (-self.z_anchor()) as i64,
            },
        }
    }
}

impl Layout {
    /// Executable form of [`Layout::limits`].
    pub fn limits_of(&self, axis: Axis) -> (lim: (i64, i64))
        ensures
            lim == self.limits(axis),
    {
        match axis {
            Axis::X => self.x,
            Axis::Y => self.y,
            Axis::Z => self.z,
        }
    }

    /// Executable form of [`Layout::steps_of`].
    pub fn step_count(&self, axis: Axis) -> (n: usize)
        ensures
            n == self.steps_of(axis),
    {
        match axis {
            Axis::X => self.steps.0,
            Axis::Y => self.steps.1,
            Axis::Z => self.steps.2,
        }
    }

    /// Executable form of [`Layout::tick`].
    pub fn tick_value(&self, axis: Axis, k: usize) -> (t: i64)
        requires
            self.wf(),
            k <= self.steps_of(axis),
        ensures
            t == self.tick(axis, k as int),
            in_range(t as int),
    {
        let lim = self.limits_of(axis);
        proof {
            lemma_sample_bounds(lim.0 as int, lim.1 as int, self.steps_of(axis) as int, k as int);
        }
        Linspace::at(lim.0, lim.1, self.step_count(axis), k)
    }

    /// `d` or `-d`, by the side on which the axes stand.
    fn turn(&self, d: i64) -> (r: i64)
        requires
            d > i64::MIN,
        ensures
            r == self.outward(d as int),
    {
        if self.flipped {
            -d
        } else {
            d
        }
    }

    /// Executable form of [`Layout::x_anchor`] and [`Layout::z_anchor`].
    fn anchors(&self) -> (at: (i64, i64))
        ensures
            at.0 == self.x_anchor(),
            at.1 == self.z_anchor(),
    {
        if self.flipped {
            (self.y.1, self.y.0)
        } else {
            (self.y.0, self.y.1)
        }
    }

    /// Executable form of [`Layout::dash`].
    pub fn dash_ends(&self, axis: Axis, k: usize) -> (ends: (Vector3, Vector3))
        requires
            self.wf(),
            k <= self.steps_of(axis),
        ensures
            ends == self.dash(axis, k as int),
            ends.0.within(2 * LIMIT),
            ends.1.within(2 * LIMIT),
    {
        let t = self.tick_value(axis, k);
        let q = self.spacing / 4;
        let (x_anchor, z_anchor) = self.anchors();
        let away = self.turn(q);
        match axis {
            Axis::X => (
                Vector3 { x: t, y: self.z.0, z: -x_anchor + away },
                Vector3 { x: t, y: self.z.0, z: -x_anchor - away },
            ),
            Axis::Y => (
                Vector3 { x: self.x.0 - q, y: self.z.0, z: -t },
                Vector3 { x: self.x.0 + q, y: self.z.0, z: -t },
            ),
            Axis::Z => (
                Vector3 { x: self.x.0, y: t, z: -z_anchor - away },
                Vector3 { x: self.x.0, y: t, z: -z_anchor + away },
            ),
        }
    }

    /// Executable form of [`Layout::label_at`].
    pub fn label_point(&self, axis: Axis, k: usize) -> (at: Vector3)
        requires
            self.wf(),
            k <= self.steps_of(axis),
        ensures
            at == self.label_at(axis, k as int),
            at.within(2 * LIMIT),
    {
        let t = self.tick_value(axis, k);
        let h = self.spacing / 2;
        let (x_anchor, z_anchor) = self.anchors();
        let away = self.turn(h);
        match axis {
            Axis::X => Vector3 { x: t, y: self.z.0, z: -x_anchor + away },
            Axis::Y => Vector3 { x: self.x.0 - h, y: self.z.0, z: -t },
            Axis::Z => Vector3 { x: self.x.0, y: t, z: -z_anchor - away },
        }
    }

    /// Executable form of [`Layout::corner`].
    pub fn corner_point(&self, panel: Panel, i: usize, j: usize) -> (at: Vector3)
        requires
            self.wf(),
            i <= self.steps_of(Self::spanning(panel).0),
            j <= self.steps_of(Self::spanning(panel).1),
        ensures
            at == self.corner(panel, i as int, j as int),
            at.within(2 * LIMIT),
    {
        let (_x_anchor, z_anchor) = self.anchors();
        match panel {
            Panel::Floor => {
                let u = self.tick_value(Axis::X, i);
                let v = self.tick_value(Axis::Y, j);
                Vector3 { x: u, y: self.z.0, z: -v }
            },
            Panel::Back => {
                let u = self.tick_value(Axis::X, i);
                let v = self.tick_value(Axis::Z, j);
                Vector3 { x: u, y: v, z: -z_anchor }
            },
            Panel::Side => {
                let u = self.tick_value(Axis::Z, i);
                let v = self.tick_value(Axis::Y, j);
                Vector3 { x: self.x.1, y: u, z: -v }
            },
        }
    }

    /// Executable form of [`Layout::axis_line`].
    pub fn axis_ends(&self, axis: Axis) -> (ends: (Vector3, Vector3))
        requires
            self.wf(),
        ensures
            ends == self.axis_line(axis),
            ends.0.within(2 * LIMIT),
            ends.1.within(2 * LIMIT),
    {
        let (x_anchor, z_anchor) = self.anchors();
        match axis {
            Axis::X => (
                Vector3 { x: self.x.0, y: self.z.0, z: -x_anchor },
                Vector3 { x: self.x.1, y: self.z.0, z: -x_anchor },
            ),
            Axis::Y => (
                Vector3 { x: self.x.0, y: self.z.0, z: -self.y.0 },
                Vector3 { x: self.x.0, y: self.z.0, z: -self.y.1 },
            ),
            Axis::Z => (
                Vector3 { x: self.x.0, y: self.z.0, z: -z_anchor },
                Vector3 { x: self.x.0, y: self.z.1, z: -z_anchor },
            ),
        }
    }

    /// The length of an axis divided by `parts`, rounded toward negative
    /// infinity.
    fn fraction(lim: (i64, i64), parts: i64) -> (r: i64)
        requires
            in_range(lim.0 as int) && in_range(lim.1 as int),
            parts > 0,
        ensures
            r == (lim.1 - lim.0) / (parts as int),
            -2 * LIMIT <= r <= 2 * LIMIT,
    {
        proof {
            lemma_floor_quotient_bounds(lim.1 - lim.0, parts as int);
        }
        div_floor(lim.1 as i128 - lim.0 as i128, parts as i128) as i64
    }

    /// Executable form of [`Layout::axis_label_at`].
    pub fn axis_label_point(&self, axis: Axis) -> (at: Vector3)
        requires
            self.wf(),
        ensures
            at == self.axis_label_at(axis),
            at.within(2 * LIMIT),
    {
        let (x_anchor, z_anchor) = self.anchors();
        match axis {
            Axis::X => Vector3 {
                x: self.x.1 + Self::fraction(self.x, 30),
                y: self.z.0,
                z: -x_anchor,
            },
            Axis::Y => Vector3 {
                x: self.x.0,
                y: self.z.0,
                z: -self.y.1 - Self::fraction(self.y, 10),
            },
            Axis::Z => Vector3 {
                x: self.x.0,
                y: self.z.1 + Self::fraction(self.z, 8),
                z: -z_anchor,
            },
        }
    }
}

/// The colour of axes, tick marks and outlines.
pub open spec fn ink() -> Color {
    Color(0, 0, 0, ONE)
}

/// The fill of the background panels.
pub open spec fn panel_fill() -> Color {
    Color(990_000, 990_000, 990_000, ONE)
}

/// The outline of the background panels.
pub open spec fn panel_stroke() -> Color {
    Color(400_000, 400_000, 400_000, ONE)
}

/// The width of every stroke: two pixels.
pub open spec fn stroke_width() -> i64 {
    2_000_000
}

/// The mark of tick `k` on `axis`.
pub open spec fn tick_mark(lens: Lens, layout: Layout, axis: Axis, k: int) -> Primitive {
    Primitive::Line {
        from: lens.snap(layout.dash(axis, k).0),
        to: lens.snap(layout.dash(axis, k).1),
        color: ink(),
        width: stroke_width(),
    }
}

/// The label of tick `k` on `axis`: its value, centred below the x axis and
/// left-aligned beside the others.
pub open spec fn tick_label(lens: Lens, layout: Layout, axis: Axis, k: int) -> Primitive {
    Primitive::Text {
        position: lens.snap(layout.label_at(axis, k)),
        label: Label::Number { value: layout.tick(axis, k), decimals: layout.decimals_of(axis) },
        size: 16_000_000,
        horizontal: if axis == Axis::X {
            HorizontalAlignment::Center
        } else {
            HorizontalAlignment::Left
        },
        vertical: VerticalAlignment::Top,
    }
}

/// The marks and labels of the first `count` ticks on `axis`, tick by tick.
pub open spec fn ticks(lens: Lens, layout: Layout, axis: Axis, count: int) -> Seq<Primitive>
    decreases count,
{
    if count <= 0 {
        Seq::empty()
    } else {
        ticks(lens, layout, axis, count - 1) + seq![
            tick_mark(lens, layout, axis, count - 1),
            tick_label(lens, layout, axis, count - 1),
        ]
    }
}

/// The cell of `panel` between ticks `i` and `i + 1` of its first axis and
/// ticks `j` and `j + 1` of its second.
pub open spec fn panel_cell(lens: Lens, layout: Layout, panel: Panel, i: int, j: int) -> Primitive {
    Primitive::Quad {
        corners: (
            lens.snap(layout.corner(panel, i, j)),
            lens.snap(layout.corner(panel, i, j + 1)),
            lens.snap(layout.corner(panel, i + 1, j + 1)),
            lens.snap(layout.corner(panel, i + 1, j)),
        ),
        fill: panel_fill(),
        stroke: panel_stroke(),
        width: stroke_width(),
    }
}

/// The first `count` cells of strip `i` of `panel`.
pub open spec fn panel_strip(lens: Lens, layout: Layout, panel: Panel, i: int, count: int) -> Seq<
    Primitive,
>
    decreases count,
{
    if count <= 0 {
        Seq::empty()
    } else {
        panel_strip(lens, layout, panel, i, count - 1).push(
            panel_cell(lens, layout, panel, i, count - 1),
        )
    }
}

/// The first `count` strips of `panel`, each with all its cells.
pub open spec fn panel_strips(lens: Lens, layout: Layout, panel: Panel, count: int) -> Seq<Primitive>
    decreases count,
{
    if count <= 0 {
        Seq::empty()
    } else {
        panel_strips(lens, layout, panel, count - 1) + panel_strip(
            lens,
            layout,
            panel,
            count - 1,
            layout.steps_of(Layout::spanning(panel).1) as int,
        )
    }
}

impl Projector {
    /// Appends the marks and labels of all ticks on `axis`.
    pub fn push_ticks(&self, layout: &Layout, axis: Axis, out: &mut Vec<Primitive>)
        requires
            self.wf(),
            layout.wf(),
            layout.steps_of(axis) < usize::MAX,
        ensures
            final(out)@ == old(out)@ + ticks(self.lens(), *layout, axis, layout.steps_of(axis) + 1),
    {
        let n = layout.step_count(axis);
        let decimals = match axis {
            Axis::X => layout.decimals.0,
            Axis::Y => layout.decimals.1,
            Axis::Z => layout.decimals.2,
        };
        let mut k: usize = 0;
        proof {
            assert(out@ =~= old(out)@ + ticks(self.lens(), *layout, axis, 0));
        }
        while k <= n
            invariant
                self.wf(),
                layout.wf(),
                n == layout.steps_of(axis),
                n < usize::MAX,
                decimals == layout.decimals_of(axis),
                k <= n + 1,
                out@ == old(out)@ + ticks(self.lens(), *layout, axis, k as int),
            decreases n + 1 - k,
        {
            let ends = layout.dash_ends(axis, k);
            let at = layout.label_point(axis, k);
            let mark = Primitive::Line {
                from: self.snap(&ends.0),
                to: self.snap(&ends.1),
                color: Color::black(),
                width: 2 * ONE,
            };
            let label = Primitive::Text {
                position: self.snap(&at),
                label: Label::Number { value: layout.tick_value(axis, k), decimals },
                size: 16 * ONE,
                horizontal: match axis {
                    Axis::X => HorizontalAlignment::Center,
                    _ => HorizontalAlignment::Left,
                },
                vertical: VerticalAlignment::Top,
            };
            proof {
                assert(mark == tick_mark(self.lens(), *layout, axis, k as int));
                assert(label == tick_label(self.lens(), *layout, axis, k as int));
                assert(out@.push(mark).push(label) =~= old(out)@ + ticks(
                    self.lens(),
                    *layout,
                    axis,
                    k + 1,
                ));
            }
            out.push(mark);
            out.push(label);
            k += 1;
        }
    }

    /// Appends the cells of `panel`, strip by strip.
    pub fn push_panel(&self, layout: &Layout, panel: Panel, out: &mut Vec<Primitive>)
        requires
            self.wf(),
            layout.wf(),
            layout.steps_of(Layout::spanning(panel).0) < usize::MAX,
            layout.steps_of(Layout::spanning(panel).1) < usize::MAX,
        ensures
            final(out)@ == old(out)@ + panel_strips(
                self.lens(),
                *layout,
                panel,
                layout.steps_of(Layout::spanning(panel).0) as int,
            ),
    {
        let (first, second) = match panel {
            Panel::Floor => (Axis::X, Axis::Y),
            Panel::Back => (Axis::X, Axis::Z),
            Panel::Side => (Axis::Z, Axis::Y),
        };
        let ni = layout.step_count(first);
        let nj = layout.step_count(second);
        let mut i: usize = 0;
        proof {
            assert(out@ =~= old(out)@ + panel_strips(self.lens(), *layout, panel, 0));
        }
        while i < ni
            invariant
                self.wf(),
                layout.wf(),
                (first, second) == Layout::spanning(panel),
                ni == layout.steps_of(first),
                nj == layout.steps_of(second),
                ni < usize::MAX,
                nj < usize::MAX,
                i <= ni,
                out@ == old(out)@ + panel_strips(self.lens(), *layout, panel, i as int),
            decreases ni - i,
        {
            let ghost before = out@;
            let mut j: usize = 0;
            proof {
                assert(out@ =~= before + panel_strip(self.lens(), *layout, panel, i as int, 0));
            }
            while j < nj
                invariant
                    self.wf(),
                    layout.wf(),
                    (first, second) == Layout::spanning(panel),
                    ni == layout.steps_of(first),
                    nj == layout.steps_of(second),
                    nj < usize::MAX,
                    i < ni,
                    j <= nj,
                    out@ == before + panel_strip(self.lens(), *layout, panel, i as int, j as int),
                decreases nj - j,
            {
                let cell = Primitive::Quad {
                    corners: (
                        self.snap(&layout.corner_point(panel, i, j)),
                        self.snap(&layout.corner_point(panel, i, j + 1)),
                        self.snap(&layout.corner_point(panel, i + 1, j + 1)),
                        self.snap(&layout.corner_point(panel, i + 1, j)),
                    ),
                    fill: Color(990_000, 990_000, 990_000, ONE),
                    stroke: Color(400_000, 400_000, 400_000, ONE),
                    width: 2 * ONE,
                };
                proof {
                    assert(cell == panel_cell(self.lens(), *layout, panel, i as int, j as int));
                    assert(out@.push(cell) =~= before + panel_strip(
                        self.lens(),
                        *layout,
                        panel,
                        i as int,
                        j + 1,
                    ));
                }
                out.push(cell);
                j += 1;
            }
            proof {
                assert(out@ =~= old(out)@ + panel_strips(self.lens(), *layout, panel, i + 1));
            }
            i += 1;
        }
    }
}

/// The name of `axis`, centred on a point a little beyond the axis' far end.
pub open spec fn axis_caption(lens: Lens, layout: Layout, axis: Axis, name: String) -> Primitive {
    Primitive::Text {
        position: lens.snap(layout.axis_label_at(axis)),
        label: Label::Text(name),
        size: 20_000_000,
        horizontal: HorizontalAlignment::Center,
        vertical: VerticalAlignment::Center,
    }
}

/// The line that stands for `axis`.
pub open spec fn axis_stroke(lens: Lens, layout: Layout, axis: Axis) -> Primitive {
    Primitive::Line {
        from: lens.snap(layout.axis_line(axis).0),
        to: lens.snap(layout.axis_line(axis).1),
        color: ink(),
        width: stroke_width(),
    }
}

/// The three axis names, then the three axis lines, each in the order x, y, z.
pub open spec fn axes_marks(lens: Lens, layout: Layout, names: (String, String, String)) -> Seq<
    Primitive,
> {
    seq![
        axis_caption(lens, layout, Axis::X, names.0),
        axis_caption(lens, layout, Axis::Y, names.1),
        axis_caption(lens, layout, Axis::Z, names.2),
        axis_stroke(lens, layout, Axis::X),
        axis_stroke(lens, layout, Axis::Y),
        axis_stroke(lens, layout, Axis::Z),
    ]
}

/// The point of the surface above mesh position `(row, col)`.
pub open spec fn surface_point(s: Surface3D, row: int, col: int) -> Vector3 {
    Vector3 {
        x: s.x_data.at(row, col),
        y: s.z_data.at(row, col),
        z: (-s.y_data.at(row, col)) as i64,
    }
}

/// The fill of mesh cell `(row, col)`: its entry of the colour table, which
/// is laid out column after column, or else the surface's colour, or else
/// blue.
pub open spec fn surface_fill(s: Surface3D, row: int, col: int) -> Color {
    match s.colormap {
        Some(table) => {
            let entry = table.0@[s.z_data.rows() * col + row];
            Color(entry.0, entry.1, entry.2, ONE)
        },
        None => match s.color {
            Some(color) => color,
            None => Color(0, 0, ONE, ONE),
        },
    }
}

/// Mesh cell `(row, col)`: the quadrilateral between mesh positions
/// `(row, col)`, `(row, col + 1)`, `(row + 1, col + 1)` and `(row + 1, col)`.
pub open spec fn surface_cell(lens: Lens, s: Surface3D, row: int, col: int) -> Primitive {
    Primitive::Quad {
        corners: (
            lens.snap(surface_point(s, row, col)),
            lens.snap(surface_point(s, row, col + 1)),
            lens.snap(surface_point(s, row + 1, col + 1)),
            lens.snap(surface_point(s, row + 1, col)),
        ),
        fill: surface_fill(s, row, col),
        stroke: ink(),
        width: stroke_width(),
    }
}

/// The first `count` cells of mesh row `row`.
pub open spec fn surface_strip(lens: Lens, s: Surface3D, row: int, count: int) -> Seq<Primitive>
    decreases count,
{
    if count <= 0 {
        Seq::empty()
    } else {
        surface_strip(lens, s, row, count - 1).push(surface_cell(lens, s, row, count - 1))
    }
}

/// The cells of the first `count` mesh rows.
pub open spec fn surface_strips(lens: Lens, s: Surface3D, count: int) -> Seq<Primitive>
    decreases count,
{
    if count <= 0 {
        Seq::empty()
    } else {
        surface_strips(lens, s, count - 1) + surface_strip(
            lens,
            s,
            count - 1,
            s.z_data.cols() - 1,
        )
    }
}

/// All cells of the surface: a mesh of `rows` by `cols` positions has
/// `rows - 1` by `cols - 1` of them.
pub open spec fn surface_cells(lens: Lens, s: Surface3D) -> Seq<Primitive> {
    surface_strips(lens, s, s.z_data.rows() - 1)
}

/// A position inside a well-formed grid names one of its cells.
pub proof fn lemma_cell_index(rows: int, cols: int, i: int, j: int)
    requires
        0 <= i < rows,
        0 <= j < cols,
    ensures
        0 <= j * rows + i < rows * cols,
        rows * j + i == j * rows + i,
{
    assert(j * rows + i < rows * cols) by (nonlinear_arith)
        requires 0 <= i < rows, 0 <= j < cols;
    assert(0 <= j * rows) by (nonlinear_arith)
        requires 0 <= rows, 0 <= j;
    assert(rows * j == j * rows) by (nonlinear_arith);
}

impl Projector {
    /// Appends the names and the lines of the three axes.
    pub fn push_axes(
        &self,
        layout: &Layout,
        names: (&String, &String, &String),
        out: &mut Vec<Primitive>,
    )
        requires
            self.wf(),
            layout.wf(),
        ensures
            final(out)@ == old(out)@ + axes_marks(
                self.lens(),
                *layout,
                (*names.0, *names.1, *names.2),
            ),
    {
        let x_caption = self.caption(layout, Axis::X, names.0);
        let y_caption = self.caption(layout, Axis::Y, names.1);
        let z_caption = self.caption(layout, Axis::Z, names.2);
        let x_stroke = self.stroke(layout, Axis::X);
        let y_stroke = self.stroke(layout, Axis::Y);
        let z_stroke = self.stroke(layout, Axis::Z);
        proof {
            assert(out@.push(x_caption).push(y_caption).push(z_caption).push(x_stroke).push(
                y_stroke,
            ).push(z_stroke) =~= old(out)@ + axes_marks(
                self.lens(),
                *layout,
                (*names.0, *names.1, *names.2),
            ));
        }
        out.push(x_caption);
        out.push(y_caption);
        out.push(z_caption);
        out.push(x_stroke);
        out.push(y_stroke);
        out.push(z_stroke);
    }

    /// The name of one axis as a text primitive.
    fn caption(&self, layout: &Layout, axis: Axis, name: &String) -> (text: Primitive)
        requires
            self.wf(),
            layout.wf(),
        ensures
            text == axis_caption(self.lens(), *layout, axis, *name),
    {
        Primitive::Text {
            position: self.snap(&layout.axis_label_point(axis)),
            label: Label::Text(name.clone()),
            size: 20 * ONE,
            horizontal: HorizontalAlignment::Center,
            vertical: VerticalAlignment::Center,
        }
    }

    /// The line of one axis.
    fn stroke(&self, layout: &Layout, axis: Axis) -> (line: Primitive)
        requires
            self.wf(),
            layout.wf(),
        ensures
            line == axis_stroke(self.lens(), *layout, axis),
    {
        let ends = layout.axis_ends(axis);
        Primitive::Line {
            from: self.snap(&ends.0),
            to: self.snap(&ends.1),
            color: Color::black(),
            width: 2 * ONE,
        }
    }

    /// The surface point above mesh position `(row, col)`, on the canvas.
    fn surface_corner(&self, s: &Surface3D, row: usize, col: usize) -> (at: Point)
        requires
            self.wf(),
            s.wf(),
            s.in_range(),
            row < s.z_data.rows(),
            col < s.z_data.cols(),
        ensures
            at == self.lens().snap(surface_point(*s, row as int, col as int)),
    {
        proof {
            lemma_cell_index(s.z_data.rows() as int, s.z_data.cols() as int, row as int, col as int);
        }
        let x = s.x_data.cell(row, col);
        let y = s.y_data.cell(row, col);
        let z = s.z_data.cell(row, col);
        self.snap(&Vector3 { x, y: z, z: -y })
    }

    /// Appends the cells of the surface, mesh row by mesh row.
    pub fn push_surface(&self, s: &Surface3D, out: &mut Vec<Primitive>)
        requires
            self.wf(),
            s.wf(),
            s.in_range(),
        ensures
            final(out)@ == old(out)@ + surface_cells(self.lens(), *s),
    {
        let (rows, cols) = s.z_data.shape();
        proof {
            assert(out@ =~= old(out)@ + surface_strips(self.lens(), *s, 0));
        }
        if rows == 0 || cols == 0 {
            proof {
                if rows > 0 {
                    lemma_empty_strips(self.lens(), *s, rows - 1);
                }
            }
            return ;
        }
        let mut row: usize = 0;
        while row < rows - 1
            invariant
                self.wf(),
                s.wf(),
                s.in_range(),
                rows == s.z_data.rows(),
                cols == s.z_data.cols(),
                rows > 0,
                cols > 0,
                row <= rows - 1,
                out@ == old(out)@ + surface_strips(self.lens(), *s, row as int),
            decreases rows - 1 - row,
        {
            let ghost before = out@;
            let mut col: usize = 0;
            proof {
                assert(out@ =~= before + surface_strip(self.lens(), *s, row as int, 0));
            }
            while col < cols - 1
                invariant
                    self.wf(),
                    s.wf(),
                    s.in_range(),
                    rows == s.z_data.rows(),
                    cols == s.z_data.cols(),
                    cols > 0,
                    row < rows - 1,
                    col <= cols - 1,
                    out@ == before + surface_strip(self.lens(), *s, row as int, col as int),
                decreases cols - 1 - col,
            {
                let fill = match &s.colormap {
                    Some(table) => {
                        let len = table.0.len();
                        proof {
                            lemma_cell_index(rows as int, cols as int, row as int, col as int);
                            assert(len == rows * cols);
                            assert(0 <= rows * col <= rows * col + row) by (nonlinear_arith)
                                requires rows >= 0, col >= 0, row >= 0;
                        }
                        let entry = table.0[rows * col + row];
                        Color(entry.0, entry.1, entry.2, ONE)
                    },
                    None => match s.color {
                        Some(color) => color,
                        None => Color(0, 0, ONE, ONE),
                    },
                };
                let cell = Primitive::Quad {
                    corners: (
                        self.surface_corner(s, row, col),
                        self.surface_corner(s, row, col + 1),
                        self.surface_corner(s, row + 1, col + 1),
                        self.surface_corner(s, row + 1, col),
                    ),
                    fill,
                    stroke: Color::black(),
                    width: 2 * ONE,
                };
                proof {
                    assert(cell == surface_cell(self.lens(), *s, row as int, col as int));
                    assert(out@.push(cell) =~= before + surface_strip(
                        self.lens(),
                        *s,
                        row as int,
                        col + 1,
                    ));
                }
                out.push(cell);
                col += 1;
            }
            proof {
                assert(out@ =~= old(out)@ + surface_strips(self.lens(), *s, row + 1));
            }
            row += 1;
        }
    }
}

/// A mesh without columns has no cells, however many rows it has.
pub proof fn lemma_empty_strips(lens: Lens, s: Surface3D, count: int)
    requires
        s.z_data.cols() == 0,
    ensures
        surface_strips(lens, s, count) =~= Seq::empty(),
    decreases count,
{
    if count > 0 {
        lemma_empty_strips(lens, s, count - 1);
    }
}

/// The number of samples of a coordinate window, less one.
pub const WINDOW_STEPS: usize = 1000;

/// The tick layout of the axes `axes`, seen with the camera turned by `yaw`.
pub open spec fn layout_of(axes: Axes3D, yaw: i64) -> Layout {
    Layout {
        x: (axes.xlim@[0], axes.xlim@[1]),
        y: (axes.ylim@[0], axes.ylim@[1]),
        z: (axes.zlim@[0], axes.zlim@[1]),
        steps: (
            tick_count(axes.xlim@[0] as int, axes.xlim@[1] as int, axes.spacing@[0] as int) as usize,
            tick_count(axes.ylim@[0] as int, axes.ylim@[1] as int, axes.spacing@[1] as int) as usize,
            tick_count(axes.zlim@[0] as int, axes.zlim@[1] as int, axes.spacing@[2] as int) as usize,
        ),
        spacing: axes.widest(),
        flipped: yaw < -180_000_000,
        decimals: (
            decimals_of(axes.spacing@[0] as int) as u32,
            decimals_of(axes.spacing@[1] as int) as u32,
            decimals_of(axes.spacing@[2] as int) as u32,
        ),
    }
}

/// Executable form of [`layout_of`].
pub fn make_layout(axes: &Axes3D, yaw: i64) -> (layout: Layout)
    ensures
        layout == layout_of(*axes, yaw),
        layout.steps.0 < usize::MAX && layout.steps.1 < usize::MAX && layout.steps.2 < usize::MAX,
{
    let xlim = axes.get_xaxes();
    let ylim = axes.get_yaxes();
    let zlim = axes.get_zaxes();
    Layout {
        x: (xlim[0], xlim[1]),
        y: (ylim[0], ylim[1]),
        z: (zlim[0], zlim[1]),
        steps: (
            count_ticks(xlim[0], xlim[1], axes.get_xspacing()),
            count_ticks(ylim[0], ylim[1], axes.get_yspacing()),
            count_ticks(zlim[0], zlim[1], axes.get_zspacing()),
        ),
        spacing: axes.get_scale(),
        flipped: yaw < -180 * ONE,
        decimals: (
            count_decimals(axes.get_xspacing()),
            count_decimals(axes.get_yspacing()),
            count_decimals(axes.get_zspacing()),
        ),
    }
}

impl Layout {
    /// The largest magnitude among the upper limits and the lowest lower
    /// limit: how far the plot reaches from the origin.
    pub open spec fn reach(&self) -> int {
        let top = if self.z.1 > self.y.1 && self.z.1 > self.x.1 {
            self.z.1
        } else if self.y.1 > self.x.1 {
            self.y.1
        } else {
            self.x.1
        };
        let bottom = if self.z.0 < self.y.0 && self.z.0 < self.x.0 {
            self.z.0
        } else if self.y.0 < self.x.0 {
            self.y.0
        } else {
            self.x.0
        };
        if -bottom > top {
            -bottom
        } else {
            top as int
        }
    }

    /// Executable form of [`Layout::reach`].
    pub fn reach_of(&self) -> (r: i64)
        requires
            self.wf(),
        ensures
            r == self.reach(),
            -LIMIT <= r <= LIMIT,
    {
        let top = if self.z.1 > self.y.1 && self.z.1 > self.x.1 {
            self.z.1
        } else if self.y.1 > self.x.1 {
            self.y.1
        } else {
            self.x.1
        };
        let bottom = if self.z.0 < self.y.0 && self.z.0 < self.x.0 {
            self.z.0
        } else if self.y.0 < self.x.0 {
            self.y.0
        } else {
            self.x.0
        };
        if -bottom > top {
            -bottom
        } else {
            top
        }
    }
}

/// The view and the two windows of a frame of `width` by `height` pixels: the
/// camera at `camera` looks at the origin. Both windows are centred on the
/// image of the origin and cover one and a half times the plot's reach to
/// either side; they span the middle four fifths of the canvas, the vertical
/// one upside down.
pub open spec fn lens_of(layout: Layout, camera: Vector3, width: int, height: int) -> Lens {
    let half = (layout.reach() * 3) / 2;
    let origin = Vector3 { x: 0, y: 0, z: 0 };
    let view = view_of(camera, origin);
    let across = view.horizontal(origin);
    let along = view.vertical(origin);
    Lens {
        view,
        x_window: window(across - half, across + half, width / 10, (width * 9) / 10, WINDOW_STEPS as int),
        y_window: window(along - half, along + half, (height * 9) / 10, height / 10, WINDOW_STEPS as int),
    }
}

impl Projector {
    /// Builds the projector of a frame.
    pub fn new(layout: &Layout, camera: &Vector3, width: i64, height: i64) -> (projector: Projector)
        requires
            layout.wf(),
            camera.within(LIMIT as int),
            0 <= width <= LIMIT,
            0 <= height <= LIMIT,
        ensures
            projector.lens() == lens_of(*layout, *camera, width as int, height as int),
            projector.wf(),
    {
        let reach = layout.reach_of();
        proof {
            lemma_floor_quotient_bounds(reach * 3, 2);
        }
        let half = div_floor(reach as i128 * 3, 2) as i64;
        let origin = Vector3 { x: 0, y: 0, z: 0 };
        let view = create_camera(camera, &origin);
        let centre = project(&view, &origin);
        let x_window = make_window(
            centre[0] - half,
            centre[0] + half,
            width / 10,
            width * 9 / 10,
            WINDOW_STEPS,
        );
        let y_window = make_window(
            centre[1] - half,
            centre[1] + half,
            height * 9 / 10,
            height / 10,
            WINDOW_STEPS,
        );
        Projector { view, x_window, y_window }
    }
}

/// The title, in large type near the top of the canvas.
pub open spec fn title_text(title: String, width: int, height: int) -> Primitive {
    Primitive::Text {
        position: Point { x: (width / 2) as i64, y: (height / 20) as i64 },
        label: Label::Text(title),
        size: 30_000_000,
        horizontal: HorizontalAlignment::Left,
        vertical: VerticalAlignment::Top,
    }
}

/// What the pointer does to the camera.
#[derive(Debug, Clone, Copy, PartialEq, Eq, Structural)]
pub enum Camera {
    /// The button is held; the pointer was last seen at the anchor.
    Pressed(i64, i64),
    Released,
}

/// The window of a surface plot: the plot, the camera, and the rotation in
/// progress.
pub struct State {
    pub plot: Plot3D,
    /// The camera's position; the camera looks at the origin.
    pub camera: Vector3,
    /// Pitch and yaw, in degrees.
    pub angles: (i64, i64),
    pub camera_control: Camera,
    /// Whether the scene has changed since it was last drawn.
    pub stale: bool,
}

impl State {
    /// The window of `plot`, seen from the front right above, at rest.
    pub fn new(plot: Plot3D) -> (state: Self)
        ensures
            state.plot == plot,
            state.camera == (Vector3 { x: 198_666, y: 756_781, z: -622_748i64 }),
            state.angles == (47_499_996i64, -116_100_006i64),
            state.camera_control == Camera::Released,
            state.stale,
    {
        Self {
            plot,
            camera: Vector3 { x: 198_666, y: 756_781, z: -622_748 },
            angles: (47_499_996, -116_100_006),
            camera_control: Camera::Released,
            stale: true,
        }
    }

    /// What [`State::draw`] needs: limits, tick distance, camera and canvas
    /// within the coordinate range, and a surface that is well formed and
    /// within that range too.
    pub open spec fn drawable(&self, width: i64, height: i64) -> bool {
        &&& layout_of(self.plot.axes.axes, self.angles.1).wf()
        &&& self.camera.within(LIMIT as int)
        &&& 0 <= width <= LIMIT
        &&& 0 <= height <= LIMIT
        &&& self.plot.surface.is_some() ==> self.plot.surface.unwrap().wf()
            && self.plot.surface.unwrap().in_range()
    }

    /// Executable test for [`State::drawable`].
    pub fn is_drawable(&self, width: i64, height: i64) -> (b: bool)
        ensures
            b == self.drawable(width, height),
    {
        let layout = make_layout(self.plot.get_axes().get_axes(), self.angles.1);
        let surface_fits = match &self.plot.surface {
            Some(s) => s.is_wf() && s.is_in_range(),
            None => true,
        };
        crate::fixed::within_limit(layout.x.0) && crate::fixed::within_limit(layout.x.1)
            && crate::fixed::within_limit(layout.y.0) && crate::fixed::within_limit(layout.y.1)
            && crate::fixed::within_limit(layout.z.0) && crate::fixed::within_limit(layout.z.1)
            && 0 <= layout.spacing && layout.spacing <= LIMIT && self.camera.is_within(LIMIT) && 0
            <= width && width <= LIMIT && 0 <= height && height <= LIMIT && surface_fits
    }

    /// The frame of a canvas of `width` by `height` pixels, in drawing
    /// order: the title; the ticks of the x, z and y axis; the floor, the back
    /// wall and the side wall; the axes; the surface.
    pub open spec fn scene(&self, width: i64, height: i64) -> Seq<Primitive> {
        let layout = layout_of(self.plot.axes.axes, self.angles.1);
        let lens = lens_of(layout, self.camera, width as int, height as int);
        seq![title_text(self.plot.title, width as int, height as int)] + ticks(
            lens,
            layout,
            Axis::X,
            layout.steps.0 + 1,
        ) + ticks(lens, layout, Axis::Z, layout.steps.2 + 1) + ticks(
            lens,
            layout,
            Axis::Y,
            layout.steps.1 + 1,
        ) + panel_strips(lens, layout, Panel::Floor, layout.steps.0 as int) + panel_strips(
            lens,
            layout,
            Panel::Back,
            layout.steps.0 as int,
        ) + panel_strips(lens, layout, Panel::Side, layout.steps.2 as int) + axes_marks(
            lens,
            layout,
            (self.plot.xlabel, self.plot.ylabel, self.plot.zlabel),
        ) + match self.plot.surface {
            Some(s) => surface_cells(lens, s),
            None => Seq::empty(),
        }
    }

    /// Draws one frame.
    pub fn draw(&self, width: i64, height: i64) -> (frame: Vec<Primitive>)
        requires
            self.drawable(width, height),
        ensures
            frame@ == self.scene(width, height),
    {
        let layout = make_layout(self.plot.get_axes().get_axes(), self.angles.1);
        let projector = Projector::new(&layout, &self.camera, width, height);
        let mut frame: Vec<Primitive> = Vec::new();
        frame.push(
            Primitive::Text {
                position: Point { x: width / 2, y: height / 20 },
                label: Label::Text(self.plot.get_title().clone()),
                size: 30 * ONE,
                horizontal: HorizontalAlignment::Left,
                vertical: VerticalAlignment::Top,
            },
        );
        proof {
            assert(frame@ =~= seq![title_text(self.plot.title, width as int, height as int)]);
        }
        projector.push_ticks(&layout, Axis::X, &mut frame);
        projector.push_ticks(&layout, Axis::Z, &mut frame);
        projector.push_ticks(&layout, Axis::Y, &mut frame);
        projector.push_panel(&layout, Panel::Floor, &mut frame);
        projector.push_panel(&layout, Panel::Back, &mut frame);
        projector.push_panel(&layout, Panel::Side, &mut frame);
        projector.push_axes(
            &layout,
            (self.plot.get_xlabel(), self.plot.get_ylabel(), self.plot.get_zlabel()),
            &mut frame,
        );
        match &self.plot.surface {
            Some(s) => {
                projector.push_surface(s, &mut frame);
            },
            None => {
                proof {
                    assert(frame@ + Seq::<Primitive>::empty() =~= frame@);
                }
            },
        }
        frame
    }
}

/// What the display surface reports.
#[derive(Debug, Clone, Copy, PartialEq, Eq, Structural)]
pub enum Event {
    /// The left button went down.
    ButtonPressed,
    /// The pointer moved to `(x, y)`.
    CursorMoved { x: i64, y: i64 },
    /// The left button went up.
    ButtonReleased,
    /// Another pointer event.
    OtherPointer,
    /// An event that does not come from the pointer.
    Other,
}

/// Whether an event was used.
#[derive(Debug, Clone, Copy, PartialEq, Eq, Structural)]
pub enum Status {
    Ignored,
    Captured,
}

/// Degrees of rotation per pixel of pointer travel, as a divisor: a tenth.
pub const DRAG_DIVISOR: i64 = 10;

/// The steepest pitch, in degrees.
pub const PITCH_LIMIT: i64 = 89_000_000;

/// The angles after the pointer went from `anchor` to `(x, y)`: pitch grows
/// with upward travel and stays within 89 degrees of level, yaw grows with
/// travel to the right; both by a tenth of a degree per pixel.
pub open spec fn turned(angles: (i64, i64), anchor: (i64, i64), x: i64, y: i64) -> (i64, i64) {
    (
        clamped(
            angles.0 + (anchor.1 - y) / (DRAG_DIVISOR as int),
            -PITCH_LIMIT as int,
            PITCH_LIMIT as int,
        ) as i64,
        clamped(
            angles.1 + (x - anchor.0) / (DRAG_DIVISOR as int),
            i64::MIN as int,
            i64::MAX as int,
        ) as i64,
    )
}

/// The direction in which the camera stands, before it is scaled to unit
/// length. The first component is the square of the yaw's cosine.
pub open spec fn direction(pitch: Angle, yaw: Angle) -> Vector3 {
    Vector3 {
        x: ((yaw.cos * yaw.cos) / (ONE as int)) as i64,
        y: pitch.sin,
        z: ((yaw.sin * pitch.cos) / (ONE as int)) as i64,
    }
}

/// The product of two scalars of magnitude at most [`ONE`], scaled back.
fn unit_product(a: i64, b: i64) -> (p: i64)
    requires
        -ONE <= a <= ONE,
        -ONE <= b <= ONE,
    ensures
        p == (a * b) / (ONE as int),
        -ONE <= p <= ONE,
{
    assert(-1_000_000_000_000 <= a * b <= 1_000_000_000_000) by (nonlinear_arith)
        requires -1_000_000 <= a <= 1_000_000, -1_000_000 <= b <= 1_000_000;
    proof {
        vstd::arithmetic::div_mod::lemma_div_is_ordered(a * b, ONE * ONE, ONE as int);
        vstd::arithmetic::div_mod::lemma_div_is_ordered(-(ONE * ONE), a * b, ONE as int);
        vstd::arithmetic::div_mod::lemma_div_multiples_vanish(ONE as int, ONE as int);
        vstd::arithmetic::div_mod::lemma_div_multiples_vanish(-(ONE as int), ONE as int);
    }
    div_floor((a * b) as i128, ONE as i128) as i64
}

impl State {
    /// Takes one event of the display surface; `cursor` is the pointer's
    /// position on the canvas, or `None` while the pointer is elsewhere.
    ///
    /// Pressing the button anchors the rotation at the pointer. Moving the
    /// pointer while the button is held turns the angles by the travel since
    /// the anchor, moves the anchor along, and marks the scene stale: the
    /// host then hands the sines and cosines of the new angles to
    /// [`State::orient`]. Releasing the button ends the rotation. Nothing
    /// happens while the pointer is off the canvas.
    pub fn update(&mut self, event: Event, cursor: Option<(i64, i64)>) -> (outcome: (
        Status,
        Option<Message>,
    ))
        ensures
            outcome.1.is_none(),
            final(self).plot == old(self).plot,
            final(self).camera == old(self).camera,
            cursor.is_none() ==> outcome.0 == Status::Ignored && *final(self) == *old(self),
            cursor.is_some() ==> match event {
                Event::ButtonPressed => {
                    &&& outcome.0 == Status::Captured
                    &&& final(self).camera_control == Camera::Pressed(
                        cursor.unwrap().0,
                        cursor.unwrap().1,
                    )
                    &&& final(self).angles == old(self).angles
                    &&& final(self).stale == old(self).stale
                },
                Event::CursorMoved { x, y } => {
                    &&& outcome.0 == Status::Captured
                    &&& match old(self).camera_control {
                        Camera::Pressed(anchor_x, anchor_y) => {
                            &&& final(self).angles == turned(
                                old(self).angles,
                                (anchor_x, anchor_y),
                                x,
                                y,
                            )
                            &&& final(self).camera_control == Camera::Pressed(x, y)
                            &&& final(self).stale
                        },
                        Camera::Released => *final(self) == *old(self),
                    }
                },
                Event::ButtonReleased => {
                    &&& outcome.0 == Status::Captured
                    &&& final(self).camera_control == Camera::Released
                    &&& final(self).angles == old(self).angles
                    &&& final(self).stale == old(self).stale
                },
                Event::OtherPointer => outcome.0 == Status::Captured && *final(self) == *old(self),
                Event::Other => outcome.0 == Status::Ignored && *final(self) == *old(self),
            },
    {
        let position = match cursor {
            Some(position) => position,
            None => {
                return (Status::Ignored, None);
            },
        };
        match event {
            Event::ButtonPressed => {
                self.camera_control = Camera::Pressed(position.0, position.1);
                (Status::Captured, None)
            },
            Event::CursorMoved { x, y } => {
                match self.camera_control {
                    Camera::Pressed(anchor_x, anchor_y) => {
                        let dx = div_floor(x as i128 - anchor_x as i128, DRAG_DIVISOR as i128);
                        let dy = div_floor(anchor_y as i128 - y as i128, DRAG_DIVISOR as i128);
                        proof {
                            lemma_floor_quotient_bounds(x - anchor_x, DRAG_DIVISOR as int);
                            lemma_floor_quotient_bounds(anchor_y - y, DRAG_DIVISOR as int);
                        }
                        let pitch = self.angles.0 as i128 + dy;
                        let yaw = self.angles.1 as i128 + dx;
                        self.angles = (
                            if pitch < -PITCH_LIMIT as i128 {
                                -PITCH_LIMIT
                            } else if pitch > PITCH_LIMIT as i128 {
                                PITCH_LIMIT
                            } else {
                                pitch as i64
                            },
                            if yaw < i64::MIN as i128 {
                                i64::MIN
                            } else if yaw > i64::MAX as i128 {
                                i64::MAX
                            } else {
                                yaw as i64
                            },
                        );
                        self.camera_control = Camera::Pressed(x, y);
                        self.stale = true;
                    },
                    Camera::Released => {},
                }
                (Status::Captured, None)
            },
            Event::ButtonReleased => {
                self.camera_control = Camera::Released;
                (Status::Captured, None)
            },
            Event::OtherPointer => (Status::Captured, None),
            Event::Other => (Status::Ignored, None),
        }
    }

    /// Places the camera at unit distance in the direction that the angles
    /// give, by their sines and cosines, and marks the scene stale.
    pub fn orient(&mut self, pitch: &Angle, yaw: &Angle)
        requires
            pitch.wf(),
            yaw.wf(),
        ensures
            final(self).camera == unit(direction(*pitch, *yaw)),
            final(self).camera.within(ONE as int),
            !is_zero(direction(*pitch, *yaw)) ==> nearly_unit(final(self).camera),
            final(self).stale,
            final(self).plot == old(self).plot,
            final(self).angles == old(self).angles,
            final(self).camera_control == old(self).camera_control,
    {
        let toward = Vector3 {
            x: unit_product(yaw.cos, yaw.cos),
            y: pitch.sin,
            z: unit_product(yaw.sin, pitch.cos),
        };
        self.camera = normalize(&toward);
        self.stale = true;
    }

    /// Records that the scene has been drawn as it stands.
    pub fn mark_drawn(&mut self)
        ensures
            !final(self).stale,
            final(self).plot == old(self).plot,
            final(self).camera == old(self).camera,
            final(self).angles == old(self).angles,
            final(self).camera_control == old(self).camera_control,
    {
        self.stale = false;
    }
}

/// While the button is held, each move is measured from the position of the
/// move before it, not from where the button went down: two moves in a row,
/// by `first` and then by `second` tenths of a degree to the right, turn the
/// yaw by `first + second` in all, so that no part of the way counts twice.
pub proof fn lemma_rolling_anchor(
    angles: (i64, i64),
    a: (i64, i64),
    b: (i64, i64),
    c: (i64, i64),
    first: int,
    second: int,
)
    requires
        b.0 - a.0 == first * DRAG_DIVISOR,
        c.0 - b.0 == second * DRAG_DIVISOR,
        i64::MIN <= angles.1 + first <= i64::MAX,
        i64::MIN <= angles.1 + first + second <= i64::MAX,
    ensures
        turned(turned(angles, a, b.0, b.1), b, c.0, c.1).1 == angles.1 + first + second,
{
    assert((first * DRAG_DIVISOR) / (DRAG_DIVISOR as int) == first) by {
        vstd::arithmetic::div_mod::lemma_div_multiples_vanish(first, DRAG_DIVISOR as int);
        assert(first * DRAG_DIVISOR == DRAG_DIVISOR * first) by (nonlinear_arith);
    }
    assert((second * DRAG_DIVISOR) / (DRAG_DIVISOR as int) == second) by {
        vstd::arithmetic::div_mod::lemma_div_multiples_vanish(second, DRAG_DIVISOR as int);
        assert(second * DRAG_DIVISOR == DRAG_DIVISOR * second) by (nonlinear_arith);
    }
}

/// However far the pointer travels, the pitch stays within 89 degrees of
/// level.
pub proof fn lemma_pitch_within_limit(angles: (i64, i64), anchor: (i64, i64), x: i64, y: i64)
    ensures
        -PITCH_LIMIT <= turned(angles, anchor, x, y).0 <= PITCH_LIMIT,
{
}

/// A move along the horizontal leaves the pitch as it is, and a move by a
/// whole number of tenths of a degree adds exactly that to the yaw.
pub proof fn lemma_horizontal_drag(angles: (i64, i64), anchor: (i64, i64), x: i64, tenths: int)
    requires
        -PITCH_LIMIT <= angles.0 <= PITCH_LIMIT,
        x - anchor.0 == tenths * DRAG_DIVISOR,
        i64::MIN <= angles.1 + tenths <= i64::MAX,
    ensures
        turned(angles, anchor, x, anchor.1) == (angles.0, (angles.1 + tenths) as i64),
{
    assert((0int) / (DRAG_DIVISOR as int) == 0);
    assert((tenths * DRAG_DIVISOR) / (DRAG_DIVISOR as int) == tenths) by {
        vstd::arithmetic::div_mod::lemma_div_multiples_vanish(tenths, DRAG_DIVISOR as int);
        assert(tenths * DRAG_DIVISOR == DRAG_DIVISOR * tenths) by (nonlinear_arith);
    }
}

} // verus!
