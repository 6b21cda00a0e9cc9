//! The two-dimensional scene: axes, ticks and line series of a chart, mapped
//! onto the canvas.

use vstd::prelude::*;
use crate::fixed::{lemma_floor_quotient_bounds, LIMIT, ONE};
use crate::plot::{
    grid_mode, grid_mode_of, is_grid_mode, is_line_style, lemma_sample_bounds, line_style,
    line_style_of, Color, GridMode, Line2D, LineStyle, Plot2D,
};
use crate::scene::{HorizontalAlignment, Label, Point, Primitive, VerticalAlignment};
use crate::math::{count_ticks, make_window, pixel, tick_count, window};
use crate::window_3d::find_point;

verus! {

/// Messages of the two-dimensional window.
#[derive(Debug, Clone, Copy, PartialEq, Eq, Structural)]
pub enum Message {
    PlotSaved,
}

/// The margin between the canvas and the plot area: thirty pixels.
pub const EDGE: i64 = 30_000_000;

/// The number of whole pixels between the two margins of a canvas side of
/// length `extent`.
pub open spec fn span(extent: int) -> int {
    let pixels = extent / (ONE as int) - 60;
    if pixels > 0 {
        pixels
    } else {
        0
    }
}

/// Executable form of [`span`].
pub fn span_of(extent: i64) -> (pixels: usize)
    requires
        0 <= extent <= LIMIT,
    ensures
        pixels == span(extent as int),
        pixels <= 1_000_000,
{
    let pixels = extent / ONE - 60;
    if pixels > 0 {
        pixels as usize
    } else {
        0
    }
}

/// The two coordinate windows of a chart, as contracts see them.
pub struct Windows {
    pub x: Seq<(i64, i64)>,
    pub y: Seq<(i64, i64)>,
}

impl Windows {
    /// Where the data point `(x, y)` lands on the canvas.
    pub open spec fn place(&self, x: i64, y: i64) -> Point {
        Point { x: pixel(self.x, x as int), y: pixel(self.y, y as int) }
    }
}

/// The windows of the chart area of a canvas of `width` by `height` pixels,
/// with `density` samples per pixel: the abscissas run from the left margin
/// to the right one, the ordinates from the bottom margin up to the top one.
pub open spec fn windows_of(
    xlim: (i64, i64),
    ylim: (i64, i64),
    width: int,
    height: int,
    density: int,
) -> Windows {
    Windows {
        x: window(
            xlim.0 as int,
            xlim.1 as int,
            EDGE as int,
            EDGE + span(width) * ONE,
            span(width) * density,
        ),
        y: window(
            ylim.0 as int,
            ylim.1 as int,
            EDGE + span(height) * ONE,
            EDGE as int,
            span(height) * density,
        ),
    }
}

/// The two coordinate windows of a chart.
pub struct Mapper {
    pub x_window: Vec<(i64, i64)>,
    pub y_window: Vec<(i64, i64)>,
}

impl Mapper {
    /// The mapper as contracts see it.
    pub open spec fn windows(&self) -> Windows {
        Windows { x: self.x_window@, y: self.y_window@ }
    }

    /// Both windows hold an entry, and every pixel value lies on a canvas of
    /// admissible size.
    pub open spec fn wf(&self) -> bool {
        &&& self.x_window@.len() > 0
        &&& self.y_window@.len() > 0
        &&& forall|i: int| 0 <= i < self.x_window@.len() ==> 0 <= (#[trigger] self.x_window@[i]).1 <= 2 * LIMIT
        &&& forall|i: int| 0 <= i < self.y_window@.len() ==> 0 <= (#[trigger] self.y_window@[i]).1 <= 2 * LIMIT
    }

    /// Builds the windows of [`windows_of`]; `density` is 1 or 4.
    pub fn new(xlim: (i64, i64), ylim: (i64, i64), width: i64, height: i64, density: usize) -> (mapper:
        Mapper)
        requires
            0 <= width <= LIMIT,
            0 <= height <= LIMIT,
            1 <= density <= 4,
        ensures
            mapper.windows() == windows_of(xlim, ylim, width as int, height as int, density as int),
            mapper.wf(),
    {
        let across = span_of(width);
        let along = span_of(height);
        assert(across * density <= 4_000_000 && along * density <= 4_000_000) by (nonlinear_arith)
            requires across <= 1_000_000, along <= 1_000_000, 1 <= density <= 4;
        let right = EDGE + (across as i64) * ONE;
        let bottom = EDGE + (along as i64) * ONE;
        let mapper = Mapper {
            x_window: make_window(xlim.0, xlim.1, EDGE, right, across * density),
            y_window: make_window(ylim.0, ylim.1, bottom, EDGE, along * density),
        };
        proof {
            assert forall|i: int| 0 <= i < mapper.x_window@.len() implies 0 <= (
            #[trigger] mapper.x_window@[i]).1 <= 2 * LIMIT by {
                lemma_sample_bounds(EDGE as int, right as int, across * density, i);
            }
            assert forall|i: int| 0 <= i < mapper.y_window@.len() implies 0 <= (
            #[trigger] mapper.y_window@[i]).1 <= 2 * LIMIT by {
                lemma_sample_bounds(bottom as int, EDGE as int, along * density, i);
            }
        }
        mapper
    }

    /// Snaps the data point `(x, y)` to the pixel grid.
    pub fn place(&self, x: i64, y: i64) -> (at: Point)
        requires
            self.wf(),
        ensures
            at == self.windows().place(x, y),
            0 <= at.x <= 2 * LIMIT,
            0 <= at.y <= 2 * LIMIT,
    {
        proof {
            crate::math::lemma_nearest_index(crate::plot::firsts(self.x_window@), x as int);
            crate::math::lemma_nearest_index(crate::plot::firsts(self.y_window@), y as int);
        }
        Point {
            x: find_point(x, self.x_window.as_slice()).1,
            y: find_point(y, self.y_window.as_slice()).1,
        }
    }
}

/// The two axes of a chart.
#[derive(Debug, Clone, Copy, PartialEq, Eq, Structural)]
pub enum Axis {
    X,
    Y,
}

/// The measures of one frame of a chart.
#[derive(Debug, Clone, Copy)]
pub struct Layout {
    pub xlim: (i64, i64),
    pub ylim: (i64, i64),
    /// The distance between two ticks.
    pub scale: i64,
    /// Whether the ticks are drawn as lines across the whole chart.
    pub full_grid: bool,
    pub width: i64,
    pub height: i64,
    /// Where the data point `(0, 0)`, or the one nearest to it, lands.
    pub origin: Point,
}

/// The colour of axes and ticks.
pub open spec fn ink() -> Color {
    Color(0, 0, 0, ONE)
}

impl Layout {
    /// Canvas and origin lie within the admissible canvas sizes.
    pub open spec fn wf(&self) -> bool {
        &&& 0 <= self.width <= LIMIT
        &&& 0 <= self.height <= LIMIT
        &&& 0 <= self.origin.x <= 2 * LIMIT
        &&& 0 <= self.origin.y <= 2 * LIMIT
    }

    /// The limits of `axis`.
    pub open spec fn limits(&self, axis: Axis) -> (i64, i64) {
        match axis {
            Axis::X => self.xlim,
            Axis::Y => self.ylim,
        }
    }

    /// The number of tick distances on `axis`.
    pub open spec fn steps(&self, axis: Axis) -> int {
        tick_count(self.limits(axis).0 as int, self.limits(axis).1 as int, self.scale as int)
    }

    /// The value of tick `k` on `axis`: `k` tick distances above the lower
    /// limit.
    pub open spec fn tick(&self, axis: Axis, k: int) -> i64 {
        (self.limits(axis).0 + k * self.scale) as i64
    }

    /// The six strokes of the two axes: the x axis through the origin's
    /// height from margin to margin, with an arrow head at its right end,
    /// then the y axis through the origin's abscissa, with an arrow head on
    /// top.
    pub open spec fn axes(&self) -> Seq<Primitive> {
        let left = Point { x: EDGE, y: self.origin.y };
        let right = Point { x: (self.width - EDGE) as i64, y: self.origin.y };
        let low = Point { x: self.origin.x, y: (self.height - EDGE) as i64 };
        let high = Point { x: self.origin.x, y: EDGE };
        seq![
            stroke(left, right, 2),
            stroke(right, Point { x: (right.x - ONE) as i64, y: (right.y - ONE) as i64 }, 2),
            stroke(right, Point { x: (right.x - ONE) as i64, y: (right.y + ONE) as i64 }, 2),
            stroke(low, high, 2),
            stroke(high, Point { x: (high.x - ONE) as i64, y: (high.y + ONE) as i64 }, 2),
            stroke(high, Point { x: (high.x + ONE) as i64, y: (high.y + ONE) as i64 }, 2),
        ]
    }

    /// The mark of a tick of `axis` that lies at pixel `at` along the axis: a
    /// dash of six pixels across the axis, or, with the full grid, a line
    /// across the whole chart.
    pub open spec fn tick_mark(&self, axis: Axis, at: i64) -> Primitive {
        match axis {
            Axis::X => if self.full_grid {
                stroke(
                    Point { x: at, y: EDGE },
                    Point { x: at, y: (self.height - EDGE) as i64 },
                    1,
                )
            } else {
                stroke(
                    Point { x: at, y: (self.origin.y - 3 * ONE) as i64 },
                    Point { x: at, y: (self.origin.y + 3 * ONE) as i64 },
                    1,
                )
            },
            Axis::Y => if self.full_grid {
                stroke(
                    Point { x: EDGE, y: at },
                    Point { x: (self.width - EDGE) as i64, y: at },
                    1,
                )
            } else {
                stroke(
                    Point { x: (self.origin.x - 3 * ONE) as i64, y: at },
                    Point { x: (self.origin.x + 3 * ONE) as i64, y: at },
                    1,
                )
            },
        }
    }

    /// The label of a tick of `axis` with the value `value` that lies at
    /// pixel `at` along the axis: the value without decimals, centred below
    /// the x axis or right-aligned beside the y axis.
    pub open spec fn tick_label(&self, axis: Axis, value: i64, at: i64) -> Primitive {
        match axis {
            Axis::X => Primitive::Text {
                position: Point { x: at, y: (self.origin.y + 5 * ONE) as i64 },
                label: Label::Number { value, decimals: 0 },
                size: 16_000_000,
                horizontal: HorizontalAlignment::Center,
                vertical: VerticalAlignment::Top,
            },
            Axis::Y => Primitive::Text {
                position: Point { x: (self.origin.x - 10 * ONE) as i64, y: at },
                label: Label::Number { value, decimals: 0 },
                size: 16_000_000,
                horizontal: HorizontalAlignment::Right,
                vertical: VerticalAlignment::Center,
            },
        }
    }

    /// The pixel along `axis` at which the data value `value` lies.
    pub open spec fn pixel(windows: Windows, axis: Axis, value: i64) -> i64 {
        match axis {
            Axis::X => pixel(windows.x, value as int),
            Axis::Y => pixel(windows.y, value as int),
        }
    }

    /// The marks and labels of the first `count` ticks of `axis`.
    pub open spec fn ticks(&self, windows: Windows, axis: Axis, count: int) -> Seq<Primitive>
        decreases count,
    {
        if count <= 0 {
            Seq::empty()
        } else {
            let value = self.tick(axis, count - 1);
            let at = Self::pixel(windows, axis, value);
            self.ticks(windows, axis, count - 1) + seq![
                self.tick_mark(axis, at),
                self.tick_label(axis, value, at),
            ]
        }
    }

    /// The background of the chart: the axes, then the ticks of the x axis,
    /// then those of the y axis.
    pub open spec fn background(&self, windows: Windows) -> Seq<Primitive> {
        self.axes() + self.ticks(windows, Axis::X, self.steps(Axis::X) + 1) + self.ticks(
            windows,
            Axis::Y,
            self.steps(Axis::Y) + 1,
        )
    }
}

/// A black stroke of `width` pixels.
pub open spec fn stroke(from: Point, to: Point, width: int) -> Primitive {
    Primitive::Line { from, to, color: ink(), width: (width * ONE) as i64 }
}

/// Executable form of [`stroke`].
fn make_stroke(from: Point, to: Point, width: i64) -> (line: Primitive)
    requires
        1 <= width <= 2,
    ensures
        line == stroke(from, to, width as int),
{
    Primitive::Line { from, to, color: Color::black(), width: width * ONE }
}

/// A tick within the tick count lies between the limits.
pub proof fn lemma_tick_between(lo: int, hi: int, scale: int, k: int)
    requires
        0 <= k <= tick_count(lo, hi, scale),
    ensures
        lo <= lo + k * scale,
        tick_count(lo, hi, scale) > 0 ==> lo + k * scale <= hi,
        tick_count(lo, hi, scale) == 0 ==> k * scale == 0,
{
    if scale > 0 && hi > lo {
        let whole = (hi - lo) / scale;
        vstd::arithmetic::div_mod::lemma_fundamental_div_mod(hi - lo, scale);
        vstd::arithmetic::div_mod::lemma_mod_bound(hi - lo, scale);
        lemma_floor_quotient_bounds(hi - lo, scale);
        assert(k * scale <= whole * scale) by (nonlinear_arith)
            requires 0 <= k <= whole, scale > 0;
        assert(whole * scale == scale * whole) by (nonlinear_arith);
        assert(0 <= k * scale) by (nonlinear_arith)
            requires 0 <= k, scale > 0;
    } else {
        assert(k * scale == 0) by (nonlinear_arith)
            requires k == 0;
    }
}

impl Layout {
    /// Executable form of [`Layout::steps`].
    pub fn step_count(&self, axis: Axis) -> (n: usize)
        ensures
            n == self.steps(axis),
            n < usize::MAX,
    {
        match axis {
            Axis::X => count_ticks(self.xlim.0, self.xlim.1, self.scale),
            Axis::Y => count_ticks(self.ylim.0, self.ylim.1, self.scale),
        }
    }

    /// Executable form of [`Layout::tick`].
    pub fn tick_value(&self, axis: Axis, k: usize) -> (value: i64)
        requires
            k <= self.steps(axis),
        ensures
            value == self.tick(axis, k as int),
    {
        let lim = match axis {
            Axis::X => self.xlim,
            Axis::Y => self.ylim,
        };
        proof {
            lemma_tick_between(lim.0 as int, lim.1 as int, self.scale as int, k as int);
        }
        if k == 0 {
            assert(0 * self.scale == 0);
            return lim.0;
        }
        assert(-0x1_0000_0000_0000_0000 * 0x1_0000_0000_0000_0000 <= k * self.scale
            <= 0x1_0000_0000_0000_0000 * 0x1_0000_0000_0000_0000) by (nonlinear_arith)
            requires
                0 <= k <= 0xffff_ffff_ffff_ffff,
                -0x8000_0000_0000_0000 <= self.scale <= 0x7fff_ffff_ffff_ffff,
        ;
        (lim.0 as i128 + k as i128 * self.scale as i128) as i64
    }

    /// Appends the six strokes of the axes.
    pub fn push_axes(&self, out: &mut Vec<Primitive>)
        requires
            self.wf(),
        ensures
            final(out)@ == old(out)@ + self.axes(),
    {
        let left = Point { x: EDGE, y: self.origin.y };
        let right = Point { x: self.width - EDGE, y: self.origin.y };
        let low = Point { x: self.origin.x, y: self.height - EDGE };
        let high = Point { x: self.origin.x, y: EDGE };
        let a = make_stroke(left, right, 2);
        let b = make_stroke(right, Point { x: right.x - ONE, y: right.y - ONE }, 2);
        let c = make_stroke(right, Point { x: right.x - ONE, y: right.y + ONE }, 2);
        let d = make_stroke(low, high, 2);
        let e = make_stroke(high, Point { x: high.x - ONE, y: high.y + ONE }, 2);
        let f = make_stroke(high, Point { x: high.x + ONE, y: high.y + ONE }, 2);
        proof {
            assert(out@.push(a).push(b).push(c).push(d).push(e).push(f) =~= old(out)@ + self.axes());
        }
        out.push(a);
        out.push(b);
        out.push(c);
        out.push(d);
        out.push(e);
        out.push(f);
    }

    /// Executable form of [`Layout::tick_mark`].
    fn make_tick_mark(&self, axis: Axis, at: i64) -> (mark: Primitive)
        requires
            self.wf(),
        ensures
            mark == self.tick_mark(axis, at),
    {
        match axis {
            Axis::X => if self.full_grid {
                make_stroke(Point { x: at, y: EDGE }, Point { x: at, y: self.height - EDGE }, 1)
            } else {
                make_stroke(
                    Point { x: at, y: self.origin.y - 3 * ONE },
                    Point { x: at, y: self.origin.y + 3 * ONE },
                    1,
                )
            },
            Axis::Y => if self.full_grid {
                make_stroke(Point { x: EDGE, y: at }, Point { x: self.width - EDGE, y: at }, 1)
            } else {
                make_stroke(
                    Point { x: self.origin.x - 3 * ONE, y: at },
                    Point { x: self.origin.x + 3 * ONE, y: at },
                    1,
                )
            },
        }
    }

    /// Executable form of [`Layout::tick_label`].
    fn make_tick_label(&self, axis: Axis, value: i64, at: i64) -> (label: Primitive)
        requires
            self.wf(),
        ensures
            label == self.tick_label(axis, value, at),
    {
        match axis {
            Axis::X => Primitive::Text {
                position: Point { x: at, y: self.origin.y + 5 * ONE },
                label: Label::Number { value, decimals: 0 },
                size: 16 * ONE,
                horizontal: HorizontalAlignment::Center,
                vertical: VerticalAlignment::Top,
            },
            Axis::Y => Primitive::Text {
                position: Point { x: self.origin.x - 10 * ONE, y: at },
                label: Label::Number { value, decimals: 0 },
                size: 16 * ONE,
                horizontal: HorizontalAlignment::Right,
                vertical: VerticalAlignment::Center,
            },
        }
    }

    /// Appends the marks and labels of all ticks of `axis`.
    pub fn push_ticks(&self, mapper: &Mapper, axis: Axis, out: &mut Vec<Primitive>)
        requires
            self.wf(),
            mapper.wf(),
        ensures
            final(out)@ == old(out)@ + self.ticks(mapper.windows(), axis, self.steps(axis) + 1),
    {
        let n = self.step_count(axis);
        let mut k: usize = 0;
        proof {
            assert(out@ =~= old(out)@ + self.ticks(mapper.windows(), axis, 0));
        }
        while k <= n
            invariant
                self.wf(),
                mapper.wf(),
                n == self.steps(axis),
                n < usize::MAX,
                k <= n + 1,
                out@ == old(out)@ + self.ticks(mapper.windows(), axis, k as int),
            decreases n + 1 - k,
        {
            let value = self.tick_value(axis, k);
            let at = match axis {
                Axis::X => find_point(value, mapper.x_window.as_slice()).1,
                Axis::Y => find_point(value, mapper.y_window.as_slice()).1,
            };
            let mark = self.make_tick_mark(axis, at);
            let label = self.make_tick_label(axis, value, at);
            proof {
                assert(at == Self::pixel(mapper.windows(), axis, value));
                assert(out@.push(mark).push(label) =~= old(out)@ + self.ticks(
                    mapper.windows(),
                    axis,
                    k + 1,
                ));
            }
            out.push(mark);
            out.push(label);
            k += 1;
        }
    }
}

/// Sample `i` of a line as a mark: the segment to the next sample for a solid
/// line, a filled circle of two pixels radius for a line of markers.
pub open spec fn line_mark(windows: Windows, line: Line2D, i: int) -> Primitive {
    let here = windows.place(line.data@[i].0, line.data@[i].1);
    if line_style_of(line.linestyle@) == Some(LineStyle::Solid) {
        Primitive::Line {
            from: here,
            to: windows.place(line.data@[i + 1].0, line.data@[i + 1].1),
            color: line.color,
            width: 2_000_000,
        }
    } else {
        Primitive::Circle { center: here, radius: 2_000_000, fill: line.color }
    }
}

/// The number of marks of a line: one segment between each two neighbouring
/// samples, or one circle per sample.
pub open spec fn mark_count(line: Line2D) -> int {
    if line_style_of(line.linestyle@) == Some(LineStyle::Solid) {
        if line.data@.len() > 0 {
            line.data@.len() - 1
        } else {
            0
        }
    } else {
        line.data@.len() as int
    }
}

/// The first `count` marks of a line.
pub open spec fn line_marks(windows: Windows, line: Line2D, count: int) -> Seq<Primitive>
    decreases count,
{
    if count <= 0 {
        Seq::empty()
    } else {
        line_marks(windows, line, count - 1).push(line_mark(windows, line, count - 1))
    }
}

/// The marks of the first `count` lines, line after line.
pub open spec fn series(windows: Windows, lines: Seq<Line2D>, count: int) -> Seq<Primitive>
    decreases count,
{
    if count <= 0 {
        Seq::empty()
    } else {
        series(windows, lines, count - 1) + line_marks(
            windows,
            lines[count - 1],
            mark_count(lines[count - 1]),
        )
    }
}

impl Mapper {
    /// Appends the marks of one line.
    pub fn push_line(&self, line: &Line2D, out: &mut Vec<Primitive>)
        requires
            self.wf(),
            is_line_style(line.linestyle@),
        ensures
            final(out)@ == old(out)@ + line_marks(self.windows(), *line, mark_count(*line)),
    {
        let solid = match line_style(line.linestyle.as_str()) {
            Some(LineStyle::Solid) => true,
            _ => false,
        };
        let n = line.data.len();
        let count = if solid {
            if n > 0 {
                n - 1
            } else {
                0
            }
        } else {
            n
        };
        let mut i: usize = 0;
        proof {
            assert(out@ =~= old(out)@ + line_marks(self.windows(), *line, 0));
        }
        while i < count
            invariant
                self.wf(),
                solid == (line_style_of(line.linestyle@) == Some(LineStyle::Solid)),
                n == line.data@.len(),
                count == mark_count(*line),
                i <= count,
                out@ == old(out)@ + line_marks(self.windows(), *line, i as int),
            decreases count - i,
        {
            let here = self.place(line.data[i].0, line.data[i].1);
            let mark = if solid {
                Primitive::Line {
                    from: here,
                    to: self.place(line.data[i + 1].0, line.data[i + 1].1),
                    color: line.color,
                    width: 2 * ONE,
                }
            } else {
                Primitive::Circle { center: here, radius: 2 * ONE, fill: line.color }
            };
            proof {
                assert(mark == line_mark(self.windows(), *line, i as int));
                assert(out@.push(mark) =~= old(out)@ + line_marks(self.windows(), *line, i + 1));
            }
            out.push(mark);
            i += 1;
        }
    }
}

/// The window of a chart: the chart, and whether its two layers have changed
/// since they were drawn.
pub struct State {
    pub plot: Plot2D,
    pub background_stale: bool,
    pub lines_stale: bool,
}

/// Whether every line names a line style.
pub open spec fn styles_valid(lines: Seq<Line2D>) -> bool {
    forall|k: int| 0 <= k < lines.len() ==> is_line_style(#[trigger] lines[k].linestyle@)
}

impl State {
    /// The window of `plot`, with both layers still to be drawn.
    pub fn new(plot: Plot2D) -> (state: Self)
        ensures
            state.plot == plot,
            state.background_stale,
            state.lines_stale,
    {
        Self { plot, background_stale: true, lines_stale: true }
    }

    /// Adds a line to the chart, which derives its limits anew, and marks
    /// both layers stale.
    pub fn add_line(&mut self, line: Line2D)
        ensures
            final(self).plot.lines@ == old(self).plot.lines@.push(line),
            final(self).plot.limits_span_lines(),
            final(self).plot.axes.axes.scale == old(self).plot.axes.axes.scale,
            final(self).plot.axes.grid == old(self).plot.axes.grid,
            final(self).background_stale,
            final(self).lines_stale,
    {
        self.plot.add_line(line);
        self.background_stale = true;
        self.lines_stale = true;
    }

    /// Records that both layers have been drawn as they stand.
    pub fn mark_drawn(&mut self)
        ensures
            final(self).plot == old(self).plot,
            !final(self).background_stale,
            !final(self).lines_stale,
    {
        self.background_stale = false;
        self.lines_stale = false;
    }

    /// What [`State::draw`] needs: a canvas of admissible size, a grid mode
    /// and line styles that are known.
    pub open spec fn drawable(&self, width: i64, height: i64) -> bool {
        &&& 0 <= width <= LIMIT
        &&& 0 <= height <= LIMIT
        &&& is_grid_mode(self.plot.axes.grid@)
        &&& styles_valid(self.plot.lines@)
    }

    /// Executable test for [`State::drawable`].
    pub fn is_drawable(&self, width: i64, height: i64) -> (b: bool)
        ensures
            b == self.drawable(width, height),
    {
        if !(0 <= width && width <= LIMIT && 0 <= height && height <= LIMIT) {
            return false;
        }
        if grid_mode(self.plot.axes.grid.as_str()).is_none() {
            return false;
        }
        let mut k: usize = 0;
        while k < self.plot.lines.len()
            invariant
                k <= self.plot.lines@.len(),
                forall|i: int| 0 <= i < k ==> is_line_style(#[trigger] self.plot.lines@[i].linestyle@),
            decreases self.plot.lines@.len() - k,
        {
            if line_style(self.plot.lines[k].linestyle.as_str()).is_none() {
                return false;
            }
            k += 1;
        }
        true
    }

    /// The limits of the chart as pairs.
    pub open spec fn limits(&self) -> ((i64, i64), (i64, i64)) {
        (
            (self.plot.axes.axes.xlim@[0], self.plot.axes.axes.xlim@[1]),
            (self.plot.axes.axes.ylim@[0], self.plot.axes.axes.ylim@[1]),
        )
    }

    /// The measures of the frame of a canvas of `width` by `height` pixels.
    /// The axes cross where the windows of the background, which hold one
    /// sample per pixel, place the data point `(0, 0)`.
    pub open spec fn layout(&self, width: i64, height: i64) -> Layout {
        Layout {
            xlim: self.limits().0,
            ylim: self.limits().1,
            scale: self.plot.axes.axes.scale,
            full_grid: grid_mode_of(self.plot.axes.grid@) == Some(GridMode::Full),
            width,
            height,
            origin: windows_of(self.limits().0, self.limits().1, width as int, height as int, 1).place(
                0,
                0,
            ),
        }
    }

    /// The background layer: axes and ticks.
    pub open spec fn background(&self, width: i64, height: i64) -> Seq<Primitive> {
        self.layout(width, height).background(
            windows_of(self.limits().0, self.limits().1, width as int, height as int, 1),
        )
    }

    /// The layer of the lines, snapped to windows of four samples per pixel.
    pub open spec fn lines(&self, width: i64, height: i64) -> Seq<Primitive> {
        series(
            windows_of(self.limits().0, self.limits().1, width as int, height as int, 4),
            self.plot.lines@,
            self.plot.lines@.len() as int,
        )
    }

    /// Draws one frame: the background layer and the layer of the lines.
    pub fn draw(&self, width: i64, height: i64) -> (frame: (Vec<Primitive>, Vec<Primitive>))
        requires
            self.drawable(width, height),
        ensures
            frame.0@ == self.background(width, height),
            frame.1@ == self.lines(width, height),
    {
        let axes = self.plot.get_axes().get_axes();
        let xlim = axes.get_xaxes();
        let ylim = axes.get_yaxes();
        let coarse = Mapper::new((xlim[0], xlim[1]), (ylim[0], ylim[1]), width, height, 1);
        let layout = Layout {
            xlim: (xlim[0], xlim[1]),
            ylim: (ylim[0], ylim[1]),
            scale: axes.get_scale(),
            full_grid: match grid_mode(self.plot.axes.grid.as_str()) {
                Some(GridMode::Full) => true,
                _ => false,
            },
            width,
            height,
            origin: coarse.place(0, 0),
        };
        let mut background: Vec<Primitive> = Vec::new();
        layout.push_axes(&mut background);
        layout.push_ticks(&coarse, Axis::X, &mut background);
        layout.push_ticks(&coarse, Axis::Y, &mut background);
        proof {
            assert(background@ =~= self.background(width, height));
        }
        let fine = Mapper::new((xlim[0], xlim[1]), (ylim[0], ylim[1]), width, height, 4);
        let mut lines: Vec<Primitive> = Vec::new();
        let mut k: usize = 0;
        proof {
            assert(lines@ =~= series(fine.windows(), self.plot.lines@, 0));
        }
        while k < self.plot.lines.len()
            invariant
                fine.wf(),
                styles_valid(self.plot.lines@),
                k <= self.plot.lines@.len(),
                lines@ == series(fine.windows(), self.plot.lines@, k as int),
            decreases self.plot.lines@.len() - k,
        {
            fine.push_line(&self.plot.lines[k], &mut lines);
            k += 1;
        }
        (background, lines)
    }
}

} // verus!
