use plotting::fixed::ONE;
use plotting::plot::{
    grid_mode, line_style, Axes2D, Axes3D, Color, Grid, GridMode, Line2D, LineStyle, Plot2D,
};
use plotting::scene::{HorizontalAlignment, Label, Point, Primitive, VerticalAlignment};
use plotting::window::{span_of, Axis, Mapper, State, EDGE};

fn px(pixels: i64) -> i64 {
    pixels * ONE
}

fn parabola() -> Plot2D {
    let x: Vec<i64> = (-10..=10).map(|v| v * ONE).collect();
    let y: Vec<i64> = (-10..=10).map(|v| v * v * ONE).collect();
    Plot2D::plot(Line2D::new(&x, &y))
}

fn line(from: (i64, i64), to: (i64, i64), width: i64) -> Primitive {
    Primitive::Line {
        from: Point { x: from.0, y: from.1 },
        to: Point { x: to.0, y: to.1 },
        color: Color::black(),
        width: width * ONE,
    }
}

#[test]
fn parabola_limits() {
    let plot = parabola();
    assert_eq!(plot.get_axes().get_axes().get_xaxes(), [-10 * ONE, 10 * ONE]);
    assert_eq!(plot.get_axes().get_axes().get_yaxes(), [0, 100 * ONE]);
    assert_eq!(plot.get_axes().get_axes().get_scale(), ONE);
    assert_eq!(plot.get_axes().grid, "none");
    assert_eq!(plot.get_lines().len(), 1);
    assert_eq!(plot.get_lines()[0].get_data().len(), 21);
    assert_eq!(plot.get_lines()[0].get_data()[3], (-7 * ONE, 49 * ONE));
    assert_eq!(plot.title, "Plot");
    assert_eq!(plot.xlabel, "x");
    assert_eq!(plot.ylabel, "y");
}

#[test]
fn parabola_origin_lands_on_the_centre_line() {
    let plot = parabola();
    let mapper = Mapper::new((-10 * ONE, 10 * ONE), (0, 100 * ONE), px(860), px(660), 4);
    let at = mapper.place(0, 0);
    // symmetric limits: the abscissa 0 is the middle of the canvas
    assert_eq!(at.x, px(430));
    // the ordinate 0 is the lower limit: it sits on the bottom margin
    assert_eq!(at.y, px(630));
    assert_eq!(mapper.place(-10 * ONE, 100 * ONE), Point { x: px(30), y: px(30) });
    assert_eq!(mapper.place(10 * ONE, 100 * ONE), Point { x: px(830), y: px(30) });
    assert_eq!(mapper.place(-9 * ONE, 81 * ONE), Point { x: px(70), y: px(144) });
    // beyond the limits everything snaps to the border
    assert_eq!(mapper.place(i64::MIN, i64::MAX), Point { x: px(30), y: px(30) });
    let state = State::new(plot);
    assert!(state.is_drawable(px(860), px(660)));
    let (_, lines) = state.draw(px(860), px(660));
    assert_eq!(lines.len(), 20);
    assert_eq!(
        lines[0],
        Primitive::Line {
            from: Point { x: px(30), y: px(30) },
            to: Point { x: px(70), y: px(144) },
            color: Color::black(),
            width: 2 * ONE,
        }
    );
    assert_eq!(
        lines[9],
        Primitive::Line {
            from: Point { x: px(390), y: px(624) },
            to: Point { x: px(430), y: px(630) },
            color: Color::black(),
            width: 2 * ONE,
        }
    );
}

#[test]
fn mapper_windows() {
    assert_eq!(span_of(px(860)), 800);
    assert_eq!(span_of(px(60)), 0);
    assert_eq!(span_of(0), 0);
    assert_eq!(span_of(px(61) + 999_999), 1);
    let coarse = Mapper::new((0, 4 * ONE), (0, 2 * ONE), px(64), px(62), 1);
    assert_eq!(
        coarse.x_window,
        vec![
            (0, px(30)),
            (ONE, px(31)),
            (2 * ONE, px(32)),
            (3 * ONE, px(33)),
            (4 * ONE, px(34))
        ]
    );
    assert_eq!(coarse.y_window, vec![(0, px(32)), (ONE, px(31)), (2 * ONE, px(30))]);
    let fine = Mapper::new((0, 4 * ONE), (0, 2 * ONE), px(61), px(10), 4);
    assert_eq!(
        fine.x_window,
        vec![
            (0, px(30)),
            (ONE, px(30) + 250_000),
            (2 * ONE, px(30) + 500_000),
            (3 * ONE, px(30) + 750_000),
            (4 * ONE, px(31))
        ]
    );
    assert_eq!(fine.y_window, vec![(0, EDGE)]);
}

#[test]
fn background_with_tick_marks() {
    let plot = Plot2D::plot(Line2D::new(&[-2 * ONE, 2 * ONE], &[-ONE, ONE]));
    let state = State::new(plot);
    let (background, lines) = state.draw(px(460), px(260));
    // six strokes for the axes, five x ticks and three y ticks with a label each
    assert_eq!(background.len(), 6 + 2 * 5 + 2 * 3);
    assert_eq!(lines.len(), 1);
    // the origin lies in the middle: x = 30 + 200, y = 30 + 100
    assert_eq!(background[0], line((px(30), px(130)), (px(430), px(130)), 2));
    assert_eq!(background[1], line((px(430), px(130)), (px(429), px(129)), 2));
    assert_eq!(background[2], line((px(430), px(130)), (px(429), px(131)), 2));
    assert_eq!(background[3], line((px(230), px(230)), (px(230), px(30)), 2));
    assert_eq!(background[4], line((px(230), px(30)), (px(229), px(31)), 2));
    assert_eq!(background[5], line((px(230), px(30)), (px(231), px(31)), 2));
    // first x tick: -2 at the left margin
    assert_eq!(background[6], line((px(30), px(127)), (px(30), px(133)), 1));
    assert_eq!(
        background[7],
        Primitive::Text {
            position: Point { x: px(30), y: px(135) },
            label: Label::Number { value: -2 * ONE, decimals: 0 },
            size: 16 * ONE,
            horizontal: HorizontalAlignment::Center,
            vertical: VerticalAlignment::Top,
        }
    );
    // last x tick: 2 at the right margin
    assert_eq!(background[14], line((px(430), px(127)), (px(430), px(133)), 1));
    // first y tick: -1 at the bottom margin
    assert_eq!(background[16], line((px(227), px(230)), (px(233), px(230)), 1));
    assert_eq!(
        background[17],
        Primitive::Text {
            position: Point { x: px(220), y: px(230) },
            label: Label::Number { value: -ONE, decimals: 0 },
            size: 16 * ONE,
            horizontal: HorizontalAlignment::Right,
            vertical: VerticalAlignment::Center,
        }
    );
    // last y tick: 1 at the top margin
    assert_eq!(background[20], line((px(227), px(30)), (px(233), px(30)), 1));
}

#[test]
fn background_with_full_grid() {
    let plot = Plot2D::plot(Line2D::new(&[-2 * ONE, 2 * ONE], &[-ONE, ONE])).grid("both");
    let (background, _) = State::new(plot).draw(px(460), px(260));
    assert_eq!(background.len(), 22);
    assert_eq!(background[6], line((px(30), px(30)), (px(30), px(230)), 1));
    assert_eq!(background[8], line((px(130), px(30)), (px(130), px(230)), 1));
    assert_eq!(background[16], line((px(30), px(230)), (px(430), px(230)), 1));
    assert_eq!(background[18], line((px(30), px(130)), (px(430), px(130)), 1));
}

#[test]
fn tick_distance_that_does_not_divide_the_range() {
    let mut plot = Plot2D::plot(Line2D::new(&[0, 10 * ONE], &[0, ONE]));
    plot.axes.axes.scale(4 * ONE);
    let (background, _) = State::new(plot).draw(px(160), px(160));
    // x ticks at 0, 4 and 8; one y tick at 0
    assert_eq!(background.len(), 6 + 2 * 3 + 2);
    assert_eq!(background[10], line((px(110), px(127)), (px(110), px(133)), 1));
    match &background[11] {
        Primitive::Text { label, .. } => {
            assert_eq!(*label, Label::Number { value: 8 * ONE, decimals: 0 })
        }
        other => panic!("unexpected {other:?}"),
    }
    let mut flat = Plot2D::new();
    flat.axes.axes.scale(0);
    assert_eq!(State::new(flat).draw(px(160), px(160)).0.len(), 6 + 2 + 2);
}

#[test]
fn marker_style_draws_circles() {
    let dots = Line2D::new(&[0, ONE, 2 * ONE], &[0, 2 * ONE, 0]).color(Color::red()).linestyle(".");
    assert_eq!(*dots.get_color(), Color(ONE, 0, 0, ONE));
    let mut plot = Plot2D::plot(dots);
    plot.add_line(Line2D::new(&[0, 2 * ONE], &[ONE, ONE]).color(Color::blue()));
    let (_, lines) = State::new(plot).draw(px(260), px(260));
    assert_eq!(lines.len(), 3 + 1);
    assert_eq!(
        lines[1],
        Primitive::Circle {
            center: Point { x: px(130), y: px(30) },
            radius: 2 * ONE,
            fill: Color(ONE, 0, 0, ONE)
        }
    );
    assert_eq!(
        lines[3],
        Primitive::Line {
            from: Point { x: px(30), y: px(130) },
            to: Point { x: px(230), y: px(130) },
            color: Color(0, 0, ONE, ONE),
            width: 2 * ONE,
        }
    );
}

#[test]
fn limits_follow_added_lines() {
    let mut plot = Plot2D::new();
    assert_eq!(plot.axes.axes.xlim, [0, ONE]);
    plot.add_line(Line2D::new(&[], &[]));
    assert_eq!(plot.axes.axes.xlim, [0, ONE]);
    assert_eq!(plot.axes.axes.ylim, [0, ONE]);
    plot.add_line(Line2D::new(&[5, 7], &[-1, -3]));
    assert_eq!(plot.axes.axes.xlim, [5, 7]);
    assert_eq!(plot.axes.axes.ylim, [-3, -1]);
    plot.add_line(Line2D::new(&[6, 9, 100], &[4, 0]));
    assert_eq!(plot.axes.axes.xlim, [5, 9]);
    assert_eq!(plot.axes.axes.ylim, [-3, 4]);
    assert_eq!(plot.get_lines()[2].get_data(), &vec![(6, 4), (9, 0)]);
    let empty = Plot2D::plot(Line2D::new(&[], &[1, 2]));
    assert_eq!(empty.axes.axes.xlim, [0, ONE]);
    assert_eq!(empty.axes.axes.ylim, [0, ONE]);
    let direct = Plot2D::_plot(&[3, 1, 2], &[9, 8, 7]);
    assert_eq!(direct.axes.axes.xlim, [1, 3]);
    assert_eq!(direct.axes.axes.ylim, [7, 9]);
}

#[test]
fn unknown_modes_and_styles_are_not_drawable() {
    assert_eq!(grid_mode("none"), Some(GridMode::Ticks));
    assert_eq!(grid_mode("both"), Some(GridMode::Full));
    assert_eq!(grid_mode("x"), None);
    assert_eq!(grid_mode(""), None);
    assert_eq!(line_style("-"), Some(LineStyle::Solid));
    assert_eq!(line_style("."), Some(LineStyle::Marker));
    assert_eq!(line_style("--"), None);
    assert_eq!(line_style(""), None);
    let mut plot = parabola();
    plot.axes.grid = String::from("dashed");
    assert!(!State::new(plot).is_drawable(px(100), px(100)));
    let mut plot = parabola();
    plot.lines[0].linestyle = String::from("o");
    assert!(!State::new(plot).is_drawable(px(100), px(100)));
    let state = State::new(parabola());
    assert!(!state.is_drawable(-1, px(100)));
    assert!(!state.is_drawable(px(100), 1_000_000_000_001));
    assert!(state.is_drawable(0, 1_000_000_000_000));
    assert!(state.background_stale && state.lines_stale);
}

#[test]
fn axes_builders() {
    let mut axes = Axes2D::new().axes(&[-ONE, ONE], &[2, 3]);
    assert_eq!(axes.get_xaxes(), [-ONE, ONE]);
    assert_eq!(axes.get_yaxes(), [2, 3]);
    assert_eq!(axes.get_scale(), ONE);
    axes.scale(250_000);
    assert_eq!(axes.get_scale(), 250_000);
    let grid = Grid::new(axes, "both");
    assert_eq!(grid.grid, "both");
    assert_eq!(grid.get_axes().get_yaxes(), [2, 3]);
    let default = Grid::default();
    assert_eq!(default.grid, "none");
    assert_eq!(default.get_axes().get_xaxes(), [0, ONE]);
    let layout_axis = Axis::X;
    assert_eq!(layout_axis, Axis::X);
    let wide = Axes2D::new().axes(&[-ONE, 3 * ONE + 1], &[0, 999_999]);
    assert_eq!(wide.tick_counts(), (4, 0));
    let mut cube = Axes3D::new().axes(&[0, 10 * ONE], &[0, 10 * ONE], &[5, 0]);
    cube.spacing = [3 * ONE, 0, 1];
    assert_eq!(cube.tick_counts(), (3, 0, 0));
}
