use plotting::fixed::ONE;
use plotting::math::{count_ticks, make_window, meshgrid};
use plotting::mesh::Mesh;
use plotting::plot::{Axes3D, Color, Grid3D, Linspace, Plot3D, Surface3D};
use plotting::scene::{HorizontalAlignment, Label, Point, Primitive, VerticalAlignment};
use plotting::vector::Vector3;
use plotting::window_3d::{
    count_decimals, find_coord, find_point, make_layout, Axis, Panel, Projector, State,
};

fn px(pixels: i64) -> i64 {
    pixels * ONE
}

/// Heights `x + 10 y` over x in {0, 1, 2} and y in {0, 1}.
fn ramp() -> Surface3D {
    let (x, y) = meshgrid(&[0, ONE, 2 * ONE], &[0, ONE]);
    // column after column: (0,0) (1,0) | (0,1) (1,1) | (0,2) (1,2)
    let z = Mesh::from_vec(2, 3, vec![0, 10 * ONE, ONE, 11 * ONE, 2 * ONE, 12 * ONE]).unwrap();
    Surface3D::new(x, y, z)
}

#[test]
fn mesh_from_vec_checks_the_count() {
    assert!(Mesh::from_vec(2, 3, vec![0; 5]).is_none());
    assert!(Mesh::from_vec(usize::MAX, 2, vec![0; 2]).is_none());
    let empty = Mesh::from_vec(0, 4, vec![]).unwrap();
    assert_eq!(empty.shape(), (0, 4));
    assert!(empty.is_wf());
    assert_eq!(empty.get(0, 0), None);
    let m = Mesh::from_vec(2, 3, vec![1, 2, 3, 4, 5, 6]).unwrap();
    assert_eq!(m.shape(), (2, 3));
    assert_eq!(m.get(0, 0), Some(1));
    assert_eq!(m.get(1, 0), Some(2));
    assert_eq!(m.get(0, 1), Some(3));
    assert_eq!(m.get(1, 2), Some(6));
    assert_eq!(m.get(2, 0), None);
}

#[test]
fn surface_shapes_must_agree() {
    let a = Mesh::from_vec(2, 3, vec![0; 6]).unwrap();
    let b = Mesh::from_vec(3, 2, vec![0; 6]).unwrap();
    let c = Mesh::from_vec(2, 3, vec![1; 6]).unwrap();
    assert!(Surface3D::compatible(&a, &c, &c));
    assert!(!Surface3D::compatible(&a, &b, &c));
    assert!(!Surface3D::compatible(&b, &a, &a));
    let surface = ramp();
    assert!(surface.is_wf());
    assert!(surface.is_in_range());
    assert_eq!(*surface.get_color(), Some(Color(0, 0, ONE, ONE)));
    assert_eq!(*surface.color(Color::red()).get_color(), Some(Color(ONE, 0, 0, ONE)));
    let (x, y) = meshgrid(&[0, 1], &[0, 1]);
    let far = Mesh::from_vec(2, 2, vec![0, 0, 0, 1_000_000_000_001]).unwrap();
    assert!(!Surface3D::new(x, y, far).is_in_range());
}

#[test]
fn plot3d_limits_come_from_the_surface() {
    let plot = Plot3D::plot(ramp());
    let axes = plot.get_axes().get_axes();
    assert_eq!(axes.get_xaxes(), [0, 2 * ONE]);
    assert_eq!(axes.get_yaxes(), [0, ONE]);
    assert_eq!(axes.get_zaxes(), [0, 12 * ONE]);
    assert_eq!(axes.get_scale(), ONE);
    assert_eq!(plot.get_axes().grid, "none");
    assert!(plot.get_surface().is_some());
    assert_eq!(plot.get_title(), "Plot");
    assert_eq!(plot.get_xlabel(), "x");
    assert_eq!(plot.get_ylabel(), "y");
    assert_eq!(plot.get_zlabel(), "z");
    // an arbitrary mesh: the limits span all abscissas and all ordinates
    let x = Mesh::from_vec(2, 1, vec![5 * ONE, ONE]).unwrap();
    let y = Mesh::from_vec(2, 1, vec![-ONE, -4 * ONE]).unwrap();
    let z = Mesh::from_vec(2, 1, vec![0, 3]).unwrap();
    let plot = Plot3D::plot(Surface3D::new(x, y, z));
    assert_eq!(plot.get_axes().get_axes().get_xaxes(), [ONE, 5 * ONE]);
    assert_eq!(plot.get_axes().get_axes().get_yaxes(), [-4 * ONE, -ONE]);
    assert_eq!(plot.get_axes().get_axes().get_zaxes(), [0, 3]);
    let (x, y) = meshgrid(&[-3, 5, 4], &[7, -2]);
    let z = Mesh::from_vec(2, 3, vec![-8, -9, -1, -4, -3, -2]).unwrap();
    let plot = Plot3D::plot(Surface3D::new(x, y, z));
    assert_eq!(plot.get_axes().get_axes().get_xaxes(), [-3, 5]);
    assert_eq!(plot.get_axes().get_axes().get_yaxes(), [-2, 7]);
    assert_eq!(plot.get_axes().get_axes().get_zaxes(), [-9, -1]);
}

#[test]
fn plot3d_of_an_empty_surface_keeps_the_unit_cube() {
    let (x, y) = meshgrid(&[], &[1, 2]);
    assert_eq!(x.shape(), (2, 0));
    let z = Mesh::from_vec(2, 0, vec![]).unwrap();
    let plot = Plot3D::plot(Surface3D::new(x, y, z));
    assert_eq!(plot.get_axes().get_axes().get_xaxes(), [0, ONE]);
    assert_eq!(plot.get_axes().get_axes().get_yaxes(), [0, ONE]);
    assert_eq!(plot.get_axes().get_axes().get_zaxes(), [0, ONE]);
    let state = State::new(plot);
    assert!(state.is_drawable(px(100), px(100)));
    // title, 2 ticks on each axis, 3 panels of one cell, 6 axis marks, no surface cell
    assert_eq!(state.draw(px(100), px(100)).len(), 1 + 3 * 4 + 3 + 6);
}

#[test]
fn plot3d_builders() {
    let plot = Plot3D::new().spacing(250_000).title("ramp");
    assert_eq!(plot.get_title(), "ramp");
    assert_eq!(plot.get_axes().get_axes().spacing, [250_000; 3]);
    assert!(plot.get_surface().is_none());
    let plot = plot.colormap("hot");
    assert!(plot.get_surface().is_none());
    let mut axes = Axes3D::new().axes(&[1, 2], &[3, 4], &[5, 6]);
    assert_eq!(axes.get_zaxes(), [5, 6]);
    axes.spacing = [3, 9, 4];
    assert_eq!(axes.get_scale(), 9);
    assert_eq!((axes.get_xspacing(), axes.get_yspacing(), axes.get_zspacing()), (3, 9, 4));
    axes.scale(7);
    assert_eq!(axes.spacing, [7, 7, 7]);
    let grid = Grid3D::new(axes, "both");
    assert_eq!(grid.grid, "both");
    assert_eq!(grid.get_axes().get_xaxes(), [1, 2]);
    assert_eq!(Grid3D::default().get_axes().get_yaxes(), [0, ONE]);
}

#[test]
fn colormap_of_the_surface_follows_the_heights() {
    let plot = Plot3D::plot(ramp()).colormap("hot");
    let surface = plot.get_surface().as_ref().unwrap();
    let table = &surface.colormap.as_ref().unwrap().0;
    // heights column after column: 0 10 1 11 2 12, ranks 0 3 1 4 2 5 of 5
    assert_eq!(
        *table,
        vec![
            (0, 0, 0),
            (ONE, 800_000, 0),
            (600_000, 0, 0),
            (ONE, ONE, 400_000),
            (ONE, 200_000, 0),
            (ONE, ONE, ONE)
        ]
    );
    assert!(surface.is_wf());
    let black = Plot3D::plot(ramp()).colormap("jet");
    assert_eq!(black.get_surface().as_ref().unwrap().colormap.as_ref().unwrap().0, vec![(0, 0, 0); 6]);
}

#[test]
fn ticks_and_decimals() {
    assert_eq!(count_ticks(0, 10 * ONE, ONE), 10);
    assert_eq!(count_ticks(0, 10 * ONE, 3 * ONE), 3);
    assert_eq!(count_ticks(-ONE, ONE, 500_000), 4);
    assert_eq!(count_ticks(0, 10, 0), 0);
    assert_eq!(count_ticks(0, 10, -1), 0);
    assert_eq!(count_ticks(10, 0, 1), 0);
    assert_eq!(count_ticks(5, 5, 1), 0);
    assert_eq!(count_decimals(ONE), 0);
    assert_eq!(count_decimals(500_000), 1);
    assert_eq!(count_decimals(250_000), 2);
    assert_eq!(count_decimals(3 * ONE + 125_000), 3);
    assert_eq!(count_decimals(1), 6);
    assert_eq!(count_decimals(0), 0);
    assert_eq!(count_decimals(-500_000), 1);
    assert_eq!(count_decimals(-ONE), 0);
}

#[test]
fn find_point_and_find_coord() {
    let window = make_window(-ONE, ONE, px(100), px(300), 4);
    assert_eq!(
        window,
        vec![
            (-ONE, px(100)),
            (-500_000, px(150)),
            (0, px(200)),
            (500_000, px(250)),
            (ONE, px(300))
        ]
    );
    assert_eq!(find_point(0, &window), (0, px(200)));
    assert_eq!(find_point(260_000, &window), (500_000, px(250)));
    // halfway between two entries: the first of them
    assert_eq!(find_point(250_000, &window), (0, px(200)));
    assert_eq!(find_point(-250_000, &window), (-500_000, px(150)));
    assert_eq!(find_point(5 * ONE, &window), (ONE, px(300)));
    assert_eq!(find_point(-5 * ONE, &window), (-ONE, px(100)));
    assert_eq!(find_coord(px(149), &window), (-500_000, px(150)));
    assert_eq!(find_coord(px(175), &window), (-500_000, px(150)));
    assert_eq!(find_coord(px(1000), &window), (ONE, px(300)));
    assert_eq!(window, {
        let grid = Linspace::new(-ONE, ONE, 4).into_vec();
        plotting::math::map_points(&grid, (px(100), px(300)))
    });
}

#[test]
fn layout_geometry() {
    let plot = Plot3D::plot(ramp()).spacing(500_000);
    let near = make_layout(plot.get_axes().get_axes(), -116_100_006);
    assert_eq!(near.steps, (4, 2, 24));
    assert_eq!(near.decimals, (1, 1, 1));
    assert_eq!(near.spacing, 500_000);
    assert!(!near.flipped);
    assert_eq!(near.reach_of(), 12 * ONE);
    assert_eq!(near.tick_value(Axis::X, 3), 1_500_000);
    assert_eq!(near.tick_value(Axis::Z, 24), 12 * ONE);
    assert_eq!(
        near.dash_ends(Axis::X, 1),
        (Vector3::new(500_000, 0, 125_000), Vector3::new(500_000, 0, -125_000))
    );
    assert_eq!(
        near.dash_ends(Axis::Y, 2),
        (Vector3::new(-125_000, 0, -ONE), Vector3::new(125_000, 0, -ONE))
    );
    assert_eq!(
        near.dash_ends(Axis::Z, 2),
        (Vector3::new(0, ONE, -ONE - 125_000), Vector3::new(0, ONE, -ONE + 125_000))
    );
    assert_eq!(near.label_point(Axis::X, 0), Vector3::new(0, 0, 250_000));
    assert_eq!(near.label_point(Axis::Y, 1), Vector3::new(-250_000, 0, -500_000));
    assert_eq!(near.label_point(Axis::Z, 1), Vector3::new(0, 500_000, -ONE - 250_000));
    assert_eq!(near.corner_point(Panel::Floor, 1, 2), Vector3::new(500_000, 0, -ONE));
    assert_eq!(near.corner_point(Panel::Back, 1, 2), Vector3::new(500_000, ONE, -ONE));
    assert_eq!(near.corner_point(Panel::Side, 1, 2), Vector3::new(2 * ONE, 500_000, -ONE));
    assert_eq!(
        near.axis_ends(Axis::X),
        (Vector3::new(0, 0, 0), Vector3::new(2 * ONE, 0, 0))
    );
    assert_eq!(
        near.axis_ends(Axis::Y),
        (Vector3::new(0, 0, 0), Vector3::new(0, 0, -ONE))
    );
    assert_eq!(
        near.axis_ends(Axis::Z),
        (Vector3::new(0, 0, -ONE), Vector3::new(0, 12 * ONE, -ONE))
    );
    assert_eq!(near.axis_label_point(Axis::X), Vector3::new(2 * ONE + 66_666, 0, 0));
    assert_eq!(near.axis_label_point(Axis::Y), Vector3::new(0, 0, -ONE - 100_000));
    assert_eq!(near.axis_label_point(Axis::Z), Vector3::new(0, 13_500_000, -ONE));

    let far = make_layout(plot.get_axes().get_axes(), -180 * ONE - 1);
    assert!(far.flipped);
    assert_eq!(
        far.dash_ends(Axis::X, 1),
        (Vector3::new(500_000, 0, -ONE - 125_000), Vector3::new(500_000, 0, -ONE + 125_000))
    );
    assert_eq!(far.label_point(Axis::Z, 1), Vector3::new(0, 500_000, 250_000));
    assert_eq!(far.corner_point(Panel::Back, 0, 0), Vector3::new(0, 0, 0));
    assert_eq!(
        far.axis_ends(Axis::X),
        (Vector3::new(0, 0, -ONE), Vector3::new(2 * ONE, 0, -ONE))
    );
    assert!(!make_layout(plot.get_axes().get_axes(), -180 * ONE).flipped);
}

#[test]
fn frame_of_the_ramp() {
    let state = State::new(Plot3D::plot(ramp()).colormap("hot").title("ramp"));
    assert!(state.is_drawable(px(800), px(600)));
    let frame = state.draw(px(800), px(600));
    // ticks: x 0..=2, z 0..=12, y 0..=1; panels 2x1, 2x12, 12x1; 2 surface cells
    let ticks = 2 * (3 + 13 + 2);
    let panels = 2 + 24 + 12;
    assert_eq!(frame.len(), 1 + ticks + panels + 6 + 2);
    assert_eq!(
        frame[0],
        Primitive::Text {
            position: Point { x: px(400), y: px(30) },
            label: Label::Text(String::from("ramp")),
            size: 30 * ONE,
            horizontal: HorizontalAlignment::Left,
            vertical: VerticalAlignment::Top,
        }
    );
    let layout = make_layout(state.plot.get_axes().get_axes(), state.angles.1);
    let projector = Projector::new(&layout, &state.camera, px(800), px(600));
    assert_eq!(projector.x_window.len(), 1001);
    // the windows are centred on the image of the origin, (-1, ONE) for this camera
    assert_eq!(projector.x_window[0], (-18 * ONE - 1, px(80)));
    assert_eq!(projector.x_window[1000], (18 * ONE - 1, px(720)));
    assert_eq!(projector.y_window[0], (-17 * ONE, px(540)));
    assert_eq!(projector.y_window[1000], (19 * ONE, px(60)));
    // first x tick: mark and label
    let ends = layout.dash_ends(Axis::X, 0);
    assert_eq!(
        frame[1],
        Primitive::Line {
            from: projector.snap(&ends.0),
            to: projector.snap(&ends.1),
            color: Color::black(),
            width: 2 * ONE,
        }
    );
    assert_eq!(
        frame[2],
        Primitive::Text {
            position: projector.snap(&layout.label_point(Axis::X, 0)),
            label: Label::Number { value: 0, decimals: 0 },
            size: 16 * ONE,
            horizontal: HorizontalAlignment::Center,
            vertical: VerticalAlignment::Top,
        }
    );
    // the z ticks follow the x ticks; their labels are left-aligned
    match &frame[1 + 6 + 2 * 12 + 1] {
        Primitive::Text { label, horizontal, .. } => {
            assert_eq!(*label, Label::Number { value: 12 * ONE, decimals: 0 });
            assert_eq!(*horizontal, HorizontalAlignment::Left);
        }
        other => panic!("unexpected {other:?}"),
    }
    // the first floor cell
    let first_panel = 1 + ticks;
    assert_eq!(
        frame[first_panel],
        Primitive::Quad {
            corners: (
                projector.snap(&layout.corner_point(Panel::Floor, 0, 0)),
                projector.snap(&layout.corner_point(Panel::Floor, 0, 1)),
                projector.snap(&layout.corner_point(Panel::Floor, 1, 1)),
                projector.snap(&layout.corner_point(Panel::Floor, 1, 0)),
            ),
            fill: Color(990_000, 990_000, 990_000, ONE),
            stroke: Color(400_000, 400_000, 400_000, ONE),
            width: 2 * ONE,
        }
    );
    // axis names, then axis lines
    let first_axis = first_panel + panels;
    assert_eq!(
        frame[first_axis + 2],
        Primitive::Text {
            position: projector.snap(&layout.axis_label_point(Axis::Z)),
            label: Label::Text(String::from("z")),
            size: 20 * ONE,
            horizontal: HorizontalAlignment::Center,
            vertical: VerticalAlignment::Center,
        }
    );
    assert_eq!(
        frame[first_axis + 3],
        Primitive::Line {
            from: projector.snap(&Vector3::new(0, 0, 0)),
            to: projector.snap(&Vector3::new(2 * ONE, 0, 0)),
            color: Color::black(),
            width: 2 * ONE,
        }
    );
    // the two surface cells, coloured by the table entries 0 and 2
    assert_eq!(
        frame[first_axis + 6],
        Primitive::Quad {
            corners: (
                projector.snap(&Vector3::new(0, 0, 0)),
                projector.snap(&Vector3::new(ONE, ONE, 0)),
                projector.snap(&Vector3::new(ONE, 11 * ONE, -ONE)),
                projector.snap(&Vector3::new(0, 10 * ONE, -ONE)),
            ),
            fill: Color(0, 0, 0, ONE),
            stroke: Color::black(),
            width: 2 * ONE,
        }
    );
    match &frame[first_axis + 7] {
        Primitive::Quad { fill, corners, .. } => {
            assert_eq!(*fill, Color(600_000, 0, 0, ONE));
            assert_eq!(corners.2, projector.snap(&Vector3::new(2 * ONE, 12 * ONE, -ONE)));
        }
        other => panic!("unexpected {other:?}"),
    }
}

#[test]
fn snap_projects_then_looks_up() {
    let state = State::new(Plot3D::plot(ramp()));
    let layout = make_layout(state.plot.get_axes().get_axes(), state.angles.1);
    let projector = Projector::new(&layout, &Vector3::new(0, 0, -5 * ONE), px(800), px(600));
    // view: right (-1, 0, 0), forward (0, 0, 1), seen from (0, 0, -5)
    // horizontal: -x; vertical: z + 5, with the origin in the middle
    assert_eq!(projector.snap(&Vector3::new(0, 0, 0)), Point { x: px(400), y: px(300) });
    assert_eq!(projector.snap(&Vector3::new(-18 * ONE, 7, 18 * ONE)), Point { x: px(720), y: px(60) });
    assert_eq!(projector.snap(&Vector3::new(9 * ONE, 7, -9 * ONE)), Point { x: px(240), y: px(420) });
}

#[test]
fn surface_without_colormap_uses_its_colour() {
    let state = State::new(Plot3D::plot(ramp().color(Color::red())));
    let frame = state.draw(px(400), px(400));
    match frame.last().unwrap() {
        Primitive::Quad { fill, .. } => assert_eq!(*fill, Color(ONE, 0, 0, ONE)),
        other => panic!("unexpected {other:?}"),
    }
    let mut plain = ramp();
    plain.color = None;
    let frame = State::new(Plot3D::plot(plain)).draw(px(400), px(400));
    match frame.last().unwrap() {
        Primitive::Quad { fill, .. } => assert_eq!(*fill, Color(0, 0, ONE, ONE)),
        other => panic!("unexpected {other:?}"),
    }
}

#[test]
fn what_is_not_drawable() {
    let mut state = State::new(Plot3D::plot(ramp()));
    assert!(state.is_drawable(0, 0));
    assert!(!state.is_drawable(-1, 0));
    state.camera = Vector3::new(0, 1_000_000_000_001, 0);
    assert!(!state.is_drawable(px(10), px(10)));
    state.camera = Vector3::new(0, ONE, 0);
    assert!(state.is_drawable(px(10), px(10)));
    state.plot.axes.axes.spacing = [ONE, -1, -5];
    assert!(state.is_drawable(px(10), px(10)));
    state.plot.axes.axes.spacing = [-1, -1, -5];
    assert!(!state.is_drawable(px(10), px(10)));
    state.plot.axes.axes.spacing = [ONE, ONE, ONE];
    state.plot.axes.axes.zlim = [0, 1_000_000_000_001];
    assert!(!state.is_drawable(px(10), px(10)));
    state.plot.axes.axes.zlim = [0, ONE];
    state.plot.surface.as_mut().unwrap().colormap = Some(plotting::plot::Colormap(vec![(0, 0, 0)]));
    assert!(!state.is_drawable(px(10), px(10)));
}
