use plotting::fixed::{isqrt, ONE};
use plotting::math::{
    canonical_angles, cartesian_to_polar, create_camera, polar_to_cartesian, project,
    project_line, Angle, Viewpoint, PI,
};
use plotting::vector::{norm, normalize, Matrix3, Vector3};

fn dot(a: &Vector3, b: &Vector3) -> i128 {
    a.x as i128 * b.x as i128 + a.y as i128 * b.y as i128 + a.z as i128 * b.z as i128
}

fn angle(radians: f64) -> Angle {
    Angle {
        sin: (radians.sin() * ONE as f64).round() as i64,
        cos: (radians.cos() * ONE as f64).round() as i64,
    }
}

#[test]
fn isqrt_is_the_floor_of_the_root() {
    assert_eq!(isqrt(0), 0);
    assert_eq!(isqrt(1), 1);
    assert_eq!(isqrt(3), 1);
    assert_eq!(isqrt(4), 2);
    assert_eq!(isqrt(99), 9);
    assert_eq!(isqrt(1_000_000_000_000), 1_000_000);
    assert_eq!(isqrt(u128::MAX), u64::MAX);
}

#[test]
fn norm_and_normalize() {
    assert_eq!(norm(&Vector3::new(3 * ONE, 4 * ONE, 0)), 5 * ONE as u64);
    assert_eq!(norm(&Vector3::new(0, 0, 0)), 0);
    assert_eq!(
        normalize(&Vector3::new(3 * ONE, -4 * ONE, 0)),
        Vector3::new(600_000, -800_000, 0)
    );
    assert_eq!(normalize(&Vector3::new(0, 0, 0)), Vector3::new(0, 0, 0));
    assert_eq!(normalize(&Vector3::new(0, 0, -7)), Vector3::new(0, 0, -ONE));
    let far = 10_000_000_000_000;
    assert_eq!(normalize(&Vector3::new(far, -far, far)), Vector3::new(577_350, -577_351, 577_350));
}

#[test]
fn normalize_keeps_unit_length_down_to_one_raw_unit() {
    assert_eq!(normalize(&Vector3::new(1, 1, 0)), Vector3::new(707_107, 707_107, 0));
    assert_eq!(normalize(&Vector3::new(1, 1, 1)), Vector3::new(577_350, 577_350, 577_350));
    assert_eq!(normalize(&Vector3::new(-1, 0, 0)), Vector3::new(-ONE, 0, 0));
    for v in [
        Vector3::new(1, 1, 0),
        Vector3::new(1, -2, 3),
        Vector3::new(-7, 0, 1),
        Vector3::new(123_456, -5, 99),
        Vector3::new(10_000_000_000_000, 1, -1),
    ] {
        let u = normalize(&v);
        let square = ONE as i128 * ONE as i128;
        assert!((dot(&u, &u) - square).abs() <= 8 * ONE as i128 + 3, "{u:?}");
    }
}

#[test]
fn camera_on_the_depth_axis() {
    let pos = Vector3::new(0, 0, -5 * ONE);
    let origin = Vector3::new(0, 0, 0);
    let view = create_camera(&pos, &origin);
    assert_eq!(
        view,
        Viewpoint {
            axes: Matrix3 {
                right: Vector3::new(-ONE, 0, 0),
                up: Vector3::new(0, ONE, 0),
                forward: Vector3::new(0, 0, ONE),
            },
            eye: pos,
        }
    );
    // The camera sees its own position at the origin of its axes,
    assert_eq!(project(&view, &pos), [0, 0]);
    // and its target straight ahead, as far away as the camera is.
    assert_eq!(project(&view, &origin), [0, 5 * ONE]);
}

#[test]
fn camera_off_the_axes_looks_straight_at_its_target() {
    let origin = Vector3::new(0, 0, 0);
    for pos in [
        Vector3::new(ONE, ONE, ONE),
        Vector3::new(198_666, 756_781, -622_748),
        Vector3::new(-3 * ONE, 2 * ONE, 7 * ONE),
        Vector3::new(500 * ONE, -ONE, 3),
    ] {
        let view = create_camera(&pos, &origin);
        assert_eq!(view.eye, pos);
        assert_eq!(project(&view, &pos), [0, 0]);
        let distance = norm(&pos) as i64;
        let tolerance = distance / 100_000 + 2;
        let toward = Vector3::new(-pos.x, -pos.y, -pos.z);
        let right = (dot(&view.axes.right, &toward) / ONE as i128) as i64;
        let up = (dot(&view.axes.up, &toward) / ONE as i128) as i64;
        assert!(right.abs() <= tolerance, "{right} off the axis to the right");
        assert!(up.abs() <= tolerance, "{up} off the axis upward");
        let seen = project(&view, &origin);
        assert!(seen[0].abs() <= tolerance);
        assert!((seen[1] - distance).abs() <= tolerance, "{} against {distance}", seen[1]);
    }
    let view = create_camera(&Vector3::new(ONE, ONE, ONE), &origin);
    assert_eq!(view.axes.right, Vector3::new(707_106, 0, -707_107));
    assert_eq!(view.axes.up, Vector3::new(-408_249, 816_496, -408_249));
    assert_eq!(view.axes.forward, Vector3::new(-577_351, -577_351, -577_351));
    assert_eq!(project(&view, &origin), [1, 1_732_053]);
}

#[test]
fn camera_axes_are_unit_and_perpendicular() {
    let cases = [
        (Vector3::new(198_666, 756_781, -622_748), Vector3::new(0, 0, 0)),
        (Vector3::new(0, 0, 0), Vector3::new(1, 1, 0)),
        (Vector3::new(5, 5, 5), Vector3::new(4, 7, 5)),
        (Vector3::new(-ONE, 0, 3 * ONE), Vector3::new(ONE, 900 * ONE, 0)),
    ];
    for (pos, target) in cases {
        let axes = create_camera(&pos, &target).axes;
        let square = ONE as i128 * ONE as i128;
        for axis in [&axes.right, &axes.up, &axes.forward] {
            assert!((dot(axis, axis) - square).abs() <= 8 * ONE as i128 + 3, "{axis:?}");
        }
        let slack = 3 * ONE as i128;
        assert!(dot(&axes.right, &axes.up).abs() <= slack);
        assert!(dot(&axes.right, &axes.forward).abs() <= slack);
        assert!(dot(&axes.up, &axes.forward).abs() <= slack);
        // forward points from the camera to the target
        let toward = Vector3::new(target.x - pos.x, target.y - pos.y, target.z - pos.z);
        assert!(dot(&axes.forward, &toward) > 0);
        assert_eq!(axes.forward, normalize(&toward));
        // right is level: it has no component along the world's up direction
        assert_eq!(axes.right.y, 0);
    }
    let short = create_camera(&Vector3::new(0, 0, 0), &Vector3::new(1, 1, 0)).axes;
    assert_eq!(short.forward, Vector3::new(707_107, 707_107, 0));
}

#[test]
fn camera_straight_above_the_target_has_a_basis() {
    let axes = create_camera(&Vector3::new(0, 5 * ONE, 0), &Vector3::new(0, 0, 0)).axes;
    assert_eq!(axes.forward, Vector3::new(0, -ONE, 0));
    assert_eq!(axes.right, Vector3::new(-ONE, 0, 0));
    assert_eq!(axes.up, Vector3::new(0, 0, ONE));
    let below = create_camera(&Vector3::new(0, -2 * ONE, 0), &Vector3::new(0, 0, 0)).axes;
    assert_eq!(below.forward, Vector3::new(0, ONE, 0));
    assert_eq!(below.right, Vector3::new(ONE, 0, 0));
    assert_eq!(below.up, Vector3::new(0, 0, ONE));
}

#[test]
fn camera_at_its_target_looks_along_the_depth_axis() {
    let here = Vector3::new(7, -3, 11);
    let view = create_camera(&here, &here);
    assert_eq!(view.axes.forward, Vector3::new(0, 0, ONE));
    assert_eq!(view.axes.right, Vector3::new(-ONE, 0, 0));
    assert_eq!(view.axes.up, Vector3::new(0, ONE, 0));
    assert_eq!(view.eye, here);
}

#[test]
fn project_keeps_right_and_forward_components() {
    let view = Viewpoint {
        axes: Matrix3 {
            right: Vector3::new(ONE, 0, 0),
            up: Vector3::new(0, ONE, 0),
            forward: Vector3::new(0, ONE / 2, -ONE / 4),
        },
        eye: Vector3::new(ONE, ONE, ONE),
    };
    // seen from the camera the point lies at (2, 3, 4):
    // along right 2, along forward 3/2 - 4/4
    assert_eq!(project(&view, &Vector3::new(3 * ONE, 4 * ONE, 5 * ONE)), [2 * ONE, ONE / 2]);
    // rounding is toward negative infinity
    assert_eq!(project(&view, &Vector3::new(ONE - 1, ONE, ONE)), [-1, 0]);
    let third = Viewpoint {
        axes: Matrix3 {
            right: Vector3::new(ONE / 3, 0, 0),
            up: Vector3::new(0, 0, 0),
            forward: Vector3::new(0, 0, 0),
        },
        eye: Vector3::new(5, 0, 0),
    };
    assert_eq!(project(&third, &Vector3::new(4, 0, 0)), [-1, 0]);
    assert_eq!(project(&third, &Vector3::new(6, 0, 0)), [0, 0]);
}

#[test]
fn project_at_the_limits() {
    let axis = Vector3::new(ONE, ONE, ONE);
    let view = Viewpoint {
        axes: Matrix3 { right: axis, up: axis, forward: axis },
        eye: Vector3::new(-1_000_000_000_000, 0, 1_000_000_000_000),
    };
    let far = Vector3::new(2_000_000_000_000, 3_000_000_000_000, 4_000_000_000_000);
    assert_eq!(project(&view, &far), [9_000_000_000_000, 9_000_000_000_000]);
    let near = Vector3::new(-4_000_000_000_000, -3_000_000_000_000, -2_000_000_000_000);
    assert_eq!(project(&view, &near), [-9_000_000_000_000, -9_000_000_000_000]);
}

#[test]
fn project_line_projects_both_ends() {
    let view = create_camera(&Vector3::new(0, 0, -5 * ONE), &Vector3::new(0, 0, 0));
    let a = Vector3::new(ONE, 2 * ONE, 3 * ONE);
    let b = Vector3::new(-ONE, 0, 7);
    let ends = project_line(&view, &a, &b);
    let pa = project(&view, &a);
    let pb = project(&view, &b);
    assert_eq!(ends, [(pa[0], pa[1]), (pb[0], pb[1])]);
    assert_eq!(ends, [(-ONE, 8 * ONE), (ONE, 5 * ONE + 7)]);
}

#[test]
fn polar_to_cartesian_on_the_axes() {
    let zero = Angle { sin: 0, cos: ONE };
    let quarter = Angle { sin: ONE, cos: 0 };
    assert_eq!(polar_to_cartesian(2 * ONE, &zero, &zero), Vector3::new(0, 2 * ONE, 0));
    assert_eq!(polar_to_cartesian(2 * ONE, &quarter, &zero), Vector3::new(2 * ONE, 0, 0));
    assert_eq!(polar_to_cartesian(2 * ONE, &quarter, &quarter), Vector3::new(0, 0, -2 * ONE));
    assert_eq!(
        polar_to_cartesian(i64::MAX, &quarter, &quarter),
        Vector3::new(0, 0, -i64::MAX)
    );
}

#[test]
fn canonical_angles_wrap() {
    assert_eq!(canonical_angles(1_000_000, 500_000), (1_000_000, 500_000));
    assert_eq!(canonical_angles(PI, 0), (PI, 0));
    assert_eq!(canonical_angles(PI + 5, 7), (5, PI + 7));
    assert_eq!(canonical_angles(-250_000, -PI), (250_000, 0));
    assert_eq!(canonical_angles(0, 9), (0, 9));
    assert_eq!(canonical_angles(i64::MIN, i64::MAX), (i64::MAX, i64::MAX));
}

#[test]
fn cartesian_polar_round_trip() {
    let cases = [
        Vector3::new(3 * ONE, 4 * ONE, 5 * ONE),
        Vector3::new(-2 * ONE, ONE, 7 * ONE),
        Vector3::new(198_666, 756_781, -622_748),
        Vector3::new(-ONE, -ONE, -ONE),
    ];
    for v in cases {
        let r = norm(&v) as f64;
        let theta = (v.y as f64 / r).acos();
        let phi = (-(v.z as f64)).atan2(v.x as f64);
        let polar = cartesian_to_polar(
            &v,
            (theta * ONE as f64).round() as i64,
            (phi * ONE as f64).round() as i64,
        );
        assert_eq!(polar.0 as u64, norm(&v));
        assert!((0..=PI).contains(&polar.1));
        let back = polar_to_cartesian(
            polar.0,
            &angle(polar.1 as f64 / ONE as f64),
            &angle(polar.2 as f64 / ONE as f64),
        );
        let tolerance = (polar.0 / 100_000).max(10);
        assert!((back.x - v.x).abs() <= tolerance, "{back:?} against {v:?}");
        assert!((back.y - v.y).abs() <= tolerance, "{back:?} against {v:?}");
        assert!((back.z - v.z).abs() <= tolerance, "{back:?} against {v:?}");
    }
}
