use plotting::fixed::ONE;
use plotting::math::Angle;
use plotting::plot::Plot3D;
use plotting::vector::Vector3;
use plotting::window_3d::{Camera, Event, State, Status};

fn px(pixels: i64) -> i64 {
    pixels * ONE
}

#[test]
fn drag_to_the_right_turns_the_yaw_by_a_tenth_of_a_degree_per_pixel() {
    let mut state = State::new(Plot3D::new());
    let (pitch, yaw) = state.angles;
    let at = Some((px(100), px(100)));
    assert_eq!(state.update(Event::ButtonPressed, at), (Status::Captured, None));
    assert_eq!(state.camera_control, Camera::Pressed(px(100), px(100)));
    let moved = Event::CursorMoved { x: px(110), y: px(100) };
    assert_eq!(state.update(moved, Some((px(110), px(100)))), (Status::Captured, None));
    assert_eq!(state.angles, (pitch, yaw + ONE));
    assert_eq!(state.camera_control, Camera::Pressed(px(110), px(100)));
    assert!(state.stale);
    assert_eq!(state.update(Event::ButtonReleased, Some((px(110), px(100)))), (Status::Captured, None));
    assert_eq!(state.camera_control, Camera::Released);
    assert_eq!(state.angles, (pitch, yaw + ONE));
}

#[test]
fn second_drag_starts_from_its_own_anchor() {
    let mut state = State::new(Plot3D::new());
    let (pitch, yaw) = state.angles;
    state.update(Event::ButtonPressed, Some((px(100), px(100))));
    state.update(Event::CursorMoved { x: px(110), y: px(100) }, Some((px(110), px(100))));
    state.update(Event::ButtonReleased, Some((px(110), px(100))));
    // moves while released change nothing
    state.update(Event::CursorMoved { x: px(500), y: px(400) }, Some((px(500), px(400))));
    assert_eq!(state.angles, (pitch, yaw + ONE));
    assert_eq!(state.camera_control, Camera::Released);
    state.update(Event::ButtonPressed, Some((px(500), px(400))));
    state.update(Event::CursorMoved { x: px(520), y: px(400) }, Some((px(520), px(400))));
    // 20 pixels from the second press; from the first it would be 420
    assert_eq!(state.angles, (pitch, yaw + ONE + 2 * ONE));
}

#[test]
fn anchor_rolls_along_during_a_drag() {
    let mut state = State::new(Plot3D::new());
    let (pitch, yaw) = state.angles;
    state.update(Event::ButtonPressed, Some((px(0), px(0))));
    state.update(Event::CursorMoved { x: px(30), y: px(0) }, Some((px(30), px(0))));
    state.update(Event::CursorMoved { x: px(40), y: px(-20) }, Some((px(40), px(-20))));
    assert_eq!(state.camera_control, Camera::Pressed(px(40), px(-20)));
    // second move: 10 to the right and 20 up, from (30, 0)
    assert_eq!(state.angles, (pitch + 2 * ONE, yaw + 3 * ONE + ONE));
}

#[test]
fn pitch_stops_at_89_degrees() {
    let mut state = State::new(Plot3D::new());
    state.update(Event::ButtonPressed, Some((0, 0)));
    state.update(Event::CursorMoved { x: 0, y: px(-1000) }, Some((0, px(-1000))));
    assert_eq!(state.angles.0, 89 * ONE);
    state.update(Event::CursorMoved { x: 0, y: px(5000) }, Some((0, px(5000))));
    assert_eq!(state.angles.0, -89 * ONE);
    state.update(Event::CursorMoved { x: 0, y: px(5000) - 10 }, Some((0, px(5000) - 10)));
    assert_eq!(state.angles.0, -89 * ONE + 1);
}

#[test]
fn yaw_saturates() {
    let mut state = State::new(Plot3D::new());
    state.angles = (0, i64::MAX - 1);
    state.update(Event::ButtonPressed, Some((i64::MIN, 0)));
    state.update(Event::CursorMoved { x: i64::MAX, y: 0 }, Some((i64::MAX, 0)));
    assert_eq!(state.angles, (0, i64::MAX));
    state.angles = (0, i64::MIN + 1);
    state.update(Event::CursorMoved { x: i64::MIN, y: 0 }, Some((i64::MIN, 0)));
    assert_eq!(state.angles, (0, i64::MIN));
}

#[test]
fn events_off_the_canvas_are_ignored() {
    let mut state = State::new(Plot3D::new());
    let before = state.angles;
    assert_eq!(state.update(Event::ButtonPressed, None), (Status::Ignored, None));
    assert_eq!(state.camera_control, Camera::Released);
    state.update(Event::ButtonPressed, Some((5, 5)));
    assert_eq!(
        state.update(Event::CursorMoved { x: px(50), y: px(50) }, None),
        (Status::Ignored, None)
    );
    assert_eq!(state.update(Event::ButtonReleased, None), (Status::Ignored, None));
    assert_eq!(state.camera_control, Camera::Pressed(5, 5));
    assert_eq!(state.angles, before);
}

#[test]
fn other_events() {
    let mut state = State::new(Plot3D::new());
    state.mark_drawn();
    assert_eq!(state.update(Event::OtherPointer, Some((1, 1))), (Status::Captured, None));
    assert_eq!(state.update(Event::Other, Some((1, 1))), (Status::Ignored, None));
    assert_eq!(state.camera_control, Camera::Released);
    assert!(!state.stale);
    state.update(Event::ButtonPressed, Some((1, 1)));
    assert!(!state.stale);
}

#[test]
fn orient_places_the_camera_on_the_unit_sphere() {
    let mut state = State::new(Plot3D::new());
    state.mark_drawn();
    // pitch 0, yaw 0: direction (1, 0, 0)
    state.orient(&Angle { sin: 0, cos: ONE }, &Angle { sin: 0, cos: ONE });
    assert_eq!(state.camera, Vector3::new(ONE, 0, 0));
    assert!(state.stale);
    // pitch 30 degrees, yaw 90 degrees: direction (0, 1/2, cos 30), already of unit length
    state.orient(&Angle { sin: 500_000, cos: 866_025 }, &Angle { sin: ONE, cos: 0 });
    assert_eq!(state.camera, Vector3::new(0, 500_000, 866_025));
    // the first component is the square of the yaw's cosine, whatever the pitch
    state.orient(&Angle { sin: 0, cos: ONE }, &Angle { sin: 0, cos: -ONE });
    assert_eq!(state.camera, Vector3::new(ONE, 0, 0));
    state.orient(&Angle { sin: ONE, cos: 0 }, &Angle { sin: 600_000, cos: 800_000 });
    // direction (0.64, 1, 0), of length 1.187...
    assert_eq!(state.camera, Vector3::new(539_053, 842_271, 0));
}

#[test]
fn new_state_is_at_rest() {
    let state = State::new(Plot3D::new());
    assert_eq!(state.camera, Vector3::new(198_666, 756_781, -622_748));
    assert_eq!(state.angles, (47_499_996, -116_100_006));
    assert_eq!(state.camera_control, Camera::Released);
    assert!(state.stale);
}
