use plane_view::input::{Flow, InputEvent, Key, ViewState, PAN_STEP};
use plane_view::view::{MAX_ZOOM, MIN_ZOOM, UNIT};

#[test]
fn initial_state() {
    let s = ViewState::new();
    assert_eq!((s.view.x, s.view.y, s.view.zoom), (0, 0, UNIT));
    assert_eq!(s.movement, (0, 0));
}

#[test]
fn wheel_up_then_down() {
    let mut s = ViewState::new();
    assert_eq!(s.handle_event(InputEvent::Wheel(1)), Flow::Continue);
    assert_eq!(s.view.zoom, 1200000);
    s.handle_event(InputEvent::Wheel(-1));
    assert_eq!(s.view.zoom, UNIT);
}

#[test]
fn zoom_is_clamped() {
    let mut s = ViewState::new();
    for _ in 0..100 {
        s.handle_event(InputEvent::Wheel(3));
        assert!(s.view.zoom <= MAX_ZOOM);
    }
    assert_eq!(s.view.zoom, MAX_ZOOM);
    for _ in 0..100 {
        s.handle_event(InputEvent::Wheel(-3));
        assert!(s.view.zoom >= MIN_ZOOM);
    }
    assert_eq!(s.view.zoom, MIN_ZOOM);
}

#[test]
fn zero_wheel_delta_zooms_in() {
    let mut s = ViewState::new();
    s.handle_event(InputEvent::Wheel(0));
    assert_eq!(s.view.zoom, 833333);
}

#[test]
fn key_w_pans_while_held() {
    let mut s = ViewState::new();
    s.handle_event(InputEvent::KeyDown(Key::W));
    s.tick();
    assert_eq!(s.view.y, PAN_STEP);
    assert_eq!(s.view.x, 0);
    s.handle_event(InputEvent::KeyUp(Key::W));
    s.tick();
    assert_eq!(s.view.y, PAN_STEP);
}

#[test]
fn direction_keys_set_signs() {
    let mut s = ViewState::new();
    s.handle_event(InputEvent::KeyDown(Key::A));
    assert_eq!(s.movement, (PAN_STEP, 0));
    s.handle_event(InputEvent::KeyDown(Key::S));
    assert_eq!(s.movement, (PAN_STEP, -PAN_STEP));
    s.handle_event(InputEvent::KeyDown(Key::D));
    assert_eq!(s.movement, (-PAN_STEP, -PAN_STEP));
    s.tick();
    assert_eq!((s.view.x, s.view.y), (-PAN_STEP, -PAN_STEP));
}

#[test]
fn last_key_event_wins() {
    let mut s = ViewState::new();
    s.handle_event(InputEvent::KeyDown(Key::A));
    s.handle_event(InputEvent::KeyDown(Key::D));
    s.handle_event(InputEvent::KeyUp(Key::A));
    assert_eq!(s.movement, (0, 0));
}

#[test]
fn quit_and_escape_stop() {
    let mut s = ViewState::new();
    assert_eq!(s.handle_event(InputEvent::Quit), Flow::Stop);
    assert_eq!(s.handle_event(InputEvent::KeyDown(Key::Escape)), Flow::Stop);
    assert_eq!(s.handle_event(InputEvent::KeyDown(Key::Other)), Flow::Continue);
    assert_eq!(s.handle_event(InputEvent::Other), Flow::Continue);
}
