use aimcore::input_state::{tracking_allowed, trigger_allowed, InputEvent, InputState};

#[test]
fn buttons_start_released() {
    let s = InputState::new();
    assert!(!s.is_mouse_left_pressed());
    assert!(!s.is_mouse_right_pressed());
}

#[test]
fn press_and_release_track_each_button_independently() {
    let mut s = InputState::new();
    assert!(!s.apply_event(InputEvent::LeftPress));
    assert!(s.is_mouse_left_pressed());
    assert!(!s.is_mouse_right_pressed());
    assert!(!s.apply_event(InputEvent::RightPress));
    assert!(s.is_mouse_left_pressed());
    assert!(s.is_mouse_right_pressed());
    assert!(!s.apply_event(InputEvent::LeftRelease));
    assert!(!s.is_mouse_left_pressed());
    assert!(s.is_mouse_right_pressed());
    assert!(!s.apply_event(InputEvent::RightRelease));
    assert!(!s.is_mouse_right_pressed());
}

#[test]
fn unrecognized_events_change_nothing() {
    let mut s = InputState::new();
    s.apply_event(InputEvent::LeftPress);
    assert!(!s.apply_event(InputEvent::Other));
    assert!(s.is_mouse_left_pressed());
    assert!(!s.is_mouse_right_pressed());
}

#[test]
fn panic_key_demands_exit_without_touching_state() {
    let mut s = InputState::new();
    s.apply_event(InputEvent::RightPress);
    assert!(s.apply_event(InputEvent::PanicKey));
    assert!(!s.is_mouse_left_pressed());
    assert!(s.is_mouse_right_pressed());
}

#[test]
fn tracking_gate_follows_configured_buttons() {
    let mut s = InputState::new();
    assert!(!tracking_allowed(&s, true, true));
    s.apply_event(InputEvent::LeftPress);
    assert!(tracking_allowed(&s, true, false));
    assert!(!tracking_allowed(&s, false, true));
    s.apply_event(InputEvent::LeftRelease);
    s.apply_event(InputEvent::RightPress);
    assert!(tracking_allowed(&s, false, true));
    assert!(!tracking_allowed(&s, true, false));
    assert!(!tracking_allowed(&s, false, false));
}

#[test]
fn trigger_gate_only_binds_when_configured() {
    let s = InputState::new();
    assert!(trigger_allowed(&s, false));
    assert!(!trigger_allowed(&s, true));
    let mut held = InputState::new();
    held.apply_event(InputEvent::RightPress);
    assert!(trigger_allowed(&held, true));
}
