//! The shared input-state bridge between the asynchronous input
//! listener and the control loop.
//!
//! The listener classifies every raw input event and folds it into a
//! pair of leveled button flags; the control loop polls those flags to
//! gate tracking and triggering.  The designated panic key is reported
//! back to the caller as a demand for immediate shutdown rather than
//! acted on here.  The I/O shell owns the shared storage (a pair of
//! atomic flags written only by the listener thread); this module holds
//! the transition and gating logic itself.

use vstd::prelude::*;

verus! {

/// A classified input event, as the listener hands it to the bridge.
#[derive(Clone, Copy, Debug, PartialEq, Eq, Structural)]
pub enum InputEvent {
    /// Left button pressed.
    LeftPress,
    /// Left button released.
    LeftRelease,
    /// Right button pressed.
    RightPress,
    /// Right button released.
    RightRelease,
    /// The designated panic key: an out-of-band kill switch.
    PanicKey,
    /// Any other event; ignored.
    Other,
}

/// Leveled button state: written by the listener, polled by the
/// control loop.
#[derive(Clone, Copy, Debug, PartialEq, Eq, Structural)]
pub struct InputState {
    /// The left button is currently held.
    pub mouse_left_pressed: bool,
    /// The right button is currently held.
    pub mouse_right_pressed: bool,
}

impl InputState {
    /// Both buttons start released.
    pub fn new() -> (r: Self)
        ensures
            !r.mouse_left_pressed,
            !r.mouse_right_pressed,
    {
        InputState { mouse_left_pressed: false, mouse_right_pressed: false }
    }

    pub fn is_mouse_left_pressed(&self) -> (r: bool)
        ensures
            r == self.mouse_left_pressed,
    {
        self.mouse_left_pressed
    }

    pub fn is_mouse_right_pressed(&self) -> (r: bool)
        ensures
            r == self.mouse_right_pressed,
    {
        self.mouse_right_pressed
    }

    /// Fold one event into the button state.  The result says whether
    /// the event was the panic key, which demands immediate shutdown;
    /// the panic key and unrecognized events leave the state untouched.
    pub fn apply_event(&mut self, e: InputEvent) -> (exit: bool)
        ensures
            final(self).mouse_left_pressed == match e {
                InputEvent::LeftPress => true,
                InputEvent::LeftRelease => false,
                _ => old(self).mouse_left_pressed,
            },
            final(self).mouse_right_pressed == match e {
                InputEvent::RightPress => true,
                InputEvent::RightRelease => false,
                _ => old(self).mouse_right_pressed,
            },
            exit == (e == InputEvent::PanicKey),
    {
        match e {
            InputEvent::LeftPress => {
                self.mouse_left_pressed = true;
                false
            },
            InputEvent::LeftRelease => {
                self.mouse_left_pressed = false;
                false
            },
            InputEvent::RightPress => {
                self.mouse_right_pressed = true;
                false
            },
            InputEvent::RightRelease => {
                self.mouse_right_pressed = false;
                false
            },
            InputEvent::PanicKey => true,
            InputEvent::Other => false,
        }
    }
}

/// The tracking gate: the control loop tracks while a button whose
/// tracking mode is enabled is held.
pub fn tracking_allowed(state: &InputState, on_left: bool, on_right: bool) -> (r: bool)
    ensures
        r == ((state.mouse_left_pressed && on_left) || (state.mouse_right_pressed && on_right)),
{
    (state.mouse_left_pressed && on_left) || (state.mouse_right_pressed && on_right)
}

/// The trigger gate: when the trigger is tied to the right button, it
/// may only fire while that button is held.
pub fn trigger_allowed(state: &InputState, trigger_on_right: bool) -> (r: bool)
    ensures
        r == (!trigger_on_right || state.mouse_right_pressed),
{
    !trigger_on_right || state.mouse_right_pressed
}

} // verus!
