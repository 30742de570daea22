use aimcore::pid::MousePID;

#[test]
fn zero_offset_moves_nothing_and_keeps_state() {
    // a zero-magnitude offset has no direction: the controller must
    // neither move nor corrupt its state
    let mut pid = MousePID::new(1500, 200, 100, 100);
    assert_eq!(pid.update((0, 0), 16), (0, 0));
    assert_eq!(pid.last_error, 0);
    assert_eq!(pid.recent_error_mul_dts.len(), 0);
}

#[test]
fn proportional_term_scales_the_offset() {
    // kp = 1.0, no integral or derivative gain: a (30, 40) offset has
    // norm 50, output 50 pixels, shared back as (30, 40)
    let mut pid = MousePID::new(1000, 0, 0, 1000);
    assert_eq!(pid.update((30, 40), 10), (30, 40));
    assert_eq!(pid.last_error, 50);
    assert_eq!(pid.recent_error_mul_dts.len(), 1);
    assert_eq!(pid.recent_error_mul_dts.sum(), 500);
}

#[test]
fn output_is_clamped_per_axis() {
    let mut pid = MousePID::new(1000, 0, 0, 25);
    assert_eq!(pid.update((30, 40), 10), (25, 25));
    let mut pid2 = MousePID::new(1000, 0, 0, 25);
    assert_eq!(pid2.update((-30, 40), 10), (-25, 25));
}

#[test]
fn derivative_term_tracks_error_change() {
    // kd = 1.0: first tick sees the error jump from 0 to 5 over 10 ms,
    // giving 500 pixels of derivative output shared as (300, 400)
    let mut pid = MousePID::new(0, 0, 1000, 1_000_000);
    assert_eq!(pid.update((3, 4), 10), (300, 400));
    // same offset again: the error no longer changes, output drops to 0
    assert_eq!(pid.update((3, 4), 10), (0, 0));
}

#[test]
fn zero_time_step_suppresses_the_derivative() {
    let mut pid = MousePID::new(0, 0, 1000, 1_000_000);
    assert_eq!(pid.update((3, 4), 0), (0, 0));
    assert_eq!(pid.last_error, 5);
}

#[test]
fn integral_term_accumulates_past_error() {
    // ki = 1.0: the first tick has an empty history and moves nothing;
    // the second tick integrates the stored error * dt sample
    let mut pid = MousePID::new(0, 1000, 0, 1_000_000);
    assert_eq!(pid.update((30, 40), 1000), (0, 0));
    assert_eq!(pid.recent_error_mul_dts.sum(), 50_000);
    // integral term: 1.0 * 50_000 / 1000 = 50 pixels of output, shared
    // back along the (30, 40) direction of norm 50
    assert_eq!(pid.update((30, 40), 1000), (30, 40));
}

#[test]
fn integral_sum_climbs_monotonically_under_constant_offset() {
    // repeated updates with one constant offset: the integral sample
    // sum never decreases, and the emitted deltas stay clamped
    let mut pid = MousePID::new(0, 1000, 0, 33);
    let mut prev_sum = pid.recent_error_mul_dts.sum();
    for _ in 0..140 {
        let (dx, dy) = pid.update((30, 40), 1000);
        assert!(dx.abs() <= 33 && dy.abs() <= 33);
        let sum = pid.recent_error_mul_dts.sum();
        assert!(sum >= prev_sum);
        prev_sum = sum;
    }
    // by now the 128-slot buffer is full of identical samples
    assert_eq!(pid.recent_error_mul_dts.len(), 128);
    assert_eq!(prev_sum, 128 * 50_000);
}
