use aimcore::detect::{filter_by_confidence, scale_to_screen, Detection};
use aimcore::pixels::rgba8_to_rgb8;

fn det(cx: i64, cy: i64, w: i64, h: i64, conf: i64) -> Detection {
    Detection { cx, cy, w, h, conf }
}

#[test]
fn confidence_filter_keeps_order_and_exceeders_only() {
    let a = det(1, 1, 1, 1, 900);
    let b = det(2, 2, 2, 2, 300);
    let c = det(3, 3, 3, 3, 500);
    let out = filter_by_confidence(&vec![a, b, c], 400);
    assert_eq!(out, vec![a, c]);
}

#[test]
fn confidence_exactly_at_threshold_is_dropped() {
    let a = det(1, 1, 1, 1, 400);
    let out = filter_by_confidence(&vec![a], 400);
    assert!(out.is_empty());
}

#[test]
fn scaling_maps_model_units_to_screen_pixels() {
    // model space is 1000 units wide; a box in the middle of the frame
    // lands in the middle of a 1920x1080 screen
    let d = det(500, 500, 100, 200, 900);
    let out = scale_to_screen(&vec![d], 1920, 1080, 1000);
    assert_eq!(out, vec![det(960, 540, 192, 216, 900)]);
}

#[test]
fn scaling_rounds_down() {
    let d = det(333, 333, 1, 1, 500);
    let out = scale_to_screen(&vec![d], 100, 100, 1000);
    // 333 * 100 / 1000 = 33.3 and 1 * 100 / 1000 = 0.1, both floored
    assert_eq!(out, vec![det(33, 33, 0, 0, 500)]);
}

#[test]
fn alpha_channel_is_dropped() {
    let rgba: Vec<u8> = vec![1, 2, 3, 255, 10, 20, 30, 128];
    assert_eq!(rgba8_to_rgb8(&rgba), vec![1, 2, 3, 10, 20, 30]);
}

#[test]
fn empty_pixel_buffer_stays_empty() {
    assert_eq!(rgba8_to_rgb8(&Vec::new()), Vec::<u8>::new());
}
