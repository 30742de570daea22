use aimcore::detect::Detection;
use aimcore::select::{select, should_trigger};

fn det(cx: i64, cy: i64, w: i64, h: i64, conf: i64) -> Detection {
    Detection { cx, cy, w, h, conf }
}

#[test]
fn no_boxes_no_target() {
    assert_eq!(select(&Vec::new(), 960, 540, 500), None);
}

#[test]
fn zero_range_gate_rejects_everything() {
    // max_range = 0 returns None for any non-empty box set
    let boxes = vec![det(960, 540, 100, 100, 900), det(0, 0, 10, 10, 800)];
    assert_eq!(select(&boxes, 960, 540, 0), None);
}

#[test]
fn anchor_sits_above_box_center() {
    // box centered on the screen center: anchor is (960, 530), so the
    // offset from the center is (0, -10)
    let boxes = vec![det(960, 540, 100, 100, 900)];
    assert_eq!(select(&boxes, 960, 540, 500), Some((0, -10)));
}

#[test]
fn nearest_anchor_wins() {
    let far = det(1200, 540, 100, 100, 900);
    let near = det(1000, 540, 100, 100, 100);
    let boxes = vec![far, near];
    assert_eq!(select(&boxes, 960, 540, 500), Some((40, -10)));
}

#[test]
fn equally_distant_anchors_keep_the_earlier_box() {
    let left = det(900, 540, 100, 0, 500);
    let right = det(1020, 540, 100, 0, 900);
    // anchors at (900, 540) and (1020, 540): both 60 pixels away
    let boxes = vec![left, right];
    assert_eq!(select(&boxes, 960, 540, 500), Some((-60, 0)));
}

#[test]
fn candidates_outside_the_gate_are_ignored() {
    // anchor distance exactly equal to the range is still rejected
    let boxes = vec![det(1060, 540, 100, 0, 900)];
    assert_eq!(select(&boxes, 960, 540, 100), None);
    assert_eq!(select(&boxes, 960, 540, 101), Some((100, 0)));
}

#[test]
fn trigger_fires_inside_padded_box() {
    // box (960, 540, 200, 200) with padding 10 contains the center
    let boxes = vec![det(960, 540, 200, 200, 900)];
    assert!(should_trigger(&boxes, 960, 540, 10));
}

#[test]
fn oversized_padding_inverts_the_box_and_never_fires() {
    // padding 150 shrinks the 200x200 box past zero size
    let boxes = vec![det(960, 540, 200, 200, 900)];
    assert!(!should_trigger(&boxes, 960, 540, 150));
}

#[test]
fn negative_padding_grows_the_box() {
    let boxes = vec![det(700, 540, 200, 200, 900)];
    assert!(!should_trigger(&boxes, 960, 540, 0));
    assert!(should_trigger(&boxes, 960, 540, -200));
}

#[test]
fn any_single_qualifying_box_suffices() {
    let off_center = det(0, 0, 50, 50, 900);
    let on_center = det(950, 540, 100, 100, 100);
    let boxes = vec![off_center, on_center];
    assert!(should_trigger(&boxes, 960, 540, 0));
}
