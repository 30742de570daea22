use aimcore::detect::Detection;
use aimcore::nms::nms_center_opt;

fn det(cx: i64, cy: i64, w: i64, h: i64, conf: i64) -> Detection {
    Detection { cx, cy, w, h, conf }
}

#[test]
fn empty_input_empty_output() {
    let out = nms_center_opt(&Vec::new(), 500);
    assert!(out.is_empty());
}

#[test]
fn single_detection_unchanged() {
    let d = det(100, 200, 50, 60, 900);
    let out = nms_center_opt(&vec![d], 500);
    assert_eq!(out, vec![d]);
}

#[test]
fn identical_boxes_keep_highest_confidence() {
    // two identical boxes, confidences 0.9 and 0.5, threshold 0.5:
    // only the 0.9 one survives
    let lo = det(100, 100, 40, 40, 500);
    let hi = det(100, 100, 40, 40, 900);
    let out = nms_center_opt(&vec![lo, hi], 500);
    assert_eq!(out, vec![hi]);
}

#[test]
fn disjoint_boxes_all_survive() {
    let a = det(0, 0, 10, 10, 900);
    let b = det(100, 100, 10, 10, 800);
    let c = det(200, 200, 10, 10, 700);
    let out = nms_center_opt(&vec![c, a, b], 500);
    assert_eq!(out.len(), 3);
    for d in [a, b, c] {
        assert!(out.contains(&d));
    }
}

#[test]
fn output_is_subset_without_heavy_overlap() {
    // one cluster of three overlapping boxes plus a separate box: the
    // cluster collapses to its highest-confidence member
    let c1 = det(100, 100, 100, 100, 600);
    let c2 = det(105, 100, 100, 100, 950);
    let c3 = det(100, 95, 100, 100, 700);
    let lone = det(500, 500, 40, 40, 300);
    let input = vec![c1, c2, c3, lone];
    let out = nms_center_opt(&input, 500);
    assert_eq!(out, vec![c2, lone]);
    for d in &out {
        assert!(input.contains(d));
    }
}

#[test]
fn iou_exactly_at_threshold_does_not_suppress() {
    // boxes shifted by half their width: IoU = 1/3, i.e. 333.33 per
    // mille; a threshold of 334 keeps both, 333 drops the weaker
    let a = det(0, 0, 100, 100, 900);
    let b = det(50, 0, 100, 100, 800);
    let kept_at_334 = nms_center_opt(&vec![a, b], 334);
    assert_eq!(kept_at_334.len(), 2);
    let kept_at_333 = nms_center_opt(&vec![a, b], 333);
    assert_eq!(kept_at_333, vec![a]);
}

#[test]
fn zero_area_boxes_never_suppress_each_other() {
    // a degenerate box has union zero with itself; IoU counts as zero
    let a = det(10, 10, 0, 0, 900);
    let b = det(10, 10, 0, 0, 800);
    let out = nms_center_opt(&vec![a, b], 500);
    assert_eq!(out.len(), 2);
}
