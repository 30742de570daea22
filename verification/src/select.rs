//! Aim-target selection and the trigger-zone test, over screen-space
//! boxes.
//!
//! The selector aims at an anchor point near the top of each box (the
//! horizontal center, one tenth of the box height above the vertical
//! center) and picks the anchor nearest the screen center, rejecting
//! outright anything farther than the range gate.  The trigger test
//! fires when any box, shrunk by a padding margin on all sides, strictly
//! contains the screen center.

use crate::detect::{all_in_bounds, Detection};
use crate::COORD_LIMIT;
use vstd::prelude::*;

verus! {

/// Horizontal anchor: the box center.
pub open spec fn anchor_x(d: Detection) -> int {
    d.cx as int
}

/// Vertical anchor: a tenth of the box height above the box center.
pub open spec fn anchor_y(d: Detection) -> int {
    d.cy - d.h as int / 10
}

/// Squared distance from the box anchor to the screen center.
pub open spec fn dist2(d: Detection, cx: int, cy: int) -> int {
    let dx = anchor_x(d) - cx;
    let dy = anchor_y(d) - cy;
    dx * dx + dy * dy
}

/// The detection at index `i` wins the selection: its anchor lies
/// strictly inside the range gate, no anchor lies closer, and every
/// earlier detection lies strictly farther (first-seen wins ties).
pub open spec fn chosen(boxes: Seq<Detection>, cx: int, cy: int, gate2: int, i: int) -> bool {
    &&& 0 <= i < boxes.len()
    &&& dist2(boxes[i], cx, cy) < gate2
    &&& forall|j: int|
        0 <= j < boxes.len() ==> dist2(#[trigger] boxes[j], cx, cy) >= dist2(boxes[i], cx, cy)
    &&& forall|j: int| 0 <= j < i ==> dist2(#[trigger] boxes[j], cx, cy) > dist2(boxes[i], cx, cy)
}

/// Pick the aim target: the offset from the screen center to the anchor
/// of the nearest box inside the range limit, or `None` when every box
/// lies too far out.
pub fn select(boxes: &Vec<Detection>, center_x: i64, center_y: i64, max_range: i64) -> (r: Option<
    (i64, i64),
>)
    requires
        all_in_bounds(boxes@),
        -COORD_LIMIT <= center_x <= COORD_LIMIT,
        -COORD_LIMIT <= center_y <= COORD_LIMIT,
        0 <= max_range <= COORD_LIMIT,
    ensures
        match r {
            Option::None => forall|i: int|
                0 <= i < boxes@.len() ==> dist2(
                    #[trigger] boxes@[i],
                    center_x as int,
                    center_y as int,
                ) >= max_range * max_range,
            Option::Some(off) => exists|i: int|
                {
                    &&& #[trigger] chosen(
                        boxes@,
                        center_x as int,
                        center_y as int,
                        max_range * max_range,
                        i,
                    )
                    &&& off.0 == anchor_x(boxes@[i]) - center_x
                    &&& off.1 == anchor_y(boxes@[i]) - center_y
                },
        },
        max_range == 0 ==> r is None,
{
    proof {
        assert(max_range * max_range <= 1_000_000_000_000 && max_range * max_range >= 0)
            by (nonlinear_arith)
            requires
                0 <= max_range <= 1_000_000,
        ;
    }
    let gate2: i64 = max_range * max_range;
    let mut best_d2: i64 = gate2;
    let mut best_off: (i64, i64) = (0, 0);
    let mut have: bool = false;
    let ghost mut best_idx: int = 0;
    let mut i: usize = 0;
    while i < boxes.len()
        invariant
            all_in_bounds(boxes@),
            -COORD_LIMIT <= center_x <= COORD_LIMIT,
            -COORD_LIMIT <= center_y <= COORD_LIMIT,
            0 <= max_range <= COORD_LIMIT,
            gate2 == max_range * max_range,
            i <= boxes@.len(),
            0 <= best_d2,
            !have ==> best_d2 == gate2 && forall|j: int|
                0 <= j < i ==> dist2(#[trigger] boxes@[j], center_x as int, center_y as int)
                    >= gate2,
            have ==> {
                &&& 0 <= best_idx < i
                &&& best_d2 == dist2(boxes@[best_idx], center_x as int, center_y as int)
                &&& best_d2 < gate2
                &&& best_off.0 == anchor_x(boxes@[best_idx]) - center_x
                &&& best_off.1 == anchor_y(boxes@[best_idx]) - center_y
                &&& forall|j: int|
                    0 <= j < i ==> dist2(#[trigger] boxes@[j], center_x as int, center_y as int)
                        >= best_d2
                &&& forall|j: int|
                    0 <= j < best_idx ==> dist2(
                        #[trigger] boxes@[j],
                        center_x as int,
                        center_y as int,
                    ) > best_d2
            },
        decreases boxes@.len() - i,
    {
        let b = boxes[i];
        let hy: i64 = ((b.h as u64) / 10u64) as i64;
        let ay: i64 = b.cy - hy;
        let dx: i64 = b.cx - center_x;
        let dy: i64 = ay - center_y;
        proof {
            assert(0 <= dx * dx <= 4_100_000_000_000 && 0 <= dy * dy <= 5_000_000_000_000)
                by (nonlinear_arith)
                requires
                    -2_000_001 <= dx <= 2_000_001,
                    -2_200_001 <= dy <= 2_200_001,
            ;
        }
        let d2: i64 = dx * dx + dy * dy;
        proof {
            assert(d2 == dist2(boxes@[i as int], center_x as int, center_y as int));
        }
        if d2 < best_d2 {
            best_d2 = d2;
            best_off = (dx, dy);
            have = true;
            proof {
                best_idx = i as int;
            }
        }
        i = i + 1;
    }
    proof {
        if max_range == 0 {
            assert(gate2 == 0) by (nonlinear_arith)
                requires
                    max_range == 0,
                    gate2 == max_range * max_range,
            ;
        }
    }
    if have {
        proof {
            assert(chosen(
                boxes@,
                center_x as int,
                center_y as int,
                max_range * max_range,
                best_idx,
            ));
        }
        Some(best_off)
    } else {
        None
    }
}

/// The box shrunk by `padding` on all sides strictly contains the
/// point.  Stated on doubled coordinates so that halving the width and
/// height stays exact; an inverted shrunk box contains nothing.
pub open spec fn contains_center(d: Detection, cx: int, cy: int, padding: int) -> bool {
    &&& 2 * d.cx - d.w + 2 * padding < 2 * cx
    &&& 2 * d.cx + d.w - 2 * padding > 2 * cx
    &&& 2 * d.cy - d.h + 2 * padding < 2 * cy
    &&& 2 * d.cy + d.h - 2 * padding > 2 * cy
}

/// The trigger fires exactly when some box, shrunk by `padding`,
/// strictly contains the screen center.
pub fn should_trigger(boxes: &Vec<Detection>, center_x: i64, center_y: i64, padding: i64) -> (r:
    bool)
    requires
        all_in_bounds(boxes@),
        -COORD_LIMIT <= center_x <= COORD_LIMIT,
        -COORD_LIMIT <= center_y <= COORD_LIMIT,
        -COORD_LIMIT <= padding <= COORD_LIMIT,
    ensures
        r == exists|i: int|
            0 <= i < boxes@.len() && contains_center(
                #[trigger] boxes@[i],
                center_x as int,
                center_y as int,
                padding as int,
            ),
{
    let mut i: usize = 0;
    while i < boxes.len()
        invariant
            all_in_bounds(boxes@),
            -COORD_LIMIT <= center_x <= COORD_LIMIT,
            -COORD_LIMIT <= center_y <= COORD_LIMIT,
            -COORD_LIMIT <= padding <= COORD_LIMIT,
            i <= boxes@.len(),
            forall|j: int|
                0 <= j < i ==> !contains_center(
                    #[trigger] boxes@[j],
                    center_x as int,
                    center_y as int,
                    padding as int,
                ),
        decreases boxes@.len() - i,
    {
        let b = boxes[i];
        let left2 = 2 * b.cx - b.w + 2 * padding;
        let right2 = 2 * b.cx + b.w - 2 * padding;
        let top2 = 2 * b.cy - b.h + 2 * padding;
        let bottom2 = 2 * b.cy + b.h - 2 * padding;
        let cx2 = 2 * center_x;
        let cy2 = 2 * center_y;
        if left2 < cx2 && right2 > cx2 && top2 < cy2 && bottom2 > cy2 {
            proof {
                assert(contains_center(
                    boxes@[i as int],
                    center_x as int,
                    center_y as int,
                    padding as int,
                ));
            }
            return true;
        }
        i = i + 1;
    }
    false
}

} // verus!
