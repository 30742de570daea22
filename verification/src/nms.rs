//! Non-maximum suppression over center-format boxes.
//!
//! Detections are processed in descending confidence order (ties go to
//! the earlier detection); each one that survives is retained and
//! suppresses every remaining detection overlapping it beyond the IoU
//! threshold.  Intersection-over-union is compared exactly: areas are
//! computed on doubled corner coordinates, so halves never round, and
//! `IoU > thr/1000` is decided by cross-multiplication.

use crate::detect::{all_in_bounds, in_bounds, Detection};
use crate::MILLI;
use vstd::prelude::*;

verus! {

/// Largest IoU threshold magnitude accepted (thresholds are given in
/// thousandths, so anything above `MILLI` already suppresses nothing).
pub const IOU_THRESHOLD_LIMIT: i64 = 1_000_000;

pub open spec fn imin(a: int, b: int) -> int {
    if a <= b {
        a
    } else {
        b
    }
}

pub open spec fn imax(a: int, b: int) -> int {
    if a >= b {
        a
    } else {
        b
    }
}

/// Corner coordinates of a center-format box, doubled so that halving
/// the width and height stays exact.
pub open spec fn left2(d: Detection) -> int {
    2 * d.cx - d.w
}

pub open spec fn right2(d: Detection) -> int {
    2 * d.cx + d.w
}

pub open spec fn top2(d: Detection) -> int {
    2 * d.cy - d.h
}

pub open spec fn bottom2(d: Detection) -> int {
    2 * d.cy + d.h
}

/// Box area in doubled units (four times the plain area).
pub open spec fn area2(d: Detection) -> int {
    (right2(d) - left2(d)) * (bottom2(d) - top2(d))
}

/// Intersection area in doubled units; zero when the intersection
/// rectangle is degenerate.
pub open spec fn inter_area2(a: Detection, b: Detection) -> int {
    let iw = imin(right2(a), right2(b)) - imax(left2(a), left2(b));
    let ih = imin(bottom2(a), bottom2(b)) - imax(top2(a), top2(b));
    if iw > 0 && ih > 0 {
        iw * ih
    } else {
        0
    }
}

/// Union area in doubled units.
pub open spec fn union_area2(a: Detection, b: Detection) -> int {
    area2(a) + area2(b) - inter_area2(a, b)
}

/// `IoU(a, b) > thr/1000`, decided without division; a non-positive
/// union counts as IoU zero.
pub open spec fn iou_exceeds(a: Detection, b: Detection, thr: int) -> bool {
    union_area2(a, b) > 0 && inter_area2(a, b) * (MILLI as int) > thr * union_area2(a, b)
}

/// IoU is symmetric in its two boxes.
pub proof fn lemma_iou_symmetric(a: Detection, b: Detection, thr: int)
    ensures
        iou_exceeds(a, b, thr) == iou_exceeds(b, a, thr),
{
    assert(inter_area2(a, b) == inter_area2(b, a));
    assert(union_area2(a, b) == union_area2(b, a));
}

/// No two retained detections overlap beyond the threshold.
pub open spec fn compatible(r: Seq<Detection>, thr: int) -> bool {
    forall|i: int, j: int|
        0 <= i < r.len() && 0 <= j < r.len() && i != j ==> !iou_exceeds(
            #[trigger] r[i],
            #[trigger] r[j],
            thr,
        )
}

/// `r` stands for `d` in the output: it is `d` itself, or a detection
/// of no smaller confidence that overlaps `d` beyond the threshold.
pub open spec fn represents(r: Detection, d: Detection, thr: int) -> bool {
    r == d || (r.conf >= d.conf && iou_exceeds(r, d, thr))
}

/// Some retained detection stands for `d`.
pub open spec fn has_rep(r: Seq<Detection>, d: Detection, thr: int) -> bool {
    exists|k: int| 0 <= k < r.len() && represents(#[trigger] r[k], d, thr)
}

/// A detection that is neither retained nor suppressed yet.
pub open spec fn active(taken: Seq<bool>, sup: Seq<bool>, j: int) -> bool {
    !taken[j] && !sup[j]
}

/// Number of `false` entries in a flag sequence.
pub open spec fn count_false(s: Seq<bool>) -> int
    decreases s.len(),
{
    if s.len() == 0 {
        0
    } else {
        count_false(s.drop_last()) + if !s.last() {
            1int
        } else {
            0int
        }
    }
}

proof fn lemma_count_false_le(s: Seq<bool>)
    ensures
        0 <= count_false(s) <= s.len(),
    decreases s.len(),
{
    if s.len() > 0 {
        lemma_count_false_le(s.drop_last());
    }
}

proof fn lemma_count_false_all(s: Seq<bool>)
    requires
        forall|j: int| 0 <= j < s.len() ==> !(#[trigger] s[j]),
    ensures
        count_false(s) == s.len(),
    decreases s.len(),
{
    if s.len() > 0 {
        assert forall|j: int| 0 <= j < s.drop_last().len() implies !(
        #[trigger] s.drop_last()[j]) by {
            assert(s.drop_last()[j] == s[j]);
        }
        lemma_count_false_all(s.drop_last());
    }
}

proof fn lemma_count_false_set_true(s: Seq<bool>, i: int)
    requires
        0 <= i < s.len(),
        !s[i],
    ensures
        count_false(s.update(i, true)) == count_false(s) - 1,
    decreases s.len(),
{
    if i == s.len() - 1 {
        assert(s.update(i, true).drop_last() =~= s.drop_last());
        assert(s.update(i, true).last() == true);
    } else {
        assert(s.update(i, true).drop_last() =~= s.drop_last().update(i, true));
        assert(s.drop_last()[i] == s[i]);
        lemma_count_false_set_true(s.drop_last(), i);
        assert(s.update(i, true).last() == s.last());
    }
}

/// Decide `IoU(a, b) > thr/1000` exactly, in machine arithmetic.
pub fn iou_exceeds_exec(a: &Detection, b: &Detection, thr: i64) -> (r: bool)
    requires
        in_bounds(*a),
        in_bounds(*b),
        -IOU_THRESHOLD_LIMIT <= thr <= IOU_THRESHOLD_LIMIT,
    ensures
        r == iou_exceeds(*a, *b, thr as int),
{
    let ax1 = 2 * a.cx - a.w;
    let ax2 = 2 * a.cx + a.w;
    let ay1 = 2 * a.cy - a.h;
    let ay2 = 2 * a.cy + a.h;
    let bx1 = 2 * b.cx - b.w;
    let bx2 = 2 * b.cx + b.w;
    let by1 = 2 * b.cy - b.h;
    let by2 = 2 * b.cy + b.h;

    let ix1 = if ax1 >= bx1 {
        ax1
    } else {
        bx1
    };
    let ix2 = if ax2 <= bx2 {
        ax2
    } else {
        bx2
    };
    let iy1 = if ay1 >= by1 {
        ay1
    } else {
        by1
    };
    let iy2 = if ay2 <= by2 {
        ay2
    } else {
        by2
    };
    let iw = ix2 - ix1;
    let ih = iy2 - iy1;
    let inter: i64 = if iw > 0 && ih > 0 {
        proof {
            assert(iw * ih <= 4_000_000_000_000 && 0 <= iw * ih) by (nonlinear_arith)
                requires
                    0 < iw <= 2_000_000,
                    0 < ih <= 2_000_000,
            ;
        }
        iw * ih
    } else {
        0
    };
    proof {
        assert(0 <= (ax2 - ax1) * (ay2 - ay1) <= 4_000_000_000_000) by (nonlinear_arith)
            requires
                0 <= ax2 - ax1 <= 2_000_000,
                0 <= ay2 - ay1 <= 2_000_000,
        ;
        assert(0 <= (bx2 - bx1) * (by2 - by1) <= 4_000_000_000_000) by (nonlinear_arith)
            requires
                0 <= bx2 - bx1 <= 2_000_000,
                0 <= by2 - by1 <= 2_000_000,
        ;
    }
    let area_a = (ax2 - ax1) * (ay2 - ay1);
    let area_b = (bx2 - bx1) * (by2 - by1);
    let union: i64 = area_a + area_b - inter;
    if union > 0 {
        proof {
            assert(thr * union <= 9_000_000_000_000_000_000 && thr * union
                >= -9_000_000_000_000_000_000) by (nonlinear_arith)
                requires
                    -1_000_000 <= thr <= 1_000_000,
                    0 < union <= 9_000_000_000_000,
            ;
        }
        inter * MILLI > thr * union
    } else {
        false
    }
}

/// Find the first not-yet-processed detection of maximal confidence.
fn find_best(dets: &Vec<Detection>, taken: &Vec<bool>, suppressed: &Vec<bool>) -> (r: Option<
    usize,
>)
    requires
        taken@.len() == dets@.len(),
        suppressed@.len() == dets@.len(),
    ensures
        match r {
            Option::None => forall|j: int|
                0 <= j < dets@.len() ==> !active(taken@, suppressed@, j),
            Option::Some(m) => {
                &&& m < dets@.len()
                &&& active(taken@, suppressed@, m as int)
                &&& forall|j: int|
                    0 <= j < dets@.len() && active(taken@, suppressed@, j)
                        ==> (#[trigger] dets@[j]).conf <= dets@[m as int].conf
                &&& forall|j: int|
                    0 <= j < m && active(taken@, suppressed@, j) ==> (#[trigger] dets@[j]).conf
                        < dets@[m as int].conf
            },
        },
{
    let mut have: bool = false;
    let mut best: usize = 0;
    let mut j: usize = 0;
    while j < dets.len()
        invariant
            taken@.len() == dets@.len(),
            suppressed@.len() == dets@.len(),
            j <= dets@.len(),
            !have ==> forall|i: int| 0 <= i < j ==> !active(taken@, suppressed@, i),
            have ==> best < j && active(taken@, suppressed@, best as int),
            have ==> forall|i: int|
                0 <= i < j && active(taken@, suppressed@, i) ==> (#[trigger] dets@[i]).conf
                    <= dets@[best as int].conf,
            have ==> forall|i: int|
                0 <= i < best && active(taken@, suppressed@, i) ==> (#[trigger] dets@[i]).conf
                    < dets@[best as int].conf,
        decreases dets@.len() - j,
    {
        if !taken[j] && !suppressed[j] {
            if !have {
                have = true;
                best = j;
            } else if dets[j].conf > dets[best].conf {
                best = j;
            }
        }
        j = j + 1;
    }
    if have {
        Some(best)
    } else {
        None
    }
}

/// Non-maximum suppression.  The result is a subset of the input in
/// which no two detections overlap beyond `thr`, and every input
/// detection is either retained or overlapped by a retained detection
/// of no smaller confidence.
pub fn nms_center_opt(dets: &Vec<Detection>, thr: i64) -> (r: Vec<Detection>)
    requires
        all_in_bounds(dets@),
        -IOU_THRESHOLD_LIMIT <= thr <= IOU_THRESHOLD_LIMIT,
    ensures
        r@.len() <= dets@.len(),
        forall|k: int| 0 <= k < r@.len() ==> dets@.contains(#[trigger] r@[k]),
        compatible(r@, thr as int),
        forall|i: int| 0 <= i < dets@.len() ==> has_rep(r@, #[trigger] dets@[i], thr as int),
        dets@.len() == 0 ==> r@.len() == 0,
        dets@.len() == 1 ==> r@ == dets@,
        all_in_bounds(r@),
{
    let n = dets.len();
    let mut taken: Vec<bool> = Vec::new();
    let mut suppressed: Vec<bool> = Vec::new();
    let mut i: usize = 0;
    while i < n
        invariant
            i <= n,
            n == dets@.len(),
            taken@.len() == i,
            suppressed@.len() == i,
            forall|j: int| 0 <= j < i ==> !(#[trigger] taken@[j]),
            forall|j: int| 0 <= j < i ==> !(#[trigger] suppressed@[j]),
        decreases n - i,
    {
        taken.push(false);
        suppressed.push(false);
        i = i + 1;
    }
    let mut kept: Vec<Detection> = Vec::new();
    proof {
        lemma_count_false_all(taken@);
    }
    let mut go: bool = true;
    while go
        invariant
            n == dets@.len(),
            taken@.len() == n,
            suppressed@.len() == n,
            all_in_bounds(dets@),
            -IOU_THRESHOLD_LIMIT <= thr <= IOU_THRESHOLD_LIMIT,
            kept@.len() + count_false(taken@) == n,
            forall|k: int| 0 <= k < kept@.len() ==> dets@.contains(#[trigger] kept@[k]),
            all_in_bounds(kept@),
            compatible(kept@, thr as int),
            forall|j: int|
                0 <= j < n && #[trigger] taken@[j] ==> kept@.contains(dets@[j]),
            forall|j: int|
                0 <= j < n && #[trigger] suppressed@[j] ==> has_rep(kept@, dets@[j], thr as int),
            forall|j: int, k: int|
                0 <= j < n && #[trigger] active(taken@, suppressed@, j) && 0 <= k < kept@.len()
                    ==> !iou_exceeds(#[trigger] kept@[k], dets@[j], thr as int),
            !go ==> forall|j: int| 0 <= j < n ==> !active(taken@, suppressed@, j),
        decreases count_false(taken@), if go {
            1int
        } else {
            0int
        },
    {
        match find_best(dets, &taken, &suppressed) {
            None => {
                proof {
                    lemma_count_false_le(taken@);
                }
                go = false;
            },
            Some(m) => {
                let ghost taken_before = taken@;
                let ghost kept_before = kept@;
                proof {
                    lemma_count_false_le(taken@);
                    lemma_count_false_set_true(taken@, m as int);
                    lemma_count_false_le(taken@.update(m as int, true));
                }
                taken[m] = true;
                let d = dets[m];
                proof {
                    // the new retained detection is compatible with
                    // everything already retained, in both orders
                    assert forall|k: int| 0 <= k < kept_before.len() implies !iou_exceeds(
                        kept_before[k],
                        d,
                        thr as int,
                    ) && !iou_exceeds(d, kept_before[k], thr as int) by {
                        assert(active(taken_before, suppressed@, m as int));
                        lemma_iou_symmetric(kept_before[k], d, thr as int);
                    }
                    assert(dets@.contains(d)) by {
                        assert(dets@[m as int] == d);
                    }
                }
                kept.push(d);
                proof {
                    // every invariant witness survives the push
                    assert forall|j: int|
                        0 <= j < n && #[trigger] taken@[j] implies kept@.contains(dets@[j]) by {
                        if taken_before[j] {
                            let k0 = choose|k0: int|
                                0 <= k0 < kept_before.len() && kept_before[k0] == dets@[j];
                            assert(kept@[k0] == dets@[j]);
                        } else {
                            assert(j == m as int);
                            assert(kept@[kept@.len() - 1] == dets@[j]);
                        }
                    }
                    assert forall|j: int|
                        0 <= j < n && #[trigger] suppressed@[j] implies has_rep(
                        kept@,
                        dets@[j],
                        thr as int,
                    ) by {
                        let k0 = choose|k0: int|
                            0 <= k0 < kept_before.len() && represents(
                                kept_before[k0],
                                dets@[j],
                                thr as int,
                            );
                        assert(kept@[k0] == kept_before[k0]);
                        assert(represents(kept@[k0], dets@[j], thr as int));
                    }
                    assert forall|k: int| 0 <= k < kept@.len() implies dets@.contains(
                        #[trigger] kept@[k],
                    ) && in_bounds(kept@[k]) by {
                        if k < kept@.len() - 1 {
                            assert(kept@[k] == kept_before[k]);
                        } else {
                            assert(kept@[k] == dets@[m as int]);
                        }
                    }
                    assert forall|i1: int, j1: int|
                        0 <= i1 < kept@.len() && 0 <= j1 < kept@.len() && i1 != j1
                        implies !iou_exceeds(kept@[i1], kept@[j1], thr as int) by {
                        if i1 < kept@.len() - 1 {
                            assert(kept@[i1] == kept_before[i1]);
                        }
                        if j1 < kept@.len() - 1 {
                            assert(kept@[j1] == kept_before[j1]);
                        }
                    }
                    // detections still active keep their relation to the
                    // retained ones across the take and the push
                    assert forall|jj: int|
                        0 <= jj < n && #[trigger] active(taken@, suppressed@, jj) implies dets@[jj].conf
                        <= d.conf by {
                        assert(active(taken_before, suppressed@, jj));
                    }
                    assert forall|jj: int, k: int|
                        0 <= jj < n && #[trigger] active(taken@, suppressed@, jj) && 0 <= k
                            < kept@.len() - 1 implies !iou_exceeds(
                        #[trigger] kept@[k],
                        dets@[jj],
                        thr as int,
                    ) by {
                        assert(active(taken_before, suppressed@, jj));
                        assert(kept@[k] == kept_before[k]);
                    }
                }
                let mut j: usize = 0;
                while j < n
                    invariant
                        n == dets@.len(),
                        taken@.len() == n,
                        suppressed@.len() == n,
                        j <= n,
                        m < n,
                        all_in_bounds(dets@),
                        -IOU_THRESHOLD_LIMIT <= thr <= IOU_THRESHOLD_LIMIT,
                        d == dets@[m as int],
                        taken@[m as int],
                        taken@ == taken_before.update(m as int, true),
                        kept@ == kept_before.push(d),
                        kept@.len() + count_false(taken@) == n,
                        kept@.len() >= 1,
                        kept@[kept@.len() - 1] == d,
                        forall|k: int| 0 <= k < kept@.len() ==> dets@.contains(#[trigger] kept@[k]),
                        all_in_bounds(kept@),
                        compatible(kept@, thr as int),
                        forall|jj: int|
                            0 <= jj < n && #[trigger] taken@[jj] ==> kept@.contains(dets@[jj]),
                        forall|jj: int|
                            0 <= jj < n && #[trigger] suppressed@[jj] ==> has_rep(
                                kept@,
                                dets@[jj],
                                thr as int,
                            ),
                        forall|jj: int|
                            0 <= jj < n && #[trigger] active(taken@, suppressed@, jj)
                                ==> (dets@[jj]).conf <= d.conf,
                        forall|jj: int, k: int|
                            0 <= jj < n && #[trigger] active(taken@, suppressed@, jj) && 0 <= k
                                < kept@.len() - 1 ==> !iou_exceeds(
                                #[trigger] kept@[k],
                                dets@[jj],
                                thr as int,
                            ),
                        forall|jj: int|
                            0 <= jj < j && #[trigger] active(taken@, suppressed@, jj)
                                ==> !iou_exceeds(d, dets@[jj], thr as int),
                    decreases n - j,
                {
                    if !taken[j] && !suppressed[j] {
                        if iou_exceeds_exec(&d, &dets[j], thr) {
                            let ghost sup_before = suppressed@;
                            suppressed[j] = true;
                            proof {
                                assert(active(taken@, sup_before, j as int));
                                assert(dets@[j as int].conf <= d.conf);
                                // suppressing one detection leaves every other
                                // active detection active, with the same facts
                                assert forall|jj: int|
                                    0 <= jj < n && #[trigger] active(taken@, suppressed@, jj)
                                    implies active(taken@, sup_before, jj) by {
                                    if jj == j as int {
                                        assert(suppressed@[jj]);
                                    } else {
                                        assert(suppressed@[jj] == sup_before[jj]);
                                    }
                                }
                                assert forall|jj: int, k: int|
                                    0 <= jj < n && #[trigger] active(taken@, suppressed@, jj) && 0
                                        <= k < kept@.len() - 1 implies !iou_exceeds(
                                    #[trigger] kept@[k],
                                    dets@[jj],
                                    thr as int,
                                ) by {
                                    assert(active(taken@, sup_before, jj));
                                }
                                assert forall|jj: int|
                                    0 <= jj < n && #[trigger] suppressed@[jj] implies has_rep(
                                    kept@,
                                    dets@[jj],
                                    thr as int,
                                ) by {
                                    if sup_before[jj] {
                                        let k0 = choose|k0: int|
                                            0 <= k0 < kept@.len() && represents(
                                                kept@[k0],
                                                dets@[jj],
                                                thr as int,
                                            );
                                        assert(represents(kept@[k0], dets@[jj], thr as int));
                                    } else {
                                        assert(jj == j as int);
                                        assert(represents(
                                            kept@[kept@.len() - 1],
                                            dets@[jj],
                                            thr as int,
                                        ));
                                    }
                                }
                            }
                        }
                    }
                    j = j + 1;
                }
            },
        }
    }
    proof {
        lemma_count_false_le(taken@);
        assert forall|i0: int| 0 <= i0 < dets@.len() implies has_rep(
            kept@,
            #[trigger] dets@[i0],
            thr as int,
        ) by {
            assert(!active(taken@, suppressed@, i0));
            if taken@[i0] {
                let k0 = choose|k0: int| 0 <= k0 < kept@.len() && kept@[k0] == dets@[i0];
                assert(represents(kept@[k0], dets@[i0], thr as int));
            }
        }
        if dets@.len() == 1 {
            assert(!active(taken@, suppressed@, 0));
            if taken@[0] {
                assert(taken@.drop_last() =~= Seq::<bool>::empty());
                assert(count_false(taken@) == 0);
            } else {
                assert(suppressed@[0]);
                assert(has_rep(kept@, dets@[0], thr as int));
                assert(kept@.len() >= 1);
            }
            assert(kept@.len() == 1);
            assert(dets@.contains(kept@[0]));
            assert(kept@[0] == dets@[0]);
            assert(kept@ =~= dets@);
        }
    }
    kept
}

} // verus!
