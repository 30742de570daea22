//! Detections and the per-frame preparation steps: the raw boxes coming
//! out of the inference engine are thresholded on confidence and scaled
//! from model units into screen pixels.
//!
//! A detection is a center-format box `(cx, cy, w, h)` with a confidence
//! score.  All fields are fixed-point integers: coordinates in the units
//! of their space (model units before scaling, screen pixels after) and
//! confidence in thousandths.

use crate::COORD_LIMIT;
use vstd::prelude::*;

verus! {

/// A center-format box with a confidence score.
#[derive(Clone, Copy, Debug, PartialEq, Eq, Structural)]
pub struct Detection {
    /// Horizontal box center.
    pub cx: i64,
    /// Vertical box center.
    pub cy: i64,
    /// Box width.
    pub w: i64,
    /// Box height.
    pub h: i64,
    /// Confidence in thousandths.
    pub conf: i64,
}

/// Coordinates and extents small enough that all the geometry below
/// stays far from `i64` overflow.
pub open spec fn in_bounds(d: Detection) -> bool {
    &&& -COORD_LIMIT <= d.cx <= COORD_LIMIT
    &&& -COORD_LIMIT <= d.cy <= COORD_LIMIT
    &&& 0 <= d.w <= COORD_LIMIT
    &&& 0 <= d.h <= COORD_LIMIT
}

pub open spec fn all_in_bounds(s: Seq<Detection>) -> bool {
    forall|i: int| 0 <= i < s.len() ==> in_bounds(#[trigger] s[i])
}

/// Confidence predicate used by the pre-suppression threshold step.
pub open spec fn above_conf(thr: i64) -> spec_fn(Detection) -> bool {
    |d: Detection| d.conf > thr
}

/// `Seq::filter` unfolds over `push`.
proof fn lemma_filter_push(s: Seq<Detection>, x: Detection, pred: spec_fn(Detection) -> bool)
    ensures
        s.push(x).filter(pred) == if pred(x) {
            s.filter(pred).push(x)
        } else {
            s.filter(pred)
        },
{
    reveal(Seq::filter);
    assert(s.push(x).drop_last() =~= s);
}

/// Keep exactly the detections whose confidence exceeds `thr`, in order.
pub fn filter_by_confidence(dets: &Vec<Detection>, thr: i64) -> (r: Vec<Detection>)
    ensures
        r@ == dets@.filter(above_conf(thr)),
{
    let mut r: Vec<Detection> = Vec::new();
    let mut i: usize = 0;
    proof {
        reveal(Seq::filter);
        assert(dets@.take(0).filter(above_conf(thr)) =~= Seq::<Detection>::empty());
    }
    while i < dets.len()
        invariant
            i <= dets@.len(),
            r@ == dets@.take(i as int).filter(above_conf(thr)),
        decreases dets@.len() - i,
    {
        let d = dets[i];
        proof {
            lemma_filter_push(dets@.take(i as int), d, above_conf(thr));
            assert(dets@.take(i as int).push(d) =~= dets@.take(i as int + 1));
        }
        if d.conf > thr {
            r.push(d);
        }
        i = i + 1;
    }
    proof {
        assert(dets@.take(dets@.len() as int) =~= dets@);
    }
    r
}

/// A detection carried from model units into screen pixels: each
/// coordinate is multiplied by the screen extent of its axis and divided
/// by the model extent, rounding down; confidence is untouched.
pub open spec fn scale_detection(d: Detection, sw: int, sh: int, msize: int) -> Detection
    recommends
        msize > 0,
{
    Detection {
        cx: (d.cx * sw / msize) as i64,
        cy: (d.cy * sh / msize) as i64,
        w: (d.w * sw / msize) as i64,
        h: (d.h * sh / msize) as i64,
        conf: d.conf,
    }
}

/// One non-negative coordinate scaled between spaces.
fn scale_axis(v: i64, extent: i64, msize: i64) -> (r: i64)
    requires
        0 <= v <= msize,
        0 < msize <= COORD_LIMIT,
        0 < extent <= COORD_LIMIT,
    ensures
        r == v as int * extent as int / (msize as int),
        0 <= r <= extent,
{
    proof {
        assert(v * extent <= msize * extent) by (nonlinear_arith)
            requires
                0 <= v <= msize,
                0 < extent,
        ;
        assert(0 <= v * extent) by (nonlinear_arith)
            requires
                0 <= v,
                0 < extent,
        ;
        assert(v * extent <= 1_000_000_000_000) by (nonlinear_arith)
            requires
                0 <= v <= 1_000_000,
                0 <= extent <= 1_000_000,
        ;
        vstd::arithmetic::div_mod::lemma_div_is_ordered(
            v as int * extent as int,
            msize as int * extent as int,
            msize as int,
        );
        vstd::arithmetic::div_mod::lemma_div_multiples_vanish(extent as int, msize as int);
        vstd::arithmetic::div_mod::lemma_div_pos_is_pos(v as int * extent as int, msize as int);
    }
    let q: u64 = ((v as u64) * (extent as u64)) / (msize as u64);
    q as i64
}

/// Scale every detection from model units into screen pixels.
pub fn scale_to_screen(dets: &Vec<Detection>, sw: i64, sh: i64, msize: i64) -> (r: Vec<Detection>)
    requires
        0 < msize <= COORD_LIMIT,
        0 < sw <= COORD_LIMIT,
        0 < sh <= COORD_LIMIT,
        forall|i: int|
            0 <= i < dets@.len() ==> {
                &&& 0 <= (#[trigger] dets@[i]).cx <= msize
                &&& 0 <= dets@[i].cy <= msize
                &&& 0 <= dets@[i].w <= msize
                &&& 0 <= dets@[i].h <= msize
            },
    ensures
        r@.len() == dets@.len(),
        forall|i: int|
            0 <= i < dets@.len() ==> #[trigger] r@[i] == scale_detection(
                dets@[i],
                sw as int,
                sh as int,
                msize as int,
            ),
        all_in_bounds(r@),
{
    let mut r: Vec<Detection> = Vec::new();
    let mut i: usize = 0;
    while i < dets.len()
        invariant
            i <= dets@.len(),
            r@.len() == i,
            0 < msize <= COORD_LIMIT,
            0 < sw <= COORD_LIMIT,
            0 < sh <= COORD_LIMIT,
            forall|j: int|
                0 <= j < dets@.len() ==> {
                    &&& 0 <= (#[trigger] dets@[j]).cx <= msize
                    &&& 0 <= dets@[j].cy <= msize
                    &&& 0 <= dets@[j].w <= msize
                    &&& 0 <= dets@[j].h <= msize
                },
            forall|j: int|
                0 <= j < i ==> #[trigger] r@[j] == scale_detection(
                    dets@[j],
                    sw as int,
                    sh as int,
                    msize as int,
                ),
            forall|j: int| 0 <= j < i ==> in_bounds(#[trigger] r@[j]),
        decreases dets@.len() - i,
    {
        let d = dets[i];
        let s = Detection {
            cx: scale_axis(d.cx, sw, msize),
            cy: scale_axis(d.cy, sh, msize),
            w: scale_axis(d.w, sw, msize),
            h: scale_axis(d.h, sh, msize),
            conf: d.conf,
        };
        r.push(s);
        i = i + 1;
    }
    r
}

} // verus!
