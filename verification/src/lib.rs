//! Core of a detection-to-actuation control pipeline.
//!
//! A stream of object-detector bounding boxes is de-duplicated by
//! non-maximum suppression, gated and ranked by a target selector, and
//! turned into bounded actuator deltas by a PID controller; a small
//! shared-state bridge carries button state from an input listener into
//! the control loop.  All geometry and control arithmetic is carried out
//! in fixed-point integer units so that every step can be specified and
//! verified exactly; the I/O shell around this crate converts to and from
//! these units at its edges.

use vstd::prelude::*;

pub mod detect;
pub mod input_state;
pub mod nms;
pub mod num;
pub mod pid;
pub mod pixels;
pub mod ring;
pub mod select;

verus! {

/// Largest magnitude admitted for a screen- or model-space coordinate,
/// for a box width or height, and for the selector's range gate.
pub const COORD_LIMIT: i64 = 1_000_000;

/// Fixed-point scale: one unit of confidence or gain is 1/1000.
pub const MILLI: i64 = 1000;

} // verus!
