//! The actuator controller: a PID loop turning a 2D target offset into
//! a clamped per-axis actuator delta.
//!
//! Per tick, the offset's Euclidean norm is the error; the output
//! magnitude is the sum of a proportional term, an integral term over a
//! ring buffer of `error * dt` samples, and a derivative term guarded
//! against a zero time step.  The magnitude is shared back onto the two
//! axes in proportion to the offset, truncated toward zero, and clamped
//! to `[-max_speed, max_speed]` per axis.  A zero offset has no
//! direction, so it moves nothing and leaves the state untouched.
//!
//! Gains are in thousandths, offsets in screen pixels, time steps in
//! milliseconds.

use crate::num::{clamp_to, div_trunc, isqrt, lemma_tdiv_monotone, sqrt_floor, tdiv};
use crate::ring::{is_pow2, rb_push, seq_sum, RingBuffer, SAMPLE_LIMIT};
use crate::MILLI;
use vstd::prelude::*;

verus! {

/// Largest gain magnitude (a gain of `GAIN_LIMIT` thousandths is 1000).
pub const GAIN_LIMIT: i64 = 1_000_000;

/// Largest target-offset magnitude per axis, in pixels.
pub const OFFSET_LIMIT: i64 = 2_500_000;

/// Every error fits below this (the norm of the largest offset).
pub const ERROR_LIMIT: i64 = 3_600_000;

/// Largest accepted time step, in milliseconds.
pub const DT_LIMIT: i64 = 10_000;

/// Largest per-axis speed clamp.
pub const MAX_SPEED_LIMIT: i64 = 1_000_000;

/// PID state for the actuator controller.
pub struct MousePID {
    /// Proportional gain, thousandths.
    pub kp: i64,
    /// Integral gain, thousandths.
    pub ki: i64,
    /// Derivative gain, thousandths.
    pub kd: i64,
    /// Error of the previous tick, pixels.
    pub last_error: i64,
    /// Recent `error * dt` samples feeding the integral term.
    pub recent_error_mul_dts: RingBuffer<128>,
    /// Per-axis output clamp, pixels per tick.
    pub max_speed: i64,
}

/// Euclidean norm of the offset, rounded down.
pub open spec fn error_of(tx: int, ty: int) -> int {
    sqrt_floor((tx * tx + ty * ty) as nat) as int
}

/// Raw PID output magnitude in thousandths of a pixel: proportional,
/// integral over the sample sum, and derivative guarded against a zero
/// time step.
pub open spec fn pid_output_milli(s: MousePID, err: int, sum: int, dt_ms: int) -> int {
    let p = s.kp * err;
    let i = tdiv(s.ki * sum, MILLI as int);
    let d = if dt_ms > 0 {
        tdiv(s.kd * (err - s.last_error) * (MILLI as int), dt_ms)
    } else {
        0
    };
    p + i + d
}

/// One axis share of the output: scaled by `t / err`, brought from
/// thousandths to pixels, truncated toward zero, clamped.
pub open spec fn axis_delta(out_milli: int, t: int, err: int, max_speed: int) -> int {
    clamp_to(tdiv(out_milli * t, (MILLI as int) * err), max_speed)
}

impl MousePID {
    /// Gains and clamp in range, error and samples within the bounds
    /// every update re-establishes.
    pub open spec fn wf(&self) -> bool {
        &&& self.recent_error_mul_dts.wf()
        &&& -GAIN_LIMIT <= self.kp <= GAIN_LIMIT
        &&& -GAIN_LIMIT <= self.ki <= GAIN_LIMIT
        &&& -GAIN_LIMIT <= self.kd <= GAIN_LIMIT
        &&& 0 <= self.last_error <= ERROR_LIMIT
        &&& 0 <= self.max_speed <= MAX_SPEED_LIMIT
        &&& forall|j: int|
            0 <= j < self.recent_error_mul_dts@.len() ==> 0 <= #[trigger] self.recent_error_mul_dts@[j]
                <= SAMPLE_LIMIT
    }

    /// A fresh controller: zero history, gains as given.
    pub fn new(kp: i64, ki: i64, kd: i64, max_speed: i64) -> (r: Self)
        requires
            -GAIN_LIMIT <= kp <= GAIN_LIMIT,
            -GAIN_LIMIT <= ki <= GAIN_LIMIT,
            -GAIN_LIMIT <= kd <= GAIN_LIMIT,
            0 <= max_speed <= MAX_SPEED_LIMIT,
        ensures
            r.wf(),
            r.kp == kp,
            r.ki == ki,
            r.kd == kd,
            r.max_speed == max_speed,
            r.last_error == 0,
            r.recent_error_mul_dts@ == Seq::<i64>::empty(),
            r.recent_error_mul_dts.cursor() == 0,
    {
        proof {
            reveal_with_fuel(is_pow2, 9);
            assert(is_pow2(128nat));
        }
        MousePID {
            kp,
            ki,
            kd,
            last_error: 0,
            recent_error_mul_dts: RingBuffer::<128>::default(),
            max_speed,
        }
    }

    /// One control tick: compute the clamped per-axis deltas for the
    /// given offset and time step, and absorb the tick into the state.
    /// A zero offset yields zero motion and leaves the state untouched.
    pub fn update(&mut self, target: (i64, i64), dt_ms: i64) -> (r: (i64, i64))
        requires
            old(self).wf(),
            -OFFSET_LIMIT <= target.0 <= OFFSET_LIMIT,
            -OFFSET_LIMIT <= target.1 <= OFFSET_LIMIT,
            0 <= dt_ms <= DT_LIMIT,
        ensures
            final(self).wf(),
            final(self).kp == old(self).kp,
            final(self).ki == old(self).ki,
            final(self).kd == old(self).kd,
            final(self).max_speed == old(self).max_speed,
            -old(self).max_speed <= r.0 <= old(self).max_speed,
            -old(self).max_speed <= r.1 <= old(self).max_speed,
            target.0 == 0 && target.1 == 0 ==> r == (0i64, 0i64) && *final(self) == *old(self),
            !(target.0 == 0 && target.1 == 0) ==> {
                let err = error_of(target.0 as int, target.1 as int);
                let sum = seq_sum(old(self).recent_error_mul_dts@);
                let out = pid_output_milli(*old(self), err, sum, dt_ms as int);
                &&& r.0 == axis_delta(out, target.0 as int, err, old(self).max_speed as int)
                &&& r.1 == axis_delta(out, target.1 as int, err, old(self).max_speed as int)
                &&& final(self).last_error == err
                &&& final(self).recent_error_mul_dts@ == rb_push(
                    old(self).recent_error_mul_dts@,
                    old(self).recent_error_mul_dts.cursor(),
                    128,
                    (err * dt_ms) as i64,
                )
            },
    {
        let (tx, ty) = target;
        if tx == 0 && ty == 0 {
            return (0, 0);
        }
        proof {
            assert(0 <= tx * tx <= 6_250_000_000_000 && 0 <= ty * ty <= 6_250_000_000_000) by (
            nonlinear_arith)
                requires
                    -2_500_000 <= tx <= 2_500_000,
                    -2_500_000 <= ty <= 2_500_000,
            ;
        }
        let x: i64 = tx * tx + ty * ty;
        let err: i64 = isqrt(x);
        proof {
            assert(err <= 3_600_000) by (nonlinear_arith)
                requires
                    0 <= err,
                    err * err <= 12_500_000_000_000,
            ;
            assert(1 <= x) by (nonlinear_arith)
                requires
                    -2_500_000 <= tx <= 2_500_000,
                    -2_500_000 <= ty <= 2_500_000,
                    !(tx == 0 && ty == 0),
                    x == tx * tx + ty * ty,
            ;
            assert(1 <= err) by (nonlinear_arith)
                requires
                    err * err <= x < (err + 1) * (err + 1),
                    0 <= err,
                    1 <= x,
            ;
            // each axis offset is bounded by the norm
            assert(tx <= err && -tx <= err && ty <= err && -ty <= err) by (nonlinear_arith)
                requires
                    0 <= err,
                    tx * tx + ty * ty < (err + 1) * (err + 1),
            ;
        }
        let p: i64 = {
            proof {
                assert(-3_600_000_000_000 <= self.kp * err <= 3_600_000_000_000)
                    by (nonlinear_arith)
                    requires
                        -1_000_000 <= self.kp <= 1_000_000,
                        0 <= err <= 3_600_000,
                ;
            }
            self.kp * err
        };
        proof {
            assert((128int) * (SAMPLE_LIMIT as int) <= i64::MAX) by (nonlinear_arith)
                requires
                    SAMPLE_LIMIT == 40_000_000_000i64,
            ;
            self.recent_error_mul_dts.lemma_len_bound();
            crate::ring::lemma_seq_sum_bounds(self.recent_error_mul_dts@, SAMPLE_LIMIT as int);
            assert((SAMPLE_LIMIT as int) * self.recent_error_mul_dts@.len() <= (SAMPLE_LIMIT as int)
                * 128) by (nonlinear_arith)
                requires
                    self.recent_error_mul_dts@.len() <= 128,
                    SAMPLE_LIMIT > 0,
            ;
        }
        let sum: i64 = self.recent_error_mul_dts.sum();
        let i_term: i64 = {
            proof {
                assert(-5_120_000_000_000_000_000 <= self.ki * sum <= 5_120_000_000_000_000_000)
                    by (nonlinear_arith)
                    requires
                        -1_000_000 <= self.ki <= 1_000_000,
                        -5_120_000_000_000 <= sum <= 5_120_000_000_000,
                ;
            }
            div_trunc(self.ki * sum, MILLI)
        };
        let d_term: i64 = if dt_ms > 0 {
            let de: i64 = err - self.last_error;
            proof {
                assert(-7_200_000_000_000 <= self.kd * de <= 7_200_000_000_000) by (nonlinear_arith)
                    requires
                        -1_000_000 <= self.kd <= 1_000_000,
                        -7_200_000 <= de <= 7_200_000,
                ;
            }
            div_trunc(self.kd * de * MILLI, dt_ms)
        } else {
            0
        };
        let out: i64 = p + i_term + d_term;
        let ghost out_spec = pid_output_milli(
            *old(self),
            err as int,
            seq_sum(old(self).recent_error_mul_dts@),
            dt_ms as int,
        );
        proof {
            assert(out == out_spec);
        }
        let sample: i64 = {
            proof {
                assert(0 <= err * dt_ms <= SAMPLE_LIMIT) by (nonlinear_arith)
                    requires
                        0 <= err <= 3_600_000,
                        0 <= dt_ms <= 10_000,
                        SAMPLE_LIMIT == 40_000_000_000i64,
                ;
            }
            err * dt_ms
        };
        let ghost buf_before = self.recent_error_mul_dts@;
        let ghost cursor_before = self.recent_error_mul_dts.cursor();
        proof {
            self.recent_error_mul_dts.lemma_len_bound();
        }
        self.recent_error_mul_dts.push(sample);
        self.last_error = err;
        proof {
            assert(self.recent_error_mul_dts@ == rb_push(buf_before, cursor_before, 128, sample));
            assert forall|j: int| 0 <= j < self.recent_error_mul_dts@.len() implies 0
                <= #[trigger] self.recent_error_mul_dts@[j] <= SAMPLE_LIMIT by {
                if buf_before.len() < 128 {
                    if j < buf_before.len() {
                        assert(self.recent_error_mul_dts@[j] == buf_before[j]);
                    }
                } else {
                    if j != cursor_before {
                        assert(self.recent_error_mul_dts@[j] == buf_before[j]);
                    }
                }
            }
        }
        let dx = axis_share(out, tx, err, self.max_speed);
        let dy = axis_share(out, ty, err, self.max_speed);
        (dx, dy)
    }
}

/// Share the output magnitude onto one axis: `out * t / (1000 * err)`,
/// truncated toward zero, clamped to `[-max_speed, max_speed]`.
fn axis_share(out_milli: i64, t: i64, err: i64, max_speed: i64) -> (r: i64)
    requires
        i64::MIN < out_milli,
        1 <= err <= ERROR_LIMIT,
        -err <= t <= err,
        0 <= max_speed <= MAX_SPEED_LIMIT,
    ensures
        r == axis_delta(out_milli as int, t as int, err as int, max_speed as int),
        -max_speed <= r <= max_speed,
{
    let om: i64 = if out_milli >= 0 {
        out_milli
    } else {
        -out_milli
    };
    let tm: i64 = if t >= 0 {
        t
    } else {
        -t
    };
    let neg: bool = (out_milli < 0) != (t < 0);
    proof {
        assert(om as int * (tm as int) <= 40_000_000_000_000_000_000_000_000int) by (
        nonlinear_arith)
            requires
                0 <= om <= 9_223_372_036_854_775_807,
                0 <= tm <= 4_000_000,
        ;
        // the signed product is the signed magnitude product
        assert(out_milli as int * (t as int) == if neg {
            -(om as int * (tm as int))
        } else {
            om as int * (tm as int)
        }) by (nonlinear_arith)
            requires
                om == if out_milli >= 0 {
                    out_milli as int
                } else {
                    -(out_milli as int)
                },
                tm == if t >= 0 {
                    t as int
                } else {
                    -(t as int)
                },
                neg == ((out_milli < 0) != (t < 0)),
        ;
    }
    let prod: u128 = (om as u128) * (tm as u128);
    let den: u128 = 1000u128 * (err as u128);
    let q: u128 = prod / den;
    proof {
        assert(q == (om as int * (tm as int)) / ((MILLI as int) * (err as int)));
        if neg {
            assert(tdiv(out_milli as int * (t as int), (MILLI as int) * (err as int)) == -(q as int));
        } else {
            assert(tdiv(out_milli as int * (t as int), (MILLI as int) * (err as int)) == q as int);
        }
    }
    let capped: u128 = if q > (max_speed as u128) {
        max_speed as u128
    } else {
        q
    };
    let mag: i64 = capped as i64;
    if neg {
        -mag
    } else {
        mag
    }
}

/// Law: with a constant offset the integral term converges
/// monotonically — each tick pushes the same non-negative `error * dt`
/// sample, which never decreases the stored sum, and a non-negative
/// integral gain turns that into a never-decreasing integral term.
/// (The emitted deltas themselves stay clamped to `max_speed` by
/// `MousePID::update`.)
pub proof fn lemma_integral_term_monotone(buf: Seq<i64>, cursor: int, sample: i64, ki: int)
    requires
        0 <= cursor < 128,
        buf.len() <= 128,
        0 <= sample,
        forall|j: int| 0 <= j < buf.len() ==> #[trigger] buf[j] <= sample,
        0 <= ki,
    ensures
        tdiv(ki * seq_sum(rb_push(buf, cursor, 128, sample)), MILLI as int) >= tdiv(
            ki * seq_sum(buf),
            MILLI as int,
        ),
{
    crate::ring::lemma_push_sum_monotone(buf, cursor, 128, sample);
    let s0 = seq_sum(buf);
    let s1 = seq_sum(rb_push(buf, cursor, 128, sample));
    assert(ki * s0 <= ki * s1) by (nonlinear_arith)
        requires
            s0 <= s1,
            0 <= ki,
    ;
    lemma_tdiv_monotone(ki * s0, ki * s1, MILLI as int);
}

} // verus!
