//! Integer arithmetic helpers shared by the control pipeline: truncating
//! division (the semantics of a float-to-integer conversion after a real
//! division), symmetric clamping, and an integer square root.

use vstd::prelude::*;

verus! {

/// Round-toward-zero division, stated over mathematical integers.
/// In specification context `/` is Euclidean division, so the negative
/// case is written out explicitly.
pub open spec fn tdiv(a: int, b: int) -> int
    recommends
        b > 0,
{
    if a >= 0 {
        a / b
    } else {
        -((-a) / b)
    }
}

/// `v` pulled into the interval `[-m, m]`.
pub open spec fn clamp_to(v: int, m: int) -> int
    recommends
        m >= 0,
{
    if v < -m {
        -m
    } else if v > m {
        m
    } else {
        v
    }
}

/// Floor of the real square root of `n`.
pub open spec fn sqrt_floor(n: nat) -> nat
    decreases n,
{
    if n == 0 {
        0
    } else {
        let r = sqrt_floor((n - 1) as nat);
        if (r + 1) * (r + 1) <= n {
            r + 1
        } else {
            r
        }
    }
}

/// `sqrt_floor(n)` squares to at most `n`, and the next integer squares
/// past `n`.
pub proof fn lemma_sqrt_floor(n: nat)
    ensures
        sqrt_floor(n) * sqrt_floor(n) <= n,
        n < (sqrt_floor(n) + 1) * (sqrt_floor(n) + 1),
    decreases n,
{
    if n > 0 {
        let m = (n - 1) as nat;
        lemma_sqrt_floor(m);
        let r = sqrt_floor(m);
        if (r + 1) * (r + 1) <= n {
            assert((r + 1) * (r + 1) < (r + 2) * (r + 2)) by (nonlinear_arith);
        }
    } else {
        assert((sqrt_floor(n) + 1) * (sqrt_floor(n) + 1) == 1) by (nonlinear_arith)
            requires
                sqrt_floor(n) == 0,
        ;
    }
}

/// No two distinct naturals both satisfy the floor-square-root bounds.
pub proof fn lemma_sqrt_floor_unique(n: nat, r: nat)
    requires
        r * r <= n,
        n < (r + 1) * (r + 1),
    ensures
        r == sqrt_floor(n),
{
    lemma_sqrt_floor(n);
    let s = sqrt_floor(n);
    if r < s {
        assert(s * s <= n);
        assert((r + 1) * (r + 1) <= s * s) by (nonlinear_arith)
            requires
                r + 1 <= s,
        ;
    } else if s < r {
        assert((s + 1) * (s + 1) <= r * r) by (nonlinear_arith)
            requires
                s + 1 <= r,
        ;
    }
}

/// Truncating division keeps order when the numerator grows.
pub proof fn lemma_tdiv_monotone(a1: int, a2: int, b: int)
    requires
        a1 <= a2,
        b > 0,
    ensures
        tdiv(a1, b) <= tdiv(a2, b),
{
    if 0 <= a1 {
        vstd::arithmetic::div_mod::lemma_div_is_ordered(a1, a2, b);
    } else if a2 < 0 {
        vstd::arithmetic::div_mod::lemma_div_is_ordered(-a2, -a1, b);
    } else {
        vstd::arithmetic::div_mod::lemma_div_pos_is_pos(a2, b);
        vstd::arithmetic::div_mod::lemma_div_pos_is_pos(-a1, b);
    }
}

/// Truncating division on machine integers; Rust's `/` truncates toward
/// zero, which `tdiv` mirrors in specifications.
pub fn div_trunc(a: i64, b: i64) -> (r: i64)
    requires
        b > 0,
        a > i64::MIN,
    ensures
        r == tdiv(a as int, b as int),
        a >= 0 ==> 0 <= r <= a,
        a < 0 ==> a <= r <= 0,
{
    if a >= 0 {
        proof {
            vstd::arithmetic::div_mod::lemma_div_nonincreasing(a as int, b as int);
            vstd::arithmetic::div_mod::lemma_div_pos_is_pos(a as int, b as int);
        }
        let q: u64 = (a as u64) / (b as u64);
        q as i64
    } else {
        proof {
            vstd::arithmetic::div_mod::lemma_div_nonincreasing(-(a as int), b as int);
            vstd::arithmetic::div_mod::lemma_div_pos_is_pos(-(a as int), b as int);
        }
        let q: u64 = ((-a) as u64) / (b as u64);
        -(q as i64)
    }
}

/// Integer square root by bisection.
pub fn isqrt(x: i64) -> (r: i64)
    requires
        0 <= x <= 16_000_000_000_000,
    ensures
        0 <= r,
        r as nat == sqrt_floor(x as nat),
        r * r <= x < (r + 1) * (r + 1),
{
    let mut lo: i64 = 0;
    let mut hi: i64 = 4_000_000;
    while lo < hi
        invariant
            0 <= lo <= hi <= 4_000_000,
            lo * lo <= x,
            x < (hi + 1) * (hi + 1),
        decreases hi - lo,
    {
        let half: i64 = (((hi - lo + 1) as u64) / 2u64) as i64;
        assert(1 <= half <= hi - lo);
        let mid: i64 = lo + half;
        assert(mid * mid <= 16_000_000_000_000) by (nonlinear_arith)
            requires
                0 <= mid <= 4_000_000,
        ;
        if mid * mid <= x {
            lo = mid;
        } else {
            hi = mid - 1;
        }
    }
    proof {
        lemma_sqrt_floor_unique(x as nat, lo as nat);
    }
    lo
}

} // verus!
