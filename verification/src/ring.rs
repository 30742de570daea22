//! Fixed-capacity circular sample buffer.
//!
//! The buffer owns a backing array of `N` slots (`N` a power of two), a
//! write cursor, and a logical length.  Until it fills, samples sit in
//! arrival order; once it wraps, the backing array is read from slot 0
//! regardless of arrival order, so callers must treat a full buffer as an
//! unordered collection of the last `N` samples.  The view below is the
//! stored prefix, and `push` is specified exactly, wrap and all.

use vstd::prelude::*;

verus! {

/// Largest magnitude a stored sample may have if sums over a buffer of
/// up to 128 slots are to stay well inside `i64`.
pub const SAMPLE_LIMIT: i64 = 40_000_000_000;

/// `n` is a power of two.
pub open spec fn is_pow2(n: nat) -> bool
    decreases n,
{
    if n == 0 {
        false
    } else if n == 1 {
        true
    } else {
        n % 2 == 0 && is_pow2(n / 2)
    }
}

/// Sum of the stored samples.
pub open spec fn seq_sum(s: Seq<i64>) -> int
    decreases s.len(),
{
    if s.len() == 0 {
        0
    } else {
        seq_sum(s.drop_last()) + s.last()
    }
}

/// What a push leaves in the buffer: an appended sample while the buffer
/// still has room, an overwrite of the slot under the cursor once full.
pub open spec fn rb_push(s: Seq<i64>, cursor: int, cap: int, x: i64) -> Seq<i64> {
    if s.len() < cap {
        s.push(x)
    } else {
        s.update(cursor, x)
    }
}

pub proof fn lemma_seq_sum_push(s: Seq<i64>, x: i64)
    ensures
        seq_sum(s.push(x)) == seq_sum(s) + x,
{
    assert(s.push(x).drop_last() =~= s);
    assert(s.push(x).last() == x);
}

pub proof fn lemma_seq_sum_update(s: Seq<i64>, i: int, x: i64)
    requires
        0 <= i < s.len(),
    ensures
        seq_sum(s.update(i, x)) == seq_sum(s) - s[i] + x,
    decreases s.len(),
{
    if i == s.len() - 1 {
        assert(s.update(i, x).drop_last() =~= s.drop_last());
        assert(s.update(i, x).last() == x);
    } else {
        assert(s.update(i, x).drop_last() =~= s.drop_last().update(i, x));
        lemma_seq_sum_update(s.drop_last(), i, x);
        assert(s.update(i, x).last() == s.last());
        assert(s.drop_last()[i] == s[i]);
    }
}

/// Law: pushing a sample at least as large as every stored sample never
/// decreases the stored sum, and keeps every stored sample at most that
/// large.  Under repeated pushes of one constant non-negative sample the
/// stored sum therefore climbs monotonically toward its full-buffer
/// fixed point.
pub proof fn lemma_push_sum_monotone(s: Seq<i64>, cursor: int, cap: int, x: i64)
    requires
        0 <= cursor < cap,
        s.len() <= cap,
        0 <= x,
        forall|j: int| 0 <= j < s.len() ==> #[trigger] s[j] <= x,
    ensures
        seq_sum(rb_push(s, cursor, cap, x)) >= seq_sum(s),
        forall|j: int|
            0 <= j < rb_push(s, cursor, cap, x).len() ==> #[trigger] rb_push(s, cursor, cap, x)[j]
                <= x,
{
    if s.len() < cap {
        lemma_seq_sum_push(s, x);
    } else {
        lemma_seq_sum_update(s, cursor, x);
    }
}

/// All samples within `[-b, b]` bound the sum by `b` per slot.
pub proof fn lemma_seq_sum_bounds(s: Seq<i64>, b: int)
    requires
        0 <= b,
        forall|j: int| 0 <= j < s.len() ==> -b <= #[trigger] s[j] <= b,
    ensures
        -b * s.len() <= seq_sum(s) <= b * s.len(),
    decreases s.len(),
{
    if s.len() > 0 {
        assert forall|j: int| 0 <= j < s.drop_last().len() implies -b <= #[trigger] s.drop_last()[j]
            <= b by {
            assert(s.drop_last()[j] == s[j]);
        }
        lemma_seq_sum_bounds(s.drop_last(), b);
        assert(b * (s.len() - 1) + b == b * s.len()) by (nonlinear_arith);
        assert(-b * (s.len() - 1) - b == -b * s.len()) by (nonlinear_arith);
    }
}

/// Fixed-capacity circular buffer of `i64` samples; the capacity `N`
/// must be a power of two.
pub struct RingBuffer<const N: usize> {
    buffer: Vec<i64>,
    ptr: usize,
    len: usize,
}

impl<const N: usize> View for RingBuffer<N> {
    type V = Seq<i64>;

    /// The stored samples: the first `len` slots of the backing array.
    closed spec fn view(&self) -> Seq<i64> {
        self.buffer@.take(self.len as int)
    }
}

impl<const N: usize> RingBuffer<N> {
    /// Where the next push lands in the backing array.
    pub closed spec fn cursor(&self) -> int {
        self.ptr as int
    }

    /// Internal shape: a full backing array, a cursor inside it that
    /// tracks the logical length until the first wrap.
    pub closed spec fn wf(&self) -> bool {
        &&& self.buffer@.len() == N
        &&& self.len <= N
        &&& self.ptr < N
        &&& (self.len < N ==> self.ptr == self.len)
        &&& is_pow2(N as nat)
    }

    /// The stored prefix never outgrows the backing array.
    pub proof fn lemma_len_bound(&self)
        requires
            self.wf(),
        ensures
            self@.len() <= N,
            0 <= self.cursor() < N,
    {
    }

    pub fn is_empty(&self) -> (r: bool)
        requires
            self.wf(),
        ensures
            r == (self@.len() == 0),
    {
        self.len == 0
    }

    pub fn len(&self) -> (r: usize)
        requires
            self.wf(),
        ensures
            r == self@.len(),
    {
        self.len
    }

    /// The stored sample in slot `i`; slots are read in backing-array
    /// order, which is arrival order only until the buffer wraps.
    pub fn get(&self, i: usize) -> (r: i64)
        requires
            self.wf(),
            i < self@.len(),
        ensures
            r == self@[i as int],
    {
        self.buffer[i]
    }

    /// Store a sample, overwriting the oldest slot once the buffer is
    /// full.
    pub fn push(&mut self, item: i64)
        requires
            old(self).wf(),
        ensures
            final(self).wf(),
            final(self)@ == rb_push(old(self)@, old(self).cursor(), N as int, item),
            final(self).cursor() == if old(self).cursor() + 1 == N {
                0int
            } else {
                old(self).cursor() + 1
            },
            final(self)@.len() == if old(self)@.len() < N {
                old(self)@.len() + 1
            } else {
                N as nat
            },
    {
        self.buffer[self.ptr] = item;
        self.ptr = if self.ptr + 1 == N {
            0
        } else {
            self.ptr + 1
        };
        let ghost prev_len: int = self.len as int;
        self.len = if self.len < N {
            self.len + 1
        } else {
            self.len
        };
        proof {
            if prev_len < N {
                assert(final(self)@ =~= old(self)@.push(item));
            } else {
                assert(final(self)@ =~= old(self)@.update(old(self).cursor(), item));
            }
        }
    }

    /// Sum of the stored samples.
    pub fn sum(&self) -> (r: i64)
        requires
            self.wf(),
            forall|j: int|
                0 <= j < self@.len() ==> -SAMPLE_LIMIT <= #[trigger] self@[j] <= SAMPLE_LIMIT,
            (N as int) * (SAMPLE_LIMIT as int) <= i64::MAX,
        ensures
            r == seq_sum(self@),
    {
        let mut acc: i64 = 0;
        let mut i: usize = 0;
        while i < self.len
            invariant
                self.wf(),
                i <= self.len,
                forall|j: int|
                    0 <= j < self@.len() ==> -SAMPLE_LIMIT <= #[trigger] self@[j] <= SAMPLE_LIMIT,
                (N as int) * (SAMPLE_LIMIT as int) <= i64::MAX,
                acc == seq_sum(self@.take(i as int)),
                -(i as int) * (SAMPLE_LIMIT as int) <= acc <= (i as int) * (SAMPLE_LIMIT as int),
            decreases self.len - i,
        {
            let v = self.buffer[i];
            proof {
                assert(self@[i as int] == v);
                lemma_seq_sum_push(self@.take(i as int), v);
                assert(self@.take(i as int).push(v) =~= self@.take(i as int + 1));
                assert((i as int + 1) * (SAMPLE_LIMIT as int) == (i as int) * (SAMPLE_LIMIT as int)
                    + SAMPLE_LIMIT) by (nonlinear_arith);
                assert((i as int + 1) * (SAMPLE_LIMIT as int) <= (N as int) * (
                SAMPLE_LIMIT as int)) by (nonlinear_arith)
                    requires
                        i as int + 1 <= N as int,
                        SAMPLE_LIMIT > 0,
                ;
            }
            acc = acc + v;
            i = i + 1;
        }
        proof {
            assert(self@.take(self.len as int) =~= self@);
        }
        acc
    }

    /// Largest stored sample, `0` when the buffer is empty.
    pub fn max(&self) -> (r: i64)
        requires
            self.wf(),
        ensures
            self@.len() == 0 ==> r == 0,
            self@.len() > 0 ==> exists|j: int| 0 <= j < self@.len() && self@[j] == r,
            forall|j: int| 0 <= j < self@.len() ==> #[trigger] self@[j] <= r,
    {
        let mut best: i64 = 0;
        let mut i: usize = 0;
        if self.len > 0 {
            best = self.buffer[0];
            i = 1;
            proof {
                assert(self@[0] == best);
            }
        }
        while i < self.len
            invariant
                self.wf(),
                i <= self.len,
                self.len > 0 ==> 1 <= i,
                self.len > 0 ==> exists|j: int| 0 <= j < i && self@[j] == best,
                self.len == 0 ==> best == 0 && i == 0,
                forall|j: int| 0 <= j < i ==> #[trigger] self@[j] <= best,
            decreases self.len - i,
        {
            let v = self.buffer[i];
            proof {
                assert(self@[i as int] == v);
            }
            if v > best {
                best = v;
            }
            i = i + 1;
        }
        best
    }
}

impl<const N: usize> Default for RingBuffer<N> {
    /// An empty buffer over `N` zeroed slots.
    fn default() -> (r: Self)
        ensures
            is_pow2(N as nat) ==> r.wf(),
            r@ == Seq::<i64>::empty(),
            r.cursor() == 0,
    {
        let mut buffer: Vec<i64> = Vec::new();
        let mut i: usize = 0;
        while i < N
            invariant
                i <= N,
                buffer@.len() == i,
            decreases N - i,
        {
            buffer.push(0);
            i = i + 1;
        }
        let r = RingBuffer { buffer, ptr: 0, len: 0 };
        proof {
            assert(r@ =~= Seq::<i64>::empty());
        }
        r
    }
}

} // verus!
