//! Per-sample smoothing of one parameter's plain value: the audio side
//! moves the current value toward a target over a fixed number of samples
//! along a straight fixed-point ramp, landing on the target exactly.

use vstd::prelude::*;
use vstd::arithmetic::mul::{lemma_mul_inequality, lemma_mul_nonnegative, lemma_mul_upper_bound};
use vstd::arithmetic::div_mod::{lemma_div_is_ordered, lemma_div_multiples_vanish,
    lemma_div_pos_is_pos};
use crate::curve::BOUND_LIMIT;

verus! {

/// The ramp between `start` and `target` over `dur` steps, sampled at step
/// `i`: a straight interpolation, floored per step, that returns `target`
/// itself from step `dur` on.
pub open spec fn spec_interp(start: int, target: int, dur: nat, i: nat) -> int {
    if i >= dur {
        target
    } else if target >= start {
        start + (target - start) * i / (dur as int)
    } else {
        start - (start - target) * i / (dur as int)
    }
}

/// Smoothing state of one parameter, owned by the audio side. `current`
/// sits `duration - remaining` steps along the ramp from `start` to
/// `target`; once `remaining` is zero, `current` equals `target`.
#[derive(Clone, Copy, Debug, PartialEq, Eq, Structural)]
pub struct Smoother {
    pub current: i64,
    pub target: i64,
    pub start: i64,
    pub duration: u32,
    pub remaining: u32,
}

impl Smoother {
    /// The values are within the fixed-point limit, the step counter never
    /// exceeds the ramp length, and `current` lies on the ramp; in
    /// particular `remaining == 0` forces `current == target`.
    pub open spec fn wf(self) -> bool {
        &&& -BOUND_LIMIT <= self.start <= BOUND_LIMIT
        &&& -BOUND_LIMIT <= self.target <= BOUND_LIMIT
        &&& -BOUND_LIMIT <= self.current <= BOUND_LIMIT
        &&& self.remaining <= self.duration
        &&& self.current as int == spec_interp(
            self.start as int,
            self.target as int,
            self.duration as nat,
            (self.duration - self.remaining) as nat,
        )
    }

    /// A fresh smoother resting on its initial value.
    pub fn new(initial: i64) -> (s: Smoother)
        requires
            -BOUND_LIMIT <= initial <= BOUND_LIMIT,
        ensures
            s.wf(),
            s.current == initial,
            s.target == initial,
            s.remaining == 0,
    {
        Smoother { current: initial, target: initial, start: initial, duration: 0, remaining: 0 }
    }
}

/// The ramp never leaves the closed interval between its endpoints.
pub proof fn lemma_interp_bounds(start: int, target: int, dur: nat, i: nat)
    ensures
        target >= start ==> start <= spec_interp(start, target, dur, i) <= target,
        target < start ==> target <= spec_interp(start, target, dur, i) <= start,
{
    if i < dur {
        if target >= start {
            let diff = target - start;
            lemma_mul_nonnegative(diff, i as int);
            lemma_div_pos_is_pos(diff * i, dur as int);
            lemma_mul_inequality(i as int, dur as int, diff);
            assert(i as int * diff == diff * i as int) by (nonlinear_arith);
            assert(dur as int * diff == diff * dur as int) by (nonlinear_arith);
            lemma_div_is_ordered(diff * i, diff * dur, dur as int);
            lemma_div_multiples_vanish(diff, dur as int);
        } else {
            let diff = start - target;
            lemma_mul_nonnegative(diff, i as int);
            lemma_div_pos_is_pos(diff * i, dur as int);
            lemma_mul_inequality(i as int, dur as int, diff);
            assert(i as int * diff == diff * i as int) by (nonlinear_arith);
            assert(dur as int * diff == diff * dur as int) by (nonlinear_arith);
            lemma_div_is_ordered(diff * i, diff * dur, dur as int);
            lemma_div_multiples_vanish(diff, dur as int);
        }
    }
}

/// What one call to `advance` makes of a smoother: a step along the ramp
/// while any remains, and the identity once the target is reached.
pub open spec fn spec_advance(s: Smoother) -> Smoother {
    if s.remaining == 0 {
        s
    } else {
        Smoother {
            current: spec_interp(
                s.start as int,
                s.target as int,
                s.duration as nat,
                (s.duration - (s.remaining - 1)) as nat,
            ) as i64,
            remaining: (s.remaining - 1) as u32,
            ..s
        }
    }
}

/// `n` calls to `advance`, folded.
pub open spec fn spec_advance_n(s: Smoother, n: nat) -> Smoother
    decreases n,
{
    if n == 0 {
        s
    } else {
        spec_advance(spec_advance_n(s, (n - 1) as nat))
    }
}

/// Advancing keeps the smoother well formed, never touches the ramp's
/// endpoints, and consumes exactly the steps it takes.
pub proof fn lemma_advance_n_props(s: Smoother, n: nat)
    requires
        s.wf(),
    ensures
        spec_advance_n(s, n).wf(),
        spec_advance_n(s, n).start == s.start,
        spec_advance_n(s, n).target == s.target,
        spec_advance_n(s, n).duration == s.duration,
        spec_advance_n(s, n).remaining == if n <= s.remaining {
            s.remaining - n
        } else {
            0
        },
    decreases n,
{
    if n > 0 {
        lemma_advance_n_props(s, (n - 1) as nat);
        let prev = spec_advance_n(s, (n - 1) as nat);
        if prev.remaining > 0 {
            lemma_interp_bounds(
                s.start as int,
                s.target as int,
                s.duration as nat,
                (s.duration - (prev.remaining - 1)) as nat,
            );
        }
    }
}

/// Once as many steps have been taken as remained, the smoother sits on
/// its target exactly, and every further step leaves it there.
pub proof fn lemma_advance_reaches_target(s: Smoother, n: nat)
    requires
        s.wf(),
        n >= s.remaining,
    ensures
        spec_advance_n(s, n).remaining == 0,
        spec_advance_n(s, n).current == s.target,
{
    lemma_advance_n_props(s, n);
}

/// No sample along the trajectory overshoots: every advanced value stays
/// between the ramp's start and its target.
pub proof fn lemma_no_overshoot(s: Smoother, n: nat)
    requires
        s.wf(),
    ensures
        s.target >= s.start ==> s.start <= spec_advance_n(s, n).current <= s.target,
        s.target < s.start ==> s.target <= spec_advance_n(s, n).current <= s.start,
{
    lemma_advance_n_props(s, n);
    let a = spec_advance_n(s, n);
    lemma_interp_bounds(s.start as int, s.target as int, s.duration as nat,
        (s.duration - a.remaining) as nat);
}

/// Advancing composes: taking `a` steps and then `b` more is taking
/// `a + b` steps.
pub proof fn lemma_advance_n_add(s: Smoother, a: nat, b: nat)
    ensures
        spec_advance_n(s, a + b) == spec_advance_n(spec_advance_n(s, a), b),
    decreases b,
{
    if b > 0 {
        lemma_advance_n_add(s, a, (b - 1) as nat);
    }
}

/// What `set_target` makes of a smoother: a fresh ramp from the current
/// value; a target equal to the current value leaves nothing to smooth.
pub open spec fn spec_set_target(s: Smoother, t: i64, d: u32) -> Smoother {
    Smoother {
        current: s.current,
        target: t,
        start: s.current,
        duration: d,
        remaining: if t == s.current {
            0
        } else {
            d
        },
    }
}

impl Smoother {
    /// Points the smoother at a new target `t`, to be reached after `d`
    /// further steps. The ramp restarts from the current (possibly
    /// partially smoothed) value, so there is no discontinuity; a target
    /// already reached leaves no remaining steps.
    pub fn set_target(&mut self, t: i64, d: u32)
        requires
            old(self).wf(),
            -BOUND_LIMIT <= t <= BOUND_LIMIT,
            d >= 1,
        ensures
            final(self).wf(),
            *final(self) == spec_set_target(*old(self), t, d),
    {
        self.start = self.current;
        self.target = t;
        self.duration = d;
        if t == self.current {
            self.remaining = 0;
        } else {
            self.remaining = d;
        }
        proof {
            if t != old(self).current {
                assert((t - self.start) * 0 == 0) by (nonlinear_arith);
                assert((self.start - t) * 0 == 0) by (nonlinear_arith);
            }
        }
    }

    /// Takes one step: returns the next per-sample value, one step further
    /// along the ramp; once the target is reached, returns it unchanged on
    /// every further call.
    pub fn advance(&mut self) -> (v: i64)
        requires
            old(self).wf(),
        ensures
            final(self).wf(),
            *final(self) == spec_advance(*old(self)),
            v == final(self).current,
    {
        if self.remaining == 0 {
            return self.current;
        }
        self.remaining = self.remaining - 1;
        let i = self.duration - self.remaining;
        let cur: i64;
        if self.target >= self.start {
            let diff = (self.target - self.start) as u64;
            proof {
                lemma_mul_nonnegative(diff as int, i as int);
                lemma_mul_upper_bound(diff as int, 2 * BOUND_LIMIT as int, i as int,
                    u32::MAX as int);
                lemma_div_pos_is_pos(diff as int * i as int, self.duration as int);
                lemma_mul_inequality(i as int, self.duration as int, diff as int);
                assert(i as int * diff as int == diff as int * i as int) by (nonlinear_arith);
                assert(self.duration as int * diff as int == diff as int * self.duration as int)
                    by (nonlinear_arith);
                lemma_div_is_ordered(diff as int * i as int, diff as int * self.duration as int,
                    self.duration as int);
                lemma_div_multiples_vanish(diff as int, self.duration as int);
            }
            let step = ((diff as u128) * (i as u128) / (self.duration as u128)) as u64;
            cur = self.start + (step as i64);
        } else {
            let diff = (self.start - self.target) as u64;
            proof {
                lemma_mul_nonnegative(diff as int, i as int);
                lemma_mul_upper_bound(diff as int, 2 * BOUND_LIMIT as int, i as int,
                    u32::MAX as int);
                lemma_div_pos_is_pos(diff as int * i as int, self.duration as int);
                lemma_mul_inequality(i as int, self.duration as int, diff as int);
                assert(i as int * diff as int == diff as int * i as int) by (nonlinear_arith);
                assert(self.duration as int * diff as int == diff as int * self.duration as int)
                    by (nonlinear_arith);
                lemma_div_is_ordered(diff as int * i as int, diff as int * self.duration as int,
                    self.duration as int);
                lemma_div_multiples_vanish(diff as int, self.duration as int);
            }
            let step = ((diff as u128) * (i as u128) / (self.duration as u128)) as u64;
            cur = self.start - (step as i64);
        }
        self.current = cur;
        cur
    }

    /// Writes the next `count` per-sample values into the front of `buf`
    /// by repeated [`Smoother::advance`], leaving the rest of the buffer
    /// as it was. This is the audio path's per-block entry point: it
    /// allocates nothing and takes one step per written sample.
    pub fn fill(&mut self, buf: &mut Vec<i64>, count: usize)
        requires
            old(self).wf(),
            count <= old(buf).len(),
        ensures
            final(self).wf(),
            *final(self) == spec_advance_n(*old(self), count as nat),
            final(buf).len() == old(buf).len(),
            forall|k: int|
                0 <= k < count ==> final(buf)@[k] == spec_advance_n(*old(self),
                (k + 1) as nat).current,
            forall|k: int| count <= k < old(buf).len() ==> final(buf)@[k] == old(buf)@[k],
    {
        let mut j: usize = 0;
        while j < count
            invariant
                j <= count <= buf.len(),
                buf.len() == old(buf).len(),
                self.wf(),
                *self == spec_advance_n(*old(self), j as nat),
                forall|k: int|
                    0 <= k < j ==> buf@[k] == spec_advance_n(*old(self), (k + 1) as nat).current,
                forall|k: int| j <= k < buf.len() ==> buf@[k] == old(buf)@[k],
            decreases count - j,
        {
            let v = self.advance();
            buf.set(j, v);
            j = j + 1;
            proof {
                assert(spec_advance_n(*old(self), j as nat) == spec_advance(
                    spec_advance_n(*old(self), (j - 1) as nat)));
            }
        }
    }
}

} // verus!
