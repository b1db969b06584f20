//! Response curves: conversion between normalized control values and
//! plain domain-unit values, in fixed-point arithmetic.

use vstd::prelude::*;
use vstd::arithmetic::mul::{lemma_mul_inequality, lemma_mul_nonnegative, lemma_mul_upper_bound};
use vstd::arithmetic::div_mod::{
    lemma_div_is_ordered, lemma_div_multiples_vanish, lemma_div_pos_is_pos,
    lemma_hoist_over_denominator,
};

verus! {

/// One whole normalized unit: a normalized value runs over `0 ..= NORM_ONE`.
pub const NORM_ONE: u64 = 1_000_000;

/// One whole unit on the internal power scale, used while evaluating
/// power curves so that iterated rounding and underflow stay far below
/// the normalized resolution.
pub const POW_ONE: u64 = 1_000_000_000_000_000_000;

/// What a normalized value is multiplied by to reach the power scale:
/// `NORM_ONE * UP_SCALE == POW_ONE`.
pub const UP_SCALE: u64 = 1_000_000_000_000;

/// Largest magnitude a plain value or a descriptor bound may take
/// (one million domain units, in millionths).
pub const BOUND_LIMIT: i64 = 1_000_000_000_000;

/// Fixed-point power on the unit interval at scale [`POW_ONE`]:
/// `pow_frac(x, e)` is `(x / POW_ONE)^e`, rescaled by `POW_ONE`, with the
/// product floored at every step.
pub open spec fn pow_frac(x: int, e: nat) -> int
    decreases e,
{
    if e == 0 {
        POW_ONE as int
    } else {
        pow_frac(x, (e - 1) as nat) * x / (POW_ONE as int)
    }
}

/// On the unit interval the iterated power stays on the unit interval,
/// and never exceeds its base.
pub proof fn lemma_pow_frac_bounds(x: int, e: nat)
    requires
        0 <= x <= POW_ONE,
    ensures
        0 <= pow_frac(x, e) <= POW_ONE,
        e >= 1 ==> pow_frac(x, e) <= x,
    decreases e,
{
    if e >= 1 {
        lemma_pow_frac_bounds(x, (e - 1) as nat);
        let p = pow_frac(x, (e - 1) as nat);
        lemma_mul_nonnegative(p, x);
        lemma_div_pos_is_pos(p * x, POW_ONE as int);
        lemma_mul_inequality(p, POW_ONE as int, x);
        lemma_div_is_ordered(p * x, POW_ONE as int * x, POW_ONE as int);
        lemma_div_multiples_vanish(x, POW_ONE as int);
    }
}

/// A positive power of zero is zero.
pub proof fn lemma_pow_frac_zero(e: nat)
    requires
        e >= 1,
    ensures
        pow_frac(0, e) == 0,
{
    assert(pow_frac(0, (e - 1) as nat) * 0 == 0);
}

/// Any power of one is one.
pub proof fn lemma_pow_frac_one(e: nat)
    ensures
        pow_frac(POW_ONE as int, e) == POW_ONE,
    decreases e,
{
    if e >= 1 {
        lemma_pow_frac_one((e - 1) as nat);
        lemma_div_multiples_vanish(POW_ONE as int, POW_ONE as int);
    }
}

/// The iterated power is monotone in its base.
pub proof fn lemma_pow_frac_mono(x1: int, x2: int, e: nat)
    requires
        0 <= x1 <= x2 <= POW_ONE,
    ensures
        pow_frac(x1, e) <= pow_frac(x2, e),
    decreases e,
{
    if e >= 1 {
        lemma_pow_frac_mono(x1, x2, (e - 1) as nat);
        lemma_pow_frac_bounds(x1, (e - 1) as nat);
        lemma_pow_frac_bounds(x2, (e - 1) as nat);
        let p1 = pow_frac(x1, (e - 1) as nat);
        let p2 = pow_frac(x2, (e - 1) as nat);
        lemma_mul_upper_bound(p1, p2, x1, x2);
        lemma_div_is_ordered(p1 * x1, p2 * x2, POW_ONE as int);
    }
}

/// Evaluates [`pow_frac`] at run time.
fn pow_frac_exec(x: u64, e: u32) -> (r: u64)
    requires
        x <= POW_ONE,
    ensures
        r == pow_frac(x as int, e as nat),
        r <= POW_ONE,
{
    let mut acc: u64 = POW_ONE;
    let mut i: u32 = 0;
    while i < e
        invariant
            x <= POW_ONE,
            i <= e,
            acc == pow_frac(x as int, i as nat),
            acc <= POW_ONE,
        decreases e - i,
    {
        proof {
            lemma_pow_frac_bounds(x as int, (i + 1) as nat);
            lemma_mul_upper_bound(acc as int, POW_ONE as int, x as int, POW_ONE as int);
            lemma_mul_nonnegative(acc as int, x as int);
            lemma_div_pos_is_pos(acc as int * x as int, POW_ONE as int);
        }
        let wide: u128 = (acc as u128) * (x as u128) / (POW_ONE as u128);
        acc = wide as u64;
        i = i + 1;
    }
    acc
}

/// Shape of a parameter's response: how a normalized control position is
/// spread over the plain range.
///
/// `Power { num, den }` names the exponent `num / den` of the
/// normalized-from-plain direction, so the plain-from-normalized response
/// raises the normalized value to the power `den / num` (a gain fader is
/// typically `Power { num: 3, den: 20 }`, exponent `0.15`; keep the
/// fraction in lowest terms, as large powers floor away resolution).
#[derive(Clone, Copy, Debug, PartialEq, Eq, Structural)]
pub enum Curve {
    Linear,
    Power { num: u32, den: u32 },
}

impl Curve {
    /// A power curve needs a positive exponent.
    pub open spec fn wf(self) -> bool {
        match self {
            Curve::Linear => true,
            Curve::Power { num, den } => num >= 1 && den >= 1,
        }
    }
}

/// The point on the internal power scale that a power response must reach:
/// the normalized input raised to the `den`-th power.
pub open spec fn power_target(den: nat, n: int) -> int {
    pow_frac(n * UP_SCALE as int, den)
}

/// Characterizes the response of a `Power { num, den }` curve at normalized
/// input `n`: the least normalized point `y` whose `num`-th power reaches
/// the `den`-th power of `n`; that is, `y` is `n^(den/num)` up to the
/// fixed-point resolution.
pub open spec fn is_power_response(num: nat, den: nat, n: int, y: int) -> bool {
    &&& 0 <= y <= NORM_ONE as int
    &&& pow_frac(y * UP_SCALE as int, num) >= power_target(den, n)
    &&& (y == 0 || pow_frac((y - 1) * UP_SCALE as int, num) < power_target(den, n))
}

/// The response of a power curve, as the unique point satisfying
/// [`is_power_response`].
pub open spec fn power_response(num: nat, den: nat, n: int) -> int {
    choose|y: int| is_power_response(num, den, n, y)
}

/// What a curve makes of a normalized value: a point on `0 ..= NORM_ONE`
/// telling how far into the plain range the value lies.
pub open spec fn spec_response(c: Curve, n: int) -> int {
    match c {
        Curve::Linear => n,
        Curve::Power { num, den } => power_response(num as nat, den as nat, n),
    }
}

/// At most one point satisfies [`is_power_response`], so a witness pins
/// down [`power_response`].
pub proof fn lemma_power_response_found(num: nat, den: nat, n: int, y: int)
    requires
        is_power_response(num, den, n, y),
    ensures
        power_response(num, den, n) == y,
{
    let y2 = power_response(num, den, n);
    assert(is_power_response(num, den, n, y2));
    let t = power_target(den, n);
    if y2 < y {
        lemma_mul_inequality(y2, y - 1, UP_SCALE as int);
        lemma_mul_inequality(y - 1, NORM_ONE as int, UP_SCALE as int);
        lemma_mul_nonnegative(y2, UP_SCALE as int);
        lemma_pow_frac_mono(y2 * UP_SCALE as int, (y - 1) * UP_SCALE as int, num);
        assert(false);
    }
    if y < y2 {
        lemma_mul_inequality(y, y2 - 1, UP_SCALE as int);
        lemma_mul_inequality(y2 - 1, NORM_ONE as int, UP_SCALE as int);
        lemma_mul_nonnegative(y, UP_SCALE as int);
        lemma_pow_frac_mono(y * UP_SCALE as int, (y2 - 1) * UP_SCALE as int, num);
        assert(false);
    }
}

/// Walks down from a point whose power reaches the target until the least
/// such point is found.
proof fn lemma_power_search(num: nat, den: nat, n: int, y: int)
    requires
        num >= 1,
        0 <= y <= NORM_ONE as int,
        pow_frac(y * UP_SCALE as int, num) >= power_target(den, n),
    ensures
        exists|z: int| is_power_response(num, den, n, z),
    decreases y,
{
    if y == 0 {
        assert(is_power_response(num, den, n, 0));
    } else {
        lemma_mul_nonnegative(y - 1, UP_SCALE as int);
        lemma_mul_inequality(y - 1, NORM_ONE as int, UP_SCALE as int);
        if pow_frac((y - 1) * UP_SCALE as int, num) >= power_target(den, n) {
            lemma_power_search(num, den, n, y - 1);
        } else {
            assert(is_power_response(num, den, n, y));
        }
    }
}

/// A power response exists for every normalized input, so
/// [`power_response`] satisfies its own characterization.
pub proof fn lemma_power_response_exists(num: nat, den: nat, n: int)
    requires
        num >= 1,
        den >= 1,
        0 <= n <= NORM_ONE as int,
    ensures
        is_power_response(num, den, n, power_response(num, den, n)),
{
    lemma_mul_nonnegative(n, UP_SCALE as int);
    lemma_mul_inequality(n, NORM_ONE as int, UP_SCALE as int);
    lemma_pow_frac_bounds(n * UP_SCALE as int, den);
    lemma_pow_frac_one(num);
    assert(NORM_ONE as int * UP_SCALE as int == POW_ONE as int);
    lemma_power_search(num, den, n, NORM_ONE as int);
    let z = choose|z: int| is_power_response(num, den, n, z);
    lemma_power_response_found(num, den, n, z);
}

/// The response is monotone: a larger normalized input never gives a
/// smaller response.
pub proof fn lemma_response_mono(c: Curve, n1: int, n2: int)
    requires
        c.wf(),
        0 <= n1 <= n2 <= NORM_ONE as int,
    ensures
        spec_response(c, n1) <= spec_response(c, n2),
{
    match c {
        Curve::Linear => {},
        Curve::Power { num, den } => {
            let nm = num as nat;
            let dn = den as nat;
            lemma_power_response_exists(nm, dn, n1);
            lemma_power_response_exists(nm, dn, n2);
            let y1 = power_response(nm, dn, n1);
            let y2 = power_response(nm, dn, n2);
            lemma_mul_inequality(n1, n2, UP_SCALE as int);
            lemma_mul_nonnegative(n1, UP_SCALE as int);
            lemma_mul_inequality(n2, NORM_ONE as int, UP_SCALE as int);
            lemma_pow_frac_mono(n1 * UP_SCALE as int, n2 * UP_SCALE as int, dn);
            if y1 > y2 {
                lemma_mul_inequality(y2, y1 - 1, UP_SCALE as int);
                lemma_mul_inequality(y1 - 1, NORM_ONE as int, UP_SCALE as int);
                lemma_mul_nonnegative(y2, UP_SCALE as int);
                lemma_pow_frac_mono(y2 * UP_SCALE as int, (y1 - 1) * UP_SCALE as int, nm);
                assert(false);
            }
        },
    }
}

/// The response stays on the normalized interval.
pub proof fn lemma_response_bounds(c: Curve, n: int)
    requires
        c.wf(),
        0 <= n <= NORM_ONE as int,
    ensures
        0 <= spec_response(c, n) <= NORM_ONE as int,
{
    match c {
        Curve::Linear => {},
        Curve::Power { num, den } => {
            lemma_power_response_exists(num as nat, den as nat, n);
        },
    }
}

/// Every curve fixes the bottom of the range: the response of zero is zero.
pub proof fn lemma_response_zero(c: Curve)
    requires
        c.wf(),
    ensures
        spec_response(c, 0) == 0,
{
    match c {
        Curve::Linear => {},
        Curve::Power { num, den } => {
            lemma_pow_frac_zero(num as nat);
            lemma_pow_frac_zero(den as nat);
            assert(is_power_response(num as nat, den as nat, 0, 0));
            lemma_power_response_found(num as nat, den as nat, 0, 0);
        },
    }
}

/// Every curve fixes the top of the range: the response of one is one.
pub proof fn lemma_response_one(c: Curve)
    requires
        c.wf(),
    ensures
        spec_response(c, NORM_ONE as int) == NORM_ONE as int,
{
    match c {
        Curve::Linear => {},
        Curve::Power { num, den } => {
            let nm = num as nat;
            let dn = den as nat;
            assert(NORM_ONE as int * UP_SCALE as int == POW_ONE as int);
            lemma_pow_frac_one(nm);
            lemma_pow_frac_one(dn);
            lemma_mul_nonnegative(NORM_ONE as int - 1, UP_SCALE as int);
            lemma_mul_inequality(NORM_ONE as int - 1, NORM_ONE as int, UP_SCALE as int);
            lemma_pow_frac_bounds((NORM_ONE as int - 1) * UP_SCALE as int, nm);
            assert(((NORM_ONE as int) - 1) * (UP_SCALE as int) < (POW_ONE as int));
            assert(is_power_response(nm, dn, NORM_ONE as int, NORM_ONE as int));
            lemma_power_response_found(nm, dn, NORM_ONE as int, NORM_ONE as int);
        },
    }
}

/// Evaluates a curve's response at run time.
fn response_exec(c: &Curve, n: u64) -> (y: u64)
    requires
        c.wf(),
        n <= NORM_ONE,
    ensures
        y as int == spec_response(*c, n as int),
        y <= NORM_ONE,
{
    match c {
        Curve::Linear => n,
        Curve::Power { num, den } => {
            proof {
                lemma_mul_nonnegative(n as int, UP_SCALE as int);
                lemma_mul_inequality(n as int, NORM_ONE as int, UP_SCALE as int);
                assert(NORM_ONE as int * UP_SCALE as int == POW_ONE as int);
            }
            let t = pow_frac_exec(n * UP_SCALE, *den);
            let mut lo: u64 = 0;
            let mut hi: u64 = NORM_ONE;
            proof {
                lemma_pow_frac_one(*num as nat);
            }
            while lo < hi
                invariant
                    c.wf(),
                    n <= NORM_ONE,
                    lo <= hi <= NORM_ONE,
                    t == power_target(*den as nat, n as int),
                    pow_frac(hi as int * UP_SCALE as int, *num as nat) >= t,
                    lo == 0 || pow_frac((lo - 1) as int * UP_SCALE as int, *num as nat) < t,
                decreases hi - lo,
            {
                let mid = lo + (hi - lo) / 2;
                proof {
                    lemma_mul_nonnegative(mid as int, UP_SCALE as int);
                    lemma_mul_inequality(mid as int, NORM_ONE as int, UP_SCALE as int);
                }
                let v = pow_frac_exec(mid * UP_SCALE, *num);
                if v >= t {
                    hi = mid;
                } else {
                    lo = mid + 1;
                }
            }
            proof {
                assert(is_power_response(*num as nat, *den as nat, n as int, lo as int));
                lemma_power_response_found(*num as nat, *den as nat, n as int, lo as int);
            }
            lo
        },
    }
}

/// Static metadata of one parameter: identity, labels, plain range and
/// response curve. Shared read-only by every side; never mutated.
#[derive(Debug)]
pub struct ParameterDescriptor {
    pub id: u32,
    pub display_name: String,
    pub unit_label: String,
    pub min: i64,
    pub max: i64,
    pub curve: Curve,
}

impl ParameterDescriptor {
    /// Bounds are ordered and within the fixed-point limit, and the curve
    /// has a positive exponent.
    pub open spec fn wf(self) -> bool {
        &&& -BOUND_LIMIT <= self.min <= self.max <= BOUND_LIMIT
        &&& self.curve.wf()
    }
}

/// A normalized input clamped onto `0 ..= NORM_ONE`.
pub open spec fn clamp_norm(n: int) -> int {
    if n < 0 {
        0
    } else if n > NORM_ONE as int {
        NORM_ONE as int
    } else {
        n
    }
}

/// A plain input clamped onto the descriptor's range.
pub open spec fn clamp_plain(d: ParameterDescriptor, p: int) -> int {
    if p < d.min {
        d.min as int
    } else if p > d.max {
        d.max as int
    } else {
        p
    }
}

/// The plain value a descriptor gives to a normalized one: the bottom of
/// the range plus the curve's response share of the range's width. Out of
/// range inputs are clamped, never rejected.
pub open spec fn spec_to_plain(d: ParameterDescriptor, n: int) -> int {
    d.min + (d.max - d.min) * spec_response(d.curve, clamp_norm(n)) / (NORM_ONE as int)
}

/// The plain value stays within the descriptor's range.
pub proof fn lemma_to_plain_in_range(d: ParameterDescriptor, n: int)
    requires
        d.wf(),
    ensures
        d.min <= spec_to_plain(d, n) <= d.max,
{
    let nc = clamp_norm(n);
    let r = spec_response(d.curve, nc);
    let span = d.max - d.min;
    lemma_response_bounds(d.curve, nc);
    lemma_mul_nonnegative(span, r);
    lemma_div_pos_is_pos(span * r, NORM_ONE as int);
    lemma_mul_inequality(r, NORM_ONE as int, span);
    lemma_div_is_ordered(span * r, span * NORM_ONE as int, NORM_ONE as int);
    lemma_div_multiples_vanish(span, NORM_ONE as int);
    assert(span * r == r * span) by (nonlinear_arith);
    assert(span * NORM_ONE as int == NORM_ONE as int * span) by (nonlinear_arith);
}

/// The conversion to plain is monotone: a larger normalized value never
/// maps below a smaller one.
pub proof fn lemma_to_plain_monotone(d: ParameterDescriptor, n1: int, n2: int)
    requires
        d.wf(),
        n1 <= n2,
    ensures
        spec_to_plain(d, n1) <= spec_to_plain(d, n2),
{
    let c1 = clamp_norm(n1);
    let c2 = clamp_norm(n2);
    let span = d.max - d.min;
    lemma_response_mono(d.curve, c1, c2);
    lemma_response_bounds(d.curve, c1);
    lemma_response_bounds(d.curve, c2);
    let r1 = spec_response(d.curve, c1);
    let r2 = spec_response(d.curve, c2);
    lemma_mul_inequality(r1, r2, span);
    assert(span * r1 == r1 * span) by (nonlinear_arith);
    assert(span * r2 == r2 * span) by (nonlinear_arith);
    lemma_div_is_ordered(span * r1, span * r2, NORM_ONE as int);
}

/// The bottom of the normalized range maps to the bottom of the plain
/// range, and the top to the top, exactly.
pub proof fn lemma_to_plain_endpoints(d: ParameterDescriptor)
    requires
        d.wf(),
    ensures
        spec_to_plain(d, 0) == d.min,
        spec_to_plain(d, NORM_ONE as int) == d.max,
{
    let span = d.max - d.min;
    lemma_response_zero(d.curve);
    lemma_response_one(d.curve);
    assert(span * 0 == 0) by (nonlinear_arith);
    lemma_div_multiples_vanish(span, NORM_ONE as int);
    assert(span * NORM_ONE as int == NORM_ONE as int * span) by (nonlinear_arith);
}

/// Converts a normalized value to the descriptor's plain units.
pub fn to_plain(d: &ParameterDescriptor, n: u64) -> (p: i64)
    requires
        d.wf(),
    ensures
        p as int == spec_to_plain(*d, n as int),
        d.min <= p <= d.max,
{
    let nc = if n > NORM_ONE {
        NORM_ONE
    } else {
        n
    };
    let y = response_exec(&d.curve, nc);
    let span = (d.max - d.min) as u64;
    proof {
        lemma_response_bounds(d.curve, nc as int);
        lemma_mul_nonnegative(span as int, y as int);
        lemma_div_pos_is_pos(span as int * y as int, NORM_ONE as int);
        lemma_mul_inequality(y as int, NORM_ONE as int, span as int);
        lemma_div_is_ordered(span as int * y as int, span as int * NORM_ONE as int,
            NORM_ONE as int);
        lemma_div_multiples_vanish(span as int, NORM_ONE as int);
        assert(span as int * y as int == y as int * span as int) by (nonlinear_arith);
        assert(span as int * NORM_ONE as int == NORM_ONE as int * span as int)
            by (nonlinear_arith);
        lemma_mul_upper_bound(span as int, 2 * BOUND_LIMIT as int, y as int, NORM_ONE as int);
    }
    let off = ((span as u128) * (y as u128) / (NORM_ONE as u128)) as u64;
    d.min + (off as i64)
}

/// Characterizes the normalized value a descriptor gives back for a plain
/// one: the greatest normalized point whose plain value does not pass the
/// (clamped) input. On the image of [`spec_to_plain`] this is the exact
/// inverse.
pub open spec fn is_norm_inverse(d: ParameterDescriptor, p: int, y: int) -> bool {
    &&& 0 <= y <= NORM_ONE as int
    &&& spec_to_plain(d, y) <= clamp_plain(d, p)
    &&& (y == NORM_ONE as int || spec_to_plain(d, y + 1) > clamp_plain(d, p))
}

/// The normalized value of a plain one, as the unique point satisfying
/// [`is_norm_inverse`].
pub open spec fn spec_to_normalized(d: ParameterDescriptor, p: int) -> int {
    choose|y: int| is_norm_inverse(d, p, y)
}

/// Walks up from a point whose plain value stays under the target until
/// the greatest such point is found.
proof fn lemma_norm_search(d: ParameterDescriptor, p: int, y: int)
    requires
        d.wf(),
        0 <= y <= NORM_ONE as int,
        spec_to_plain(d, y) <= clamp_plain(d, p),
    ensures
        exists|z: int| is_norm_inverse(d, p, z),
    decreases NORM_ONE as int - y,
{
    if y == NORM_ONE as int {
        assert(is_norm_inverse(d, p, y));
    } else if spec_to_plain(d, y + 1) <= clamp_plain(d, p) {
        lemma_norm_search(d, p, y + 1);
    } else {
        assert(is_norm_inverse(d, p, y));
    }
}

/// At most one point satisfies [`is_norm_inverse`], so a witness pins down
/// [`spec_to_normalized`].
pub proof fn lemma_norm_inverse_found(d: ParameterDescriptor, p: int, y: int)
    requires
        d.wf(),
        is_norm_inverse(d, p, y),
    ensures
        spec_to_normalized(d, p) == y,
{
    let y2 = spec_to_normalized(d, p);
    assert(is_norm_inverse(d, p, y2));
    if y2 < y {
        lemma_to_plain_monotone(d, y2 + 1, y);
        assert(false);
    }
    if y < y2 {
        lemma_to_plain_monotone(d, y + 1, y2);
        assert(false);
    }
}

/// A normalized inverse exists for every plain input, so
/// [`spec_to_normalized`] satisfies its own characterization.
pub proof fn lemma_norm_inverse_exists(d: ParameterDescriptor, p: int)
    requires
        d.wf(),
    ensures
        is_norm_inverse(d, p, spec_to_normalized(d, p)),
{
    lemma_to_plain_endpoints(d);
    lemma_norm_search(d, p, 0);
    let z = choose|z: int| is_norm_inverse(d, p, z);
    lemma_norm_inverse_found(d, p, z);
}

/// Converts a plain value back to a normalized one.
pub fn to_normalized(d: &ParameterDescriptor, p: i64) -> (n: u64)
    requires
        d.wf(),
    ensures
        n as int == spec_to_normalized(*d, p as int),
        n <= NORM_ONE,
{
    let pc = if p < d.min {
        d.min
    } else if p > d.max {
        d.max
    } else {
        p
    };
    proof {
        lemma_to_plain_endpoints(*d);
    }
    let mut lo: u64 = 0;
    let mut hi: u64 = NORM_ONE;
    while lo < hi
        invariant
            d.wf(),
            pc as int == clamp_plain(*d, p as int),
            lo <= hi <= NORM_ONE,
            spec_to_plain(*d, lo as int) <= pc as int,
            hi == NORM_ONE || spec_to_plain(*d, hi as int + 1) > pc as int,
        decreases hi - lo,
    {
        let mid = lo + (hi - lo + 1) / 2;
        let v = to_plain(d, mid);
        if v <= pc {
            lo = mid;
        } else {
            hi = mid - 1;
        }
    }
    proof {
        assert(is_norm_inverse(*d, p as int, lo as int));
        lemma_norm_inverse_found(*d, p as int, lo as int);
    }
    lo
}

/// Converting a normalized value to plain and back lands on a normalized
/// value at least as large that the curve maps to the very same plain
/// value: the round trip is exact on the curve's image.
pub proof fn lemma_round_trip(d: ParameterDescriptor, n: int)
    requires
        d.wf(),
        0 <= n <= NORM_ONE as int,
    ensures
        spec_to_normalized(d, spec_to_plain(d, n)) >= n,
        spec_to_plain(d, spec_to_normalized(d, spec_to_plain(d, n))) == spec_to_plain(d, n),
{
    let p = spec_to_plain(d, n);
    lemma_to_plain_in_range(d, n);
    assert(clamp_plain(d, p) == p);
    lemma_norm_inverse_exists(d, p);
    let y = spec_to_normalized(d, p);
    if y < n {
        lemma_to_plain_monotone(d, y + 1, n);
        assert(false);
    }
    lemma_to_plain_monotone(d, n, y);
}

/// On a linear curve whose plain range is at least as wide as the
/// normalized one, the round trip returns the input exactly.
pub proof fn lemma_round_trip_linear_exact(d: ParameterDescriptor, n: int)
    requires
        d.wf(),
        d.curve == Curve::Linear,
        d.max - d.min >= NORM_ONE as int,
        0 <= n <= NORM_ONE as int,
    ensures
        spec_to_normalized(d, spec_to_plain(d, n)) == n,
{
    lemma_round_trip(d, n);
    let y = spec_to_normalized(d, spec_to_plain(d, n));
    if y > n {
        lemma_norm_inverse_exists(d, spec_to_plain(d, n));
        lemma_to_plain_in_range(d, n);
        assert(y <= NORM_ONE as int);
        assert(clamp_norm(n + 1) == n + 1);
        let span = d.max - d.min;
        lemma_hoist_over_denominator(span * n, 1, NORM_ONE as nat);
        assert(span * n / (NORM_ONE as int) + 1 == (span * n + NORM_ONE as int) / (
        NORM_ONE as int));
        assert(span * (n + 1) == span * n + span) by (nonlinear_arith);
        lemma_div_is_ordered(span * n + NORM_ONE as int, span * (n + 1), NORM_ONE as int);
        assert(spec_to_plain(d, n + 1) > spec_to_plain(d, n));
        lemma_to_plain_monotone(d, n + 1, y);
        assert(false);
    }
}

} // verus!
