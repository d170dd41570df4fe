//! Activation policies applied elementwise by the layers.
//!
//! A policy is a pair of pure functions on fixed-point scalars: `activate`
//! maps a weighted input to the neuron's output, and `derivate` gives the
//! derivative of the activation at an already-activated value.  The
//! policy types are tags: a network stores which policy a layer uses,
//! never a value of the policy itself.

use vstd::prelude::*;

use crate::fixed::{bounded, fmul, fsub, spec_divt, spec_fmul, spec_fsub, BOUND, ONE};

verus! {

/// Sigmoid inputs are clamped to `[-SIG_CLAMP, SIG_CLAMP]` (twenty in
/// fixed-point) before exponentiation.
pub const SIG_CLAMP: i64 = 20 * 65536;

/// The leaky slope of [`ReLu`] for non-positive activations, one
/// hundredth in fixed-point.
pub const LEAK: i64 = 655;

/// An activation policy: a pure `activate` / `derivate` pair evaluated
/// elementwise.  `derivate` takes the already-activated value, not the
/// pre-activation value.
pub trait Activation {
    /// The value `activate` computes.
    spec fn activate_spec(x: i64) -> i64;

    /// The value `derivate` computes.
    spec fn derivate_spec(y: i64) -> i64;

    /// The output of the neuron for the summed, weighted input `x`.
    fn activate(x: i64) -> (r: i64)
        requires
            bounded(x),
        ensures
            r == Self::activate_spec(x),
            bounded(r),
    ;

    /// The derivative of the activation at the activated value `y`.
    fn derivate(y: i64) -> (r: i64)
        requires
            bounded(y),
        ensures
            r == Self::derivate_spec(y),
            bounded(r),
    ;
}

/// One squaring step of the exponential: square in fixed-point, never
/// letting the value fall to zero.
pub open spec fn exp_square_step(y: i64) -> i64 {
    let z = spec_fmul(y, y);
    if z < 1 {
        1
    } else {
        z
    }
}

/// `k` squaring steps applied to `y`.
pub open spec fn exp_squares(y: i64, k: nat) -> i64
    decreases k,
{
    if k == 0 {
        y
    } else {
        exp_square_step(exp_squares(y, (k - 1) as nat))
    }
}

/// The engine's exponential of a non-positive scalar: a second-order
/// expansion of `exp(u / 256)` squared eight times, kept within `[1, ONE]`.
pub open spec fn spec_exp_unit(u: i64) -> i64 {
    let t = spec_divt(u as int, 256) as i64;
    let sq = spec_fmul(t, t);
    let base = (ONE + t + sq / 2) as i64;
    exp_squares(base, 8)
}

/// `exp_squares` keeps values within `[1, ONE]`.
proof fn lemma_exp_squares_range(y: i64, k: nat)
    requires
        1 <= y <= ONE,
    ensures
        1 <= exp_squares(y, k) <= ONE,
    decreases k,
{
    if k > 0 {
        lemma_exp_squares_range(y, (k - 1) as nat);
        let p = exp_squares(y, (k - 1) as nat);
        assert((p as int) * (p as int) <= (ONE as int) * (ONE as int)) by (nonlinear_arith)
            requires
                1 <= p <= ONE,
        ;
        assert((p as int) * (p as int) / (ONE as int) <= ONE) by (nonlinear_arith)
            requires
                (p as int) * (p as int) <= (ONE as int) * (ONE as int),
        ;
    }
}

/// The exponential of a non-positive clamped scalar stays within
/// `[1, ONE]`.
pub proof fn lemma_exp_unit_range(u: i64)
    requires
        -SIG_CLAMP <= u <= 0,
    ensures
        1 <= spec_exp_unit(u) <= ONE,
{
    let t = spec_divt(u as int, 256) as i64;
    assert(0 <= (-u) as int / 256 <= 5120) by {
        vstd::arithmetic::div_mod::lemma_div_pos_is_pos((-u) as int, 256);
        vstd::arithmetic::div_mod::lemma_div_is_ordered((-u) as int, SIG_CLAMP as int, 256);
    }
    assert(-5120 <= t <= 0);
    let sq = spec_fmul(t, t);
    assert(0 <= (t as int) * (t as int) <= 26214400) by (nonlinear_arith)
        requires
            -5120 <= t <= 0,
    ;
    assert((t as int) * (t as int) / 65536 * 2 <= -(2 * t)) by (nonlinear_arith)
        requires
            -5120 <= t <= 0,
    ;
    let base = (ONE + t + sq / 2) as i64;
    assert(1 <= base <= ONE);
    lemma_exp_squares_range(base, 8);
}

/// The exponential of a non-positive scalar, no smaller than `-SIG_CLAMP`.
pub(crate) fn exp_unit(u: i64) -> (r: i64)
    requires
        -SIG_CLAMP <= u <= 0,
    ensures
        r == spec_exp_unit(u),
        1 <= r <= ONE,
{
    let m: u64 = (-u) as u64;
    let t: i64 = -((m / 256) as i64);
    assert(-5120 <= t <= 0);
    let sq: i64 = fmul(t, t);
    proof {
        assert(0 <= (t as int) * (t as int) <= 26214400) by (nonlinear_arith)
            requires
                -5120 <= t <= 0,
        ;
        assert((t as int) * (t as int) / 65536 * 2 <= -(2 * t)) by (nonlinear_arith)
            requires
                -5120 <= t <= 0,
        ;
    }
    let half: i64 = ((sq as u64) / 2) as i64;
    let mut y: i64 = ONE + t + half;
    assert(1 <= y <= ONE);
    assert(y == (ONE + t + sq / 2) as i64);
    let mut k: usize = 0;
    while k < 8
        invariant
            0 <= k <= 8,
            1 <= y <= ONE,
            y == exp_squares((ONE + t + sq / 2) as i64, k as nat),
        decreases 8 - k,
    {
        let z: i64 = fmul(y, y);
        proof {
            assert((y as int) * (y as int) / (ONE as int) <= ONE) by (nonlinear_arith)
                requires
                    1 <= y <= ONE,
            ;
        }
        y = if z < 1 {
            1
        } else {
            z
        };
        k = k + 1;
    }
    y
}

/// A scalar forced strictly inside `(0, ONE)`.
pub open spec fn clamp_unit(v: i64) -> i64 {
    if v < 1 {
        1
    } else if v > ONE - 1 {
        (ONE - 1) as i64
    } else {
        v
    }
}

/// The sigmoid of `x`: the input is clamped to `[-SIG_CLAMP, SIG_CLAMP]`,
/// the stable branch of `1 / (1 + exp(-x))` is evaluated, and the result
/// is kept strictly inside `(0, ONE)`.
pub open spec fn spec_sigmoid(x: i64) -> i64 {
    let c = if x > SIG_CLAMP {
        SIG_CLAMP
    } else if x < -SIG_CLAMP {
        (-SIG_CLAMP) as i64
    } else {
        x
    };
    if c >= 0 {
        let e = spec_exp_unit((-c) as i64);
        clamp_unit((((ONE as int) * (ONE as int)) / (ONE as int + e as int)) as i64)
    } else {
        let e = spec_exp_unit(c);
        clamp_unit((((e as int) * (ONE as int)) / (ONE as int + e as int)) as i64)
    }
}

/// The sigmoid is strictly inside `(0, ONE)` for every input, extreme
/// magnitudes included: clamping keeps the exponential in its domain and
/// the result is pinned away from both ends.
pub proof fn lemma_sigmoid_range(x: i64)
    ensures
        1 <= spec_sigmoid(x) <= ONE - 1,
{
}

/// A smooth step between zero and one: `1 / (1 + exp(-x))`.
#[derive(Clone, Copy, Debug)]
pub enum Sigmoid {
    /// The only value; the type is used as a tag.
    Marker,
}

impl Activation for Sigmoid {
    open spec fn activate_spec(x: i64) -> i64 {
        spec_sigmoid(x)
    }

    open spec fn derivate_spec(y: i64) -> i64 {
        spec_fmul(y, spec_fsub(ONE, y))
    }

    fn activate(x: i64) -> (r: i64) {
        sigmoid_exec(x)
    }

    fn derivate(y: i64) -> (r: i64) {
        fmul(y, fsub(ONE, y))
    }
}

fn sigmoid_exec(x: i64) -> (r: i64)
    requires
        bounded(x),
    ensures
        r == spec_sigmoid(x),
        1 <= r <= ONE - 1,
{
    let c: i64 = if x > SIG_CLAMP {
        SIG_CLAMP
    } else if x < -SIG_CLAMP {
        -SIG_CLAMP
    } else {
        x
    };
    if c >= 0 {
        let e: i64 = exp_unit(-c);
        let q: u64 = ((ONE as u64) * 65536) / ((ONE + e) as u64);
        let v: i64 = q as i64;
        clamp_unit_exec(v)
    } else {
        let e: i64 = exp_unit(c);
        let q: u64 = ((e as u64) * 65536) / ((ONE + e) as u64);
        let v: i64 = q as i64;
        clamp_unit_exec(v)
    }
}

fn clamp_unit_exec(v: i64) -> (r: i64)
    requires
        -BOUND <= v <= BOUND,
    ensures
        r == clamp_unit(v),
        1 <= r <= ONE - 1,
{
    if v < 1 {
        1
    } else if v > ONE - 1 {
        ONE - 1
    } else {
        v
    }
}

/// Rectified linear with a small leak in the derivative.
#[derive(Clone, Copy, Debug)]
pub enum ReLu {
    /// The only value; the type is used as a tag.
    Marker,
}

impl Activation for ReLu {
    open spec fn activate_spec(x: i64) -> i64 {
        if x >= 0 {
            x
        } else {
            0
        }
    }

    open spec fn derivate_spec(y: i64) -> i64 {
        if y > 0 {
            ONE
        } else {
            LEAK
        }
    }

    fn activate(x: i64) -> (r: i64) {
        if x >= 0 {
            x
        } else {
            0
        }
    }

    fn derivate(y: i64) -> (r: i64) {
        if y > 0 {
            ONE
        } else {
            LEAK
        }
    }
}

/// Type tag that selects the softmax terminal layer; it has no elementwise
/// activation of its own, so it does not implement [`Activation`].
#[derive(Clone, Copy, Debug)]
pub enum SoftMax {
    /// The only value; the type is used as a tag.
    Marker,
}

/// The elementwise activation a dense or convolutional layer stores.
#[derive(Clone, Copy, Debug, PartialEq, Eq, Structural)]
pub enum Act {
    Sigmoid,
    ReLu,
}

/// The activation of policy `a` at `x`.
pub open spec fn act_value(a: Act, x: i64) -> i64 {
    match a {
        Act::Sigmoid => Sigmoid::activate_spec(x),
        Act::ReLu => ReLu::activate_spec(x),
    }
}

/// The derivative of policy `a` at the activated value `y`.
pub open spec fn act_deriv(a: Act, y: i64) -> i64 {
    match a {
        Act::Sigmoid => Sigmoid::derivate_spec(y),
        Act::ReLu => ReLu::derivate_spec(y),
    }
}

/// Applies the activation of policy `a`.
pub fn apply_act(a: Act, x: i64) -> (r: i64)
    requires
        bounded(x),
    ensures
        r == act_value(a, x),
        bounded(r),
{
    match a {
        Act::Sigmoid => Sigmoid::activate(x),
        Act::ReLu => ReLu::activate(x),
    }
}

/// Applies the derivative of policy `a`.
pub fn apply_deriv(a: Act, y: i64) -> (r: i64)
    requires
        bounded(y),
    ensures
        r == act_deriv(a, y),
        bounded(r),
{
    match a {
        Act::Sigmoid => Sigmoid::derivate(y),
        Act::ReLu => ReLu::derivate(y),
    }
}

} // verus!
