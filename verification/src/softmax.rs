//! The softmax terminal layer.
//!
//! An alternate final layer whose `step` is a normalized exponential with
//! the usual max-shift stabilization: the largest pre-activation is
//! subtracted before exponentiating, and each exponential is divided by
//! their sum.  Its backward pass does not use the generic chain-rule
//! scaling: the combined gradient has the closed form `target - output`,
//! so the error is the delta directly, and the generic per-neuron hooks
//! of the dense layers have no counterpart here at all.

use vstd::prelude::*;

use crate::activation::{lemma_exp_unit_range, spec_exp_unit, SIG_CLAMP};
use crate::fixed::{bounded, bounded_seq, fsub, spec_fsub, ONE};
use crate::layers::{dense_applied, dense_pre, dense_pre_error, dense_pre_exec, dense_apply_new,
    dense_pre_error_exec, err_sub, err_sub_exec, lemma_pv_rows, pv_in, pv_n, pv_of, pv_wf,
    random_matrix, random_vector, ParamsV, DENSE_BIAS_INIT, DIM_MAX};

verus! {

/// The largest of the first `j` components.
pub open spec fn seq_max_pref(s: Seq<i64>, j: int) -> i64
    decreases j,
{
    if j <= 1 {
        s[0]
    } else if s[j - 1] > seq_max_pref(s, j - 1) {
        s[j - 1]
    } else {
        seq_max_pref(s, j - 1)
    }
}

/// The largest component of a non-empty tensor.
pub open spec fn seq_max(s: Seq<i64>) -> i64 {
    seq_max_pref(s, s.len() as int)
}

/// The stabilized exponential of one component: the difference to the
/// maximum, kept within the exponential's domain, exponentiated.
pub open spec fn soft_exp(v: i64, m: i64) -> i64 {
    let d = spec_fsub(v, m);
    let dc = if d > 0 {
        0
    } else if d < -SIG_CLAMP {
        (-SIG_CLAMP) as i64
    } else {
        d
    };
    spec_exp_unit(dc)
}

/// The sum of the stabilized exponentials of the first `j` components.
pub open spec fn exp_sum(s: Seq<i64>, m: i64, j: int) -> int
    decreases j,
{
    if j <= 0 {
        0
    } else {
        exp_sum(s, m, j - 1) + soft_exp(s[j - 1], m)
    }
}

/// The softmax of a tensor: each stabilized exponential divided by their
/// sum.
pub open spec fn softmax_out(pre: Seq<i64>) -> Seq<i64> {
    let m = seq_max(pre);
    let s = exp_sum(pre, m, pre.len() as int);
    Seq::new(pre.len(), |i: int| ((soft_exp(pre[i], m) * ONE) / s) as i64)
}

/// The sum of a tensor's components, as a mathematical integer.
pub open spec fn sum_seq(s: Seq<i64>) -> int
    decreases s.len(),
{
    if s.len() == 0 {
        0
    } else {
        sum_seq(s.drop_last()) + s.last()
    }
}

/// Every stabilized exponential lies in `[1, ONE]`.
proof fn lemma_soft_exp_range(v: i64, m: i64)
    ensures
        1 <= soft_exp(v, m) <= ONE,
{
    let d = spec_fsub(v, m);
    let dc = if d > 0 {
        0
    } else if d < -SIG_CLAMP {
        (-SIG_CLAMP) as i64
    } else {
        d
    };
    lemma_exp_unit_range(dc);
}

/// The exponential sum of `j` components lies in `[j, j * ONE]`, and each
/// single exponential is no larger than the whole sum.
proof fn lemma_exp_sum_bounds(s: Seq<i64>, m: i64, j: int)
    requires
        0 <= j <= s.len(),
    ensures
        j <= exp_sum(s, m, j) <= j * ONE,
        forall|i: int| 0 <= i < j ==> soft_exp(s[i], m) <= exp_sum(s, m, j),
    decreases j,
{
    if j > 0 {
        lemma_exp_sum_bounds(s, m, j - 1);
        lemma_soft_exp_range(s[j - 1], m);
        assert((j - 1) * ONE + ONE == j * ONE) by (nonlinear_arith);
    }
}

/// The bounds of one softmax component: `s * o[i] <= E_i * ONE
/// <= s * o[i] + s - 1`, and `o[i]` lies in `[0, ONE]`.
proof fn lemma_soft_out_elem(pre: Seq<i64>, i: int)
    requires
        1 <= pre.len(),
        0 <= i < pre.len(),
    ensures
        ({
            let m = seq_max(pre);
            let s = exp_sum(pre, m, pre.len() as int);
            let e = soft_exp(pre[i], m) as int;
            let o = softmax_out(pre)[i] as int;
            &&& s * o <= e * (ONE as int) <= s * o + s - 1
            &&& 0 <= o <= ONE
        }),
{
    let m = seq_max(pre);
    let n = pre.len() as int;
    let s = exp_sum(pre, m, n);
    let e = soft_exp(pre[i], m) as int;
    lemma_exp_sum_bounds(pre, m, n);
    lemma_soft_exp_range(pre[i], m);
    let q = (e * (ONE as int)) / s;
    vstd::arithmetic::div_mod::lemma_fundamental_div_mod(e * (ONE as int), s);
    assert(0 <= (e * (ONE as int)) % s < s) by {
        vstd::arithmetic::div_mod::lemma_mod_bound(e * (ONE as int), s);
    }
    assert(0 <= e * (ONE as int)) by (nonlinear_arith)
        requires
            1 <= e,
    ;
    vstd::arithmetic::div_mod::lemma_div_pos_is_pos(e * (ONE as int), s);
    vstd::arithmetic::mul::lemma_mul_inequality(e, s, ONE as int);
    assert((s * (ONE as int)) / s == ONE) by {
        vstd::arithmetic::div_mod::lemma_fundamental_div_mod_converse(
            s * (ONE as int),
            s,
            ONE as int,
            0,
        );
    }
    vstd::arithmetic::div_mod::lemma_div_is_ordered(e * (ONE as int), s * (ONE as int), s);
    assert(softmax_out(pre)[i] as int == q);
    assert(s * q <= e * (ONE as int) <= s * q + s - 1) by (nonlinear_arith)
        requires
            e * (ONE as int) == s * q + (e * (ONE as int)) % s,
            0 <= (e * (ONE as int)) % s < s,
    ;
}

/// The sum of the softmax output lies within the rounding slack of one:
/// between `ONE - n` and `ONE` for `n` neurons.  With exact arithmetic
/// the ratios would sum to exactly one; truncation loses less than one
/// unit per component.
pub proof fn lemma_softmax_sum(pre: Seq<i64>)
    requires
        1 <= pre.len(),
    ensures
        ONE - pre.len() <= sum_seq(softmax_out(pre)) <= ONE,
{
    let m = seq_max(pre);
    let n = pre.len() as int;
    let s = exp_sum(pre, m, n);
    let o = softmax_out(pre);
    lemma_exp_sum_bounds(pre, m, n);
    lemma_soft_out_partial(pre, n);
    assert(o.subrange(0, n) =~= o);
    let p = sum_seq(o);
    assert(s * p <= (ONE as int) * s <= s * p + n * (s - 1));
    assert(p <= ONE && ONE - n <= p) by (nonlinear_arith)
        requires
            1 <= s,
            1 <= n,
            s * p <= (ONE as int) * s <= s * p + n * (s - 1),
    ;
}

/// The partial softmax sums bracket the partial exponential sums.
proof fn lemma_soft_out_partial(pre: Seq<i64>, k: int)
    requires
        1 <= pre.len(),
        0 <= k <= pre.len(),
    ensures
        ({
            let m = seq_max(pre);
            let s = exp_sum(pre, m, pre.len() as int);
            let o = softmax_out(pre);
            let p = sum_seq(o.subrange(0, k));
            s * p <= (ONE as int) * exp_sum(pre, m, k) <= s * p + k * (s - 1)
        }),
    decreases k,
{
    let m = seq_max(pre);
    let n = pre.len() as int;
    let s = exp_sum(pre, m, n);
    let o = softmax_out(pre);
    lemma_exp_sum_bounds(pre, m, n);
    if k == 0 {
        assert(o.subrange(0, 0) =~= Seq::<i64>::empty());
        assert(sum_seq(o.subrange(0, 0)) == 0);
    } else {
        lemma_soft_out_partial(pre, k - 1);
        lemma_soft_out_elem(pre, k - 1);
        let p1 = sum_seq(o.subrange(0, k - 1));
        let p = sum_seq(o.subrange(0, k));
        assert(o.subrange(0, k).drop_last() =~= o.subrange(0, k - 1));
        assert(p == p1 + o[k - 1]);
        let e = soft_exp(pre[k - 1], m) as int;
        let ov = o[k - 1] as int;
        assert(exp_sum(pre, m, k) == exp_sum(pre, m, k - 1) + e);
        assert(s * (p1 + ov) <= (ONE as int) * (exp_sum(pre, m, k - 1) + e) <= s * (p1 + ov) + k
            * (s - 1)) by (nonlinear_arith)
            requires
                s * p1 <= (ONE as int) * exp_sum(pre, m, k - 1) <= s * p1 + (k - 1) * (s - 1),
                s * ov <= e * (ONE as int) <= s * ov + s - 1,
                1 <= s,
                1 <= k,
        ;
    }
}

/// Softmax is invariant to adding one constant to every component: the
/// max-shift makes the differences to the maximum, and so the whole
/// output, identical.
pub proof fn lemma_softmax_shift(pre: Seq<i64>, shifted: Seq<i64>, k: int)
    requires
        pre.len() == shifted.len(),
        1 <= pre.len(),
        forall|i: int| 0 <= i < pre.len() ==> shifted[i] as int == pre[i] as int + k,
    ensures
        softmax_out(shifted) == softmax_out(pre),
{
    lemma_max_shift(pre, shifted, k, pre.len() as int);
    let m1 = seq_max(pre);
    let m2 = seq_max(shifted);
    assert(m2 as int == m1 as int + k);
    assert forall|i: int| 0 <= i < pre.len() implies soft_exp(#[trigger] shifted[i], m2)
        == soft_exp(pre[i], m1) by {
        assert(spec_fsub(shifted[i], m2) == spec_fsub(pre[i], m1));
    }
    lemma_exp_sum_shift(pre, shifted, m1, m2, pre.len() as int);
    assert(softmax_out(shifted) =~= softmax_out(pre));
}

/// The prefix maximum shifts with the components.
proof fn lemma_max_shift(pre: Seq<i64>, shifted: Seq<i64>, k: int, j: int)
    requires
        pre.len() == shifted.len(),
        1 <= j <= pre.len(),
        forall|i: int| 0 <= i < pre.len() ==> shifted[i] as int == pre[i] as int + k,
    ensures
        seq_max_pref(shifted, j) as int == seq_max_pref(pre, j) as int + k,
    decreases j,
{
    if j > 1 {
        lemma_max_shift(pre, shifted, k, j - 1);
    }
}

/// Equal stabilized exponentials give equal exponential sums.
proof fn lemma_exp_sum_shift(pre: Seq<i64>, shifted: Seq<i64>, m1: i64, m2: i64, j: int)
    requires
        pre.len() == shifted.len(),
        0 <= j <= pre.len(),
        forall|i: int|
            0 <= i < pre.len() ==> soft_exp(#[trigger] shifted[i], m2) == soft_exp(pre[i], m1),
    ensures
        exp_sum(shifted, m2, j) == exp_sum(pre, m1, j),
    decreases j,
{
    if j > 0 {
        lemma_exp_sum_shift(pre, shifted, m1, m2, j - 1);
    }
}

/// A fresh softmax terminal layer is drawn like a dense terminal layer:
/// weights uniform in `[-ONE, ONE]`, biases within `DENSE_BIAS_INIT`.
pub struct SoftMax {
    weights: Vec<Vec<i64>>,
    bias: Vec<i64>,
}

impl SoftMax {
    /// The parameter view of this layer.
    pub closed spec fn params(&self) -> ParamsV {
        pv_of(self.weights@, self.bias@)
    }

    /// Well-formed dense parameters.
    pub open spec fn wf(&self) -> bool {
        pv_wf(self.params())
    }

    /// A fresh softmax terminal layer with `neurons` neurons over
    /// `inputs` inputs.
    pub fn new(inputs: usize, neurons: usize) -> (r: SoftMax)
        requires
            1 <= inputs <= DIM_MAX,
            1 <= neurons <= DIM_MAX,
        ensures
            r.wf(),
            pv_in(r.params()) == inputs,
            pv_n(r.params()) == neurons,
            forall|n: int, j: int|
                0 <= n < neurons && 0 <= j < inputs ==> -ONE <= #[trigger] r.params().weights[n][j]
                    <= ONE,
            forall|n: int|
                0 <= n < neurons ==> -DENSE_BIAS_INIT <= #[trigger] r.params().bias[n]
                    <= DENSE_BIAS_INIT,
    {
        let weights: Vec<Vec<i64>> = random_matrix(neurons, inputs, -ONE, ONE);
        let bias: Vec<i64> = random_vector(neurons, -DENSE_BIAS_INIT, DENSE_BIAS_INIT);
        SoftMax { weights, bias }
    }

    /// Reduces the inputs to one pre-activation scalar per neuron.
    pub fn weight(&self, inputs: &Vec<i64>) -> (out: Vec<i64>)
        requires
            self.wf(),
            inputs@.len() == pv_in(self.params()),
        ensures
            out@ == dense_pre(self.params(), inputs@),
            out@.len() == pv_n(self.params()),
            bounded_seq(out@),
    {
        proof {
            lemma_pv_rows(self.weights@, self.bias@);
        }
        dense_pre_exec(&self.weights, &self.bias, inputs)
    }

    /// The stabilized normalized exponential of the pre-activations.
    pub fn step(&self, weighted_inputs: &Vec<i64>) -> (out: Vec<i64>)
        requires
            1 <= weighted_inputs@.len() <= DIM_MAX,
            bounded_seq(weighted_inputs@),
        ensures
            out@ == softmax_out(weighted_inputs@),
            out@.len() == weighted_inputs@.len(),
            bounded_seq(out@),
            forall|i: int| 0 <= i < out@.len() ==> 0 <= #[trigger] out@[i] <= ONE,
    {
        softmax_step_exec(weighted_inputs)
    }

    /// Runs this terminal layer: weight then step.
    pub fn calculate(&self, inputs: &Vec<i64>) -> (out: Vec<i64>)
        requires
            self.wf(),
            inputs@.len() == pv_in(self.params()),
        ensures
            out@ == softmax_out(dense_pre(self.params(), inputs@)),
            out@.len() == pv_n(self.params()),
            bounded_seq(out@),
    {
        let pre: Vec<i64> = self.weight(inputs);
        self.step(&pre)
    }

    /// The error attributable to this layer's inputs, from its deltas and
    /// its unscaled weights.
    pub fn _pre_error(&self, deltas: &Vec<i64>) -> (pre: Vec<i64>)
        requires
            self.wf(),
            deltas@.len() == pv_n(self.params()),
        ensures
            pre@ == dense_pre_error(self.params(), deltas@),
            pre@.len() == pv_in(self.params()),
            bounded_seq(pre@),
    {
        proof {
            lemma_pv_rows(self.weights@, self.bias@);
        }
        let iw: usize = self.weights[0].len();
        let pre: Vec<i64> = dense_pre_error_exec(&self.weights, deltas, iw);
        proof {
            assert(pre@ =~= dense_pre_error(self.params(), deltas@));
        }
        pre
    }

    /// Adds the learning-rate-scaled deltas into this layer's weights and
    /// biases, in place.
    pub fn _apply_deltas(&mut self, deltas: &Vec<i64>, inputs: &Vec<i64>, speed: i64)
        requires
            old(self).wf(),
            deltas@.len() == pv_n(old(self).params()),
            inputs@.len() == pv_in(old(self).params()),
        ensures
            final(self).params() == dense_applied(old(self).params(), deltas@, inputs@, speed),
            final(self).wf(),
            pv_in(final(self).params()) == pv_in(old(self).params()),
            pv_n(final(self).params()) == pv_n(old(self).params()),
    {
        proof {
            lemma_pv_rows(self.weights@, self.bias@);
        }
        let ghost p = self.params();
        let r: (Vec<Vec<i64>>, Vec<i64>) = dense_apply_new(
            &self.weights,
            &self.bias,
            deltas,
            inputs,
            speed,
        );
        self.weights = r.0;
        self.bias = r.1;
        proof {
            let p2 = dense_applied(p, deltas@, inputs@, speed);
            assert(self.params() == p2);
            assert(p2.weights.len() == p.weights.len());
            assert(p2.weights[0].len() == p.weights[0].len());
            assert forall|n: int| 0 <= n < pv_n(p2) implies (#[trigger] p2.weights[n]).len()
                == pv_in(p2) && bounded_seq(p2.weights[n]) by {
                assert(p2.weights[n] == self.weights@[n]@);
                assert(self.weights@[n]@.len() == inputs@.len());
            }
        }
    }

    /// Replaces this layer's parameters, for restoring a persisted
    /// state.  The new parameters must form a well-formed dense layer;
    /// a malformed state is rejected and the layer is left unchanged.
    pub fn set_params(&mut self, weights: Vec<Vec<i64>>, bias: Vec<i64>) -> (r: Result<
        (),
        crate::layers::ConfigError,
    >)
        ensures
            r is Ok <==> pv_wf(pv_of(weights@, bias@)),
            r is Ok ==> final(self).params() == pv_of(weights@, bias@) && final(self).wf(),
            r is Err ==> *final(self) == *old(self) && r == Result::<
                (),
                crate::layers::ConfigError,
            >::Err(crate::layers::ConfigError::BadGeometry),
    {
        if !crate::layers::check_params(&weights, &bias) {
            return Err(crate::layers::ConfigError::BadGeometry);
        }
        self.weights = weights;
        self.bias = bias;
        Ok(())
    }

    /// A copy of this layer's weight rows, for persistence.
    pub fn get_weights(&self) -> (r: Vec<Vec<i64>>)
        requires
            self.wf(),
        ensures
            crate::layers::vv_view(r@) == self.params().weights,
            r@.len() == pv_n(self.params()),
    {
        proof {
            lemma_pv_rows(self.weights@, self.bias@);
        }
        let r: Vec<Vec<i64>> = crate::layers::copy_matrix(&self.weights);
        proof {
            assert(crate::layers::vv_view(r@) =~~= self.params().weights);
        }
        r
    }

    /// A copy of this layer's bias tensor, for persistence.
    pub fn get_bias(&self) -> (r: Vec<i64>)
        requires
            self.wf(),
        ensures
            r@ == self.params().bias,
    {
        crate::layers::copy_vector(&self.bias)
    }

    /// The number of inputs this layer takes.
    pub fn in_width(&self) -> (r: usize)
        requires
            self.wf(),
        ensures
            r as int == pv_in(self.params()),
    {
        proof {
            lemma_pv_rows(self.weights@, self.bias@);
        }
        self.weights[0].len()
    }

    /// The number of neurons this layer has.
    pub fn out_width(&self) -> (r: usize)
        requires
            self.wf(),
        ensures
            r as int == pv_n(self.params()),
    {
        self.weights.len()
    }

    /// One training step: recomputes the output, takes `target - output`
    /// directly as the delta (the closed-form softmax gradient, with no
    /// activation-derivative scaling), propagates the input error, and
    /// applies the deltas.  Returns the input error and the final error.
    pub fn backprop(&mut self, input: &Vec<i64>, correct_output: &Vec<i64>, speed: i64) -> (r: (
        Vec<i64>,
        Vec<i64>,
    ))
        requires
            old(self).wf(),
            input@.len() == pv_in(old(self).params()),
            correct_output@.len() == pv_n(old(self).params()),
        ensures
            ({
                let p = old(self).params();
                let delta = err_sub(correct_output@, softmax_out(dense_pre(p, input@)));
                &&& final(self).params() == dense_applied(p, delta, input@, speed)
                &&& r.0@ == dense_pre_error(p, delta)
                &&& r.1@ == delta
            }),
            final(self).wf(),
            pv_in(final(self).params()) == pv_in(old(self).params()),
            pv_n(final(self).params()) == pv_n(old(self).params()),
            r.0@.len() == pv_in(old(self).params()),
            r.1@.len() == pv_n(old(self).params()),
            bounded_seq(r.0@),
            bounded_seq(r.1@),
    {
        let weighted: Vec<i64> = self.weight(input);
        let out: Vec<i64> = self.step(&weighted);
        let delta: Vec<i64> = err_sub_exec(correct_output, &out);
        let pre_error: Vec<i64> = self._pre_error(&delta);
        self._apply_deltas(&delta, input, speed);
        (pre_error, delta)
    }
}

/// The softmax of a bounded non-empty tensor.
#[verifier::loop_isolation(false)]
pub(crate) fn softmax_step_exec(pre: &Vec<i64>) -> (out: Vec<i64>)
    requires
        1 <= pre@.len() <= DIM_MAX,
        bounded_seq(pre@),
    ensures
        out@ == softmax_out(pre@),
        out@.len() == pre@.len(),
        bounded_seq(out@),
        forall|i: int| 0 <= i < out@.len() ==> 0 <= #[trigger] out@[i] <= ONE,
{
    let len: usize = pre.len();
    let mut m: i64 = pre[0];
    let mut i: usize = 1;
    while i < len
        invariant
            1 <= i <= len,
            m == seq_max_pref(pre@, i as int),
        decreases len - i,
    {
        if pre[i] > m {
            m = pre[i];
        }
        i = i + 1;
    }
    let ghost mx = seq_max(pre@);
    assert(m == mx);
    let mut exps: Vec<i64> = Vec::new();
    let mut sum: i64 = 0;
    let mut j: usize = 0;
    while j < len
        invariant
            0 <= j <= len,
            exps@.len() == j,
            forall|k: int| 0 <= k < j ==> #[trigger] exps@[k] == soft_exp(pre@[k], mx),
            forall|k: int| 0 <= k < j ==> 1 <= #[trigger] exps@[k] <= ONE,
            sum == exp_sum(pre@, mx, j as int),
            j <= sum <= j * ONE,
        decreases len - j,
    {
        let d: i64 = fsub(pre[j], m);
        let dc: i64 = if d > 0 {
            0
        } else if d < -SIG_CLAMP {
            -SIG_CLAMP
        } else {
            d
        };
        let e: i64 = crate::activation::exp_unit(dc);
        proof {
            assert((j + 1) * ONE == j * ONE + ONE) by (nonlinear_arith);
            assert(j as int * ONE <= DIM_MAX as int * ONE) by (nonlinear_arith)
                requires
                    0 <= j as int <= DIM_MAX as int,
            ;
        }
        sum = sum + e;
        exps.push(e);
        j = j + 1;
    }
    let ghost s_total = exp_sum(pre@, mx, pre@.len() as int);
    assert(sum == s_total);
    assert(1 <= sum);
    let mut out: Vec<i64> = Vec::new();
    let mut k: usize = 0;
    while k < len
        invariant
            0 <= k <= len,
            out@.len() == k,
            forall|i2: int|
                0 <= i2 < k ==> #[trigger] out@[i2] == ((soft_exp(pre@[i2], mx) * ONE)
                    / s_total) as i64,
            forall|i2: int| 0 <= i2 < k ==> 0 <= #[trigger] out@[i2] <= ONE,
        decreases len - k,
    {
        let e: i64 = exps[k];
        proof {
            lemma_exp_sum_bounds(pre@, mx, pre@.len() as int);
            assert(e <= s_total);
            vstd::arithmetic::mul::lemma_mul_inequality(e as int, s_total, ONE as int);
            assert((s_total * ONE) / s_total == ONE) by {
                vstd::arithmetic::div_mod::lemma_fundamental_div_mod_converse(
                    s_total * ONE,
                    s_total,
                    ONE as int,
                    0,
                );
            }
            vstd::arithmetic::div_mod::lemma_div_is_ordered(
                e as int * ONE as int,
                s_total * ONE,
                s_total,
            );
            vstd::arithmetic::div_mod::lemma_div_pos_is_pos(e as int * ONE as int, s_total);
            assert(0 <= e as int * ONE as int) by (nonlinear_arith)
                requires
                    1 <= e,
            ;
            assert(e as int * ONE as int <= 0x1_0000_0000_0000) by (nonlinear_arith)
                requires
                    1 <= e <= ONE,
            ;
        }
        let q: u64 = ((e as u64) * 65536) / (sum as u64);
        out.push(q as i64);
        k = k + 1;
    }
    proof {
        assert(out@ =~= softmax_out(pre@));
    }
    out
}

} // verus!
