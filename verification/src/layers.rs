//! Stackable layers.
//!
//! A network is a chain of layers, built by wrapping a terminal layer in
//! inner layers; the outermost layer is the network's entry point.  Every
//! junction between adjacent layers is checked when the chain is
//! assembled.
//!
//! This module holds the dense (fully-connected) math shared by the
//! dense layer kinds, the terminal [`OutputLayer`] and the stacking
//! [`InnerLayer`], the [`Layer`] chain itself with inference
//! ([`Layer::calculate`]), backpropagation ([`Layer::backprop`]) and the
//! training driver ([`Layer::teach`]), and the model — [`LayerV`] and
//! the `net_*` functions — over which every contract is stated.

use vstd::prelude::*;

use rand::RngExt;

use crate::activation::{act_deriv, act_value, apply_act, apply_deriv, Act};
use crate::convolution::{conv_applied, conv_apply_new, conv_pre, conv_pre_error, conv_scatter_exec,
    conv_weight_exec, cv_wf, flen, in_len, lemma_geom_dims, out_len, ConvParamsV,
    ConvolutionalLayer};
use crate::fixed::{bounded, bounded_seq, divt, fadd, fmul, fsub, isqrt_spec, isqrt_u64, spec_divt,
    spec_fadd, spec_fmul, spec_fsub, BOUND, ONE};
use crate::softmax::{softmax_out, SoftMax};

verus! {

/// Largest accepted width for any single dimension of a layer.
pub const DIM_MAX: usize = 65536;

/// Dense-layer bias values are initialized within one tenth of [`ONE`].
pub const DENSE_BIAS_INIT: i64 = 6553;

/// The parameters of a dense-style layer: one weight row per neuron and
/// one bias scalar per neuron.
pub struct ParamsV {
    /// One row of input weights per neuron.
    pub weights: Seq<Seq<i64>>,
    /// One bias scalar per neuron.
    pub bias: Seq<i64>,
}

/// The view of a weight matrix.
pub open spec fn vv_view(w: Seq<Vec<i64>>) -> Seq<Seq<i64>> {
    Seq::new(w.len(), |i: int| w[i]@)
}

/// The parameter view of a weight matrix and a bias vector.
pub open spec fn pv_of(w: Seq<Vec<i64>>, b: Seq<i64>) -> ParamsV {
    ParamsV { weights: vv_view(w), bias: b }
}

/// Number of neurons of a dense parameter set.
pub open spec fn pv_n(p: ParamsV) -> int {
    p.weights.len() as int
}

/// Input width of a dense parameter set.
pub open spec fn pv_in(p: ParamsV) -> int {
    p.weights[0].len() as int
}

/// Well-formed dense parameters: a non-empty rectangular weight matrix
/// within the dimension cap, one bias per neuron, everything bounded.
pub open spec fn pv_wf(p: ParamsV) -> bool {
    &&& 1 <= pv_n(p) <= DIM_MAX as int
    &&& p.bias.len() == pv_n(p)
    &&& 1 <= pv_in(p) <= DIM_MAX as int
    &&& forall|n: int| 0 <= n < pv_n(p) ==> (#[trigger] p.weights[n]).len() == pv_in(p)
    &&& forall|n: int| 0 <= n < pv_n(p) ==> bounded_seq(#[trigger] p.weights[n])
    &&& bounded_seq(p.bias)
}

/// The pre-activation of one neuron: the bias plus the first `j` products
/// of weights and inputs, accumulated left to right in fixed-point.
pub open spec fn neuron_pre(w: Seq<i64>, x: Seq<i64>, b: i64, j: int) -> i64
    decreases j,
{
    if j <= 0 {
        b
    } else {
        spec_fadd(neuron_pre(w, x, b, j - 1), spec_fmul(w[j - 1], x[j - 1]))
    }
}

/// The pre-activation tensor of a dense layer: every neuron's affine
/// combination of the inputs.
pub open spec fn dense_pre(p: ParamsV, x: Seq<i64>) -> Seq<i64> {
    Seq::new(p.weights.len(), |n: int| neuron_pre(p.weights[n], x, p.bias[n], x.len() as int))
}

/// A tensor passed elementwise through the activation of policy `a`.
pub open spec fn step_seq(a: Act, pre: Seq<i64>) -> Seq<i64> {
    Seq::new(pre.len(), |i: int| act_value(a, pre[i]))
}

/// The raw error of a terminal layer: target minus output, elementwise.
pub open spec fn err_sub(target: Seq<i64>, out: Seq<i64>) -> Seq<i64> {
    Seq::new(out.len(), |i: int| spec_fsub(target[i], out[i]))
}

/// The chain-rule scaling of a raw error: each component is multiplied by
/// the derivative of the activation at the activated value.
pub open spec fn deriv_scale(a: Act, err: Seq<i64>, pre: Seq<i64>) -> Seq<i64> {
    Seq::new(err.len(), |i: int| spec_fmul(err[i], act_deriv(a, act_value(a, pre[i]))))
}

/// The error a dense layer attributes to input `j`: the sum over the
/// first `n` neurons of that neuron's delta weighted by its `j`-th weight.
pub open spec fn back_col(w: Seq<Seq<i64>>, delta: Seq<i64>, j: int, n: int) -> i64
    decreases n,
{
    if n <= 0 {
        0
    } else {
        spec_fadd(back_col(w, delta, j, n - 1), spec_fmul(w[n - 1][j], delta[n - 1]))
    }
}

/// The error tensor a dense layer hands to the layer above it.
pub open spec fn dense_pre_error(p: ParamsV, delta: Seq<i64>) -> Seq<i64> {
    Seq::new(pv_in(p) as nat, |j: int| back_col(p.weights, delta, j, pv_n(p)))
}

/// Dense parameters after one gradient step: each delta is scaled by the
/// learning rate, then every weight gains `scaled_delta * input` and every
/// bias gains its scaled delta.
pub open spec fn dense_applied(p: ParamsV, delta: Seq<i64>, x: Seq<i64>, speed: i64) -> ParamsV {
    ParamsV {
        weights: Seq::new(
            p.weights.len(),
            |n: int|
                Seq::new(
                    p.weights[n].len(),
                    |j: int|
                        spec_fadd(
                            p.weights[n][j],
                            spec_fmul(spec_fmul(delta[n], speed), x[j]),
                        ),
                ),
        ),
        bias: Seq::new(p.bias.len(), |n: int| spec_fadd(p.bias[n], spec_fmul(delta[n], speed))),
    }
}

/// Shape facts of a well-formed parameter pair, restated over the raw
/// vectors for the executable helpers.
pub proof fn lemma_pv_rows(w: Seq<Vec<i64>>, b: Seq<i64>)
    requires
        pv_wf(pv_of(w, b)),
    ensures
        1 <= w.len() == b.len(),
        forall|n: int| 0 <= n < w.len() ==> (#[trigger] w[n])@.len() == pv_in(pv_of(w, b)),
        forall|n: int| 0 <= n < w.len() ==> bounded_seq((#[trigger] w[n])@),
        bounded_seq(b),
        1 <= pv_in(pv_of(w, b)),
{
    assert forall|n: int| 0 <= n < w.len() implies (#[trigger] w[n])@.len() == pv_in(pv_of(w, b))
        && bounded_seq(w[n]@) by {
        assert(pv_of(w, b).weights[n] == w[n]@);
    }
}

/// Relies on rand's `RngExt::random_range` over `rand::rng()`: a sample
/// drawn uniformly from the non-empty range `[lo, hi]`.
#[verifier::external_body]
fn random_in(lo: i64, hi: i64) -> (r: i64)
    requires
        lo <= hi,
    ensures
        lo <= r <= hi,
{
    let mut rng = rand::rng();
    rng.random_range(lo..=hi)
}

/// A freshly drawn weight matrix with every entry in `[lo, hi]`.
pub(crate) fn random_matrix(rows: usize, cols: usize, lo: i64, hi: i64) -> (r: Vec<Vec<i64>>)
    requires
        lo <= hi,
    ensures
        r@.len() == rows,
        forall|n: int| 0 <= n < rows ==> (#[trigger] r@[n])@.len() == cols,
        forall|n: int, j: int|
            0 <= n < rows && 0 <= j < cols ==> lo <= #[trigger] r@[n]@[j] <= hi,
{
    let mut r: Vec<Vec<i64>> = Vec::new();
    let mut n: usize = 0;
    while n < rows
        invariant
            0 <= n <= rows,
            lo <= hi,
            r@.len() == n,
            forall|k: int| 0 <= k < n ==> (#[trigger] r@[k])@.len() == cols,
            forall|k: int, j: int| 0 <= k < n && 0 <= j < cols ==> lo <= #[trigger] r@[k]@[j] <= hi,
        decreases rows - n,
    {
        let mut row: Vec<i64> = Vec::new();
        let mut j: usize = 0;
        while j < cols
            invariant
                0 <= j <= cols,
                lo <= hi,
                row@.len() == j,
                forall|i: int| 0 <= i < j ==> lo <= #[trigger] row@[i] <= hi,
            decreases cols - j,
        {
            row.push(random_in(lo, hi));
            j = j + 1;
        }
        r.push(row);
        n = n + 1;
    }
    r
}

/// A freshly drawn bias vector with every entry in `[lo, hi]`.
pub(crate) fn random_vector(len: usize, lo: i64, hi: i64) -> (r: Vec<i64>)
    requires
        lo <= hi,
    ensures
        r@.len() == len,
        forall|i: int| 0 <= i < len ==> lo <= #[trigger] r@[i] <= hi,
{
    let mut r: Vec<i64> = Vec::new();
    let mut i: usize = 0;
    while i < len
        invariant
            0 <= i <= len,
            lo <= hi,
            r@.len() == i,
            forall|k: int| 0 <= k < i ==> lo <= #[trigger] r@[k] <= hi,
        decreases len - i,
    {
        r.push(random_in(lo, hi));
        i = i + 1;
    }
    r
}

/// An element-for-element copy of a weight matrix.
pub(crate) fn copy_matrix(w: &Vec<Vec<i64>>) -> (r: Vec<Vec<i64>>)
    ensures
        r@.len() == w@.len(),
        forall|n: int| 0 <= n < w@.len() ==> (#[trigger] r@[n])@ == w@[n]@,
{
    let mut r: Vec<Vec<i64>> = Vec::new();
    let mut n: usize = 0;
    while n < w.len()
        invariant
            0 <= n <= w@.len(),
            r@.len() == n,
            forall|k: int| 0 <= k < n ==> (#[trigger] r@[k])@ == w@[k]@,
        decreases w@.len() - n,
    {
        let row: &Vec<i64> = &w[n];
        r.push(copy_vector(row));
        n = n + 1;
    }
    r
}

/// An element-for-element copy of a tensor.
pub(crate) fn copy_vector(v: &Vec<i64>) -> (r: Vec<i64>)
    ensures
        r@ == v@,
{
    let mut r: Vec<i64> = Vec::new();
    let mut i: usize = 0;
    while i < v.len()
        invariant
            0 <= i <= v@.len(),
            r@.len() == i,
            forall|k: int| 0 <= k < i ==> r@[k] == v@[k],
        decreases v@.len() - i,
    {
        r.push(v[i]);
        i = i + 1;
    }
    proof {
        assert(r@ =~= v@);
    }
    r
}

/// Whether a weight matrix and bias vector form well-formed dense
/// parameters: non-empty, rectangular, within the dimension cap, one
/// bias per neuron, every scalar bounded.
pub(crate) fn check_params(w: &Vec<Vec<i64>>, b: &Vec<i64>) -> (r: bool)
    ensures
        r == pv_wf(pv_of(w@, b@)),
{
    let rows: usize = w.len();
    if rows < 1 || rows > DIM_MAX || b.len() != rows {
        proof {
            assert(!pv_wf(pv_of(w@, b@)));
        }
        return false;
    }
    let cols: usize = w[0].len();
    if cols < 1 || cols > DIM_MAX {
        proof {
            assert(pv_of(w@, b@).weights[0] == w@[0]@);
            assert(!pv_wf(pv_of(w@, b@)));
        }
        return false;
    }
    let mut n: usize = 0;
    while n < rows
        invariant
            0 <= n <= rows,
            rows == w@.len() == b@.len(),
            cols == w@[0]@.len(),
            forall|k: int|
                0 <= k < n ==> (#[trigger] w@[k])@.len() == cols && bounded_seq(w@[k]@),
        decreases rows - n,
    {
        let row: &Vec<i64> = &w[n];
        if row.len() != cols {
            proof {
                assert(pv_of(w@, b@).weights[n as int] == w@[n as int]@);
                assert(pv_of(w@, b@).weights[0] == w@[0]@);
                assert(!pv_wf(pv_of(w@, b@)));
            }
            return false;
        }
        let mut j: usize = 0;
        while j < cols
            invariant
                0 <= j <= cols,
                n < rows == w@.len(),
                row@ == w@[n as int]@,
                row@.len() == cols,
                forall|i: int| 0 <= i < j ==> bounded(#[trigger] row@[i]),
            decreases cols - j,
        {
            let v: i64 = row[j];
            if v < -crate::fixed::BOUND || v > crate::fixed::BOUND {
                proof {
                    assert(pv_of(w@, b@).weights[n as int] == w@[n as int]@);
                    assert(!bounded_seq(w@[n as int]@));
                    assert(!pv_wf(pv_of(w@, b@)));
                }
                return false;
            }
            j = j + 1;
        }
        n = n + 1;
    }
    let mut i: usize = 0;
    while i < rows
        invariant
            0 <= i <= rows,
            rows == b@.len(),
            forall|k: int| 0 <= k < i ==> bounded(#[trigger] b@[k]),
        decreases rows - i,
    {
        let v: i64 = b[i];
        if v < -crate::fixed::BOUND || v > crate::fixed::BOUND {
            proof {
                assert(!bounded_seq(b@));
                assert(!pv_wf(pv_of(w@, b@)));
            }
            return false;
        }
        i = i + 1;
    }
    proof {
        assert forall|k: int| 0 <= k < w@.len() implies (#[trigger] pv_of(w@, b@).weights[k]).len()
            == pv_in(pv_of(w@, b@)) && bounded_seq(pv_of(w@, b@).weights[k]) by {
            assert(pv_of(w@, b@).weights[k] == w@[k]@);
            assert(pv_of(w@, b@).weights[0] == w@[0]@);
        }
        assert(pv_wf(pv_of(w@, b@)));
    }
    true
}

/// The affine combination of the inputs under every neuron's weights.
pub(crate) fn dense_pre_exec(w: &Vec<Vec<i64>>, b: &Vec<i64>, x: &Vec<i64>) -> (out: Vec<i64>)
    requires
        w@.len() == b@.len(),
        1 <= x@.len(),
        forall|n: int| 0 <= n < w@.len() ==> (#[trigger] w@[n])@.len() == x@.len(),
    ensures
        out@.len() == w@.len(),
        forall|n: int|
            0 <= n < out@.len() ==> out@[n] == neuron_pre(w@[n]@, x@, b@[n], x@.len() as int),
        out@ == dense_pre(pv_of(w@, b@), x@),
        bounded_seq(out@),
{
    let n_count: usize = w.len();
    let iw: usize = x.len();
    let mut out: Vec<i64> = Vec::new();
    let mut n: usize = 0;
    while n < n_count
        invariant
            0 <= n <= n_count,
            n_count == w@.len() == b@.len(),
            iw == x@.len(),
            1 <= iw,
            forall|k: int| 0 <= k < w@.len() ==> (#[trigger] w@[k])@.len() == x@.len(),
            out@.len() == n,
            forall|k: int|
                0 <= k < n ==> out@[k] == neuron_pre(w@[k]@, x@, b@[k], x@.len() as int),
            forall|k: int| 0 <= k < n ==> bounded(#[trigger] out@[k]),
        decreases n_count - n,
    {
        let row: &Vec<i64> = &w[n];
        let mut acc: i64 = b[n];
        let mut j: usize = 0;
        while j < iw
            invariant
                0 <= j <= iw,
                iw == x@.len(),
                row@ == w@[n as int]@,
                row@.len() == iw,
                n < w@.len() == b@.len(),
                acc == neuron_pre(row@, x@, b@[n as int], j as int),
            decreases iw - j,
        {
            acc = fadd(acc, fmul(row[j], x[j]));
            j = j + 1;
        }
        proof {
            assert(bounded(acc)) by {
                assert(acc == spec_fadd(
                    neuron_pre(row@, x@, b@[n as int], iw as int - 1),
                    spec_fmul(row@[iw as int - 1], x@[iw as int - 1]),
                ));
            }
        }
        out.push(acc);
        n = n + 1;
    }
    proof {
        assert(out@ =~= dense_pre(pv_of(w@, b@), x@));
    }
    out
}

/// The activation of policy `a` applied to every component.
pub(crate) fn step_exec(a: Act, pre: &Vec<i64>) -> (out: Vec<i64>)
    requires
        bounded_seq(pre@),
    ensures
        out@.len() == pre@.len(),
        out@ == step_seq(a, pre@),
        bounded_seq(out@),
{
    let len: usize = pre.len();
    let mut out: Vec<i64> = Vec::new();
    let mut i: usize = 0;
    while i < len
        invariant
            0 <= i <= len,
            len == pre@.len(),
            bounded_seq(pre@),
            out@.len() == i,
            forall|k: int| 0 <= k < i ==> out@[k] == act_value(a, pre@[k]),
            forall|k: int| 0 <= k < i ==> bounded(#[trigger] out@[k]),
        decreases len - i,
    {
        out.push(apply_act(a, pre[i]));
        i = i + 1;
    }
    proof {
        assert(out@ =~= step_seq(a, pre@));
    }
    out
}

/// Target minus output, elementwise.
pub(crate) fn err_sub_exec(target: &Vec<i64>, out: &Vec<i64>) -> (err: Vec<i64>)
    requires
        target@.len() == out@.len(),
    ensures
        err@.len() == out@.len(),
        err@ == err_sub(target@, out@),
        bounded_seq(err@),
{
    let len: usize = out.len();
    let mut err: Vec<i64> = Vec::new();
    let mut i: usize = 0;
    while i < len
        invariant
            0 <= i <= len,
            len == out@.len() == target@.len(),
            err@.len() == i,
            forall|k: int| 0 <= k < i ==> err@[k] == spec_fsub(target@[k], out@[k]),
            forall|k: int| 0 <= k < i ==> bounded(#[trigger] err@[k]),
        decreases len - i,
    {
        err.push(fsub(target[i], out[i]));
        i = i + 1;
    }
    proof {
        assert(err@ =~= err_sub(target@, out@));
    }
    err
}

/// The chain-rule scaling of a raw error by the activation derivative at
/// the recomputed activated output.
pub(crate) fn deriv_scale_exec(a: Act, err: &Vec<i64>, pre: &Vec<i64>) -> (delta: Vec<i64>)
    requires
        err@.len() == pre@.len(),
        bounded_seq(err@),
        bounded_seq(pre@),
    ensures
        delta@.len() == err@.len(),
        delta@ == deriv_scale(a, err@, pre@),
        bounded_seq(delta@),
{
    let len: usize = err.len();
    let mut delta: Vec<i64> = Vec::new();
    let mut i: usize = 0;
    while i < len
        invariant
            0 <= i <= len,
            len == err@.len() == pre@.len(),
            bounded_seq(err@),
            bounded_seq(pre@),
            delta@.len() == i,
            forall|k: int|
                0 <= k < i ==> delta@[k] == spec_fmul(
                    err@[k],
                    act_deriv(a, act_value(a, pre@[k])),
                ),
            forall|k: int| 0 <= k < i ==> bounded(#[trigger] delta@[k]),
        decreases len - i,
    {
        let activated: i64 = apply_act(a, pre[i]);
        let dv: i64 = apply_deriv(a, activated);
        delta.push(fmul(err[i], dv));
        i = i + 1;
    }
    proof {
        assert(delta@ =~= deriv_scale(a, err@, pre@));
    }
    delta
}

/// The error attributed to each input position, accumulated over every
/// neuron's weights.
pub(crate) fn dense_pre_error_exec(w: &Vec<Vec<i64>>, delta: &Vec<i64>, iw: usize) -> (pre:
    Vec<i64>)
    requires
        w@.len() == delta@.len(),
        forall|n: int| 0 <= n < w@.len() ==> (#[trigger] w@[n])@.len() == iw,
    ensures
        pre@.len() == iw,
        forall|j: int|
            0 <= j < iw ==> pre@[j] == back_col(vv_view(w@), delta@, j, w@.len() as int),
        bounded_seq(pre@),
{
    let n_count: usize = w.len();
    let mut pre: Vec<i64> = Vec::new();
    let mut j: usize = 0;
    while j < iw
        invariant
            0 <= j <= iw,
            n_count == w@.len() == delta@.len(),
            forall|n: int| 0 <= n < w@.len() ==> (#[trigger] w@[n])@.len() == iw,
            pre@.len() == j,
            forall|k: int|
                0 <= k < j ==> pre@[k] == back_col(vv_view(w@), delta@, k, w@.len() as int),
            forall|k: int| 0 <= k < j ==> bounded(#[trigger] pre@[k]),
        decreases iw - j,
    {
        let mut acc: i64 = 0;
        let mut n: usize = 0;
        while n < n_count
            invariant
                0 <= n <= n_count,
                j < iw,
                n_count == w@.len() == delta@.len(),
                forall|k: int| 0 <= k < w@.len() ==> (#[trigger] w@[k])@.len() == iw,
                acc == back_col(vv_view(w@), delta@, j as int, n as int),
                bounded(acc),
            decreases n_count - n,
        {
            let row: &Vec<i64> = &w[n];
            acc = fadd(acc, fmul(row[j], delta[n]));
            n = n + 1;
        }
        pre.push(acc);
        j = j + 1;
    }
    pre
}

/// Dense parameters after one gradient step, built from the old ones.
pub(crate) fn dense_apply_new(
    w: &Vec<Vec<i64>>,
    b: &Vec<i64>,
    delta: &Vec<i64>,
    x: &Vec<i64>,
    speed: i64,
) -> (r: (Vec<Vec<i64>>, Vec<i64>))
    requires
        w@.len() == b@.len() == delta@.len(),
        forall|n: int| 0 <= n < w@.len() ==> (#[trigger] w@[n])@.len() == x@.len(),
    ensures
        pv_of(r.0@, r.1@) == dense_applied(pv_of(w@, b@), delta@, x@, speed),
        r.0@.len() == w@.len(),
        r.1@.len() == b@.len(),
        forall|n: int| 0 <= n < r.0@.len() ==> (#[trigger] r.0@[n])@.len() == x@.len(),
        forall|n: int| 0 <= n < r.0@.len() ==> bounded_seq((#[trigger] r.0@[n])@),
        bounded_seq(r.1@),
{
    let n_count: usize = w.len();
    let iw: usize = x.len();
    let mut w2: Vec<Vec<i64>> = Vec::new();
    let mut b2: Vec<i64> = Vec::new();
    let mut n: usize = 0;
    while n < n_count
        invariant
            0 <= n <= n_count,
            n_count == w@.len() == b@.len() == delta@.len(),
            iw == x@.len(),
            forall|k: int| 0 <= k < w@.len() ==> (#[trigger] w@[k])@.len() == x@.len(),
            w2@.len() == n,
            b2@.len() == n,
            forall|k: int| 0 <= k < n ==> (#[trigger] w2@[k])@.len() == iw,
            forall|k: int, j: int|
                0 <= k < n && 0 <= j < iw ==> #[trigger] w2@[k]@[j] == spec_fadd(
                    w@[k]@[j],
                    spec_fmul(spec_fmul(delta@[k], speed), x@[j]),
                ),
            forall|k: int, j: int| 0 <= k < n && 0 <= j < iw ==> bounded(#[trigger] w2@[k]@[j]),
            forall|k: int|
                0 <= k < n ==> b2@[k] == spec_fadd(b@[k], spec_fmul(delta@[k], speed)),
            forall|k: int| 0 <= k < n ==> bounded(#[trigger] b2@[k]),
        decreases n_count - n,
    {
        let scaled: i64 = fmul(delta[n], speed);
        let row: &Vec<i64> = &w[n];
        let mut row2: Vec<i64> = Vec::new();
        let mut j: usize = 0;
        while j < iw
            invariant
                0 <= j <= iw,
                iw == x@.len(),
                row@ == w@[n as int]@,
                row@.len() == iw,
                n < w@.len() == delta@.len(),
                scaled == spec_fmul(delta@[n as int], speed),
                row2@.len() == j,
                forall|i: int|
                    0 <= i < j ==> #[trigger] row2@[i] == spec_fadd(
                        w@[n as int]@[i],
                        spec_fmul(spec_fmul(delta@[n as int], speed), x@[i]),
                    ),
                forall|i: int| 0 <= i < j ==> bounded(#[trigger] row2@[i]),
            decreases iw - j,
        {
            row2.push(fadd(row[j], fmul(scaled, x[j])));
            j = j + 1;
        }
        w2.push(row2);
        b2.push(fadd(b[n], scaled));
        n = n + 1;
    }
    proof {
        assert(vv_view(w2@) =~~= dense_applied(pv_of(w@, b@), delta@, x@, speed).weights);
        assert(b2@ =~= dense_applied(pv_of(w@, b@), delta@, x@, speed).bias);
    }
    (w2, b2)
}

/// The error reported when a network cannot be assembled.
#[derive(Clone, Copy, Debug, PartialEq, Eq, Structural)]
pub enum ConfigError {
    /// Adjacent layers disagree on their junction width.
    JunctionMismatch,
    /// A convolution's geometry is malformed: a zero dimension, a filter
    /// larger than the input, a stride that does not tile an axis, or a
    /// flattened size beyond the dimension cap.
    BadGeometry,
}

/// The model of one layer: its parameters and its kind.
pub enum LayerV {
    /// Terminal dense layer with an elementwise activation.
    Output(ParamsV, Act),
    /// Terminal softmax layer.
    SoftMaxOut(ParamsV),
    /// Inner dense layer.
    Inner(ParamsV, Act),
    /// Inner convolutional layer.
    Conv(ConvParamsV),
}

/// The input width of one layer.
pub open spec fn lv_in(l: LayerV) -> int {
    match l {
        LayerV::Output(p, _) => pv_in(p),
        LayerV::SoftMaxOut(p) => pv_in(p),
        LayerV::Inner(p, _) => pv_in(p),
        LayerV::Conv(c) => in_len(c.geom),
    }
}

/// The output width of one layer.
pub open spec fn lv_own(l: LayerV) -> int {
    match l {
        LayerV::Output(p, _) => pv_n(p),
        LayerV::SoftMaxOut(p) => pv_n(p),
        LayerV::Inner(p, _) => pv_n(p),
        LayerV::Conv(c) => out_len(c.geom),
    }
}

/// Whether the layer kind is terminal.
pub open spec fn lv_terminal(l: LayerV) -> bool {
    match l {
        LayerV::Output(_, _) => true,
        LayerV::SoftMaxOut(_) => true,
        LayerV::Inner(_, _) => false,
        LayerV::Conv(_) => false,
    }
}

/// Whether one layer's own parameters are well-formed.
pub open spec fn lv_wf(l: LayerV) -> bool {
    match l {
        LayerV::Output(p, _) => pv_wf(p),
        LayerV::SoftMaxOut(p) => pv_wf(p),
        LayerV::Inner(p, _) => pv_wf(p),
        LayerV::Conv(c) => cv_wf(c),
    }
}

/// A well-formed network model: a non-empty chain, outermost layer
/// first, whose last layer alone is terminal, with every junction's
/// widths agreeing.
pub open spec fn net_wf(m: Seq<LayerV>) -> bool {
    &&& 1 <= m.len()
    &&& forall|i: int| 0 <= i < m.len() ==> lv_wf(#[trigger] m[i])
    &&& forall|i: int| 0 <= i < m.len() - 1 ==> !lv_terminal(#[trigger] m[i])
    &&& lv_terminal(m.last())
    &&& forall|i: int| 0 <= i < m.len() - 1 ==> lv_own(#[trigger] m[i]) == lv_in(m[i + 1])
}

/// The input width of the whole network.
pub open spec fn net_in(m: Seq<LayerV>) -> int {
    lv_in(m[0])
}

/// The final output width of the whole network.
pub open spec fn net_fin(m: Seq<LayerV>) -> int {
    lv_own(m.last())
}

/// One layer's forward computation: affine or windowed combination, then
/// its activation.
pub open spec fn lv_forward(l: LayerV, x: Seq<i64>) -> Seq<i64> {
    match l {
        LayerV::Output(p, a) => step_seq(a, dense_pre(p, x)),
        LayerV::SoftMaxOut(p) => softmax_out(dense_pre(p, x)),
        LayerV::Inner(p, a) => step_seq(a, dense_pre(p, x)),
        LayerV::Conv(c) => step_seq(c.act, conv_pre(c.geom, c.filters, c.bias, x)),
    }
}

/// The pre-activation of one layer alone: its affine or windowed
/// combination of the inputs, before any activation.
pub open spec fn lv_pre(l: LayerV, x: Seq<i64>) -> Seq<i64> {
    match l {
        LayerV::Output(p, _) => dense_pre(p, x),
        LayerV::SoftMaxOut(p) => dense_pre(p, x),
        LayerV::Inner(p, _) => dense_pre(p, x),
        LayerV::Conv(c) => conv_pre(c.geom, c.filters, c.bias, x),
    }
}

/// The activation step of one layer alone, applied to its
/// pre-activations.
pub open spec fn lv_step(l: LayerV, pre: Seq<i64>) -> Seq<i64> {
    match l {
        LayerV::Output(_, a) => step_seq(a, pre),
        LayerV::SoftMaxOut(_) => softmax_out(pre),
        LayerV::Inner(_, a) => step_seq(a, pre),
        LayerV::Conv(c) => step_seq(c.act, pre),
    }
}

/// The output of the whole network on `x`: each layer's forward result
/// handed to the next.
pub open spec fn net_calc(m: Seq<LayerV>, x: Seq<i64>) -> Seq<i64>
    decreases m.len(),
{
    if m.len() <= 1 {
        lv_forward(m[0], x)
    } else {
        net_calc(m.subrange(1, m.len() as int), lv_forward(m[0], x))
    }
}

/// One backpropagation step of the whole network: the new model, the
/// error attributed to the network's input, and the final error of the
/// terminal layer.  The terminal layer compares its output with the
/// target; every other layer obtains its error from its successor,
/// scales it by its activation derivative, updates its own parameters,
/// and passes the error attributable to its input upward.
pub open spec fn net_bp(m: Seq<LayerV>, x: Seq<i64>, t: Seq<i64>, speed: i64) -> (
    Seq<LayerV>,
    Seq<i64>,
    Seq<i64>,
)
    decreases m.len(),
{
    if m.len() <= 1 {
        match m[0] {
            LayerV::Output(p, a) => {
                let pre = dense_pre(p, x);
                let out = step_seq(a, pre);
                let err = err_sub(t, out);
                let delta = deriv_scale(a, err, pre);
                (
                    seq![LayerV::Output(dense_applied(p, delta, x, speed), a)],
                    dense_pre_error(p, delta),
                    err,
                )
            },
            LayerV::SoftMaxOut(p) => {
                let pre = dense_pre(p, x);
                let out = softmax_out(pre);
                let delta = err_sub(t, out);
                (
                    seq![LayerV::SoftMaxOut(dense_applied(p, delta, x, speed))],
                    dense_pre_error(p, delta),
                    delta,
                )
            },
            _ => (m, x, t),
        }
    } else {
        match m[0] {
            LayerV::Inner(p, a) => {
                let pre = dense_pre(p, x);
                let out = step_seq(a, pre);
                let rec = net_bp(m.subrange(1, m.len() as int), out, t, speed);
                let delta = deriv_scale(a, rec.1, pre);
                (
                    seq![LayerV::Inner(dense_applied(p, delta, x, speed), a)] + rec.0,
                    dense_pre_error(p, delta),
                    rec.2,
                )
            },
            LayerV::Conv(c) => {
                let pre = conv_pre(c.geom, c.filters, c.bias, x);
                let out = step_seq(c.act, pre);
                let rec = net_bp(m.subrange(1, m.len() as int), out, t, speed);
                let delta = deriv_scale(c.act, rec.1, pre);
                let applied = conv_applied(c.geom, c.filters, c.bias, delta, x, speed);
                (
                    seq![
                        LayerV::Conv(
                            ConvParamsV {
                                geom: c.geom,
                                filters: applied.0,
                                bias: applied.1,
                                act: c.act,
                            },
                        ),
                    ] + rec.0,
                    conv_pre_error(c.geom, c.filters, delta),
                    rec.2,
                )
            },
            _ => (m, x, t),
        }
    }
}

/// The decaying part of the learning-rate schedule, nine tenths in
/// fixed-point.
pub const RATE_EARLY: i64 = 58982;

/// The growing part of the learning-rate schedule, four tenths in
/// fixed-point.
pub const RATE_LATE: i64 = 26214;

/// The learning rate of epoch `i` out of `total`:
/// `0.4 * progress + 0.9 * (1 - progress)` with `progress = i / total`,
/// in fixed-point — aggressive early, tapering toward the end.
pub open spec fn rate_spec(i: int, total: int) -> i64 {
    let p = (i * (ONE as int)) / total;
    spec_fadd(spec_fmul(RATE_LATE, p as i64), spec_fmul(RATE_EARLY, spec_fsub(ONE, p as i64)))
}

/// The sum of the squares of the first `j` components, in fixed-point.
pub open spec fn sq_sum(s: Seq<i64>, j: int) -> i64
    decreases j,
{
    if j <= 0 {
        0
    } else {
        spec_fadd(sq_sum(s, j - 1), spec_fmul(s[j - 1], s[j - 1]))
    }
}

/// The loss of an error tensor: the Euclidean norm, the integer square
/// root of the fixed-point sum of squares.
pub open spec fn loss_spec(s: Seq<i64>) -> i64 {
    isqrt_spec((sq_sum(s, s.len() as int) as int) * (ONE as int)) as i64
}

/// The online incremental mean: `avg + (l - avg) / (pos + 1)`.
pub open spec fn avg_update(avg: i64, l: i64, pos: int) -> i64 {
    spec_fadd(avg, spec_divt(spec_fsub(l, avg) as int, pos + 1) as i64)
}

/// One epoch over the first `k` samples: each sample backpropagated in
/// order at the given rate, the running average loss updated from each
/// final error.
pub open spec fn epoch_run(
    m: Seq<LayerV>,
    samples: Seq<(Vec<i64>, Vec<i64>)>,
    rate: i64,
    k: int,
) -> (Seq<LayerV>, i64)
    decreases k,
{
    if k <= 0 {
        (m, 0)
    } else {
        let prev = epoch_run(m, samples, rate, k - 1);
        let bp = net_bp(prev.0, samples[k - 1].0@, samples[k - 1].1@, rate);
        (bp.0, avg_update(prev.1, loss_spec(bp.2), k - 1))
    }
}

/// The first `i` epochs of a training run of `total` epochs: each epoch
/// replays the whole sample list at that epoch's rate and records its
/// average loss.
pub open spec fn teach_run(
    m: Seq<LayerV>,
    samples: Seq<(Vec<i64>, Vec<i64>)>,
    total: int,
    i: int,
) -> (Seq<LayerV>, Seq<i64>)
    decreases i,
{
    if i <= 0 {
        (m, Seq::empty())
    } else {
        let prev = teach_run(m, samples, total, i - 1);
        let ep = epoch_run(prev.0, samples, rate_spec(i - 1, total), samples.len() as int);
        (ep.0, prev.1.push(ep.1))
    }
}

/// The learning rate of one epoch.
fn rate_exec(i: usize, total: usize) -> (r: i64)
    requires
        i < total,
        total <= 0x1_0000_0000,
    ensures
        r == rate_spec(i as int, total as int),
        bounded(r),
{
    proof {
        assert(i as int * 65536 <= 0x1_0000_0000 * 65536) by (nonlinear_arith)
            requires
                0 <= i as int <= 0x1_0000_0000,
        ;
    }
    let p64: u64 = ((i as u64) * 65536) / (total as u64);
    proof {
        assert(p64 <= i as int * 65536) by {
            vstd::arithmetic::div_mod::lemma_div_nonincreasing(
                i as int * 65536,
                total as int,
            );
            vstd::arithmetic::div_mod::lemma_div_pos_is_pos(i as int * 65536, total as int);
        }
    }
    let p: i64 = p64 as i64;
    fadd(fmul(RATE_LATE, p), fmul(RATE_EARLY, fsub(ONE, p)))
}

/// The loss of an error tensor: the Euclidean norm of the fixed-point
/// components.
pub fn loss(errors: &Vec<i64>) -> (r: i64)
    ensures
        r == loss_spec(errors@),
        0 <= r,
{
    let len: usize = errors.len();
    let mut sum: i64 = 0;
    let mut j: usize = 0;
    while j < len
        invariant
            0 <= j <= len,
            len == errors@.len(),
            sum == sq_sum(errors@, j as int),
            0 <= sum <= BOUND,
        decreases len - j,
    {
        let e: i64 = errors[j];
        proof {
            assert(0 <= (e as int) * (e as int)) by (nonlinear_arith);
        }
        sum = fadd(sum, fmul(e, e));
        j = j + 1;
    }
    proof {
        assert((sum as int) * 65536 <= 0x8000_0000_0000_0000) by (nonlinear_arith)
            requires
                0 <= sum as int <= BOUND as int,
                BOUND as int == 0x8000_0000_0000,
        ;
    }
    let n: u64 = (sum as u64) * 65536;
    let rt: u64 = isqrt_u64(n);
    proof {
        assert(rt < 0x1_0000_0000) by (nonlinear_arith)
            requires
                (rt as int) * (rt as int) <= n as int,
                (n as int) < 0x1_0000_0000_0000_0000,
        ;
    }
    rt as i64
}

/// Dropping the outermost layer of a well-formed chain of two or more
/// layers leaves a well-formed chain with the same final width, whose
/// input width is the dropped layer's output width.
pub proof fn lemma_net_wf_tail(m: Seq<LayerV>)
    requires
        net_wf(m),
        2 <= m.len(),
    ensures
        ({
            let t = m.subrange(1, m.len() as int);
            &&& net_wf(t)
            &&& net_in(t) == lv_own(m[0])
            &&& net_fin(t) == net_fin(m)
            &&& t.len() == m.len() - 1
        }),
{
    let t = m.subrange(1, m.len() as int);
    assert forall|i: int| 0 <= i < t.len() implies lv_wf(#[trigger] t[i]) by {
        assert(t[i] == m[i + 1]);
    }
    assert forall|i: int| 0 <= i < t.len() - 1 implies !lv_terminal(#[trigger] t[i]) by {
        assert(t[i] == m[i + 1]);
    }
    assert(t.last() == m.last());
    assert forall|i: int| 0 <= i < t.len() - 1 implies lv_own(#[trigger] t[i]) == lv_in(t[i + 1]) by {
        assert(t[i] == m[i + 1] && t[i + 1] == m[i + 2]);
    }
    assert(t[0] == m[1]);
}

/// Wrapping a well-formed chain in a matching non-terminal layer gives a
/// well-formed chain.
pub proof fn lemma_net_wf_cons(h: LayerV, t: Seq<LayerV>)
    requires
        lv_wf(h),
        !lv_terminal(h),
        net_wf(t),
        lv_own(h) == net_in(t),
    ensures
        ({
            let c = seq![h] + t;
            &&& net_wf(c)
            &&& net_in(c) == lv_in(h)
            &&& net_fin(c) == net_fin(t)
            &&& c.len() == t.len() + 1
        }),
{
    let c = seq![h] + t;
    assert(c[0] == h);
    assert forall|i: int| 0 <= i < c.len() implies lv_wf(#[trigger] c[i]) by {
        if i >= 1 {
            assert(c[i] == t[i - 1]);
        }
    }
    assert forall|i: int| 0 <= i < c.len() - 1 implies !lv_terminal(#[trigger] c[i]) by {
        if i >= 1 {
            assert(c[i] == t[i - 1]);
        }
    }
    assert(c.last() == t.last());
    assert forall|i: int| 0 <= i < c.len() - 1 implies lv_own(#[trigger] c[i]) == lv_in(c[i + 1]) by {
        if i >= 1 {
            assert(c[i] == t[i - 1] && c[i + 1] == t[i]);
        } else {
            assert(c[1] == t[0]);
        }
    }
}

/// The final layer of a network: a fully-connected affine transform
/// followed by an elementwise activation, whose error is the direct
/// comparison with the target.
pub struct OutputLayer {
    weights: Vec<Vec<i64>>,
    bias: Vec<i64>,
    act: Act,
}

impl OutputLayer {
    /// The parameter view of this layer.
    pub closed spec fn params(&self) -> ParamsV {
        pv_of(self.weights@, self.bias@)
    }

    /// The activation policy of this layer.
    pub closed spec fn act_of(&self) -> Act {
        self.act
    }

    /// Well-formed dense parameters.
    pub open spec fn wf(&self) -> bool {
        pv_wf(self.params())
    }

    /// A fresh terminal layer with `neurons` neurons over `inputs` inputs:
    /// weights drawn uniformly from `[-ONE, ONE]`, biases from
    /// `[-DENSE_BIAS_INIT, DENSE_BIAS_INIT]`.
    pub fn new(act: Act, inputs: usize, neurons: usize) -> (r: OutputLayer)
        requires
            1 <= inputs <= DIM_MAX,
            1 <= neurons <= DIM_MAX,
        ensures
            r.wf(),
            pv_in(r.params()) == inputs,
            pv_n(r.params()) == neurons,
            r.act_of() == act,
            forall|n: int, j: int|
                0 <= n < neurons && 0 <= j < inputs ==> -ONE <= #[trigger] r.params().weights[n][j]
                    <= ONE,
            forall|n: int|
                0 <= n < neurons ==> -DENSE_BIAS_INIT <= #[trigger] r.params().bias[n]
                    <= DENSE_BIAS_INIT,
    {
        let weights: Vec<Vec<i64>> = random_matrix(neurons, inputs, -ONE, ONE);
        let bias: Vec<i64> = random_vector(neurons, -DENSE_BIAS_INIT, DENSE_BIAS_INIT);
        OutputLayer { weights, bias, act }
    }

    /// Reduces the inputs to one pre-activation scalar per neuron.
    pub fn weight(&self, inputs: &Vec<i64>) -> (out: Vec<i64>)
        requires
            self.wf(),
            inputs@.len() == pv_in(self.params()),
        ensures
            out@ == dense_pre(self.params(), inputs@),
            out@.len() == pv_n(self.params()),
            bounded_seq(out@),
    {
        proof {
            lemma_pv_rows(self.weights@, self.bias@);
        }
        dense_pre_exec(&self.weights, &self.bias, inputs)
    }

    /// Applies the activation to every pre-activation scalar.
    pub fn step(&self, weighted_inputs: &Vec<i64>) -> (out: Vec<i64>)
        requires
            self.wf(),
            weighted_inputs@.len() == pv_n(self.params()),
            bounded_seq(weighted_inputs@),
        ensures
            out@ == step_seq(self.act_of(), weighted_inputs@),
            out@.len() == pv_n(self.params()),
            bounded_seq(out@),
    {
        step_exec(self.act, weighted_inputs)
    }

    /// This terminal layer's raw error: target minus output.  Being
    /// terminal, its own error is also the network's final error, so both
    /// results are the same tensor.
    pub fn _get_error(&self, output: &Vec<i64>, correct_output: &Vec<i64>) -> (r: (
        Vec<i64>,
        Vec<i64>,
    ))
        requires
            output@.len() == correct_output@.len(),
        ensures
            r.0@ == err_sub(correct_output@, output@),
            r.1@ == err_sub(correct_output@, output@),
            bounded_seq(r.0@),
    {
        let err: Vec<i64> = err_sub_exec(correct_output, output);
        let err2: Vec<i64> = err.clone();
        proof {
            assert(err2@ =~= err@);
        }
        (err2, err)
    }

    /// Scales a raw error by the activation derivative at the activated
    /// value of each weighted input, giving the layer's delta.
    pub fn _weight_errors(&self, error: &Vec<i64>, weighted_inputs: &Vec<i64>) -> (delta: Vec<
        i64,
    >)
        requires
            error@.len() == weighted_inputs@.len(),
            bounded_seq(error@),
            bounded_seq(weighted_inputs@),
        ensures
            delta@ == deriv_scale(self.act_of(), error@, weighted_inputs@),
            delta@.len() == error@.len(),
            bounded_seq(delta@),
    {
        deriv_scale_exec(self.act, error, weighted_inputs)
    }

    /// Adds the learning-rate-scaled deltas into this layer's weights and
    /// biases, in place.
    pub fn _apply_deltas(&mut self, deltas: &Vec<i64>, inputs: &Vec<i64>, speed: i64)
        requires
            old(self).wf(),
            deltas@.len() == pv_n(old(self).params()),
            inputs@.len() == pv_in(old(self).params()),
        ensures
            final(self).params() == dense_applied(old(self).params(), deltas@, inputs@, speed),
            final(self).wf(),
            final(self).act_of() == old(self).act_of(),
            pv_in(final(self).params()) == pv_in(old(self).params()),
            pv_n(final(self).params()) == pv_n(old(self).params()),
    {
        proof {
            lemma_pv_rows(self.weights@, self.bias@);
        }
        let ghost p = self.params();
        let r: (Vec<Vec<i64>>, Vec<i64>) = dense_apply_new(
            &self.weights,
            &self.bias,
            deltas,
            inputs,
            speed,
        );
        self.weights = r.0;
        self.bias = r.1;
        proof {
            let p2 = dense_applied(p, deltas@, inputs@, speed);
            assert(self.params() == p2);
            assert(p2.weights.len() == p.weights.len());
            assert(p2.weights[0].len() == p.weights[0].len());
            assert forall|n: int| 0 <= n < pv_n(p2) implies (#[trigger] p2.weights[n]).len()
                == pv_in(p2) && bounded_seq(p2.weights[n]) by {
                assert(p2.weights[n] == self.weights@[n]@);
                assert(self.weights@[n]@.len() == inputs@.len());
            }
        }
    }

    /// The error attributable to this layer's inputs, from its deltas and
    /// its unscaled weights.
    pub fn _pre_error(&self, deltas: &Vec<i64>) -> (pre: Vec<i64>)
        requires
            self.wf(),
            deltas@.len() == pv_n(self.params()),
        ensures
            pre@ == dense_pre_error(self.params(), deltas@),
            pre@.len() == pv_in(self.params()),
            bounded_seq(pre@),
    {
        proof {
            lemma_pv_rows(self.weights@, self.bias@);
        }
        let iw: usize = self.weights[0].len();
        let pre: Vec<i64> = dense_pre_error_exec(&self.weights, deltas, iw);
        proof {
            assert(pre@ =~= dense_pre_error(self.params(), deltas@));
        }
        pre
    }

    /// Runs this terminal layer: weight then step.
    pub fn calculate(&self, inputs: &Vec<i64>) -> (out: Vec<i64>)
        requires
            self.wf(),
            inputs@.len() == pv_in(self.params()),
        ensures
            out@ == step_seq(self.act_of(), dense_pre(self.params(), inputs@)),
            out@.len() == pv_n(self.params()),
            bounded_seq(out@),
    {
        let pre: Vec<i64> = self.weight(inputs);
        self.step(&pre)
    }

    /// Replaces this layer's parameters, for restoring a persisted
    /// state.  The new parameters must form a well-formed dense layer;
    /// a malformed state is rejected and the layer is left unchanged.
    pub fn set_params(&mut self, weights: Vec<Vec<i64>>, bias: Vec<i64>) -> (r: Result<
        (),
        ConfigError,
    >)
        ensures
            r is Ok <==> pv_wf(pv_of(weights@, bias@)),
            r is Ok ==> final(self).params() == pv_of(weights@, bias@) && final(self).wf()
                && final(self).act_of() == old(self).act_of(),
            r is Err ==> *final(self) == *old(self) && r == Result::<(), ConfigError>::Err(
                ConfigError::BadGeometry,
            ),
    {
        if !check_params(&weights, &bias) {
            return Err(ConfigError::BadGeometry);
        }
        self.weights = weights;
        self.bias = bias;
        Ok(())
    }

    /// A copy of this layer's weight rows, for persistence.
    pub fn get_weights(&self) -> (r: Vec<Vec<i64>>)
        requires
            self.wf(),
        ensures
            vv_view(r@) == self.params().weights,
            r@.len() == pv_n(self.params()),
    {
        proof {
            lemma_pv_rows(self.weights@, self.bias@);
        }
        let r: Vec<Vec<i64>> = copy_matrix(&self.weights);
        proof {
            assert(vv_view(r@) =~~= self.params().weights);
        }
        r
    }

    /// A copy of this layer's bias tensor, for persistence.
    pub fn get_bias(&self) -> (r: Vec<i64>)
        requires
            self.wf(),
        ensures
            r@ == self.params().bias,
    {
        copy_vector(&self.bias)
    }

    /// The number of inputs this layer takes.
    pub fn in_width(&self) -> (r: usize)
        requires
            self.wf(),
        ensures
            r as int == pv_in(self.params()),
    {
        proof {
            lemma_pv_rows(self.weights@, self.bias@);
        }
        self.weights[0].len()
    }

    /// The number of neurons this layer has.
    pub fn out_width(&self) -> (r: usize)
        requires
            self.wf(),
        ensures
            r as int == pv_n(self.params()),
    {
        self.weights.len()
    }
}

/// One stage of a network: the polymorphic layer capability with its four
/// concrete kinds.  A layer owns its parameters and, unless terminal, the
/// rest of the chain.
pub enum Layer {
    /// Terminal dense layer.
    Output(OutputLayer),
    /// Terminal softmax layer.
    SoftMaxOut(SoftMax),
    /// Inner dense layer wrapping a successor.
    Inner(InnerLayer),
    /// Inner convolutional layer wrapping a successor.
    Conv(ConvolutionalLayer),
}

/// A dense layer that stacks another layer inside itself, which may then
/// recursively stack another, and so on.
pub struct InnerLayer {
    /// The dense transform of this stage.
    pub inner: OutputLayer,
    /// The owned successor: the rest of the chain.
    pub next: Box<Layer>,
}

impl InnerLayer {
    /// The model of the chain from this layer down.
    pub open spec fn model(&self) -> Seq<LayerV>
        decreases self,
    {
        seq![LayerV::Inner(self.inner.params(), self.inner.act_of())] + self.next.model()
    }

    /// The whole chain from this layer down is well-formed.
    pub open spec fn wf(&self) -> bool {
        net_wf(self.model())
    }

    /// Pushes a fresh dense layer, with `neurons` neurons over `inputs`
    /// inputs and activation `act`, on top of an existing chain.  The
    /// neuron count must equal the chain's input width; otherwise the
    /// junction error is returned and nothing is built.  Parameters are
    /// initialized as in [`OutputLayer::new`].
    pub fn push(next: Layer, act: Act, inputs: usize, neurons: usize) -> (r: Result<
        InnerLayer,
        ConfigError,
    >)
        requires
            next.wf(),
            1 <= inputs <= DIM_MAX,
            1 <= neurons <= DIM_MAX,
        ensures
            r is Ok <==> neurons as int == net_in(next.model()),
            r matches Err(e) ==> e == ConfigError::JunctionMismatch,
            r matches Ok(il) ==> ({
                &&& il.wf()
                &&& il.next.model() == next.model()
                &&& il.model() == seq![LayerV::Inner(il.inner.params(), act)] + next.model()
                &&& net_in(il.model()) == inputs
                &&& net_fin(il.model()) == net_fin(next.model())
                &&& il.inner.act_of() == act
                &&& pv_in(il.inner.params()) == inputs
                &&& pv_n(il.inner.params()) == neurons
                &&& forall|n: int, j: int|
                    0 <= n < neurons && 0 <= j < inputs ==> -ONE
                        <= #[trigger] il.inner.params().weights[n][j] <= ONE
                &&& forall|n: int|
                    0 <= n < neurons ==> -DENSE_BIAS_INIT <= #[trigger] il.inner.params().bias[n]
                        <= DENSE_BIAS_INIT
            }),
    {
        let w: usize = next.in_width();
        if neurons != w {
            return Err(ConfigError::JunctionMismatch);
        }
        let inner: OutputLayer = OutputLayer::new(act, inputs, neurons);
        let il = InnerLayer { inner, next: Box::new(next) };
        proof {
            lemma_net_wf_cons(
                LayerV::Inner(il.inner.params(), il.inner.act_of()),
                il.next.model(),
            );
        }
        Ok(il)
    }
}

impl Layer {
    /// The model of the whole chain, outermost layer first.
    pub open spec fn model(&self) -> Seq<LayerV>
        decreases self,
    {
        match self {
            Layer::Output(l) => seq![LayerV::Output(l.params(), l.act_of())],
            Layer::SoftMaxOut(l) => seq![LayerV::SoftMaxOut(l.params())],
            Layer::Inner(il) => il.model(),
            Layer::Conv(cl) => cl.model(),
        }
    }

    /// The whole chain is well-formed.
    pub open spec fn wf(&self) -> bool {
        net_wf(self.model())
    }

    /// Every chain's model holds at least one layer.
    pub proof fn lemma_model_nonempty(&self)
        ensures
            1 <= self.model().len(),
    {
        match self {
            Layer::Output(_) => {},
            Layer::SoftMaxOut(_) => {},
            Layer::Inner(_) => {},
            Layer::Conv(_) => {},
        }
    }

    /// The number of inputs the network takes.
    pub fn in_width(&self) -> (r: usize)
        requires
            self.wf(),
        ensures
            r as int == net_in(self.model()),
    {
        match self {
            Layer::Output(l) => {
                proof {
                    assert(self.model()[0] == LayerV::Output(l.params(), l.act_of()));
                }
                l.in_width()
            },
            Layer::SoftMaxOut(l) => {
                proof {
                    assert(self.model()[0] == LayerV::SoftMaxOut(l.params()));
                }
                l.in_width()
            },
            Layer::Inner(il) => {
                proof {
                    assert(self.model()[0] == LayerV::Inner(
                        il.inner.params(),
                        il.inner.act_of(),
                    ));
                }
                il.inner.in_width()
            },
            Layer::Conv(cl) => {
                proof {
                    assert(self.model()[0] == LayerV::Conv(cl.cv()));
                    lemma_geom_dims(cl.cv().geom);
                }
                (cl.geom.depth * cl.geom.height) * cl.geom.width
            },
        }
    }

    /// The width of the network's final output tensor.
    pub fn out_width(&self) -> (r: usize)
        requires
            self.wf(),
        ensures
            r as int == net_fin(self.model()),
        decreases self,
    {
        match self {
            Layer::Output(l) => {
                proof {
                    assert(self.model()[0] == LayerV::Output(l.params(), l.act_of()));
                }
                l.out_width()
            },
            Layer::SoftMaxOut(l) => {
                proof {
                    assert(self.model()[0] == LayerV::SoftMaxOut(l.params()));
                }
                l.out_width()
            },
            Layer::Inner(il) => {
                proof {
                    il.next.lemma_model_nonempty();
                    assert(self.model().subrange(1, self.model().len() as int)
                        =~= il.next.model());
                    lemma_net_wf_tail(self.model());
                }
                il.next.out_width()
            },
            Layer::Conv(cl) => {
                proof {
                    cl.next.lemma_model_nonempty();
                    assert(self.model().subrange(1, self.model().len() as int)
                        =~= cl.next.model());
                    lemma_net_wf_tail(self.model());
                }
                cl.next.out_width()
            },
        }
    }

    /// One training step of the whole chain, by value: recomputes the
    /// forward pass, obtains each layer's error (the terminal layer by
    /// direct comparison with the target, every other layer from its
    /// successor), updates every layer's parameters, and returns the new
    /// chain together with the error attributable to the input and the
    /// final error of the terminal layer.
    #[verifier::rlimit(60)]
    pub fn backprop_owned(self, input: &Vec<i64>, correct_output: &Vec<i64>, speed: i64) -> (r: (
        Layer,
        Vec<i64>,
        Vec<i64>,
    ))
        requires
            self.wf(),
            input@.len() == net_in(self.model()),
            correct_output@.len() == net_fin(self.model()),
            bounded_seq(input@),
            bounded_seq(correct_output@),
        ensures
            ({
                let spec = net_bp(self.model(), input@, correct_output@, speed);
                &&& r.0.model() == spec.0
                &&& r.1@ == spec.1
                &&& r.2@ == spec.2
            }),
            r.0.wf(),
            net_in(r.0.model()) == net_in(self.model()),
            net_fin(r.0.model()) == net_fin(self.model()),
            r.1@.len() == net_in(self.model()),
            r.2@.len() == net_fin(self.model()),
            bounded_seq(r.1@),
            bounded_seq(r.2@),
        decreases self,
    {
        let ghost m = self.model();
        match self {
            Layer::Output(l) => {
                let mut l = l;
                let ghost p0 = l.params();
                let ghost a = l.act_of();
                proof {
                    assert(m == seq![LayerV::Output(p0, a)]);
                    assert(m[0] == LayerV::Output(p0, a));
                    assert(m.last() == m[0]);
                }
                let win: Vec<i64> = l.weight(input);
                let out: Vec<i64> = l.step(&win);
                let errs: (Vec<i64>, Vec<i64>) = l._get_error(&out, correct_output);
                let delta: Vec<i64> = l._weight_errors(&errs.0, &win);
                let prev: Vec<i64> = l._pre_error(&delta);
                l._apply_deltas(&delta, input, speed);
                let r0 = Layer::Output(l);
                proof {
                    let spec = net_bp(m, input@, correct_output@, speed);
                    assert(r0.model() =~= spec.0);
                    assert(r0.model()[0] == LayerV::Output(
                        dense_applied(p0, delta@, input@, speed),
                        a,
                    ));
                    assert(r0.model().last() == r0.model()[0]);
                }
                (r0, prev, errs.1)
            },
            Layer::SoftMaxOut(l) => {
                let mut l = l;
                let ghost p0 = l.params();
                proof {
                    assert(m == seq![LayerV::SoftMaxOut(p0)]);
                    assert(m[0] == LayerV::SoftMaxOut(p0));
                    assert(m.last() == m[0]);
                }
                let errs: (Vec<i64>, Vec<i64>) = l.backprop(input, correct_output, speed);
                let r0 = Layer::SoftMaxOut(l);
                proof {
                    let spec = net_bp(m, input@, correct_output@, speed);
                    assert(r0.model() =~= spec.0);
                    assert(r0.model()[0] == LayerV::SoftMaxOut(
                        dense_applied(
                            p0,
                            err_sub(correct_output@, softmax_out(dense_pre(p0, input@))),
                            input@,
                            speed,
                        ),
                    ));
                    assert(r0.model().last() == r0.model()[0]);
                }
                (r0, errs.0, errs.1)
            },
            Layer::Inner(il) => {
                let InnerLayer { inner, next } = il;
                let mut inner = inner;
                let ghost p0 = inner.params();
                let ghost a = inner.act_of();
                proof {
                    next.lemma_model_nonempty();
                    assert(m == seq![LayerV::Inner(p0, a)] + next.model());
                    assert(m[0] == LayerV::Inner(p0, a));
                    assert(m.subrange(1, m.len() as int) =~= next.model());
                    lemma_net_wf_tail(m);
                }
                let win: Vec<i64> = inner.weight(input);
                let out: Vec<i64> = inner.step(&win);
                let next_owned: Layer = *next;
                let rec: (Layer, Vec<i64>, Vec<i64>) = next_owned.backprop_owned(
                    &out,
                    correct_output,
                    speed,
                );
                let delta: Vec<i64> = inner._weight_errors(&rec.1, &win);
                let prev: Vec<i64> = inner._pre_error(&delta);
                inner._apply_deltas(&delta, input, speed);
                let il2 = InnerLayer { inner, next: Box::new(rec.0) };
                let r0 = Layer::Inner(il2);
                proof {
                    let spec = net_bp(m, input@, correct_output@, speed);
                    assert(r0.model() =~= spec.0);
                    lemma_net_wf_cons(
                        LayerV::Inner(dense_applied(p0, delta@, input@, speed), a),
                        spec.0.subrange(1, spec.0.len() as int),
                    );
                    assert(spec.0.subrange(1, spec.0.len() as int) =~= rec.0.model());
                    assert(seq![LayerV::Inner(dense_applied(p0, delta@, input@, speed), a)]
                        + rec.0.model() =~= spec.0);
                    assert(net_wf(r0.model()));
                    assert(r0.model()[0] == LayerV::Inner(
                        dense_applied(p0, delta@, input@, speed),
                        a,
                    ));
                }
                (r0, prev, rec.2)
            },
            Layer::Conv(cl) => {
                let ConvolutionalLayer { geom, filters, bias, act, next } = cl;
                let ghost cv0 = ConvParamsV {
                    geom,
                    filters: vv_view(filters@),
                    bias: bias@,
                    act,
                };
                proof {
                    next.lemma_model_nonempty();
                    assert(m == seq![LayerV::Conv(cv0)] + next.model());
                    assert(m[0] == LayerV::Conv(cv0));
                    assert(m.subrange(1, m.len() as int) =~= next.model());
                    lemma_net_wf_tail(m);
                    assert forall|f: int| 0 <= f < filters@.len() implies (
                    #[trigger] filters@[f])@.len() == flen(geom) by {
                        assert(cv0.filters[f] == filters@[f]@);
                    }
                }
                let pre: Vec<i64> = conv_weight_exec(geom, &filters, &bias, input);
                let own: Vec<i64> = step_exec(act, &pre);
                let next_owned: Layer = *next;
                let rec: (Layer, Vec<i64>, Vec<i64>) = next_owned.backprop_owned(
                    &own,
                    correct_output,
                    speed,
                );
                let delta: Vec<i64> = deriv_scale_exec(act, &rec.1, &pre);
                let prev: Vec<i64> = conv_scatter_exec(geom, &filters, &delta);
                let applied: (Vec<Vec<i64>>, Vec<i64>) = conv_apply_new(
                    geom,
                    &filters,
                    &bias,
                    &delta,
                    input,
                    speed,
                );
                let cl2 = ConvolutionalLayer {
                    geom,
                    filters: applied.0,
                    bias: applied.1,
                    act,
                    next: Box::new(rec.0),
                };
                let r0 = Layer::Conv(cl2);
                proof {
                    let spec = net_bp(m, input@, correct_output@, speed);
                    let capp = conv_applied(geom, cv0.filters, cv0.bias, delta@, input@, speed);
                    let cv2 = ConvParamsV { geom, filters: capp.0, bias: capp.1, act };
                    assert(cl2.cv() == cv2);
                    assert(r0.model() =~= spec.0);
                    assert forall|f: int| 0 <= f < cv2.filters.len() implies (
                    #[trigger] cv2.filters[f]).len() == flen(geom) && bounded_seq(cv2.filters[f])
                        by {
                        assert(cv2.filters[f] == applied.0@[f]@);
                    }
                    assert(cv_wf(cv2));
                    lemma_net_wf_cons(LayerV::Conv(cv2), rec.0.model());
                    assert(seq![LayerV::Conv(cv2)] + rec.0.model() =~= spec.0);
                    assert(net_wf(r0.model()));
                    assert(r0.model()[0] == LayerV::Conv(cv2));
                }
                (r0, prev, rec.2)
            },
        }
    }

    /// One training step in place: pass in the input and the expected
    /// output; the layer corrects itself and every successor.  Returns
    /// the error attributable to the input and the final error, both
    /// purely informational.
    pub fn backprop(&mut self, input: &Vec<i64>, correct_output: &Vec<i64>, speed: i64) -> (r: (
        Vec<i64>,
        Vec<i64>,
    ))
        requires
            old(self).wf(),
            input@.len() == net_in(old(self).model()),
            correct_output@.len() == net_fin(old(self).model()),
            bounded_seq(input@),
            bounded_seq(correct_output@),
        ensures
            ({
                let spec = net_bp(old(self).model(), input@, correct_output@, speed);
                &&& final(self).model() == spec.0
                &&& r.0@ == spec.1
                &&& r.1@ == spec.2
            }),
            final(self).wf(),
            net_in(final(self).model()) == net_in(old(self).model()),
            net_fin(final(self).model()) == net_fin(old(self).model()),
            r.0@.len() == net_in(old(self).model()),
            r.1@.len() == net_fin(old(self).model()),
            bounded_seq(r.0@),
            bounded_seq(r.1@),
    {
        // The chain is updated by value; a cheap placeholder takes its
        // place for the duration of the rebuild.
        let mut tmp: Layer = Layer::Output(
            OutputLayer { weights: Vec::new(), bias: Vec::new(), act: Act::ReLu },
        );
        core::mem::swap(self, &mut tmp);
        let rec: (Layer, Vec<i64>, Vec<i64>) = tmp.backprop_owned(input, correct_output, speed);
        let mut l2: Layer = rec.0;
        core::mem::swap(self, &mut l2);
        (rec.1, rec.2)
    }

    /// Reduces the inputs to one pre-activation scalar per neuron of the
    /// outermost layer alone, without recursing to deeper layers.
    pub fn weight(&self, inputs: &Vec<i64>) -> (out: Vec<i64>)
        requires
            self.wf(),
            inputs@.len() == net_in(self.model()),
            bounded_seq(inputs@),
        ensures
            out@ == lv_pre(self.model()[0], inputs@),
            out@.len() == lv_own(self.model()[0]),
            bounded_seq(out@),
    {
        match self {
            Layer::Output(l) => {
                proof {
                    assert(self.model()[0] == LayerV::Output(l.params(), l.act_of()));
                }
                l.weight(inputs)
            },
            Layer::SoftMaxOut(l) => {
                proof {
                    assert(self.model()[0] == LayerV::SoftMaxOut(l.params()));
                }
                l.weight(inputs)
            },
            Layer::Inner(il) => {
                proof {
                    assert(self.model()[0] == LayerV::Inner(
                        il.inner.params(),
                        il.inner.act_of(),
                    ));
                }
                il.inner.weight(inputs)
            },
            Layer::Conv(cl) => {
                proof {
                    assert(self.model()[0] == LayerV::Conv(cl.cv()));
                    assert forall|f: int| 0 <= f < cl.filters@.len() implies (
                    #[trigger] cl.filters@[f])@.len() == flen(cl.geom) by {
                        assert(cl.cv().filters[f] == cl.filters@[f]@);
                    }
                }
                let out: Vec<i64> = conv_weight_exec(cl.geom, &cl.filters, &cl.bias, inputs);
                proof {
                    assert(vv_view(cl.filters@) =~= cl.cv().filters);
                }
                out
            },
        }
    }

    /// Runs only the outermost layer's activation step on its
    /// pre-activation tensor, without recursing to deeper layers.
    pub fn step(&self, weighted_inputs: &Vec<i64>) -> (out: Vec<i64>)
        requires
            self.wf(),
            weighted_inputs@.len() == lv_own(self.model()[0]),
            bounded_seq(weighted_inputs@),
        ensures
            out@ == lv_step(self.model()[0], weighted_inputs@),
            out@.len() == weighted_inputs@.len(),
            bounded_seq(out@),
    {
        match self {
            Layer::Output(l) => {
                proof {
                    assert(self.model()[0] == LayerV::Output(l.params(), l.act_of()));
                }
                l.step(weighted_inputs)
            },
            Layer::SoftMaxOut(l) => {
                proof {
                    assert(self.model()[0] == LayerV::SoftMaxOut(l.params()));
                }
                l.step(weighted_inputs)
            },
            Layer::Inner(il) => {
                proof {
                    assert(self.model()[0] == LayerV::Inner(
                        il.inner.params(),
                        il.inner.act_of(),
                    ));
                }
                il.inner.step(weighted_inputs)
            },
            Layer::Conv(cl) => {
                proof {
                    assert(self.model()[0] == LayerV::Conv(cl.cv()));
                }
                step_exec(cl.act, weighted_inputs)
            },
        }
    }

    /// The multi-epoch training driver: for `iterations` epochs, replays
    /// every sample of the lesson through [`Layer::backprop`] with the
    /// annealed learning rate of [`rate_spec`], keeping an online
    /// incremental mean of the loss of each final error.  Returns one
    /// average loss per epoch, in epoch order.
    #[verifier::loop_isolation(false)]
    pub fn teach(&mut self, lesson: &Vec<(Vec<i64>, Vec<i64>)>, iterations: usize) -> (losses:
        Vec<i64>)
        requires
            old(self).wf(),
            iterations <= 0x1_0000_0000,
            lesson@.len() <= 0x1_0000_0000,
            forall|k: int|
                0 <= k < lesson@.len() ==> (#[trigger] lesson@[k]).0@.len() == net_in(
                    old(self).model(),
                ),
            forall|k: int|
                0 <= k < lesson@.len() ==> (#[trigger] lesson@[k]).1@.len() == net_fin(
                    old(self).model(),
                ),
            forall|k: int| 0 <= k < lesson@.len() ==> bounded_seq((#[trigger] lesson@[k]).0@),
            forall|k: int| 0 <= k < lesson@.len() ==> bounded_seq((#[trigger] lesson@[k]).1@),
        ensures
            losses@.len() == iterations,
            ({
                let spec = teach_run(
                    old(self).model(),
                    lesson@,
                    iterations as int,
                    iterations as int,
                );
                &&& final(self).model() == spec.0
                &&& losses@ == spec.1
            }),
            final(self).wf(),
            net_in(final(self).model()) == net_in(old(self).model()),
            net_fin(final(self).model()) == net_fin(old(self).model()),
    {
        let mut losses: Vec<i64> = Vec::new();
        let mut i: usize = 0;
        while i < iterations
            invariant
                0 <= i <= iterations,
                losses@.len() == i,
                self.wf(),
                net_in(self.model()) == net_in(old(self).model()),
                net_fin(self.model()) == net_fin(old(self).model()),
                ({
                    let spec = teach_run(old(self).model(), lesson@, iterations as int, i as int);
                    &&& self.model() == spec.0
                    &&& losses@ == spec.1
                }),
            decreases iterations - i,
        {
            let rate: i64 = rate_exec(i, iterations);
            let ghost m_start = self.model();
            let mut avg: i64 = 0;
            let mut pos: usize = 0;
            while pos < lesson.len()
                invariant
                    0 <= pos <= lesson@.len(),
                    i < iterations,
                    rate == rate_spec(i as int, iterations as int),
                    self.wf(),
                    net_in(self.model()) == net_in(old(self).model()),
                    net_fin(self.model()) == net_fin(old(self).model()),
                    ({
                        let ep = epoch_run(m_start, lesson@, rate, pos as int);
                        &&& self.model() == ep.0
                        &&& avg == ep.1
                    }),
                    bounded(avg),
                    m_start == teach_run(
                        old(self).model(),
                        lesson@,
                        iterations as int,
                        i as int,
                    ).0,
                decreases lesson@.len() - pos,
            {
                let pair: &(Vec<i64>, Vec<i64>) = &lesson[pos];
                let errs: (Vec<i64>, Vec<i64>) = self.backprop(&pair.0, &pair.1, rate);
                let l: i64 = loss(&errs.1);
                let d: i64 = divt(fsub(l, avg), (pos as i64) + 1);
                avg = fadd(avg, d);
                pos = pos + 1;
            }
            losses.push(avg);
            i = i + 1;
        }
        losses
    }

    /// Runs the input through this and all lower layers, producing the
    /// network's final output tensor.  Pure: the network is unchanged.
    pub fn calculate(&self, inputs: &Vec<i64>) -> (out: Vec<i64>)
        requires
            self.wf(),
            inputs@.len() == net_in(self.model()),
            bounded_seq(inputs@),
        ensures
            out@ == net_calc(self.model(), inputs@),
            out@.len() == net_fin(self.model()),
            bounded_seq(out@),
        decreases self,
    {
        match self {
            Layer::Output(l) => {
                proof {
                    assert(self.model()[0] == LayerV::Output(l.params(), l.act_of()));
                    assert(self.model().last() == self.model()[0]);
                }
                l.calculate(inputs)
            },
            Layer::SoftMaxOut(l) => {
                proof {
                    assert(self.model()[0] == LayerV::SoftMaxOut(l.params()));
                    assert(self.model().last() == self.model()[0]);
                }
                l.calculate(inputs)
            },
            Layer::Inner(il) => {
                proof {
                    il.next.lemma_model_nonempty();
                    assert(self.model()[0] == LayerV::Inner(
                        il.inner.params(),
                        il.inner.act_of(),
                    ));
                    assert(self.model().subrange(1, self.model().len() as int)
                        =~= il.next.model());
                    lemma_net_wf_tail(self.model());
                }
                let own: Vec<i64> = il.inner.calculate(inputs);
                il.next.calculate(&own)
            },
            Layer::Conv(cl) => {
                proof {
                    cl.next.lemma_model_nonempty();
                    assert(self.model()[0] == LayerV::Conv(cl.cv()));
                    assert(self.model().subrange(1, self.model().len() as int)
                        =~= cl.next.model());
                    lemma_net_wf_tail(self.model());
                    assert forall|f: int| 0 <= f < cl.filters@.len() implies (
                    #[trigger] cl.filters@[f])@.len() == flen(cl.geom) by {
                        assert(cl.cv().filters[f] == cl.filters@[f]@);
                    }
                }
                let pre: Vec<i64> = conv_weight_exec(cl.geom, &cl.filters, &cl.bias, inputs);
                let own: Vec<i64> = step_exec(cl.act, &pre);
                proof {
                    assert(vv_view(cl.filters@) =~= cl.cv().filters);
                }
                cl.next.calculate(&own)
            },
        }
    }
}

} // verus!
