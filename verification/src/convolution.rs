//! Windowed (convolutional) layers.
//!
//! The input is a `depth x height x width` volume stored as one flat
//! tensor, depth-major.  Each filter spans the whole depth and a
//! `filter_h x filter_w` window, and slides across the input with a fixed
//! stride; the output holds one scalar per (filter, window position),
//! filter-major, plus one bias per output position.  The backward pass
//! correlates deltas with the original input to grow the filters, and
//! scatter-adds `delta * filter_weight` back onto every input element a
//! window touched.

use vstd::prelude::*;

use vstd::arithmetic::div_mod::{lemma_div_is_ordered, lemma_div_nonincreasing,
    lemma_div_pos_is_pos, lemma_fundamental_div_mod, lemma_fundamental_div_mod_converse};

use crate::activation::Act;
use crate::fixed::{bounded, bounded_seq, fadd, fmul, spec_fadd, spec_fmul, ONE};
use crate::layers::{net_in, net_wf, vv_view, Layer, LayerV, ConfigError, DIM_MAX};

verus! {

/// Convolutional bias values are initialized within one half of
/// [`crate::fixed::ONE`].
pub const CONV_BIAS_INIT: i64 = 32768;

/// The fixed geometry of a convolutional layer.
#[derive(Clone, Copy, Debug, PartialEq, Eq, Structural)]
pub struct ConvGeom {
    /// Width of the input volume.
    pub width: usize,
    /// Height of the input volume.
    pub height: usize,
    /// Depth of the input volume.
    pub depth: usize,
    /// Width of each filter window.
    pub filter_w: usize,
    /// Height of each filter window.
    pub filter_h: usize,
    /// Number of filters.
    pub filters: usize,
    /// Step of the window per spatial axis.
    pub stride: usize,
}

/// Output width per filter: `(width - filter_w) / stride + 1`.
pub open spec fn ow_of(g: ConvGeom) -> int {
    (g.width - g.filter_w) as int / g.stride as int + 1
}

/// Output height per filter: `(height - filter_h) / stride + 1`.
pub open spec fn oh_of(g: ConvGeom) -> int {
    (g.height - g.filter_h) as int / g.stride as int + 1
}

/// Number of window positions of one filter.
pub open spec fn ohow(g: ConvGeom) -> int {
    oh_of(g) * ow_of(g)
}

/// Flattened input length: `depth * height * width`.
pub open spec fn in_len(g: ConvGeom) -> int {
    g.depth as int * g.height as int * g.width as int
}

/// Flattened filter length: `depth * filter_h * filter_w`.
pub open spec fn flen(g: ConvGeom) -> int {
    g.depth as int * g.filter_h as int * g.filter_w as int
}

/// Flattened output length: `filters * oh * ow`.
pub open spec fn out_len(g: ConvGeom) -> int {
    g.filters as int * ohow(g)
}

/// A valid geometry: positive dimensions, filters no larger than the
/// input, windows that tile each axis exactly, and flattened sizes within
/// the dimension cap.
pub open spec fn geom_wf(g: ConvGeom) -> bool {
    &&& 1 <= g.stride
    &&& 1 <= g.depth
    &&& 1 <= g.filters
    &&& 1 <= g.filter_w <= g.width
    &&& 1 <= g.filter_h <= g.height
    &&& (g.width - g.filter_w) as int % g.stride as int == 0
    &&& (g.height - g.filter_h) as int % g.stride as int == 0
    &&& in_len(g) <= DIM_MAX as int
    &&& out_len(g) <= DIM_MAX as int
    &&& flen(g) <= DIM_MAX as int
}

/// Flat index of input element `(d, y, x)`, depth-major.
pub open spec fn in_idx(g: ConvGeom, d: int, y: int, x: int) -> int {
    (d * g.height as int + y) * g.width as int + x
}

/// The input element that filter element `j` overlays when the window
/// sits at base position `(br, bc)`.
pub open spec fn win_in(g: ConvGeom, br: int, bc: int, j: int) -> int {
    let fhw = g.filter_h as int * g.filter_w as int;
    let d = j / fhw;
    let rem = j % fhw;
    let fy = rem / g.filter_w as int;
    let fx = rem % g.filter_w as int;
    in_idx(g, d, br + fy, bc + fx)
}

/// One product of the window dot: filter element `j` times the input
/// element under it.
pub open spec fn win_term(g: ConvGeom, filt: Seq<i64>, x: Seq<i64>, br: int, bc: int, j: int) -> i64 {
    spec_fmul(filt[j], x[win_in(g, br, bc, j)])
}

/// The dot product of a filter and the window at `(br, bc)`, over the
/// first `j` filter elements, accumulated left to right.
pub open spec fn win_dot(g: ConvGeom, filt: Seq<i64>, x: Seq<i64>, br: int, bc: int, j: int) -> i64
    decreases j,
{
    if j <= 0 {
        0
    } else {
        spec_fadd(win_dot(g, filt, x, br, bc, j - 1), win_term(g, filt, x, br, bc, j - 1))
    }
}

/// The forward pre-activation tensor: for output position `o`, the dot of
/// filter `o / ohow` with the window at the position `o % ohow`, plus the
/// bias of `o`.
pub open spec fn conv_pre(g: ConvGeom, filters: Seq<Seq<i64>>, bias: Seq<i64>, x: Seq<i64>) -> Seq<
    i64,
> {
    Seq::new(
        out_len(g) as nat,
        |o: int|
            {
                let f = o / ohow(g);
                let p = o % ohow(g);
                let br = (p / ow_of(g)) * g.stride as int;
                let bc = (p % ow_of(g)) * g.stride as int;
                spec_fadd(win_dot(g, filters[f], x, br, bc, flen(g)), bias[o])
            },
    )
}

/// Each delta scaled by the learning rate.
pub open spec fn scaled_seq(delta: Seq<i64>, speed: i64) -> Seq<i64> {
    Seq::new(delta.len(), |i: int| spec_fmul(delta[i], speed))
}

/// Filter element `(f, j)` after accumulating, over the first `p` window
/// positions, the scaled delta at that position times the input element
/// the window overlaid.
pub open spec fn filt_after(
    g: ConvGeom,
    filt: Seq<i64>,
    x: Seq<i64>,
    scaled: Seq<i64>,
    f: int,
    j: int,
    p: int,
) -> i64
    decreases p,
{
    if p <= 0 {
        filt[j]
    } else {
        let br = ((p - 1) / ow_of(g)) * g.stride as int;
        let bc = ((p - 1) % ow_of(g)) * g.stride as int;
        spec_fadd(
            filt_after(g, filt, x, scaled, f, j, p - 1),
            spec_fmul(scaled[f * ohow(g) + (p - 1)], x[win_in(g, br, bc, j)]),
        )
    }
}

/// All filters and biases after one gradient step: deltas are scaled by
/// the learning rate, each bias gains its scaled delta, and each filter
/// element accumulates the correlation of scaled deltas with the input.
pub open spec fn conv_applied(
    g: ConvGeom,
    filters: Seq<Seq<i64>>,
    bias: Seq<i64>,
    delta: Seq<i64>,
    x: Seq<i64>,
    speed: i64,
) -> (Seq<Seq<i64>>, Seq<i64>) {
    let scaled = scaled_seq(delta, speed);
    (
        Seq::new(
            filters.len(),
            |f: int|
                Seq::new(
                    filters[f].len(),
                    |j: int| filt_after(g, filters[f], x, scaled, f, j, ohow(g)),
                ),
        ),
        Seq::new(bias.len(), |i: int| spec_fadd(bias[i], scaled[i])),
    )
}

/// One window's scatter: the first `j` elements of the filter add
/// `delta * filter_weight` onto the input elements the window overlays.
pub open spec fn scatter_win(
    g: ConvGeom,
    filt: Seq<i64>,
    dval: i64,
    br: int,
    bc: int,
    pre: Seq<i64>,
    j: int,
) -> Seq<i64>
    decreases j,
{
    if j <= 0 {
        pre
    } else {
        let q = scatter_win(g, filt, dval, br, bc, pre, j - 1);
        let idx = win_in(g, br, bc, j - 1);
        q.update(idx, spec_fadd(q[idx], spec_fmul(dval, filt[j - 1])))
    }
}

/// The scatter of one filter over its first `p` window positions.
pub open spec fn scatter_pos(
    g: ConvGeom,
    filt: Seq<i64>,
    delta: Seq<i64>,
    f: int,
    pre: Seq<i64>,
    p: int,
) -> Seq<i64>
    decreases p,
{
    if p <= 0 {
        pre
    } else {
        let prev = scatter_pos(g, filt, delta, f, pre, p - 1);
        let br = ((p - 1) / ow_of(g)) * g.stride as int;
        let bc = ((p - 1) % ow_of(g)) * g.stride as int;
        scatter_win(g, filt, delta[f * ohow(g) + (p - 1)], br, bc, prev, flen(g))
    }
}

/// The scatter of the first `f` filters.
pub open spec fn scatter_all(
    g: ConvGeom,
    filters: Seq<Seq<i64>>,
    delta: Seq<i64>,
    pre: Seq<i64>,
    f: int,
) -> Seq<i64>
    decreases f,
{
    if f <= 0 {
        pre
    } else {
        scatter_pos(
            g,
            filters[f - 1],
            delta,
            f - 1,
            scatter_all(g, filters, delta, pre, f - 1),
            ohow(g),
        )
    }
}

/// The all-zero tensor of length `n`.
pub open spec fn zeros(n: int) -> Seq<i64> {
    Seq::new(n as nat, |i: int| 0i64)
}

/// The error tensor a convolutional layer hands to the layer above it:
/// every window contribution scatter-added onto a zero input volume.
pub open spec fn conv_pre_error(g: ConvGeom, filters: Seq<Seq<i64>>, delta: Seq<i64>) -> Seq<i64> {
    scatter_all(g, filters, delta, zeros(in_len(g)), g.filters as int)
}

/// The parameters of a convolutional layer: its geometry, one flattened
/// tensor per filter, one bias per output position, and its activation.
pub struct ConvParamsV {
    /// The fixed geometry.
    pub geom: ConvGeom,
    /// One flattened `depth x filter_h x filter_w` tensor per filter.
    pub filters: Seq<Seq<i64>>,
    /// One bias scalar per output position.
    pub bias: Seq<i64>,
    /// The elementwise activation applied after the windowing.
    pub act: Act,
}

/// Well-formed convolutional parameters: a valid geometry, one filter
/// tensor of the flattened filter length per filter, one bias per output
/// position, everything bounded.
pub open spec fn cv_wf(c: ConvParamsV) -> bool {
    &&& geom_wf(c.geom)
    &&& c.filters.len() == c.geom.filters
    &&& forall|f: int| 0 <= f < c.filters.len() ==> (#[trigger] c.filters[f]).len() == flen(c.geom)
    &&& forall|f: int| 0 <= f < c.filters.len() ==> bounded_seq(#[trigger] c.filters[f])
    &&& bounded_seq(c.bias)
    &&& c.bias.len() == out_len(c.geom)
}

/// A window base position per axis: row `r` of the output starts at input
/// row `r * stride`, which leaves room for the whole filter.
pub proof fn lemma_base_row(g: ConvGeom, r: int)
    requires
        geom_wf(g),
        0 <= r < oh_of(g),
    ensures
        0 <= r * g.stride as int <= g.height as int - g.filter_h as int,
{
    let s = g.stride as int;
    let span = g.height as int - g.filter_h as int;
    lemma_fundamental_div_mod(span, s);
    assert(span == s * (span / s));
    assert(r * s <= (span / s) * s) by (nonlinear_arith)
        requires
            r <= span / s,
            1 <= s,
    ;
    assert((span / s) * s == s * (span / s)) by (nonlinear_arith);
    assert(0 <= r * s) by (nonlinear_arith)
        requires
            0 <= r,
            1 <= s,
    ;
}

/// Same bound for the column axis.
pub proof fn lemma_base_col(g: ConvGeom, c: int)
    requires
        geom_wf(g),
        0 <= c < ow_of(g),
    ensures
        0 <= c * g.stride as int <= g.width as int - g.filter_w as int,
{
    let s = g.stride as int;
    let span = g.width as int - g.filter_w as int;
    lemma_fundamental_div_mod(span, s);
    assert(span == s * (span / s));
    assert(c * s <= (span / s) * s) by (nonlinear_arith)
        requires
            c <= span / s,
            1 <= s,
    ;
    assert((span / s) * s == s * (span / s)) by (nonlinear_arith);
    assert(0 <= c * s) by (nonlinear_arith)
        requires
            0 <= c,
            1 <= s,
    ;
}

/// For `0 <= j < a * b` with `b > 0`, the quotient `j / b` lies below `a`.
pub proof fn lemma_div_below(j: int, a: int, b: int)
    requires
        0 <= j,
        j < a * b,
        1 <= b,
        1 <= a,
    ensures
        0 <= j / b < a,
        0 <= j % b < b,
{
    lemma_div_pos_is_pos(j, b);
    assert((a * b - 1) == (a - 1) * b + (b - 1)) by (nonlinear_arith);
    lemma_fundamental_div_mod_converse(a * b - 1, b, a - 1, b - 1);
    lemma_div_is_ordered(j, a * b - 1, b);
}

/// The input element under any filter element of a window whose base
/// leaves room for the filter is inside the input volume.
pub proof fn lemma_win_in_bound(g: ConvGeom, br: int, bc: int, j: int)
    requires
        geom_wf(g),
        0 <= br <= g.height as int - g.filter_h as int,
        0 <= bc <= g.width as int - g.filter_w as int,
        0 <= j < flen(g),
    ensures
        0 <= win_in(g, br, bc, j) < in_len(g),
        ({
            let fhw = g.filter_h as int * g.filter_w as int;
            let d = j / fhw;
            let rem = j % fhw;
            let fy = rem / g.filter_w as int;
            let fx = rem % g.filter_w as int;
            &&& 0 <= d < g.depth as int
            &&& 0 <= fy < g.filter_h as int
            &&& 0 <= fx < g.filter_w as int
            &&& 0 <= d * g.height as int + (br + fy) < g.depth as int * g.height as int
        }),
{
    let fhw = g.filter_h as int * g.filter_w as int;
    assert(g.depth as int * g.filter_h as int * g.filter_w as int == g.depth as int * fhw)
        by (nonlinear_arith)
        requires
            fhw == g.filter_h as int * g.filter_w as int,
    ;
    assert(1 <= fhw) by (nonlinear_arith)
        requires
            fhw == g.filter_h as int * g.filter_w as int,
            1 <= g.filter_h as int,
            1 <= g.filter_w as int,
    ;
    lemma_div_below(j, g.depth as int, fhw);
    let rem = j % fhw;
    assert(rem < g.filter_h as int * g.filter_w as int);
    lemma_div_below(rem, g.filter_h as int, g.filter_w as int);
    let d = j / fhw;
    let fy = rem / g.filter_w as int;
    let fx = rem % g.filter_w as int;
    let y = br + fy;
    let x = bc + fx;
    assert(0 <= y < g.height as int);
    assert(0 <= x < g.width as int);
    assert(0 <= (d * g.height as int + y) * g.width as int + x < g.depth as int * g.height as int
        * g.width as int) by (nonlinear_arith)
        requires
            0 <= d < g.depth as int,
            0 <= y < g.height as int,
            0 <= x < g.width as int,
    ;
    assert(0 <= d * g.height as int + y < g.depth as int * g.height as int) by (nonlinear_arith)
        requires
            0 <= d < g.depth as int,
            0 <= y < g.height as int,
    ;
}

/// The forward pass of a convolutional layer: for each filter and each
/// window position, the dot product of the filter with the window it
/// covers, plus the bias of that output position.
#[verifier::loop_isolation(false)]
pub(crate) fn conv_weight_exec(
    g: ConvGeom,
    filters: &Vec<Vec<i64>>,
    bias: &Vec<i64>,
    x: &Vec<i64>,
) -> (out: Vec<i64>)
    requires
        geom_wf(g),
        filters@.len() == g.filters,
        forall|f: int| 0 <= f < filters@.len() ==> (#[trigger] filters@[f])@.len() == flen(g),
        bias@.len() == out_len(g),
        x@.len() == in_len(g),
    ensures
        out@.len() == out_len(g),
        out@ == conv_pre(g, crate::layers::vv_view(filters@), bias@, x@),
        bounded_seq(out@),
{
    proof {
        lemma_geom_dims(g);
    }
    let oh: usize = (g.height - g.filter_h) / g.stride + 1;
    let ow: usize = (g.width - g.filter_w) / g.stride + 1;
    let ohw: usize = oh * ow;
    let total: usize = g.filters * ohw;
    let fhw: usize = g.filter_h * g.filter_w;
    let fl: usize = g.depth * fhw;
    let mut out: Vec<i64> = Vec::new();
    let mut o: usize = 0;
    while o < total
        invariant
            0 <= o <= total,
            geom_wf(g),
            filters@.len() == g.filters,
            forall|k: int| 0 <= k < filters@.len() ==> (#[trigger] filters@[k])@.len() == flen(g),
            bias@.len() == out_len(g),
            x@.len() == in_len(g),
            oh == oh_of(g),
            ow == ow_of(g),
            ohw == ohow(g),
            total == out_len(g),
            fl == flen(g),
            fhw == g.filter_h as int * g.filter_w as int,
            out@.len() == o,
            forall|k: int|
                0 <= k < o ==> out@[k] == conv_pre(g, crate::layers::vv_view(filters@), bias@, x@)[
                    k],
            forall|k: int| 0 <= k < o ==> bounded(#[trigger] out@[k]),
        decreases total - o,
    {
        proof {
            lemma_div_below(o as int, g.filters as int, ohow(g));
            lemma_div_below(o as int % ohow(g), oh_of(g), ow_of(g));
            lemma_base_row(g, (o as int % ohow(g)) / ow_of(g));
            lemma_base_col(g, (o as int % ohow(g)) % ow_of(g));
        }
        let f: usize = o / ohw;
        let p: usize = o % ohw;
        let r: usize = p / ow;
        let c: usize = p % ow;
        let br: usize = r * g.stride;
        let bc: usize = c * g.stride;
        let filt: &Vec<i64> = &filters[f];
        let mut acc: i64 = 0;
        let mut j: usize = 0;
        while j < fl
            invariant
                0 <= j <= fl,
                geom_wf(g),
                filt@ == filters@[f as int]@,
                filt@.len() == flen(g),
                x@.len() == in_len(g),
                fl == flen(g),
                0 <= br <= g.height as int - g.filter_h as int,
                0 <= bc <= g.width as int - g.filter_w as int,
                fhw == g.filter_h as int * g.filter_w as int,
                acc == win_dot(g, filt@, x@, br as int, bc as int, j as int),
            decreases fl - j,
        {
            proof {
                lemma_win_in_bound(g, br as int, bc as int, j as int);
            }
            let d: usize = j / fhw;
            let rem: usize = j % fhw;
            let fy: usize = rem / g.filter_w;
            let fx: usize = rem % g.filter_w;
            let xi: usize = (d * g.height + (br + fy)) * g.width + (bc + fx);
            acc = fadd(acc, fmul(filt[j], x[xi]));
            j = j + 1;
        }
        out.push(fadd(acc, bias[o]));
        o = o + 1;
    }
    proof {
        assert(out@ =~= conv_pre(g, crate::layers::vv_view(filters@), bias@, x@));
    }
    out
}

/// Bounds on every dimension of a valid geometry, in the shape the
/// executable loops need.
pub proof fn lemma_geom_dims(g: ConvGeom)
    requires
        geom_wf(g),
    ensures
        1 <= oh_of(g) <= DIM_MAX as int,
        1 <= ow_of(g) <= DIM_MAX as int,
        1 <= ohow(g) <= DIM_MAX as int,
        1 <= flen(g),
        1 <= in_len(g),
        1 <= out_len(g),
        g.height as int <= DIM_MAX as int,
        g.width as int <= DIM_MAX as int,
        g.depth as int <= DIM_MAX as int,
        g.filters as int <= DIM_MAX as int,
        1 <= g.filter_h as int * g.filter_w as int <= DIM_MAX as int,
        g.depth as int * g.height as int <= DIM_MAX as int,
        flen(g) == g.depth as int * (g.filter_h as int * g.filter_w as int),
        out_len(g) == g.filters as int * ohow(g),
        oh_of(g) == (g.height - g.filter_h) as int / g.stride as int + 1,
        ow_of(g) == (g.width - g.filter_w) as int / g.stride as int + 1,
{
    let d = g.depth as int;
    let h = g.height as int;
    let w = g.width as int;
    let fh = g.filter_h as int;
    let fw = g.filter_w as int;
    let n = g.filters as int;
    let s = g.stride as int;
    assert(h <= d * h * w && w <= d * h * w && d <= d * h * w && d * h <= d * h * w)
        by (nonlinear_arith)
        requires
            1 <= d && 1 <= h && 1 <= w,
    ;
    lemma_div_pos_is_pos(h - fh, s);
    lemma_div_pos_is_pos(w - fw, s);
    lemma_div_is_ordered(h - fh, DIM_MAX as int - 1, s);
    lemma_div_is_ordered(w - fw, DIM_MAX as int - 1, s);
    assert(h - fh <= DIM_MAX as int - 1);
    assert((h - fh) / s <= (DIM_MAX as int - 1) / s);
    assert((DIM_MAX as int - 1) / s <= DIM_MAX as int - 1) by {
        lemma_div_nonincreasing(DIM_MAX as int - 1, s);
    }
    assert(1 <= ohow(g) && n <= n * ohow(g) && ohow(g) <= n * ohow(g)) by (nonlinear_arith)
        requires
            1 <= oh_of(g),
            1 <= ow_of(g),
            1 <= n,
            ohow(g) == oh_of(g) * ow_of(g),
    ;
    assert(1 <= fh * fw <= d * fh * fw && 1 <= d * fh * fw && d * fh * fw == d * (fh * fw))
        by (nonlinear_arith)
        requires
            1 <= d && 1 <= fh && 1 <= fw,
    ;
    assert(1 <= d * h * w) by (nonlinear_arith)
        requires
            1 <= d && 1 <= h && 1 <= w,
    ;
    assert(oh_of(g) <= ohow(g) && ow_of(g) <= ohow(g)) by (nonlinear_arith)
        requires
            1 <= oh_of(g),
            1 <= ow_of(g),
            ohow(g) == oh_of(g) * ow_of(g),
    ;
}

/// A point of an `a x b` grid has its flat index inside `a * b`.
pub proof fn lemma_grid2_bound(i: int, j: int, a: int, b: int)
    requires
        0 <= i < a,
        0 <= j < b,
    ensures
        0 <= i * b + j < a * b,
{
    assert(0 <= i * b + j < a * b) by (nonlinear_arith)
        requires
            0 <= i < a,
            0 <= j < b,
    ;
}

/// The learning-rate-scaled copy of a delta tensor.
pub(crate) fn scaled_exec(delta: &Vec<i64>, speed: i64) -> (scaled: Vec<i64>)
    ensures
        scaled@.len() == delta@.len(),
        scaled@ == scaled_seq(delta@, speed),
        bounded_seq(scaled@),
{
    let len: usize = delta.len();
    let mut scaled: Vec<i64> = Vec::new();
    let mut i: usize = 0;
    while i < len
        invariant
            0 <= i <= len,
            len == delta@.len(),
            scaled@.len() == i,
            forall|k: int| 0 <= k < i ==> scaled@[k] == spec_fmul(delta@[k], speed),
            forall|k: int| 0 <= k < i ==> bounded(#[trigger] scaled@[k]),
        decreases len - i,
    {
        scaled.push(fmul(delta[i], speed));
        i = i + 1;
    }
    proof {
        assert(scaled@ =~= scaled_seq(delta@, speed));
    }
    scaled
}

/// The gradient step of a convolutional layer: scales the deltas by the
/// learning rate, adds each scaled delta into its bias, and accumulates
/// the correlation of scaled deltas with the original input into every
/// filter element.
#[verifier::loop_isolation(false)]
pub(crate) fn conv_apply_new(
    g: ConvGeom,
    filters: &Vec<Vec<i64>>,
    bias: &Vec<i64>,
    delta: &Vec<i64>,
    x: &Vec<i64>,
    speed: i64,
) -> (r: (Vec<Vec<i64>>, Vec<i64>))
    requires
        geom_wf(g),
        filters@.len() == g.filters,
        forall|f: int| 0 <= f < filters@.len() ==> (#[trigger] filters@[f])@.len() == flen(g),
        bias@.len() == out_len(g),
        delta@.len() == out_len(g),
        x@.len() == in_len(g),
    ensures
        crate::layers::vv_view(r.0@) == conv_applied(
            g,
            crate::layers::vv_view(filters@),
            bias@,
            delta@,
            x@,
            speed,
        ).0,
        r.1@ == conv_applied(g, crate::layers::vv_view(filters@), bias@, delta@, x@, speed).1,
        r.0@.len() == g.filters,
        forall|f: int| 0 <= f < r.0@.len() ==> (#[trigger] r.0@[f])@.len() == flen(g),
        forall|f: int| 0 <= f < r.0@.len() ==> bounded_seq((#[trigger] r.0@[f])@),
        r.1@.len() == out_len(g),
        bounded_seq(r.1@),
{
    proof {
        lemma_geom_dims(g);
    }
    let oh: usize = (g.height - g.filter_h) / g.stride + 1;
    let ow: usize = (g.width - g.filter_w) / g.stride + 1;
    let ohw: usize = oh * ow;
    let fhw: usize = g.filter_h * g.filter_w;
    let fl: usize = g.depth * fhw;
    let scaled: Vec<i64> = scaled_exec(delta, speed);
    let ghost sc = scaled_seq(delta@, speed);
    let mut w2: Vec<Vec<i64>> = Vec::new();
    let mut f: usize = 0;
    while f < g.filters
        invariant
            0 <= f <= g.filters,
            w2@.len() == f,
            forall|k: int| 0 <= k < f ==> (#[trigger] w2@[k])@.len() == flen(g),
            forall|k: int, j: int|
                0 <= k < f && 0 <= j < flen(g) ==> #[trigger] w2@[k]@[j] == filt_after(
                    g,
                    filters@[k]@,
                    x@,
                    sc,
                    k,
                    j,
                    ohow(g),
                ),
            forall|k: int| 0 <= k < f ==> bounded_seq((#[trigger] w2@[k])@),
        decreases g.filters - f,
    {
        let filt: &Vec<i64> = &filters[f];
        let mut row2: Vec<i64> = Vec::new();
        let mut j: usize = 0;
        while j < fl
            invariant
                0 <= j <= fl,
                f < g.filters,
                filt@ == filters@[f as int]@,
                row2@.len() == j,
                forall|i: int|
                    0 <= i < j ==> #[trigger] row2@[i] == filt_after(g, filt@, x@, sc, f as int, i, ohow(g)),
                forall|i: int| 0 <= i < j ==> bounded(#[trigger] row2@[i]),
            decreases fl - j,
        {
            let mut acc: i64 = filt[j];
            let mut p: usize = 0;
            while p < ohw
                invariant
                    0 <= p <= ohw,
                    f < g.filters,
                    j < fl,
                    filt@ == filters@[f as int]@,
                    acc == filt_after(g, filt@, x@, sc, f as int, j as int, p as int),
                decreases ohw - p,
            {
                proof {
                    lemma_div_below(p as int, oh_of(g), ow_of(g));
                    lemma_base_row(g, p as int / ow_of(g));
                    lemma_base_col(g, p as int % ow_of(g));
                    lemma_grid2_bound(f as int, p as int, g.filters as int, ohow(g));
                }
                let o: usize = f * ohw + p;
                let br: usize = (p / ow) * g.stride;
                let bc: usize = (p % ow) * g.stride;
                proof {
                    lemma_win_in_bound(g, br as int, bc as int, j as int);
                }
                let d: usize = j / fhw;
                let rem: usize = j % fhw;
                let fy: usize = rem / g.filter_w;
                let fx: usize = rem % g.filter_w;
                let xi: usize = (d * g.height + (br + fy)) * g.width + (bc + fx);
                acc = fadd(acc, fmul(scaled[o], x[xi]));
                p = p + 1;
            }
            row2.push(acc);
            j = j + 1;
        }
        w2.push(row2);
        f = f + 1;
    }
    let mut b2: Vec<i64> = Vec::new();
    let mut i: usize = 0;
    while i < bias.len()
        invariant
            0 <= i <= bias@.len(),
            b2@.len() == i,
            forall|k: int| 0 <= k < i ==> b2@[k] == spec_fadd(bias@[k], sc[k]),
            forall|k: int| 0 <= k < i ==> bounded(#[trigger] b2@[k]),
        decreases bias@.len() - i,
    {
        b2.push(fadd(bias[i], scaled[i]));
        i = i + 1;
    }
    proof {
        let ca = conv_applied(g, crate::layers::vv_view(filters@), bias@, delta@, x@, speed);
        assert forall|k: int| 0 <= k < g.filters implies #[trigger] crate::layers::vv_view(w2@)[k]
            =~= ca.0[k] by {
            assert(crate::layers::vv_view(filters@)[k] == filters@[k]@);
        }
        assert(crate::layers::vv_view(w2@) =~~= ca.0);
        assert(b2@ =~= ca.1);
    }
    (w2, b2)
}

/// The error a convolutional layer attributes to its input: for every
/// filter and window position, `delta * filter_weight` is scatter-added
/// onto each input element the window touched, contributions of
/// overlapping windows accumulating.
#[verifier::loop_isolation(false)]
pub(crate) fn conv_scatter_exec(g: ConvGeom, filters: &Vec<Vec<i64>>, delta: &Vec<i64>) -> (pre:
    Vec<i64>)
    requires
        geom_wf(g),
        filters@.len() == g.filters,
        forall|f: int| 0 <= f < filters@.len() ==> (#[trigger] filters@[f])@.len() == flen(g),
        delta@.len() == out_len(g),
    ensures
        pre@.len() == in_len(g),
        pre@ == conv_pre_error(g, crate::layers::vv_view(filters@), delta@),
        bounded_seq(pre@),
{
    proof {
        lemma_geom_dims(g);
    }
    let oh: usize = (g.height - g.filter_h) / g.stride + 1;
    let ow: usize = (g.width - g.filter_w) / g.stride + 1;
    let ohw: usize = oh * ow;
    let fhw: usize = g.filter_h * g.filter_w;
    let fl: usize = g.depth * fhw;
    let in_total: usize = g.depth * g.height * g.width;
    let mut pre: Vec<i64> = Vec::new();
    let mut z: usize = 0;
    while z < in_total
        invariant
            0 <= z <= in_total,
            pre@.len() == z,
            forall|k: int| 0 <= k < z ==> pre@[k] == 0i64,
        decreases in_total - z,
    {
        pre.push(0);
        z = z + 1;
    }
    proof {
        assert(pre@ =~= zeros(in_len(g)));
    }
    let mut f: usize = 0;
    while f < g.filters
        invariant
            0 <= f <= g.filters,
            pre@.len() == in_len(g),
            pre@ == scatter_all(g, crate::layers::vv_view(filters@), delta@, zeros(in_len(g)), f as int),
            bounded_seq(pre@),
        decreases g.filters - f,
    {
        let filt: &Vec<i64> = &filters[f];
        let ghost pre_f = pre@;
        let mut p: usize = 0;
        while p < ohw
            invariant
                0 <= p <= ohw,
                f < g.filters,
                filt@ == filters@[f as int]@,
                pre@.len() == in_len(g),
                pre@ == scatter_pos(g, filt@, delta@, f as int, pre_f, p as int),
                bounded_seq(pre@),
            decreases ohw - p,
        {
            proof {
                lemma_div_below(p as int, oh_of(g), ow_of(g));
                lemma_base_row(g, p as int / ow_of(g));
                lemma_base_col(g, p as int % ow_of(g));
                lemma_grid2_bound(f as int, p as int, g.filters as int, ohow(g));
            }
            let o: usize = f * ohw + p;
            let br: usize = (p / ow) * g.stride;
            let bc: usize = (p % ow) * g.stride;
            let dval: i64 = delta[o];
            let ghost pre_p = pre@;
            let mut j: usize = 0;
            while j < fl
                invariant
                    0 <= j <= fl,
                    0 <= br <= g.height as int - g.filter_h as int,
                    0 <= bc <= g.width as int - g.filter_w as int,
                    filt@ == filters@[f as int]@,
                    pre@.len() == in_len(g),
                    pre@ == scatter_win(g, filt@, dval, br as int, bc as int, pre_p, j as int),
                    bounded_seq(pre@),
                decreases fl - j,
            {
                proof {
                    lemma_win_in_bound(g, br as int, bc as int, j as int);
                }
                let d: usize = j / fhw;
                let rem: usize = j % fhw;
                let fy: usize = rem / g.filter_w;
                let fx: usize = rem % g.filter_w;
                let xi: usize = (d * g.height + (br + fy)) * g.width + (bc + fx);
                let v: i64 = fadd(pre[xi], fmul(dval, filt[j]));
                pre.set(xi, v);
                j = j + 1;
            }
            p = p + 1;
        }
        f = f + 1;
    }
    pre
}

/// A windowed, depth-spanning filter bank wrapped around an owned
/// successor whose input width must equal the flattened output size.
pub struct ConvolutionalLayer {
    /// The fixed geometry of the windowing.
    pub geom: ConvGeom,
    /// One flattened filter tensor per filter.
    pub filters: Vec<Vec<i64>>,
    /// One bias scalar per output position.
    pub bias: Vec<i64>,
    /// The elementwise activation applied after the windowing.
    pub act: Act,
    /// The owned successor: the rest of the chain.
    pub next: Box<Layer>,
}

impl ConvolutionalLayer {
    /// The parameter view of this layer alone.
    pub open spec fn cv(&self) -> ConvParamsV {
        ConvParamsV {
            geom: self.geom,
            filters: vv_view(self.filters@),
            bias: self.bias@,
            act: self.act,
        }
    }

    /// The model of the chain from this layer down.
    pub open spec fn model(&self) -> Seq<LayerV>
        decreases self,
    {
        seq![LayerV::Conv(self.cv())] + self.next.model()
    }

    /// The whole chain from this layer down is well-formed.
    pub open spec fn wf(&self) -> bool {
        net_wf(self.model())
    }

    /// Pushes a convolutional layer on top of an existing chain.  The
    /// geometry must be valid and its flattened output size must equal
    /// the chain's input width; otherwise the matching configuration
    /// error is returned and nothing is built.  Fresh filter weights are
    /// drawn uniformly from `[-ONE, ONE]` and biases from
    /// `[-CONV_BIAS_INIT, CONV_BIAS_INIT]`.
    pub fn push(next: Layer, act: Act, geom: ConvGeom) -> (r: Result<
        ConvolutionalLayer,
        ConfigError,
    >)
        requires
            next.wf(),
        ensures
            !geom_wf(geom) ==> r == Result::<ConvolutionalLayer, ConfigError>::Err(
                ConfigError::BadGeometry,
            ),
            geom_wf(geom) && out_len(geom) != net_in(next.model()) ==> r == Result::<
                ConvolutionalLayer,
                ConfigError,
            >::Err(ConfigError::JunctionMismatch),
            geom_wf(geom) && out_len(geom) == net_in(next.model()) ==> r is Ok,
            r matches Ok(cl) ==> ({
                &&& cl.wf()
                &&& cl.cv().geom == geom
                &&& cl.cv().act == act
                &&& cl.next.model() == next.model()
                &&& cl.model() == seq![LayerV::Conv(cl.cv())] + next.model()
                &&& forall|f: int, j: int|
                    0 <= f < geom.filters && 0 <= j < flen(geom) ==> -ONE
                        <= #[trigger] cl.cv().filters[f][j] <= ONE
                &&& forall|i: int|
                    0 <= i < out_len(geom) ==> -CONV_BIAS_INIT <= #[trigger] cl.cv().bias[i]
                        <= CONV_BIAS_INIT
            }),
    {
        if geom.stride < 1 || geom.depth < 1 || geom.filters < 1 || geom.filter_w < 1
            || geom.filter_w > geom.width || geom.filter_h < 1 || geom.filter_h > geom.height {
            return Err(ConfigError::BadGeometry);
        }
        if (geom.width - geom.filter_w) % geom.stride != 0 || (geom.height - geom.filter_h)
            % geom.stride != 0 {
            return Err(ConfigError::BadGeometry);
        }
        if geom.depth > DIM_MAX || geom.height > DIM_MAX || geom.width > DIM_MAX
            || geom.filters > DIM_MAX {
            proof {
                lemma_div_pos_is_pos((geom.height - geom.filter_h) as int, geom.stride as int);
                lemma_div_pos_is_pos((geom.width - geom.filter_w) as int, geom.stride as int);
                assert(geom.depth as int <= in_len(geom) && geom.height as int <= in_len(geom)
                    && geom.width as int <= in_len(geom)) by (nonlinear_arith)
                    requires
                        1 <= geom.depth && 1 <= geom.height && 1 <= geom.width,
                ;
                assert(geom.filters as int <= out_len(geom)) by (nonlinear_arith)
                    requires
                        1 <= oh_of(geom),
                        1 <= ow_of(geom),
                        1 <= geom.filters as int,
                        ohow(geom) == oh_of(geom) * ow_of(geom),
                        out_len(geom) == geom.filters as int * ohow(geom),
                ;
            }
            return Err(ConfigError::BadGeometry);
        }
        proof {
            assert(geom.depth as int * geom.height as int <= 0x1_0000_0000) by (nonlinear_arith)
                requires
                    geom.depth as int <= DIM_MAX as int,
                    geom.height as int <= DIM_MAX as int,
                    DIM_MAX as int == 65536,
            ;
        }
        let dh: u64 = (geom.depth as u64) * (geom.height as u64);
        proof {
            assert(geom.depth as int * geom.height as int * geom.width as int
                <= 0x1_0000_0000_0000) by (nonlinear_arith)
                requires
                    geom.depth as int * geom.height as int <= 0x1_0000_0000,
                    geom.width as int <= DIM_MAX as int,
                    DIM_MAX as int == 65536,
            ;
        }
        let dhw: u64 = dh * (geom.width as u64);
        if dhw > DIM_MAX as u64 {
            return Err(ConfigError::BadGeometry);
        }
        proof {
            assert(geom.filter_h as int * geom.filter_w as int <= 0x1_0000_0000)
                by (nonlinear_arith)
                requires
                    geom.filter_h as int <= DIM_MAX as int,
                    geom.filter_w as int <= DIM_MAX as int,
                    DIM_MAX as int == 65536,
            ;
        }
        let fhw: u64 = (geom.filter_h as u64) * (geom.filter_w as u64);
        proof {
            assert(geom.depth as int * (geom.filter_h as int * geom.filter_w as int)
                <= 0x1_0000_0000_0000 && geom.depth as int * geom.filter_h as int
                * geom.filter_w as int == geom.depth as int * (geom.filter_h as int
                * geom.filter_w as int)) by (nonlinear_arith)
                requires
                    geom.filter_h as int * geom.filter_w as int <= 0x1_0000_0000,
                    geom.depth as int <= DIM_MAX as int,
                    DIM_MAX as int == 65536,
            ;
        }
        let fl: u64 = (geom.depth as u64) * fhw;
        if fl > DIM_MAX as u64 {
            return Err(ConfigError::BadGeometry);
        }
        let oh: u64 = ((geom.height - geom.filter_h) / geom.stride + 1) as u64;
        let ow: u64 = ((geom.width - geom.filter_w) / geom.stride + 1) as u64;
        proof {
            assert(oh == oh_of(geom) && ow == ow_of(geom));
            assert(1 <= oh_of(geom) <= DIM_MAX as int && 1 <= ow_of(geom) <= DIM_MAX as int) by {
                lemma_div_pos_is_pos((geom.height - geom.filter_h) as int, geom.stride as int);
                lemma_div_pos_is_pos((geom.width - geom.filter_w) as int, geom.stride as int);
                lemma_div_nonincreasing((geom.height - geom.filter_h) as int, geom.stride as int);
                lemma_div_nonincreasing((geom.width - geom.filter_w) as int, geom.stride as int);
            }
            assert(oh_of(geom) * ow_of(geom) <= 0x1_0000_0000) by (nonlinear_arith)
                requires
                    1 <= oh_of(geom) <= DIM_MAX as int,
                    1 <= ow_of(geom) <= DIM_MAX as int,
                    DIM_MAX as int == 65536,
            ;
        }
        let ohw: u64 = oh * ow;
        proof {
            assert(geom.filters as int * ohow(geom) <= 0x1_0000_0000_0000) by (nonlinear_arith)
                requires
                    ohow(geom) <= 0x1_0000_0000,
                    geom.filters as int <= DIM_MAX as int,
                    DIM_MAX as int == 65536,
            ;
        }
        let total: u64 = (geom.filters as u64) * ohw;
        if total > DIM_MAX as u64 {
            return Err(ConfigError::BadGeometry);
        }
        assert(geom_wf(geom));
        let width: usize = next.in_width();
        if total as usize != width {
            return Err(ConfigError::JunctionMismatch);
        }
        let filters: Vec<Vec<i64>> = crate::layers::random_matrix(
            geom.filters,
            fl as usize,
            -ONE,
            ONE,
        );
        let bias: Vec<i64> = crate::layers::random_vector(
            total as usize,
            -CONV_BIAS_INIT,
            CONV_BIAS_INIT,
        );
        let cl = ConvolutionalLayer { geom, filters, bias, act, next: Box::new(next) };
        proof {
            assert forall|f: int| 0 <= f < cl.cv().filters.len() implies (
            #[trigger] cl.cv().filters[f]).len() == flen(geom) && bounded_seq(cl.cv().filters[f])
                by {
                assert(cl.cv().filters[f] == cl.filters@[f]@);
            }
            assert(cv_wf(cl.cv()));
            assert(cl.model() == seq![LayerV::Conv(cl.cv())] + next.model());
            crate::layers::lemma_net_wf_cons(LayerV::Conv(cl.cv()), next.model());
        }
        Ok(cl)
    }
}

} // verus!
