//! The network: an ordered sequence of layers, the forward pass
//! (left to right), the backward pass (right to left, updating each
//! fully-connected layer's parameters in place), and the training
//! loops.

use vstd::prelude::*;

use crate::layer::{updated_weights_bits, Layer, LayerModel};
use crate::scalar::{
    add_bits, fadd, sum_sq_bits, sum_squares, vec_sub, vsub_bits, ZERO_BITS,
};
use crate::Error;

verus! {

/// Every layer of the sequence is well-formed.
pub open spec fn net_wf(ls: Seq<LayerModel>) -> bool {
    forall|i: int| 0 <= i < ls.len() ==> (#[trigger] ls[i]).wf()
}

/// The vector obtained by threading `x` through the first `n` layers.
pub open spec fn value_after(ls: Seq<LayerModel>, x: Seq<u64>, n: int) -> Seq<u64>
    decreases n,
{
    if n <= 0 {
        x
    } else {
        ls[n - 1].forward_out(value_after(ls, x, n - 1))
    }
}

/// Whether each of the first `n` layers accepts the vector the layers
/// before it produce.
pub open spec fn ok_upto(ls: Seq<LayerModel>, x: Seq<u64>, n: int) -> bool
    decreases n,
{
    n <= 0 || (ok_upto(ls, x, n - 1) && ls[n - 1].accepts(value_after(ls, x, n - 1).len() as int))
}

/// The longest prefix of the first `n` layers that a forward pass on
/// `x` runs through before a layer rejects its input.
pub open spec fn run_len(ls: Seq<LayerModel>, x: Seq<u64>, n: int) -> int
    decreases n,
{
    if n <= 0 {
        0
    } else if ok_upto(ls, x, n) {
        n
    } else {
        run_len(ls, x, n - 1)
    }
}

/// The layer sequence after a forward pass on `x` that ran through the
/// first `k` layers: each of those caches its input, the rest are
/// untouched.
pub open spec fn layers_after_forward(ls: Seq<LayerModel>, x: Seq<u64>, k: int) -> Seq<
    LayerModel,
> {
    Seq::new(
        ls.len(),
        |j: int|
            if j < k {
                ls[j].after_forward(value_after(ls, x, j))
            } else {
                ls[j]
            },
    )
}

/// The gradient obtained by threading `d` through the last `n` layers,
/// taken from the back.
pub open spec fn grad_after(ls: Seq<LayerModel>, d: Seq<u64>, n: int) -> Seq<u64>
    decreases n,
{
    if n <= 0 {
        d
    } else {
        ls[ls.len() - n].backward_out(grad_after(ls, d, n - 1))
    }
}

/// Whether each of the last `n` layers, taken from the back, accepts
/// the gradient the layers behind it produce.
pub open spec fn bwd_ok_upto(ls: Seq<LayerModel>, d: Seq<u64>, n: int) -> bool
    decreases n,
{
    n <= 0 || (bwd_ok_upto(ls, d, n - 1) && ls[ls.len() - n].accepts_backward(
        grad_after(ls, d, n - 1).len() as int,
    ))
}

/// The longest suffix of the layers, counted from the back among the
/// last `n`, that a backward pass on `d` runs through before a layer
/// rejects its gradient.
pub open spec fn bwd_run_len(ls: Seq<LayerModel>, d: Seq<u64>, n: int) -> int
    decreases n,
{
    if n <= 0 {
        0
    } else if bwd_ok_upto(ls, d, n) {
        n
    } else {
        bwd_run_len(ls, d, n - 1)
    }
}

/// The layer sequence after a backward pass on `d` that ran through the
/// last `k` layers: each of those took its gradient step and consumed
/// its cache, the rest are untouched.
pub open spec fn layers_after_backward(
    ls: Seq<LayerModel>,
    d: Seq<u64>,
    lr: u64,
    k: int,
) -> Seq<LayerModel> {
    Seq::new(
        ls.len(),
        |j: int|
            if j >= ls.len() - k {
                ls[j].after_backward(grad_after(ls, d, ls.len() - 1 - j), lr)
            } else {
                ls[j]
            },
    )
}

/// A prefix of an accepted run is accepted.
pub proof fn lemma_ok_upto_mono(ls: Seq<LayerModel>, x: Seq<u64>, m: int, n: int)
    requires
        0 <= m <= n,
        ok_upto(ls, x, n),
    ensures
        ok_upto(ls, x, m),
    decreases n,
{
    if m < n {
        lemma_ok_upto_mono(ls, x, m, n - 1);
    }
}

/// `run_len` is the index of the first rejecting layer (or the whole
/// length where none rejects).
pub proof fn lemma_run_len_is(ls: Seq<LayerModel>, x: Seq<u64>, k: int, n: int)
    requires
        0 <= k <= n,
        ok_upto(ls, x, k),
        k < n ==> !ls[k].accepts(value_after(ls, x, k).len() as int),
    ensures
        run_len(ls, x, n) == k,
        k < n ==> !ok_upto(ls, x, n),
    decreases n,
{
    if k < n {
        assert(!ok_upto(ls, x, k + 1));
        if ok_upto(ls, x, n) {
            lemma_ok_upto_mono(ls, x, k + 1, n);
        }
        lemma_run_len_is(ls, x, k, n - 1);
    }
}

/// A back-suffix of an accepted backward run is accepted.
pub proof fn lemma_bwd_ok_upto_mono(ls: Seq<LayerModel>, d: Seq<u64>, m: int, n: int)
    requires
        0 <= m <= n,
        bwd_ok_upto(ls, d, n),
    ensures
        bwd_ok_upto(ls, d, m),
    decreases n,
{
    if m < n {
        lemma_bwd_ok_upto_mono(ls, d, m, n - 1);
    }
}

/// `bwd_run_len` counts the layers, from the back, up to the first one
/// that rejects its gradient (or all of them where none rejects).
pub proof fn lemma_bwd_run_len_is(ls: Seq<LayerModel>, d: Seq<u64>, k: int, n: int)
    requires
        0 <= k <= n,
        n <= ls.len(),
        bwd_ok_upto(ls, d, k),
        k < n ==> !ls[ls.len() - k - 1].accepts_backward(grad_after(ls, d, k).len() as int),
    ensures
        bwd_run_len(ls, d, n) == k,
        k < n ==> !bwd_ok_upto(ls, d, n),
    decreases n,
{
    if k < n {
        assert(!bwd_ok_upto(ls, d, k + 1));
        if bwd_ok_upto(ls, d, n) {
            lemma_bwd_ok_upto_mono(ls, d, k + 1, n);
        }
        lemma_bwd_run_len_is(ls, d, k, n - 1);
    }
}

/// Whether one training step on the pair `(x, t)` goes through: the
/// forward pass accepts `x`, and the target has the output's length.
pub open spec fn epoch_ok(ls: Seq<LayerModel>, x: Seq<u64>, t: Seq<u64>) -> bool {
    ok_upto(ls, x, ls.len() as int) && t.len() == value_after(ls, x, ls.len() as int).len()
}

/// The error seeded into the backward pass of a training step: the
/// network's output minus the target, componentwise.
pub open spec fn epoch_delta(ls: Seq<LayerModel>, x: Seq<u64>, t: Seq<u64>) -> Seq<u64> {
    vsub_bits(value_after(ls, x, ls.len() as int), t)
}

/// The reported loss of a training step: the summed squared error of
/// the output against the target.
pub open spec fn epoch_loss(ls: Seq<LayerModel>, x: Seq<u64>, t: Seq<u64>) -> u64 {
    sum_sq_bits(epoch_delta(ls, x, t))
}

/// The network after one training step on `(x, t)`: a full forward
/// pass, then a full backward pass seeded with the output error.
pub open spec fn epoch_next(ls: Seq<LayerModel>, x: Seq<u64>, t: Seq<u64>, lr: u64) -> Seq<
    LayerModel,
> {
    layers_after_backward(
        layers_after_forward(ls, x, ls.len() as int),
        epoch_delta(ls, x, t),
        lr,
        ls.len() as int,
    )
}

/// The network after `n` training steps on the fixed pair `(x, t)`.
pub open spec fn net_after_epochs(
    ls: Seq<LayerModel>,
    x: Seq<u64>,
    t: Seq<u64>,
    lr: u64,
    n: int,
) -> Seq<LayerModel>
    decreases n,
{
    if n <= 0 {
        ls
    } else {
        epoch_next(net_after_epochs(ls, x, t, lr, n - 1), x, t, lr)
    }
}

/// The per-epoch losses of `n` training steps on the fixed pair
/// `(x, t)`, in order.
pub open spec fn losses_after_epochs(
    ls: Seq<LayerModel>,
    x: Seq<u64>,
    t: Seq<u64>,
    lr: u64,
    n: int,
) -> Seq<u64>
    decreases n,
{
    if n <= 0 {
        Seq::empty()
    } else {
        losses_after_epochs(ls, x, t, lr, n - 1).push(
            epoch_loss(net_after_epochs(ls, x, t, lr, n - 1), x, t),
        )
    }
}

/// Two layers agree in variant and widths.  Training changes weights,
/// biases and caches, never these, and whether a pass is accepted
/// depends on these alone.
pub open spec fn same_dims_layer(a: LayerModel, b: LayerModel) -> bool {
    match (a, b) {
        (LayerModel::FullyConnected(ma), LayerModel::FullyConnected(mb)) => ma.num_inputs
            == mb.num_inputs && ma.num_outputs == mb.num_outputs,
        (LayerModel::Activation(_), LayerModel::Activation(_)) => true,
        _ => false,
    }
}

/// Two layer sequences agree layer by layer in variant and widths.
pub open spec fn same_dims(a: Seq<LayerModel>, b: Seq<LayerModel>) -> bool {
    a.len() == b.len() && forall|i: int|
        0 <= i < a.len() ==> same_dims_layer(#[trigger] a[i], #[trigger] b[i])
}

/// `same_dims` composes.
pub proof fn lemma_same_dims_trans(a: Seq<LayerModel>, b: Seq<LayerModel>, c: Seq<LayerModel>)
    requires
        same_dims(a, b),
        same_dims(b, c),
    ensures
        same_dims(a, c),
{
    assert forall|i: int| 0 <= i < a.len() implies same_dims_layer(
        #[trigger] a[i],
        #[trigger] c[i],
    ) by {
        assert(same_dims_layer(a[i], b[i]));
        assert(same_dims_layer(b[i], c[i]));
    }
}

/// Sequences that agree in dims accept the same forward passes and
/// produce outputs of the same lengths.
pub proof fn lemma_same_dims_observations(
    a: Seq<LayerModel>,
    b: Seq<LayerModel>,
    x: Seq<u64>,
    n: int,
)
    requires
        same_dims(a, b),
        net_wf(a),
        net_wf(b),
        0 <= n <= a.len(),
    ensures
        ok_upto(a, x, n) == ok_upto(b, x, n),
        value_after(a, x, n).len() == value_after(b, x, n).len(),
    decreases n,
{
    if n > 0 {
        lemma_same_dims_observations(a, b, x, n - 1);
        assert(same_dims_layer(a[n - 1], b[n - 1]));
        match (a[n - 1], b[n - 1]) {
            (LayerModel::FullyConnected(ma), LayerModel::FullyConnected(mb)) => {
                assert(value_after(a, x, n).len() == ma.weights.len());
                assert(value_after(b, x, n).len() == mb.weights.len());
            },
            (LayerModel::Activation(_), LayerModel::Activation(_)) => {},
            _ => {
                assert(false);
            },
        }
    }
}

/// One training step never changes a layer's variant or widths.
pub proof fn lemma_epoch_next_same_dims(ls: Seq<LayerModel>, x: Seq<u64>, t: Seq<u64>, lr: u64)
    ensures
        same_dims(ls, epoch_next(ls, x, t, lr)),
{
    let s2 = epoch_next(ls, x, t, lr);
    assert forall|i: int| 0 <= i < ls.len() implies same_dims_layer(
        #[trigger] ls[i],
        #[trigger] s2[i],
    ) by {
        match ls[i] {
            LayerModel::FullyConnected(m) => {},
            LayerModel::Activation(m) => {},
        }
    }
}

/// One accepted training step preserves well-formedness of every
/// layer.
pub proof fn lemma_epoch_next_wf(ls: Seq<LayerModel>, x: Seq<u64>, t: Seq<u64>, lr: u64)
    requires
        net_wf(ls),
        ok_upto(ls, x, ls.len() as int),
    ensures
        net_wf(epoch_next(ls, x, t, lr)),
{
    let n = ls.len() as int;
    let s1 = layers_after_forward(ls, x, n);
    let s2 = epoch_next(ls, x, t, lr);
    assert forall|i: int| 0 <= i < n implies (#[trigger] s2[i]).wf() by {
        lemma_ok_upto_mono(ls, x, i + 1, n);
        match ls[i] {
            LayerModel::FullyConnected(m) => {
                let g = grad_after(s1, epoch_delta(ls, x, t), n - 1 - i);
                let w2 = updated_weights_bits(m.weights, g, value_after(ls, x, i), lr);
                assert forall|j: int| 0 <= j < w2.len() implies (#[trigger] w2[j]).len()
                    == m.num_inputs by {
                    assert(w2[j].len() == m.weights[j].len());
                }
            },
            LayerModel::Activation(m) => {},
        }
    }
}

/// Whether one training step goes through depends on the dims alone.
pub proof fn lemma_epoch_ok_transfer(
    a: Seq<LayerModel>,
    b: Seq<LayerModel>,
    x: Seq<u64>,
    t: Seq<u64>,
)
    requires
        same_dims(a, b),
        net_wf(a),
        net_wf(b),
    ensures
        epoch_ok(a, x, t) == epoch_ok(b, x, t),
{
    lemma_same_dims_observations(a, b, x, a.len() as int);
}

/// After a full forward pass, the matching backward pass is accepted
/// by every layer: success of `backward` is owed whenever a `forward`
/// on the same network went through and the seeded gradient has the
/// output's length.
pub proof fn lemma_backward_total(ls: Seq<LayerModel>, x: Seq<u64>, d: Seq<u64>, m: int)
    requires
        net_wf(ls),
        ok_upto(ls, x, ls.len() as int),
        d.len() == value_after(ls, x, ls.len() as int).len(),
        0 <= m <= ls.len(),
    ensures
        bwd_ok_upto(layers_after_forward(ls, x, ls.len() as int), d, m),
        grad_after(layers_after_forward(ls, x, ls.len() as int), d, m).len() == value_after(
            ls,
            x,
            ls.len() - m,
        ).len(),
    decreases m,
{
    let n = ls.len() as int;
    let s1 = layers_after_forward(ls, x, n);
    if m > 0 {
        lemma_backward_total(ls, x, d, m - 1);
        let j = n - m;
        let g = grad_after(s1, d, m - 1);
        lemma_ok_upto_mono(ls, x, j + 1, n);
        assert(ls[j].accepts(value_after(ls, x, j).len() as int));
        match ls[j] {
            LayerModel::FullyConnected(mm) => {
                assert(value_after(ls, x, j + 1).len() == mm.weights.len());
                assert(s1[j].accepts_backward(g.len() as int));
                assert(grad_after(s1, d, m).len() == mm.num_inputs);
            },
            LayerModel::Activation(am) => {
                assert(value_after(ls, x, j + 1).len() == value_after(ls, x, j).len());
                assert(s1[j].accepts_backward(g.len() as int));
            },
        }
    }
}

/// How many input/target pairs a batch run uses: pairs beyond the
/// shorter of the two lists are ignored.
pub open spec fn sample_count(xs: Seq<Seq<u64>>, ts: Seq<Seq<u64>>) -> int {
    if xs.len() <= ts.len() {
        xs.len() as int
    } else {
        ts.len() as int
    }
}

/// The network after training on the first `k` sample pairs, one full
/// step per sample in order: parameters update after every sample.
pub open spec fn net_after_samples(
    ls: Seq<LayerModel>,
    xs: Seq<Seq<u64>>,
    ts: Seq<Seq<u64>>,
    lr: u64,
    k: int,
) -> Seq<LayerModel>
    decreases k,
{
    if k <= 0 {
        ls
    } else {
        epoch_next(net_after_samples(ls, xs, ts, lr, k - 1), xs[k - 1], ts[k - 1], lr)
    }
}

/// Whether each of the first `k` sample steps goes through, each
/// against the network state the steps before it produce.
pub open spec fn samples_ok(
    ls: Seq<LayerModel>,
    xs: Seq<Seq<u64>>,
    ts: Seq<Seq<u64>>,
    lr: u64,
    k: int,
) -> bool
    decreases k,
{
    if k <= 0 {
        true
    } else {
        samples_ok(ls, xs, ts, lr, k - 1) && epoch_ok(
            net_after_samples(ls, xs, ts, lr, k - 1),
            xs[k - 1],
            ts[k - 1],
        )
    }
}

/// The number of sample steps, at most `n`, that go through before one
/// fails.
pub open spec fn first_bad_sample(
    ls: Seq<LayerModel>,
    xs: Seq<Seq<u64>>,
    ts: Seq<Seq<u64>>,
    lr: u64,
    n: int,
) -> int
    decreases n,
{
    if n <= 0 {
        0
    } else if samples_ok(ls, xs, ts, lr, n) {
        n
    } else {
        first_bad_sample(ls, xs, ts, lr, n - 1)
    }
}

/// The total loss of one batch epoch over the first `k` samples,
/// folded from the left starting at zero.
pub open spec fn batch_loss(
    ls: Seq<LayerModel>,
    xs: Seq<Seq<u64>>,
    ts: Seq<Seq<u64>>,
    lr: u64,
    k: int,
) -> u64
    decreases k,
{
    if k <= 0 {
        ZERO_BITS
    } else {
        add_bits(
            batch_loss(ls, xs, ts, lr, k - 1),
            epoch_loss(net_after_samples(ls, xs, ts, lr, k - 1), xs[k - 1], ts[k - 1]),
        )
    }
}

/// The network after `n` batch epochs over the first `m` samples.
pub open spec fn net_after_batch_epochs(
    ls: Seq<LayerModel>,
    xs: Seq<Seq<u64>>,
    ts: Seq<Seq<u64>>,
    lr: u64,
    m: int,
    n: int,
) -> Seq<LayerModel>
    decreases n,
{
    if n <= 0 {
        ls
    } else {
        net_after_samples(net_after_batch_epochs(ls, xs, ts, lr, m, n - 1), xs, ts, lr, m)
    }
}

/// The per-epoch total losses of `n` batch epochs, in order.
pub open spec fn batch_losses(
    ls: Seq<LayerModel>,
    xs: Seq<Seq<u64>>,
    ts: Seq<Seq<u64>>,
    lr: u64,
    m: int,
    n: int,
) -> Seq<u64>
    decreases n,
{
    if n <= 0 {
        Seq::empty()
    } else {
        batch_losses(ls, xs, ts, lr, m, n - 1).push(
            batch_loss(net_after_batch_epochs(ls, xs, ts, lr, m, n - 1), xs, ts, lr, m),
        )
    }
}

/// `same_dims` is symmetric.
pub proof fn lemma_same_dims_sym(a: Seq<LayerModel>, b: Seq<LayerModel>)
    requires
        same_dims(a, b),
    ensures
        same_dims(b, a),
{
    assert forall|i: int| 0 <= i < b.len() implies same_dims_layer(
        #[trigger] b[i],
        #[trigger] a[i],
    ) by {
        assert(same_dims_layer(a[i], b[i]));
    }
}

/// Sample steps never change a layer's variant or widths.
pub proof fn lemma_net_after_samples_same_dims(
    ls: Seq<LayerModel>,
    xs: Seq<Seq<u64>>,
    ts: Seq<Seq<u64>>,
    lr: u64,
    k: int,
)
    requires
        k >= 0,
    ensures
        same_dims(ls, net_after_samples(ls, xs, ts, lr, k)),
    decreases k,
{
    if k <= 0 {
        assert forall|i: int| 0 <= i < ls.len() implies same_dims_layer(
            #[trigger] ls[i],
            #[trigger] ls[i],
        ) by {
            match ls[i] {
                LayerModel::FullyConnected(m) => {},
                LayerModel::Activation(m) => {},
            }
        }
    } else {
        let prev = net_after_samples(ls, xs, ts, lr, k - 1);
        lemma_net_after_samples_same_dims(ls, xs, ts, lr, k - 1);
        lemma_epoch_next_same_dims(prev, xs[k - 1], ts[k - 1], lr);
        lemma_same_dims_trans(ls, prev, net_after_samples(ls, xs, ts, lr, k));
    }
}

/// Accepted sample steps preserve well-formedness.
pub proof fn lemma_net_after_samples_wf(
    ls: Seq<LayerModel>,
    xs: Seq<Seq<u64>>,
    ts: Seq<Seq<u64>>,
    lr: u64,
    k: int,
)
    requires
        k >= 0,
        net_wf(ls),
        samples_ok(ls, xs, ts, lr, k),
    ensures
        net_wf(net_after_samples(ls, xs, ts, lr, k)),
    decreases k,
{
    if k > 0 {
        lemma_net_after_samples_wf(ls, xs, ts, lr, k - 1);
        lemma_epoch_next_wf(net_after_samples(ls, xs, ts, lr, k - 1), xs[k - 1], ts[k - 1], lr);
    }
}

/// A prefix of an accepted sample run is accepted.
pub proof fn lemma_samples_ok_mono(
    ls: Seq<LayerModel>,
    xs: Seq<Seq<u64>>,
    ts: Seq<Seq<u64>>,
    lr: u64,
    m: int,
    n: int,
)
    requires
        0 <= m <= n,
        samples_ok(ls, xs, ts, lr, n),
    ensures
        samples_ok(ls, xs, ts, lr, m),
    decreases n,
{
    if m < n {
        lemma_samples_ok_mono(ls, xs, ts, lr, m, n - 1);
    }
}

/// Whether the sample run goes through depends on the dims alone.
pub proof fn lemma_samples_ok_transfer(
    a: Seq<LayerModel>,
    b: Seq<LayerModel>,
    xs: Seq<Seq<u64>>,
    ts: Seq<Seq<u64>>,
    lr: u64,
    k: int,
)
    requires
        k >= 0,
        same_dims(a, b),
        net_wf(a),
        net_wf(b),
        samples_ok(a, xs, ts, lr, k),
    ensures
        samples_ok(b, xs, ts, lr, k),
    decreases k,
{
    if k > 0 {
        lemma_samples_ok_mono(a, xs, ts, lr, k - 1, k);
        lemma_samples_ok_transfer(a, b, xs, ts, lr, k - 1);
        let ak = net_after_samples(a, xs, ts, lr, k - 1);
        let bk = net_after_samples(b, xs, ts, lr, k - 1);
        lemma_net_after_samples_wf(a, xs, ts, lr, k - 1);
        lemma_net_after_samples_wf(b, xs, ts, lr, k - 1);
        lemma_net_after_samples_same_dims(a, xs, ts, lr, k - 1);
        lemma_net_after_samples_same_dims(b, xs, ts, lr, k - 1);
        lemma_same_dims_sym(a, ak);
        lemma_same_dims_trans(ak, a, b);
        lemma_same_dims_trans(ak, b, bk);
        lemma_epoch_ok_transfer(ak, bk, xs[k - 1], ts[k - 1]);
    }
}

/// `first_bad_sample` is the index of the first failing sample step
/// (or the whole count where none fails).
pub proof fn lemma_first_bad_is(
    ls: Seq<LayerModel>,
    xs: Seq<Seq<u64>>,
    ts: Seq<Seq<u64>>,
    lr: u64,
    k: int,
    n: int,
)
    requires
        0 <= k <= n,
        samples_ok(ls, xs, ts, lr, k),
        k < n ==> !epoch_ok(net_after_samples(ls, xs, ts, lr, k), xs[k], ts[k]),
    ensures
        first_bad_sample(ls, xs, ts, lr, n) == k,
        k < n ==> !samples_ok(ls, xs, ts, lr, n),
    decreases n,
{
    if k < n {
        assert(!samples_ok(ls, xs, ts, lr, k + 1));
        if samples_ok(ls, xs, ts, lr, n) {
            lemma_samples_ok_mono(ls, xs, ts, lr, k + 1, n);
        }
        lemma_first_bad_is(ls, xs, ts, lr, k, n - 1);
    }
}

/// Running `forward` twice with the same input on an otherwise
/// unmutated network yields identical intermediate and final values
/// both times, and the second pass is accepted exactly as far as the
/// first: a forward pass changes only the layers' caches, however far
/// (`k` layers) it ran, and no output depends on a cache.
pub proof fn lemma_net_forward_idempotent(ls: Seq<LayerModel>, x: Seq<u64>, k: int, n: int)
    requires
        0 <= n <= ls.len(),
    ensures
        value_after(layers_after_forward(ls, x, k), x, n) == value_after(ls, x, n),
        ok_upto(layers_after_forward(ls, x, k), x, n) == ok_upto(ls, x, n),
    decreases n,
{
    if n > 0 {
        lemma_net_forward_idempotent(ls, x, k, n - 1);
        if n - 1 < k {
            crate::layer::lemma_forward_idempotent(ls[n - 1], value_after(ls, x, n - 1));
            assert(layers_after_forward(ls, x, k)[n - 1] == ls[n - 1].after_forward(
                value_after(ls, x, n - 1),
            ));
        }
    }
}

/// A sample step that fails can only fail in the first batch epoch,
/// and then pins down the first failing sample.
proof fn lemma_batch_reject(
    ls0: Seq<LayerModel>,
    se: Seq<LayerModel>,
    xs: Seq<Seq<u64>>,
    ts: Seq<Seq<u64>>,
    lr: u64,
    k: int,
    m: int,
    e: int,
)
    requires
        0 <= k < m,
        e >= 0,
        net_wf(ls0),
        net_wf(se),
        same_dims(ls0, se),
        samples_ok(se, xs, ts, lr, k),
        !epoch_ok(net_after_samples(se, xs, ts, lr, k), xs[k], ts[k]),
        e > 0 ==> samples_ok(ls0, xs, ts, lr, m),
        e == 0 ==> se == ls0,
    ensures
        e == 0,
        se == ls0,
        !samples_ok(ls0, xs, ts, lr, m),
        first_bad_sample(ls0, xs, ts, lr, m) == k,
{
    if e > 0 {
        lemma_samples_ok_mono(ls0, xs, ts, lr, k + 1, m);
        lemma_samples_ok_mono(ls0, xs, ts, lr, k, k + 1);
        let ak = net_after_samples(ls0, xs, ts, lr, k);
        let bk = net_after_samples(se, xs, ts, lr, k);
        lemma_net_after_samples_wf(ls0, xs, ts, lr, k);
        lemma_net_after_samples_wf(se, xs, ts, lr, k);
        lemma_net_after_samples_same_dims(ls0, xs, ts, lr, k);
        lemma_net_after_samples_same_dims(se, xs, ts, lr, k);
        lemma_same_dims_sym(ls0, ak);
        lemma_same_dims_trans(ak, ls0, se);
        lemma_same_dims_trans(ak, se, bk);
        lemma_epoch_ok_transfer(ak, bk, xs[k], ts[k]);
        assert(false);
    }
    lemma_first_bad_is(ls0, xs, ts, lr, k, m);
}

/// Runs the forward pass of layer `i` alone, leaving every other
/// layer untouched.
fn step_forward(v: &mut Vec<Layer>, i: usize, current: &Vec<u64>) -> (r: Result<Vec<u64>, Error>)
    requires
        i < old(v).len(),
        old(v).deep_view()[i as int].wf(),
    ensures
        final(v)@.len() == old(v)@.len(),
        final(v).deep_view()[i as int].wf(),
        forall|j: int|
            0 <= j < old(v)@.len() && j != i ==> final(v).deep_view()[j] == old(v).deep_view()[j],
        old(v).deep_view()[i as int].accepts(current@.len() as int) ==> (r matches Ok(out)
            && out@ == old(v).deep_view()[i as int].forward_out(current@)
            && final(v).deep_view()[i as int] == old(v).deep_view()[i as int].after_forward(
            current@,
        )),
        !old(v).deep_view()[i as int].accepts(current@.len() as int) ==> (r == Err::<
            Vec<u64>,
            Error,
        >(Error::ShapeMismatch) && final(v).deep_view()[i as int] == old(v).deep_view()[i as int]),
    {
    proof {
        assert(old(v).deep_view()[i as int] == old(v)@[i as int]@);
    }
    let l = &mut v[i];
    let r = l.forward(current);
    proof {
        assert forall|j: int| 0 <= j < v@.len() implies v.deep_view()[j] == v@[j]@ by {}
    }
    r
}

/// Runs the backward pass of layer `i` alone, leaving every other
/// layer untouched.
fn step_backward(v: &mut Vec<Layer>, i: usize, delta: &Vec<u64>, learning_rate: u64) -> (r: Result<
    Vec<u64>,
    Error,
>)
    requires
        i < old(v).len(),
        old(v).deep_view()[i as int].wf(),
    ensures
        final(v)@.len() == old(v)@.len(),
        final(v).deep_view()[i as int].wf(),
        forall|j: int|
            0 <= j < old(v)@.len() && j != i ==> final(v).deep_view()[j] == old(v).deep_view()[j],
        old(v).deep_view()[i as int].accepts_backward(delta@.len() as int) ==> (r matches Ok(dx)
            && dx@ == old(v).deep_view()[i as int].backward_out(delta@)
            && final(v).deep_view()[i as int] == old(v).deep_view()[i as int].after_backward(
            delta@,
            learning_rate,
        )),
        !old(v).deep_view()[i as int].accepts_backward(delta@.len() as int) ==> (r is Err
            && final(v).deep_view()[i as int] == old(v).deep_view()[i as int]),
        old(v).deep_view()[i as int].cache_absent() ==> r == Err::<Vec<u64>, Error>(
            Error::MissingCache,
        ),
        !old(v).deep_view()[i as int].cache_absent() && !old(v).deep_view()[
            i as int
        ].accepts_backward(delta@.len() as int) ==> r == Err::<Vec<u64>, Error>(
            Error::ShapeMismatch,
        ),
    {
    proof {
        assert(old(v).deep_view()[i as int] == old(v)@[i as int]@);
    }
    let l = &mut v[i];
    let r = l.backward(delta, learning_rate);
    proof {
        assert forall|j: int| 0 <= j < v@.len() implies v.deep_view()[j] == v@[j]@ by {}
    }
    r
}

/// A multi-layer network: the ordered sequence of its layers.
pub struct MLP {
    pub layers: Vec<Layer>,
}

impl View for MLP {
    type V = Seq<LayerModel>;

    open spec fn view(&self) -> Seq<LayerModel> {
        self.layers.deep_view()
    }
}

impl MLP {
    /// An empty network.
    pub fn new() -> (r: MLP)
        ensures
            r@ =~= Seq::<LayerModel>::empty(),
    {
        MLP { layers: Vec::new() }
    }

    /// Appends a layer.  No shape validation happens here; a mismatch
    /// surfaces at the first forward or backward pass that meets it.
    pub fn add_layer(&mut self, layer: Layer)
        ensures
            final(self)@ == old(self)@.push(layer@),
    {
        let ghost pre = self@;
        let ghost lm = layer@;
        self.layers.push(layer);
        proof {
            assert(self@ =~= pre.push(lm));
        }
    }

    /// Removes the last layer; an empty network is left as it is.
    pub fn remove_layer(&mut self)
        ensures
            old(self)@.len() > 0 ==> final(self)@ == old(self)@.drop_last(),
            old(self)@.len() == 0 ==> final(self)@ == old(self)@,
    {
        let ghost pre = self@;
        if self.layers.len() > 0 {
            self.layers.pop();
            proof {
                assert(self@ =~= pre.drop_last());
            }
        }
    }

    /// The number of layers.
    pub fn num_layers(&self) -> (r: usize)
        ensures
            r == self@.len(),
    {
        self.layers.len()
    }

    /// Threads `input` through every layer in insertion order; each
    /// layer caches its own input as a side effect.  The first layer
    /// whose input width disagrees with the vector it is handed stops
    /// the pass with a shape mismatch, the layers before it keeping
    /// their new caches.
    #[verifier::loop_isolation(false)]
    pub fn forward(&mut self, input: &Vec<u64>) -> (r: Result<Vec<u64>, Error>)
        requires
            net_wf(old(self)@),
        ensures
            net_wf(final(self)@),
            final(self)@ == layers_after_forward(
                old(self)@,
                input@,
                run_len(old(self)@, input@, old(self)@.len() as int),
            ),
            ok_upto(old(self)@, input@, old(self)@.len() as int) ==> (r matches Ok(out)
                && out@ == value_after(old(self)@, input@, old(self)@.len() as int)),
            !ok_upto(old(self)@, input@, old(self)@.len() as int) ==> r == Err::<Vec<u64>, Error>(
                Error::ShapeMismatch,
            ),
    {
        let ghost ls0 = self@;
        let n = self.layers.len();
        let mut current: Vec<u64> = input.clone();
        proof {
            assert(current@ == input@);
        }
        let mut i: usize = 0;
        while i < n
            invariant
                i <= n,
                n == self.layers@.len(),
                ls0.len() == n,
                net_wf(ls0),
                net_wf(self@),
                ok_upto(ls0, input@, i as int),
                current@ == value_after(ls0, input@, i as int),
                self@ =~= layers_after_forward(ls0, input@, i as int),
            decreases n - i,
        {
            let ghost prev = self@;
            proof {
                assert(prev[i as int] == ls0[i as int]);
                assert(prev[i as int].wf());
            }
            let res = step_forward(&mut self.layers, i, &current);
            match res {
                Ok(out) => {
                    proof {
                        assert(ls0[i as int].accepts(current@.len() as int));
                        assert(ok_upto(ls0, input@, i + 1));
                        assert forall|j: int| 0 <= j < n implies #[trigger] self@[j]
                            == layers_after_forward(ls0, input@, i + 1)[j] by {
                            if j != i {
                                assert(self@[j] == prev[j]);
                                assert(prev[j] == layers_after_forward(ls0, input@, i as int)[j]);
                            }
                        }
                        assert(self@ =~= layers_after_forward(ls0, input@, i + 1));
                        assert(net_wf(self@));
                    }
                    current = out;
                    i = i + 1;
                },
                Err(e) => {
                    proof {
                        assert(!ls0[i as int].accepts(current@.len() as int));
                        lemma_run_len_is(ls0, input@, i as int, n as int);
                        assert forall|j: int| 0 <= j < n implies #[trigger] self@[j]
                            == layers_after_forward(ls0, input@, i as int)[j] by {
                            if j != i {
                                assert(self@[j] == prev[j]);
                            }
                        }
                        assert(self@ =~= layers_after_forward(ls0, input@, i as int));
                    }
                    return Err(e);
                },
            }
        }
        proof {
            assert(run_len(ls0, input@, n as int) == n);
        }
        Ok(current)
    }

    /// Threads a gradient through every layer in reverse insertion
    /// order; every fully-connected layer takes its gradient step as
    /// the pass visits it.  The first layer that rejects the gradient
    /// (missing cache, or a width mismatch) stops the pass with that
    /// error, the layers behind it keeping their updates.
    #[verifier::loop_isolation(false)]
    pub fn backward(&mut self, output_delta: &Vec<u64>, learning_rate: u64) -> (r: Result<
        (),
        Error,
    >)
        requires
            net_wf(old(self)@),
        ensures
            net_wf(final(self)@),
            final(self)@ == layers_after_backward(
                old(self)@,
                output_delta@,
                learning_rate,
                bwd_run_len(old(self)@, output_delta@, old(self)@.len() as int),
            ),
            bwd_ok_upto(old(self)@, output_delta@, old(self)@.len() as int) ==> r == Ok::<
                (),
                Error,
            >(()),
            !bwd_ok_upto(old(self)@, output_delta@, old(self)@.len() as int) ==> (r is Err && (
            old(self)@[old(self)@.len() - 1 - bwd_run_len(
                old(self)@,
                output_delta@,
                old(self)@.len() as int,
            )].cache_absent() ==> r == Err::<(), Error>(Error::MissingCache)) && (!old(
                self,
            )@[old(self)@.len() - 1 - bwd_run_len(
                old(self)@,
                output_delta@,
                old(self)@.len() as int,
            )].cache_absent() ==> r == Err::<(), Error>(Error::ShapeMismatch))),
    {
        let ghost ls0 = self@;
        let n = self.layers.len();
        let mut current: Vec<u64> = output_delta.clone();
        proof {
            assert(current@ == output_delta@);
        }
        let mut k: usize = 0;
        while k < n
            invariant
                k <= n,
                n == self.layers@.len(),
                ls0.len() == n,
                net_wf(ls0),
                net_wf(self@),
                bwd_ok_upto(ls0, output_delta@, k as int),
                current@ == grad_after(ls0, output_delta@, k as int),
                self@ =~= layers_after_backward(ls0, output_delta@, learning_rate, k as int),
            decreases n - k,
        {
            let i = n - 1 - k;
            let ghost prev = self@;
            proof {
                assert(prev[i as int] == ls0[i as int]);
                assert(prev[i as int].wf());
            }
            let res = step_backward(&mut self.layers, i, &current, learning_rate);
            match res {
                Ok(dx) => {
                    proof {
                        assert(ls0[i as int].accepts_backward(current@.len() as int));
                        assert(bwd_ok_upto(ls0, output_delta@, k + 1));
                        assert(n - 1 - (i as int) == k as int);
                        assert forall|j: int| 0 <= j < n implies #[trigger] self@[j]
                            == layers_after_backward(ls0, output_delta@, learning_rate, k + 1)[j]
                            by {
                            if j != i {
                                assert(self@[j] == prev[j]);
                                assert(prev[j] == layers_after_backward(
                                    ls0,
                                    output_delta@,
                                    learning_rate,
                                    k as int,
                                )[j]);
                            }
                        }
                        assert(self@ =~= layers_after_backward(
                            ls0,
                            output_delta@,
                            learning_rate,
                            k + 1,
                        ));
                        assert(net_wf(self@));
                    }
                    current = dx;
                    k = k + 1;
                },
                Err(e) => {
                    proof {
                        assert(!ls0[i as int].accepts_backward(current@.len() as int));
                        lemma_bwd_run_len_is(ls0, output_delta@, k as int, n as int);
                        assert(bwd_run_len(ls0, output_delta@, n as int) == k as int);
                        assert(n - 1 - (k as int) == i as int);
                        assert(ls0[i as int].cache_absent() ==> e == Error::MissingCache);
                        assert(!ls0[i as int].cache_absent() ==> e == Error::ShapeMismatch);
                        assert forall|j: int| 0 <= j < n implies #[trigger] self@[j]
                            == layers_after_backward(ls0, output_delta@, learning_rate, k as int)[j]
                            by {
                            if j != i {
                                assert(self@[j] == prev[j]);
                            }
                        }
                        assert(self@ =~= layers_after_backward(
                            ls0,
                            output_delta@,
                            learning_rate,
                            k as int,
                        ));
                    }
                    return Err(e);
                },
            }
        }
        proof {
            assert(bwd_run_len(ls0, output_delta@, n as int) == n as int);
        }
        Ok(())
    }

    /// Trains on one fixed input/target pair for `epochs` epochs: each
    /// epoch runs a forward pass, seeds the backward pass with the
    /// output minus the target (the mean-squared-error gradient up to
    /// its constant factor, which folds into the learning rate), and
    /// reports the summed squared error of that epoch.  The returned
    /// vector holds one loss per epoch.
    ///
    /// A first epoch that fails — the forward pass rejects the input,
    /// or the target does not have the output's length — stops training
    /// with a shape mismatch; since a training step changes no layer's
    /// widths, a later epoch can fail only if the first does.
    #[verifier::loop_isolation(false)]
    pub fn train(
        &mut self,
        input: &Vec<u64>,
        target: &Vec<u64>,
        learning_rate: u64,
        epochs: usize,
    ) -> (r: Result<Vec<u64>, Error>)
        requires
            net_wf(old(self)@),
        ensures
            net_wf(final(self)@),
            epochs == 0 ==> (r matches Ok(losses) && losses@ == Seq::<u64>::empty()
                && final(self)@ == old(self)@),
            epochs > 0 && epoch_ok(old(self)@, input@, target@) ==> (r matches Ok(losses)
                && losses@ == losses_after_epochs(
                old(self)@,
                input@,
                target@,
                learning_rate,
                epochs as int,
            ) && final(self)@ == net_after_epochs(
                old(self)@,
                input@,
                target@,
                learning_rate,
                epochs as int,
            )),
            epochs > 0 && !epoch_ok(old(self)@, input@, target@) ==> (r == Err::<Vec<u64>, Error>(
                Error::ShapeMismatch,
            ) && final(self)@ == layers_after_forward(
                old(self)@,
                input@,
                run_len(old(self)@, input@, old(self)@.len() as int),
            )),
    {
        let ghost ls0 = self@;
        let ghost n = self@.len() as int;
        let mut losses: Vec<u64> = Vec::new();
        let mut e: usize = 0;
        while e < epochs
            invariant
                e <= epochs,
                net_wf(self@),
                same_dims(ls0, self@),
                self@ == net_after_epochs(ls0, input@, target@, learning_rate, e as int),
                losses@ == losses_after_epochs(ls0, input@, target@, learning_rate, e as int),
                e > 0 ==> epoch_ok(ls0, input@, target@),
            decreases epochs - e,
        {
            let ghost cur = self@;
            let out = match self.forward(input) {
                Ok(out) => out,
                Err(err) => {
                    proof {
                        if e > 0 {
                            lemma_epoch_ok_transfer(ls0, cur, input@, target@);
                            assert(false);
                        }
                    }
                    return Err(err);
                },
            };
            if out.len() != target.len() {
                proof {
                    if e > 0 {
                        lemma_epoch_ok_transfer(ls0, cur, input@, target@);
                        assert(false);
                    }
                    assert(run_len(ls0, input@, n) == n);
                }
                return Err(Error::ShapeMismatch);
            }
            let delta = vec_sub(&out, target);
            let loss = sum_squares(&delta);
            losses.push(loss);
            let ghost s1 = self@;
            proof {
                assert(s1 == layers_after_forward(cur, input@, cur.len() as int));
                lemma_backward_total(cur, input@, delta@, cur.len() as int);
                assert(bwd_ok_upto(s1, delta@, s1.len() as int));
            }
            match self.backward(&delta, learning_rate) {
                Ok(()) => {},
                Err(_) => {
                    proof {
                        assert(false);
                    }
                    return Err(Error::ShapeMismatch);
                },
            }
            proof {
                assert(bwd_run_len(s1, delta@, s1.len() as int) == s1.len() as int);
                assert(self@ == epoch_next(cur, input@, target@, learning_rate));
                lemma_epoch_next_same_dims(cur, input@, target@, learning_rate);
                lemma_same_dims_trans(ls0, cur, self@);
                assert(epoch_ok(cur, input@, target@));
                if e > 0 {
                } else {
                    assert(cur == ls0);
                }
                assert(epoch_ok(ls0, input@, target@)) by {
                    lemma_epoch_ok_transfer(ls0, cur, input@, target@);
                }
                assert(losses@ == losses_after_epochs(
                    ls0,
                    input@,
                    target@,
                    learning_rate,
                    e + 1,
                ));
            }
            e = e + 1;
        }
        Ok(losses)
    }

    /// Trains on a list of input/target pairs for `epochs` epochs.
    /// Despite the batch in the name, updates are online: every sample
    /// runs a full forward and backward pass and the parameters update
    /// immediately, sample by sample in order.  Pairs beyond the
    /// shorter of the two lists are ignored.  The returned vector holds
    /// one total loss (the sum of the per-sample summed squared
    /// errors) per epoch.
    ///
    /// A first epoch in which some sample fails — its forward pass
    /// rejects the input, or its target does not have the output's
    /// length — stops training with a shape mismatch at that sample;
    /// since a sample step changes no layer's widths, a later epoch can
    /// fail only if the first does.
    #[verifier::loop_isolation(false)]
    pub fn train_batch(
        &mut self,
        inputs: &Vec<Vec<u64>>,
        targets: &Vec<Vec<u64>>,
        learning_rate: u64,
        epochs: usize,
    ) -> (r: Result<Vec<u64>, Error>)
        requires
            net_wf(old(self)@),
        ensures
            net_wf(final(self)@),
            epochs == 0 ==> (r matches Ok(losses) && losses@ == Seq::<u64>::empty()
                && final(self)@ == old(self)@),
            epochs > 0 && samples_ok(
                old(self)@,
                inputs.deep_view(),
                targets.deep_view(),
                learning_rate,
                sample_count(inputs.deep_view(), targets.deep_view()),
            ) ==> (r matches Ok(losses) && losses@ == batch_losses(
                old(self)@,
                inputs.deep_view(),
                targets.deep_view(),
                learning_rate,
                sample_count(inputs.deep_view(), targets.deep_view()),
                epochs as int,
            ) && final(self)@ == net_after_batch_epochs(
                old(self)@,
                inputs.deep_view(),
                targets.deep_view(),
                learning_rate,
                sample_count(inputs.deep_view(), targets.deep_view()),
                epochs as int,
            )),
            epochs > 0 && !samples_ok(
                old(self)@,
                inputs.deep_view(),
                targets.deep_view(),
                learning_rate,
                sample_count(inputs.deep_view(), targets.deep_view()),
            ) ==> (r == Err::<Vec<u64>, Error>(Error::ShapeMismatch) && final(self)@ == ({
                let xs = inputs.deep_view();
                let ts = targets.deep_view();
                let bad = first_bad_sample(
                    old(self)@,
                    xs,
                    ts,
                    learning_rate,
                    sample_count(xs, ts),
                );
                let at_bad = net_after_samples(old(self)@, xs, ts, learning_rate, bad);
                layers_after_forward(
                    at_bad,
                    xs[bad],
                    run_len(at_bad, xs[bad], at_bad.len() as int),
                )
            })),
    {
        let ghost ls0 = self@;
        let ghost xs = inputs.deep_view();
        let ghost ts = targets.deep_view();
        let m = if inputs.len() <= targets.len() {
            inputs.len()
        } else {
            targets.len()
        };
        proof {
            assert(m as int == sample_count(xs, ts));
        }
        let mut losses: Vec<u64> = Vec::new();
        let mut e: usize = 0;
        while e < epochs
            invariant
                e <= epochs,
                net_wf(self@),
                same_dims(ls0, self@),
                self@ == net_after_batch_epochs(ls0, xs, ts, learning_rate, m as int, e as int),
                losses@ == batch_losses(ls0, xs, ts, learning_rate, m as int, e as int),
                e > 0 ==> samples_ok(ls0, xs, ts, learning_rate, m as int),
            decreases epochs - e,
        {
            let ghost se = self@;
            let mut total: u64 = ZERO_BITS;
            let mut k: usize = 0;
            while k < m
                invariant
                    k <= m,
                    net_wf(self@),
                    same_dims(ls0, self@),
                    net_wf(se),
                    same_dims(ls0, se),
                    self@ == net_after_samples(se, xs, ts, learning_rate, k as int),
                    samples_ok(se, xs, ts, learning_rate, k as int),
                    total == batch_loss(se, xs, ts, learning_rate, k as int),
                decreases m - k,
            {
                let ghost cur = self@;
                let sample_input = &inputs[k];
                let sample_target = &targets[k];
                proof {
                    assert(sample_input@ == xs[k as int]);
                    assert(sample_target@ == ts[k as int]);
                }
                let out = match self.forward(sample_input) {
                    Ok(out) => out,
                    Err(err) => {
                        proof {
                            lemma_batch_reject(
                                ls0,
                                se,
                                xs,
                                ts,
                                learning_rate,
                                k as int,
                                m as int,
                                e as int,
                            );
                        }
                        return Err(err);
                    },
                };
                if out.len() != sample_target.len() {
                    proof {
                        assert(run_len(cur, xs[k as int], cur.len() as int) == cur.len() as int);
                        lemma_batch_reject(
                            ls0,
                            se,
                            xs,
                            ts,
                            learning_rate,
                            k as int,
                            m as int,
                            e as int,
                        );
                    }
                    return Err(Error::ShapeMismatch);
                }
                let delta = vec_sub(&out, sample_target);
                let loss = sum_squares(&delta);
                total = fadd(total, loss);
                let ghost s1 = self@;
                proof {
                    lemma_backward_total(cur, xs[k as int], delta@, cur.len() as int);
                    assert(bwd_ok_upto(s1, delta@, s1.len() as int));
                }
                match self.backward(&delta, learning_rate) {
                    Ok(()) => {},
                    Err(_) => {
                        proof {
                            assert(false);
                        }
                        return Err(Error::ShapeMismatch);
                    },
                }
                proof {
                    assert(bwd_run_len(s1, delta@, s1.len() as int) == s1.len() as int);
                    assert(self@ == epoch_next(cur, xs[k as int], ts[k as int], learning_rate));
                    lemma_epoch_next_same_dims(cur, xs[k as int], ts[k as int], learning_rate);
                    lemma_same_dims_trans(ls0, cur, self@);
                    assert(epoch_ok(cur, xs[k as int], ts[k as int]));
                    assert(samples_ok(se, xs, ts, learning_rate, k + 1));
                }
                k = k + 1;
            }
            losses.push(total);
            proof {
                if e == 0 {
                    assert(se == ls0);
                } else {
                    lemma_same_dims_sym(ls0, se);
                    lemma_samples_ok_transfer(se, ls0, xs, ts, learning_rate, m as int);
                }
                assert(samples_ok(ls0, xs, ts, learning_rate, m as int));
            }
            e = e + 1;
        }
        Ok(losses)
    }
}

} // verus!
