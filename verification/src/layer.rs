//! The layers of the network: the fully-connected layer (a learnable
//! linear transform) and the activation layer (a pointwise
//! nonlinearity), together with the closed `Layer` sum over them.
//!
//! Each layer caches the input of its most recent forward pass; the
//! next backward pass consumes that cache, so a backward pass without a
//! preceding forward pass fails with a missing-cache error.  A vector
//! whose length disagrees with the width a layer expects fails with a
//! shape-mismatch error and leaves the layer unchanged.

use vstd::prelude::*;

use crate::activation::ActivationKind;
use crate::scalar::{
    add_bits, div_bits, dot, dot_bits, fadd, fdiv, fmul, fsqrt, fsub, from_usize, mul_bits,
    sqrt_bits, sub_bits, usize_bits, ONE_BITS, SIX_BITS, ZERO_BITS,
};
use crate::Error;

verus! {

/// The result of applying the weight matrix and the bias to an input:
/// component `j` is the dot product of row `j` with the input, plus the
/// `j`-th bias component.
pub open spec fn affine_bits(w: Seq<Seq<u64>>, b: Seq<u64>, x: Seq<u64>) -> Seq<u64> {
    Seq::new(w.len(), |j: int| add_bits(dot_bits(w[j], x), b[j]))
}

/// Column `i` of the matrix `w`.
pub open spec fn col_bits(w: Seq<Seq<u64>>, i: int) -> Seq<u64> {
    Seq::new(w.len(), |j: int| w[j][i])
}

/// The transposed matrix applied to a vector: component `i` is the dot
/// product of column `i` with `d`.
pub open spec fn matt_vec_bits(w: Seq<Seq<u64>>, num_inputs: nat, d: Seq<u64>) -> Seq<u64> {
    Seq::new(num_inputs, |i: int| dot_bits(col_bits(w, i), d))
}

/// The weight matrix after one gradient step: entry `(j, i)` moves
/// against the outer product of the incoming gradient and the cached
/// input, scaled by the learning rate.
pub open spec fn updated_weights_bits(
    w: Seq<Seq<u64>>,
    d: Seq<u64>,
    x: Seq<u64>,
    lr: u64,
) -> Seq<Seq<u64>> {
    Seq::new(
        w.len(),
        |j: int|
            Seq::new(
                w[j].len(),
                |i: int| sub_bits(w[j][i], mul_bits(lr, mul_bits(d[j], x[i]))),
            ),
    )
}

/// The bias vector after one gradient step: component `j` moves against
/// the incoming gradient, scaled by the learning rate.
pub open spec fn updated_bias_bits(b: Seq<u64>, d: Seq<u64>, lr: u64) -> Seq<u64> {
    Seq::new(b.len(), |j: int| sub_bits(b[j], mul_bits(lr, d[j])))
}

/// A `Vec` of scalars and its deep view are the same sequence.
proof fn lemma_deep_view_scalars(v: Vec<u64>)
    ensures
        v.deep_view() == v@,
{
    assert(v.deep_view() =~= v@);
}

/// The Xavier bound of a fully-connected layer: the square root of six
/// over the sum of the widths (fan-in plus fan-out).
pub open spec fn xavier_bound_bits(num_inputs: usize, num_outputs: usize) -> u64 {
    sqrt_bits(div_bits(SIX_BITS, usize_bits((num_inputs + num_outputs) as usize)))
}

/// One Xavier draw: a unit sample `u` stretched onto the symmetric
/// interval of the bound, `u * (bound + bound) - bound`.
pub open spec fn xavier_weight_bits(u: u64, bound: u64) -> u64 {
    sub_bits(mul_bits(u, add_bits(bound, bound)), bound)
}

/// Whether `w` is some Xavier draw for `bound`: the stretch of some
/// unit sample, whose every pattern is strictly below the pattern of
/// one.
pub open spec fn is_xavier_weight(w: u64, bound: u64) -> bool {
    exists|u: u64| u < ONE_BITS && w == xavier_weight_bits(u, bound)
}

/// The state of a fully-connected layer, as the contracts speak of it.
#[verifier::ext_equal]
pub ghost struct FcModel {
    pub num_inputs: int,
    pub num_outputs: int,
    pub weights: Seq<Seq<u64>>,
    pub bias: Seq<u64>,
    pub cache: Option<Seq<u64>>,
}

impl FcModel {
    /// The weight matrix is `num_outputs` rows of `num_inputs` columns,
    /// the bias has one component per row, and a cached input, when
    /// present, has the layer's input width.
    pub open spec fn wf(self) -> bool {
        &&& self.num_inputs >= 0
        &&& self.num_outputs >= 0
        &&& self.weights.len() == self.num_outputs
        &&& (forall|j: int|
            0 <= j < self.weights.len() ==> (#[trigger] self.weights[j]).len()
                == self.num_inputs)
        &&& self.bias.len() == self.num_outputs
        &&& (self.cache matches Some(c) ==> c.len() == self.num_inputs)
    }

    /// What `forward` returns on an input of the right width.
    pub open spec fn forward_out(self, x: Seq<u64>) -> Seq<u64> {
        affine_bits(self.weights, self.bias, x)
    }

    /// The layer after a forward pass: the input is cached, the
    /// parameters are untouched.
    pub open spec fn after_forward(self, x: Seq<u64>) -> FcModel {
        FcModel { cache: Some(x), ..self }
    }

    /// What `backward` returns on a gradient of the right width: the
    /// upstream gradient, the transposed weights applied to the
    /// incoming gradient.
    pub open spec fn backward_out(self, d: Seq<u64>) -> Seq<u64> {
        matt_vec_bits(self.weights, self.num_inputs as nat, d)
    }

    /// The layer after a backward pass: one gradient step on the
    /// parameters, and the cache is consumed.
    pub open spec fn after_backward(self, d: Seq<u64>, lr: u64) -> FcModel {
        FcModel {
            weights: updated_weights_bits(self.weights, d, self.cache->Some_0, lr),
            bias: updated_bias_bits(self.bias, d, lr),
            cache: None,
            ..self
        }
    }
}

/// A random source for weight initialization.  Verus treats the
/// generator as an opaque value; the one trusted operation on it is
/// `sample_unit` below.
#[verifier::external_type_specification]
#[verifier::external_body]
pub struct ExStdRng(rand::rngs::StdRng);

/// Relies on rand's `Rng::gen` with the `Standard` distribution for the
/// binary64 type, which returns a value in the half-open unit interval
/// `[0, 1)`.  The draw is random, so nothing more is promised of it;
/// every pattern of such a value is strictly below the pattern of one.
#[verifier::external_body]
pub(crate) fn sample_unit(rng: &mut rand::rngs::StdRng) -> (r: u64)
    ensures
        r < crate::scalar::ONE_BITS,
{
    let x = noisy_float::types::N64::unchecked_new(rand::Rng::gen(rng)).raw();
    x.to_bits()
}

/// A fully-connected layer: a linear transform `W x + b` with learnable
/// weights and bias, plus the cached input of its last forward pass.
pub struct FCLayer {
    pub num_inputs: usize,
    pub num_outputs: usize,
    pub weights: Vec<Vec<u64>>,
    pub bias: Vec<u64>,
    pub input: Option<Vec<u64>>,
}

impl View for FCLayer {
    type V = FcModel;

    open spec fn view(&self) -> FcModel {
        FcModel {
            num_inputs: self.num_inputs as int,
            num_outputs: self.num_outputs as int,
            weights: self.weights.deep_view(),
            bias: self.bias@,
            cache: self.input.deep_view(),
        }
    }
}

impl FCLayer {
    /// Constructs a layer with the given widths: weights drawn
    /// uniformly from the symmetric interval of the Xavier bound (the
    /// square root of six over the sum of the widths), bias zero, and
    /// no cached input.  The draws themselves are random, so each
    /// weight is pinned only up to its unit sample: every entry is the
    /// stretch of some sample below one onto the bound's symmetric
    /// interval.
    pub fn new(num_inputs: usize, num_outputs: usize, rng: &mut rand::rngs::StdRng) -> (r: FCLayer)
        requires
            num_inputs + num_outputs <= usize::MAX,
        ensures
            r@.wf(),
            r@.num_inputs == num_inputs,
            r@.num_outputs == num_outputs,
            r@.bias == Seq::new(num_outputs as nat, |j: int| ZERO_BITS),
            r@.cache is None,
            forall|j: int, i: int|
                0 <= j < num_outputs && 0 <= i < num_inputs ==> is_xavier_weight(
                    #[trigger] r@.weights[j][i],
                    xavier_bound_bits(num_inputs, num_outputs),
                ),
    {
        let ghost bound_spec = xavier_bound_bits(num_inputs, num_outputs);
        let bound = fsqrt(fdiv(SIX_BITS, from_usize(num_inputs + num_outputs)));
        proof {
            assert(bound == bound_spec);
        }
        let two_bound = fadd(bound, bound);
        let mut weights: Vec<Vec<u64>> = Vec::new();
        let mut j: usize = 0;
        while j < num_outputs
            invariant
                j <= num_outputs,
                bound == bound_spec,
                two_bound == add_bits(bound_spec, bound_spec),
                weights@.len() == j,
                forall|k: int| 0 <= k < j ==> (#[trigger] weights@[k])@.len() == num_inputs,
                forall|k: int, i: int|
                    0 <= k < j && 0 <= i < num_inputs ==> is_xavier_weight(
                        #[trigger] weights@[k]@[i],
                        bound_spec,
                    ),
            decreases num_outputs - j,
        {
            let mut row: Vec<u64> = Vec::new();
            let mut i: usize = 0;
            while i < num_inputs
                invariant
                    i <= num_inputs,
                    bound == bound_spec,
                    two_bound == add_bits(bound_spec, bound_spec),
                    row@.len() == i,
                    forall|k: int| 0 <= k < i ==> is_xavier_weight(#[trigger] row@[k], bound_spec),
                decreases num_inputs - i,
            {
                let u = sample_unit(rng);
                let w = fsub(fmul(u, two_bound), bound);
                proof {
                    assert(u < ONE_BITS && w == xavier_weight_bits(u, bound_spec));
                }
                row.push(w);
                i = i + 1;
            }
            weights.push(row);
            j = j + 1;
        }
        let mut bias: Vec<u64> = Vec::new();
        let mut j2: usize = 0;
        while j2 < num_outputs
            invariant
                j2 <= num_outputs,
                bias@.len() == j2,
                forall|k: int| 0 <= k < j2 ==> bias@[k] == ZERO_BITS,
            decreases num_outputs - j2,
        {
            bias.push(ZERO_BITS);
            j2 = j2 + 1;
        }
        let r = FCLayer { num_inputs, num_outputs, weights, bias, input: None };
        proof {
            assert(r@.bias =~= Seq::new(num_outputs as nat, |k: int| ZERO_BITS));
            assert forall|k: int| 0 <= k < r@.weights.len() implies (#[trigger] r@.weights[k]).len()
                == num_inputs by {
                assert(r.weights@[k].deep_view().len() == r.weights@[k]@.len());
            }
            assert forall|j2: int, i2: int|
                0 <= j2 < num_outputs && 0 <= i2 < num_inputs implies is_xavier_weight(
                #[trigger] r@.weights[j2][i2],
                xavier_bound_bits(num_inputs, num_outputs),
            ) by {
                lemma_deep_view_scalars(r.weights@[j2]);
                assert(r@.weights[j2] == r.weights@[j2]@);
                assert(is_xavier_weight(r.weights@[j2]@[i2], bound_spec));
            }
        }
        r
    }

    /// The current weight matrix.
    pub fn get_weights(&self) -> (r: &Vec<Vec<u64>>)
        ensures
            r.deep_view() == self@.weights,
    {
        &self.weights
    }

    /// The current bias vector.
    pub fn get_bias(&self) -> (r: &Vec<u64>)
        ensures
            r@ == self@.bias,
    {
        &self.bias
    }

    /// Applies the linear transform to `input` and caches `input` for
    /// the next backward pass.  An input whose length is not the
    /// layer's input width is rejected with a shape mismatch and the
    /// layer is left unchanged.
    pub fn forward(&mut self, input: &Vec<u64>) -> (r: Result<Vec<u64>, Error>)
        requires
            old(self)@.wf(),
        ensures
            final(self)@.wf(),
            input@.len() == old(self)@.num_inputs ==> (r matches Ok(out)
                && out@ == old(self)@.forward_out(input@)
                && final(self)@ == old(self)@.after_forward(input@)),
            input@.len() != old(self)@.num_inputs ==> (r == Err::<Vec<u64>, Error>(
                Error::ShapeMismatch,
            ) && final(self)@ == old(self)@),
    {
        let ghost pre = self@;
        if input.len() != self.num_inputs {
            return Err(Error::ShapeMismatch);
        }
        let n = self.num_outputs;
        let mut out: Vec<u64> = Vec::new();
        let mut j: usize = 0;
        while j < n
            invariant
                j <= n,
                self@ == pre,
                pre.wf(),
                n == self.num_outputs,
                input@.len() == pre.num_inputs,
                out@.len() == j,
                forall|k: int|
                    0 <= k < j ==> out@[k] == add_bits(dot_bits(pre.weights[k], input@), pre.bias[k]),
            decreases n - j,
        {
            let row = &self.weights[j];
            proof {
                assert(row.deep_view() == pre.weights[j as int]);
                lemma_deep_view_scalars(*row);
                assert(row@ == pre.weights[j as int]);
            }
            let y = fadd(dot(row, input), self.bias[j]);
            out.push(y);
            j = j + 1;
        }
        self.input = Some(input.clone());
        proof {
            assert(out@ =~= affine_bits(pre.weights, pre.bias, input@));
            assert(self.input.deep_view() =~= Some(input@));
            assert(self@ =~= pre.after_forward(input@));
        }
        Ok(out)
    }

    /// Propagates a gradient through the layer: returns the upstream
    /// gradient (the transposed weights applied to `delta`) and, as a
    /// side effect, takes one gradient step on the weights and the bias
    /// and consumes the cached input.  Without a cached input the call
    /// fails with a missing cache; a gradient whose length is not the
    /// layer's output width is rejected with a shape mismatch.  Either
    /// failure leaves the layer unchanged.
    pub fn backward(&mut self, delta: &Vec<u64>, learning_rate: u64) -> (r: Result<Vec<u64>, Error>)
        requires
            old(self)@.wf(),
        ensures
            final(self)@.wf(),
            old(self)@.cache is None ==> (r == Err::<Vec<u64>, Error>(Error::MissingCache)
                && final(self)@ == old(self)@),
            old(self)@.cache is Some && delta@.len() != old(self)@.num_outputs ==> (r == Err::<
                Vec<u64>,
                Error,
            >(Error::ShapeMismatch) && final(self)@ == old(self)@),
            old(self)@.cache is Some && delta@.len() == old(self)@.num_outputs ==> (r matches Ok(dx)
                && dx@ == old(self)@.backward_out(delta@)
                && final(self)@ == old(self)@.after_backward(delta@, learning_rate)),
    {
        let ghost pre = self@;
        let x: Vec<u64> = match &self.input {
            Some(v) => v.clone(),
            None => {
                return Err(Error::MissingCache);
            },
        };
        proof {
            assert(pre.cache matches Some(c) && c == x@);
        }
        if delta.len() != self.num_outputs {
            return Err(Error::ShapeMismatch);
        }
        // Upstream gradient: the transposed weights applied to delta.
        let mut dx: Vec<u64> = Vec::new();
        let mut i: usize = 0;
        while i < self.num_inputs
            invariant
                i <= self.num_inputs,
                self@ == pre,
                pre.wf(),
                delta@.len() == pre.num_outputs,
                dx@.len() == i,
                forall|k: int| 0 <= k < i ==> dx@[k] == dot_bits(col_bits(pre.weights, k), delta@),
            decreases self.num_inputs - i,
        {
            let mut acc: u64 = ZERO_BITS;
            let mut j: usize = 0;
            while j < self.num_outputs
                invariant
                    j <= self.num_outputs,
                    self@ == pre,
                    pre.wf(),
                    i < pre.num_inputs,
                    delta@.len() == pre.num_outputs,
                    acc == crate::scalar::dot_prefix(col_bits(pre.weights, i as int), delta@, j as int),
                decreases self.num_outputs - j,
            {
                let row = &self.weights[j];
                proof {
                    assert(row.deep_view() == pre.weights[j as int]);
                    lemma_deep_view_scalars(*row);
                    assert(row@[i as int] == pre.weights[j as int][i as int]);
                    assert(col_bits(pre.weights, i as int)[j as int] == pre.weights[j as int][i as int]);
                }
                acc = fadd(acc, fmul(row[i], delta[j]));
                j = j + 1;
            }
            proof {
                assert(col_bits(pre.weights, i as int).len() == pre.weights.len());
            }
            dx.push(acc);
            i = i + 1;
        }
        // One gradient step on the weights.
        let mut new_weights: Vec<Vec<u64>> = Vec::new();
        let mut j: usize = 0;
        while j < self.num_outputs
            invariant
                j <= self.num_outputs,
                self@ == pre,
                pre.wf(),
                x@.len() == pre.num_inputs,
                delta@.len() == pre.num_outputs,
                new_weights@.len() == j,
                forall|k: int|
                    0 <= k < j ==> (#[trigger] new_weights@[k])@ == Seq::new(
                        pre.weights[k].len(),
                        |i: int| sub_bits(pre.weights[k][i], mul_bits(learning_rate, mul_bits(delta@[k], x@[i]))),
                    ),
            decreases self.num_outputs - j,
        {
            let row = &self.weights[j];
            proof {
                assert(row.deep_view() == pre.weights[j as int]);
                lemma_deep_view_scalars(*row);
            }
            let mut new_row: Vec<u64> = Vec::new();
            let mut i2: usize = 0;
            while i2 < self.num_inputs
                invariant
                    i2 <= self.num_inputs,
                    self@ == pre,
                    pre.wf(),
                    j < pre.num_outputs,
                    x@.len() == pre.num_inputs,
                    delta@.len() == pre.num_outputs,
                    row@ == pre.weights[j as int],
                    new_row@.len() == i2,
                    forall|k: int|
                        0 <= k < i2 ==> new_row@[k] == sub_bits(
                            pre.weights[j as int][k],
                            mul_bits(learning_rate, mul_bits(delta@[j as int], x@[k])),
                        ),
                decreases self.num_inputs - i2,
            {
                new_row.push(fsub(row[i2], fmul(learning_rate, fmul(delta[j], x[i2]))));
                i2 = i2 + 1;
            }
            proof {
                assert(new_row@ =~= Seq::new(
                    pre.weights[j as int].len(),
                    |i: int| sub_bits(pre.weights[j as int][i], mul_bits(learning_rate, mul_bits(delta@[j as int], x@[i]))),
                ));
            }
            new_weights.push(new_row);
            j = j + 1;
        }
        // One gradient step on the bias.
        let mut new_bias: Vec<u64> = Vec::new();
        let mut j2: usize = 0;
        while j2 < self.num_outputs
            invariant
                j2 <= self.num_outputs,
                self@ == pre,
                pre.wf(),
                delta@.len() == pre.num_outputs,
                new_bias@.len() == j2,
                forall|k: int|
                    0 <= k < j2 ==> new_bias@[k] == sub_bits(
                        pre.bias[k],
                        mul_bits(learning_rate, delta@[k]),
                    ),
            decreases self.num_outputs - j2,
        {
            new_bias.push(fsub(self.bias[j2], fmul(learning_rate, delta[j2])));
            j2 = j2 + 1;
        }
        self.weights = new_weights;
        self.bias = new_bias;
        self.input = None;
        proof {
            assert forall|k: int| 0 <= k < self@.weights.len() implies #[trigger] self@.weights[k]
                == updated_weights_bits(pre.weights, delta@, x@, learning_rate)[k] by {
                lemma_deep_view_scalars(self.weights@[k]);
            }
            assert(self@.weights =~= updated_weights_bits(pre.weights, delta@, x@, learning_rate));
            assert(self@.bias =~= updated_bias_bits(pre.bias, delta@, learning_rate));
            assert(dx@ =~= matt_vec_bits(pre.weights, pre.num_inputs as nat, delta@));
            assert(self@ =~= pre.after_backward(delta@, learning_rate));
        }
        Ok(dx)
    }
}

/// The pointwise application of an activation function to a vector.
pub open spec fn act_map_bits(kind: ActivationKind, x: Seq<u64>) -> Seq<u64> {
    Seq::new(x.len(), |i: int| kind.spec_activate(x[i]))
}

/// The backward pass of an activation layer: the chain rule, the
/// derivative at each cached pre-activation input times the incoming
/// gradient component (a Hadamard product).
pub open spec fn act_backward_bits(kind: ActivationKind, c: Seq<u64>, d: Seq<u64>) -> Seq<u64> {
    Seq::new(c.len(), |i: int| mul_bits(kind.spec_derivative(c[i]), d[i]))
}

/// The state of an activation layer, as the contracts speak of it.
#[verifier::ext_equal]
pub ghost struct ActModel {
    pub kind: ActivationKind,
    pub cache: Option<Seq<u64>>,
}

impl ActModel {
    /// What `forward` returns.
    pub open spec fn forward_out(self, x: Seq<u64>) -> Seq<u64> {
        act_map_bits(self.kind, x)
    }

    /// The layer after a forward pass: the input is cached.
    pub open spec fn after_forward(self, x: Seq<u64>) -> ActModel {
        ActModel { cache: Some(x), ..self }
    }

    /// What `backward` returns on a gradient as long as the cache.
    pub open spec fn backward_out(self, d: Seq<u64>) -> Seq<u64> {
        act_backward_bits(self.kind, self.cache->Some_0, d)
    }

    /// The layer after a backward pass: the cache is consumed; there
    /// are no learnable parameters.
    pub open spec fn after_backward(self) -> ActModel {
        ActModel { cache: None, ..self }
    }
}

/// An activation layer: applies a shared, stateless activation
/// function elementwise.  It has no learnable parameters; the learning
/// rate its backward pass accepts is unused, for interface uniformity.
pub struct ActivationLayer {
    pub activation: ActivationKind,
    pub input: Option<Vec<u64>>,
}

impl View for ActivationLayer {
    type V = ActModel;

    open spec fn view(&self) -> ActModel {
        ActModel { kind: self.activation, cache: self.input.deep_view() }
    }
}

impl ActivationLayer {
    /// Constructs a layer over the given activation function, with no
    /// cached input.
    pub fn new(activation: ActivationKind) -> (r: ActivationLayer)
        ensures
            r@.kind == activation,
            r@.cache is None,
    {
        ActivationLayer { activation, input: None }
    }

    /// Applies the activation function elementwise and caches `input`
    /// for the next backward pass.  Any length is accepted.
    pub fn forward(&mut self, input: &Vec<u64>) -> (r: Result<Vec<u64>, Error>)
        ensures
            r matches Ok(out) && out@ == old(self)@.forward_out(input@),
            final(self)@ == old(self)@.after_forward(input@),
    {
        let ghost pre = self@;
        let n = input.len();
        let mut out: Vec<u64> = Vec::new();
        let mut i: usize = 0;
        while i < n
            invariant
                i <= n,
                self@ == pre,
                n == input@.len(),
                out@.len() == i,
                forall|k: int| 0 <= k < i ==> out@[k] == pre.kind.spec_activate(input@[k]),
            decreases n - i,
        {
            out.push(self.activation.activate(input[i]));
            i = i + 1;
        }
        self.input = Some(input.clone());
        proof {
            assert(out@ =~= act_map_bits(pre.kind, input@));
            assert(self.input.deep_view() =~= Some(input@));
            assert(self@ =~= pre.after_forward(input@));
        }
        Ok(out)
    }

    /// Propagates a gradient through the layer by the chain rule: the
    /// derivative at each cached input component times the incoming
    /// gradient component.  The cached input is consumed.  Without a
    /// cached input the call fails with a missing cache; a gradient
    /// whose length differs from the cached input's is rejected with a
    /// shape mismatch.  Either failure leaves the layer unchanged.
    pub fn backward(&mut self, delta: &Vec<u64>, _learning_rate: u64) -> (r: Result<
        Vec<u64>,
        Error,
    >)
        ensures
            old(self)@.cache is None ==> (r == Err::<Vec<u64>, Error>(Error::MissingCache)
                && final(self)@ == old(self)@),
            old(self)@.cache matches Some(c) && delta@.len() != c.len() ==> (r == Err::<
                Vec<u64>,
                Error,
            >(Error::ShapeMismatch) && final(self)@ == old(self)@),
            old(self)@.cache matches Some(c) && delta@.len() == c.len() ==> (r matches Ok(dx)
                && dx@ == old(self)@.backward_out(delta@)
                && final(self)@ == old(self)@.after_backward()),
    {
        let ghost pre = self@;
        let x: Vec<u64> = match &self.input {
            Some(v) => v.clone(),
            None => {
                return Err(Error::MissingCache);
            },
        };
        proof {
            assert(pre.cache matches Some(c) && c == x@);
        }
        if delta.len() != x.len() {
            return Err(Error::ShapeMismatch);
        }
        let n = x.len();
        let mut dx: Vec<u64> = Vec::new();
        let mut i: usize = 0;
        while i < n
            invariant
                i <= n,
                self@ == pre,
                n == x@.len(),
                n == delta@.len(),
                dx@.len() == i,
                forall|k: int|
                    0 <= k < i ==> dx@[k] == mul_bits(pre.kind.spec_derivative(x@[k]), delta@[k]),
            decreases n - i,
        {
            dx.push(fmul(self.activation.derivative(x[i]), delta[i]));
            i = i + 1;
        }
        self.input = None;
        proof {
            assert(dx@ =~= act_backward_bits(pre.kind, x@, delta@));
            assert(self@ =~= pre.after_backward());
        }
        Ok(dx)
    }
}

/// The state of a layer, as the contracts speak of it.
#[verifier::ext_equal]
pub ghost enum LayerModel {
    FullyConnected(FcModel),
    Activation(ActModel),
}

impl LayerModel {
    /// Structural well-formedness of the layer's state.
    pub open spec fn wf(self) -> bool {
        match self {
            LayerModel::FullyConnected(m) => m.wf(),
            LayerModel::Activation(_) => true,
        }
    }

    /// Whether a forward pass accepts an input of length `n`.
    pub open spec fn accepts(self, n: int) -> bool {
        match self {
            LayerModel::FullyConnected(m) => n == m.num_inputs,
            LayerModel::Activation(_) => true,
        }
    }

    /// The length of the output of a forward pass on an input of
    /// length `n`.
    pub open spec fn out_len(self, n: int) -> int {
        match self {
            LayerModel::FullyConnected(m) => m.num_outputs,
            LayerModel::Activation(_) => n,
        }
    }

    /// What a forward pass returns.
    pub open spec fn forward_out(self, x: Seq<u64>) -> Seq<u64> {
        match self {
            LayerModel::FullyConnected(m) => m.forward_out(x),
            LayerModel::Activation(m) => m.forward_out(x),
        }
    }

    /// The layer after a forward pass on `x`.
    pub open spec fn after_forward(self, x: Seq<u64>) -> LayerModel {
        match self {
            LayerModel::FullyConnected(m) => LayerModel::FullyConnected(m.after_forward(x)),
            LayerModel::Activation(m) => LayerModel::Activation(m.after_forward(x)),
        }
    }

    /// Whether a backward pass accepts a gradient of length `n`: a
    /// cached input must be present and `n` must match the output
    /// width of the preceding forward pass.
    pub open spec fn accepts_backward(self, n: int) -> bool {
        match self {
            LayerModel::FullyConnected(m) => m.cache is Some && n == m.num_outputs,
            LayerModel::Activation(m) => m.cache matches Some(c) && n == c.len(),
        }
    }

    /// Whether the layer lacks a cached input, so that any backward
    /// pass must fail with a missing cache.
    pub open spec fn cache_absent(self) -> bool {
        match self {
            LayerModel::FullyConnected(m) => m.cache is None,
            LayerModel::Activation(m) => m.cache is None,
        }
    }

    /// What a backward pass returns: the upstream gradient.
    pub open spec fn backward_out(self, d: Seq<u64>) -> Seq<u64> {
        match self {
            LayerModel::FullyConnected(m) => m.backward_out(d),
            LayerModel::Activation(m) => m.backward_out(d),
        }
    }

    /// The layer after a backward pass.
    pub open spec fn after_backward(self, d: Seq<u64>, lr: u64) -> LayerModel {
        match self {
            LayerModel::FullyConnected(m) => LayerModel::FullyConnected(m.after_backward(d, lr)),
            LayerModel::Activation(m) => LayerModel::Activation(m.after_backward()),
        }
    }
}

/// Calling `forward` twice with the same input on an otherwise
/// unmutated layer yields identical output both times: a forward pass
/// changes only the cached input, and the output never depends on the
/// cache.  The second call is accepted exactly when the first was.
pub proof fn lemma_forward_idempotent(l: LayerModel, x: Seq<u64>)
    ensures
        l.after_forward(x).forward_out(x) == l.forward_out(x),
        forall|n: int| l.after_forward(x).accepts(n) == l.accepts(n),
{
    match l {
        LayerModel::FullyConnected(m) => {},
        LayerModel::Activation(m) => {},
    }
}

/// A layer of the network: the closed sum over the implemented
/// variants.
pub enum Layer {
    FullyConnected(FCLayer),
    Activation(ActivationLayer),
}

impl View for Layer {
    type V = LayerModel;

    open spec fn view(&self) -> LayerModel {
        match self {
            Layer::FullyConnected(l) => LayerModel::FullyConnected(l@),
            Layer::Activation(l) => LayerModel::Activation(l@),
        }
    }
}

impl DeepView for Layer {
    type V = LayerModel;

    open spec fn deep_view(&self) -> LayerModel {
        self@
    }
}

impl Layer {
    /// Dispatches a forward pass to the variant.
    pub fn forward(&mut self, input: &Vec<u64>) -> (r: Result<Vec<u64>, Error>)
        requires
            old(self)@.wf(),
        ensures
            final(self)@.wf(),
            old(self)@.accepts(input@.len() as int) ==> (r matches Ok(out)
                && out@ == old(self)@.forward_out(input@)
                && out@.len() == old(self)@.out_len(input@.len() as int)
                && final(self)@ == old(self)@.after_forward(input@)),
            !old(self)@.accepts(input@.len() as int) ==> (r == Err::<Vec<u64>, Error>(
                Error::ShapeMismatch,
            ) && final(self)@ == old(self)@),
    {
        match self {
            Layer::FullyConnected(l) => l.forward(input),
            Layer::Activation(l) => l.forward(input),
        }
    }

    /// Dispatches a backward pass to the variant.
    pub fn backward(&mut self, delta: &Vec<u64>, learning_rate: u64) -> (r: Result<
        Vec<u64>,
        Error,
    >)
        requires
            old(self)@.wf(),
        ensures
            final(self)@.wf(),
            old(self)@.accepts_backward(delta@.len() as int) ==> (r matches Ok(dx)
                && dx@ == old(self)@.backward_out(delta@)
                && final(self)@ == old(self)@.after_backward(delta@, learning_rate)),
            !old(self)@.accepts_backward(delta@.len() as int) ==> (final(self)@ == old(self)@
                && r is Err),
            old(self)@.cache_absent() ==> r == Err::<Vec<u64>, Error>(Error::MissingCache),
            !old(self)@.cache_absent() && !old(self)@.accepts_backward(delta@.len() as int) ==> r
                == Err::<Vec<u64>, Error>(Error::ShapeMismatch),
    {
        match self {
            Layer::FullyConnected(l) => l.backward(delta, learning_rate),
            Layer::Activation(l) => l.backward(delta, learning_rate),
        }
    }
}

} // verus!
