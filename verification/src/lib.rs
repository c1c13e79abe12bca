//! A small feed-forward neural network: fully-connected and activation
//! layers, a forward/backward propagation engine, and a gradient-descent
//! training loop.
//!
//! Every number that flows through the network is an IEEE-754 binary64
//! value carried as its bit pattern in a `u64`.  The arithmetic itself is
//! performed by a handful of trusted primitives (see `scalar`); everything
//! built on top of them — shape checking, the cache protocol, the forward
//! and backward passes, and the training loops — is verified.

use vstd::prelude::*;

pub mod activation;
pub mod layer;
pub mod loss;
pub mod mlp;
pub mod scalar;

verus! {

/// The ways an operation on a layer or a loss function can fail.
#[derive(Clone, Copy, Debug, PartialEq, Eq, Structural)]
pub enum Error {
    /// A vector's length disagrees with the width the receiving
    /// operation expects.
    ShapeMismatch,
    /// `backward` was called on a layer whose cached input is absent:
    /// no `forward` ran since construction or since the last `backward`.
    MissingCache,
}

} // verus!
