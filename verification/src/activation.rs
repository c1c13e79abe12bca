//! Pointwise activation functions and their derivatives, evaluated on
//! the pre-activation input: Sigmoid, Tanh and ReLU.

use vstd::prelude::*;

use crate::scalar::{
    add_bits, div_bits, exp_bits, fadd, fdiv, fexp, fmul, fneg, fsub, ftanh, is_pos, mul_bits,
    neg_bits, pos_bits, sub_bits, tanh_bits, ONE_BITS, ZERO_BITS,
};

verus! {

/// The sigmoid of `x`: one divided by one plus the exponential of the
/// negated input.
pub open spec fn sigmoid_spec(x: u64) -> u64 {
    div_bits(ONE_BITS, add_bits(ONE_BITS, exp_bits(neg_bits(x))))
}

/// The derivative of the sigmoid at `x`, computed as `s * (1 - s)`
/// where `s` is the sigmoid of the pre-activation input.
pub open spec fn sigmoid_derivative_spec(x: u64) -> u64 {
    mul_bits(sigmoid_spec(x), sub_bits(ONE_BITS, sigmoid_spec(x)))
}

/// The hyperbolic tangent of `x`.
pub open spec fn tanh_spec(x: u64) -> u64 {
    tanh_bits(x)
}

/// The derivative of the hyperbolic tangent at `x`: one minus its square.
pub open spec fn tanh_derivative_spec(x: u64) -> u64 {
    sub_bits(ONE_BITS, mul_bits(tanh_bits(x), tanh_bits(x)))
}

/// The rectifier: `x` where `x` is strictly positive, zero elsewhere.
pub open spec fn relu_spec(x: u64) -> u64 {
    if pos_bits(x) {
        x
    } else {
        ZERO_BITS
    }
}

/// The derivative of the rectifier: one where `x` is strictly positive,
/// zero elsewhere.
pub open spec fn relu_derivative_spec(x: u64) -> u64 {
    if pos_bits(x) {
        ONE_BITS
    } else {
        ZERO_BITS
    }
}

/// A pointwise transform together with its derivative, both evaluated
/// on the pre-activation input.  Implementors fix the two spec
/// functions and prove their executable methods against them.
pub trait ActivationFunction {
    /// What `activate` returns.
    spec fn spec_activate(&self, x: u64) -> u64;

    /// What `derivative` returns.
    spec fn spec_derivative(&self, x: u64) -> u64;

    /// Applies the transform to one scalar.
    fn activate(&self, x: u64) -> (r: u64)
        ensures
            r == self.spec_activate(x),
    ;

    /// The derivative of the transform at one scalar.
    fn derivative(&self, x: u64) -> (r: u64)
        ensures
            r == self.spec_derivative(x),
    ;
}

/// The logistic sigmoid.
pub struct Sigmoid;

impl ActivationFunction for Sigmoid {
    open spec fn spec_activate(&self, x: u64) -> u64 {
        sigmoid_spec(x)
    }

    open spec fn spec_derivative(&self, x: u64) -> u64 {
        sigmoid_derivative_spec(x)
    }

    fn activate(&self, x: u64) -> (r: u64) {
        fdiv(ONE_BITS, fadd(ONE_BITS, fexp(fneg(x))))
    }

    fn derivative(&self, x: u64) -> (r: u64) {
        let s = self.activate(x);
        fmul(s, fsub(ONE_BITS, s))
    }
}

/// The hyperbolic tangent.
pub struct Tanh;

impl ActivationFunction for Tanh {
    open spec fn spec_activate(&self, x: u64) -> u64 {
        tanh_spec(x)
    }

    open spec fn spec_derivative(&self, x: u64) -> u64 {
        tanh_derivative_spec(x)
    }

    fn activate(&self, x: u64) -> (r: u64) {
        ftanh(x)
    }

    fn derivative(&self, x: u64) -> (r: u64) {
        let t = ftanh(x);
        fsub(ONE_BITS, fmul(t, t))
    }
}

/// The rectified linear unit.
pub struct ReLU;

impl ActivationFunction for ReLU {
    open spec fn spec_activate(&self, x: u64) -> u64 {
        relu_spec(x)
    }

    open spec fn spec_derivative(&self, x: u64) -> u64 {
        relu_derivative_spec(x)
    }

    fn activate(&self, x: u64) -> (r: u64) {
        if is_pos(x) {
            x
        } else {
            ZERO_BITS
        }
    }

    fn derivative(&self, x: u64) -> (r: u64) {
        if is_pos(x) {
            ONE_BITS
        } else {
            ZERO_BITS
        }
    }
}

/// The closed set of activation functions an activation layer can
/// carry, one variant per implementor of `ActivationFunction`.
#[derive(Clone, Copy, Debug, PartialEq, Eq, Structural)]
pub enum ActivationKind {
    Sigmoid,
    Tanh,
    ReLU,
}

impl ActivationKind {
    /// What `activate` returns for this kind.
    pub open spec fn spec_activate(self, x: u64) -> u64 {
        match self {
            ActivationKind::Sigmoid => sigmoid_spec(x),
            ActivationKind::Tanh => tanh_spec(x),
            ActivationKind::ReLU => relu_spec(x),
        }
    }

    /// What `derivative` returns for this kind.
    pub open spec fn spec_derivative(self, x: u64) -> u64 {
        match self {
            ActivationKind::Sigmoid => sigmoid_derivative_spec(x),
            ActivationKind::Tanh => tanh_derivative_spec(x),
            ActivationKind::ReLU => relu_derivative_spec(x),
        }
    }

    /// Applies the transform of this kind to one scalar.
    pub fn activate(self, x: u64) -> (r: u64)
        ensures
            r == self.spec_activate(x),
    {
        match self {
            ActivationKind::Sigmoid => Sigmoid.activate(x),
            ActivationKind::Tanh => Tanh.activate(x),
            ActivationKind::ReLU => ReLU.activate(x),
        }
    }

    /// The derivative of the transform of this kind at one scalar.
    pub fn derivative(self, x: u64) -> (r: u64)
        ensures
            r == self.spec_derivative(x),
    {
        match self {
            ActivationKind::Sigmoid => Sigmoid.derivative(x),
            ActivationKind::Tanh => Tanh.derivative(x),
            ActivationKind::ReLU => ReLU.derivative(x),
        }
    }
}

} // verus!
