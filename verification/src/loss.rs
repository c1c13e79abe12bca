//! Loss functions: the scalar loss of a prediction against a target,
//! and its gradient with respect to each predicted component.

use vstd::prelude::*;

use crate::scalar::{
    div_bits, fdiv, fmul, from_usize, fsub, mul_bits, sub_bits, sum_sq_bits, sum_squares,
    usize_bits, vec_sub, vsub_bits, TWO_BITS,
};
use crate::Error;

verus! {

/// A loss together with its gradient.  Implementors fix the two spec
/// functions and prove their executable methods against them.
///
/// Both operations demand equally long target and prediction vectors
/// and report a shape mismatch otherwise; the scalar loss additionally
/// needs at least one component, since it averages over them.
pub trait LossFunction {
    /// What `loss` returns on equally long, non-empty vectors.
    spec fn spec_loss(&self, target: Seq<u64>, predicted: Seq<u64>) -> u64;

    /// What `gradient` returns on equally long vectors.
    spec fn spec_gradient(&self, target: Seq<u64>, predicted: Seq<u64>) -> Seq<u64>;

    /// The scalar loss of `predicted` against `target`.
    fn loss(&self, target: &Vec<u64>, predicted: &Vec<u64>) -> (r: Result<u64, Error>)
        requires
            predicted@.len() > 0,
        ensures
            target@.len() == predicted@.len() ==> r == Ok::<u64, Error>(
                self.spec_loss(target@, predicted@),
            ),
            target@.len() != predicted@.len() ==> r == Err::<u64, Error>(Error::ShapeMismatch),
    ;

    /// The gradient of the loss with respect to each component of
    /// `predicted`.
    fn gradient(&self, target: &Vec<u64>, predicted: &Vec<u64>) -> (r: Result<Vec<u64>, Error>)
        ensures
            target@.len() == predicted@.len() ==> (r matches Ok(g) && g@ == self.spec_gradient(
                target@,
                predicted@,
            )),
            target@.len() != predicted@.len() ==> r == Err::<Vec<u64>, Error>(
                Error::ShapeMismatch,
            ),
    ;
}

/// The mean of the squared componentwise differences between the
/// prediction and the target.
pub open spec fn mse_loss_spec(target: Seq<u64>, predicted: Seq<u64>) -> u64 {
    div_bits(sum_sq_bits(vsub_bits(predicted, target)), usize_bits(predicted.len() as usize))
}

/// The gradient of the mean squared error: two times the componentwise
/// difference, divided by the number of components.
pub open spec fn mse_gradient_spec(target: Seq<u64>, predicted: Seq<u64>) -> Seq<u64> {
    Seq::new(
        predicted.len(),
        |i: int|
            div_bits(
                mul_bits(TWO_BITS, sub_bits(predicted[i], target[i])),
                usize_bits(predicted.len() as usize),
            ),
    )
}

/// Mean squared error.
pub struct MSE;

impl LossFunction for MSE {
    open spec fn spec_loss(&self, target: Seq<u64>, predicted: Seq<u64>) -> u64 {
        mse_loss_spec(target, predicted)
    }

    open spec fn spec_gradient(&self, target: Seq<u64>, predicted: Seq<u64>) -> Seq<u64> {
        mse_gradient_spec(target, predicted)
    }

    fn loss(&self, target: &Vec<u64>, predicted: &Vec<u64>) -> (r: Result<u64, Error>) {
        if target.len() != predicted.len() {
            return Err(Error::ShapeMismatch);
        }
        let diff = vec_sub(predicted, target);
        let total = sum_squares(&diff);
        Ok(fdiv(total, from_usize(predicted.len())))
    }

    fn gradient(&self, target: &Vec<u64>, predicted: &Vec<u64>) -> (r: Result<Vec<u64>, Error>) {
        if target.len() != predicted.len() {
            return Err(Error::ShapeMismatch);
        }
        let n = predicted.len();
        let scale = from_usize(n);
        let mut g: Vec<u64> = Vec::new();
        let mut i: usize = 0;
        while i < n
            invariant
                i <= n,
                n == predicted@.len(),
                n == target@.len(),
                scale == usize_bits(n),
                g@.len() == i,
                forall|k: int|
                    0 <= k < i ==> g@[k] == div_bits(
                        mul_bits(TWO_BITS, sub_bits(predicted@[k], target@[k])),
                        usize_bits(n),
                    ),
            decreases n - i,
        {
            g.push(fdiv(fmul(TWO_BITS, fsub(predicted[i], target[i])), scale));
            i = i + 1;
        }
        proof {
            assert(g@ =~= mse_gradient_spec(target@, predicted@));
        }
        Ok(g)
    }
}

} // verus!
