//! Optimizers: the abstract in-place update rule over positionally aligned
//! parameter/gradient views, its plain gradient-descent instance, and the
//! `SGD` convenience that binds pipeline, loss and parameter update into one
//! atomic training step.

use vstd::prelude::*;
use crate::error::NnError;
use crate::fixed::{fx_mul, fx_mul_spec, fx_sub, fx_sub_spec, ints};
use crate::loss::LossFunction;
use crate::sequential::{run_backward, run_forward, updated_layers, zeroed_layers, Sequential};

verus! {

/// An in-place single-step update rule over two equal-length, positionally
/// aligned numeric sequences.
pub trait Optimizer {
    /// The parameter sequence this optimizer's rule produces.
    spec fn update_spec(&self, params: Seq<int>, grads: Seq<int>) -> Seq<int>;

    /// Applies the update rule in place; fails (leaving the parameters
    /// untouched) exactly when the two views differ in length.
    fn step(&mut self, params: &mut Vec<i64>, grads: &Vec<i64>) -> (r: Result<(), NnError>)
        ensures
            r is Ok <==> old(params)@.len() == grads@.len(),
            r is Ok ==> ints(final(params)@) == old(self).update_spec(
                ints(old(params)@),
                ints(grads@),
            ),
            r is Err ==> final(params)@ == old(params)@ && r == Err::<(), NnError>(
                NnError::LengthMismatch { params: old(params).len(), grads: grads.len() },
            );
}

/// Plain gradient descent: `param -= lr * grad`.
pub struct GradientDescentOptimizer {
    pub lr: i64,
}

impl GradientDescentOptimizer {
    /// A gradient-descent optimizer with the given learning rate.
    pub fn new(lr: i64) -> (r: GradientDescentOptimizer)
        ensures
            r.lr == lr,
    {
        GradientDescentOptimizer { lr }
    }
}

impl Optimizer for GradientDescentOptimizer {
    open spec fn update_spec(&self, params: Seq<int>, grads: Seq<int>) -> Seq<int> {
        Seq::new(params.len(), |i: int| fx_sub_spec(params[i], fx_mul_spec(self.lr as int, grads[i])))
    }

    fn step(&mut self, params: &mut Vec<i64>, grads: &Vec<i64>) -> (r: Result<(), NnError>) {
        if params.len() != grads.len() {
            return Err(NnError::LengthMismatch { params: params.len(), grads: grads.len() });
        }
        let ghost p0 = ints(old(params)@);
        let ghost g0 = ints(grads@);
        let n = params.len();
        let mut i: usize = 0;
        while i < n
            invariant
                params@.len() == n,
                grads@.len() == n,
                g0 == ints(grads@),
                p0.len() == n,
                i <= n,
                forall|q: int|
                    0 <= q < i ==> ints(params@)[q] == fx_sub_spec(
                        p0[q],
                        fx_mul_spec(self.lr as int, g0[q]),
                    ),
                forall|q: int| i <= q < n ==> ints(params@)[q] == p0[q],
            decreases n - i,
        {
            let ghost pv = ints(params@);
            let nv = fx_sub(params[i], fx_mul(self.lr, grads[i]));
            params.set(i, nv);
            proof {
                assert(ints(params@) =~= pv.update(i as int, nv as int));
            }
            i = i + 1;
        }
        proof {
            assert(ints(params@) =~= self.update_spec(p0, g0));
        }
        Ok(())
    }
}

/// Stochastic gradient descent over whole training steps: each `step` call
/// zeroes the pipeline's gradients, runs forward, computes the loss and its
/// gradient, runs backward, applies `param -= lr * grad` to every learnable
/// parameter, and returns the sample's loss.
pub struct SGD {
    pub lr: i64,
}

impl SGD {
    /// An SGD driver with the given learning rate.
    pub fn new(lr: i64) -> (r: SGD)
        ensures
            r.lr == lr,
    {
        SGD { lr }
    }

    /// Performs a single training step on one input/target pair. Both widths
    /// are validated before any state changes; on success the returned value
    /// is the sample's loss.
    pub fn step<L: LossFunction>(
        &self,
        model: &mut Sequential,
        input: &Vec<i64>,
        target: &Vec<i64>,
        loss_fn: &L,
    ) -> (r: Result<i64, NnError>)
        requires
            old(model).wf(),
        ensures
            final(model).wf(),
            final(model)@.input_dim == old(model)@.input_dim,
            r is Ok <==> (input@.len() == old(model)@.input_dim && target@.len() == old(
                model,
            )@.out_dim()),
            r matches Ok(loss) ==> ({
                let z = zeroed_layers(old(model)@.layers);
                let fw = run_forward(z, ints(input@));
                let g = loss_fn.grad_spec(fw.1, ints(target@));
                let bw = run_backward(fw.0, g);
                &&& loss as int == loss_fn.loss_spec(fw.1, ints(target@))
                &&& final(model)@.layers == updated_layers(bw.0, self.lr as int)
            }),
            r is Err ==> final(model)@ == old(model)@,
            input@.len() != old(model)@.input_dim ==> r == Err::<i64, NnError>(
                NnError::DimensionMismatch {
                    expected: old(model)@.input_dim as usize,
                    actual: input.len(),
                },
            ),
            input@.len() == old(model)@.input_dim && target@.len() != old(model)@.out_dim()
                ==> r == Err::<i64, NnError>(
                NnError::DimensionMismatch {
                    expected: old(model)@.out_dim() as usize,
                    actual: target.len(),
                },
            ),
    {
        let in_width = model.input_dim();
        if input.len() != in_width {
            return Err(NnError::DimensionMismatch { expected: in_width, actual: input.len() });
        }
        let out_width = model.output_dim();
        if target.len() != out_width {
            return Err(NnError::DimensionMismatch { expected: out_width, actual: target.len() });
        }
        model.zero_grad();
        let pred = match model.forward(input) {
            Ok(p) => p,
            Err(e) => {
                proof {
                    assert(false);
                }
                return Err(e);
            },
        };
        let loss = match loss_fn.compute_loss(&pred, target) {
            Ok(l) => l,
            Err(e) => {
                proof {
                    assert(false);
                }
                return Err(e);
            },
        };
        let grad = match loss_fn.compute_gradient(&pred, target) {
            Ok(g) => g,
            Err(e) => {
                proof {
                    assert(false);
                }
                return Err(e);
            },
        };
        match model.backward(&grad) {
            Ok(_) => (),
            Err(e) => {
                proof {
                    assert(false);
                }
                return Err(e);
            },
        };
        model.apply_update(self.lr);
        Ok(loss)
    }
}

} // verus!
