//! Loss functions: a scalar loss over a prediction/target pair and the
//! gradient of that loss with respect to each prediction.

use vstd::prelude::*;
use crate::error::NnError;
use crate::fixed::{
    fx_add,
    fx_add_spec,
    fx_div_int,
    fx_div_int_spec,
    fx_mul,
    fx_mul_spec,
    fx_sub,
    fx_sub_spec,
    ints,
};

verus! {

/// A loss function: both operations demand predictions and targets of equal
/// length, and the gradient is positionally aligned with the predictions.
pub trait LossFunction {
    /// The scalar loss this function assigns to a prediction/target pair.
    spec fn loss_spec(&self, pred: Seq<int>, target: Seq<int>) -> int;

    /// The gradient of the loss with respect to each prediction.
    spec fn grad_spec(&self, pred: Seq<int>, target: Seq<int>) -> Seq<int>;

    /// Computes the loss between predictions and targets.
    fn compute_loss(&self, pred: &Vec<i64>, target: &Vec<i64>) -> (r: Result<i64, NnError>)
        ensures
            r is Ok <==> pred@.len() == target@.len(),
            r matches Ok(v) ==> v as int == self.loss_spec(ints(pred@), ints(target@)),
            r is Err ==> r == Err::<i64, NnError>(
                NnError::DimensionMismatch { expected: pred.len(), actual: target.len() },
            );

    /// Computes the gradient of the loss with respect to the predictions.
    fn compute_gradient(&self, pred: &Vec<i64>, target: &Vec<i64>) -> (r: Result<
        Vec<i64>,
        NnError,
    >)
        ensures
            r is Ok <==> pred@.len() == target@.len(),
            r matches Ok(g) ==> {
                &&& ints(g@) == self.grad_spec(ints(pred@), ints(target@))
                &&& g@.len() == pred@.len()
            },
            r is Err ==> r == Err::<Vec<i64>, NnError>(
                NnError::DimensionMismatch { expected: pred.len(), actual: target.len() },
            );
}

/// The saturating sum of the first `k` squared differences.
pub open spec fn mse_sum(pred: Seq<int>, target: Seq<int>, k: int) -> int
    recommends
        0 <= k <= pred.len(),
        pred.len() == target.len(),
    decreases k,
{
    if k <= 0 {
        0
    } else {
        fx_add_spec(
            mse_sum(pred, target, k - 1),
            fx_mul_spec(
                fx_sub_spec(pred[k - 1], target[k - 1]),
                fx_sub_spec(pred[k - 1], target[k - 1]),
            ),
        )
    }
}

/// The mean-squared-error loss: the mean of squared elementwise differences
/// (zero on empty input).
pub open spec fn mse_loss_spec(pred: Seq<int>, target: Seq<int>) -> int {
    if pred.len() == 0 {
        0
    } else {
        fx_div_int_spec(mse_sum(pred, target, pred.len() as int), pred.len() as int)
    }
}

/// The mean-squared-error gradient: `2 * (pred[i] - target[i]) / n`.
pub open spec fn mse_grad_spec(pred: Seq<int>, target: Seq<int>) -> Seq<int> {
    Seq::new(
        pred.len(),
        |i: int|
            {
                let d = fx_sub_spec(pred[i], target[i]);
                fx_div_int_spec(fx_add_spec(d, d), pred.len() as int)
            },
    )
}

/// Mean-squared-error loss.
pub struct MSELoss;

impl MSELoss {
    /// A fresh mean-squared-error loss function.
    pub fn new() -> MSELoss {
        MSELoss
    }
}

impl Default for MSELoss {
    fn default() -> MSELoss {
        MSELoss
    }
}

impl LossFunction for MSELoss {
    open spec fn loss_spec(&self, pred: Seq<int>, target: Seq<int>) -> int {
        mse_loss_spec(pred, target)
    }

    open spec fn grad_spec(&self, pred: Seq<int>, target: Seq<int>) -> Seq<int> {
        mse_grad_spec(pred, target)
    }

    fn compute_loss(&self, pred: &Vec<i64>, target: &Vec<i64>) -> (r: Result<i64, NnError>) {
        if pred.len() != target.len() {
            return Err(NnError::DimensionMismatch { expected: pred.len(), actual: target.len() });
        }
        let n = pred.len();
        if n == 0 {
            return Ok(0);
        }
        let mut sum: i64 = 0;
        let mut i: usize = 0;
        while i < n
            invariant
                pred@.len() == n,
                target@.len() == n,
                i <= n,
                sum as int == mse_sum(ints(pred@), ints(target@), i as int),
            decreases n - i,
        {
            let d = fx_sub(pred[i], target[i]);
            sum = fx_add(sum, fx_mul(d, d));
            i = i + 1;
        }
        Ok(fx_div_int(sum, n))
    }

    fn compute_gradient(&self, pred: &Vec<i64>, target: &Vec<i64>) -> (r: Result<
        Vec<i64>,
        NnError,
    >) {
        if pred.len() != target.len() {
            return Err(NnError::DimensionMismatch { expected: pred.len(), actual: target.len() });
        }
        let n = pred.len();
        let mut g: Vec<i64> = Vec::new();
        let mut i: usize = 0;
        while i < n
            invariant
                pred@.len() == n,
                target@.len() == n,
                n >= 1 || g@.len() == 0,
                i <= n,
                g@.len() == i,
                forall|q: int|
                    0 <= q < i ==> ints(g@)[q] == mse_grad_spec(ints(pred@), ints(target@))[q],
            decreases n - i,
        {
            let ghost gv = ints(g@);
            let d = fx_sub(pred[i], target[i]);
            let v = fx_div_int(fx_add(d, d), n);
            g.push(v);
            proof {
                assert(ints(g@) =~= gv.push(v as int));
                assert(ints(g@)[i as int] == mse_grad_spec(ints(pred@), ints(target@))[i as int]);
            }
            i = i + 1;
        }
        proof {
            assert(ints(g@) =~= mse_grad_spec(ints(pred@), ints(target@)));
        }
        Ok(g)
    }
}

} // verus!
