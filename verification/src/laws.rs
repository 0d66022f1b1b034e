//! The engine's global laws, stated over the mathematical models and proved
//! once and for all: dimension propagation, gradient accumulation, the
//! state-order rule, and the alignment of the parameter and gradient views
//! under the optimizer's update.

use vstd::prelude::*;
use crate::activation::ActivationModel;
use crate::fixed::{div_trunc, fx_add_spec, fx_mul_spec, fx_sub_spec, lemma_sat64_odd, sat64};
use crate::layer::{lemma_layer_updated, LayerModel};
use crate::linear::LinearModel;
use crate::sequential::{
    grads_of,
    lemma_run_forward,
    params_of,
    run_forward,
    updated_layers,
    fresh_linear,
    fresh_activation,
    PipelineModel,
};

verus! {

/// Dimension propagation: for any well-chained pipeline and any input of the
/// declared input width, the forward fold returns a vector of exactly the
/// pipeline's output width.
pub proof fn lemma_dimension_propagation(m: PipelineModel, x: Seq<int>)
    requires
        m.chain_ok(),
        x.len() == m.input_dim,
    ensures
        run_forward(m.layers, x).1.len() == m.out_dim(),
{
    lemma_run_forward(m, x);
}

/// Gradient accumulation: on a linear layer with zeroed accumulators and a
/// cached input, one backward pass stores each gradient contribution exactly,
/// and a second backward pass with the same gradient doubles every entry —
/// provided the doubled values stay inside the scalar range (saturation is
/// excluded by the `requires`). After `zero_grad`, gradients are exactly zero.
pub proof fn lemma_gradient_accumulation(l: LinearModel, g: Seq<int>)
    requires
        l.wf(),
        l.cached_input is Some,
        g.len() == l.output_dim,
        forall|k: int| 0 <= k < g.len() ==> -(i64::MAX as int) <= #[trigger] g[k] <= i64::MAX,
        forall|k: int| 0 <= k < l.grad_weights.len() ==> #[trigger] l.grad_weights[k] == 0,
        forall|k: int| 0 <= k < l.grad_biases.len() ==> #[trigger] l.grad_biases[k] == 0,
        forall|k: int|
            0 <= k < l.grad_weights.len() ==> -(i64::MAX as int) <= 2 * (
            #[trigger] l.backward_upd(g).grad_weights[k]) <= i64::MAX,
        forall|k: int|
            0 <= k < l.grad_biases.len() ==> -(i64::MAX as int) <= 2 * (
            #[trigger] l.backward_upd(g).grad_biases[k]) <= i64::MAX,
    ensures
        ({
            let l1 = l.backward_upd(g);
            let l2 = l1.backward_upd(g);
            &&& forall|k: int|
                0 <= k < l.grad_weights.len() ==> #[trigger] l2.grad_weights[k] == 2
                    * l1.grad_weights[k]
            &&& forall|k: int|
                0 <= k < l.grad_biases.len() ==> #[trigger] l2.grad_biases[k] == 2
                    * l1.grad_biases[k]
        }),
        forall|k: int| 0 <= k < l.grad_weights.len() ==> #[trigger] l.zeroed().grad_weights[k] == 0,
        forall|k: int| 0 <= k < l.grad_biases.len() ==> #[trigger] l.zeroed().grad_biases[k] == 0,
{
    let l1 = l.backward_upd(g);
    let l2 = l1.backward_upd(g);
    let x = l.cached_input->0;
    assert forall|k: int|
        0 <= k < l.grad_weights.len() implies #[trigger] l2.grad_weights[k] == 2
        * l1.grad_weights[k] by {
        let c = fx_mul_spec(g[k / l.input_dim as int], x[k % l.input_dim as int]);
        assert(l1.grad_weights[k] == fx_add_spec(0, c));
        assert(-(i64::MAX as int) <= c <= i64::MAX);
        assert(l1.grad_weights[k] == c);
        assert(l1.cached_input == l.cached_input);
        assert(l2.grad_weights[k] == fx_add_spec(c, c));
        assert(fx_add_spec(c, c) == sat64(c + c));
    }
    assert forall|k: int|
        0 <= k < l.grad_biases.len() implies #[trigger] l2.grad_biases[k] == 2
        * l1.grad_biases[k] by {
        if l.bias_enabled {
            assert(l1.grad_biases[k] == fx_add_spec(0, g[k]));
            assert(l1.grad_biases[k] == g[k]);
            assert(l2.grad_biases[k] == fx_add_spec(g[k], g[k]));
        } else {
            assert(l1.grad_biases[k] == 0);
            assert(l2.grad_biases[k] == 0);
        }
    }
}

/// Truncation toward zero is an odd function of the dividend.
proof fn lemma_div_trunc_odd(p: int, d: int)
    requires
        d >= 1,
    ensures
        div_trunc(-p, d) == -div_trunc(p, d),
{
    if p == 0 {
        vstd::arithmetic::div_mod::lemma_basic_div(0, d);
    }
}

/// The mean-squared-error gradient is exactly odd: swapping prediction and
/// target negates every entry. This holds for all scalar values because
/// saturation is symmetric and truncation toward zero is odd.
pub proof fn lemma_mse_grad_antisymmetric(pred: Seq<int>, target: Seq<int>)
    requires
        pred.len() == target.len(),
    ensures
        crate::loss::mse_grad_spec(pred, target).len() == crate::loss::mse_grad_spec(
            target,
            pred,
        ).len(),
        forall|i: int|
            0 <= i < pred.len() ==> #[trigger] crate::loss::mse_grad_spec(pred, target)[i]
                == -crate::loss::mse_grad_spec(target, pred)[i],
{
    let n = pred.len() as int;
    assert forall|i: int|
        0 <= i < pred.len() implies #[trigger] crate::loss::mse_grad_spec(pred, target)[i]
        == -crate::loss::mse_grad_spec(target, pred)[i] by {
        let d = fx_sub_spec(pred[i], target[i]);
        let e = fx_sub_spec(target[i], pred[i]);
        lemma_sat64_odd(pred[i] - target[i]);
        assert(e == -d);
        lemma_sat64_odd(d + d);
        assert(fx_add_spec(e, e) == -fx_add_spec(d, d));
        lemma_div_trunc_odd(fx_add_spec(d, d), n);
        lemma_sat64_odd(div_trunc(fx_add_spec(d, d), n));
    }
}

/// State order: a freshly built linear or activation layer, and an activation
/// layer whose state was just cleared by `zero_grad`, hold no cached forward
/// state, so `Layer::backward` refuses them (its contract returns
/// `BackwardBeforeForward` exactly when `ready()` is false).
pub proof fn lemma_backward_needs_forward(
    in_dim: nat,
    out_dim: nat,
    state: int,
    a: ActivationModel,
)
    ensures
        !LayerModel::Linear(fresh_linear(in_dim, out_dim, state)).ready(),
        !LayerModel::Activation(fresh_activation(a.activation, a.dim)).ready(),
        !LayerModel::Activation(a.zeroed()).ready(),
{
}

/// One update-rule step on a single layer, expressed over its flattened
/// parameter and gradient views.
proof fn lemma_layer_update_rule(l: LayerModel, lr: int)
    requires
        l.wf(),
    ensures
        l.params_view().len() == l.grads_view().len(),
        l.updated(lr).params_view().len() == l.params_view().len(),
        forall|j: int|
            0 <= j < l.params_view().len() ==> #[trigger] l.updated(lr).params_view()[j]
                == fx_sub_spec(l.params_view()[j], fx_mul_spec(lr, l.grads_view()[j])),
{
    match l {
        LayerModel::Linear(lm) => {
            assert forall|j: int|
                0 <= j < l.params_view().len() implies #[trigger] l.updated(lr).params_view()[j]
                == fx_sub_spec(l.params_view()[j], fx_mul_spec(lr, l.grads_view()[j])) by {
                if j < lm.weights.len() {
                    assert(l.params_view()[j] == lm.weights[j]);
                    assert(l.grads_view()[j] == lm.grad_weights[j]);
                    assert(l.updated(lr).params_view()[j] == lm.updated(lr).weights[j]);
                } else {
                    assert(lm.bias_enabled);
                    assert(l.params_view()[j] == lm.biases[j - lm.weights.len()]);
                    assert(l.grads_view()[j] == lm.grad_biases[j - lm.weights.len()]);
                    assert(l.updated(lr).params_view()[j] == lm.updated(lr).biases[j
                        - lm.weights.len()]);
                }
            }
        },
        LayerModel::Activation(_) => {},
    }
}

/// Parallel alignment: the flattened parameter and gradient views of a
/// pipeline of well-formed layers always have equal length; after one
/// gradient-descent update, each parameter equals the old parameter minus
/// `lr` times the positionally corresponding gradient, and the gradient view
/// is unchanged.
pub proof fn lemma_parameter_update_aligned(layers: Seq<LayerModel>, lr: int)
    requires
        forall|i: int| 0 <= i < layers.len() ==> (#[trigger] layers[i]).wf(),
    ensures
        params_of(layers).len() == grads_of(layers).len(),
        grads_of(updated_layers(layers, lr)) == grads_of(layers),
        params_of(updated_layers(layers, lr)).len() == params_of(layers).len(),
        forall|i: int|
            0 <= i < params_of(layers).len() ==> #[trigger] params_of(updated_layers(layers, lr))[i]
                == fx_sub_spec(params_of(layers)[i], fx_mul_spec(lr, grads_of(layers)[i])),
    decreases layers.len(),
{
    if layers.len() == 0 {
        assert(updated_layers(layers, lr) =~= Seq::<LayerModel>::empty());
        assert(grads_of(updated_layers(layers, lr)) =~= grads_of(layers));
    } else {
        let dl = layers.drop_last();
        let last = layers.last();
        assert forall|i: int| 0 <= i < dl.len() implies (#[trigger] dl[i]).wf() by {
            assert(dl[i] == layers[i]);
        }
        lemma_parameter_update_aligned(dl, lr);
        lemma_layer_update_rule(last, lr);
        lemma_layer_updated(last, lr);
        let ul = updated_layers(layers, lr);
        assert(ul.drop_last() =~= updated_layers(dl, lr));
        assert(ul.last() == last.updated(lr));
        assert(params_of(ul) == params_of(updated_layers(dl, lr)) + last.updated(
            lr,
        ).params_view());
        assert(grads_of(ul) == grads_of(updated_layers(dl, lr)) + last.updated(lr).grads_view());
        assert(grads_of(ul) =~= grads_of(layers));
        let plen = params_of(dl).len() as int;
        assert forall|i: int|
            0 <= i < params_of(layers).len() implies #[trigger] params_of(updated_layers(
            layers,
            lr,
        ))[i] == fx_sub_spec(params_of(layers)[i], fx_mul_spec(lr, grads_of(layers)[i])) by {
            if i < plen {
                assert(params_of(ul)[i] == params_of(updated_layers(dl, lr))[i]);
                assert(params_of(layers)[i] == params_of(dl)[i]);
                assert(grads_of(layers)[i] == grads_of(dl)[i]);
            } else {
                assert(params_of(ul)[i] == last.updated(lr).params_view()[i - plen]);
                assert(params_of(layers)[i] == last.params_view()[i - plen]);
                assert(grads_of(layers)[i] == last.grads_view()[i - plen]);
            }
        }
    }
}

} // verus!
