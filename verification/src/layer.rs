//! The closed tagged variant over the layer kinds, matched exhaustively in
//! `forward`, `backward` and `zero_grad`.

use vstd::prelude::*;
use crate::activation::{ActivationFunction, ActivationModel};
use crate::error::NnError;
use crate::fixed::ints;
use crate::linear::{Linear, LinearModel};

verus! {

/// The mathematical state of a layer.
#[verifier::ext_equal]
pub enum LayerModel {
    Linear(LinearModel),
    Activation(ActivationModel),
}

impl LayerModel {
    /// Shape invariant of the underlying layer.
    pub open spec fn wf(self) -> bool {
        match self {
            LayerModel::Linear(l) => l.wf(),
            LayerModel::Activation(a) => a.wf(),
        }
    }

    /// The width this layer accepts.
    pub open spec fn in_dim(self) -> nat {
        match self {
            LayerModel::Linear(l) => l.input_dim,
            LayerModel::Activation(a) => a.dim,
        }
    }

    /// The width this layer produces.
    pub open spec fn out_dim(self) -> nat {
        match self {
            LayerModel::Linear(l) => l.output_dim,
            LayerModel::Activation(a) => a.dim,
        }
    }

    /// Whether forward state is cached, so a backward pass can run.
    pub open spec fn ready(self) -> bool {
        match self {
            LayerModel::Linear(l) => l.cached_input is Some,
            LayerModel::Activation(a) => a.cached_state is Some,
        }
    }

    /// The layer state and output of a forward pass on input `x`.
    pub open spec fn forward_res(self, x: Seq<int>) -> (LayerModel, Seq<int>)
        recommends
            self.wf(),
            x.len() == self.in_dim(),
    {
        match self {
            LayerModel::Linear(l) => (LayerModel::Linear(l.forward_upd(x)), l.forward_out(x)),
            LayerModel::Activation(a) => (
                LayerModel::Activation(a.forward_upd(x)),
                a.forward_out(x),
            ),
        }
    }

    /// The layer state and input gradient of a backward pass on gradient `g`.
    pub open spec fn backward_res(self, g: Seq<int>) -> (LayerModel, Seq<int>)
        recommends
            self.wf(),
            self.ready(),
            g.len() == self.out_dim(),
    {
        match self {
            LayerModel::Linear(l) => (LayerModel::Linear(l.backward_upd(g)), l.grad_input(g)),
            LayerModel::Activation(a) => (LayerModel::Activation(a), a.backward_out(g)),
        }
    }

    /// The layer state after `zero_grad`.
    pub open spec fn zeroed(self) -> LayerModel {
        match self {
            LayerModel::Linear(l) => LayerModel::Linear(l.zeroed()),
            LayerModel::Activation(a) => LayerModel::Activation(a.zeroed()),
        }
    }

    /// This layer's contribution to the flattened parameter view: weights,
    /// then biases when enabled; activation layers contribute nothing.
    pub open spec fn params_view(self) -> Seq<int> {
        match self {
            LayerModel::Linear(l) => l.params_view(),
            LayerModel::Activation(_) => Seq::empty(),
        }
    }

    /// The layer with its learnable parameters replaced by `vs` (a no-op on
    /// activation layers, whose parameter view is empty).
    pub open spec fn with_params(self, vs: Seq<int>) -> LayerModel
        recommends
            vs.len() == self.params_view().len(),
    {
        match self {
            LayerModel::Linear(l) => LayerModel::Linear(l.with_params(vs)),
            LayerModel::Activation(a) => LayerModel::Activation(a),
        }
    }

    /// This layer's contribution to the flattened gradient view, positionally
    /// aligned with `params_view`.
    pub open spec fn grads_view(self) -> Seq<int> {
        match self {
            LayerModel::Linear(l) => if l.bias_enabled {
                l.grad_weights + l.grad_biases
            } else {
                l.grad_weights
            },
            LayerModel::Activation(_) => Seq::empty(),
        }
    }

    /// The layer after one gradient-descent update: every learnable parameter
    /// moves by `-lr` times its accumulated gradient.
    pub open spec fn updated(self, lr: int) -> LayerModel {
        match self {
            LayerModel::Linear(l) => LayerModel::Linear(l.updated(lr)),
            LayerModel::Activation(a) => LayerModel::Activation(a),
        }
    }
}

/// A forward pass keeps a layer's shape and parameters, fills its cache, and
/// returns a vector of the layer's output width.
pub proof fn lemma_layer_forward(l: LayerModel, x: Seq<int>)
    requires
        l.wf(),
        x.len() == l.in_dim(),
    ensures
        ({
            let (l2, y) = l.forward_res(x);
            &&& l2.wf()
            &&& l2.in_dim() == l.in_dim()
            &&& l2.out_dim() == l.out_dim()
            &&& l2.ready()
            &&& y.len() == l.out_dim()
            &&& l2.params_view() == l.params_view()
            &&& l2.grads_view() == l.grads_view()
        }),
{
}

/// A backward pass keeps a layer's shape, cache and parameters, and returns a
/// gradient of the layer's input width.
pub proof fn lemma_layer_backward(l: LayerModel, g: Seq<int>)
    requires
        l.wf(),
        l.ready(),
        g.len() == l.out_dim(),
    ensures
        ({
            let (l2, gi) = l.backward_res(g);
            &&& l2.wf()
            &&& l2.in_dim() == l.in_dim()
            &&& l2.out_dim() == l.out_dim()
            &&& l2.ready()
            &&& gi.len() == l.in_dim()
            &&& l2.params_view() == l.params_view()
        }),
{
}

/// `zero_grad` keeps a layer's shape and parameters.
pub proof fn lemma_layer_zeroed(l: LayerModel)
    requires
        l.wf(),
    ensures
        l.zeroed().wf(),
        l.zeroed().in_dim() == l.in_dim(),
        l.zeroed().out_dim() == l.out_dim(),
        l.zeroed().params_view() == l.params_view(),
{
}

/// A parameter write-back keeps a layer's shape, cache and gradients, and its
/// new parameter view is exactly the written sequence.
pub proof fn lemma_layer_with_params(l: LayerModel, vs: Seq<int>)
    requires
        l.wf(),
        vs.len() == l.params_view().len(),
    ensures
        l.with_params(vs).wf(),
        l.with_params(vs).in_dim() == l.in_dim(),
        l.with_params(vs).out_dim() == l.out_dim(),
        l.with_params(vs).ready() == l.ready(),
        l.with_params(vs).grads_view() == l.grads_view(),
        l.with_params(vs).params_view() == vs,
{
    match l {
        LayerModel::Linear(lm) => {
            assert(lm.with_params(vs).params_view() =~= vs);
        },
        LayerModel::Activation(_) => {
            assert(l.with_params(vs).params_view() =~= vs);
        },
    }
}

/// A parameter update keeps a layer's shape, cache and gradients.
pub proof fn lemma_layer_updated(l: LayerModel, lr: int)
    requires
        l.wf(),
    ensures
        l.updated(lr).wf(),
        l.updated(lr).in_dim() == l.in_dim(),
        l.updated(lr).out_dim() == l.out_dim(),
        l.updated(lr).ready() == l.ready(),
        l.updated(lr).grads_view() == l.grads_view(),
{
}

/// A layer of the pipeline: an affine transform or an elementwise activation.
pub enum Layer {
    Linear(Linear),
    Activation(ActivationFunction),
}

impl View for Layer {
    type V = LayerModel;

    open spec fn view(&self) -> LayerModel {
        match self {
            Layer::Linear(l) => LayerModel::Linear(l@),
            Layer::Activation(a) => LayerModel::Activation(a@),
        }
    }
}

impl Layer {
    /// The width this layer accepts.
    pub fn input_dim(&self) -> (r: usize)
        ensures
            r == self@.in_dim(),
    {
        match self {
            Layer::Linear(l) => l.input_dim,
            Layer::Activation(a) => a.dim,
        }
    }

    /// The width this layer produces.
    pub fn output_dim(&self) -> (r: usize)
        ensures
            r == self@.out_dim(),
    {
        match self {
            Layer::Linear(l) => l.output_dim,
            Layer::Activation(a) => a.dim,
        }
    }

    /// Whether forward state is cached, so a backward pass can run.
    pub fn is_ready(&self) -> (r: bool)
        ensures
            r == self@.ready(),
    {
        match self {
            Layer::Linear(l) => l.is_ready(),
            Layer::Activation(a) => a.is_ready(),
        }
    }

    /// Forward pass of the underlying layer.
    pub fn forward(&mut self, input: &Vec<i64>) -> (r: Result<Vec<i64>, NnError>)
        requires
            old(self)@.wf(),
        ensures
            final(self)@.wf(),
            r is Ok <==> input@.len() == old(self)@.in_dim(),
            r matches Ok(out) ==> {
                &&& final(self)@ == old(self)@.forward_res(ints(input@)).0
                &&& ints(out@) == old(self)@.forward_res(ints(input@)).1
            },
            r is Err ==> final(self)@ == old(self)@ && r == Err::<Vec<i64>, NnError>(
                NnError::DimensionMismatch {
                    expected: old(self)@.in_dim() as usize,
                    actual: input.len(),
                },
            ),
    {
        match self {
            Layer::Linear(l) => l.forward(input),
            Layer::Activation(a) => a.forward(input),
        }
    }

    /// Backward pass of the underlying layer.
    pub fn backward(&mut self, grad_output: &Vec<i64>) -> (r: Result<Vec<i64>, NnError>)
        requires
            old(self)@.wf(),
        ensures
            final(self)@.wf(),
            r is Ok <==> (grad_output@.len() == old(self)@.out_dim() && old(self)@.ready()),
            r matches Ok(gi) ==> {
                &&& final(self)@ == old(self)@.backward_res(ints(grad_output@)).0
                &&& ints(gi@) == old(self)@.backward_res(ints(grad_output@)).1
            },
            r is Err ==> final(self)@ == old(self)@,
            grad_output@.len() != old(self)@.out_dim() ==> r == Err::<Vec<i64>, NnError>(
                NnError::DimensionMismatch {
                    expected: old(self)@.out_dim() as usize,
                    actual: grad_output.len(),
                },
            ),
            grad_output@.len() == old(self)@.out_dim() && !old(self)@.ready() ==> r == Err::<
                Vec<i64>,
                NnError,
            >(NnError::BackwardBeforeForward),
    {
        match self {
            Layer::Linear(l) => l.backward(grad_output),
            Layer::Activation(a) => a.backward(grad_output),
        }
    }

    /// Applies one gradient-descent step to the layer's learnable parameters
    /// (a no-op on activation layers).
    pub fn apply_update(&mut self, lr: i64)
        requires
            old(self)@.wf(),
        ensures
            final(self)@.wf(),
            final(self)@ == old(self)@.updated(lr as int),
    {
        match self {
            Layer::Linear(l) => l.apply_update(lr),
            Layer::Activation(_) => (),
        }
    }

    /// Writes the slice `vals[offset ..]` back into the layer's learnable
    /// parameters (a no-op on activation layers) and returns how many scalars
    /// were consumed.
    pub fn set_params(&mut self, vals: &Vec<i64>, offset: usize) -> (consumed: usize)
        requires
            old(self)@.wf(),
            offset + old(self)@.params_view().len() <= vals@.len(),
        ensures
            final(self)@.wf(),
            consumed == old(self)@.params_view().len(),
            final(self)@ == old(self)@.with_params(
                ints(vals@).subrange(
                    offset as int,
                    offset + old(self)@.params_view().len(),
                ),
            ),
    {
        match self {
            Layer::Linear(l) => l.set_params(vals, offset),
            Layer::Activation(_) => 0,
        }
    }

    /// Zeroes the layer's gradient state.
    pub fn zero_grad(&mut self)
        requires
            old(self)@.wf(),
        ensures
            final(self)@.wf(),
            final(self)@ == old(self)@.zeroed(),
    {
        match self {
            Layer::Linear(l) => l.zero_grad(),
            Layer::Activation(a) => a.zero_grad(),
        }
    }
}

} // verus!
