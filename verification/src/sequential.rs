//! The `Sequential` pipeline: an ordered, exclusively owned sequence of
//! layers, chained left-to-right in `forward` and right-to-left in `backward`,
//! with flattened, positionally aligned parameter and gradient views.

use vstd::prelude::*;
use crate::activation::{Activation, ActivationFunction, ActivationModel};
use crate::error::NnError;
use crate::fixed::{copy_scalars, ints};
use crate::layer::{
    lemma_layer_backward,
    lemma_layer_forward,
    lemma_layer_updated,
    lemma_layer_with_params,
    lemma_layer_zeroed,
    Layer,
    LayerModel,
};
use crate::linear::{Linear, LinearModel};
use crate::rng::{draw_seq, lcg_after, xavier_limit_spec, Rng};

verus! {

/// The mathematical state of a pipeline: its declared input width and the
/// states of its layers, in order.
#[verifier::ext_equal]
pub struct PipelineModel {
    pub input_dim: nat,
    pub layers: Seq<LayerModel>,
}

impl PipelineModel {
    /// Every layer is well-formed and accepts exactly the width produced by
    /// its predecessor (the declared input width for the first layer).
    pub open spec fn chain_ok(self) -> bool {
        forall|i: int|
            0 <= i < self.layers.len() ==> {
                &&& (#[trigger] self.layers[i]).wf()
                &&& self.layers[i].in_dim() == if i == 0 {
                    self.input_dim
                } else {
                    self.layers[i - 1].out_dim()
                }
            }
    }

    /// The width the pipeline produces: the trailing layer's output width, or
    /// the declared input width while the pipeline is empty.
    pub open spec fn out_dim(self) -> nat {
        if self.layers.len() == 0 {
            self.input_dim
        } else {
            self.layers.last().out_dim()
        }
    }

    /// Every layer holds cached forward state, so a backward pass can run.
    pub open spec fn all_ready(self) -> bool {
        forall|i: int| 0 <= i < self.layers.len() ==> (#[trigger] self.layers[i]).ready()
    }
}

/// The models of a vector of layers, in order.
pub open spec fn views_of(layers: Seq<Layer>) -> Seq<LayerModel> {
    layers.map_values(|l: Layer| l@)
}

/// The layer states and final output of folding `x` forward through `layers`.
pub open spec fn run_forward(layers: Seq<LayerModel>, x: Seq<int>) -> (Seq<LayerModel>, Seq<int>)
    decreases layers.len(),
{
    if layers.len() == 0 {
        (layers, x)
    } else {
        let prev = run_forward(layers.drop_last(), x);
        let step = layers.last().forward_res(prev.1);
        (prev.0.push(step.0), step.1)
    }
}

/// The layer states and input gradient of folding `g` backward through
/// `layers`, in reverse order.
pub open spec fn run_backward(layers: Seq<LayerModel>, g: Seq<int>) -> (Seq<LayerModel>, Seq<int>)
    decreases layers.len(),
{
    if layers.len() == 0 {
        (layers, g)
    } else {
        let step = layers.last().backward_res(g);
        let prev = run_backward(layers.drop_last(), step.1);
        (prev.0.push(step.0), prev.1)
    }
}

/// Every layer with its gradient state zeroed.
pub open spec fn zeroed_layers(layers: Seq<LayerModel>) -> Seq<LayerModel> {
    layers.map_values(|l: LayerModel| l.zeroed())
}

/// The flattened parameter view: pipeline order, weights before biases within
/// each linear layer; activation layers contribute nothing.
pub open spec fn params_of(layers: Seq<LayerModel>) -> Seq<int>
    decreases layers.len(),
{
    if layers.len() == 0 {
        Seq::empty()
    } else {
        params_of(layers.drop_last()) + layers.last().params_view()
    }
}

/// The flattened gradient view, positionally aligned with `params_of`.
pub open spec fn grads_of(layers: Seq<LayerModel>) -> Seq<int>
    decreases layers.len(),
{
    if layers.len() == 0 {
        Seq::empty()
    } else {
        grads_of(layers.drop_last()) + layers.last().grads_view()
    }
}

/// Every layer after one gradient-descent step with learning rate `lr`.
pub open spec fn updated_layers(layers: Seq<LayerModel>, lr: int) -> Seq<LayerModel> {
    layers.map_values(|l: LayerModel| l.updated(lr))
}

/// Every layer with its learnable parameters replaced by its chunk of `vs`,
/// consumed in pipeline order (the order `params_of` flattens them).
pub open spec fn with_params(layers: Seq<LayerModel>, vs: Seq<int>) -> Seq<LayerModel>
    recommends
        vs.len() == params_of(layers).len(),
    decreases layers.len(),
{
    if layers.len() == 0 {
        layers
    } else {
        let cut = vs.len() - layers.last().params_view().len();
        with_params(layers.drop_last(), vs.take(cut as int)).push(
            layers.last().with_params(vs.skip(cut as int)),
        )
    }
}

/// A forward pass through a well-chained pipeline preserves the chain and
/// every layer's shape and parameters, leaves every layer ready, and produces
/// the pipeline's output width.
#[verifier::rlimit(60)]
pub proof fn lemma_run_forward(m: PipelineModel, x: Seq<int>)
    requires
        m.chain_ok(),
        x.len() == m.input_dim,
    ensures
        ({
            let (ls, y) = run_forward(m.layers, x);
            &&& ls.len() == m.layers.len()
            &&& PipelineModel { input_dim: m.input_dim, layers: ls }.chain_ok()
            &&& forall|i: int|
                0 <= i < ls.len() ==> {
                    &&& (#[trigger] ls[i]).wf()
                    &&& ls[i].in_dim() == m.layers[i].in_dim()
                    &&& ls[i].out_dim() == m.layers[i].out_dim()
                    &&& ls[i].ready()
                    &&& ls[i].params_view() == m.layers[i].params_view()
                    &&& ls[i].grads_view() == m.layers[i].grads_view()
                }
            &&& y.len() == m.out_dim()
        }),
    decreases m.layers.len(),
{
    if m.layers.len() > 0 {
        let n = m.layers.len() as int;
        let prefix = PipelineModel { input_dim: m.input_dim, layers: m.layers.drop_last() };
        assert(prefix.chain_ok());
        lemma_run_forward(prefix, x);
        let prev = run_forward(m.layers.drop_last(), x);
        assert(prev.1.len() == m.layers.last().in_dim());
        lemma_layer_forward(m.layers.last(), prev.1);
        let step = m.layers.last().forward_res(prev.1);
        let ls = prev.0.push(step.0);
        assert forall|i: int|
            0 <= i < ls.len() implies {
            &&& (#[trigger] ls[i]).wf()
            &&& ls[i].in_dim() == m.layers[i].in_dim()
            &&& ls[i].out_dim() == m.layers[i].out_dim()
            &&& ls[i].ready()
            &&& ls[i].params_view() == m.layers[i].params_view()
            &&& ls[i].grads_view() == m.layers[i].grads_view()
        } by {
            if i < n - 1 {
                assert(ls[i] == prev.0[i]);
                assert(m.layers.drop_last()[i] == m.layers[i]);
                assert(prev.0[i].wf());
                assert(prev.0[i].in_dim() == m.layers.drop_last()[i].in_dim());
                assert(prev.0[i].out_dim() == m.layers.drop_last()[i].out_dim());
                assert(prev.0[i].ready());
                assert(prev.0[i].params_view() == m.layers.drop_last()[i].params_view());
                assert(prev.0[i].grads_view() == m.layers.drop_last()[i].grads_view());
            } else {
                assert(ls[i] == step.0);
                assert(m.layers[i] == m.layers.last());
            }
        }
        let res = PipelineModel { input_dim: m.input_dim, layers: ls };
        assert forall|i: int|
            0 <= i < ls.len() implies {
            &&& (#[trigger] ls[i]).wf()
            &&& ls[i].in_dim() == if i == 0 {
                m.input_dim
            } else {
                ls[i - 1].out_dim()
            }
        } by {
            assert(ls[i].in_dim() == m.layers[i].in_dim());
            if i > 0 {
                assert(ls[i - 1].out_dim() == m.layers[i - 1].out_dim());
                assert(m.layers[i].in_dim() == m.layers[i - 1].out_dim());
            }
        }
        assert(res.chain_ok());
    }
}

/// A backward pass through a ready, well-chained pipeline preserves the chain,
/// every layer's shape, cache and parameters, and produces a gradient of the
/// pipeline's declared input width.
#[verifier::rlimit(100)]
pub proof fn lemma_run_backward(m: PipelineModel, g: Seq<int>)
    requires
        m.chain_ok(),
        m.all_ready(),
        g.len() == m.out_dim(),
    ensures
        ({
            let (ls, gi) = run_backward(m.layers, g);
            &&& ls.len() == m.layers.len()
            &&& PipelineModel { input_dim: m.input_dim, layers: ls }.chain_ok()
            &&& forall|i: int|
                0 <= i < ls.len() ==> {
                    &&& (#[trigger] ls[i]).wf()
                    &&& ls[i].in_dim() == m.layers[i].in_dim()
                    &&& ls[i].out_dim() == m.layers[i].out_dim()
                    &&& ls[i].ready()
                    &&& ls[i].params_view() == m.layers[i].params_view()
                }
            &&& gi.len() == m.input_dim
        }),
    decreases m.layers.len(),
{
    if m.layers.len() > 0 {
        let n = m.layers.len() as int;
        let last = m.layers.last();
        lemma_layer_backward(last, g);
        let step = last.backward_res(g);
        let prefix = PipelineModel { input_dim: m.input_dim, layers: m.layers.drop_last() };
        assert(prefix.chain_ok());
        assert(prefix.all_ready());
        assert(step.1.len() == prefix.out_dim());
        lemma_run_backward(prefix, step.1);
        let prev = run_backward(m.layers.drop_last(), step.1);
        let ls = prev.0.push(step.0);
        assert forall|i: int|
            0 <= i < ls.len() implies {
            &&& (#[trigger] ls[i]).wf()
            &&& ls[i].in_dim() == m.layers[i].in_dim()
            &&& ls[i].out_dim() == m.layers[i].out_dim()
            &&& ls[i].ready()
            &&& ls[i].params_view() == m.layers[i].params_view()
        } by {
            if i < n - 1 {
                assert(ls[i] == prev.0[i]);
                assert(m.layers.drop_last()[i] == m.layers[i]);
                assert(prev.0[i].wf());
                assert(prev.0[i].in_dim() == m.layers.drop_last()[i].in_dim());
                assert(prev.0[i].out_dim() == m.layers.drop_last()[i].out_dim());
                assert(prev.0[i].ready());
                assert(prev.0[i].params_view() == m.layers.drop_last()[i].params_view());
            } else {
                assert(ls[i] == step.0);
                assert(m.layers[i] == m.layers.last());
            }
        }
        let res = PipelineModel { input_dim: m.input_dim, layers: ls };
        assert forall|i: int|
            0 <= i < ls.len() implies {
            &&& (#[trigger] ls[i]).wf()
            &&& ls[i].in_dim() == if i == 0 {
                m.input_dim
            } else {
                ls[i - 1].out_dim()
            }
        } by {
            assert(ls[i].in_dim() == m.layers[i].in_dim());
            if i > 0 {
                assert(ls[i - 1].out_dim() == m.layers[i - 1].out_dim());
                assert(m.layers[i].in_dim() == m.layers[i - 1].out_dim());
            }
        }
        assert(res.chain_ok());
    }
}

/// The seed used by `Sequential::new` for weight initialization.
pub const DEFAULT_SEED: u64 = 42;

/// The freshly initialized linear layer a builder appends: Xavier-uniform
/// weights drawn from the generator at `state`, zero biases and gradients.
pub open spec fn fresh_linear(in_dim: nat, out_dim: nat, state: int) -> LinearModel {
    LinearModel {
        input_dim: in_dim,
        output_dim: out_dim,
        weights: draw_seq(state, (in_dim * out_dim) as nat, xavier_limit_spec(in_dim, out_dim)),
        biases: Seq::new(out_dim, |i: int| 0),
        grad_weights: Seq::new((in_dim * out_dim) as nat, |i: int| 0),
        grad_biases: Seq::new(out_dim, |i: int| 0),
        bias_enabled: true,
        cached_input: None,
    }
}

/// The freshly constructed activation layer a builder appends.
pub open spec fn fresh_activation(kind: Activation, dim: nat) -> ActivationModel {
    ActivationModel { activation: kind, dim, cached_state: None }
}

/// An ordered pipeline of layers; owns its layers exclusively and carries the
/// generator that initializes each appended linear layer.
pub struct Sequential {
    layers: Vec<Layer>,
    input_dim: usize,
    rng: Rng,
}

impl View for Sequential {
    type V = PipelineModel;

    closed spec fn view(&self) -> PipelineModel {
        PipelineModel {
            input_dim: self.input_dim as nat,
            layers: views_of(self.layers@),
        }
    }
}

impl Sequential {
    /// Well-formedness: the layers chain, each accepting its predecessor's width.
    pub open spec fn wf(&self) -> bool {
        self@.chain_ok()
    }

    /// The generator state that will initialize the next linear layer.
    pub closed spec fn rng_state(&self) -> int {
        self.rng.state_spec()
    }

    /// An empty pipeline of the given input width, with weight initialization
    /// seeded explicitly.
    pub fn with_seed(input_dim: usize, seed: u64) -> (r: Sequential)
        ensures
            r.wf(),
            r@.input_dim == input_dim,
            r@.layers.len() == 0,
            r.rng_state() == seed as int,
    {
        let r = Sequential { layers: Vec::new(), input_dim, rng: Rng::new(seed) };
        proof {
            assert(r@.layers =~= Seq::<LayerModel>::empty());
        }
        r
    }

    /// An empty pipeline of the given input width, seeded with `DEFAULT_SEED`.
    pub fn new(input_dim: usize) -> (r: Sequential)
        ensures
            r.wf(),
            r@.input_dim == input_dim,
            r@.layers.len() == 0,
            r.rng_state() == DEFAULT_SEED as int,
    {
        Sequential::with_seed(input_dim, DEFAULT_SEED)
    }

    /// The pipeline's declared input width.
    pub fn input_dim(&self) -> (r: usize)
        ensures
            r == self@.input_dim,
    {
        self.input_dim
    }

    /// The pipeline's current output width: the trailing layer's output width,
    /// or the declared input width while no layer was appended.
    pub fn output_dim(&self) -> (r: usize)
        ensures
            r == self@.out_dim(),
    {
        let n = self.layers.len();
        if n == 0 {
            self.input_dim
        } else {
            let r = (&self.layers[n - 1]).output_dim();
            proof {
                assert(self@.layers[n - 1] == self.layers@[n - 1]@);
            }
            r
        }
    }

    /// The number of layers in the pipeline.
    pub fn len(&self) -> (r: usize)
        ensures
            r == self@.layers.len(),
    {
        self.layers.len()
    }

    /// Appends a linear layer from the current trailing width to
    /// `output_dim`, with Xavier-uniform weights drawn from the pipeline's
    /// generator.
    pub fn linear(self, output_dim: usize) -> (r: Sequential)
        requires
            self.wf(),
            self@.out_dim() + output_dim >= 1,
            self@.out_dim() * output_dim <= usize::MAX,
            self@.out_dim() + output_dim <= usize::MAX,
        ensures
            r.wf(),
            r@.input_dim == self@.input_dim,
            r@.layers == self@.layers.push(
                LayerModel::Linear(
                    fresh_linear(self@.out_dim(), output_dim as nat, self.rng_state()),
                ),
            ),
            r.rng_state() == lcg_after(self.rng_state(), (self@.out_dim() * output_dim) as nat),
    {
        let ghost m0 = self@;
        let mut s = self;
        let width = s.output_dim();
        let l = Linear::new(width, output_dim, &mut s.rng);
        s.layers.push(Layer::Linear(l));
        proof {
            let nl = LayerModel::Linear(
                fresh_linear(m0.out_dim(), output_dim as nat, self.rng_state()),
            );
            assert(l@ =~= fresh_linear(m0.out_dim(), output_dim as nat, self.rng_state()));
            assert(s@.layers =~= m0.layers.push(nl));
            lemma_chain_extend(m0, nl);
        }
        s
    }

    /// Appends an activation layer of the given kind at the current width.
    pub fn activation(self, kind: Activation) -> (r: Sequential)
        requires
            self.wf(),
        ensures
            r.wf(),
            r@.input_dim == self@.input_dim,
            r@.layers == self@.layers.push(
                LayerModel::Activation(fresh_activation(kind, self@.out_dim())),
            ),
            r.rng_state() == self.rng_state(),
    {
        let ghost m0 = self@;
        let mut s = self;
        let width = s.output_dim();
        let a = ActivationFunction::new(kind, width);
        s.layers.push(Layer::Activation(a));
        proof {
            let nl = LayerModel::Activation(fresh_activation(kind, m0.out_dim()));
            assert(a@ =~= fresh_activation(kind, m0.out_dim()));
            assert(s@.layers =~= m0.layers.push(nl));
            lemma_chain_extend(m0, nl);
        }
        s
    }

    /// Appends a `Tanh` activation at the current width.
    pub fn tanh(self) -> (r: Sequential)
        requires
            self.wf(),
        ensures
            r.wf(),
            r@.input_dim == self@.input_dim,
            r@.layers == self@.layers.push(
                LayerModel::Activation(fresh_activation(Activation::Tanh, self@.out_dim())),
            ),
            r.rng_state() == self.rng_state(),
    {
        self.activation(Activation::Tanh)
    }

    /// Appends a `ReLU` activation at the current width.
    pub fn relu(self) -> (r: Sequential)
        requires
            self.wf(),
        ensures
            r.wf(),
            r@.input_dim == self@.input_dim,
            r@.layers == self@.layers.push(
                LayerModel::Activation(fresh_activation(Activation::ReLU, self@.out_dim())),
            ),
            r.rng_state() == self.rng_state(),
    {
        self.activation(Activation::ReLU)
    }

    /// Forward pass: folds the input through every layer in order. Requires
    /// (and only fails without) the declared input width; leaves every layer
    /// ready for a backward pass.
    #[verifier::rlimit(100)]
    pub fn forward(&mut self, input: &Vec<i64>) -> (r: Result<Vec<i64>, NnError>)
        requires
            old(self).wf(),
        ensures
            final(self).wf(),
            final(self)@.input_dim == old(self)@.input_dim,
            final(self).rng_state() == old(self).rng_state(),
            r is Ok <==> input@.len() == old(self)@.input_dim,
            r matches Ok(out) ==> {
                &&& final(self)@.layers == run_forward(old(self)@.layers, ints(input@)).0
                &&& ints(out@) == run_forward(old(self)@.layers, ints(input@)).1
                &&& out@.len() == old(self)@.out_dim()
                &&& final(self)@.out_dim() == old(self)@.out_dim()
                &&& final(self)@.all_ready()
            },
            r is Err ==> final(self)@ == old(self)@ && r == Err::<Vec<i64>, NnError>(
                NnError::DimensionMismatch {
                    expected: old(self)@.input_dim as usize,
                    actual: input.len(),
                },
            ),
    {
        if input.len() != self.input_dim {
            return Err(
                NnError::DimensionMismatch { expected: self.input_dim, actual: input.len() },
            );
        }
        let ghost m0 = old(self)@;
        let ghost x0 = ints(input@);
        proof {
            lemma_run_forward(m0, x0);
        }
        let mut cur = copy_scalars(input);
        let n = self.layers.len();
        let mut idx: usize = 0;
        while idx < n
            invariant
                m0.chain_ok(),
                x0.len() == m0.input_dim,
                self.input_dim == old(self).input_dim,
                self.rng == old(self).rng,
                idx <= n,
                self.layers@.len() == n,
                m0.layers.len() == n,
                forall|j: int| idx <= j < n ==> self.layers@[j]@ == m0.layers[j],
                views_of(self.layers@).take(idx as int) == run_forward(
                    m0.layers.take(idx as int),
                    x0,
                ).0,
                ints(cur@) == run_forward(m0.layers.take(idx as int), x0).1,
            decreases n - idx,
        {
            let ghost prevlayers = self.layers@;
            proof {
                lemma_forward_prefix_len(m0, x0, idx as int);
                assert(self.layers@[idx as int]@ == m0.layers[idx as int]);
            }
            let mut lay = self.layers.remove(idx);
            let res = lay.forward(&cur);
            let ghost stepped = lay@;
            self.layers.insert(idx, lay);
            match res {
                Ok(o) => {
                    cur = o;
                },
                Err(e) => {
                    proof {
                        assert(false);
                    }
                    return Err(e);
                },
            }
            proof {
                assert(self.layers@ =~= prevlayers.update(idx as int, lay));
                assert(views_of(self.layers@) =~= views_of(prevlayers).update(
                    idx as int,
                    stepped,
                ));
                assert(views_of(prevlayers).take(idx as int) =~= views_of(self.layers@).take(
                    idx as int,
                ));
                lemma_forward_step(
                    m0,
                    x0,
                    idx as int,
                    views_of(prevlayers),
                    views_of(self.layers@),
                );
            }
            idx = idx + 1;
        }
        proof {
            assert(m0.layers.take(n as int) =~= m0.layers);
            assert(final(self)@.layers =~= views_of(self.layers@).take(n as int));
            if n > 0 {
                assert(run_forward(m0.layers, x0).0.last() == run_forward(m0.layers, x0).0[n - 1]);
                assert(m0.layers.last() == m0.layers[n - 1]);
            }
        }
        Ok(cur)
    }

    /// Whether every layer holds cached forward state.
    pub fn all_layers_ready(&self) -> (r: bool)
        ensures
            r == self@.all_ready(),
    {
        let n = self.layers.len();
        let mut i: usize = 0;
        while i < n
            invariant
                self.layers@.len() == n,
                i <= n,
                forall|j: int| 0 <= j < i ==> (#[trigger] self@.layers[j]).ready(),
            decreases n - i,
        {
            if !(&self.layers[i]).is_ready() {
                proof {
                    assert(self@.layers[i as int] == self.layers@[i as int]@);
                    if self@.all_ready() {
                        assert(self@.layers[i as int].ready());
                    }
                }
                return false;
            }
            proof {
                assert(self@.layers[i as int] == self.layers@[i as int]@);
            }
            i = i + 1;
        }
        true
    }

    /// Backward pass: validates that the gradient has the pipeline's output
    /// width and that every layer holds cached forward state, then folds the
    /// gradient through every layer in reverse order. On any error the
    /// pipeline is left untouched.
    #[verifier::rlimit(100)]
    pub fn backward(&mut self, grad_output: &Vec<i64>) -> (r: Result<Vec<i64>, NnError>)
        requires
            old(self).wf(),
        ensures
            final(self).wf(),
            final(self)@.input_dim == old(self)@.input_dim,
            final(self).rng_state() == old(self).rng_state(),
            r is Ok <==> (grad_output@.len() == old(self)@.out_dim() && old(self)@.all_ready()),
            r matches Ok(gi) ==> {
                &&& final(self)@.layers == run_backward(old(self)@.layers, ints(grad_output@)).0
                &&& ints(gi@) == run_backward(old(self)@.layers, ints(grad_output@)).1
                &&& gi@.len() == old(self)@.input_dim
                &&& final(self)@.out_dim() == old(self)@.out_dim()
            },
            r is Err ==> final(self)@ == old(self)@,
            grad_output@.len() != old(self)@.out_dim() ==> r == Err::<Vec<i64>, NnError>(
                NnError::DimensionMismatch {
                    expected: old(self)@.out_dim() as usize,
                    actual: grad_output.len(),
                },
            ),
            grad_output@.len() == old(self)@.out_dim() && !old(self)@.all_ready() ==> r == Err::<
                Vec<i64>,
                NnError,
            >(NnError::BackwardBeforeForward),
    {
        let width = self.output_dim();
        if grad_output.len() != width {
            return Err(
                NnError::DimensionMismatch { expected: width, actual: grad_output.len() },
            );
        }
        let ghost m0 = old(self)@;
        let ghost g0 = ints(grad_output@);
        let n = self.layers.len();

        // Validate every layer's cache before mutating any gradient state.
        if !self.all_layers_ready() {
            return Err(NnError::BackwardBeforeForward);
        }
        proof {
            lemma_run_backward(m0, g0);
        }

        let mut cur = copy_scalars(grad_output);
        proof {
            assert(m0.layers.take(n as int) =~= m0.layers);
            let maps = views_of(self.layers@);
            assert(maps.skip(n as int) =~= Seq::<LayerModel>::empty());
            assert(run_backward(m0.layers, g0).0 + maps.skip(n as int) =~= run_backward(
                m0.layers,
                g0,
            ).0);
            assert(ints(cur@) == g0);
            if n > 0 {
                assert(m0.layers.last() == m0.layers[n - 1]);
            }
        }
        let mut idx: usize = n;
        while idx > 0
            invariant
                m0.chain_ok(),
                m0.all_ready(),
                g0.len() == m0.out_dim(),
                self.input_dim == old(self).input_dim,
                self.rng == old(self).rng,
                idx <= n,
                self.layers@.len() == n,
                m0.layers.len() == n,
                forall|j: int| 0 <= j < idx ==> self.layers@[j]@ == m0.layers[j],
                run_backward(m0.layers, g0).0 == run_backward(
                    m0.layers.take(idx as int),
                    ints(cur@),
                ).0 + views_of(self.layers@).skip(idx as int),
                run_backward(m0.layers, g0).1 == run_backward(
                    m0.layers.take(idx as int),
                    ints(cur@),
                ).1,
                ints(cur@).len() == (if idx == 0 {
                    m0.input_dim as int
                } else {
                    m0.layers[idx - 1].out_dim() as int
                }),
            decreases idx,
        {
            let k = idx - 1;
            let ghost prevlayers = self.layers@;
            let ghost gin = ints(cur@);
            let mut lay = self.layers.remove(k);
            proof {
                assert(lay@ == m0.layers[k as int]);
            }
            let res = lay.backward(&cur);
            let ghost stepped = lay@;
            self.layers.insert(k, lay);
            match res {
                Ok(o) => {
                    cur = o;
                },
                Err(e) => {
                    proof {
                        assert(false);
                    }
                    return Err(e);
                },
            }
            proof {
                lemma_remove_insert(prevlayers, k as int, lay);
                assert(self.layers@ == prevlayers.update(k as int, lay));
                lemma_views_update(prevlayers, k as int, lay);
                lemma_skip_above_update(views_of(prevlayers), k as int, idx as int, stepped);
                lemma_backward_step(
                    m0,
                    g0,
                    idx as int,
                    views_of(prevlayers),
                    views_of(self.layers@),
                    gin,
                );
            }
            idx = k;
        }
        proof {
            assert(m0.layers.take(0int) =~= Seq::<LayerModel>::empty());
            assert(run_backward(Seq::<LayerModel>::empty(), ints(cur@)) == (
                Seq::<LayerModel>::empty(),
                ints(cur@),
            ));
            assert(run_backward(m0.layers, g0).0 =~= views_of(self.layers@));
            if n > 0 {
                assert(run_backward(m0.layers, g0).0.last() == run_backward(m0.layers, g0).0[n
                    - 1]);
                assert(m0.layers.last() == m0.layers[n - 1]);
            }
        }
        Ok(cur)
    }

    /// Calls `zero_grad` on every layer in order.
    #[verifier::rlimit(100)]
    pub fn zero_grad(&mut self)
        requires
            old(self).wf(),
        ensures
            final(self).wf(),
            final(self)@.input_dim == old(self)@.input_dim,
            final(self).rng_state() == old(self).rng_state(),
            final(self)@.layers == zeroed_layers(old(self)@.layers),
            final(self)@.out_dim() == old(self)@.out_dim(),
    {
        let ghost m0 = old(self)@;
        let n = self.layers.len();
        let mut idx: usize = 0;
        while idx < n
            invariant
                m0.chain_ok(),
                self.input_dim == old(self).input_dim,
                self.rng == old(self).rng,
                idx <= n,
                self.layers@.len() == n,
                m0.layers.len() == n,
                forall|j: int| idx <= j < n ==> self.layers@[j]@ == m0.layers[j],
                forall|j: int| 0 <= j < idx ==> self.layers@[j]@ == m0.layers[j].zeroed(),
            decreases n - idx,
        {
            let mut lay = self.layers.remove(idx);
            proof {
                assert(lay@ == m0.layers[idx as int]);
            }
            lay.zero_grad();
            self.layers.insert(idx, lay);
            idx = idx + 1;
        }
        proof {
            assert(final(self)@.layers =~= zeroed_layers(m0.layers));
            assert forall|i: int|
                0 <= i < n implies {
                &&& (#[trigger] zeroed_layers(m0.layers)[i]).wf()
                &&& zeroed_layers(m0.layers)[i].in_dim() == if i == 0 {
                    m0.input_dim
                } else {
                    zeroed_layers(m0.layers)[i - 1].out_dim()
                }
            } by {
                lemma_layer_zeroed(m0.layers[i]);
                if i > 0 {
                    lemma_layer_zeroed(m0.layers[i - 1]);
                }
            }
            assert(final(self)@.chain_ok());
            if n > 0 {
                assert(zeroed_layers(m0.layers)[n - 1] == m0.layers[n - 1].zeroed());
                lemma_layer_zeroed(m0.layers[n - 1]);
                assert(m0.layers.last() == m0.layers[n - 1]);
                assert(zeroed_layers(m0.layers).last() == zeroed_layers(m0.layers)[n - 1]);
            }
        }
    }

    /// Applies one gradient-descent step with learning rate `lr` to every
    /// learnable parameter in place.
    #[verifier::rlimit(100)]
    pub fn apply_update(&mut self, lr: i64)
        requires
            old(self).wf(),
        ensures
            final(self).wf(),
            final(self)@.input_dim == old(self)@.input_dim,
            final(self).rng_state() == old(self).rng_state(),
            final(self)@.layers == updated_layers(old(self)@.layers, lr as int),
            final(self)@.out_dim() == old(self)@.out_dim(),
    {
        let ghost m0 = old(self)@;
        let n = self.layers.len();
        let mut idx: usize = 0;
        while idx < n
            invariant
                m0.chain_ok(),
                self.input_dim == old(self).input_dim,
                self.rng == old(self).rng,
                idx <= n,
                self.layers@.len() == n,
                m0.layers.len() == n,
                forall|j: int| idx <= j < n ==> self.layers@[j]@ == m0.layers[j],
                forall|j: int| 0 <= j < idx ==> self.layers@[j]@ == m0.layers[j].updated(lr as int),
            decreases n - idx,
        {
            let mut lay = self.layers.remove(idx);
            proof {
                assert(lay@ == m0.layers[idx as int]);
            }
            lay.apply_update(lr);
            self.layers.insert(idx, lay);
            idx = idx + 1;
        }
        proof {
            assert(final(self)@.layers =~= updated_layers(m0.layers, lr as int));
            assert forall|i: int|
                0 <= i < n implies {
                &&& (#[trigger] updated_layers(m0.layers, lr as int)[i]).wf()
                &&& updated_layers(m0.layers, lr as int)[i].in_dim() == if i == 0 {
                    m0.input_dim
                } else {
                    updated_layers(m0.layers, lr as int)[i - 1].out_dim()
                }
            } by {
                lemma_layer_updated(m0.layers[i], lr as int);
                if i > 0 {
                    lemma_layer_updated(m0.layers[i - 1], lr as int);
                }
            }
            assert(final(self)@.chain_ok());
            if n > 0 {
                assert(updated_layers(m0.layers, lr as int)[n - 1] == m0.layers[n - 1].updated(
                    lr as int,
                ));
                lemma_layer_updated(m0.layers[n - 1], lr as int);
                assert(m0.layers.last() == m0.layers[n - 1]);
                assert(updated_layers(m0.layers, lr as int).last() == updated_layers(
                    m0.layers,
                    lr as int,
                )[n - 1]);
            }
        }
    }

    /// The flattened parameter view: a fresh vector scanning the pipeline in
    /// order, appending each linear layer's weights and then (when enabled)
    /// its biases.
    pub fn parameters(&self) -> (r: Vec<i64>)
        ensures
            ints(r@) == params_of(self@.layers),
    {
        let n = self.layers.len();
        let mut r: Vec<i64> = Vec::new();
        proof {
            assert(self@.layers.take(0int) =~= Seq::<LayerModel>::empty());
            assert(ints(r@) =~= Seq::<int>::empty());
        }
        let mut idx: usize = 0;
        while idx < n
            invariant
                self.layers@.len() == n,
                idx <= n,
                ints(r@) == params_of(self@.layers.take(idx as int)),
            decreases n - idx,
        {
            let ghost before = ints(r@);
            let ghost lm = self@.layers[idx as int];
            match &self.layers[idx] {
                Layer::Linear(l) => {
                    let wlen = l.weights.len();
                    let mut k: usize = 0;
                    while k < wlen
                        invariant
                            l.weights@.len() == wlen,
                            k <= wlen,
                            ints(r@) == before + ints(l.weights@).take(k as int),
                        decreases wlen - k,
                    {
                        let ghost rv = ints(r@);
                        r.push(l.weights[k]);
                        proof {
                            assert(ints(r@) =~= rv.push(l.weights@[k as int] as int));
                            assert(ints(r@) =~= before + ints(l.weights@).take(k + 1));
                        }
                        k = k + 1;
                    }
                    proof {
                        assert(ints(l.weights@).take(wlen as int) =~= ints(l.weights@));
                    }
                    if l.bias_enabled {
                        let ghost mid = ints(r@);
                        let blen = l.biases.len();
                        let mut k: usize = 0;
                        while k < blen
                            invariant
                                l.biases@.len() == blen,
                                k <= blen,
                                ints(r@) == mid + ints(l.biases@).take(k as int),
                            decreases blen - k,
                        {
                            let ghost rv = ints(r@);
                            r.push(l.biases[k]);
                            proof {
                                assert(ints(r@) =~= rv.push(l.biases@[k as int] as int));
                                assert(ints(r@) =~= mid + ints(l.biases@).take(k + 1));
                            }
                            k = k + 1;
                        }
                        proof {
                            assert(ints(l.biases@).take(blen as int) =~= ints(l.biases@));
                        }
                    }
                    proof {
                        assert(lm == LayerModel::Linear(l@));
                        assert(ints(r@) =~= before + lm.params_view());
                    }
                },
                Layer::Activation(_) => {
                    proof {
                        assert(lm.params_view() =~= Seq::<int>::empty());
                        assert(ints(r@) =~= before + lm.params_view());
                    }
                },
            }
            proof {
                let pre1 = self@.layers.take(idx + 1);
                assert(pre1.drop_last() =~= self@.layers.take(idx as int));
                assert(pre1.last() == lm);
            }
            idx = idx + 1;
        }
        proof {
            assert(self@.layers.take(n as int) =~= self@.layers);
        }
        r
    }

    /// The flattened gradient view, positionally aligned with `parameters()`.
    pub fn gradients(&self) -> (r: Vec<i64>)
        ensures
            ints(r@) == grads_of(self@.layers),
    {
        let n = self.layers.len();
        let mut r: Vec<i64> = Vec::new();
        proof {
            assert(self@.layers.take(0int) =~= Seq::<LayerModel>::empty());
            assert(ints(r@) =~= Seq::<int>::empty());
        }
        let mut idx: usize = 0;
        while idx < n
            invariant
                self.layers@.len() == n,
                idx <= n,
                ints(r@) == grads_of(self@.layers.take(idx as int)),
            decreases n - idx,
        {
            let ghost before = ints(r@);
            let ghost lm = self@.layers[idx as int];
            match &self.layers[idx] {
                Layer::Linear(l) => {
                    let wlen = l.grad_weights.len();
                    let mut k: usize = 0;
                    while k < wlen
                        invariant
                            l.grad_weights@.len() == wlen,
                            k <= wlen,
                            ints(r@) == before + ints(l.grad_weights@).take(k as int),
                        decreases wlen - k,
                    {
                        let ghost rv = ints(r@);
                        r.push(l.grad_weights[k]);
                        proof {
                            assert(ints(r@) =~= rv.push(l.grad_weights@[k as int] as int));
                            assert(ints(r@) =~= before + ints(l.grad_weights@).take(k + 1));
                        }
                        k = k + 1;
                    }
                    proof {
                        assert(ints(l.grad_weights@).take(wlen as int) =~= ints(l.grad_weights@));
                    }
                    if l.bias_enabled {
                        let ghost mid = ints(r@);
                        let blen = l.grad_biases.len();
                        let mut k: usize = 0;
                        while k < blen
                            invariant
                                l.grad_biases@.len() == blen,
                                k <= blen,
                                ints(r@) == mid + ints(l.grad_biases@).take(k as int),
                            decreases blen - k,
                        {
                            let ghost rv = ints(r@);
                            r.push(l.grad_biases[k]);
                            proof {
                                assert(ints(r@) =~= rv.push(l.grad_biases@[k as int] as int));
                                assert(ints(r@) =~= mid + ints(l.grad_biases@).take(k + 1));
                            }
                            k = k + 1;
                        }
                        proof {
                            assert(ints(l.grad_biases@).take(blen as int) =~= ints(l.grad_biases@));
                        }
                    }
                    proof {
                        assert(lm == LayerModel::Linear(l@));
                        assert(ints(r@) =~= before + lm.grads_view());
                    }
                },
                Layer::Activation(_) => {
                    proof {
                        assert(lm.grads_view() =~= Seq::<int>::empty());
                        assert(ints(r@) =~= before + lm.grads_view());
                    }
                },
            }
            proof {
                let pre1 = self@.layers.take(idx + 1);
                assert(pre1.drop_last() =~= self@.layers.take(idx as int));
                assert(pre1.last() == lm);
            }
            idx = idx + 1;
        }
        proof {
            assert(self@.layers.take(n as int) =~= self@.layers);
        }
        r
    }

    /// The length of the flattened parameter view, saturated at `usize::MAX`;
    /// the flag reports whether saturation happened.
    fn count_params_saturated(&self) -> (r: (usize, bool))
        ensures
            r.1 <==> params_of(self@.layers).len() > usize::MAX,
            r.1 ==> r.0 == usize::MAX,
            !r.1 ==> r.0 as nat == params_of(self@.layers).len(),
    {
        let n = self.layers.len();
        let mut cnt: usize = 0;
        let mut over: bool = false;
        proof {
            assert(self@.layers.take(0int) =~= Seq::<LayerModel>::empty());
        }
        let mut i: usize = 0;
        while i < n
            invariant
                self.layers@.len() == n,
                i <= n,
                over <==> params_of(self@.layers.take(i as int)).len() > usize::MAX,
                over ==> cnt == usize::MAX,
                !over ==> cnt as nat == params_of(self@.layers.take(i as int)).len(),
            decreases n - i,
        {
            let ghost lm = self@.layers[i as int];
            proof {
                lemma_params_of_take_snoc(self@.layers, i as int);
            }
            match &self.layers[i] {
                Layer::Linear(l) => {
                    proof {
                        assert(lm == LayerModel::Linear(l@));
                    }
                    let wl = l.weights.len();
                    if over || wl > usize::MAX - cnt {
                        over = true;
                        cnt = usize::MAX;
                    } else {
                        cnt = cnt + wl;
                    }
                    if l.bias_enabled {
                        let bl = l.biases.len();
                        if over || bl > usize::MAX - cnt {
                            over = true;
                            cnt = usize::MAX;
                        } else {
                            cnt = cnt + bl;
                        }
                    }
                    proof {
                        assert(lm.params_view().len() == l.weights@.len() + (if l.bias_enabled {
                            l.biases@.len()
                        } else {
                            0nat
                        }));
                    }
                },
                Layer::Activation(_) => {
                    proof {
                        assert(lm.params_view().len() == 0);
                    }
                },
            }
            i = i + 1;
        }
        proof {
            assert(self@.layers.take(n as int) =~= self@.layers);
        }
        (cnt, over)
    }

    /// Writes a flattened parameter vector back into the pipeline, in exactly
    /// the order `parameters()` reads it out; fails (leaving the pipeline
    /// untouched) unless the vector has exactly the view's length. Together
    /// with `parameters()` and `gradients()`, this lets any `Optimizer`
    /// implementation drive the pipeline's update.
    #[verifier::rlimit(100)]
    pub fn set_parameters(&mut self, vals: &Vec<i64>) -> (r: Result<(), NnError>)
        requires
            old(self).wf(),
        ensures
            final(self).wf(),
            final(self)@.input_dim == old(self)@.input_dim,
            final(self).rng_state() == old(self).rng_state(),
            final(self)@.out_dim() == old(self)@.out_dim(),
            r is Ok <==> vals@.len() == params_of(old(self)@.layers).len(),
            r is Ok ==> {
                &&& final(self)@.layers == with_params(old(self)@.layers, ints(vals@))
                &&& params_of(final(self)@.layers) == ints(vals@)
                &&& grads_of(final(self)@.layers) == grads_of(old(self)@.layers)
            },
            r is Err ==> final(self)@ == old(self)@ && r == Err::<(), NnError>(
                NnError::LengthMismatch {
                    params: if params_of(old(self)@.layers).len() > usize::MAX {
                        usize::MAX
                    } else {
                        params_of(old(self)@.layers).len() as usize
                    },
                    grads: vals.len(),
                },
            ),
    {
        let (total, over) = self.count_params_saturated();
        if over || total != vals.len() {
            return Err(NnError::LengthMismatch { params: total, grads: vals.len() });
        }
        let ghost m0 = old(self)@;
        let ghost vsq = ints(vals@);
        let vlen = vals.len();
        proof {
            assert forall|j: int| 0 <= j < m0.layers.len() implies (#[trigger] m0.layers[j]).wf() by {
                assert(m0.chain_ok());
            }
            lemma_with_params_roundtrip(m0.layers, vsq);
            assert(m0.layers.take(0int) =~= Seq::<LayerModel>::empty());
            assert(views_of(self.layers@).take(0int) =~= with_params(
                m0.layers.take(0int),
                vsq.take(0int),
            ));
        }
        let n = self.layers.len();
        let mut offset: usize = 0;
        let mut i: usize = 0;
        while i < n
            invariant
                m0.chain_ok(),
                self.input_dim == old(self).input_dim,
                self.rng == old(self).rng,
                i <= n,
                self.layers@.len() == n,
                m0.layers.len() == n,
                vsq == ints(vals@),
                vsq.len() == params_of(m0.layers).len(),
                vals@.len() <= usize::MAX,
                offset as int == params_of(m0.layers.take(i as int)).len(),
                offset <= vals@.len(),
                forall|j: int| i <= j < n ==> self.layers@[j]@ == m0.layers[j],
                views_of(self.layers@).take(i as int) == with_params(
                    m0.layers.take(i as int),
                    vsq.take(offset as int),
                ),
            decreases n - i,
        {
            let ghost off0 = offset as int;
            proof {
                lemma_params_of_split(m0.layers, i as int);
                lemma_params_of_skip_head(m0.layers, i as int);
                assert(off0 + m0.layers[i as int].params_view().len() <= vsq.len());
                assert(m0.layers[i as int].wf());
            }
            let ghost prevlayers = self.layers@;
            let mut lay = self.layers.remove(i);
            proof {
                assert(lay@ == m0.layers[i as int]);
            }
            let consumed = lay.set_params(vals, offset);
            let ghost written = lay@;
            self.layers.insert(i, lay);
            proof {
                lemma_remove_insert(prevlayers, i as int, lay);
                assert(self.layers@ == prevlayers.update(i as int, lay));
                lemma_views_update(prevlayers, i as int, lay);
                lemma_take_below_update(views_of(prevlayers), i as int, written);
                assert(views_of(self.layers@).take(i + 1) =~= views_of(prevlayers).take(
                    i as int,
                ).push(written));
                lemma_set_params_step(m0.layers, vsq, i as int, off0);
            }
            offset = offset + consumed;
            i = i + 1;
        }
        proof {
            assert(m0.layers.take(n as int) =~= m0.layers);
            assert(vsq.take(offset as int) =~= vsq);
            assert(final(self)@.layers =~= views_of(self.layers@).take(n as int));
            let wp = with_params(m0.layers, vsq);
            assert forall|j: int|
                0 <= j < n implies {
                &&& (#[trigger] wp[j]).wf()
                &&& wp[j].in_dim() == if j == 0 {
                    m0.input_dim
                } else {
                    wp[j - 1].out_dim()
                }
            } by {
                assert(wp[j].in_dim() == m0.layers[j].in_dim());
                if j > 0 {
                    assert(wp[j - 1].out_dim() == m0.layers[j - 1].out_dim());
                    assert(m0.layers[j].in_dim() == m0.layers[j - 1].out_dim());
                }
            }
            assert(final(self)@.chain_ok());
            if n > 0 {
                assert(wp.last() == wp[n - 1]);
                assert(m0.layers.last() == m0.layers[n - 1]);
            }
        }
        Ok(())
    }
}

/// One step of the forward fold: with the first `idx` layers already folded,
/// folding layer `idx` extends the prefix result by one layer.
proof fn lemma_forward_step(m: PipelineModel, x: Seq<int>, idx: int, prevmap: Seq<LayerModel>, newmap: Seq<LayerModel>)
    requires
        m.chain_ok(),
        x.len() == m.input_dim,
        0 <= idx < m.layers.len(),
        prevmap.len() == m.layers.len(),
        newmap == prevmap.update(
            idx,
            m.layers[idx].forward_res(run_forward(m.layers.take(idx), x).1).0,
        ),
        prevmap.take(idx) == run_forward(m.layers.take(idx), x).0,
    ensures
        newmap.take(idx + 1) == run_forward(m.layers.take(idx + 1), x).0,
        run_forward(m.layers.take(idx + 1), x).1 == m.layers[idx].forward_res(
            run_forward(m.layers.take(idx), x).1,
        ).1,
        run_forward(m.layers.take(idx), x).1.len() == m.layers[idx].in_dim(),
{
    lemma_forward_prefix_len(m, x, idx);
    let pre = m.layers.take(idx);
    let pre1 = m.layers.take(idx + 1);
    assert(pre1.drop_last() =~= pre);
    assert(pre1.last() == m.layers[idx]);
    let step = m.layers[idx].forward_res(run_forward(pre, x).1);
    assert(run_forward(pre1, x).0 == run_forward(pre, x).0.push(step.0));
    assert(newmap.take(idx + 1) =~= prevmap.take(idx).push(step.0));
}

/// The input flowing into layer `idx` of the forward fold has that layer's
/// input width.
proof fn lemma_forward_prefix_len(m: PipelineModel, x: Seq<int>, idx: int)
    requires
        m.chain_ok(),
        x.len() == m.input_dim,
        0 <= idx < m.layers.len(),
    ensures
        run_forward(m.layers.take(idx), x).1.len() == m.layers[idx].in_dim(),
{
    lemma_chain_take(m, idx);
    let prefix = PipelineModel { input_dim: m.input_dim, layers: m.layers.take(idx) };
    lemma_run_forward(prefix, x);
    if idx > 0 {
        assert(m.layers.take(idx).last() == m.layers[idx - 1]);
        assert(m.layers[idx].in_dim() == m.layers[idx - 1].out_dim());
    }
}

/// Any prefix of a well-chained pipeline is well-chained.
proof fn lemma_chain_take(m: PipelineModel, k: int)
    requires
        m.chain_ok(),
        0 <= k <= m.layers.len(),
    ensures
        (PipelineModel { input_dim: m.input_dim, layers: m.layers.take(k) }).chain_ok(),
{
    let pre = m.layers.take(k);
    assert forall|i: int|
        0 <= i < pre.len() implies {
        &&& (#[trigger] pre[i]).wf()
        &&& pre[i].in_dim() == if i == 0 {
            m.input_dim
        } else {
            pre[i - 1].out_dim()
        }
    } by {
        assert(pre[i] == m.layers[i]);
        if i > 0 {
            assert(pre[i - 1] == m.layers[i - 1]);
        }
    }
}

/// One step of the backward fold: with the layers above `idx` already folded,
/// folding layer `idx - 1` moves one layer from the pending prefix to the
/// finished suffix.
#[verifier::rlimit(100)]
proof fn lemma_backward_step(m: PipelineModel, g: Seq<int>, idx: int, prevmap: Seq<LayerModel>, newmap: Seq<LayerModel>, curv: Seq<int>)
    requires
        m.chain_ok(),
        m.all_ready(),
        g.len() == m.out_dim(),
        1 <= idx <= m.layers.len(),
        prevmap.len() == m.layers.len(),
        newmap == prevmap.update(idx - 1, m.layers[idx - 1].backward_res(curv).0),
        run_backward(m.layers, g).0 == run_backward(m.layers.take(idx), curv).0 + prevmap.skip(
            idx,
        ),
        run_backward(m.layers, g).1 == run_backward(m.layers.take(idx), curv).1,
        curv.len() == m.layers[idx - 1].out_dim(),
    ensures
        ({
            let next = m.layers[idx - 1].backward_res(curv).1;
            &&& run_backward(m.layers, g).0 == run_backward(m.layers.take(idx - 1), next).0
                + newmap.skip(idx - 1)
            &&& run_backward(m.layers, g).1 == run_backward(m.layers.take(idx - 1), next).1
            &&& next.len() == (if idx - 1 == 0 {
                m.input_dim as int
            } else {
                m.layers[idx - 2].out_dim() as int
            })
        }),
{
    let pre1 = m.layers.take(idx);
    let pre = m.layers.take(idx - 1);
    assert(pre1.drop_last() =~= pre);
    assert(pre1.last() == m.layers[idx - 1]);
    lemma_layer_backward(m.layers[idx - 1], curv);
    let step = m.layers[idx - 1].backward_res(curv);
    assert(run_backward(pre1, curv).0 == run_backward(pre, step.1).0.push(step.0));
    assert(run_backward(pre1, curv).1 == run_backward(pre, step.1).1);
    lemma_skip_update_front(prevmap, idx - 1, step.0);
    lemma_push_concat(run_backward(pre, step.1).0, step.0, prevmap.skip(idx));
    assert(seq![step.0] + prevmap.skip(idx) == newmap.skip(idx - 1));
    if idx - 1 > 0 {
        assert(m.layers[idx - 1].in_dim() == m.layers[idx - 2].out_dim());
    }
}

/// Pushing then concatenating equals concatenating with the element in front
/// of the second part.
proof fn lemma_push_concat(a: Seq<LayerModel>, x: LayerModel, b: Seq<LayerModel>)
    ensures
        a.push(x) + b == a + (seq![x] + b),
{
    assert(a.push(x) + b =~= a + (seq![x] + b));
}

/// After an update at `k`, the suffix from `k` starts with the new element.
proof fn lemma_skip_update_front(s: Seq<LayerModel>, k: int, x: LayerModel)
    requires
        0 <= k < s.len(),
    ensures
        s.update(k, x).skip(k) == seq![x] + s.skip(k + 1),
{
    assert(s.update(k, x).skip(k) =~= seq![x] + s.skip(k + 1));
}

/// Removing an element and inserting another at the same place is an update.
proof fn lemma_remove_insert(s: Seq<Layer>, k: int, x: Layer)
    requires
        0 <= k < s.len(),
    ensures
        s.remove(k).insert(k, x) == s.update(k, x),
{
    assert(s.remove(k).insert(k, x) =~= s.update(k, x));
}

/// Updating one layer updates exactly that model in the mapped view.
proof fn lemma_views_update(layers: Seq<Layer>, k: int, lay: Layer)
    requires
        0 <= k < layers.len(),
    ensures
        views_of(layers.update(k, lay)) == views_of(layers).update(k, lay@),
{
    assert(views_of(layers.update(k, lay)) =~= views_of(layers).update(k, lay@));
}

/// An update below `idx` does not change the suffix from `idx` on.
proof fn lemma_skip_above_update(s: Seq<LayerModel>, k: int, idx: int, x: LayerModel)
    requires
        0 <= k < idx <= s.len(),
    ensures
        s.update(k, x).skip(idx) == s.skip(idx),
{
    assert(s.update(k, x).skip(idx) =~= s.skip(idx));
}

/// The flattened parameter view distributes over concatenation.
proof fn lemma_params_of_concat(a: Seq<LayerModel>, b: Seq<LayerModel>)
    ensures
        params_of(a + b) == params_of(a) + params_of(b),
    decreases b.len(),
{
    if b.len() == 0 {
        assert(a + b =~= a);
        assert(params_of(a) + params_of(b) =~= params_of(a));
    } else {
        lemma_params_of_concat(a, b.drop_last());
        assert((a + b).drop_last() =~= a + b.drop_last());
        assert((a + b).last() == b.last());
        assert(params_of(a) + (params_of(b.drop_last()) + b.last().params_view()) =~= (params_of(a)
            + params_of(b.drop_last())) + b.last().params_view());
    }
}

/// The flattened parameter view splits at any index.
proof fn lemma_params_of_split(layers: Seq<LayerModel>, k: int)
    requires
        0 <= k <= layers.len(),
    ensures
        params_of(layers) == params_of(layers.take(k)) + params_of(layers.skip(k)),
{
    assert(layers.take(k) + layers.skip(k) =~= layers);
    lemma_params_of_concat(layers.take(k), layers.skip(k));
}

/// The parameter view of the suffix from `k` starts with layer `k`'s view.
proof fn lemma_params_of_skip_head(layers: Seq<LayerModel>, k: int)
    requires
        0 <= k < layers.len(),
    ensures
        params_of(layers.skip(k)) == layers[k].params_view() + params_of(layers.skip(k + 1)),
{
    assert(layers.skip(k) =~= seq![layers[k]] + layers.skip(k + 1));
    lemma_params_of_concat(seq![layers[k]], layers.skip(k + 1));
    assert(seq![layers[k]].drop_last() =~= Seq::<LayerModel>::empty());
    assert(seq![layers[k]].last() == layers[k]);
    assert(params_of(seq![layers[k]].drop_last()) =~= Seq::<int>::empty());
    assert(params_of(seq![layers[k]]) == params_of(seq![layers[k]].drop_last())
        + layers[k].params_view());
    assert(params_of(seq![layers[k]]) =~= layers[k].params_view());
    assert(params_of(layers.skip(k)) == params_of(seq![layers[k]]) + params_of(
        layers.skip(k + 1),
    ));
}

/// Unfolding the parameter view one layer forward.
proof fn lemma_params_of_take_snoc(layers: Seq<LayerModel>, i: int)
    requires
        0 <= i < layers.len(),
    ensures
        params_of(layers.take(i + 1)) == params_of(layers.take(i)) + layers[i].params_view(),
{
    assert(layers.take(i + 1).drop_last() =~= layers.take(i));
    assert(layers.take(i + 1).last() == layers[i]);
}

/// Writing a parameter vector back keeps every layer's shape, cache and
/// gradients, and the resulting flattened parameter view is exactly the
/// written vector.
pub proof fn lemma_with_params_roundtrip(layers: Seq<LayerModel>, vs: Seq<int>)
    requires
        forall|i: int| 0 <= i < layers.len() ==> (#[trigger] layers[i]).wf(),
        vs.len() == params_of(layers).len(),
    ensures
        with_params(layers, vs).len() == layers.len(),
        forall|i: int|
            0 <= i < layers.len() ==> {
                &&& (#[trigger] with_params(layers, vs)[i]).wf()
                &&& with_params(layers, vs)[i].in_dim() == layers[i].in_dim()
                &&& with_params(layers, vs)[i].out_dim() == layers[i].out_dim()
                &&& with_params(layers, vs)[i].ready() == layers[i].ready()
                &&& with_params(layers, vs)[i].grads_view() == layers[i].grads_view()
            },
        params_of(with_params(layers, vs)) == vs,
        grads_of(with_params(layers, vs)) == grads_of(layers),
    decreases layers.len(),
{
    if layers.len() == 0 {
        assert(vs =~= Seq::<int>::empty());
        assert(params_of(with_params(layers, vs)) =~= vs);
    } else {
        let n = layers.len() as int;
        let dl = layers.drop_last();
        let last = layers.last();
        let cut = vs.len() - last.params_view().len();
        assert(cut == params_of(dl).len());
        assert forall|i: int| 0 <= i < dl.len() implies (#[trigger] dl[i]).wf() by {
            assert(dl[i] == layers[i]);
        }
        assert(vs.take(cut as int).len() == params_of(dl).len());
        lemma_with_params_roundtrip(dl, vs.take(cut as int));
        assert(last.wf());
        lemma_layer_with_params(last, vs.skip(cut as int));
        let wp = with_params(layers, vs);
        let wdl = with_params(dl, vs.take(cut as int));
        assert(wp == wdl.push(last.with_params(vs.skip(cut as int))));
        assert forall|i: int|
            0 <= i < layers.len() implies {
            &&& (#[trigger] wp[i]).wf()
            &&& wp[i].in_dim() == layers[i].in_dim()
            &&& wp[i].out_dim() == layers[i].out_dim()
            &&& wp[i].ready() == layers[i].ready()
            &&& wp[i].grads_view() == layers[i].grads_view()
        } by {
            if i < n - 1 {
                assert(wp[i] == wdl[i]);
                assert(dl[i] == layers[i]);
            } else {
                assert(wp[i] == last.with_params(vs.skip(cut as int)));
                assert(layers[i] == last);
            }
        }
        assert(wp.drop_last() =~= wdl);
        assert(wp.last() == last.with_params(vs.skip(cut as int)));
        assert(params_of(wp) == params_of(wdl) + vs.skip(cut as int));
        assert(vs.take(cut as int) + vs.skip(cut as int) =~= vs);
        assert(grads_of(wp) == grads_of(wdl) + last.grads_view());
        assert(grads_of(layers) == grads_of(dl) + last.grads_view());
    }
}

/// One step of the parameter write-back: with the first `i` layers written
/// from the first `off` values, writing layer `i` extends the written prefix
/// by that layer's chunk.
proof fn lemma_set_params_step(layers: Seq<LayerModel>, vs: Seq<int>, i: int, off: int)
    requires
        0 <= i < layers.len(),
        off == params_of(layers.take(i)).len(),
        off + layers[i].params_view().len() <= vs.len(),
    ensures
        ({
            let pl = layers[i].params_view().len() as int;
            &&& params_of(layers.take(i + 1)) == params_of(layers.take(i))
                + layers[i].params_view()
            &&& with_params(layers.take(i + 1), vs.take(off + pl)) == with_params(
                layers.take(i),
                vs.take(off),
            ).push(layers[i].with_params(vs.subrange(off, off + pl)))
        }),
{
    let pl = layers[i].params_view().len() as int;
    lemma_params_of_take_snoc(layers, i);
    let pre1 = layers.take(i + 1);
    assert(pre1.drop_last() =~= layers.take(i));
    assert(pre1.last() == layers[i]);
    assert(vs.take(off + pl).len() == off + pl);
    assert(vs.take(off + pl).take(off) =~= vs.take(off));
    assert(vs.take(off + pl).skip(off) =~= vs.subrange(off, off + pl));
}

/// An update below `k` does not change the prefix up to `k`.
proof fn lemma_take_below_update(s: Seq<LayerModel>, k: int, x: LayerModel)
    requires
        0 <= k < s.len(),
    ensures
        s.update(k, x).take(k) == s.take(k),
{
    assert(s.update(k, x).take(k) =~= s.take(k));
}

/// Appending a layer that accepts the pipeline's current output width keeps
/// the chain well-formed.
proof fn lemma_chain_extend(m: PipelineModel, nl: LayerModel)
    requires
        m.chain_ok(),
        nl.wf(),
        nl.in_dim() == m.out_dim(),
    ensures
        (PipelineModel { input_dim: m.input_dim, layers: m.layers.push(nl) }).chain_ok(),
{
    let ls = m.layers.push(nl);
    let n = m.layers.len() as int;
    assert forall|i: int|
        0 <= i < ls.len() implies {
        &&& (#[trigger] ls[i]).wf()
        &&& ls[i].in_dim() == if i == 0 {
            m.input_dim
        } else {
            ls[i - 1].out_dim()
        }
    } by {
        if i < n {
            assert(ls[i] == m.layers[i]);
            if i > 0 {
                assert(ls[i - 1] == m.layers[i - 1]);
            }
        } else {
            assert(ls[i] == nl);
            if i > 0 {
                assert(ls[i - 1] == m.layers[i - 1]);
                if n > 0 {
                    assert(m.layers.last() == m.layers[n - 1]);
                }
            }
        }
    }
}

} // verus!
