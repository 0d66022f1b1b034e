//! A declarative description of a multi-layer perceptron: layer widths and
//! the activation placed between consecutive linear layers, buildable into a
//! `Sequential` pipeline.

use vstd::prelude::*;
use crate::activation::ActivationType;
use crate::layer::LayerModel;
use crate::rng::lcg_after;
use crate::sequential::{fresh_activation, fresh_linear, Sequential};

verus! {

/// The shape of a multi-layer perceptron: an input width, hidden widths, an
/// output width, and the activation between consecutive linear layers.
pub struct MLPSpecification {
    pub input_dim: usize,
    pub hidden_dims: Vec<usize>,
    pub output_dim: usize,
    pub activation: ActivationType,
}

impl MLPSpecification {
    /// The full chain of widths: input, hidden layers, output.
    pub open spec fn widths(&self) -> Seq<usize> {
        seq![self.input_dim] + self.hidden_dims@ + seq![self.output_dim]
    }

    /// Machine limits on consecutive widths, so that each linear layer's flat
    /// weight matrix can be allocated.
    pub open spec fn widths_ok(&self) -> bool {
        forall|i: int|
            0 <= i < self.widths().len() - 1 ==> {
                &&& (#[trigger] self.widths()[i]) + self.widths()[i + 1] >= 1
                &&& self.widths()[i] * self.widths()[i + 1] <= usize::MAX
                &&& self.widths()[i] + self.widths()[i + 1] <= usize::MAX
            }
    }

    /// The generator state after initializing the first `j` linear layers of
    /// the described pipeline, starting from `seed`.
    pub open spec fn build_state(&self, seed: int, j: int) -> int
        decreases j,
    {
        if j <= 0 {
            seed
        } else {
            lcg_after(
                self.build_state(seed, j - 1),
                (self.widths()[j - 1] * self.widths()[j]) as nat,
            )
        }
    }

    /// A perceptron description from its widths and activation.
    pub fn new(
        input_dim: usize,
        hidden_dims: Vec<usize>,
        output_dim: usize,
        activation: ActivationType,
    ) -> (r: MLPSpecification)
        ensures
            r.input_dim == input_dim,
            r.hidden_dims@ == hidden_dims@,
            r.output_dim == output_dim,
            r.activation == activation,
    {
        MLPSpecification { input_dim, hidden_dims, output_dim, activation }
    }

    /// Builds exactly the described pipeline: for every hidden width a linear
    /// layer followed by the chosen activation, then a final linear layer to
    /// the output width, with the weights drawn from the generator seeded with
    /// `seed` and threaded through the linear layers in order.
    pub fn build(&self, seed: u64) -> (r: Sequential)
        requires
            self.widths_ok(),
        ensures
            r.wf(),
            r@.input_dim == self.input_dim,
            r@.out_dim() == self.output_dim,
            r@.layers.len() == 2 * self.hidden_dims@.len() + 1,
            forall|j: int|
                0 <= j < self.hidden_dims@.len() ==> {
                    &&& #[trigger] r@.layers[2 * j] == LayerModel::Linear(
                        fresh_linear(
                            self.widths()[j] as nat,
                            self.widths()[j + 1] as nat,
                            self.build_state(seed as int, j),
                        ),
                    )
                    &&& r@.layers[2 * j + 1] == LayerModel::Activation(
                        fresh_activation(
                            self.activation.as_activation_spec(),
                            self.widths()[j + 1] as nat,
                        ),
                    )
                },
            r@.layers[2 * self.hidden_dims@.len() as int] == LayerModel::Linear(
                fresh_linear(
                    self.widths()[self.hidden_dims@.len() as int] as nat,
                    self.output_dim as nat,
                    self.build_state(seed as int, self.hidden_dims@.len() as int),
                ),
            ),
    {
        let kind = self.activation.as_activation();
        let mut s = Sequential::with_seed(self.input_dim, seed);
        let hlen = self.hidden_dims.len();
        let mut i: usize = 0;
        while i < hlen
            invariant
                self.widths_ok(),
                self.hidden_dims@.len() == hlen,
                kind == self.activation.as_activation_spec(),
                i <= hlen,
                s.wf(),
                s@.input_dim == self.input_dim,
                s@.layers.len() == 2 * i,
                s@.out_dim() == self.widths()[i as int],
                s.rng_state() == self.build_state(seed as int, i as int),
                forall|j: int|
                    0 <= j < i ==> {
                        &&& #[trigger] s@.layers[2 * j] == LayerModel::Linear(
                            fresh_linear(
                                self.widths()[j] as nat,
                                self.widths()[j + 1] as nat,
                                self.build_state(seed as int, j),
                            ),
                        )
                        &&& s@.layers[2 * j + 1] == LayerModel::Activation(
                            fresh_activation(
                                self.activation.as_activation_spec(),
                                self.widths()[j + 1] as nat,
                            ),
                        )
                    },
            decreases hlen - i,
        {
            proof {
                assert(self.widths()[i + 1] == self.hidden_dims@[i as int]);
            }
            let ghost before = s;
            let h = self.hidden_dims[i];
            s = s.linear(h);
            proof {
                assert(s@.layers[2 * i as int] == LayerModel::Linear(
                    fresh_linear(
                        self.widths()[i as int] as nat,
                        self.widths()[i + 1] as nat,
                        self.build_state(seed as int, i as int),
                    ),
                ));
                assert(s@.out_dim() == self.widths()[i + 1]);
            }
            let ghost mid = s;
            s = s.activation(kind);
            proof {
                assert(s@.layers[2 * i + 1] == LayerModel::Activation(
                    fresh_activation(
                        self.activation.as_activation_spec(),
                        self.widths()[i + 1] as nat,
                    ),
                ));
                assert forall|j: int|
                    0 <= j < i + 1 implies {
                    &&& #[trigger] s@.layers[2 * j] == LayerModel::Linear(
                        fresh_linear(
                            self.widths()[j] as nat,
                            self.widths()[j + 1] as nat,
                            self.build_state(seed as int, j),
                        ),
                    )
                    &&& s@.layers[2 * j + 1] == LayerModel::Activation(
                        fresh_activation(
                            self.activation.as_activation_spec(),
                            self.widths()[j + 1] as nat,
                        ),
                    )
                } by {
                    if j < i {
                        assert(s@.layers[2 * j] == mid@.layers[2 * j]);
                        assert(mid@.layers[2 * j] == before@.layers[2 * j]);
                        assert(s@.layers[2 * j + 1] == mid@.layers[2 * j + 1]);
                        assert(mid@.layers[2 * j + 1] == before@.layers[2 * j + 1]);
                    }
                }
            }
            i = i + 1;
        }
        proof {
            assert(self.widths()[hlen + 1] == self.output_dim);
        }
        let ghost before = s;
        let s = s.linear(self.output_dim);
        proof {
            assert(s@.layers[2 * hlen as int] == LayerModel::Linear(
                fresh_linear(
                    self.widths()[hlen as int] as nat,
                    self.output_dim as nat,
                    self.build_state(seed as int, hlen as int),
                ),
            ));
            assert forall|j: int|
                0 <= j < hlen implies {
                &&& #[trigger] s@.layers[2 * j] == LayerModel::Linear(
                    fresh_linear(
                        self.widths()[j] as nat,
                        self.widths()[j + 1] as nat,
                        self.build_state(seed as int, j),
                    ),
                )
                &&& s@.layers[2 * j + 1] == LayerModel::Activation(
                    fresh_activation(
                        self.activation.as_activation_spec(),
                        self.widths()[j + 1] as nat,
                    ),
                )
            } by {
                assert(s@.layers[2 * j] == before@.layers[2 * j]);
                assert(s@.layers[2 * j + 1] == before@.layers[2 * j + 1]);
            }
            assert(s@.out_dim() == self.output_dim);
        }
        s
    }
}

} // verus!
