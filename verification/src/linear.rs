//! The `Linear` layer: an affine transform with learnable weights and biases,
//! a gradient accumulator, and a cached forward input for the backward pass.

use vstd::prelude::*;
use crate::dot::{dot_spec, flat_matrix_vector_dot};
use crate::error::NnError;
use crate::fixed::{
    copy_scalars,
    fx_add,
    fx_add_spec,
    fx_mul,
    fx_mul_spec,
    fx_sub,
    fx_sub_spec,
    ints,
    zero_scalars,
};
use crate::rng::{draw_seq, lcg_after, xavier_limit, xavier_limit_spec, Rng};

verus! {

/// The mathematical state of a `Linear` layer.
#[verifier::ext_equal]
pub struct LinearModel {
    pub input_dim: nat,
    pub output_dim: nat,
    pub weights: Seq<int>,
    pub biases: Seq<int>,
    pub grad_weights: Seq<int>,
    pub grad_biases: Seq<int>,
    pub bias_enabled: bool,
    pub cached_input: Option<Seq<int>>,
}

impl LinearModel {
    /// Shape invariant: every stored sequence matches the declared widths.
    pub open spec fn wf(self) -> bool {
        &&& self.weights.len() == self.input_dim * self.output_dim
        &&& self.grad_weights.len() == self.weights.len()
        &&& self.biases.len() == self.output_dim
        &&& self.grad_biases.len() == self.output_dim
        &&& (self.cached_input matches Some(c) ==> c.len() == self.input_dim)
    }

    /// The forward output: for each row `i`, the dot product of the input with
    /// row `i` of the weights, plus the bias when biases are enabled.
    pub open spec fn forward_out(self, x: Seq<int>) -> Seq<int> {
        Seq::new(
            self.output_dim,
            |i: int|
                fx_add_spec(
                    dot_spec(self.weights, x, i * self.input_dim),
                    if self.bias_enabled {
                        self.biases[i]
                    } else {
                        0
                    },
                ),
        )
    }

    /// The layer state after a forward pass: only the cache changes.
    pub open spec fn forward_upd(self, x: Seq<int>) -> LinearModel {
        LinearModel { cached_input: Some(x), ..self }
    }

    /// One accumulated entry of the weight gradient: the outer product
    /// `g[row] * x[col]` added onto the previous accumulator value.
    pub open spec fn grad_weights_upd(self, g: Seq<int>) -> Seq<int> {
        Seq::new(
            self.grad_weights.len(),
            |k: int|
                fx_add_spec(
                    self.grad_weights[k],
                    fx_mul_spec(
                        g[k / self.input_dim as int],
                        self.cached_input->0[k % self.input_dim as int],
                    ),
                ),
        )
    }

    /// The accumulated bias gradient (unchanged when biases are disabled).
    pub open spec fn grad_biases_upd(self, g: Seq<int>) -> Seq<int> {
        if self.bias_enabled {
            Seq::new(self.grad_biases.len(), |i: int| fx_add_spec(self.grad_biases[i], g[i]))
        } else {
            self.grad_biases
        }
    }

    /// The layer state after a backward pass: gradients accumulate, everything
    /// else (the cache included) stays.
    pub open spec fn backward_upd(self, g: Seq<int>) -> LinearModel
        recommends
            self.cached_input is Some,
    {
        LinearModel {
            grad_weights: self.grad_weights_upd(g),
            grad_biases: self.grad_biases_upd(g),
            ..self
        }
    }

    /// The saturating partial sum `sum_{i < k} weights[i * input_dim + j] * g[i]`.
    pub open spec fn grad_input_prefix(self, g: Seq<int>, j: int, k: int) -> int
        decreases k,
    {
        if k <= 0 {
            0
        } else {
            fx_add_spec(
                self.grad_input_prefix(g, j, k - 1),
                fx_mul_spec(self.weights[(k - 1) * self.input_dim + j], g[k - 1]),
            )
        }
    }

    /// The gradient with respect to the input: the transposed weight matrix
    /// applied to `g`. A fresh value, never accumulated.
    pub open spec fn grad_input(self, g: Seq<int>) -> Seq<int> {
        Seq::new(self.input_dim, |j: int| self.grad_input_prefix(g, j, self.output_dim as int))
    }

    /// This layer's contribution to the flattened parameter view: weights,
    /// then biases when enabled.
    pub open spec fn params_view(self) -> Seq<int> {
        if self.bias_enabled {
            self.weights + self.biases
        } else {
            self.weights
        }
    }

    /// The layer with its learnable parameters replaced by `vs`, split as the
    /// parameter view flattens them: weights first, then biases when enabled.
    pub open spec fn with_params(self, vs: Seq<int>) -> LinearModel
        recommends
            vs.len() == self.params_view().len(),
    {
        LinearModel {
            weights: vs.take(self.weights.len() as int),
            biases: if self.bias_enabled {
                vs.skip(self.weights.len() as int)
            } else {
                self.biases
            },
            ..self
        }
    }

    /// The layer state after one gradient-descent update with learning rate
    /// `lr`: every learnable parameter moves by `-lr` times its accumulated
    /// gradient; gradients and the cache stay.
    pub open spec fn updated(self, lr: int) -> LinearModel {
        LinearModel {
            weights: Seq::new(
                self.weights.len(),
                |k: int| fx_sub_spec(self.weights[k], fx_mul_spec(lr, self.grad_weights[k])),
            ),
            biases: if self.bias_enabled {
                Seq::new(
                    self.biases.len(),
                    |k: int| fx_sub_spec(self.biases[k], fx_mul_spec(lr, self.grad_biases[k])),
                )
            } else {
                self.biases
            },
            ..self
        }
    }

    /// The layer state after `zero_grad`: both accumulators are zeroed; the
    /// cached input is kept (its lifetime is tied to the forward/backward
    /// pair, not to gradient zeroing).
    pub open spec fn zeroed(self) -> LinearModel {
        LinearModel {
            grad_weights: Seq::new(self.grad_weights.len(), |k: int| 0),
            grad_biases: Seq::new(self.grad_biases.len(), |k: int| 0),
            ..self
        }
    }
}

/// An affine layer `y = W x + b` over Q32.32 scalars.
pub struct Linear {
    pub input_dim: usize,
    pub output_dim: usize,
    /// Row-major, length `input_dim * output_dim`; row `i` spans
    /// `[i * input_dim, (i + 1) * input_dim)`.
    pub weights: Vec<i64>,
    pub biases: Vec<i64>,
    pub grad_weights: Vec<i64>,
    pub grad_biases: Vec<i64>,
    pub bias_enabled: bool,
    /// The last forward input, consumed by `backward`; managed by `forward`
    /// and `zero_grad`.
    pub cached_input: Option<Vec<i64>>,
}

impl View for Linear {
    type V = LinearModel;

    open spec fn view(&self) -> LinearModel {
        LinearModel {
            input_dim: self.input_dim as nat,
            output_dim: self.output_dim as nat,
            weights: ints(self.weights@),
            biases: ints(self.biases@),
            grad_weights: ints(self.grad_weights@),
            grad_biases: ints(self.grad_biases@),
            bias_enabled: self.bias_enabled,
            cached_input: match self.cached_input {
                Some(c) => Some(ints(c@)),
                None => None,
            },
        }
    }
}

impl Linear {
    /// Builds a layer with Xavier-uniform weights drawn from the given
    /// generator and zero biases; biases are enabled and nothing is cached.
    pub fn new(input_dim: usize, output_dim: usize, rng: &mut Rng) -> (r: Linear)
        requires
            input_dim + output_dim >= 1,
            input_dim * output_dim <= usize::MAX,
            input_dim + output_dim <= usize::MAX,
        ensures
            r@.wf(),
            r@.input_dim == input_dim,
            r@.output_dim == output_dim,
            r@.bias_enabled,
            r@.cached_input is None,
            r@.weights == draw_seq(
                old(rng).state_spec(),
                (input_dim * output_dim) as nat,
                xavier_limit_spec(input_dim as nat, output_dim as nat),
            ),
            r@.biases == Seq::new(output_dim as nat, |i: int| 0int),
            r@.grad_weights == Seq::new((input_dim * output_dim) as nat, |i: int| 0int),
            r@.grad_biases == Seq::new(output_dim as nat, |i: int| 0int),
            final(rng).state_spec() == lcg_after(
                old(rng).state_spec(),
                (input_dim * output_dim) as nat,
            ),
    {
        let limit = xavier_limit(input_dim, output_dim);
        let total = input_dim * output_dim;
        let ghost s0 = old(rng).state_spec();
        let ghost lim = limit as int;
        let mut weights: Vec<i64> = Vec::new();
        let mut k: usize = 0;
        while k < total
            invariant
                k <= total,
                weights@.len() == k,
                0 <= lim <= 0x4000000000000000,
                lim == limit as int,
                rng.state_spec() == lcg_after(s0, k as nat),
                draw_seq(s0, total as nat, lim) =~= ints(weights@) + draw_seq(
                    rng.state_spec(),
                    (total - k) as nat,
                    lim,
                ),
            decreases total - k,
        {
            let ghost s_before = rng.state_spec();
            let w = rng.draw_symmetric(limit);
            weights.push(w);
            proof {
                assert(draw_seq(s_before, (total - k) as nat, lim) == seq![
                    crate::rng::lcg_draw(s_before, lim),
                ] + draw_seq(rng.state_spec(), (total - k - 1) as nat, lim));
                assert(draw_seq(s0, total as nat, lim) =~= ints(weights@) + draw_seq(
                    rng.state_spec(),
                    (total - k - 1) as nat,
                    lim,
                ));
            }
            k = k + 1;
        }
        proof {
            assert(draw_seq(s0, total as nat, lim) =~= ints(weights@));
        }
        let biases = zero_scalars(output_dim);
        let grad_weights = zero_scalars(total);
        let grad_biases = zero_scalars(output_dim);
        let r = Linear {
            input_dim,
            output_dim,
            weights,
            biases,
            grad_weights,
            grad_biases,
            bias_enabled: true,
            cached_input: None,
        };
        proof {
            assert(r@.biases =~= Seq::new(output_dim as nat, |i: int| 0int));
            assert(r@.grad_weights =~= Seq::new(total as nat, |i: int| 0int));
            assert(r@.grad_biases =~= Seq::new(output_dim as nat, |i: int| 0int));
        }
        r
    }

    /// Whether a forward input is cached, so that `backward` has state to consume.
    pub fn is_ready(&self) -> (r: bool)
        ensures
            r == (self@.cached_input is Some),
    {
        self.cached_input.is_some()
    }

    /// Forward pass: requires the declared input width; caches the input and
    /// returns `W x (+ b)`.
    pub fn forward(&mut self, input: &Vec<i64>) -> (r: Result<Vec<i64>, NnError>)
        requires
            old(self)@.wf(),
        ensures
            final(self)@.wf(),
            r is Ok <==> input@.len() == old(self)@.input_dim,
            r matches Ok(out) ==> {
                &&& ints(out@) == old(self)@.forward_out(ints(input@))
                &&& final(self)@ == old(self)@.forward_upd(ints(input@))
            },
            r is Err ==> final(self)@ == old(self)@ && r == Err::<Vec<i64>, NnError>(
                NnError::DimensionMismatch { expected: old(self)@.input_dim as usize, actual: input.len() },
            ),
    {
        if input.len() != self.input_dim {
            return Err(NnError::DimensionMismatch { expected: self.input_dim, actual: input.len() });
        }
        let ghost m = self@;
        let ghost x = ints(input@);
        let wlen = self.weights.len();
        assert(m.weights.len() == wlen as int);
        let mut out: Vec<i64> = Vec::new();
        let mut i: usize = 0;
        while i < self.output_dim
            invariant
                old(self)@.wf(),
                *self == *old(self),
                m == self@,
                m.weights.len() <= usize::MAX,
                x == ints(input@),
                input@.len() == self.input_dim,
                i <= self.output_dim,
                out@.len() == i,
                forall|q: int| 0 <= q < i ==> ints(out@)[q] == m.forward_out(x)[q],
            decreases self.output_dim - i,
        {
            proof {
                lemma_row_span(i as int, self.input_dim as int, self.output_dim as int);
            }
            let offset = i * self.input_dim;
            let d = match flat_matrix_vector_dot(&self.weights, input, offset) {
                Ok(d) => d,
                Err(e) => {
                    return Err(e);
                },
            };
            let v = fx_add(
                d,
                if self.bias_enabled {
                    self.biases[i]
                } else {
                    0
                },
            );
            out.push(v);
            assert(ints(out@)[i as int] == m.forward_out(x)[i as int]);
            i = i + 1;
        }
        self.cached_input = Some(copy_scalars(input));
        proof {
            assert(ints(out@) =~= m.forward_out(x));
            assert(final(self)@ =~= m.forward_upd(x));
        }
        Ok(out)
    }

    /// Backward pass: consumes the cached input, accumulates the weight and
    /// bias gradients, and returns the gradient with respect to the input.
    pub fn backward(&mut self, grad_output: &Vec<i64>) -> (r: Result<Vec<i64>, NnError>)
        requires
            old(self)@.wf(),
        ensures
            final(self)@.wf(),
            r is Ok <==> (grad_output@.len() == old(self)@.output_dim && old(self)@.cached_input is Some),
            r matches Ok(gi) ==> {
                &&& ints(gi@) == old(self)@.grad_input(ints(grad_output@))
                &&& final(self)@ == old(self)@.backward_upd(ints(grad_output@))
            },
            grad_output@.len() != old(self)@.output_dim ==> final(self)@ == old(self)@ && r
                == Err::<Vec<i64>, NnError>(
                NnError::DimensionMismatch {
                    expected: old(self)@.output_dim as usize,
                    actual: grad_output.len(),
                },
            ),
            grad_output@.len() == old(self)@.output_dim && old(self)@.cached_input is None
                ==> final(self)@ == old(self)@ && r == Err::<Vec<i64>, NnError>(NnError::BackwardBeforeForward),
    {
        if grad_output.len() != self.output_dim {
            return Err(
                NnError::DimensionMismatch { expected: self.output_dim, actual: grad_output.len() },
            );
        }
        let x: Vec<i64> = match &self.cached_input {
            Some(c) => copy_scalars(c),
            None => {
                return Err(NnError::BackwardBeforeForward);
            },
        };
        let ghost m = self@;
        let ghost g = ints(grad_output@);

        // Bias gradient: grad_biases[i] += g[i].
        if self.bias_enabled {
            let mut i: usize = 0;
            while i < self.output_dim
                invariant
                    m.wf(),
                    m.bias_enabled,
                    self.input_dim == m.input_dim,
                    self.output_dim == m.output_dim,
                    ints(self.weights@) == m.weights,
                    ints(self.biases@) == m.biases,
                    ints(self.grad_weights@) == m.grad_weights,
                    self.bias_enabled == m.bias_enabled,
                    self.cached_input == old(self).cached_input,
                    self@.cached_input == m.cached_input,
                    g == ints(grad_output@),
                    g.len() == m.output_dim,
                    i <= self.output_dim,
                    m.cached_input is Some,
                    self.grad_biases@.len() == m.output_dim,
                    forall|q: int|
                        0 <= q < i ==> ints(self.grad_biases@)[q] == m.grad_biases_upd(g)[q],
                    forall|q: int| i <= q < m.output_dim ==> ints(self.grad_biases@)[q] == m.grad_biases[q],
                decreases self.output_dim - i,
            {
                let nv = fx_add(self.grad_biases[i], grad_output[i]);
                self.grad_biases.set(i, nv);
                i = i + 1;
            }
        }
        proof {
            assert(ints(self.grad_biases@) =~= m.grad_biases_upd(g));
        }

        // Weight gradient: grad_weights[i * input_dim + j] += g[i] * x[j].
        let total = self.grad_weights.len();
        let mut k: usize = 0;
        while k < total
            invariant
                m.wf(),
                total == m.grad_weights.len(),
                self.input_dim == m.input_dim,
                self.output_dim == m.output_dim,
                ints(self.weights@) == m.weights,
                ints(self.biases@) == m.biases,
                ints(self.grad_biases@) == m.grad_biases_upd(g),
                self.bias_enabled == m.bias_enabled,
                self.cached_input == old(self).cached_input,
                self@.cached_input == m.cached_input,
                g == ints(grad_output@),
                g.len() == m.output_dim,
                m.cached_input is Some,
                ints(x@) == m.cached_input->0,
                x@.len() == m.input_dim,
                k <= total,
                self.grad_weights@.len() == total,
                forall|q: int|
                    0 <= q < k ==> ints(self.grad_weights@)[q] == m.grad_weights_upd(g)[q],
                forall|q: int| k <= q < total ==> ints(self.grad_weights@)[q] == m.grad_weights[q],
            decreases total - k,
        {
            proof {
                lemma_flat_index(k as int, self.input_dim as int, self.output_dim as int);
            }
            let row = k / self.input_dim;
            let col = k % self.input_dim;
            let nv = fx_add(self.grad_weights[k], fx_mul(grad_output[row], x[col]));
            self.grad_weights.set(k, nv);
            assert(ints(self.grad_weights@)[k as int] == m.grad_weights_upd(g)[k as int]);
            k = k + 1;
        }
        proof {
            assert(ints(self.grad_weights@) =~= m.grad_weights_upd(g));
        }

        // Input gradient: the transposed weight matrix applied to g.
        let wlen = self.weights.len();
        assert(m.weights.len() == wlen as int);
        let mut gi: Vec<i64> = Vec::new();
        let mut j: usize = 0;
        while j < self.input_dim
            invariant
                m.wf(),
                m.weights.len() <= usize::MAX,
                self.input_dim == m.input_dim,
                self.output_dim == m.output_dim,
                ints(self.weights@) == m.weights,
                g == ints(grad_output@),
                g.len() == m.output_dim,
                j <= self.input_dim,
                gi@.len() == j,
                forall|q: int| 0 <= q < j ==> ints(gi@)[q] == m.grad_input(g)[q],
            decreases self.input_dim - j,
        {
            let mut acc: i64 = 0;
            let mut i: usize = 0;
            while i < self.output_dim
                invariant
                    m.wf(),
                    m.weights.len() <= usize::MAX,
                    self.input_dim == m.input_dim,
                    self.output_dim == m.output_dim,
                    ints(self.weights@) == m.weights,
                    g == ints(grad_output@),
                    g.len() == m.output_dim,
                    j < self.input_dim,
                    i <= self.output_dim,
                    acc as int == m.grad_input_prefix(g, j as int, i as int),
                decreases self.output_dim - i,
            {
                proof {
                    lemma_cell_index(
                        i as int,
                        j as int,
                        self.input_dim as int,
                        self.output_dim as int,
                    );
                }
                acc = fx_add(acc, fx_mul(self.weights[i * self.input_dim + j], grad_output[i]));
                i = i + 1;
            }
            gi.push(acc);
            j = j + 1;
        }
        proof {
            assert(ints(gi@) =~= m.grad_input(g));
            assert(final(self)@ =~= m.backward_upd(g));
        }
        Ok(gi)
    }

    /// Applies one gradient-descent step in place: each weight and (when
    /// enabled) each bias moves by `-lr` times its accumulated gradient.
    pub fn apply_update(&mut self, lr: i64)
        requires
            old(self)@.wf(),
        ensures
            final(self)@.wf(),
            final(self)@ == old(self)@.updated(lr as int),
    {
        let ghost m = old(self)@;
        let wlen = self.weights.len();
        let mut k: usize = 0;
        while k < wlen
            invariant
                m.wf(),
                wlen == m.weights.len(),
                self.input_dim == m.input_dim,
                self.output_dim == m.output_dim,
                self.weights@.len() == wlen,
                ints(self.biases@) == m.biases,
                ints(self.grad_weights@) == m.grad_weights,
                ints(self.grad_biases@) == m.grad_biases,
                self.bias_enabled == m.bias_enabled,
                self.cached_input == old(self).cached_input,
                k <= wlen,
                forall|q: int| 0 <= q < k ==> ints(self.weights@)[q] == m.updated(lr as int).weights[q],
                forall|q: int| k <= q < wlen ==> ints(self.weights@)[q] == m.weights[q],
            decreases wlen - k,
        {
            let nv = fx_sub(self.weights[k], fx_mul(lr, self.grad_weights[k]));
            self.weights.set(k, nv);
            k = k + 1;
        }
        proof {
            assert(ints(self.weights@) =~= m.updated(lr as int).weights);
        }
        if self.bias_enabled {
            let blen = self.biases.len();
            let mut k: usize = 0;
            while k < blen
                invariant
                    m.wf(),
                    m.bias_enabled,
                    blen == m.biases.len(),
                    self.input_dim == m.input_dim,
                    self.output_dim == m.output_dim,
                    self.biases@.len() == blen,
                    ints(self.weights@) == m.updated(lr as int).weights,
                    ints(self.grad_weights@) == m.grad_weights,
                    ints(self.grad_biases@) == m.grad_biases,
                    self.bias_enabled == m.bias_enabled,
                    self.cached_input == old(self).cached_input,
                    k <= blen,
                    forall|q: int|
                        0 <= q < k ==> ints(self.biases@)[q] == m.updated(lr as int).biases[q],
                    forall|q: int| k <= q < blen ==> ints(self.biases@)[q] == m.biases[q],
                decreases blen - k,
            {
                let nv = fx_sub(self.biases[k], fx_mul(lr, self.grad_biases[k]));
                self.biases.set(k, nv);
                k = k + 1;
            }
            proof {
                assert(ints(self.biases@) =~= m.updated(lr as int).biases);
            }
        }
        proof {
            assert(final(self)@ =~= m.updated(lr as int));
        }
    }

    /// Writes the slice `vals[offset ..]` back into the learnable parameters,
    /// weights first and then (when enabled) biases, and returns how many
    /// scalars were consumed.
    pub fn set_params(&mut self, vals: &Vec<i64>, offset: usize) -> (consumed: usize)
        requires
            old(self)@.wf(),
            offset + old(self)@.params_view().len() <= vals@.len(),
        ensures
            final(self)@.wf(),
            consumed == old(self)@.params_view().len(),
            final(self)@ == old(self)@.with_params(
                ints(vals@).subrange(
                    offset as int,
                    offset + old(self)@.params_view().len(),
                ),
            ),
    {
        let ghost m = old(self)@;
        let ghost plen = m.params_view().len() as int;
        let ghost chunk = ints(vals@).subrange(offset as int, offset as int + plen);
        let vlen = vals.len();
        let wlen = self.weights.len();
        let mut k: usize = 0;
        while k < wlen
            invariant
                m.wf(),
                wlen == m.weights.len(),
                offset + plen <= vals@.len(),
                vals@.len() <= usize::MAX,
                plen == m.params_view().len(),
                self.input_dim == m.input_dim,
                self.output_dim == m.output_dim,
                self.weights@.len() == wlen,
                ints(self.biases@) == m.biases,
                ints(self.grad_weights@) == m.grad_weights,
                ints(self.grad_biases@) == m.grad_biases,
                self.bias_enabled == m.bias_enabled,
                self.cached_input == old(self).cached_input,
                k <= wlen,
                forall|q: int|
                    0 <= q < k ==> ints(self.weights@)[q] == ints(vals@)[offset + q],
                forall|q: int| k <= q < wlen ==> ints(self.weights@)[q] == m.weights[q],
            decreases wlen - k,
        {
            proof {
                assert(wlen <= plen);
            }
            let ghost wv = ints(self.weights@);
            let nv = vals[offset + k];
            self.weights.set(k, nv);
            proof {
                assert(ints(self.weights@) =~= wv.update(k as int, nv as int));
            }
            k = k + 1;
        }
        proof {
            assert(wlen <= plen);
            assert(ints(self.weights@) =~= chunk.take(wlen as int));
            assert(m.with_params(chunk).weights =~= ints(self.weights@));
        }
        if self.bias_enabled {
            let blen = self.biases.len();
            let mut k: usize = 0;
            while k < blen
                invariant
                    m.wf(),
                    m.bias_enabled,
                    blen == m.biases.len(),
                    wlen == m.weights.len(),
                    offset + plen <= vals@.len(),
                    vals@.len() <= usize::MAX,
                    plen == wlen + blen,
                    self.input_dim == m.input_dim,
                    self.output_dim == m.output_dim,
                    self.biases@.len() == blen,
                    ints(self.weights@) == m.with_params(chunk).weights,
                    ints(self.grad_weights@) == m.grad_weights,
                    ints(self.grad_biases@) == m.grad_biases,
                    self.bias_enabled == m.bias_enabled,
                    self.cached_input == old(self).cached_input,
                    k <= blen,
                    forall|q: int|
                        0 <= q < k ==> ints(self.biases@)[q] == ints(vals@)[offset + wlen + q],
                    forall|q: int| k <= q < blen ==> ints(self.biases@)[q] == m.biases[q],
                decreases blen - k,
            {
                let ghost bv = ints(self.biases@);
                let nv = vals[offset + wlen + k];
                self.biases.set(k, nv);
                proof {
                    assert(ints(self.biases@) =~= bv.update(k as int, nv as int));
                }
                k = k + 1;
            }
            proof {
                assert(ints(self.biases@) =~= chunk.skip(wlen as int));
                assert(m.with_params(chunk).biases =~= ints(self.biases@));
            }
            proof {
                assert(final(self)@ =~= m.with_params(chunk));
            }
            wlen + self.biases.len()
        } else {
            proof {
                assert(plen == wlen);
                assert(final(self)@ =~= m.with_params(chunk));
            }
            wlen
        }
    }

    /// Zeroes the gradient accumulators; weights, biases and the cached input
    /// are untouched.
    pub fn zero_grad(&mut self)
        requires
            old(self)@.wf(),
        ensures
            final(self)@.wf(),
            final(self)@ == old(self)@.zeroed(),
    {
        let gw = zero_scalars(self.grad_weights.len());
        let gb = zero_scalars(self.grad_biases.len());
        self.grad_weights = gw;
        self.grad_biases = gb;
        proof {
            assert(final(self)@ =~= old(self)@.zeroed());
        }
    }
}

/// Row `i` of a row-major `out_d x in_d` matrix lies inside the flat storage.
proof fn lemma_row_span(i: int, in_d: int, out_d: int)
    by (nonlinear_arith)
    requires
        0 <= i < out_d,
        0 <= in_d,
    ensures
        0 <= i * in_d,
        i * in_d + in_d <= in_d * out_d,
        i * in_d + in_d <= out_d * in_d,
{
}

/// A flat index splits into a row below `out_d` and a column below `in_d`.
proof fn lemma_flat_index(k: int, in_d: int, out_d: int)
    requires
        0 <= k < in_d * out_d,
        0 <= in_d,
        0 <= out_d,
    ensures
        1 <= in_d,
        0 <= k / in_d < out_d,
        0 <= k % in_d < in_d,
{
    assert(1 <= in_d) by (nonlinear_arith)
        requires
            0 <= k < in_d * out_d,
            0 <= in_d;
    vstd::arithmetic::div_mod::lemma_fundamental_div_mod(k, in_d);
    vstd::arithmetic::div_mod::lemma_mod_bound(k, in_d);
    let q = k / in_d;
    let rem = k % in_d;
    assert(0 <= q && q < out_d) by (nonlinear_arith)
        requires
            k == in_d * q + rem,
            0 <= rem < in_d,
            0 <= k < in_d * out_d,
            1 <= in_d;
}

/// A row/column pair addresses a cell inside the flat storage.
proof fn lemma_cell_index(i: int, j: int, in_d: int, out_d: int)
    by (nonlinear_arith)
    requires
        0 <= i < out_d,
        0 <= j < in_d,
    ensures
        0 <= i * in_d + j < in_d * out_d,
{
}

} // verus!
