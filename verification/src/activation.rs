//! Elementwise activation layers (`Tanh`, `ReLU`).
//!
//! An activation layer has no learnable parameters; its only mutable state is
//! the forward cache its backward pass consumes. `Tanh` caches its output
//! (the derivative reads `1 - output^2`); `ReLU` caches its input (the
//! derivative is a 0/1 gate on the sign).
//!
//! The hyperbolic tangent is evaluated in fixed point with the input clamped
//! to `[-4, 4]`, a six-level continued fraction
//! `x / (1 + x^2/(3 + x^2/(5 + ...)))`, and the output clamped to `[-1, 1]`.

use vstd::prelude::*;
use crate::error::NnError;
use crate::fixed::{
    copy_scalars,
    fx_add,
    fx_add_spec,
    fx_div,
    fx_div_spec,
    fx_mul,
    fx_mul_spec,
    fx_sub_spec,
    ints,
    FX_ONE,
};

verus! {

/// The activation kinds a layer can apply.
#[derive(Clone, Copy, Debug, PartialEq, Eq, Structural)]
pub enum Activation {
    Tanh,
    ReLU,
}

/// An activation tag for pipeline specifications and configs.
#[derive(Clone, Copy, Debug, PartialEq, Eq, Structural)]
pub enum ActivationType {
    Tanh,
    ReLU,
}

impl ActivationType {
    /// The layer-level activation this tag selects.
    pub open spec fn as_activation_spec(&self) -> Activation {
        match self {
            ActivationType::Tanh => Activation::Tanh,
            ActivationType::ReLU => Activation::ReLU,
        }
    }

    /// The layer-level activation this tag selects.
    pub fn as_activation(&self) -> (r: Activation)
        ensures
            r == self.as_activation_spec(),
    {
        match self {
            ActivationType::Tanh => Activation::Tanh,
            ActivationType::ReLU => Activation::ReLU,
        }
    }
}

/// Clamp a value into `[-c, c]`.
pub open spec fn clamp_spec(x: int, c: int) -> int
    recommends
        c >= 0,
{
    if x > c {
        c
    } else if x < -c {
        -c
    } else {
        x
    }
}

/// The fixed-point hyperbolic tangent: the input clamped to four units, a
/// six-level continued fraction, and the result clamped to one unit.
pub open spec fn tanh_spec(x: int) -> int {
    let c = clamp_spec(x, 4 * (FX_ONE as int));
    let t = fx_mul_spec(c, c);
    let d5 = fx_add_spec(11 * (FX_ONE as int), fx_div_spec(t, 13 * (FX_ONE as int)));
    let d4 = fx_add_spec(9 * (FX_ONE as int), fx_div_spec(t, d5));
    let d3 = fx_add_spec(7 * (FX_ONE as int), fx_div_spec(t, d4));
    let d2 = fx_add_spec(5 * (FX_ONE as int), fx_div_spec(t, d3));
    let d1 = fx_add_spec(3 * (FX_ONE as int), fx_div_spec(t, d2));
    let d0 = fx_add_spec(FX_ONE as int, fx_div_spec(t, d1));
    clamp_spec(fx_div_spec(c, d0), FX_ONE as int)
}

/// The rectifier: `max(0, x)`.
pub open spec fn relu_spec(x: int) -> int {
    if x > 0 {
        x
    } else {
        0
    }
}

/// Clamps a scalar into `[-c, c]`.
fn clamp_fx(x: i64, c: i64) -> (r: i64)
    requires
        0 <= c,
    ensures
        r as int == clamp_spec(x as int, c as int),
{
    if x > c {
        c
    } else if x < -c {
        -c
    } else {
        x
    }
}

/// Computes the fixed-point hyperbolic tangent.
pub fn tanh(x: i64) -> (r: i64)
    ensures
        r as int == tanh_spec(x as int),
        -FX_ONE <= r <= FX_ONE,
{
    let c = clamp_fx(x, 4 * FX_ONE);
    let t = fx_mul(c, c);
    proof {
        assert((c as int) * (c as int) >= 0) by (nonlinear_arith);
        assert(t >= 0);
    }
    let mut d = fx_add(11 * FX_ONE, fx_div(t, 13 * FX_ONE));
    assert(d > 0);
    d = fx_add(9 * FX_ONE, fx_div(t, d));
    assert(d > 0);
    d = fx_add(7 * FX_ONE, fx_div(t, d));
    assert(d > 0);
    d = fx_add(5 * FX_ONE, fx_div(t, d));
    assert(d > 0);
    d = fx_add(3 * FX_ONE, fx_div(t, d));
    assert(d > 0);
    d = fx_add(FX_ONE, fx_div(t, d));
    assert(d > 0);
    clamp_fx(fx_div(c, d), FX_ONE)
}

/// The mathematical state of an activation layer.
#[verifier::ext_equal]
pub struct ActivationModel {
    pub activation: Activation,
    pub dim: nat,
    pub cached_state: Option<Seq<int>>,
}

impl ActivationModel {
    /// Shape invariant: whatever is cached has the layer's width.
    pub open spec fn wf(self) -> bool {
        self.cached_state matches Some(c) ==> c.len() == self.dim
    }

    /// The elementwise forward output.
    pub open spec fn forward_out(self, x: Seq<int>) -> Seq<int> {
        match self.activation {
            Activation::Tanh => x.map_values(|v: int| tanh_spec(v)),
            Activation::ReLU => x.map_values(|v: int| relu_spec(v)),
        }
    }

    /// The state after a forward pass: `Tanh` caches its output, `ReLU` its input.
    pub open spec fn forward_upd(self, x: Seq<int>) -> ActivationModel {
        match self.activation {
            Activation::Tanh => ActivationModel { cached_state: Some(self.forward_out(x)), ..self },
            Activation::ReLU => ActivationModel { cached_state: Some(x), ..self },
        }
    }

    /// The gradient with respect to the input, read off the cached state.
    pub open spec fn backward_out(self, g: Seq<int>) -> Seq<int>
        recommends
            self.cached_state is Some,
    {
        let c = self.cached_state->0;
        match self.activation {
            Activation::Tanh => Seq::new(
                self.dim,
                |i: int| fx_mul_spec(g[i], fx_sub_spec(FX_ONE as int, fx_mul_spec(c[i], c[i]))),
            ),
            Activation::ReLU => Seq::new(
                self.dim,
                |i: int|
                    if c[i] > 0 {
                        g[i]
                    } else {
                        0
                    },
            ),
        }
    }

    /// The state after `zero_grad`: the cache is cleared (there are no
    /// learnable parameters to zero).
    pub open spec fn zeroed(self) -> ActivationModel {
        ActivationModel { cached_state: None, ..self }
    }
}

/// An elementwise activation layer of a fixed width.
pub struct ActivationFunction {
    pub activation: Activation,
    pub dim: usize,
    /// The cached forward state (`Tanh`: the output; `ReLU`: the input),
    /// consumed by `backward`; managed by `forward` and `zero_grad`.
    pub cached_state: Option<Vec<i64>>,
}

impl View for ActivationFunction {
    type V = ActivationModel;

    open spec fn view(&self) -> ActivationModel {
        ActivationModel {
            activation: self.activation,
            dim: self.dim as nat,
            cached_state: match self.cached_state {
                Some(c) => Some(ints(c@)),
                None => None,
            },
        }
    }
}

impl ActivationFunction {
    /// A fresh activation layer with nothing cached.
    pub fn new(activation: Activation, dim: usize) -> (r: ActivationFunction)
        ensures
            r@.wf(),
            r@.activation == activation,
            r@.dim == dim,
            r@.cached_state is None,
    {
        ActivationFunction { activation, dim, cached_state: None }
    }

    /// Whether forward state is cached, so that `backward` has state to consume.
    pub fn is_ready(&self) -> (r: bool)
        ensures
            r == (self@.cached_state is Some),
    {
        self.cached_state.is_some()
    }

    /// Forward pass: applies the activation elementwise and caches the state
    /// its backward pass will need.
    pub fn forward(&mut self, input: &Vec<i64>) -> (r: Result<Vec<i64>, NnError>)
        requires
            old(self)@.wf(),
        ensures
            final(self)@.wf(),
            r is Ok <==> input@.len() == old(self)@.dim,
            r matches Ok(out) ==> {
                &&& ints(out@) == old(self)@.forward_out(ints(input@))
                &&& final(self)@ == old(self)@.forward_upd(ints(input@))
            },
            r is Err ==> final(self)@ == old(self)@ && r == Err::<Vec<i64>, NnError>(
                NnError::DimensionMismatch { expected: old(self)@.dim as usize, actual: input.len() },
            ),
    {
        if input.len() != self.dim {
            return Err(NnError::DimensionMismatch { expected: self.dim, actual: input.len() });
        }
        let ghost m = self@;
        let ghost x = ints(input@);
        let mut out: Vec<i64> = Vec::new();
        let mut i: usize = 0;
        while i < self.dim
            invariant
                *self == *old(self),
                m == self@,
                x == ints(input@),
                input@.len() == self.dim,
                i <= self.dim,
                out@.len() == i,
                forall|q: int| 0 <= q < i ==> ints(out@)[q] == m.forward_out(x)[q],
            decreases self.dim - i,
        {
            let v = match self.activation {
                Activation::Tanh => tanh(input[i]),
                Activation::ReLU => {
                    if input[i] > 0 {
                        input[i]
                    } else {
                        0
                    }
                },
            };
            out.push(v);
            assert(ints(out@)[i as int] == m.forward_out(x)[i as int]);
            i = i + 1;
        }
        proof {
            assert(ints(out@) =~= m.forward_out(x));
        }
        self.cached_state = match self.activation {
            Activation::Tanh => Some(copy_scalars(&out)),
            Activation::ReLU => Some(copy_scalars(input)),
        };
        proof {
            assert(final(self)@ =~= m.forward_upd(x));
        }
        Ok(out)
    }

    /// Backward pass: reads the cached state (without clearing it) and maps
    /// the output gradient through the local derivative.
    pub fn backward(&mut self, grad_output: &Vec<i64>) -> (r: Result<Vec<i64>, NnError>)
        requires
            old(self)@.wf(),
        ensures
            final(self)@.wf(),
            final(self)@ == old(self)@,
            r is Ok <==> (grad_output@.len() == old(self)@.dim && old(
                self,
            )@.cached_state is Some),
            r matches Ok(gi) ==> ints(gi@) == old(self)@.backward_out(ints(grad_output@)),
            grad_output@.len() != old(self)@.dim ==> r == Err::<Vec<i64>, NnError>(
                NnError::DimensionMismatch {
                    expected: old(self)@.dim as usize,
                    actual: grad_output.len(),
                },
            ),
            grad_output@.len() == old(self)@.dim && old(self)@.cached_state is None ==> r
                == Err::<Vec<i64>, NnError>(NnError::BackwardBeforeForward),
    {
        if grad_output.len() != self.dim {
            return Err(
                NnError::DimensionMismatch { expected: self.dim, actual: grad_output.len() },
            );
        }
        let c: Vec<i64> = match &self.cached_state {
            Some(c) => copy_scalars(c),
            None => {
                return Err(NnError::BackwardBeforeForward);
            },
        };
        let ghost m = self@;
        let ghost g = ints(grad_output@);
        let mut gi: Vec<i64> = Vec::new();
        let mut i: usize = 0;
        while i < self.dim
            invariant
                *self == *old(self),
                m == self@,
                m.wf(),
                m.cached_state is Some,
                ints(c@) == m.cached_state->0,
                c@.len() == m.dim,
                g == ints(grad_output@),
                g.len() == m.dim,
                self.dim == m.dim,
                i <= self.dim,
                gi@.len() == i,
                forall|q: int| 0 <= q < i ==> ints(gi@)[q] == m.backward_out(g)[q],
            decreases self.dim - i,
        {
            let v = match self.activation {
                Activation::Tanh => fx_mul(
                    grad_output[i],
                    crate::fixed::fx_sub(FX_ONE, fx_mul(c[i], c[i])),
                ),
                Activation::ReLU => {
                    if c[i] > 0 {
                        grad_output[i]
                    } else {
                        0
                    }
                },
            };
            gi.push(v);
            assert(ints(gi@)[i as int] == m.backward_out(g)[i as int]);
            i = i + 1;
        }
        proof {
            assert(ints(gi@) =~= m.backward_out(g));
        }
        Ok(gi)
    }

    /// Clears the forward cache; an activation layer has no gradients to zero.
    pub fn zero_grad(&mut self)
        requires
            old(self)@.wf(),
        ensures
            final(self)@.wf(),
            final(self)@ == old(self)@.zeroed(),
    {
        self.cached_state = None;
    }
}

} // verus!
