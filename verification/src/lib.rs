//! A minimal feed-forward neural-network engine: an ordered pipeline of
//! differentiable layers with forward evaluation, hand-derived backward-mode
//! gradient accumulation, and parameter update through a pluggable optimizer.
//!
//! Scalars are Q32.32 fixed-point numbers stored in `i64`: the stored value
//! `v` stands for the real number `v / 2^32`. All arithmetic saturates at the
//! `i64` range, so every operation is total and its exact result is stated in
//! the contracts.

pub mod activation;
pub mod dot;
pub mod error;
pub mod fixed;
pub mod laws;
pub mod layer;
pub mod loss;
pub mod mlp;
pub mod linear;
pub mod optimizer;
pub mod rng;
pub mod sequential;
