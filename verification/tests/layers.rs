//! Layer-level tests: gradient accumulation, the state-order rule, and
//! central-difference checks of each backward pass against its forward pass.

use nnet::activation::{tanh, Activation, ActivationFunction, ActivationType};
use nnet::error::NnError;
use nnet::fixed::{fx_add, fx_sub, FX_ONE};
use nnet::linear::Linear;
use nnet::rng::Rng;

fn fx(x: f64) -> i64 {
    (x * (FX_ONE as f64)) as i64
}

fn approx(a: i64, b: i64, tol: i64) -> bool {
    (a - b).abs() <= tol
}

#[test]
fn tanh_exact_values() {
    assert_eq!(tanh(0), 0);
    assert_eq!(tanh(FX_ONE / 2), 1984778077);
    assert_eq!(tanh(-(FX_ONE / 2)), -1984778077);
    assert_eq!(tanh(FX_ONE), 3271021993);
    // odd symmetry and saturation bounds
    for v in [1i64, 77, FX_ONE, 3 * FX_ONE, 100 * FX_ONE] {
        assert_eq!(tanh(-v), -tanh(v));
        assert!(tanh(v) <= FX_ONE && tanh(v) >= -FX_ONE);
    }
}

#[test]
fn gradient_accumulation_doubles_then_zeroes() {
    let mut rng = Rng::new(7);
    let mut layer = Linear::new(3, 2, &mut rng);
    let input = vec![fx(0.3), fx(-0.7), fx(0.55)];
    layer.forward(&input).unwrap();

    let g = vec![fx(1.0), fx(-0.5)];
    layer.backward(&g).unwrap();
    let gw_once = layer.grad_weights.clone();
    let gb_once = layer.grad_biases.clone();

    layer.backward(&g).unwrap();
    for k in 0..gw_once.len() {
        assert_eq!(layer.grad_weights[k], 2 * gw_once[k]);
    }
    for k in 0..gb_once.len() {
        assert_eq!(layer.grad_biases[k], 2 * gb_once[k]);
    }

    layer.zero_grad();
    assert!(layer.grad_weights.iter().all(|&v| v == 0));
    assert!(layer.grad_biases.iter().all(|&v| v == 0));
}

#[test]
fn backward_before_forward_fails() {
    let mut rng = Rng::new(1);
    let mut layer = Linear::new(2, 2, &mut rng);
    let g = vec![fx(1.0), fx(1.0)];
    assert_eq!(layer.backward(&g), Err(NnError::BackwardBeforeForward));

    let mut act = ActivationFunction::new(Activation::Tanh, 2);
    assert_eq!(act.backward(&g), Err(NnError::BackwardBeforeForward));

    // after a forward, backward works; after zero_grad the activation cache is
    // cleared again and backward must fail (not silently return zeros)
    act.forward(&g).unwrap();
    assert!(act.backward(&g).is_ok());
    act.zero_grad();
    assert_eq!(act.backward(&g), Err(NnError::BackwardBeforeForward));
}

#[test]
fn dimension_mismatch_is_reported() {
    let mut rng = Rng::new(1);
    let mut layer = Linear::new(2, 3, &mut rng);
    let bad = vec![fx(1.0)];
    assert_eq!(
        layer.forward(&bad),
        Err(NnError::DimensionMismatch { expected: 2, actual: 1 })
    );
    let ok_in = vec![fx(1.0), fx(0.5)];
    layer.forward(&ok_in).unwrap();
    assert_eq!(
        layer.backward(&bad),
        Err(NnError::DimensionMismatch { expected: 3, actual: 1 })
    );
}

#[test]
fn linear_backward_matches_finite_difference() {
    let mut rng = Rng::new(9);
    let mut layer = Linear::new(3, 2, &mut rng);
    let x = vec![fx(0.3), fx(-0.7), fx(0.55)];
    let h = fx(1.0 / 1024.0);
    let tol = fx(1e-3);

    layer.forward(&x).unwrap();
    // picking grad_output = e_0 makes grad_input row 0 of the weights
    let e0 = vec![FX_ONE, 0];
    let gi = layer.backward(&e0).unwrap();
    for j in 0..3 {
        let mut xp = x.clone();
        let mut xm = x.clone();
        xp[j] = fx_add(xp[j], h);
        xm[j] = fx_sub(xm[j], h);
        let fp = layer.forward(&xp).unwrap()[0];
        let fm = layer.forward(&xm).unwrap()[0];
        // (f(x + h) - f(x - h)) / (2 h), with 2 h = 2^-9
        let numeric = fx_sub(fp, fm) * 512;
        assert!(
            approx(numeric, gi[j], tol),
            "column {}: analytic {} numeric {}",
            j,
            gi[j],
            numeric
        );
    }
}

#[test]
fn tanh_backward_matches_finite_difference() {
    let h = fx(1.0 / 1024.0);
    let tol = fx(1e-3);
    for &xr in &[-0.9, -0.45, 0.2, 0.7, 1.1] {
        let x = fx(xr);
        let mut act = ActivationFunction::new(Activation::Tanh, 1);
        act.forward(&vec![x]).unwrap();
        let analytic = act.backward(&vec![FX_ONE]).unwrap()[0];
        // central difference of the forward map, divided by 2h = 2^-9
        let numeric = (tanh(fx_add(x, h)) - tanh(fx_sub(x, h))) * 512;
        assert!(
            approx(analytic, numeric, tol),
            "x {}: analytic {} numeric {}",
            xr,
            analytic,
            numeric
        );
    }
}

#[test]
fn relu_backward_matches_finite_difference() {
    let h = fx(1.0 / 1024.0);
    let tol = fx(1e-3);
    for &xr in &[-0.9, -0.2, 0.3, 1.4] {
        let x = fx(xr);
        let mut act = ActivationFunction::new(Activation::ReLU, 1);
        act.forward(&vec![x]).unwrap();
        let analytic = act.backward(&vec![FX_ONE]).unwrap()[0];
        let relu = |v: i64| if v > 0 { v } else { 0 };
        let numeric = (relu(fx_add(x, h)) - relu(fx_sub(x, h))) * 512;
        assert!(
            approx(analytic, numeric, tol),
            "x {}: analytic {} numeric {}",
            xr,
            analytic,
            numeric
        );
    }
}

#[test]
fn activation_type_selects_kind() {
    assert_eq!(ActivationType::Tanh.as_activation(), Activation::Tanh);
    assert_eq!(ActivationType::ReLU.as_activation(), Activation::ReLU);
}
