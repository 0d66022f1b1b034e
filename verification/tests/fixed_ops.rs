//! Exact-value tests for the fixed-point scalar operations, the integer
//! square root, the generator, and the dot-product primitive.

use nnet::dot::flat_matrix_vector_dot;
use nnet::error::NnError;
use nnet::fixed::{fx_add, fx_div, fx_div_int, fx_mul, fx_sub, FX_ONE};
use nnet::rng::{isqrt_u128, xavier_limit, Rng};

#[test]
fn add_and_sub_are_exact_in_range() {
    assert_eq!(fx_add(3 * FX_ONE, 2 * FX_ONE), 5 * FX_ONE);
    assert_eq!(fx_sub(3 * FX_ONE, 5 * FX_ONE), -2 * FX_ONE);
    assert_eq!(fx_add(-7, 7), 0);
}

#[test]
fn add_saturates_at_the_symmetric_range() {
    assert_eq!(fx_add(i64::MAX, 1), i64::MAX);
    assert_eq!(fx_sub(-i64::MAX, 1), -i64::MAX);
    assert_eq!(fx_add(-i64::MAX, -5), -i64::MAX);
    // saturation is symmetric, so subtraction is exactly odd
    assert_eq!(fx_sub(0, i64::MAX), -fx_sub(i64::MAX, 0));
    assert_eq!(fx_add(-i64::MAX, -i64::MAX), -fx_add(i64::MAX, i64::MAX));
}

#[test]
fn mul_is_exact_and_truncates_toward_zero() {
    // 1.5 * 2 = 3
    assert_eq!(fx_mul(3 * FX_ONE / 2, 2 * FX_ONE), 3 * FX_ONE);
    // smallest positive times one half truncates to zero
    assert_eq!(fx_mul(1, FX_ONE / 2), 0);
    // negative products truncate toward zero as well
    assert_eq!(fx_mul(-1, FX_ONE / 2), 0);
    assert_eq!(fx_mul(-3 * FX_ONE, 2 * FX_ONE), -6 * FX_ONE);
}

#[test]
fn mul_saturates_symmetrically() {
    assert_eq!(fx_mul(i64::MAX, i64::MAX), i64::MAX);
    assert_eq!(fx_mul(i64::MAX, -i64::MAX), -i64::MAX);
    assert_eq!(fx_mul(i64::MAX, i64::MIN), -i64::MAX);
}

#[test]
fn div_is_exact() {
    assert_eq!(fx_div(3 * FX_ONE, 2 * FX_ONE), 3 * FX_ONE / 2);
    assert_eq!(fx_div(-3 * FX_ONE, 2 * FX_ONE), -(3 * FX_ONE / 2));
    assert_eq!(fx_div(FX_ONE, -2 * FX_ONE), -FX_ONE / 2);
    assert_eq!(fx_div_int(5 * FX_ONE, 2), 5 * FX_ONE / 2);
    assert_eq!(fx_div_int(-5 * FX_ONE, 2), -(5 * FX_ONE / 2));
}

#[test]
fn isqrt_exact_values() {
    assert_eq!(isqrt_u128(0), 0);
    assert_eq!(isqrt_u128(1), 1);
    assert_eq!(isqrt_u128(3), 1);
    assert_eq!(isqrt_u128(4), 2);
    assert_eq!(isqrt_u128(1000000), 1000);
    assert_eq!(isqrt_u128(999999), 999);
}

#[test]
fn xavier_limit_for_two_by_eight() {
    // floor(sqrt(6 / 10) * 2^32)
    assert_eq!(xavier_limit(2, 8), 3326867361);
}

#[test]
fn generator_is_deterministic_and_bounded() {
    let mut a = Rng::new(42);
    let mut b = Rng::new(42);
    for _ in 0..10 {
        let x = a.draw_symmetric(1000);
        let y = b.draw_symmetric(1000);
        assert_eq!(x, y);
        assert!(-1000 <= x && x <= 1000);
    }
    // the documented LCG: state 42 advances to 42 * 6364136223846793005 + 1
    let mut c = Rng::new(42);
    let l: i64 = 3326867361;
    assert_eq!(c.draw_symmetric(l), -1675888380);
    assert_eq!(c.draw_symmetric(l), -1903112704);
}

#[test]
fn dot_product_exact_value() {
    let matrix = vec![FX_ONE, 2 * FX_ONE, 3 * FX_ONE, 4 * FX_ONE];
    let vector = vec![2 * FX_ONE, FX_ONE / 2];
    // 3 * 2 + 4 * 0.5 = 8, reading the slice starting at index 2
    assert_eq!(flat_matrix_vector_dot(&matrix, &vector, 2), Ok(8 * FX_ONE));
    // start 0: 1 * 2 + 2 * 0.5 = 3
    assert_eq!(flat_matrix_vector_dot(&matrix, &vector, 0), Ok(3 * FX_ONE));
}

#[test]
fn dot_product_out_of_bounds() {
    let matrix = vec![FX_ONE, 2 * FX_ONE];
    let vector = vec![FX_ONE, FX_ONE];
    assert_eq!(
        flat_matrix_vector_dot(&matrix, &vector, 1),
        Err(NnError::OutOfBounds)
    );
    // the bound is checked even for an empty vector: any offset past the end fails
    let empty: Vec<i64> = vec![];
    assert_eq!(
        flat_matrix_vector_dot(&matrix, &empty, 99),
        Err(NnError::OutOfBounds)
    );
    // an empty slice that stays within the matrix is fine
    assert_eq!(flat_matrix_vector_dot(&matrix, &empty, 2), Ok(0));
}
