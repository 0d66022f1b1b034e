//! Q32.32 saturating fixed-point arithmetic on `i64`.
//!
//! A stored value `v: i64` stands for the real number `v / 2^32`. Products and
//! quotients are truncated toward zero; every operation saturates at the
//! symmetric range `[-i64::MAX, i64::MAX]` (symmetric so that negation is
//! exact, which makes subtraction and the gradients built on it exactly odd),
//! so all operations are total. Each executable operation is proved to return
//! exactly the value of its spec-level counterpart.

use vstd::prelude::*;

verus! {

/// One whole unit in Q32.32: 2^32.
pub const FX_ONE: i64 = 4294967296;

/// Saturation of a mathematical integer into the symmetric scalar range
/// `[-i64::MAX, i64::MAX]`.
pub open spec fn sat64(x: int) -> int {
    if x > i64::MAX {
        i64::MAX as int
    } else if x < -(i64::MAX as int) {
        -(i64::MAX as int)
    } else {
        x
    }
}

/// Saturation is an odd function: negating the argument negates the result.
pub proof fn lemma_sat64_odd(x: int)
    ensures
        sat64(-x) == -sat64(x),
{
}

/// Absolute value of a mathematical integer.
pub open spec fn abs_int(x: int) -> int {
    if x < 0 {
        -x
    } else {
        x
    }
}

/// Division truncated toward zero (the divisor must be positive).
pub open spec fn div_trunc(p: int, d: int) -> int
    recommends
        d > 0,
{
    if p >= 0 {
        p / d
    } else {
        -((-p) / d)
    }
}

/// Saturating fixed-point addition.
pub open spec fn fx_add_spec(a: int, b: int) -> int {
    sat64(a + b)
}

/// Saturating fixed-point subtraction.
pub open spec fn fx_sub_spec(a: int, b: int) -> int {
    sat64(a - b)
}

/// Saturating fixed-point multiplication: (a * b) / 2^32, truncated toward zero.
pub open spec fn fx_mul_spec(a: int, b: int) -> int {
    sat64(div_trunc(a * b, FX_ONE as int))
}

/// Saturating fixed-point division: (a * 2^32) / b, truncated toward zero.
pub open spec fn fx_div_spec(a: int, b: int) -> int
    recommends
        b != 0,
{
    let mag = (abs_int(a) * (FX_ONE as int)) / abs_int(b);
    if (a < 0) != (b < 0) {
        sat64(-mag)
    } else {
        sat64(mag)
    }
}

/// A fixed-point value divided by a plain positive integer, truncated toward
/// zero and saturated into the symmetric scalar range.
pub open spec fn fx_div_int_spec(a: int, n: int) -> int
    recommends
        n >= 1,
{
    sat64(div_trunc(a, n))
}

/// The view of a vector of scalars as a sequence of mathematical integers.
pub open spec fn ints(s: Seq<i64>) -> Seq<int> {
    s.map_values(|x: i64| x as int)
}

/// Saturating addition.
pub fn fx_add(a: i64, b: i64) -> (r: i64)
    ensures
        r as int == fx_add_spec(a as int, b as int),
{
    let s: i128 = a as i128 + b as i128;
    if s > i64::MAX as i128 {
        i64::MAX
    } else if s < -(i64::MAX as i128) {
        -i64::MAX
    } else {
        s as i64
    }
}

/// Saturating subtraction.
pub fn fx_sub(a: i64, b: i64) -> (r: i64)
    ensures
        r as int == fx_sub_spec(a as int, b as int),
{
    let s: i128 = a as i128 - b as i128;
    if s > i64::MAX as i128 {
        i64::MAX
    } else if s < -(i64::MAX as i128) {
        -i64::MAX
    } else {
        s as i64
    }
}

/// Saturating fixed-point multiplication.
pub fn fx_mul(a: i64, b: i64) -> (r: i64)
    ensures
        r as int == fx_mul_spec(a as int, b as int),
{
    proof {
        lemma_i64_product_bounds(a as int, b as int);
    }
    let p: i128 = (a as i128) * (b as i128);
    if p >= 0 {
        let mag: u128 = (p as u128) / (FX_ONE as u128);
        if mag > i64::MAX as u128 {
            i64::MAX
        } else {
            mag as i64
        }
    } else {
        let mag: u128 = ((-p) as u128) / (FX_ONE as u128);
        if mag > i64::MAX as u128 {
            -i64::MAX
        } else {
            -(mag as i64)
        }
    }
}

/// Saturating fixed-point division. The divisor must be nonzero.
pub fn fx_div(a: i64, b: i64) -> (r: i64)
    requires
        b != 0,
    ensures
        r as int == fx_div_spec(a as int, b as int),
{
    let neg: bool = (a < 0) != (b < 0);
    let ma: u128 = if a < 0 {
        (-(a as i128)) as u128
    } else {
        a as u128
    };
    let mb: u128 = if b < 0 {
        (-(b as i128)) as u128
    } else {
        b as u128
    };
    assert(ma <= 0x8000000000000000u128);
    let mag: u128 = (ma * (FX_ONE as u128)) / mb;
    if neg {
        if mag > i64::MAX as u128 {
            -i64::MAX
        } else {
            -(mag as i64)
        }
    } else {
        if mag > i64::MAX as u128 {
            i64::MAX
        } else {
            mag as i64
        }
    }
}

/// Division of a fixed-point value by a plain positive integer.
pub fn fx_div_int(a: i64, n: usize) -> (r: i64)
    requires
        n >= 1,
    ensures
        r as int == fx_div_int_spec(a as int, n as int),
{
    if a < 0 {
        let ma: u128 = (-(a as i128)) as u128;
        let mag: u128 = ma / (n as u128);
        if mag > i64::MAX as u128 {
            -i64::MAX
        } else {
            -(mag as i64)
        }
    } else {
        let mag: u128 = (a as u128) / (n as u128);
        mag as i64
    }
}

/// A fresh vector holding the same scalars.
pub fn copy_scalars(v: &Vec<i64>) -> (r: Vec<i64>)
    ensures
        r@ == v@,
{
    let mut r: Vec<i64> = Vec::new();
    let mut i: usize = 0;
    while i < v.len()
        invariant
            i <= v@.len(),
            r@ == v@.take(i as int),
        decreases v@.len() - i,
    {
        r.push(v[i]);
        assert(r@ =~= v@.take(i + 1));
        i = i + 1;
    }
    assert(r@ =~= v@);
    r
}

/// A vector of `n` zero scalars.
pub fn zero_scalars(n: usize) -> (r: Vec<i64>)
    ensures
        r@.len() == n,
        forall|i: int| 0 <= i < n ==> r@[i] == 0i64,
{
    let mut r: Vec<i64> = Vec::new();
    let mut i: usize = 0;
    while i < n
        invariant
            i <= n,
            r@.len() == i,
            forall|k: int| 0 <= k < i ==> r@[k] == 0i64,
        decreases n - i,
    {
        r.push(0);
        i = i + 1;
    }
    r
}

/// The product of two `i64` values stays strictly inside the `i128` range.
proof fn lemma_i64_product_bounds(a: int, b: int)
    by (nonlinear_arith)
    requires
        i64::MIN <= a <= i64::MAX,
        i64::MIN <= b <= i64::MAX,
    ensures
        -0x40000000000000000000000000000000 <= a * b
            <= 0x40000000000000000000000000000000,
{
}

} // verus!
