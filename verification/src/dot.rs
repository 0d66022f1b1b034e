//! The numeric leaf utility: a flat row-major matrix × vector dot product with
//! bounds checking.

use vstd::prelude::*;
use crate::error::NnError;
use crate::fixed::{fx_add, fx_add_spec, fx_mul, fx_mul_spec, ints};

verus! {

/// The saturating dot product of `v[0..k]` with `m[start..start + k]`,
/// accumulated left to right.
pub open spec fn dot_prefix(m: Seq<int>, v: Seq<int>, start: int, k: int) -> int
    recommends
        0 <= start,
        0 <= k <= v.len(),
        start + k <= m.len(),
    decreases k,
{
    if k <= 0 {
        0
    } else {
        fx_add_spec(dot_prefix(m, v, start, k - 1), fx_mul_spec(v[k - 1], m[start + k - 1]))
    }
}

/// The saturating dot product of all of `v` with the matrix slice starting at `start`.
pub open spec fn dot_spec(m: Seq<int>, v: Seq<int>, start: int) -> int {
    dot_prefix(m, v, start, v.len() as int)
}

/// Computes the dot product of `vector` with the matrix slice
/// `[start_idx, start_idx + vector.len())`; fails with an out-of-bounds error
/// whenever that slice runs past the end of the matrix.
pub fn flat_matrix_vector_dot(matrix: &Vec<i64>, vector: &Vec<i64>, start_idx: usize) -> (r:
    Result<i64, NnError>)
    ensures
        r is Ok <==> start_idx + vector@.len() <= matrix@.len(),
        r matches Ok(d) ==> d as int == dot_spec(ints(matrix@), ints(vector@), start_idx as int),
        r is Err ==> r == Err::<i64, NnError>(NnError::OutOfBounds),
{
    if start_idx > matrix.len() || vector.len() > matrix.len() - start_idx {
        return Err(NnError::OutOfBounds);
    }
    let mut res: i64 = 0;
    let mut i: usize = 0;
    while i < vector.len()
        invariant
            i <= vector@.len(),
            matrix@.len() <= usize::MAX,
            start_idx + vector@.len() <= matrix@.len(),
            res as int == dot_prefix(ints(matrix@), ints(vector@), start_idx as int, i as int),
        decreases vector@.len() - i,
    {
        res = fx_add(res, fx_mul(vector[i], matrix[start_idx + i]));
        i = i + 1;
    }
    Ok(res)
}

} // verus!
