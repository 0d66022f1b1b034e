//! A deterministic pseudo-random generator for weight initialization, plus the
//! integer square root used to compute the Xavier-uniform limit.
//!
//! The generator is a 64-bit linear congruential generator that is constructed
//! with an explicit seed and threaded explicitly into each layer constructor,
//! so that building the same pipeline from the same seed always yields the
//! same weights.

use vstd::prelude::*;
use crate::fixed::FX_ONE;

verus! {

/// The LCG multiplier.
pub const LCG_MUL: u64 = 6364136223846793005;

/// The LCG increment.
pub const LCG_INC: u64 = 1;

/// 2^64, the LCG modulus.
pub open spec fn lcg_modulus() -> int {
    0x10000000000000000
}

/// The generator state after one step.
pub open spec fn lcg_next(s: int) -> int {
    (s * (LCG_MUL as int) + (LCG_INC as int)) % lcg_modulus()
}

/// The generator state after `n` steps.
pub open spec fn lcg_after(s: int, n: nat) -> int
    decreases n,
{
    if n == 0 {
        s
    } else {
        lcg_next(lcg_after(s, (n - 1) as nat))
    }
}

/// The symmetric draw produced from state `s`: a value in `[-limit, limit]`.
pub open spec fn lcg_draw(s: int, limit: int) -> int
    recommends
        limit >= 0,
{
    lcg_next(s) % (2 * limit + 1) - limit
}

/// The sequence of `n` symmetric draws starting from state `s`.
pub open spec fn draw_seq(s: int, n: nat, limit: int) -> Seq<int>
    recommends
        limit >= 0,
    decreases n,
{
    if n == 0 {
        Seq::empty()
    } else {
        seq![lcg_draw(s, limit)] + draw_seq(lcg_next(s), (n - 1) as nat, limit)
    }
}

/// An explicitly seeded pseudo-random generator (64-bit LCG).
pub struct Rng {
    state: u64,
}

impl Rng {
    /// The current generator state.
    pub closed spec fn state_spec(&self) -> int {
        self.state as int
    }

    /// A generator starting from the given seed.
    pub fn new(seed: u64) -> (r: Rng)
        ensures
            r.state_spec() == seed as int,
    {
        Rng { state: seed }
    }

    /// Advances the generator one step and returns the new state.
    pub fn next_u64(&mut self) -> (r: u64)
        ensures
            final(self).state_spec() == lcg_next(old(self).state_spec()),
            r as int == final(self).state_spec(),
    {
        proof {
            assert((self.state as int) * (LCG_MUL as int)
                < 0x100000000000000000000000000000000) by (nonlinear_arith)
                requires
                    0 <= (self.state as int),
                    (self.state as int) < 0x10000000000000000,
                    0 <= (LCG_MUL as int),
                    (LCG_MUL as int) < 0x10000000000000000;
        }
        let prod: u128 = (self.state as u128) * (LCG_MUL as u128);
        let m: u128 = prod % 0x10000000000000000u128;
        let next: u128 = (m + (LCG_INC as u128)) % 0x10000000000000000u128;
        proof {
            vstd::arithmetic::div_mod::lemma_add_mod_noop(
                prod as int,
                LCG_INC as int,
                0x10000000000000000,
            );
        }
        self.state = next as u64;
        self.state
    }

    /// Draws a value uniformly from `[-limit, limit]` (in fixed-point units).
    pub fn draw_symmetric(&mut self, limit: i64) -> (r: i64)
        requires
            0 <= limit <= 0x4000000000000000,
        ensures
            final(self).state_spec() == lcg_next(old(self).state_spec()),
            r as int == lcg_draw(old(self).state_spec(), limit as int),
            -limit <= r <= limit,
    {
        let next = self.next_u64();
        let span: u64 = 2 * (limit as u64) + 1;
        let m: u64 = next % span;
        let d: i128 = m as i128 - limit as i128;
        d as i64
    }
}

/// The integer square root: the largest `r` with `r * r <= n`.
pub open spec fn sqrt_floor(n: nat) -> nat
    decreases n,
{
    if n == 0 {
        0
    } else {
        let r = sqrt_floor((n - 1) as nat);
        if (r + 1) * (r + 1) <= n {
            r + 1
        } else {
            r
        }
    }
}

/// `sqrt_floor(n)` really is the floor of the square root of `n`.
pub proof fn lemma_sqrt_floor(n: nat)
    ensures
        sqrt_floor(n) * sqrt_floor(n) <= n,
        n < (sqrt_floor(n) + 1) * (sqrt_floor(n) + 1),
    decreases n,
{
    if n == 0 {
        assert(n < (sqrt_floor(n) + 1) * (sqrt_floor(n) + 1)) by (nonlinear_arith)
            requires
                n == 0,
                sqrt_floor(n) == 0;
    } else {
        lemma_sqrt_floor((n - 1) as nat);
        let r = sqrt_floor((n - 1) as nat);
        if (r + 1) * (r + 1) <= n {
            assert(sqrt_floor(n) == r + 1);
            // n - 1 < (r + 1)^2 gives n <= (r + 1)^2, and (r + 2)^2 is larger.
            assert((r + 2) * (r + 2) > n) by (nonlinear_arith)
                requires
                    n <= (r + 1) * (r + 1);
        } else {
            assert(sqrt_floor(n) == r);
        }
    }
}

/// Any `r` in the floor-square-root window of `n` equals `sqrt_floor(n)`.
proof fn lemma_sqrt_floor_unique(n: nat, r: nat)
    requires
        r * r <= n,
        n < (r + 1) * (r + 1),
    ensures
        r == sqrt_floor(n),
{
    lemma_sqrt_floor(n);
    let s = sqrt_floor(n);
    assert(r == s) by (nonlinear_arith)
        requires
            r * r <= n,
            n < (r + 1) * (r + 1),
            s * s <= n,
            n < (s + 1) * (s + 1);
}

/// Computes `sqrt_floor(n)` by binary search.
pub fn isqrt_u128(n: u128) -> (r: u64)
    requires
        n < 0x40000000000000000000000000000000,
    ensures
        r as nat == sqrt_floor(n as nat),
{
    if n == 0 {
        proof {
            assert(sqrt_floor(0) == 0);
        }
        return 0;
    }
    let mut lo: u64 = 0;
    let mut hi: u64 = 0x8000000000000000;
    proof {
        assert((hi as int) * (hi as int) == 0x40000000000000000000000000000000) by (nonlinear_arith)
            requires
                hi == 0x8000000000000000u64;
    }
    while lo + 1 < hi
        invariant
            lo < hi,
            hi <= 0x8000000000000000,
            (lo as int) * (lo as int) <= n as int,
            (n as int) < (hi as int) * (hi as int),
        decreases hi - lo,
    {
        let mid: u64 = lo + (hi - lo) / 2;
        proof {
            assert((mid as int) * (mid as int) < 0x100000000000000000000000000000000) by (nonlinear_arith)
                requires
                    mid <= 0x8000000000000000u64;
        }
        let sq: u128 = (mid as u128) * (mid as u128);
        if sq <= n {
            lo = mid;
        } else {
            hi = mid;
        }
    }
    proof {
        lemma_sqrt_floor_unique(n as nat, lo as nat);
    }
    lo
}

/// The Xavier-uniform limit for a linear layer, in fixed-point units: the
/// floor of `sqrt(6 / (input_dim + output_dim)) * 2^32`.
pub open spec fn xavier_limit_spec(input_dim: nat, output_dim: nat) -> int
    recommends
        input_dim + output_dim >= 1,
{
    sqrt_floor((((6 * 0x100000000 * 0x100000000) as int / (input_dim + output_dim) as int) as nat)) as int
}

/// Computes the Xavier-uniform limit for the given layer widths.
pub fn xavier_limit(input_dim: usize, output_dim: usize) -> (r: i64)
    requires
        input_dim + output_dim >= 1,
        input_dim + output_dim <= usize::MAX,
    ensures
        r as int == xavier_limit_spec(input_dim as nat, output_dim as nat),
        0 <= r <= 3 * FX_ONE,
{
    let den: u128 = (input_dim + output_dim) as u128;
    let num: u128 = 6 * 0x100000000u128 * 0x100000000u128;
    let q: u128 = num / den;
    let r = isqrt_u128(q);
    proof {
        lemma_sqrt_floor(q as nat);
        // 6 * 2^64 < (3 * 2^32)^2, so the root is under 3 * 2^32.
        assert((3 * FX_ONE as int) * (3 * FX_ONE as int) > q as int) by (nonlinear_arith)
            requires
                q <= 6 * 0x100000000 * 0x100000000;
        lemma_sqrt_floor_unique(q as nat, sqrt_floor(q as nat));
        assert(r as int <= 3 * FX_ONE as int) by (nonlinear_arith)
            requires
                (r as int) * (r as int) <= q as int,
                (3 * FX_ONE as int) * (3 * FX_ONE as int) > q as int,
                r >= 0;
    }
    r as i64
}

} // verus!
