//! Fixed-point numbers: a quantity `x` is held as the integer `x * SCALE`.
use vstd::prelude::*;

verus! {

/// Units of the fixed-point representation in `1.0`.
pub const SCALE: i64 = 1_000_000;

/// Largest reward magnitude, in units, that the solver accepts.
pub const MAX_REWARD: i64 = 1_000_000_000_000;

/// Bound, in units, on every value that the solver computes.
pub const MAX_VALUE: i64 = 1_000_000_000_001_000_000;

/// Tolerance, in units, that a model is validated with unless told otherwise.
pub const DEFAULT_TOLERANCE: i64 = 10_000;

/// The magnitude of `x`.
pub open spec fn abs(x: int) -> int {
    if x < 0 {
        -x
    } else {
        x
    }
}

/// `f(0) + f(1) + ... + f(k - 1)`.
pub open spec fn sum_to(f: spec_fn(int) -> int, k: int) -> int
    decreases k,
{
    if k <= 0 {
        0
    } else {
        sum_to(f, k - 1) + f(k - 1)
    }
}

/// A sum of nonnegative terms does not decrease as terms are added.
pub proof fn lemma_sum_to_monotone(f: spec_fn(int) -> int, j: int, k: int)
    requires
        0 <= j <= k,
        forall|i: int| 0 <= i < k ==> #[trigger] f(i) >= 0,
    ensures
        sum_to(f, j) <= sum_to(f, k),
    decreases k - j,
{
    if j < k {
        lemma_sum_to_monotone(f, j, k - 1);
    }
}

/// Sums of two functions that agree on the summed range are equal.
pub proof fn lemma_sum_to_agree(f: spec_fn(int) -> int, g: spec_fn(int) -> int, k: int)
    requires
        forall|i: int| 0 <= i < k ==> #[trigger] f(i) == g(i),
    ensures
        sum_to(f, k) == sum_to(g, k),
    decreases k,
{
    if k > 0 {
        lemma_sum_to_agree(f, g, k - 1);
    }
}

/// Rounds `n / d` down, for a positive `d`.
pub fn floor_div(n: i128, d: i128) -> (q: i128)
    requires
        d > 0,
    ensures
        q as int == n as int / d as int,
{
    if n >= 0 {
        n / d
    } else {
        let p: i128 = -(n + 1);
        let q0: i128 = p / d;
        proof {
            let ni = n as int;
            let di = d as int;
            let pi = p as int;
            let qi = q0 as int;
            assert(pi == qi * di + pi % di) by {
                vstd::arithmetic::div_mod::lemma_fundamental_div_mod(pi, di);
            }
            assert(0 <= pi % di < di) by {
                vstd::arithmetic::div_mod::lemma_mod_bound(pi, di);
            }
            assert(ni == (-qi - 1) * di + (di - 1 - pi % di)) by (nonlinear_arith)
                requires
                    pi == qi * di + pi % di,
                    pi == -(ni + 1),
            ;
            vstd::arithmetic::div_mod::lemma_fundamental_div_mod_converse(ni, di, -qi - 1, di - 1 - pi % di);
        }
        -q0 - 1
    }
}

} // verus!
