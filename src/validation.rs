//! Well-formedness checks shared by the MDP and POMDP agents.
use crate::fixed::{abs, lemma_sum_to_agree, sum_to, SCALE};
use crate::model::{EmissionModel, RewardModel, TransitionModel};
use vstd::prelude::*;

verus! {

/// Sum over the `n` next states of the probabilities from `s1` under `a`.
pub open spec fn row_sum<T: TransitionModel>(t: &T, n: int, s1: int, a: int) -> int {
    sum_to(|s2: int| t.transition(s1, a, s2), n)
}

/// Every row of the `n` by `m` transition model sums to one, give or take `tol`.
pub open spec fn rows_normalized<T: TransitionModel>(t: &T, n: int, m: int, tol: int) -> bool {
    forall|s1: int, a: int|
        0 <= s1 < n && 0 <= a < m ==> abs(#[trigger] row_sum(t, n, s1, a) - SCALE) <= tol
}

/// Sum of the reward magnitudes of the transitions out of `s1` under `a`.
pub open spec fn reward_row_mass<R: RewardModel>(r: &R, n: int, s1: int, a: int) -> int {
    sum_to(|s2: int| abs(r.reward(s1, a, s2)), n)
}

/// Sum of the reward magnitudes of the transitions out of `s1`.
pub open spec fn reward_state_mass<R: RewardModel>(r: &R, n: int, m: int, s1: int) -> int {
    sum_to(|a: int| reward_row_mass(r, n, s1, a), m)
}

/// Sum of the reward magnitudes over every transition of `n` states and `m` actions.
pub open spec fn reward_mass<R: RewardModel>(r: &R, n: int, m: int) -> int {
    sum_to(|s1: int| reward_state_mass(r, n, m, s1), n)
}

/// Sum over the `k` observations of their probabilities in `s` after `a`.
pub open spec fn emission_sum<E: EmissionModel>(e: &E, k: int, s: int, a: int) -> int {
    sum_to(|o: int| e.emission(s, a, o), k)
}

/// Every row of the emission model sums to one, give or take `tol`.
pub open spec fn emissions_normalized<E: EmissionModel>(
    e: &E,
    n: int,
    m: int,
    k: int,
    tol: int,
) -> bool {
    forall|s: int, a: int|
        0 <= s < n && 0 <= a < m ==> abs(#[trigger] emission_sum(e, k, s, a) - SCALE) <= tol
}

/// The transition model is a distribution in every row and the rewards are not all
/// (nearly) zero.
pub open spec fn transitions_rewards_valid<T: TransitionModel, R: RewardModel>(
    t: &T,
    r: &R,
    n: int,
    m: int,
    tol: int,
) -> bool {
    rows_normalized(t, n, m, tol) && reward_mass(r, n, m) > tol
}

/// Rewards that are zero on every transition have no mass.
pub proof fn lemma_zero_rewards_no_mass<R: RewardModel>(r: &R, n: int, m: int)
    requires
        forall|s1: int, a: int, s2: int|
            0 <= s1 < n && 0 <= a < m && 0 <= s2 < n ==> #[trigger] r.reward(s1, a, s2) == 0,
    ensures
        reward_mass(r, n, m) == 0,
{
    let zero = |i: int| 0int;
    assert forall|s1: int| 0 <= s1 < n implies #[trigger] reward_state_mass(r, n, m, s1) == 0 by {
        assert forall|a: int| 0 <= a < m implies #[trigger] reward_row_mass(r, n, s1, a) == 0 by {
            let f = |s2: int| abs(r.reward(s1, a, s2));
            assert forall|s2: int| 0 <= s2 < n implies #[trigger] f(s2) == zero(s2) by {
                assert(r.reward(s1, a, s2) == 0);
            }
            lemma_sum_to_agree(f, zero, n);
            lemma_sum_to_zero(n);
        }
        let f = |a: int| reward_row_mass(r, n, s1, a);
        assert forall|a: int| 0 <= a < m implies #[trigger] f(a) == zero(a) by {
            assert(reward_row_mass(r, n, s1, a) == 0);
        }
        lemma_sum_to_agree(f, zero, m);
        lemma_sum_to_zero(m);
    }
    let f = |s1: int| reward_state_mass(r, n, m, s1);
    assert forall|s1: int| 0 <= s1 < n implies #[trigger] f(s1) == zero(s1) by {
        assert(reward_state_mass(r, n, m, s1) == 0);
    }
    lemma_sum_to_agree(f, zero, n);
    lemma_sum_to_zero(n);
}

proof fn lemma_sum_to_zero(k: int)
    ensures
        sum_to(|i: int| 0int, k) == 0,
    decreases k,
{
    if k > 0 {
        lemma_sum_to_zero(k - 1);
    }
}

/// A model whose rewards are all zero is never valid under a nonnegative tolerance, however
/// well its transition rows are normalised.
pub proof fn lemma_zero_rewards_invalid<T: TransitionModel, R: RewardModel>(
    t: &T,
    r: &R,
    n: int,
    m: int,
    tol: int,
)
    requires
        tol >= 0,
        forall|s1: int, a: int, s2: int|
            0 <= s1 < n && 0 <= a < m && 0 <= s2 < n ==> #[trigger] r.reward(s1, a, s2) == 0,
    ensures
        !transitions_rewards_valid(t, r, n, m, tol),
{
    lemma_zero_rewards_no_mass(r, n, m);
}

/// `acc` follows `total` until it passes `tol`, and only passes it when `total` does.
pub open spec fn tracks_up_to(acc: int, total: int, tol: int) -> bool {
    &&& acc <= tol ==> acc == total
    &&& acc > tol ==> total > tol
}

/// Checks every transition row against one and the total reward magnitude against zero,
/// both within `tolerance`.
pub fn check_transitions_rewards<T: TransitionModel, R: RewardModel>(
    t: &T,
    r: &R,
    n: usize,
    m: usize,
    tolerance: i64,
) -> (ok: bool)
    requires
        forall|s1: int, a: int, s2: int|
            0 <= s1 < n && 0 <= a < m && 0 <= s2 < n ==> #[trigger] t.defined_at(s1, a, s2),
        forall|s1: int, a: int, s2: int|
            0 <= s1 < n && 0 <= a < m && 0 <= s2 < n ==> #[trigger] r.defined_at(s1, a, s2),
    ensures
        ok == transitions_rewards_valid(t, r, n as int, m as int, tolerance as int),
{
    let ghost outer = |s1: int| reward_state_mass(r, n as int, m as int, s1);
    let mut mass: i128 = 0;
    let mut i: usize = 0;
    while i < n
        invariant
            i <= n,
            forall|s1: int, a: int, s2: int|
                0 <= s1 < n && 0 <= a < m && 0 <= s2 < n ==> #[trigger] t.defined_at(s1, a, s2),
            forall|s1: int, a: int, s2: int|
                0 <= s1 < n && 0 <= a < m && 0 <= s2 < n ==> #[trigger] r.defined_at(s1, a, s2),
            outer == (|s1: int| reward_state_mass(r, n as int, m as int, s1)),
            forall|s1: int, a: int|
                0 <= s1 < i && 0 <= a < m ==> abs(#[trigger] row_sum(t, n as int, s1, a) - SCALE)
                    <= tolerance,
            tracks_up_to(mass as int, sum_to(outer, i as int), tolerance as int),
            mass <= tolerance + 0x8000_0000_0000_0000i128,
        decreases n - i,
    {
        let ghost mid = |a: int| reward_row_mass(r, n as int, i as int, a);
        let mut a: usize = 0;
        while a < m
            invariant
                i < n,
                a <= m,
                forall|s1: int, a2: int, s2: int|
                    0 <= s1 < n && 0 <= a2 < m && 0 <= s2 < n ==> #[trigger] t.defined_at(
                        s1,
                        a2,
                        s2,
                    ),
                forall|s1: int, a2: int, s2: int|
                    0 <= s1 < n && 0 <= a2 < m && 0 <= s2 < n ==> #[trigger] r.defined_at(
                        s1,
                        a2,
                        s2,
                    ),
                outer == (|s1: int| reward_state_mass(r, n as int, m as int, s1)),
                mid == (|a2: int| reward_row_mass(r, n as int, i as int, a2)),
                forall|s1: int, a2: int|
                    (0 <= s1 < i && 0 <= a2 < m) || (s1 == i && 0 <= a2 < a) ==> abs(
                        #[trigger] row_sum(t, n as int, s1, a2) - SCALE,
                    ) <= tolerance,
                tracks_up_to(
                    mass as int,
                    sum_to(outer, i as int) + sum_to(mid, a as int),
                    tolerance as int,
                ),
                mass <= tolerance + 0x8000_0000_0000_0000i128,
            decreases m - a,
        {
            let ghost row = |s2: int| t.transition(i as int, a as int, s2);
            let ghost inner = |s2: int| abs(r.reward(i as int, a as int, s2));
            let mut sum: i128 = 0;
            let mut j: usize = 0;
            while j < n
                invariant
                    i < n,
                    a < m,
                    j <= n,
                    forall|s1: int, a2: int, s2: int|
                        0 <= s1 < n && 0 <= a2 < m && 0 <= s2 < n ==> #[trigger] t.defined_at(
                            s1,
                            a2,
                            s2,
                        ),
                    forall|s1: int, a2: int, s2: int|
                        0 <= s1 < n && 0 <= a2 < m && 0 <= s2 < n ==> #[trigger] r.defined_at(
                            s1,
                            a2,
                            s2,
                        ),
                    outer == (|s1: int| reward_state_mass(r, n as int, m as int, s1)),
                    mid == (|a2: int| reward_row_mass(r, n as int, i as int, a2)),
                    row == (|s2: int| t.transition(i as int, a as int, s2)),
                    inner == (|s2: int| abs(r.reward(i as int, a as int, s2))),
                    sum == sum_to(row, j as int),
                    -(j as int) * 0x8000_0000_0000_0000 <= sum <= (j as int)
                        * 0x8000_0000_0000_0000,
                    tracks_up_to(
                        mass as int,
                        sum_to(outer, i as int) + sum_to(mid, a as int) + sum_to(inner, j as int),
                        tolerance as int,
                    ),
                    mass <= tolerance + 0x8000_0000_0000_0000i128,
                decreases n - j,
            {
                let p = t.get_transition(i, a, j);
                let w = r.get_reward(i, a, j);
                sum = sum + p as i128;
                let w_abs: i128 = if w < 0 {
                    -(w as i128)
                } else {
                    w as i128
                };
                if mass <= tolerance as i128 {
                    mass = mass + w_abs;
                }
                j = j + 1;
            }
            assert(sum_to(mid, a as int + 1) == sum_to(mid, a as int) + sum_to(inner, n as int));
            if sum < SCALE as i128 - tolerance as i128 || sum > SCALE as i128 + tolerance as i128 {
                assert(row_sum(t, n as int, i as int, a as int) == sum);
                return false;
            }
            a = a + 1;
        }
        assert(sum_to(outer, i as int + 1) == sum_to(outer, i as int) + sum_to(mid, m as int));
        i = i + 1;
    }
    assert(reward_mass(r, n as int, m as int) == sum_to(outer, n as int));
    mass > tolerance as i128
}

/// Checks that every emission row sums to one within `tolerance`.
pub fn check_emissions<E: EmissionModel>(e: &E, n: usize, m: usize, k: usize, tolerance: i64) -> (ok:
    bool)
    requires
        forall|s: int, a: int, o: int|
            0 <= s < n && 0 <= a < m && 0 <= o < k ==> #[trigger] e.defined_at(s, a, o),
    ensures
        ok == emissions_normalized(e, n as int, m as int, k as int, tolerance as int),
{
    let mut i: usize = 0;
    while i < n
        invariant
            i <= n,
            forall|s: int, a: int, o: int|
                0 <= s < n && 0 <= a < m && 0 <= o < k ==> #[trigger] e.defined_at(s, a, o),
            forall|s: int, a: int|
                0 <= s < i && 0 <= a < m ==> abs(
                    #[trigger] emission_sum(e, k as int, s, a) - SCALE,
                ) <= tolerance,
        decreases n - i,
    {
        let mut a: usize = 0;
        while a < m
            invariant
                i < n,
                a <= m,
                forall|s: int, a2: int, o: int|
                    0 <= s < n && 0 <= a2 < m && 0 <= o < k ==> #[trigger] e.defined_at(s, a2, o),
                forall|s: int, a2: int|
                    (0 <= s < i && 0 <= a2 < m) || (s == i && 0 <= a2 < a) ==> abs(
                        #[trigger] emission_sum(e, k as int, s, a2) - SCALE,
                    ) <= tolerance,
            decreases m - a,
        {
            let ghost row = |o: int| e.emission(i as int, a as int, o);
            let mut sum: i128 = 0;
            let mut j: usize = 0;
            while j < k
                invariant
                    i < n,
                    a < m,
                    j <= k,
                    forall|s: int, a2: int, o: int|
                        0 <= s < n && 0 <= a2 < m && 0 <= o < k ==> #[trigger] e.defined_at(
                            s,
                            a2,
                            o,
                        ),
                    row == (|o: int| e.emission(i as int, a as int, o)),
                    sum == sum_to(row, j as int),
                    -(j as int) * 0x8000_0000_0000_0000 <= sum <= (j as int)
                        * 0x8000_0000_0000_0000,
                decreases k - j,
            {
                let p = e.get_emission(i, a, j);
                sum = sum + p as i128;
                j = j + 1;
            }
            if sum < SCALE as i128 - tolerance as i128 || sum > SCALE as i128 + tolerance as i128 {
                assert(emission_sum(e, k as int, i as int, a as int) == sum);
                return false;
            }
            a = a + 1;
        }
        i = i + 1;
    }
    true
}

} // verus!
