//! The mathematics of value iteration over fixed-point numbers: the Bellman backup, the
//! greedy policy, the sequence of iterates and the stopping rule.
use crate::fixed::{abs, sum_to, MAX_REWARD, MAX_VALUE, SCALE};
use vstd::prelude::*;

verus! {

/// What value iteration reads of a model: counts, transition probabilities and rewards (in
/// units, by state, action and next state) and the discount factor (in units).
pub struct Dynamics {
    pub nb_states: nat,
    pub nb_actions: nat,
    pub transition: spec_fn(int, int, int) -> int,
    pub reward: spec_fn(int, int, int) -> int,
    pub discount: int,
}

impl Dynamics {
    /// Sum of the first `k` probabilities of leaving `s` under `a`.
    pub open spec fn row_mass(self, s: int, a: int, k: int) -> int {
        sum_to(|j: int| (self.transition)(s, a, j), k)
    }

    /// The model that value iteration is defined on: states and actions exist, every
    /// transition row is a distribution, rewards fit the fixed-point range and the discount
    /// lies strictly between zero and one.
    pub open spec fn solvable(self) -> bool {
        &&& self.nb_states >= 1
        &&& self.nb_actions >= 1
        &&& 0 < self.discount < SCALE
        &&& forall|s: int, a: int, j: int|
            0 <= s < self.nb_states && 0 <= a < self.nb_actions && 0 <= j < self.nb_states ==> 0
                <= #[trigger] (self.transition)(s, a, j)
        &&& forall|s: int, a: int|
            0 <= s < self.nb_states && 0 <= a < self.nb_actions ==> #[trigger] self.row_mass(
                s,
                a,
                self.nb_states as int,
            ) == SCALE
        &&& forall|s: int, a: int, j: int|
            0 <= s < self.nb_states && 0 <= a < self.nb_actions && 0 <= j < self.nb_states ==> abs(
                #[trigger] (self.reward)(s, a, j),
            ) <= MAX_REWARD
    }

    /// Same counts and discount, and the same probabilities and rewards on every state,
    /// action and next state.
    pub open spec fn agrees_with(self, other: Dynamics) -> bool {
        &&& self.nb_states == other.nb_states
        &&& self.nb_actions == other.nb_actions
        &&& self.discount == other.discount
        &&& forall|s: int, a: int, j: int|
            0 <= s < self.nb_states && 0 <= a < self.nb_actions && 0 <= j < self.nb_states ==> (
            #[trigger] (self.transition)(s, a, j)) == (other.transition)(s, a, j) && (
            self.reward)(s, a, j) == (other.reward)(s, a, j)
    }

    /// `T(s, a, j) * (R(s, a, j) + discount * u[j])`, scaled by `SCALE` cubed.
    pub open spec fn term(self, s: int, a: int, u: Seq<int>, j: int) -> int {
        (self.transition)(s, a, j) * ((self.reward)(s, a, j) * SCALE + self.discount * u[j])
    }

    /// The first `k` terms of the expected return of `a` in `s`, scaled by `SCALE` cubed.
    pub open spec fn partial_return(self, s: int, a: int, u: Seq<int>, k: int) -> int {
        sum_to(|j: int| self.term(s, a, u, j), k)
    }

    /// Expected return of `a` in `s` when the next states are worth `u`, rounded down to a
    /// unit.
    pub open spec fn q_value(self, s: int, a: int, u: Seq<int>) -> int {
        self.partial_return(s, a, u, self.nb_states as int) / (SCALE * SCALE)
    }

    /// The first of the actions `0..k` whose return in `s` is largest.
    pub open spec fn best_action(self, s: int, u: Seq<int>, k: int) -> int
        decreases k,
    {
        if k <= 1 {
            0
        } else {
            let b = self.best_action(s, u, k - 1);
            if self.q_value(s, k - 1, u) > self.q_value(s, b, u) {
                k - 1
            } else {
                b
            }
        }
    }

    /// The greedy action in `s`: ties go to the action enumerated first.
    pub open spec fn greedy_action(self, s: int, u: Seq<int>) -> int {
        self.best_action(s, u, self.nb_actions as int)
    }

    /// One Bellman backup of `u`.
    pub open spec fn backup(self, u: Seq<int>) -> Seq<int> {
        Seq::new(self.nb_states, |s: int| self.q_value(s, self.greedy_action(s, u), u))
    }

    /// The greedy action of every state with respect to `u`.
    pub open spec fn greedy_policy(self, u: Seq<int>) -> Seq<int> {
        Seq::new(self.nb_states, |s: int| self.greedy_action(s, u))
    }

    /// The values after `k` sweeps from all zeros.
    pub open spec fn iterate(self, k: nat) -> Seq<int>
        decreases k,
    {
        if k == 0 {
            Seq::new(self.nb_states, |s: int| 0)
        } else {
            self.backup(self.iterate((k - 1) as nat))
        }
    }

    /// The largest change of a state's value in sweep `k`.
    pub open spec fn sweep_change(self, k: nat) -> int {
        sup_diff(self.iterate(k), self.iterate((k - 1) as nat), self.nb_states as int)
    }

    /// Sweep `k` meets the stopping rule `change <= epsilon * (1 - discount) / discount`.
    pub open spec fn stops_at(self, epsilon: int, k: nat) -> bool {
        k >= 1 && self.sweep_change(k) * self.discount <= epsilon * (SCALE - self.discount)
    }

    /// Sweep `k` is the first to meet the stopping rule.
    pub open spec fn first_stop(self, epsilon: int, k: nat) -> bool {
        &&& self.stops_at(epsilon, k)
        &&& forall|j: nat| 1 <= j < k ==> !#[trigger] self.stops_at(epsilon, j)
    }
}

/// The largest `|u[i] - v[i]|` over `i < k`, or zero.
pub open spec fn sup_diff(u: Seq<int>, v: Seq<int>, k: int) -> int
    decreases k,
{
    if k <= 0 {
        0
    } else {
        let m = sup_diff(u, v, k - 1);
        let d = abs(u[k - 1] - v[k - 1]);
        if d > m {
            d
        } else {
            m
        }
    }
}

/// A tolerance that the fixed-point resolution can reach at `discount`: every sweep that
/// misses the stopping rule then changes less than the one before.
pub open spec fn reachable_tolerance(epsilon: int, discount: int) -> bool {
    epsilon > 0 && epsilon * (SCALE - discount) * (SCALE - discount) >= discount * SCALE
}

/// Every entry of `u` lies within `bound` of zero.
pub open spec fn within(u: Seq<int>, bound: int) -> bool {
    forall|i: int| 0 <= i < u.len() ==> abs(#[trigger] u[i]) <= bound
}

/// The largest change bounds each change and is not negative.
pub proof fn lemma_sup_diff_ge(u: Seq<int>, v: Seq<int>, k: int, i: int)
    requires
        0 <= i < k,
    ensures
        abs(u[i] - v[i]) <= sup_diff(u, v, k),
        sup_diff(u, v, k) >= 0,
    decreases k,
{
    if i < k - 1 {
        lemma_sup_diff_ge(u, v, k - 1, i);
    } else if k > 1 {
        lemma_sup_diff_ge(u, v, k - 1, 0);
    }
}

/// A bound on every change, scaled by `SCALE`, bounds the largest change.
pub proof fn lemma_sup_diff_le(u: Seq<int>, v: Seq<int>, k: int, c: int)
    requires
        c >= 0,
        forall|i: int| 0 <= i < k ==> SCALE * abs(#[trigger] u[i] - v[i]) <= c,
    ensures
        SCALE * sup_diff(u, v, k) <= c,
    decreases k,
{
    if k > 0 {
        lemma_sup_diff_le(u, v, k - 1, c);
        assert(SCALE * abs(u[k - 1] - v[k - 1]) <= c);
    }
}

/// The greedy action is one of the actions, and no action returns more.
pub proof fn lemma_best_action(d: Dynamics, s: int, u: Seq<int>, k: int)
    requires
        k >= 1,
    ensures
        0 <= d.best_action(s, u, k) < k,
        forall|a: int| 0 <= a < k ==> #[trigger] d.q_value(s, a, u) <= d.q_value(s, d.best_action(s, u, k), u),
        forall|a: int| 0 <= a < d.best_action(s, u, k) ==> #[trigger] d.q_value(s, a, u) < d.q_value(s, d.best_action(s, u, k), u),
    decreases k,
{
    if k > 1 {
        lemma_best_action(d, s, u, k - 1);
    }
}

/// Tie-break determinism: the greedy action is the first action, in enumeration order, whose
/// return is largest; every action before it returns strictly less.
pub proof fn lemma_greedy_is_first_maximum(d: Dynamics, s: int, u: Seq<int>)
    requires
        d.nb_actions >= 1,
    ensures
        0 <= d.greedy_action(s, u) < d.nb_actions,
        forall|a: int|
            0 <= a < d.nb_actions ==> #[trigger] d.q_value(s, a, u) <= d.q_value(
                s,
                d.greedy_action(s, u),
                u,
            ),
        forall|a: int|
            0 <= a < d.greedy_action(s, u) ==> #[trigger] d.q_value(s, a, u) < d.q_value(
                s,
                d.greedy_action(s, u),
                u,
            ),
{
    lemma_best_action(d, s, u, d.nb_actions as int);
}

/// On a solvable model, the first `k` probabilities of a row sum to between zero and one.
pub proof fn lemma_row_mass_le(d: Dynamics, s: int, a: int, k: int)
    requires
        d.solvable(),
        0 <= s < d.nb_states,
        0 <= a < d.nb_actions,
        0 <= k <= d.nb_states,
    ensures
        0 <= d.row_mass(s, a, k) <= SCALE,
{
    let f = |j: int| (d.transition)(s, a, j);
    assert forall|j: int| 0 <= j < d.nb_states implies #[trigger] f(j) >= 0 by {
        assert(0 <= (d.transition)(s, a, j));
    }
    crate::fixed::lemma_sum_to_monotone(f, 0, k);
    crate::fixed::lemma_sum_to_monotone(f, k, d.nb_states as int);
    assert(d.row_mass(s, a, d.nb_states as int) == SCALE);
}

proof fn lemma_term_diff(t: int, r: int, g: int, x: int, y: int, c: int)
    requires
        t >= 0,
        g >= 0,
        abs(x - y) <= c,
    ensures
        abs(t * (r * SCALE + g * x) - t * (r * SCALE + g * y)) <= t * g * c,
{
    assert(t * (r * SCALE + g * x) - t * (r * SCALE + g * y) == t * g * (x - y)) by (nonlinear_arith);
    assert(abs(t * g * (x - y)) <= t * g * c) by (nonlinear_arith)
        requires
            t >= 0,
            g >= 0,
            abs(x - y) <= c,
    ;
}

/// How far the partial returns of two value vectors lie apart.
proof fn lemma_partial_return_diff(d: Dynamics, s: int, a: int, u: Seq<int>, v: Seq<int>, c: int, k: int)
    requires
        d.solvable(),
        0 <= s < d.nb_states,
        0 <= a < d.nb_actions,
        0 <= k <= d.nb_states,
        u.len() == d.nb_states,
        v.len() == d.nb_states,
        forall|j: int| 0 <= j < d.nb_states ==> abs(#[trigger] u[j] - v[j]) <= c,
    ensures
        abs(d.partial_return(s, a, u, k) - d.partial_return(s, a, v, k)) <= d.row_mass(s, a, k)
            * d.discount * c,
    decreases k,
{
    if k > 0 {
        lemma_partial_return_diff(d, s, a, u, v, c, k - 1);
        let t = (d.transition)(s, a, k - 1);
        assert(0 <= t);
        lemma_term_diff(t, (d.reward)(s, a, k - 1), d.discount, u[k - 1], v[k - 1], c);
        let m1 = d.row_mass(s, a, k - 1);
        let m2 = d.row_mass(s, a, k);
        assert(m2 == m1 + t);
        let g = d.discount;
        let x = d.partial_return(s, a, u, k - 1) - d.partial_return(s, a, v, k - 1);
        let y = d.term(s, a, u, k - 1) - d.term(s, a, v, k - 1);
        assert(d.partial_return(s, a, u, k) - d.partial_return(s, a, v, k) == x + y);
        assert(abs(x + y) <= m2 * g * c) by (nonlinear_arith)
            requires
                m2 == m1 + t,
                abs(x) <= m1 * g * c,
                abs(y) <= t * g * c,
        ;
        assert(abs(d.partial_return(s, a, u, k) - d.partial_return(s, a, v, k)) <= m2 * g * c);
    } else {
        assert(d.row_mass(s, a, k) == 0);
        assert(d.partial_return(s, a, u, k) == 0);
        assert(d.partial_return(s, a, v, k) == 0);
        assert(d.row_mass(s, a, k) * d.discount * c == 0) by (nonlinear_arith)
            requires
                d.row_mass(s, a, k) == 0,
        ;
    }
}

/// Two floors of quotients by `SCALE * SCALE` whose numerators lie at most
/// `SCALE * discount * c` apart.
proof fn lemma_floor_diff(x: int, y: int, g: int, c: int)
    requires
        abs(x - y) <= SCALE * g * c,
    ensures
        SCALE * abs(x / (SCALE * SCALE) - y / (SCALE * SCALE)) <= g * c + SCALE - 1,
{
    let dd = SCALE * SCALE;
    let qx = x / dd;
    let qy = y / dd;
    vstd::arithmetic::div_mod::lemma_fundamental_div_mod(x, dd);
    vstd::arithmetic::div_mod::lemma_fundamental_div_mod(y, dd);
    vstd::arithmetic::div_mod::lemma_mod_bound(x, dd);
    vstd::arithmetic::div_mod::lemma_mod_bound(y, dd);
    assert(qx * dd <= x < qx * dd + dd);
    assert(qy * dd <= y < qy * dd + dd);
    assert(SCALE * (qx - qy) < g * c + SCALE) by (nonlinear_arith)
        requires
            qx * dd <= x,
            y < qy * dd + dd,
            x - y <= SCALE * g * c,
            dd == SCALE * SCALE,
    ;
    assert(SCALE * (qy - qx) < g * c + SCALE) by (nonlinear_arith)
        requires
            qy * dd <= y,
            x < qx * dd + dd,
            y - x <= SCALE * g * c,
            dd == SCALE * SCALE,
    ;
}

/// The return of an action moves by at most `discount` times the largest change of the next
/// states' values, plus the rounding.
pub proof fn lemma_q_value_contraction(d: Dynamics, s: int, a: int, u: Seq<int>, v: Seq<int>, c: int)
    requires
        d.solvable(),
        0 <= s < d.nb_states,
        0 <= a < d.nb_actions,
        c >= 0,
        u.len() == d.nb_states,
        v.len() == d.nb_states,
        forall|j: int| 0 <= j < d.nb_states ==> abs(#[trigger] u[j] - v[j]) <= c,
    ensures
        SCALE * abs(d.q_value(s, a, u) - d.q_value(s, a, v)) <= d.discount * c + SCALE - 1,
{
    let n = d.nb_states as int;
    lemma_partial_return_diff(d, s, a, u, v, c, n);
    lemma_row_mass_le(d, s, a, n);
    assert(d.row_mass(s, a, n) * d.discount * c == SCALE * d.discount * c);
    lemma_floor_diff(d.partial_return(s, a, u, n), d.partial_return(s, a, v, n), d.discount, c);
}

/// One sweep shrinks the largest change by the discount factor, up to the rounding:
/// `SCALE * change(backup(u), backup(v)) <= discount * change(u, v) + SCALE - 1`.
pub proof fn lemma_backup_contraction(d: Dynamics, u: Seq<int>, v: Seq<int>)
    requires
        d.solvable(),
        u.len() == d.nb_states,
        v.len() == d.nb_states,
    ensures
        SCALE * sup_diff(d.backup(u), d.backup(v), d.nb_states as int) <= d.discount * sup_diff(
            u,
            v,
            d.nb_states as int,
        ) + SCALE - 1,
{
    let n = d.nb_states as int;
    let c = sup_diff(u, v, n);
    lemma_sup_diff_ge(u, v, n, 0);
    assert forall|j: int| 0 <= j < n implies abs(#[trigger] u[j] - v[j]) <= c by {
        lemma_sup_diff_ge(u, v, n, j);
    }
    let bu = d.backup(u);
    let bv = d.backup(v);
    assert forall|s: int| 0 <= s < n implies SCALE * abs(#[trigger] bu[s] - bv[s]) <= d.discount
        * c + SCALE - 1 by {
        let gu = d.greedy_action(s, u);
        let gv = d.greedy_action(s, v);
        lemma_greedy_is_first_maximum(d, s, u);
        lemma_greedy_is_first_maximum(d, s, v);
        lemma_q_value_contraction(d, s, gu, u, v, c);
        lemma_q_value_contraction(d, s, gv, u, v, c);
        assert(d.q_value(s, gv, u) <= d.q_value(s, gu, u));
        assert(d.q_value(s, gu, v) <= d.q_value(s, gv, v));
    }
    assert(d.discount * c + SCALE - 1 >= 0) by (nonlinear_arith)
        requires
            d.discount > 0,
            c >= 0,
    ;
    lemma_sup_diff_le(bu, bv, n, d.discount * c + SCALE - 1);
}

/// Consecutive sweeps: `SCALE * change(k + 1) <= discount * change(k) + SCALE - 1`.
pub proof fn lemma_sweep_contraction(d: Dynamics, k: nat)
    requires
        d.solvable(),
        k >= 1,
    ensures
        SCALE * d.sweep_change(k + 1) <= d.discount * d.sweep_change(k) + SCALE - 1,
{
    lemma_iterate_len(d, k);
    lemma_iterate_len(d, (k - 1) as nat);
    lemma_backup_contraction(d, d.iterate(k), d.iterate((k - 1) as nat));
}

/// Every iterate has a value for each state.
pub proof fn lemma_iterate_len(d: Dynamics, k: nat)
    ensures
        d.iterate(k).len() == d.nb_states,
{
}

/// While the stopping rule fails, each sweep changes the values strictly less than the
/// sweep before.
pub proof fn lemma_change_decreases(d: Dynamics, epsilon: int, k: nat)
    requires
        d.solvable(),
        reachable_tolerance(epsilon, d.discount),
        k >= 1,
        !d.stops_at(epsilon, k),
    ensures
        0 <= d.sweep_change(k + 1) < d.sweep_change(k),
{
    lemma_sweep_contraction(d, k);
    lemma_iterate_len(d, k + 1);
    lemma_sup_diff_ge(d.iterate(k + 1), d.iterate(k), d.nb_states as int, 0);
    let c = d.sweep_change(k);
    let c2 = d.sweep_change(k + 1);
    let g = d.discount;
    assert(c * (SCALE - g) > SCALE) by (nonlinear_arith)
        requires
            c * g > epsilon * (SCALE - g),
            epsilon * (SCALE - g) * (SCALE - g) >= g * SCALE,
            0 < g < SCALE,
    ;
    assert(c2 < c) by (nonlinear_arith)
        requires
            SCALE * c2 <= g * c + SCALE - 1,
            c * (SCALE - g) > SCALE,
    ;
}

proof fn lemma_stops_from(d: Dynamics, epsilon: int, k: nat)
    requires
        d.solvable(),
        reachable_tolerance(epsilon, d.discount),
        k >= 1,
    ensures
        exists|j: nat| j >= k && #[trigger] d.stops_at(epsilon, j),
    decreases d.sweep_change(k),
{
    if !d.stops_at(epsilon, k) {
        lemma_change_decreases(d, epsilon, k);
        lemma_stops_from(d, epsilon, k + 1);
        let j = choose|j: nat| j >= k + 1 && #[trigger] d.stops_at(epsilon, j);
        assert(j >= k && d.stops_at(epsilon, j));
    } else {
        assert(d.stops_at(epsilon, k));
    }
}

/// Termination: on a solvable model, with a tolerance that the fixed-point resolution can
/// reach, some sweep is the first to meet the stopping rule.
pub proof fn lemma_value_iteration_terminates(d: Dynamics, epsilon: int)
    requires
        d.solvable(),
        reachable_tolerance(epsilon, d.discount),
    ensures
        exists|k: nat| #[trigger] d.first_stop(epsilon, k),
{
    lemma_stops_from(d, epsilon, 1);
    let j = choose|j: nat| j >= 1 && #[trigger] d.stops_at(epsilon, j);
    lemma_first_stop_below(d, epsilon, j);
}

proof fn lemma_first_stop_below(d: Dynamics, epsilon: int, j: nat)
    requires
        d.stops_at(epsilon, j),
    ensures
        exists|k: nat| #[trigger] d.first_stop(epsilon, k),
    decreases j,
{
    if forall|i: nat| 1 <= i < j ==> !#[trigger] d.stops_at(epsilon, i) {
        assert(d.first_stop(epsilon, j));
    } else {
        let i = choose|i: nat| 1 <= i < j && #[trigger] d.stops_at(epsilon, i);
        lemma_first_stop_below(d, epsilon, i);
    }
}

proof fn lemma_agree_q_value(d1: Dynamics, d2: Dynamics, s: int, a: int, u: Seq<int>)
    requires
        d1.agrees_with(d2),
        0 <= s < d1.nb_states,
        0 <= a < d1.nb_actions,
    ensures
        d1.q_value(s, a, u) == d2.q_value(s, a, u),
{
    let f1 = |j: int| d1.term(s, a, u, j);
    let f2 = |j: int| d2.term(s, a, u, j);
    assert forall|j: int| 0 <= j < d1.nb_states implies #[trigger] f1(j) == f2(j) by {
        assert((d1.transition)(s, a, j) == (d2.transition)(s, a, j));
    }
    crate::fixed::lemma_sum_to_agree(f1, f2, d1.nb_states as int);
}

proof fn lemma_agree_best_action(d1: Dynamics, d2: Dynamics, s: int, u: Seq<int>, k: int)
    requires
        d1.agrees_with(d2),
        0 <= s < d1.nb_states,
        k <= d1.nb_actions,
    ensures
        d1.best_action(s, u, k) == d2.best_action(s, u, k),
    decreases k,
{
    if k > 1 {
        lemma_agree_best_action(d1, d2, s, u, k - 1);
        lemma_best_action(d1, s, u, k - 1);
        lemma_agree_q_value(d1, d2, s, k - 1, u);
        lemma_agree_q_value(d1, d2, s, d1.best_action(s, u, k - 1), u);
    }
}

proof fn lemma_agree_backup(d1: Dynamics, d2: Dynamics, u: Seq<int>)
    requires
        d1.agrees_with(d2),
        d1.nb_actions >= 1,
    ensures
        d1.backup(u) == d2.backup(u),
        d1.greedy_policy(u) == d2.greedy_policy(u),
{
    assert forall|s: int| 0 <= s < d1.nb_states implies #[trigger] d1.greedy_action(s, u)
        == d2.greedy_action(s, u) && d1.q_value(s, d1.greedy_action(s, u), u) == d2.q_value(
        s,
        d2.greedy_action(s, u),
        u,
    ) by {
        lemma_agree_best_action(d1, d2, s, u, d1.nb_actions as int);
        lemma_best_action(d1, s, u, d1.nb_actions as int);
        lemma_agree_q_value(d1, d2, s, d1.greedy_action(s, u), u);
    }
    assert(d1.backup(u) =~= d2.backup(u));
    assert(d1.greedy_policy(u) =~= d2.greedy_policy(u));
}

proof fn lemma_agree_iterate(d1: Dynamics, d2: Dynamics, k: nat)
    requires
        d1.agrees_with(d2),
        d1.nb_actions >= 1,
    ensures
        d1.iterate(k) == d2.iterate(k),
    decreases k,
{
    if k == 0 {
        assert(d1.iterate(0) =~= d2.iterate(0));
    } else {
        lemma_agree_iterate(d1, d2, (k - 1) as nat);
        lemma_agree_backup(d1, d2, d1.iterate((k - 1) as nat));
    }
}

/// Two models that agree on every state, action and next state go through the same sweeps:
/// the same values after each sweep, the same greedy policies, and the same sweep is the
/// first to meet the stopping rule.
pub proof fn lemma_agreeing_models_iterate_alike(d1: Dynamics, d2: Dynamics, epsilon: int)
    requires
        d1.agrees_with(d2),
        d1.nb_actions >= 1,
    ensures
        forall|k: nat| #[trigger] d1.iterate(k) == d2.iterate(k),
        forall|k: nat|
            #[trigger] d1.greedy_policy(d1.iterate(k)) == d2.greedy_policy(d2.iterate(k)),
        forall|k: nat| #[trigger] d1.first_stop(epsilon, k) == d2.first_stop(epsilon, k),
{
    assert forall|k: nat| #[trigger] d1.iterate(k) == d2.iterate(k) by {
        lemma_agree_iterate(d1, d2, k);
    }
    assert forall|k: nat|
        #[trigger] d1.greedy_policy(d1.iterate(k)) == d2.greedy_policy(d2.iterate(k)) by {
        lemma_agree_iterate(d1, d2, k);
        lemma_agree_backup(d1, d2, d1.iterate(k));
    }
    assert forall|k: nat| #[trigger] d1.stops_at(epsilon, k) == d2.stops_at(epsilon, k) by {
        lemma_agree_iterate(d1, d2, k);
        lemma_agree_iterate(d1, d2, (k - 1) as nat);
    }
    assert forall|k: nat| #[trigger] d1.first_stop(epsilon, k) == d2.first_stop(epsilon, k) by {
        lemma_agree_iterate(d1, d2, k);
        lemma_agree_iterate(d1, d2, (k - 1) as nat);
        assert(d1.stops_at(epsilon, k) == d2.stops_at(epsilon, k));
        if d1.first_stop(epsilon, k) {
            assert forall|j: nat| 1 <= j < k implies !#[trigger] d2.stops_at(epsilon, j) by {
                lemma_agree_iterate(d1, d2, j);
                lemma_agree_iterate(d1, d2, (j - 1) as nat);
                assert(!d1.stops_at(epsilon, j));
            }
        }
        if d2.first_stop(epsilon, k) {
            assert forall|j: nat| 1 <= j < k implies !#[trigger] d1.stops_at(epsilon, j) by {
                lemma_agree_iterate(d1, d2, j);
                lemma_agree_iterate(d1, d2, (j - 1) as nat);
                assert(!d2.stops_at(epsilon, j));
            }
        }
    }
}

/// At most one sweep is the first to meet the stopping rule.
pub proof fn lemma_first_stop_unique(d: Dynamics, epsilon: int, k1: nat, k2: nat)
    requires
        d.first_stop(epsilon, k1),
        d.first_stop(epsilon, k2),
    ensures
        k1 == k2,
{
    if k1 < k2 {
        assert(!d.stops_at(epsilon, k1));
    } else if k2 < k1 {
        assert(!d.stops_at(epsilon, k2));
    }
}

} // verus!
