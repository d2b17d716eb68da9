//! Synchronous value iteration with the contraction-based stopping rule.
use crate::bellman::{reachable_tolerance, sup_diff, within, Dynamics};
use crate::error::MdpError;
use crate::fixed::{abs, floor_div, MAX_REWARD, MAX_VALUE, SCALE};
use crate::mdp_agent::MDPAgent;
use crate::model::{RewardModel, TransitionModel};
use vstd::prelude::*;

verus! {

/// The integers that a vector of fixed-point numbers holds.
pub open spec fn ints(v: Seq<i64>) -> Seq<int> {
    Seq::new(v.len(), |i: int| v[i] as int)
}

/// The integers that a vector of indices holds.
pub open spec fn indices(v: Seq<usize>) -> Seq<int> {
    Seq::new(v.len(), |i: int| v[i] as int)
}

/// A quotient by `SCALE * SCALE` of a numerator within the bound of a return stays within
/// `MAX_VALUE`.
proof fn lemma_value_bound(num: int, g: int)
    requires
        0 < g < SCALE,
        abs(num) <= SCALE * (MAX_REWARD * SCALE + g * MAX_VALUE),
    ensures
        abs(num / (SCALE * SCALE)) <= MAX_VALUE,
{
    let dd = SCALE * SCALE;
    let q = num / dd;
    let x = MAX_REWARD * SCALE + g * MAX_VALUE;
    vstd::arithmetic::div_mod::lemma_fundamental_div_mod(num, dd);
    vstd::arithmetic::div_mod::lemma_mod_bound(num, dd);
    assert(q * dd <= num < q * dd + dd);
    assert(q * SCALE <= x) by (nonlinear_arith)
        requires
            q * dd <= num,
            num <= SCALE * x,
            dd == SCALE * SCALE,
    ;
    assert(g * MAX_VALUE <= (SCALE - 1) * MAX_VALUE) by (nonlinear_arith)
        requires
            g <= SCALE - 1,
    ;
    assert(q <= MAX_VALUE) by (nonlinear_arith)
        requires
            q * SCALE <= x,
            x == MAX_REWARD * SCALE + g * MAX_VALUE,
            g * MAX_VALUE <= (SCALE - 1) * MAX_VALUE,
    ;
    assert((q + 1) * SCALE > -x) by (nonlinear_arith)
        requires
            num < q * dd + dd,
            -(SCALE * x) <= num,
            dd == SCALE * SCALE,
    ;
    assert(q >= -MAX_VALUE) by (nonlinear_arith)
        requires
            (q + 1) * SCALE > -x,
            x == MAX_REWARD * SCALE + g * MAX_VALUE,
            g * MAX_VALUE <= (SCALE - 1) * MAX_VALUE,
    ;
}

proof fn lemma_term_bound(t: int, r: int, g: int, u: int)
    requires
        t >= 0,
        0 < g < SCALE,
        abs(r) <= MAX_REWARD,
        abs(u) <= MAX_VALUE,
    ensures
        abs(r * SCALE + g * u) <= MAX_REWARD * SCALE + g * MAX_VALUE,
        abs(t * (r * SCALE + g * u)) <= t * (MAX_REWARD * SCALE + g * MAX_VALUE),
{
    assert(abs(r * SCALE + g * u) <= MAX_REWARD * SCALE + g * MAX_VALUE) by (nonlinear_arith)
        requires
            0 < g,
            abs(r) <= MAX_REWARD,
            abs(u) <= MAX_VALUE,
    ;
    let y = r * SCALE + g * u;
    let x = MAX_REWARD * SCALE + g * MAX_VALUE;
    assert(abs(t * y) <= t * x) by (nonlinear_arith)
        requires
            t >= 0,
            abs(y) <= x,
    ;
}

/// Whether a sweep that changed a value by at most `delta` meets the stopping rule
/// `delta <= epsilon * (1 - discount) / discount`.
fn meets_stopping_rule(delta: i64, discount: i64, epsilon: i64) -> (b: bool)
    requires
        delta >= 0,
        0 < discount < SCALE,
        epsilon > 0,
    ensures
        b == (delta * discount <= epsilon * (SCALE - discount)),
{
    proof {
        assert(0 <= (delta as int) * (discount as int) <= 0x8000_0000_0000_0000 * SCALE) by (
        nonlinear_arith)
            requires
                0 <= delta <= 0x8000_0000_0000_0000,
                0 < discount < SCALE,
        ;
        assert(0 < (epsilon as int) * (SCALE - discount) <= 0x8000_0000_0000_0000 * SCALE) by (
        nonlinear_arith)
            requires
                0 < epsilon <= 0x8000_0000_0000_0000,
                0 < discount < SCALE,
        ;
    }
    (delta as i128) * (discount as i128) <= (epsilon as i128) * ((SCALE - discount) as i128)
}

/// Solves a borrowed MDP by value iteration to the tolerance `epsilon` (in units).
pub struct ValueIteration<'a, S, A, T, R> {
    epsilon: i64,
    mdp: &'a MDPAgent<S, A, T, R>,
    value_vector: Option<Vec<i64>>,
    policy: Option<Vec<usize>>,
}

impl<'a, S, A, T: TransitionModel, R: RewardModel> ValueIteration<'a, S, A, T, R> {
    pub closed spec fn spec_epsilon(&self) -> int {
        self.epsilon as int
    }

    pub closed spec fn spec_mdp(&self) -> &'a MDPAgent<S, A, T, R> {
        self.mdp
    }

    pub closed spec fn spec_values(&self) -> Option<Vec<i64>> {
        self.value_vector
    }

    pub closed spec fn spec_policy(&self) -> Option<Vec<usize>> {
        self.policy
    }

    /// The discount and the tolerance are ones that value iteration converges with.
    pub open spec fn wf(&self) -> bool {
        &&& 0 < self.spec_mdp().discount < SCALE
        &&& reachable_tolerance(self.spec_epsilon(), self.spec_mdp().discount as int)
    }

    /// The values and the policy of the first sweep that met the stopping rule.
    pub open spec fn solved(&self) -> bool {
        let d = self.spec_mdp().dynamics();
        &&& self.spec_values() is Some
        &&& self.spec_policy() is Some
        &&& exists|k: nat|
            #![trigger d.first_stop(self.spec_epsilon(), k)]
            {
                &&& d.first_stop(self.spec_epsilon(), k)
                &&& ints(self.spec_values()->Some_0@) == d.iterate(k)
                &&& indices(self.spec_policy()->Some_0@) == d.greedy_policy(
                    d.iterate((k - 1) as nat),
                )
            }
    }

    /// A solver for `mdp`, not yet run. Fails with `InvalidDiscount` unless the discount lies
    /// strictly between zero and one, and with `InvalidTolerance` unless `epsilon` is positive
    /// and `epsilon * (1 - discount)^2 >= discount` (in units), the finest tolerance that
    /// the fixed-point resolution reaches.
    pub fn new(mdp: &'a MDPAgent<S, A, T, R>, epsilon: i64) -> (res: Result<Self, MdpError>)
        ensures
            !(0 < mdp.discount < SCALE) ==> res == Err::<Self, MdpError>(MdpError::InvalidDiscount),
            (0 < mdp.discount < SCALE) && !reachable_tolerance(epsilon as int, mdp.discount as int)
                ==> res == Err::<Self, MdpError>(MdpError::InvalidTolerance),
            (0 < mdp.discount < SCALE) && reachable_tolerance(epsilon as int, mdp.discount as int)
                ==> (res matches Ok(v) && v.spec_mdp() == mdp && v.spec_epsilon() == epsilon
                && v.spec_values() is None && v.spec_policy() is None && v.wf()),
    {
        if mdp.discount <= 0 || mdp.discount >= SCALE {
            return Err(MdpError::InvalidDiscount);
        }
        let gap: i128 = (SCALE - mdp.discount) as i128;
        if epsilon <= 0 {
            return Err(MdpError::InvalidTolerance);
        }
        proof {
            assert(0 < (epsilon as int) * gap <= 0x8000_0000_0000_0000 * SCALE) by (nonlinear_arith)
                requires
                    0 < epsilon,
                    0 < gap <= SCALE,
            ;
            assert(0 < (epsilon as int) * gap * gap <= 0x8000_0000_0000_0000 * SCALE * SCALE) by (
            nonlinear_arith)
                requires
                    0 < (epsilon as int) * gap <= 0x8000_0000_0000_0000 * SCALE,
                    0 < gap <= SCALE,
            ;
        }
        if (epsilon as i128) * gap * gap < (mdp.discount as i128) * (SCALE as i128) {
            return Err(MdpError::InvalidTolerance);
        }
        Ok(ValueIteration { epsilon, mdp, value_vector: None, policy: None })
    }

    /// Expected return, in units, of `a` in `s` when the next states are worth
    /// `utility_vector`, rounded down.
    pub fn q_value(&self, s: usize, a: usize, utility_vector: &Vec<i64>) -> (q: i64)
        requires
            self.spec_mdp().solvable(),
            s < self.spec_mdp().nb_states(),
            a < self.spec_mdp().nb_actions(),
            utility_vector@.len() == self.spec_mdp().nb_states(),
            within(ints(utility_vector@), MAX_VALUE as int),
        ensures
            q as int == self.spec_mdp().dynamics().q_value(s as int, a as int, ints(utility_vector@)),
            abs(q as int) <= MAX_VALUE,
    {
        let ghost d = self.mdp.dynamics();
        let ghost u = ints(utility_vector@);
        let ghost x = MAX_REWARD * SCALE + self.mdp.discount * MAX_VALUE;
        let n = self.mdp.states.len();
        let g = self.mdp.discount;
        let mut sum: i128 = 0;
        let mut j: usize = 0;
        while j < n
            invariant
                self.spec_mdp().solvable(),
                d == self.spec_mdp().dynamics(),
                u == ints(utility_vector@),
                utility_vector@.len() == n,
                n == d.nb_states,
                g == d.discount,
                x == MAX_REWARD * SCALE + g * MAX_VALUE,
                s < d.nb_states,
                a < d.nb_actions,
                within(u, MAX_VALUE as int),
                j <= n,
                sum == d.partial_return(s as int, a as int, u, j as int),
                abs(sum as int) <= d.row_mass(s as int, a as int, j as int) * x,
            decreases n - j,
        {
            let p = self.mdp.transitions.get_transition(s, a, j);
            let r = self.mdp.rewards.get_reward(s, a, j);
            let uj = utility_vector[j];
            proof {
                assert(0 <= (d.transition)(s as int, a as int, j as int));
                assert(abs((d.reward)(s as int, a as int, j as int)) <= MAX_REWARD);
                assert(abs(u[j as int]) <= MAX_VALUE);
                lemma_term_bound(p as int, r as int, g as int, uj as int);
                crate::bellman::lemma_row_mass_le(d, s as int, a as int, j as int + 1);
                assert(d.row_mass(s as int, a as int, j as int + 1) == d.row_mass(
                    s as int,
                    a as int,
                    j as int,
                ) + p);
                let m1 = d.row_mass(s as int, a as int, j as int);
                let m2 = d.row_mass(s as int, a as int, j as int + 1);
                assert(m2 * x == m1 * x + p * x) by (nonlinear_arith)
                    requires
                        m2 == m1 + p,
                ;
                assert(d.row_mass(s as int, a as int, j as int + 1) * x <= SCALE * x) by (
                nonlinear_arith)
                    requires
                        d.row_mass(s as int, a as int, j as int + 1) <= SCALE,
                        x >= 0,
                ;
                assert(x <= MAX_REWARD * SCALE + SCALE * MAX_VALUE) by (nonlinear_arith)
                    requires
                        x == MAX_REWARD * SCALE + g * MAX_VALUE,
                        g < SCALE,
                ;
            }
            let y: i128 = (r as i128) * (SCALE as i128) + (g as i128) * (uj as i128);
            let term: i128 = (p as i128) * y;
            sum = sum + term;
            j = j + 1;
        }
        proof {
            crate::bellman::lemma_row_mass_le(d, s as int, a as int, n as int);
            assert(d.row_mass(s as int, a as int, n as int) * x == SCALE * x);
            lemma_value_bound(sum as int, g as int);
        }
        let q = floor_div(sum, (SCALE as i128) * (SCALE as i128));
        q as i64
    }

    /// One synchronous sweep from `u`: the backed-up values, the greedy policy and the largest
    /// change of a value.
    fn sweep(&self, u: &Vec<i64>) -> (res: (Vec<i64>, Vec<usize>, i64))
        requires
            self.spec_mdp().solvable(),
            u@.len() == self.spec_mdp().nb_states(),
            within(ints(u@), MAX_VALUE as int),
        ensures
            ints(res.0@) == self.spec_mdp().dynamics().backup(ints(u@)),
            indices(res.1@) == self.spec_mdp().dynamics().greedy_policy(ints(u@)),
            res.2 as int == sup_diff(
                self.spec_mdp().dynamics().backup(ints(u@)),
                ints(u@),
                self.spec_mdp().nb_states() as int,
            ),
            within(ints(res.0@), MAX_VALUE as int),
            res.2 >= 0,
    {
        let ghost d = self.mdp.dynamics();
        let ghost uu = ints(u@);
        let ghost bu = d.backup(uu);
        let ghost gp = d.greedy_policy(uu);
        let n = self.mdp.states.len();
        let m = self.mdp.actions.len();
        let mut next: Vec<i64> = Vec::new();
        let mut policy: Vec<usize> = Vec::new();
        let mut delta: i64 = 0;
        let mut s: usize = 0;
        while s < n
            invariant
                self.spec_mdp().solvable(),
                d == self.spec_mdp().dynamics(),
                uu == ints(u@),
                bu == d.backup(uu),
                gp == d.greedy_policy(uu),
                n == d.nb_states,
                m == d.nb_actions,
                u@.len() == n,
                within(uu, MAX_VALUE as int),
                s <= n,
                next@.len() == s,
                policy@.len() == s,
                forall|i: int| 0 <= i < s ==> #[trigger] next@[i] as int == bu[i],
                forall|i: int| 0 <= i < s ==> #[trigger] policy@[i] as int == gp[i],
                forall|i: int| 0 <= i < s ==> abs(#[trigger] next@[i] as int) <= MAX_VALUE,
                delta as int == sup_diff(bu, uu, s as int),
                delta >= 0,
            decreases n - s,
        {
            let mut best: usize = 0;
            let mut best_q: i64 = self.q_value(s, 0, u);
            let mut a: usize = 1;
            while a < m
                invariant
                    self.spec_mdp().solvable(),
                    d == self.spec_mdp().dynamics(),
                    uu == ints(u@),
                    n == d.nb_states,
                    m == d.nb_actions,
                    u@.len() == n,
                    within(uu, MAX_VALUE as int),
                    s < n,
                    1 <= a <= m,
                    best as int == d.best_action(s as int, uu, a as int),
                    best_q as int == d.q_value(s as int, best as int, uu),
                    abs(best_q as int) <= MAX_VALUE,
                decreases m - a,
            {
                let q = self.q_value(s, a, u);
                if q > best_q {
                    best = a;
                    best_q = q;
                }
                a = a + 1;
            }
            proof {
                assert(abs(uu[s as int]) <= MAX_VALUE);
            }
            let diff: i64 = if best_q >= u[s] {
                best_q - u[s]
            } else {
                u[s] - best_q
            };
            if diff > delta {
                delta = diff;
            }
            next.push(best_q);
            policy.push(best);
            s = s + 1;
        }
        proof {
            assert(ints(next@) =~= bu);
            assert(indices(policy@) =~= gp);
        }
        (next, policy, delta)
    }

    /// Runs value iteration from all-zero values until a sweep changes no value by more than
    /// `epsilon * (1 - discount) / discount`, and keeps that sweep's values and the greedy
    /// policy it acted on. Every call starts again from zero.
    pub fn solve(&mut self)
        requires
            old(self).wf(),
            old(self).spec_mdp().solvable(),
        ensures
            final(self).spec_mdp() == old(self).spec_mdp(),
            final(self).spec_epsilon() == old(self).spec_epsilon(),
            final(self).wf(),
            final(self).solved(),
    {
        let ghost d = self.mdp.dynamics();
        let n = self.mdp.states.len();
        let g = self.mdp.discount;
        let mut zeros: Vec<i64> = Vec::new();
        let mut i: usize = 0;
        while i < n
            invariant
                i <= n,
                zeros@.len() == i,
                forall|j: int| 0 <= j < i ==> #[trigger] zeros@[j] == 0,
            decreases n - i,
        {
            zeros.push(0);
            i = i + 1;
        }
        proof {
            assert(ints(zeros@) =~= d.iterate(0));
        }
        let (mut values, mut policy, mut delta) = self.sweep(&zeros);
        let ghost mut k: nat = 1;
        proof {
            crate::bellman::lemma_iterate_len(d, 1);
        }
        while !meets_stopping_rule(delta, g, self.epsilon)
            invariant
                self.wf(),
                self.spec_mdp().solvable(),
                d == self.spec_mdp().dynamics(),
                n == d.nb_states,
                g == d.discount,
                k >= 1,
                ints(values@) == d.iterate(k),
                indices(policy@) == d.greedy_policy(d.iterate((k - 1) as nat)),
                delta as int == d.sweep_change(k),
                delta >= 0,
                within(ints(values@), MAX_VALUE as int),
                forall|j: nat| 1 <= j < k ==> !#[trigger] d.stops_at(self.spec_epsilon(), j),
            decreases delta,
        {
            proof {
                assert(!d.stops_at(self.spec_epsilon(), k));
                crate::bellman::lemma_change_decreases(d, self.spec_epsilon(), k);
                crate::bellman::lemma_iterate_len(d, k);
            }
            let (v2, p2, d2) = self.sweep(&values);
            values = v2;
            policy = p2;
            delta = d2;
            proof {
                k = k + 1;
            }
        }
        proof {
            assert(d.first_stop(self.spec_epsilon(), k));
        }
        self.value_vector = Some(values);
        self.policy = Some(policy);
    }

    /// The values, in units and by state, of the last `solve`; `None` before it.
    pub fn get_value_vector(&self) -> (r: Option<&Vec<i64>>)
        ensures
            r is None <==> self.spec_values() is None,
            r matches Some(v) ==> self.spec_values() == Some(*v),
    {
        self.value_vector.as_ref()
    }

    /// The greedy action of each state after the last `solve`; `None` before it.
    pub fn get_policy(&self) -> (r: Option<&Vec<usize>>)
        ensures
            r is None <==> self.spec_policy() is None,
            r matches Some(p) ==> self.spec_policy() == Some(*p),
    {
        self.policy.as_ref()
    }
}

proof fn lemma_ints_injective(a: Seq<i64>, b: Seq<i64>)
    requires
        ints(a) == ints(b),
    ensures
        a == b,
{
    assert(ints(a).len() == a.len() && ints(b).len() == b.len());
    assert forall|i: int| 0 <= i < a.len() implies a[i] == b[i] by {
        assert(ints(a)[i] == a[i] as int);
        assert(ints(b)[i] == b[i] as int);
    }
    assert(a =~= b);
}

proof fn lemma_indices_injective(a: Seq<usize>, b: Seq<usize>)
    requires
        indices(a) == indices(b),
    ensures
        a == b,
{
    assert(indices(a).len() == a.len() && indices(b).len() == b.len());
    assert forall|i: int| 0 <= i < a.len() implies a[i] == b[i] by {
        assert(indices(a)[i] == a[i] as int);
        assert(indices(b)[i] == b[i] as int);
    }
    assert(a =~= b);
}

/// Equivalence: two solvers run to the same tolerance on models that agree on every state,
/// action and next state (say one built from dense arrays and one from hand-written
/// providers) return the same values and the same policy.
pub proof fn lemma_equivalent_models_same_solution<
    'a,
    'b,
    S1,
    A1,
    T1: TransitionModel,
    R1: RewardModel,
    S2,
    A2,
    T2: TransitionModel,
    R2: RewardModel,
>(v1: &ValueIteration<'a, S1, A1, T1, R1>, v2: &ValueIteration<'b, S2, A2, T2, R2>)
    requires
        v1.solved(),
        v2.solved(),
        v1.spec_epsilon() == v2.spec_epsilon(),
        v1.spec_mdp().nb_actions() >= 1,
        v1.spec_mdp().dynamics().agrees_with(v2.spec_mdp().dynamics()),
    ensures
        v1.spec_values()->Some_0@ == v2.spec_values()->Some_0@,
        v1.spec_policy()->Some_0@ == v2.spec_policy()->Some_0@,
{
    let d1 = v1.spec_mdp().dynamics();
    let d2 = v2.spec_mdp().dynamics();
    let e = v1.spec_epsilon();
    let k1 = choose|k: nat|
        #![trigger d1.first_stop(e, k)]
        {
            &&& d1.first_stop(e, k)
            &&& ints(v1.spec_values()->Some_0@) == d1.iterate(k)
            &&& indices(v1.spec_policy()->Some_0@) == d1.greedy_policy(d1.iterate((k - 1) as nat))
        };
    let k2 = choose|k: nat|
        #![trigger d2.first_stop(e, k)]
        {
            &&& d2.first_stop(e, k)
            &&& ints(v2.spec_values()->Some_0@) == d2.iterate(k)
            &&& indices(v2.spec_policy()->Some_0@) == d2.greedy_policy(d2.iterate((k - 1) as nat))
        };
    crate::bellman::lemma_agreeing_models_iterate_alike(d1, d2, e);
    assert(d2.first_stop(e, k1) == d1.first_stop(e, k1));
    crate::bellman::lemma_first_stop_unique(d2, e, k1, k2);
    assert(d1.iterate(k1) == d2.iterate(k1));
    assert(d1.greedy_policy(d1.iterate((k1 - 1) as nat)) == d2.greedy_policy(
        d2.iterate((k1 - 1) as nat),
    ));
    lemma_ints_injective(v1.spec_values()->Some_0@, v2.spec_values()->Some_0@);
    lemma_indices_injective(v1.spec_policy()->Some_0@, v2.spec_policy()->Some_0@);
}

} // verus!
