//! A Markov decision process: states, actions, transition and reward providers, and a
//! discount factor.
use crate::bellman::Dynamics;
use crate::error::MdpError;
use crate::fixed::{abs, DEFAULT_TOLERANCE, MAX_REWARD, SCALE};
use crate::model::{check_shape, has_shape, MatrixReward, MatrixTransition, RewardModel, TransitionModel};
use crate::validation::{check_transitions_rewards, transitions_rewards_valid};
use vstd::prelude::*;

verus! {

/// States and actions are enumerated in the order of `states` and `actions`; the providers
/// are queried by position in that order.
pub struct MDPAgent<S, A, T, R> {
    pub states: Vec<S>,
    pub actions: Vec<A>,
    pub transitions: T,
    pub rewards: R,
    /// Discount factor, in units.
    pub discount: i64,
    /// Tolerance, in units, of `validate`.
    pub tolerance: i64,
}

impl<S, A, T: TransitionModel, R: RewardModel> MDPAgent<S, A, T, R> {
    pub open spec fn nb_states(&self) -> nat {
        self.states@.len()
    }

    pub open spec fn nb_actions(&self) -> nat {
        self.actions@.len()
    }

    /// Both providers answer for every state, action and next state.
    pub open spec fn providers_cover(&self) -> bool {
        &&& forall|s1: int, a: int, s2: int|
            0 <= s1 < self.nb_states() && 0 <= a < self.nb_actions() && 0 <= s2
                < self.nb_states() ==> #[trigger] self.transitions.defined_at(s1, a, s2)
        &&& forall|s1: int, a: int, s2: int|
            0 <= s1 < self.nb_states() && 0 <= a < self.nb_actions() && 0 <= s2
                < self.nb_states() ==> #[trigger] self.rewards.defined_at(s1, a, s2)
    }

    /// Transition rows sum to one and the rewards are not all zero, within the tolerance.
    pub open spec fn is_valid(&self) -> bool {
        transitions_rewards_valid(
            &self.transitions,
            &self.rewards,
            self.nb_states() as int,
            self.nb_actions() as int,
            self.tolerance as int,
        )
    }

    /// What value iteration reads of the agent.
    pub open spec fn dynamics(&self) -> Dynamics {
        Dynamics {
            nb_states: self.nb_states(),
            nb_actions: self.nb_actions(),
            transition: |s1: int, a: int, s2: int| self.transitions.transition(s1, a, s2),
            reward: |s1: int, a: int, s2: int| self.rewards.reward(s1, a, s2),
            discount: self.discount as int,
        }
    }

    /// The providers answer for every triple and value iteration is defined on the agent.
    pub open spec fn solvable(&self) -> bool {
        self.providers_cover() && self.dynamics().solvable()
    }

    /// An agent over the given states and actions, validated with the default tolerance.
    pub fn new(states: Vec<S>, actions: Vec<A>, transitions: T, rewards: R, discount: i64) -> (m:
        Self)
        ensures
            m.states@ == states@,
            m.actions@ == actions@,
            m.transitions == transitions,
            m.rewards == rewards,
            m.discount == discount,
            m.tolerance == DEFAULT_TOLERANCE,
    {
        MDPAgent { states, actions, transitions, rewards, discount, tolerance: DEFAULT_TOLERANCE }
    }

    /// The same agent, validated with `tolerance`.
    pub fn with_tolerance(self, tolerance: i64) -> (m: Self)
        ensures
            m.states == self.states,
            m.actions == self.actions,
            m.transitions == self.transitions,
            m.rewards == self.rewards,
            m.discount == self.discount,
            m.tolerance == tolerance,
    {
        MDPAgent { tolerance, ..self }
    }

    /// Whether value iteration is defined on the agent: some state and some action, a discount
    /// strictly between zero and one, nonnegative probabilities whose rows sum to exactly
    /// one, and rewards no larger than `MAX_REWARD` in magnitude.
    pub fn check_solvable(&self) -> (ok: bool)
        requires
            self.providers_cover(),
        ensures
            ok == self.dynamics().solvable(),
    {
        let ghost d = self.dynamics();
        let n = self.states.len();
        let m = self.actions.len();
        if n == 0 || m == 0 || self.discount <= 0 || self.discount >= SCALE {
            return false;
        }
        let mut i: usize = 0;
        while i < n
            invariant
                d == self.dynamics(),
                self.providers_cover(),
                n == d.nb_states,
                m == d.nb_actions,
                i <= n,
                forall|s: int, a: int, j: int|
                    0 <= s < i && 0 <= a < m && 0 <= j < n ==> 0 <= #[trigger] (d.transition)(
                        s,
                        a,
                        j,
                    ) && -MAX_REWARD <= (d.reward)(s, a, j) <= MAX_REWARD,
                forall|s: int, a: int|
                    0 <= s < i && 0 <= a < m ==> #[trigger] d.row_mass(s, a, n as int) == SCALE,
            decreases n - i,
        {
            let mut a: usize = 0;
            while a < m
                invariant
                    d == self.dynamics(),
                    self.providers_cover(),
                    n == d.nb_states,
                    m == d.nb_actions,
                    i < n,
                    a <= m,
                    forall|s: int, a2: int, j: int|
                        (0 <= s < i && 0 <= a2 < m || s == i && 0 <= a2 < a) && 0 <= j < n ==> 0
                            <= #[trigger] (d.transition)(s, a2, j) && -MAX_REWARD <= (d.reward)(
                            s,
                            a2,
                            j,
                        ) <= MAX_REWARD,
                    forall|s: int, a2: int|
                        (0 <= s < i && 0 <= a2 < m || s == i && 0 <= a2 < a) ==> #[trigger] d.row_mass(
                            s,
                            a2,
                            n as int,
                        ) == SCALE,
                decreases m - a,
            {
                let mut sum: i128 = 0;
                let mut j: usize = 0;
                while j < n
                    invariant
                        d == self.dynamics(),
                        self.providers_cover(),
                        n == d.nb_states,
                        m == d.nb_actions,
                        i < n,
                        a < m,
                        j <= n,
                        sum == d.row_mass(i as int, a as int, j as int),
                        0 <= sum <= (j as int) * 0x8000_0000_0000_0000,
                        forall|s: int, a2: int, j2: int|
                            (0 <= s < i && 0 <= a2 < m || s == i && 0 <= a2 < a || s == i && a2
                                == a && 0 <= j2 < j) && 0 <= j2 < n ==> 0 <= #[trigger] (
                            d.transition)(s, a2, j2) && -MAX_REWARD <= (d.reward)(s, a2, j2)
                                <= MAX_REWARD,
                    decreases n - j,
                {
                    let p = self.transitions.get_transition(i, a, j);
                    let r = self.rewards.get_reward(i, a, j);
                    if p < 0 || r < -MAX_REWARD || r > MAX_REWARD {
                        assert(!(0 <= (d.transition)(i as int, a as int, j as int) && -MAX_REWARD
                            <= (d.reward)(i as int, a as int, j as int) <= MAX_REWARD));
                        return false;
                    }
                    sum = sum + p as i128;
                    j = j + 1;
                }
                if sum != SCALE as i128 {
                    assert(d.row_mass(i as int, a as int, n as int) != SCALE);
                    return false;
                }
                a = a + 1;
            }
            i = i + 1;
        }
        proof {
            assert forall|s: int, a: int, j: int|
                0 <= s < d.nb_states && 0 <= a < d.nb_actions && 0 <= j < d.nb_states implies abs(
                #[trigger] (d.reward)(s, a, j),
            ) <= MAX_REWARD by {
                assert(0 <= (d.transition)(s, a, j));
            }
        }
        true
    }

    /// Whether every transition row sums to one and the total reward magnitude is not zero,
    /// both within the tolerance. Reads the model and nothing else.
    pub fn validate(&self) -> (ok: bool)
        requires
            self.providers_cover(),
        ensures
            ok == self.is_valid(),
    {
        check_transitions_rewards(
            &self.transitions,
            &self.rewards,
            self.states.len(),
            self.actions.len(),
            self.tolerance,
        )
    }
}

/// An agent whose rewards are all zero fails validation under a nonnegative tolerance, even
/// when every transition row sums to exactly one.
pub proof fn lemma_zero_reward_agent_invalid<S, A, T: TransitionModel, R: RewardModel>(
    m: &MDPAgent<S, A, T, R>,
)
    requires
        m.tolerance >= 0,
        forall|s1: int, a: int, s2: int|
            0 <= s1 < m.nb_states() && 0 <= a < m.nb_actions() && 0 <= s2 < m.nb_states()
                ==> #[trigger] m.rewards.reward(s1, a, s2) == 0,
    ensures
        !m.is_valid(),
{
    crate::validation::lemma_zero_rewards_invalid(
        &m.transitions,
        &m.rewards,
        m.nb_states() as int,
        m.nb_actions() as int,
        m.tolerance as int,
    );
}

/// The states `0, 1, ..., n - 1`.
pub fn index_list(n: usize) -> (v: Vec<usize>)
    ensures
        v@.len() == n,
        forall|i: int| 0 <= i < n ==> v@[i] == i,
{
    let mut v: Vec<usize> = Vec::new();
    let mut i: usize = 0;
    while i < n
        invariant
            i <= n,
            v@.len() == i,
            forall|j: int| 0 <= j < i ==> v@[j] == j,
        decreases n - i,
    {
        v.push(i);
        i = i + 1;
    }
    v
}

impl MDPAgent<usize, usize, MatrixTransition, MatrixReward> {
    /// A dense agent over the states `0..nb_states` and the actions `0..nb_actions`. Fails
    /// with `MalformedModel` unless both arrays are `nb_states` by `nb_actions` by `nb_states`.
    pub fn new_matrix(
        nb_states: usize,
        nb_actions: usize,
        t: MatrixTransition,
        r: MatrixReward,
        discount: i64,
    ) -> (res: Result<Self, MdpError>)
        ensures
            res is Ok <==> has_shape(t.t@, nb_states as int, nb_actions as int, nb_states as int)
                && has_shape(r.r@, nb_states as int, nb_actions as int, nb_states as int),
            res is Err ==> res->Err_0 == MdpError::MalformedModel,
            res matches Ok(m) ==> {
                &&& m.nb_states() == nb_states
                &&& m.nb_actions() == nb_actions
                &&& forall|i: int| 0 <= i < nb_states ==> m.states@[i] == i
                &&& forall|i: int| 0 <= i < nb_actions ==> m.actions@[i] == i
                &&& m.transitions == t
                &&& m.rewards == r
                &&& m.discount == discount
                &&& m.tolerance == DEFAULT_TOLERANCE
                &&& m.providers_cover()
            },
    {
        if !check_shape(&t.t, nb_states, nb_actions, nb_states) || !check_shape(
            &r.r,
            nb_states,
            nb_actions,
            nb_states,
        ) {
            return Err(MdpError::MalformedModel);
        }
        let m = MDPAgent::new(index_list(nb_states), index_list(nb_actions), t, r, discount);
        Ok(m)
    }
}

} // verus!
