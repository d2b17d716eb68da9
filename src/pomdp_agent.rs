//! A partially observable MDP: an MDP together with observations and an emission provider.
use crate::error::MdpError;
use crate::fixed::DEFAULT_TOLERANCE;
use crate::mdp_agent::index_list;
use crate::model::{
    check_shape, has_shape, EmissionModel, MatrixEmission, MatrixReward, MatrixTransition,
    RewardModel, TransitionModel,
};
use crate::validation::{
    check_emissions, check_transitions_rewards, emissions_normalized, transitions_rewards_valid,
};
use vstd::prelude::*;

verus! {

/// States, actions and observations are enumerated in the order of their vectors; the
/// providers are queried by position in that order.
pub struct POMDPAgent<S, A, O, T, E, R> {
    pub states: Vec<S>,
    pub actions: Vec<A>,
    pub observations: Vec<O>,
    pub transitions: T,
    pub emissions: E,
    pub rewards: R,
    /// Discount factor, in units.
    pub discount: i64,
    /// Tolerance, in units, of `validate`.
    pub tolerance: i64,
}

impl<S, A, O, T: TransitionModel, E: EmissionModel, R: RewardModel> POMDPAgent<S, A, O, T, E, R> {
    pub open spec fn nb_states(&self) -> nat {
        self.states@.len()
    }

    pub open spec fn nb_actions(&self) -> nat {
        self.actions@.len()
    }

    pub open spec fn nb_observations(&self) -> nat {
        self.observations@.len()
    }

    /// The three providers answer for every triple of the agent.
    pub open spec fn providers_cover(&self) -> bool {
        &&& forall|s1: int, a: int, s2: int|
            0 <= s1 < self.nb_states() && 0 <= a < self.nb_actions() && 0 <= s2
                < self.nb_states() ==> #[trigger] self.transitions.defined_at(s1, a, s2)
        &&& forall|s1: int, a: int, s2: int|
            0 <= s1 < self.nb_states() && 0 <= a < self.nb_actions() && 0 <= s2
                < self.nb_states() ==> #[trigger] self.rewards.defined_at(s1, a, s2)
        &&& forall|s: int, a: int, o: int|
            0 <= s < self.nb_states() && 0 <= a < self.nb_actions() && 0 <= o
                < self.nb_observations() ==> #[trigger] self.emissions.defined_at(s, a, o)
    }

    /// Transition rows sum to one, rewards are not all zero, and emission rows sum to one,
    /// within the tolerance.
    pub open spec fn is_valid(&self) -> bool {
        &&& transitions_rewards_valid(
            &self.transitions,
            &self.rewards,
            self.nb_states() as int,
            self.nb_actions() as int,
            self.tolerance as int,
        )
        &&& emissions_normalized(
            &self.emissions,
            self.nb_states() as int,
            self.nb_actions() as int,
            self.nb_observations() as int,
            self.tolerance as int,
        )
    }

    /// An agent over the given states, actions and observations, validated with the default
    /// tolerance.
    pub fn new(
        states: Vec<S>,
        actions: Vec<A>,
        observations: Vec<O>,
        transitions: T,
        emissions: E,
        rewards: R,
        discount: i64,
    ) -> (m: Self)
        ensures
            m.states@ == states@,
            m.actions@ == actions@,
            m.observations@ == observations@,
            m.transitions == transitions,
            m.emissions == emissions,
            m.rewards == rewards,
            m.discount == discount,
            m.tolerance == DEFAULT_TOLERANCE,
    {
        POMDPAgent {
            states,
            actions,
            observations,
            transitions,
            emissions,
            rewards,
            discount,
            tolerance: DEFAULT_TOLERANCE,
        }
    }

    /// The same agent, validated with `tolerance`.
    pub fn with_tolerance(self, tolerance: i64) -> (m: Self)
        ensures
            m.states == self.states,
            m.actions == self.actions,
            m.observations == self.observations,
            m.transitions == self.transitions,
            m.emissions == self.emissions,
            m.rewards == self.rewards,
            m.discount == self.discount,
            m.tolerance == tolerance,
    {
        POMDPAgent { tolerance, ..self }
    }

    /// Whether the transition and reward checks of an MDP and the emission check all pass.
    /// Reads the model and nothing else.
    pub fn validate(&self) -> (ok: bool)
        requires
            self.providers_cover(),
        ensures
            ok == self.is_valid(),
    {
        self.validate_transition_reward() && self.validate_emission()
    }

    fn validate_transition_reward(&self) -> (ok: bool)
        requires
            self.providers_cover(),
        ensures
            ok == transitions_rewards_valid(
                &self.transitions,
                &self.rewards,
                self.nb_states() as int,
                self.nb_actions() as int,
                self.tolerance as int,
            ),
    {
        check_transitions_rewards(
            &self.transitions,
            &self.rewards,
            self.states.len(),
            self.actions.len(),
            self.tolerance,
        )
    }

    fn validate_emission(&self) -> (ok: bool)
        requires
            self.providers_cover(),
        ensures
            ok == emissions_normalized(
                &self.emissions,
                self.nb_states() as int,
                self.nb_actions() as int,
                self.nb_observations() as int,
                self.tolerance as int,
            ),
    {
        check_emissions(
            &self.emissions,
            self.states.len(),
            self.actions.len(),
            self.observations.len(),
            self.tolerance,
        )
    }
}

impl POMDPAgent<usize, usize, usize, MatrixTransition, MatrixEmission, MatrixReward> {
    /// A dense agent over `0..nb_states`, `0..nb_actions` and `0..nb_observation`. Fails with
    /// `MalformedModel` unless the transition and reward arrays are `nb_states` by
    /// `nb_actions` by `nb_states` and the emission array is `nb_states` by `nb_actions` by
    /// `nb_observation`.
    pub fn new_matrix(
        nb_states: usize,
        nb_actions: usize,
        nb_observation: usize,
        t: MatrixTransition,
        e: MatrixEmission,
        r: MatrixReward,
        discount: i64,
    ) -> (res: Result<Self, MdpError>)
        ensures
            res is Ok <==> has_shape(t.t@, nb_states as int, nb_actions as int, nb_states as int)
                && has_shape(r.r@, nb_states as int, nb_actions as int, nb_states as int)
                && has_shape(e.e@, nb_states as int, nb_actions as int, nb_observation as int),
            res is Err ==> res->Err_0 == MdpError::MalformedModel,
            res matches Ok(m) ==> {
                &&& m.nb_states() == nb_states
                &&& m.nb_actions() == nb_actions
                &&& m.nb_observations() == nb_observation
                &&& forall|i: int| 0 <= i < nb_states ==> m.states@[i] == i
                &&& forall|i: int| 0 <= i < nb_actions ==> m.actions@[i] == i
                &&& forall|i: int| 0 <= i < nb_observation ==> m.observations@[i] == i
                &&& m.transitions == t
                &&& m.emissions == e
                &&& m.rewards == r
                &&& m.discount == discount
                &&& m.tolerance == DEFAULT_TOLERANCE
                &&& m.providers_cover()
            },
    {
        if !check_shape(&t.t, nb_states, nb_actions, nb_states) || !check_shape(
            &r.r,
            nb_states,
            nb_actions,
            nb_states,
        ) || !check_shape(&e.e, nb_states, nb_actions, nb_observation) {
            return Err(MdpError::MalformedModel);
        }
        let m = POMDPAgent::new(
            index_list(nb_states),
            index_list(nb_actions),
            index_list(nb_observation),
            t,
            e,
            r,
            discount,
        );
        Ok(m)
    }
}

} // verus!
