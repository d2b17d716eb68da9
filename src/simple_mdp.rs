//! A dense MDP whose states and actions carry names, held as arrays indexed
//! `[state][action][next state]`.
use crate::error::MdpError;
use crate::model::{check_shape, has_shape};
use vstd::prelude::*;

verus! {

/// The decimal digit of `d < 10`.
pub open spec fn digit_char(d: nat) -> char {
    if d == 0 { '0' }
    else if d == 1 { '1' }
    else if d == 2 { '2' }
    else if d == 3 { '3' }
    else if d == 4 { '4' }
    else if d == 5 { '5' }
    else if d == 6 { '6' }
    else if d == 7 { '7' }
    else if d == 8 { '8' }
    else { '9' }
}

/// The decimal representation of `n`, without leading zeros.
pub open spec fn decimal(n: nat) -> Seq<char>
    decreases n,
{
    if n < 10 {
        seq![digit_char(n)]
    } else {
        decimal(n / 10) + seq![digit_char(n % 10)]
    }
}

/// Relies on `ToString` for `usize` (through its `Display`): the decimal digits of `i`.
#[verifier::external_body]
fn decimal_name(i: usize) -> (s: String)
    ensures
        s@ == decimal(i as nat),
{
    i.to_string()
}

/// The names `"0"`, `"1"`, ..., of `n` items.
fn decimal_names(n: usize) -> (v: Vec<String>)
    ensures
        v@.len() == n,
        forall|i: int| 0 <= i < n ==> #[trigger] v@[i]@ == decimal(i as nat),
{
    let mut v: Vec<String> = Vec::new();
    let mut i: usize = 0;
    while i < n
        invariant
            i <= n,
            v@.len() == i,
            forall|j: int| 0 <= j < i ==> #[trigger] v@[j]@ == decimal(j as nat),
        decreases n - i,
    {
        v.push(decimal_name(i));
        i = i + 1;
    }
    v
}

/// A dense MDP over named states and actions.
pub struct SimpleMDP {
    pub nb_states: usize,
    pub state_list: Vec<String>,
    pub nb_actions: usize,
    pub action_list: Vec<String>,
    /// Probabilities, in units, indexed `[state][action][next state]`.
    pub transitions: Vec<Vec<Vec<i64>>>,
    /// Rewards, in units, indexed `[state][action][next state]`.
    pub reward: Vec<Vec<Vec<i64>>>,
    /// Discount factor, in units.
    pub discount: i64,
}

impl SimpleMDP {
    /// The counts match the name lists and both arrays have their shape.
    pub open spec fn wf(&self) -> bool {
        &&& self.nb_states == self.state_list@.len()
        &&& self.nb_actions == self.action_list@.len()
        &&& has_shape(
            self.transitions@,
            self.nb_states as int,
            self.nb_actions as int,
            self.nb_states as int,
        )
        &&& has_shape(self.reward@, self.nb_states as int, self.nb_actions as int, self.nb_states as int)
    }

    /// An MDP whose states and actions are named by their numbers. Fails as `new_named` does.
    pub fn new(
        nb_states: usize,
        nb_actions: usize,
        transitions: Vec<Vec<Vec<i64>>>,
        reward: Vec<Vec<Vec<i64>>>,
        discount: i64,
    ) -> (res: Result<SimpleMDP, MdpError>)
        ensures
            res is Ok <==> has_shape(transitions@, nb_states as int, nb_actions as int, nb_states as int)
                && has_shape(reward@, nb_states as int, nb_actions as int, nb_states as int),
            res is Err ==> res->Err_0 == MdpError::MalformedModel,
            res matches Ok(m) ==> {
                &&& m.wf()
                &&& forall|i: int| 0 <= i < nb_states ==> #[trigger] m.state_list@[i]@ == decimal(i as nat)
                &&& forall|i: int| 0 <= i < nb_actions ==> #[trigger] m.action_list@[i]@ == decimal(i as nat)
                &&& m.transitions@ == transitions@
                &&& m.reward@ == reward@
                &&& m.discount == discount
            },
    {
        SimpleMDP::new_named(decimal_names(nb_states), decimal_names(nb_actions), transitions, reward, discount)
    }

    /// An MDP over the named states and actions. Fails with `MalformedModel` unless both
    /// arrays are (number of states) by (number of actions) by (number of states). The
    /// entries are kept as they are given.
    pub fn new_named(
        states: Vec<String>,
        actions: Vec<String>,
        transitions: Vec<Vec<Vec<i64>>>,
        reward: Vec<Vec<Vec<i64>>>,
        discount: i64,
    ) -> (res: Result<SimpleMDP, MdpError>)
        ensures
            res is Ok <==> has_shape(transitions@, states@.len() as int, actions@.len() as int, states@.len() as int)
                && has_shape(reward@, states@.len() as int, actions@.len() as int, states@.len() as int),
            res is Err ==> res->Err_0 == MdpError::MalformedModel,
            res matches Ok(m) ==> {
                &&& m.wf()
                &&& m.state_list@ == states@
                &&& m.action_list@ == actions@
                &&& m.transitions@ == transitions@
                &&& m.reward@ == reward@
                &&& m.discount == discount
            },
    {
        let nb_states = states.len();
        let nb_actions = actions.len();
        if !check_shape(&transitions, nb_states, nb_actions, nb_states) {
            return Err(MdpError::MalformedModel);
        }
        if !check_shape(&reward, nb_states, nb_actions, nb_states) {
            return Err(MdpError::MalformedModel);
        }
        Ok(SimpleMDP {
            nb_states,
            state_list: states,
            nb_actions,
            action_list: actions,
            transitions,
            reward,
            discount,
        })
    }

    pub fn get_state_list(&self) -> (r: &Vec<String>)
        ensures
            r == &self.state_list,
    {
        &self.state_list
    }

    pub fn get_action_list(&self) -> (r: &Vec<String>)
        ensures
            r == &self.action_list,
    {
        &self.action_list
    }

    /// The name of state `number`.
    pub fn get_state(&self, number: usize) -> (r: &String)
        requires
            number < self.state_list@.len(),
        ensures
            r == &self.state_list@[number as int],
    {
        &self.state_list[number]
    }

    /// The name of action `number`.
    pub fn get_action(&self, number: usize) -> (r: &String)
        requires
            number < self.action_list@.len(),
        ensures
            r == &self.action_list@[number as int],
    {
        &self.action_list[number]
    }

    pub fn get_nb_states(&self) -> (r: usize)
        ensures
            r == self.nb_states,
    {
        self.nb_states
    }

    pub fn get_nb_actions(&self) -> (r: usize)
        ensures
            r == self.nb_actions,
    {
        self.nb_actions
    }

    /// The discount factor, in units.
    pub fn get_discount_factor(&self) -> (r: i64)
        ensures
            r == self.discount,
    {
        self.discount
    }

    /// The reward, in units, of reaching `s2` from `s1` under `a`.
    pub fn get_reward(&self, s1: usize, a: usize, s2: usize) -> (r: i64)
        requires
            self.wf(),
            s1 < self.nb_states,
            a < self.nb_actions,
            s2 < self.nb_states,
        ensures
            r == self.reward@[s1 as int]@[a as int]@[s2 as int],
    {
        self.reward[s1][a][s2]
    }

    /// The probability, in units, of reaching `s2` from `s1` under `a`.
    pub fn get_transition_probabilitiy(&self, s1: usize, a: usize, s2: usize) -> (p: i64)
        requires
            self.wf(),
            s1 < self.nb_states,
            a < self.nb_actions,
            s2 < self.nb_states,
        ensures
            p == self.transitions@[s1 as int]@[a as int]@[s2 as int],
    {
        self.transitions[s1][a][s2]
    }
}

} // verus!
