//! Providers of transition probabilities, rewards and emission probabilities, and their
//! matrix-backed implementations. States, actions and observations are numbered from 0, and
//! every quantity is a fixed-point number (see `fixed`).
use vstd::prelude::*;

verus! {

/// Probabilities of reaching a state from a state under an action.
pub trait TransitionModel {
    /// Whether the model answers for the triple.
    spec fn defined_at(&self, s1: int, a: int, s2: int) -> bool;

    /// The probability, in units, of reaching `s2` from `s1` under `a`.
    spec fn transition(&self, s1: int, a: int, s2: int) -> int;

    fn get_transition(&self, s1: usize, a: usize, s2: usize) -> (p: i64)
        requires
            self.defined_at(s1 as int, a as int, s2 as int),
        ensures
            p as int == self.transition(s1 as int, a as int, s2 as int),
    ;
}

/// Immediate rewards of moving from a state to a state under an action.
pub trait RewardModel {
    /// Whether the model answers for the triple.
    spec fn defined_at(&self, s1: int, a: int, s2: int) -> bool;

    /// The reward, in units, of reaching `s2` from `s1` under `a`.
    spec fn reward(&self, s1: int, a: int, s2: int) -> int;

    fn get_reward(&self, s1: usize, a: usize, s2: usize) -> (r: i64)
        requires
            self.defined_at(s1 as int, a as int, s2 as int),
        ensures
            r as int == self.reward(s1 as int, a as int, s2 as int),
    ;
}

/// Probabilities of an observation once an action has led to a state.
pub trait EmissionModel {
    /// Whether the model answers for the triple.
    spec fn defined_at(&self, s: int, a: int, o: int) -> bool;

    /// The probability, in units, of observing `o` in `s` after `a`.
    spec fn emission(&self, s: int, a: int, o: int) -> int;

    fn get_emission(&self, s: usize, a: usize, o: usize) -> (p: i64)
        requires
            self.defined_at(s as int, a as int, o as int),
        ensures
            p as int == self.emission(s as int, a as int, o as int),
    ;
}

/// Whether `(i, j, k)` indexes an entry of the nested array `c`.
pub open spec fn in_cube(c: Seq<Vec<Vec<i64>>>, i: int, j: int, k: int) -> bool {
    &&& 0 <= i < c.len()
    &&& 0 <= j < c[i]@.len()
    &&& 0 <= k < c[i]@[j]@.len()
}

/// The entry of the nested array `c` at `(i, j, k)`.
pub open spec fn cube_at(c: Seq<Vec<Vec<i64>>>, i: int, j: int, k: int) -> int {
    c[i]@[j]@[k] as int
}

/// Whether the nested array `c` has exactly `n1` rows of `n2` rows of `n3` entries.
pub open spec fn has_shape(c: Seq<Vec<Vec<i64>>>, n1: int, n2: int, n3: int) -> bool {
    &&& c.len() == n1
    &&& forall|i: int| 0 <= i < n1 ==> #[trigger] c[i]@.len() == n2
    &&& forall|i: int, j: int| 0 <= i < n1 && 0 <= j < n2 ==> #[trigger] c[i]@[j]@.len() == n3
}

/// Tells whether the nested array `c` has the shape `n1` by `n2` by `n3`.
pub fn check_shape(c: &Vec<Vec<Vec<i64>>>, n1: usize, n2: usize, n3: usize) -> (ok: bool)
    ensures
        ok == has_shape(c@, n1 as int, n2 as int, n3 as int),
{
    if c.len() != n1 {
        return false;
    }
    let mut i: usize = 0;
    while i < n1
        invariant
            c@.len() == n1,
            i <= n1,
            forall|i2: int| 0 <= i2 < i ==> #[trigger] c@[i2]@.len() == n2,
            forall|i2: int, j: int|
                0 <= i2 < i && 0 <= j < n2 ==> #[trigger] c@[i2]@[j]@.len() == n3,
        decreases n1 - i,
    {
        if c[i].len() != n2 {
            return false;
        }
        let mut j: usize = 0;
        while j < n2
            invariant
                c@.len() == n1,
                i < n1,
                j <= n2,
                c@[i as int]@.len() == n2,
                forall|j2: int| 0 <= j2 < j ==> #[trigger] c@[i as int]@[j2]@.len() == n3,
            decreases n2 - j,
        {
            if c[i][j].len() != n3 {
                return false;
            }
            j = j + 1;
        }
        i = i + 1;
    }
    true
}

/// Transition probabilities held as an array indexed `[state][action][next state]`.
pub struct MatrixTransition {
    pub t: Vec<Vec<Vec<i64>>>,
}

impl MatrixTransition {
    /// Keeps the array as it is given: nothing is normalised.
    pub fn new(transition_array: Vec<Vec<Vec<i64>>>) -> (m: Self)
        ensures
            m.t@ == transition_array@,
    {
        MatrixTransition { t: transition_array }
    }

    /// The probabilities of every next state from `s1` under `a`.
    pub fn get_all_transitions(&self, s1: usize, a: usize) -> (row: &Vec<i64>)
        requires
            (s1 as int) < self.t@.len(),
            (a as int) < self.t@[s1 as int]@.len(),
        ensures
            row == self.t@[s1 as int]@[a as int],
    {
        &self.t[s1][a]
    }
}

impl TransitionModel for MatrixTransition {
    open spec fn defined_at(&self, s1: int, a: int, s2: int) -> bool {
        in_cube(self.t@, s1, a, s2)
    }

    open spec fn transition(&self, s1: int, a: int, s2: int) -> int {
        cube_at(self.t@, s1, a, s2)
    }

    fn get_transition(&self, s1: usize, a: usize, s2: usize) -> (p: i64) {
        self.t[s1][a][s2]
    }
}

/// Rewards held as an array indexed `[state][action][next state]`.
pub struct MatrixReward {
    pub r: Vec<Vec<Vec<i64>>>,
}

impl MatrixReward {
    /// Keeps the array as it is given.
    pub fn new(reward_array: Vec<Vec<Vec<i64>>>) -> (m: Self)
        ensures
            m.r@ == reward_array@,
    {
        MatrixReward { r: reward_array }
    }
}

impl RewardModel for MatrixReward {
    open spec fn defined_at(&self, s1: int, a: int, s2: int) -> bool {
        in_cube(self.r@, s1, a, s2)
    }

    open spec fn reward(&self, s1: int, a: int, s2: int) -> int {
        cube_at(self.r@, s1, a, s2)
    }

    fn get_reward(&self, s1: usize, a: usize, s2: usize) -> (r: i64) {
        self.r[s1][a][s2]
    }
}

/// Emission probabilities held as an array indexed `[state][action][observation]`.
pub struct MatrixEmission {
    pub e: Vec<Vec<Vec<i64>>>,
}

impl MatrixEmission {
    /// Keeps the array as it is given: nothing is normalised.
    pub fn new(emission_array: Vec<Vec<Vec<i64>>>) -> (m: Self)
        ensures
            m.e@ == emission_array@,
    {
        MatrixEmission { e: emission_array }
    }
}

impl EmissionModel for MatrixEmission {
    open spec fn defined_at(&self, s: int, a: int, o: int) -> bool {
        in_cube(self.e@, s, a, o)
    }

    open spec fn emission(&self, s: int, a: int, o: int) -> int {
        cube_at(self.e@, s, a, o)
    }

    fn get_emission(&self, s: usize, a: usize, o: usize) -> (p: i64) {
        self.e[s][a][o]
    }
}

} // verus!
