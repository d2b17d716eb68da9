//! Finite Markov decision processes, partially observable ones, and their solution by value
//! iteration, over fixed-point numbers (see `fixed`).
pub mod bellman;
pub mod error;
pub mod fixed;
pub mod mdp_agent;
pub mod model;
pub mod pomdp_agent;
pub mod simple_mdp;
pub mod utils;
pub mod validation;
pub mod value_iteration;
