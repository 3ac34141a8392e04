//! A small reinforcement-learning and clustering toolkit over finite
//! Markov decision processes: toy environments (corridor, grid, the
//! door-switching game, a two-round duel), dynamic-programming solvers,
//! Monte-Carlo and temporal-difference learners, model-based planners,
//! a minimal feed-forward network behind a Deep-Q agent, k-means, and
//! JSON policy persistence. All scalar signals live in a fixed-point
//! type, so every update rule carries an exact contract.

use vstd::prelude::*;

pub mod deep_q_learning;
pub mod dyna_q;
pub mod dyna_q_plus;
pub mod env_tools;
pub mod environment;
pub mod fixed;
pub mod grid_world;
pub mod kmeans;
pub mod learning;
pub mod line_world;
pub mod monte_carlo_control_struct;
pub mod monte_carlo_control_struct_off;
pub mod monte_carlo_es;
pub mod monte_hall;
pub mod monty_hall;
pub mod neural_network;
pub mod nn_struct;
pub mod persist;
pub mod playable_grid_world;
pub mod playable_line_world;
pub mod policy_iteration;
pub mod q_learning;
pub mod rng;
pub mod rps_game;
pub mod sarsa;
pub mod table;
pub mod tools;
pub mod two_round_rock_paper_scissors;
pub mod value_iteration;

pub use environment::{Action, Environment, Reward, State};
pub use fixed::Fixed;
pub use grid_world::GridWorld;
pub use line_world::LineWorld;
pub use monte_hall::MonteHall;
pub use monty_hall::MontyHall;
pub use table::Table;
pub use tools::argmax;

verus! {

} // verus!
