//! A neuroevolution engine: feed-forward networks whose weights and biases
//! are fixed-point numbers, and the controller that runs a population of them
//! through its generations.
//!
//! - `topology`: layer widths and their compaction.
//! - `parameters`: single weights and rows of them: drawing, mixing, mutating.
//! - `network`: the network, its crossover and mutation, its model record.
//! - `evaluation`: the forward pass.
//! - `selection`: the best individual, the ranking, the roulette wheel.
//! - `population`: the members of a generation, tracking and reproduction.
//! - `player`: the pilot of one ship in the environment.
//! - `panel`: the settings an operator changes during a run.
//! - `random`: the one call into the random number generator.

pub mod error;
pub mod evaluation;
pub mod network;
pub mod panel;
pub mod parameters;
pub mod player;
pub mod population;
pub mod random;
pub mod selection;
pub mod topology;
