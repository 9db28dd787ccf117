//! A grid world of snakes steered by evolving brains: movement and collision
//! rules, food placement, ray-cast sensing, mutation and merging of brains,
//! and score-driven selection, each with a machine-checked contract.
//!
//! The library never computes with a brain's numbers. It is generic in the
//! number type, and the caller hands in the arithmetic: how a brain decides,
//! how values are averaged, which number a random draw stands for.

pub mod activation;
pub mod brain;
pub mod counting;
pub mod direction;
pub mod evolution;
pub mod fraction;
pub mod genetic;
pub mod model;
pub mod rng;
pub mod selection;
pub mod setup;
pub mod snake;
pub mod universe;
pub mod vision;
