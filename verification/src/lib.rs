//! Verified core of a grid-snake reinforcement-learning agent: grid geometry,
//! breadth-first reachability, state featurization, bounded replay memory,
//! and the epsilon-greedy policy with its decay schedule.

pub mod action;
pub mod agent;
pub mod bfs;
pub mod encoder;
pub mod grid;
pub mod memory;
pub mod policy;
pub mod trainer;
