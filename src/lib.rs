//! Decision engine for the enemies of an arcade shooter: static behavior
//! trees, a scheduler that picks the least recently performed action, and
//! the per-archetype rules that turn a behavior into movement and attack
//! intents.

pub mod actors;
pub mod model;
pub mod trees;
pub mod geometry;
pub mod scheduler;
pub mod ai;
mod rng;
