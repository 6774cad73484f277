//! Bookkeeping core of a 2D rigid-body puzzle game: wrap-around windows over
//! vertex rings, the entity registry with its expiring bindings, the per-tick
//! collision schedule and its outcome, the player's progress, and the input
//! tool state.
pub mod input;
pub mod levels;
pub mod progress;
pub mod tick;
pub mod windows;
pub mod world;
