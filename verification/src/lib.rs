//! A tick-based foraging-life simulation engine.
//!
//! A population of agents roams a toroidal world looking for food,
//! spends energy while moving, becomes fertile by feeding, walks home
//! at dusk and reproduces with mutated traits at dawn. This crate is
//! the simulation core alone: rendering, charting and interactive
//! configuration are left to the embedding program, which supplies a
//! validated configuration, the world bounds and a frame delta each
//! tick, and reads the state and the statistics series back.
//!
//! All quantities are fixed-point integers counted in millionths of a
//! unit; see [`fixed::SCALE`].

pub mod agent;
pub mod clock;
pub mod config;
pub mod fixed;
pub mod geom;
pub mod lifecycle;
pub mod motion;
mod rng;
pub mod sense;
pub mod sim;
pub mod stats;
