//! Core simulation of a small 2D arcade shooter: a player-controlled square
//! dodges and shoots falling square obstacles for score, governed by a
//! four-state game state machine with enter/leave edge detection.
//!
//! All simulation arithmetic is fixed-point: positions and sizes are measured
//! in milli-units (one thousandth of a screen unit), speeds in units per
//! second, and frame times in milliseconds, so that one frame's displacement
//! is exactly `speed * dt` milli-units. The presentation layer converts to
//! and from pixels at the boundary.

pub mod arena;
pub mod collide;
pub mod geometry;
pub mod input;
mod rng;
pub mod score;
pub mod sim;
pub mod state;
pub mod units;
