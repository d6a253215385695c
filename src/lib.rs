//! A typing game's simulation engine: words move along fixed lanes, the
//! player destroys them by typing them, and a score-driven difficulty curve
//! sets how often new words appear and how fast they move.
//!
//! Positions, speeds and scores are fixed-point integers, so that every step
//! of the simulation is exact.

pub mod count;
pub mod menu;
pub mod state;
pub mod trusted;
pub mod tuning;
pub mod word;
