//! Core of a toroidal Game-of-Life variant: the grid state machine and its
//! step function, seed generators for named starting patterns, a history
//! tracker that detects repeating states, and the score-qualification rules
//! that rank a finished run against a pool of earlier runs.

pub mod game;
pub mod history;
pub mod score;
pub mod seeds;
