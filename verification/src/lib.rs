//! Rules of a two-player space duel: which keys steer which ship, where each
//! ship starts and which half of the screen it may use, when a ship may fire,
//! how laser hits cost health and end the round, what the score boards show,
//! and how the game moves between the main menu and play.
//!
//! Everything here works on plain values. Rendering, input, audio, timers and
//! the floating-point geometry live in the application around this library.

pub mod ship;
pub mod firing;
pub mod scoring;
pub mod flow;
pub mod laws;
