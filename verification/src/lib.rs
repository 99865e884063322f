//! Timing and judgment core of a lane-based rhythm game.
//!
//! All quantities are fixed-point integers: time in picoseconds, musical
//! position in billionths of a beat, tempo in thousandths of a beat per
//! minute, accuracy in thousandths of a percent. The contracts are stated
//! over mathematical models of the data and proved by Verus; the one
//! function whose contract is taken on trust says so.

pub mod asset;
pub mod chart;
pub mod clock;
pub mod convert;
pub mod judge;
pub mod models;
pub mod playing;
pub mod rank;
pub mod states;
pub mod timing;
