//! Conversion of charts of other games.

pub mod mc;
