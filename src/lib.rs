//! Incremental chaos-game rendering of the Sierpinski triangle into a
//! caller-owned buffer of 32-bit pixel counters.
//!
//! Coordinates are fixed-point numbers: `util::UNIT` stands for 1.0.

pub mod affine;
pub mod drawer;
pub mod lsfr64;
pub mod util;
