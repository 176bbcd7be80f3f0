//! Astronomy support library: exact angle and Julian-date algebra,
//! sidereal-time formulas, and the affine pixel-to-sky transform
//! produced by plate solving.
//!
//! All quantities are stored as exact rational numbers, so every
//! arithmetic result in this crate is the exact mathematical value
//! (or `None` when it leaves the 128-bit range).

pub mod rational;
pub mod math;
pub mod common;
pub mod solver;
