//! Primitives and traits for plate solving, and the decision logic of
//! the ASTAP command-line solver wrapper.

pub mod astap;
pub mod common;
