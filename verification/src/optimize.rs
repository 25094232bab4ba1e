//! Rewrites of a whole loop into one instruction.

pub mod add_and_zero;
pub mod soundness;
pub mod zero;
