//! The layouts of the constraints that take rows of their own.

pub mod poseidon;
