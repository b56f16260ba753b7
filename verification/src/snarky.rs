//! A circuit writer that keeps the witness next to the constraints, and the
//! Poseidon gadgets that are written against it.

pub mod constraint_system;
pub mod cvar;
pub mod duplex;
pub mod poseidon;
pub mod runner;
