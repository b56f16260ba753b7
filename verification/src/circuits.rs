//! Structures that a compiled circuit is evaluated over, and the layout of its
//! rows.

pub mod domains;
pub mod polynomials;
pub mod roots;
