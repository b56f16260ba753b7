//! Building blocks for arithmetizing circuits over the Pallas base field:
//! evaluation domains for polynomial arithmetic, and an in-circuit Poseidon
//! duplex sponge that records its permutation traces as constraints.

pub mod circuits;
pub mod error;
pub mod field;
pub mod modular;
pub mod permutation;
pub mod snarky;
