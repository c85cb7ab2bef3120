//! Circuit-building and trace-layout logic for recursive STARK verification:
//! Merkle-path (MMCS) verification gadgets recorded into a circuit builder,
//! the layout of MMCS openings by padded matrix height, the constant-binding
//! AIR's trace matrices, and the FRI parameter profiles of the prover
//! configurations.

pub mod pow2;
pub mod circuit;
pub mod mmcs;
mod order;
pub mod matrix;
pub mod const_air;
pub mod config;

