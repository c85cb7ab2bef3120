//! Merkle-tree commitment (MMCS) verification: grouping the opened rows of a
//! batch of matrices by padded height, and the binary and 4-to-1 Merkle-path
//! gadgets that the circuit builder records.

pub mod openings;
pub mod path;

pub use self::openings::{format_openings, Dimensions};
