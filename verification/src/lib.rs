//! A 128-bit block cipher with the Rijndael structure, built from first
//! principles: GF(2^8) arithmetic, an algebraically derived substitution
//! box, the four round transformations with their inverses, the round-key
//! schedule, and drivers that apply them over a sequence of 16-byte blocks.
//!
//! Each block is processed independently (no chaining mode, no IV), and
//! the padding scheme is not self-describing; see the crate documentation
//! of the block codec for the limitations this implies.

pub mod field;
pub mod sbox;
pub mod words;
pub mod state;
pub mod schedule;
pub mod cipher;
pub mod data;
