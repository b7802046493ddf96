//! Core engine of a scientific calculator: a precedence-aware recursive
//! expression parser, exact large-integer combinatorics, and the string
//! side of multi-notation numeric rendering.
//!
//! Floating-point arithmetic itself cannot be verified, so the numeric
//! fold over the parsed syntax tree is left to the (unverified) caller;
//! everything structural — normalization, the grammar, digit grouping,
//! trimming, exponent alignment, and exact factorial/permutation/
//! combination counts — lives here with full functional contracts.

pub mod ast;
pub mod bignum;
pub mod combin;
pub mod errors;
pub mod grouping;
pub mod laws;
pub mod literal;
pub mod parser;
pub mod preprocess;
pub mod render;
pub mod text;
