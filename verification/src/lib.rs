//! Static geometry of Keplerian orbits over unit-checked quantities.
//!
//! Every number is an IEEE 754 binary64 value held as its bit pattern, and
//! every operation on it is stated against the exact value that the pattern
//! stands for.

pub mod arith;
pub mod grid;
pub mod kepler;
pub mod laws;
pub mod nearness;
pub mod number;
pub mod power;
pub mod product;
pub mod quotient;
pub mod root;
pub mod rounding;
pub mod sum;
pub mod tolerance;
pub mod utils;
