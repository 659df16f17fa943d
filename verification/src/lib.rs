//! Quantum-walk search on an `n × n` torus, in exact arithmetic.
//!
//! Every amplitude of the walker is a Gaussian integer over a common real
//! scale, so each operator of the walk, the measurement and the conservation
//! of total probability are stated and proved without rounding.

pub mod coin;
pub mod lattice;
pub mod number;
pub mod sample;
pub mod state;
pub mod sums;
pub mod symmetry;
pub mod torus;
pub mod unitarity;
pub mod walk;
pub mod wave;
