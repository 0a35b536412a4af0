//! The decisions and computations of a STARK prover over two tables that are
//! tied together by cross-table lookups, and of a gadget that range-checks
//! 32-bit values in a circuit.
//!
//! Hashing, Fourier transforms, commitments and FRI are done outside: the
//! library says what is to be done next, takes what came of it as plain
//! values, and computes everything in between.
#![allow(unused_imports)]

pub mod algebra;
pub mod bits;
pub mod config;
pub mod field;
pub mod lookup;
pub mod polynomial;
pub mod prover;
pub mod quotient;
pub mod range_check;
pub mod stark;
pub mod stark_proof;
pub mod table;
pub mod table_prover;
