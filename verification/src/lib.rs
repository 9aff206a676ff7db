//! Knowledge of a 32-byte preimage whose bytes XOR to a public one-byte digest,
//! arithmetised as a rank-1 constraint system over the BLS12-381 scalar field.
//!
//! The crate builds the constraint ledger for that statement, packs the digest
//! into public inputs, and decides the order of the set-up, proving and
//! verification steps. Its functions are verified against a mathematical model
//! of the ledger. Field arithmetic is done by `bls12_381` and the packing
//! outside the circuit by `bellman`: what they compute is stated, not proved.
//!
//! - `digest`: the XOR of the preimage bytes, computed outside the circuit.
//! - `field`: elements of the scalar field.
//! - `ledger`: the constraint system and its model.
//! - `boolean`: allocated bits, boolean values and their XOR.
//! - `multipack`: packing bits into public inputs, in the circuit and outside.
//! - `circuit`: the XOR reduction and the circuit as a whole.
//! - `structure`: the circuit has one structure with and without a witness,
//!   and its full names tell its entries apart.
//! - `satisfaction`: the witness meets the constraints, and the constraints
//!   bind the digest to the preimage bits.
//! - `pipeline`: the stages of set-up, proving and verification.

pub mod boolean;
pub mod circuit;
pub mod digest;
pub mod error;
pub mod field;
pub mod ledger;
pub mod multipack;
pub mod pipeline;
pub mod satisfaction;
pub mod structure;
