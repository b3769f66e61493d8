//! Verified core of a batched Merkle Mountain Range (MMR) accumulator.
//!
//! The library maintains per-batch MMRs over block-header hashes, checks and
//! commits state transitions reported by a zero-knowledge guest, plans the
//! STARK/Groth16 proof chain across batches, and prepares inclusion-proof
//! inputs for a validator guest.  All hashes are lowercase `0x`-prefixed hex
//! strings of Starknet field elements; the Poseidon pair hash is the only
//! operation taken on trust.

pub mod accumulator;
pub mod batch_processor;
pub mod bytes_util;
pub mod cli;
pub mod common;
pub mod errors;
pub mod guest;
pub mod hasher;
pub mod hex;
pub mod journal;
pub mod mmr;
pub mod positions;
pub mod state_manager;
pub mod types;
pub mod validator;
