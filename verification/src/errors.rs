//! Error kinds of the accumulator, the MMR engine and the validator.

use vstd::prelude::*;

verus! {

/// Errors of the MMR engine itself.
#[derive(Clone, Debug)]
pub enum MmrError {
    /// An element index is zero, not a leaf, or beyond the current size.
    InvalidElementIndex,
    /// A requested size lies beyond the current size, or a counter would
    /// exceed the engine's size cap.
    OutOfRange,
    /// A node hash needed for the operation is absent from the store.
    MissingHash,
    /// A hash string is not lowercase `0x`-prefixed hex of a field element.
    InvalidInput,
}

/// Errors of the batch accumulator and the state manager.
#[derive(Clone, Debug)]
pub enum AccumulatorError {
    /// The guest reported counters that shrink or do not describe a well
    /// formed MMR.
    InvalidStateTransition,
    /// The stored peaks after an update disagree with the guest's peaks.
    PeaksVerificationError,
    /// A Groth16 proof was required but a different proof kind was produced.
    ExpectedGroth16Proof,
    /// A root hash is not a valid `U256` hex string; carries the offending
    /// string.
    InvalidU256Hex(String),
    /// No headers exist in the requested block range.
    EmptyHeaders { start_block: u64, end_block: u64 },
    /// A configuration or input value is rejected; carries a description.
    InvalidInput(String),
    /// A journal did not parse under the schema.
    JournalDecode,
    /// An engine operation failed.
    Mmr(MmrError),
}

/// Errors of the validator pipeline.
#[derive(Clone, Debug)]
pub enum ValidatorError {
    /// A configuration or input value is rejected; carries a description.
    InvalidInput(String),
    /// The header list to validate is empty.
    EmptyHeaders,
    /// A block hash has no entry in the hash-to-index mapping of its batch
    /// MMR.
    MissingElementIndex { block_hash: String },
    /// No MMR was supplied for a batch index that the headers require.
    MissingBatchMmr { batch_index: u64 },
    /// No on-chain root was supplied for a batch index.
    MissingOnchainRoot { batch_index: u64 },
    /// The locally computed root differs from the on-chain root.
    InvalidMmrRoot { expected: String, actual: String },
    /// The number of inclusion proofs differs from the number of headers.
    InvalidProofsCount { expected: usize, actual: usize },
    /// An engine operation failed.
    Mmr(MmrError),
}

} // verus!
