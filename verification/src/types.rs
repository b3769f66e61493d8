//! Proof flavours, the on-chain state view, and one batch's result.

use vstd::prelude::*;

use crate::hex::is_u256_hex;

verus! {

/// A proof of one batch: an intermediate STARK, fit for recursion, or the
/// terminal Groth16 wrap with its on-chain calldata.
pub enum ProofType {
    Stark { receipt: Vec<u8>, image_id: Vec<u8>, method_id: [u32; 8] },
    Groth16 { receipt: Vec<u8>, calldata: Vec<String> },
}

/// The MMR state as the chain stores it: the covered head, the root as a
/// `U256` hex string, and the two counters.
pub struct MmrState {
    latest_block_number: u64,
    root_hash: String,
    elements_count: u64,
    leaves_count: u64,
}

impl MmrState {
    /// Packs an on-chain state view; the root must be a valid `U256` hex
    /// string.
    pub fn new(
        latest_block_number: u64,
        root_hash: String,
        elements_count: u64,
        leaves_count: u64,
    ) -> (r: MmrState)
        requires
            is_u256_hex(root_hash@),
        ensures
            r.latest_block_number() == latest_block_number,
            r.root_hash_view() == root_hash@,
            r.elements_count() == elements_count,
            r.leaves_count() == leaves_count,
    {
        MmrState { latest_block_number, root_hash, elements_count, leaves_count }
    }

    /// The root hash as a mathematical string.
    pub closed spec fn root_hash_view(&self) -> Seq<char> {
        self.root_hash@
    }

    /// The covered head block number.
    #[verifier::when_used_as_spec(spec_latest_block_number)]
    pub fn latest_block_number(&self) -> (r: u64)
        ensures
            r == self.latest_block_number(),
    {
        self.latest_block_number
    }

    /// The covered head block number, as a spec value.
    pub closed spec fn spec_latest_block_number(&self) -> u64 {
        self.latest_block_number
    }

    /// The root hash.
    pub fn root_hash(&self) -> (r: &String)
        ensures
            r@ == self.root_hash_view(),
    {
        &self.root_hash
    }

    /// The element counter.
    #[verifier::when_used_as_spec(spec_elements_count)]
    pub fn elements_count(&self) -> (r: u64)
        ensures
            r == self.elements_count(),
    {
        self.elements_count
    }

    /// The element counter, as a spec value.
    pub closed spec fn spec_elements_count(&self) -> u64 {
        self.elements_count
    }

    /// The leaf counter.
    #[verifier::when_used_as_spec(spec_leaves_count)]
    pub fn leaves_count(&self) -> (r: u64)
        ensures
            r == self.leaves_count(),
    {
        self.leaves_count
    }

    /// The leaf counter, as a spec value.
    pub closed spec fn spec_leaves_count(&self) -> u64 {
        self.leaves_count
    }
}

/// What one processed batch hands back: its block range, the committed
/// state, and the proof produced for it.
pub struct BatchResult {
    start_block: u64,
    end_block: u64,
    new_mmr_state: MmrState,
    proof: Option<ProofType>,
}

impl BatchResult {
    /// Packs a batch result.
    pub fn new(
        start_block: u64,
        end_block: u64,
        new_mmr_state: MmrState,
        proof: Option<ProofType>,
    ) -> (r: BatchResult)
        ensures
            r.start_block() == start_block,
            r.end_block() == end_block,
            r.spec_new_mmr_state() == new_mmr_state,
            r.spec_proof() == proof,
    {
        BatchResult { start_block, end_block, new_mmr_state, proof }
    }

    /// The first block of the range.
    #[verifier::when_used_as_spec(spec_start_block)]
    pub fn start_block(&self) -> (r: u64)
        ensures
            r == self.start_block(),
    {
        self.start_block
    }

    /// The first block of the range, as a spec value.
    pub closed spec fn spec_start_block(&self) -> u64 {
        self.start_block
    }

    /// The last block of the range.
    #[verifier::when_used_as_spec(spec_end_block)]
    pub fn end_block(&self) -> (r: u64)
        ensures
            r == self.end_block(),
    {
        self.end_block
    }

    /// The last block of the range, as a spec value.
    pub closed spec fn spec_end_block(&self) -> u64 {
        self.end_block
    }

    /// The committed state's root hash.
    pub fn new_mmr_root_hash(&self) -> (r: &String)
        ensures
            r@ == self.spec_new_mmr_state().root_hash_view(),
    {
        self.new_mmr_state.root_hash()
    }

    /// The committed state.
    pub fn new_mmr_state(&self) -> (r: &MmrState)
        ensures
            *r == self.spec_new_mmr_state(),
    {
        &self.new_mmr_state
    }

    /// The committed state, as a spec value.
    pub closed spec fn spec_new_mmr_state(&self) -> MmrState {
        self.new_mmr_state
    }

    /// The proof produced for this batch, if any.
    pub fn proof_type(&self) -> (r: &Option<ProofType>)
        ensures
            *r == self.spec_proof(),
    {
        &self.proof
    }

    /// The proof, as a spec value.
    pub closed spec fn spec_proof(&self) -> Option<ProofType> {
        self.proof
    }
}

} // verus!
