//! The guest I/O schema: the inputs handed to the proving guest and the
//! output decoded from its journal.

use vstd::prelude::*;

use crate::mmr::str_views;

verus! {

/// What the accumulator reads of a block header: its number, for batch
/// assignment, and its hash, the leaf value.
pub struct BlockHeader {
    pub number: u64,
    pub block_hash: String,
}

/// One link of the recursion chain: an opaque receipt bound to a guest
/// image.
pub struct BatchProof {
    pub receipt: Vec<u8>,
    pub image_id: Vec<u8>,
    pub method_id: [u32; 8],
}

impl BatchProof {
    /// Packs a receipt with the guest identity it proves under.
    pub fn new(receipt: Vec<u8>, image_id: Vec<u8>, method_id: [u32; 8]) -> (r: BatchProof)
        ensures
            r.receipt@ == receipt@,
            r.image_id@ == image_id@,
            r.method_id == method_id,
    {
        BatchProof { receipt, image_id, method_id }
    }

    /// The opaque receipt bytes.
    pub fn receipt(&self) -> (r: &Vec<u8>)
        ensures
            r@ == self.receipt@,
    {
        &self.receipt
    }

    /// The guest image id.
    pub fn image_id(&self) -> (r: &Vec<u8>)
        ensures
            r@ == self.image_id@,
    {
        &self.image_id
    }

    /// The guest method id.
    pub fn method_id(&self) -> (r: [u32; 8])
        ensures
            r == self.method_id,
    {
        self.method_id
    }
}

/// The MMR pre-state and the new leaves handed to the guest.
pub struct MMRInput {
    pub initial_peaks: Vec<String>,
    pub elements_count: u64,
    pub leaves_count: u64,
    pub new_elements: Vec<String>,
    pub previous_proofs: Vec<BatchProof>,
}

impl MMRInput {
    /// An input with no chained proofs.
    pub fn new(
        initial_peaks: Vec<String>,
        elements_count: u64,
        leaves_count: u64,
        new_elements: Vec<String>,
    ) -> (r: MMRInput)
        ensures
            str_views(r.initial_peaks@) == str_views(initial_peaks@),
            r.elements_count == elements_count,
            r.leaves_count == leaves_count,
            str_views(r.new_elements@) == str_views(new_elements@),
            r.previous_proofs@.len() == 0,
    {
        MMRInput {
            initial_peaks,
            elements_count,
            leaves_count,
            new_elements,
            previous_proofs: Vec::new(),
        }
    }

    /// The same input carrying a chain of previous proofs.
    pub fn with_proofs(
        initial_peaks: Vec<String>,
        elements_count: u64,
        leaves_count: u64,
        new_elements: Vec<String>,
        previous_proofs: Vec<BatchProof>,
    ) -> (r: MMRInput)
        ensures
            str_views(r.initial_peaks@) == str_views(initial_peaks@),
            r.elements_count == elements_count,
            r.leaves_count == leaves_count,
            str_views(r.new_elements@) == str_views(new_elements@),
            r.previous_proofs == previous_proofs,
    {
        MMRInput { initial_peaks, elements_count, leaves_count, new_elements, previous_proofs }
    }
}

/// Everything one proving run receives: the headers, the MMR input built
/// from them, and whether the host-side cross-checks are skipped.
pub struct CombinedInput {
    pub headers: Vec<BlockHeader>,
    pub mmr_input: MMRInput,
    pub skip_proof_verification: bool,
}

impl CombinedInput {
    /// Packs the guest input.
    pub fn new(
        headers: Vec<BlockHeader>,
        mmr_input: MMRInput,
        skip_proof_verification: bool,
    ) -> (r: CombinedInput)
        ensures
            r.headers == headers,
            r.mmr_input == mmr_input,
            r.skip_proof_verification == skip_proof_verification,
    {
        CombinedInput { headers, mmr_input, skip_proof_verification }
    }
}

/// One append echoed by the guest: the root after it and the position the
/// leaf landed at.
pub struct GuestAppendResult {
    pub root_hash: String,
    pub element_index: u64,
}

/// The guest's journal: the post-state it claims, every node hash it
/// wrote, and the root it computed.
pub struct GuestOutput {
    pub final_peaks: Vec<String>,
    pub elements_count: u64,
    pub leaves_count: u64,
    pub append_results: Vec<GuestAppendResult>,
    pub root_hash: String,
    pub all_hashes: Vec<(u64, String)>,
}

impl GuestOutput {
    /// Packs a guest journal.
    pub fn new(
        final_peaks: Vec<String>,
        elements_count: u64,
        leaves_count: u64,
        append_results: Vec<GuestAppendResult>,
        root_hash: String,
        all_hashes: Vec<(u64, String)>,
    ) -> (r: GuestOutput)
        ensures
            r.final_peaks == final_peaks,
            r.elements_count == elements_count,
            r.leaves_count == leaves_count,
            r.append_results == append_results,
            r.root_hash == root_hash,
            r.all_hashes == all_hashes,
    {
        GuestOutput {
            final_peaks,
            elements_count,
            leaves_count,
            append_results,
            root_hash,
            all_hashes,
        }
    }

    /// The claimed element counter.
    pub fn elements_count(&self) -> (r: u64)
        ensures
            r == self.elements_count,
    {
        self.elements_count
    }

    /// The claimed leaf counter.
    pub fn leaves_count(&self) -> (r: u64)
        ensures
            r == self.leaves_count,
    {
        self.leaves_count
    }

    /// The claimed root hash.
    pub fn root_hash(&self) -> (r: &String)
        ensures
            r@ == self.root_hash@,
    {
        &self.root_hash
    }
}

/// An inclusion proof in the form the validator guest consumes.
pub struct GuestProof {
    pub element_index: u64,
    pub element_hash: String,
    pub siblings_hashes: Vec<String>,
    pub peaks_hashes: Vec<String>,
    pub elements_count: u64,
}

/// The validator guest's input: which chain, which headers, the MMR state
/// they are claimed under, and one proof per header.
pub struct BlocksValidityInput {
    pub chain_id: u64,
    pub headers: Vec<BlockHeader>,
    pub mmr_input: MMRInput,
    pub proofs: Vec<GuestProof>,
}

impl BlocksValidityInput {
    /// Packs a validator guest input.
    pub fn new(
        chain_id: u64,
        headers: Vec<BlockHeader>,
        mmr_input: MMRInput,
        proofs: Vec<GuestProof>,
    ) -> (r: BlocksValidityInput)
        ensures
            r.chain_id == chain_id,
            r.headers == headers,
            r.mmr_input == mmr_input,
            r.proofs == proofs,
    {
        BlocksValidityInput { chain_id, headers, mmr_input, proofs }
    }
}

} // verus!
