//! One batch: range arithmetic, the idempotent completeness check, guest
//! input preparation, and the commit of a proved transition.

use vstd::prelude::*;

use crate::errors::AccumulatorError;
use crate::guest::BatchProof;
use crate::guest::BlockHeader;
use crate::guest::CombinedInput;
use crate::guest::GuestOutput;
use crate::guest::MMRInput;
use crate::mmr::str_views;
use crate::mmr::Mmr;
use crate::state_manager::commit_accepts;
use crate::state_manager::commit_view;
use crate::state_manager::MMRStateManager;
use crate::types::BatchResult;
use crate::types::ProofType;

verus! {

/// A contiguous block range clamped to one batch.
pub struct BatchRange {
    pub start: u64,
    pub end: u64,
}

/// Drives one `(start, end)` block range through its batch MMR.
pub struct BatchProcessor {
    batch_size: u64,
    skip_proof_verification: bool,
}

/// The hashes of a header sequence, in input order.
pub open spec fn header_hashes(headers: Seq<BlockHeader>) -> Seq<Seq<char>> {
    headers.map_values(|h: BlockHeader| h.block_hash@)
}

impl BatchProcessor {
    /// The batch size is fixed and positive.
    pub closed spec fn spec_batch_size(&self) -> u64 {
        self.batch_size
    }

    /// Whether the host-side cross-checks are skipped.
    pub closed spec fn spec_skip_proof_verification(&self) -> bool {
        self.skip_proof_verification
    }

    /// A processor's batch size is positive.
    pub open spec fn wf(&self) -> bool {
        self.spec_batch_size() >= 1
    }

    /// A processor over a fixed batch size.  Rejects a zero batch size.
    pub fn new(batch_size: u64, skip_proof_verification: bool) -> (r: Result<
        BatchProcessor,
        AccumulatorError,
    >)
        ensures
            batch_size == 0 ==> (r matches Err(AccumulatorError::InvalidInput(_))),
            batch_size >= 1 ==> (r matches Ok(p) && p.wf() && p.spec_batch_size() == batch_size
                && p.spec_skip_proof_verification() == skip_proof_verification),
    {
        if batch_size == 0 {
            return Err(AccumulatorError::InvalidInput(String::from_str(
                "batch size must be greater than 0",
            )));
        }
        Ok(BatchProcessor { batch_size, skip_proof_verification })
    }

    /// The batch size.
    pub fn batch_size(&self) -> (r: u64)
        ensures
            r == self.spec_batch_size(),
    {
        self.batch_size
    }

    /// Whether the host-side cross-checks are skipped.
    pub fn skip_proof_verification(&self) -> (r: bool)
        ensures
            r == self.spec_skip_proof_verification(),
    {
        self.skip_proof_verification
    }

    /// The first and last block of a batch.
    pub fn calculate_batch_bounds(&self, batch_index: u64) -> (r: (u64, u64))
        requires
            self.wf(),
            batch_index <= (u64::MAX - (self.spec_batch_size() - 1)) / (
            self.spec_batch_size() as int),
        ensures
            r.0 == batch_index * self.spec_batch_size(),
            r.1 == batch_index * self.spec_batch_size() + self.spec_batch_size() - 1,
    {
        proof {
            assert(batch_index * self.batch_size + (self.batch_size - 1) <= u64::MAX)
                by (nonlinear_arith)
                requires
                    self.batch_size >= 1,
                    batch_index <= (u64::MAX - (self.batch_size - 1)) / (self.batch_size as int),
            ;
        }
        let batch_start = batch_index * self.batch_size;
        let batch_end = batch_start + (self.batch_size - 1);
        (batch_start, batch_end)
    }

    /// The first block of the batch containing `current_end`.
    pub fn calculate_start_block(&self, current_end: u64) -> (r: u64)
        requires
            self.wf(),
        ensures
            r == current_end - current_end % self.spec_batch_size(),
    {
        proof {
            assert(current_end % self.batch_size <= current_end) by (nonlinear_arith)
                requires
                    self.batch_size >= 1,
            ;
        }
        current_end - current_end % self.batch_size
    }

    /// The effective range of one step ending at `current_end`, clamped to
    /// the batch and to the overall `start_block`.  The batch's last block
    /// is never below `current_end`, so the effective end is `current_end`
    /// itself.
    pub fn calculate_batch_range(&self, current_end: u64, start_block: u64) -> (r: BatchRange)
        requires
            self.wf(),
        ensures
            r.start == if current_end - current_end % self.spec_batch_size() > start_block {
                current_end - current_end % self.spec_batch_size()
            } else {
                start_block as int
            },
            r.end == current_end,
    {
        proof {
            assert(current_end % self.batch_size <= current_end) by (nonlinear_arith)
                requires
                    self.batch_size >= 1,
            ;
        }
        let batch_start = current_end - current_end % self.batch_size;
        let effective_start = if batch_start > start_block {
            batch_start
        } else {
            start_block
        };
        BatchRange { start: effective_start, end: current_end }
    }

    /// Builds the guest input for one batch from the MMR's snapshot and
    /// the fetched headers: the current peaks and counters, the header
    /// hashes as new elements, and the chained proofs.  Returns `None`
    /// when the batch is already complete, and rejects an empty header
    /// range.
    pub fn prepare_batch(
        &self,
        mmr: &Mmr,
        start_block: u64,
        end_block: u64,
        headers: &Vec<BlockHeader>,
        previous_proofs: Vec<BatchProof>,
    ) -> (r: Result<Option<CombinedInput>, AccumulatorError>)
        requires
            self.wf(),
            mmr.wf(),
        ensures
            mmr@.leaves >= self.spec_batch_size() ==> (r matches Ok(None)),
            mmr@.leaves < self.spec_batch_size() && headers@.len() == 0 ==> (r matches Err(e)
                && e matches AccumulatorError::EmptyHeaders { start_block: s, end_block: e2 }
                && s == start_block && e2 == end_block),
            mmr@.leaves < self.spec_batch_size() && headers@.len() > 0 ==> (r matches Ok(oc)
                && oc matches Some(ci) && str_views(ci.mmr_input.initial_peaks@) == mmr@.peaks
                && ci.mmr_input.elements_count == mmr@.elements
                && ci.mmr_input.leaves_count == mmr@.leaves
                && str_views(ci.mmr_input.new_elements@) == header_hashes(headers@)
                && ci.mmr_input.previous_proofs == previous_proofs
                && ci.headers@.len() == headers@.len()
                && ci.skip_proof_verification == self.spec_skip_proof_verification()
                && (forall|i: int| 0 <= i < headers@.len() ==> (#[trigger] ci.headers@[i]).number
                    == headers@[i].number && ci.headers@[i].block_hash@
                    == headers@[i].block_hash@)),
    {
        if mmr.leaves_count() >= self.batch_size {
            return Ok(None);
        }
        if headers.len() == 0 {
            return Err(AccumulatorError::EmptyHeaders { start_block, end_block });
        }
        let peaks = mmr.get_peaks();
        let mut new_elements: Vec<String> = Vec::new();
        let mut cloned_headers: Vec<BlockHeader> = Vec::new();
        let mut i: usize = 0;
        while i < headers.len()
            invariant
                i <= headers@.len(),
                new_elements@.len() == i,
                forall|j: int| 0 <= j < i ==> #[trigger] new_elements@[j]@
                    == headers@[j].block_hash@,
                cloned_headers@.len() == i,
                forall|j: int|
                    0 <= j < i ==> (#[trigger] cloned_headers@[j]).number == headers@[j].number
                        && cloned_headers@[j].block_hash@ == headers@[j].block_hash@,
            decreases headers@.len() - i,
        {
            new_elements.push(headers[i].block_hash.clone());
            cloned_headers.push(
                BlockHeader { number: headers[i].number, block_hash: headers[i].block_hash.clone() },
            );
            i += 1;
        }
        proof {
            assert(str_views(new_elements@) =~= header_hashes(headers@));
        }
        let mmr_input = MMRInput::with_proofs(
            peaks,
            mmr.elements_count(),
            mmr.leaves_count(),
            new_elements,
            previous_proofs,
        );
        Ok(Some(CombinedInput::new(cloned_headers, mmr_input, self.skip_proof_verification)))
    }

    /// Processes one batch once the prover has answered: skips a complete
    /// batch untouched, rejects an empty header range, and otherwise
    /// commits the guest's transition and packages the batch result with
    /// the proof.
    pub fn process_batch(
        &self,
        mmr: &mut Mmr,
        start_block: u64,
        end_block: u64,
        headers: &Vec<BlockHeader>,
        guest_output: &GuestOutput,
        proof_value: ProofType,
    ) -> (r: Result<Option<BatchResult>, AccumulatorError>)
        requires
            self.wf(),
            old(mmr).wf(),
        ensures
            final(mmr).wf(),
            old(mmr)@.leaves >= self.spec_batch_size() ==> (r matches Ok(None) && final(mmr)@
                == old(mmr)@),
            old(mmr)@.leaves < self.spec_batch_size() && headers@.len() == 0 ==> (r matches Err(
                e,
            ) && (e matches AccumulatorError::EmptyHeaders { start_block: s, end_block: e2 }
                && s == start_block && e2 == end_block) && final(mmr)@ == old(mmr)@),
            old(mmr)@.leaves < self.spec_batch_size() && headers@.len() > 0
                && !commit_accepts(old(mmr)@, *guest_output) ==> (r is Err && final(mmr)@ == old(
                mmr,
            )@),
            old(mmr)@.leaves < self.spec_batch_size() && headers@.len() > 0 && commit_accepts(
                old(mmr)@,
                *guest_output,
            ) ==> (r matches Ok(ob) && ob matches Some(br) && final(mmr)@ == commit_view(
                old(mmr)@,
                *guest_output,
            ) && br.start_block() == start_block && br.end_block() == end_block
                && br.spec_new_mmr_state().elements_count() == guest_output.elements_count
                && br.spec_new_mmr_state().leaves_count() == guest_output.leaves_count
                && br.spec_new_mmr_state().latest_block_number() == end_block
                && br.spec_new_mmr_state().root_hash_view() == crate::mmr::spec_root_hash(
                guest_output.elements_count,
                crate::mmr::str_views(guest_output.final_peaks@),
            ) && crate::hex::is_u256_hex(br.spec_new_mmr_state().root_hash_view())
                && br.spec_proof() == Some(proof_value)),
    {
        if mmr.leaves_count() >= self.batch_size {
            return Ok(None);
        }
        if headers.len() == 0 {
            return Err(AccumulatorError::EmptyHeaders { start_block, end_block });
        }
        let new_state = match MMRStateManager::update_state(mmr, end_block, guest_output) {
            Ok(s) => s,
            Err(e) => {
                return Err(e);
            },
        };
        Ok(Some(BatchResult::new(start_block, end_block, new_state, Some(proof_value))))
    }
}

} // verus!
