//! The accumulator builder: it walks a block range batch by batch,
//! keeps the STARK recursion chain, and terminates it with exactly one
//! Groth16 proof on the final batch.

use vstd::prelude::*;

use crate::batch_processor::BatchProcessor;
use crate::bytes_util::clone_bytes;
use crate::errors::AccumulatorError;
use crate::guest::BatchProof;
use crate::guest::BlockHeader;
use crate::guest::GuestOutput;
use crate::mmr::clone_string_vec;
use crate::mmr::str_views;
use crate::mmr::Mmr;
use crate::state_manager::commit_accepts;
use crate::state_manager::commit_view;
use crate::types::BatchResult;
use crate::types::MmrState;
use crate::types::ProofType;

verus! {

/// What the outside collaborators hand back for one batch: the fetched
/// headers, the decoded guest journal, and the prover's artifacts.
pub struct BatchEvidence {
    pub headers: Vec<BlockHeader>,
    pub guest_output: GuestOutput,
    pub receipt: Vec<u8>,
    pub image_id: Vec<u8>,
    pub method_id: [u32; 8],
    pub calldata: Vec<String>,
}

/// The block range of step `i` of a walk that starts at `finalized` and
/// moves toward block 0 in steps of `batch_size`.
pub open spec fn spec_range(finalized: u64, batch_size: u64, i: nat) -> (u64, u64)
    decreases i,
{
    let e = if i == 0 {
        finalized
    } else {
        let prev = spec_range(finalized, batch_size, (i - 1) as nat);
        if prev.0 == 0 {
            0u64
        } else {
            (prev.0 - 1) as u64
        }
    };
    let s = if e > (batch_size - 1) as u64 {
        (e - ((batch_size - 1) as u64)) as u64
    } else {
        0u64
    };
    (s, e)
}

/// How many batches a walk starting at `end` runs: it stops after the
/// batch that reaches block 0, or at the cap.  A head that is an exact
/// multiple of the batch size thus ends in a final batch holding block 0
/// alone, so the plan of `finalized / batch_size + 1` batches always
/// covers the whole range down to genesis.
pub open spec fn run_len(end: u64, batch_size: u64, cap: nat) -> nat
    decreases cap,
{
    if cap == 0 {
        0
    } else {
        let s = if end > (batch_size - 1) as u64 {
            (end - ((batch_size - 1) as u64)) as u64
        } else {
            0u64
        };
        if s == 0 {
            1
        } else {
            1 + run_len((s - 1) as u64, batch_size, (cap - 1) as nat)
        }
    }
}


/// Step `k` of the downward walk: up to `finalized / batch_size` each
/// range ends at `finalized - k * batch_size`; full batches start one
/// whole batch higher, and the step at `finalized / batch_size` starts at
/// block 0.
proof fn lemma_walk_step(finalized: u64, batch_size: u64, k: nat)
    requires
        batch_size >= 1,
        k <= finalized / batch_size,
    ensures
        spec_range(finalized, batch_size, k).1 == finalized - k * batch_size,
        k < finalized / batch_size ==> spec_range(finalized, batch_size, k).0 == finalized - k
            * batch_size - (batch_size - 1),
        k == finalized / batch_size ==> spec_range(finalized, batch_size, k).0 == 0,
    decreases k,
{
    let q = finalized / batch_size;
    assert(finalized == batch_size * q + finalized % batch_size && 0 <= finalized % batch_size
        < batch_size) by (nonlinear_arith)
        requires
            batch_size >= 1,
            q == finalized / batch_size,
    ;
    if k == 0 {
        if q == 0 {
            assert(finalized < batch_size) by (nonlinear_arith)
                requires
                    finalized == batch_size * q + finalized % batch_size,
                    q == 0,
                    0 <= finalized % batch_size < batch_size,
            ;
        } else {
            assert(finalized >= batch_size) by (nonlinear_arith)
                requires
                    finalized == batch_size * q + finalized % batch_size,
                    finalized % batch_size >= 0,
                    q >= 1,
                    batch_size >= 1,
            ;
        }
    } else {
        lemma_walk_step(finalized, batch_size, (k - 1) as nat);
        assert(finalized - (k - 1) * batch_size >= batch_size) by (nonlinear_arith)
            requires
                finalized == batch_size * q + finalized % batch_size,
                finalized % batch_size >= 0,
                k <= q,
                k >= 1,
                batch_size >= 1,
        ;
        assert((k - 1) * batch_size + batch_size == k * batch_size) by (nonlinear_arith);
        if k < q {
            assert(finalized - k * batch_size >= batch_size) by (nonlinear_arith)
                requires
                    finalized == batch_size * q + finalized % batch_size,
                    finalized % batch_size >= 0,
                    k < q,
                    batch_size >= 1,
            ;
        } else {
            assert(finalized - k * batch_size == finalized % batch_size) by (nonlinear_arith)
                requires
                    finalized == batch_size * q + finalized % batch_size,
                    k == q,
            ;
        }
    }
}

/// The plan of `finalized / batch_size + 1` batches is exactly what the
/// walk runs.
proof fn lemma_run_len_full(finalized: u64, batch_size: u64)
    requires
        batch_size >= 1,
    ensures
        run_len(finalized, batch_size, (finalized / batch_size + 1) as nat) == finalized
            / batch_size + 1,
    decreases finalized,
{
    let q = finalized / batch_size;
    assert(finalized == batch_size * q + finalized % batch_size && 0 <= finalized % batch_size
        < batch_size) by (nonlinear_arith)
        requires
            batch_size >= 1,
            q == finalized / batch_size,
    ;
    if q == 0 {
        assert(finalized < batch_size) by (nonlinear_arith)
            requires
                finalized == batch_size * q + finalized % batch_size,
                q == 0,
                0 <= finalized % batch_size < batch_size,
        ;
    } else {
        assert(finalized >= batch_size) by (nonlinear_arith)
            requires
                finalized == batch_size * q + finalized % batch_size,
                finalized % batch_size >= 0,
                q >= 1,
                batch_size >= 1,
        ;
        assert((finalized - batch_size) as u64 / batch_size == q - 1) by (nonlinear_arith)
            requires
                finalized == batch_size * q + finalized % batch_size,
                0 <= finalized % batch_size < batch_size,
                q >= 1,
                batch_size >= 1,
                finalized >= batch_size,
        ;
        lemma_run_len_full((finalized - batch_size) as u64, batch_size);
    }
}

/// Coverage of the downward plan: a run of `finalized / batch_size + 1`
/// batches descends contiguously from the head and its final range starts
/// at block 0, so the ranges' union is the whole span down to genesis.
pub proof fn lemma_walk_covers(finalized: u64, batch_size: u64)
    requires
        batch_size >= 1,
    ensures
        run_len(finalized, batch_size, (finalized / batch_size + 1) as nat) == finalized
            / batch_size + 1,
        spec_range(finalized, batch_size, (finalized / batch_size) as nat).0 == 0,
        spec_range(finalized, batch_size, 0).1 == finalized,
        forall|k: nat|
            k < finalized / batch_size ==> (#[trigger] spec_range(finalized, batch_size, k)).0
                >= 1 && spec_range(finalized, batch_size, k + 1).1 == spec_range(
                finalized,
                batch_size,
                k,
            ).0 - 1,
{
    lemma_run_len_full(finalized, batch_size);
    lemma_walk_step(finalized, batch_size, (finalized / batch_size) as nat);
    let q = finalized / batch_size;
    assert(finalized == batch_size * q + finalized % batch_size && 0 <= finalized % batch_size
        < batch_size) by (nonlinear_arith)
        requires
            batch_size >= 1,
            q == finalized / batch_size,
    ;
    assert forall|k: nat| k < finalized / batch_size implies (#[trigger] spec_range(
        finalized,
        batch_size,
        k,
    )).0 >= 1 && spec_range(finalized, batch_size, k + 1).1 == spec_range(
        finalized,
        batch_size,
        k,
    ).0 - 1 by {
        lemma_walk_step(finalized, batch_size, k);
        lemma_walk_step(finalized, batch_size, k + 1);
        assert(finalized - k * batch_size >= batch_size) by (nonlinear_arith)
            requires
                finalized == batch_size * q + finalized % batch_size,
                finalized % batch_size >= 0,
                k < q,
                batch_size >= 1,
        ;
        assert(spec_range(finalized, batch_size, k).0 >= 1);
    }
}

/// Whether step `i` of a run of `total` batches takes the Groth16 wrap.
pub open spec fn is_groth16_turn(i: u64, total: u64) -> bool {
    i + 1 == total
}

/// Drives a sequence of batches, holding the recursion chain between
/// them.
pub struct AccumulatorBuilder {
    batch_size: u64,
    total_batches: u64,
    current_batch: u64,
    previous_proofs: Vec<BatchProof>,
    skip_proof_verification: bool,
}

impl AccumulatorBuilder {
    /// The fixed batch size.
    pub closed spec fn spec_batch_size(&self) -> u64 {
        self.batch_size
    }

    /// The number of batches the current run aims for.
    pub closed spec fn spec_total_batches(&self) -> u64 {
        self.total_batches
    }

    /// How many batches the current run has committed.
    pub closed spec fn spec_current_batch(&self) -> u64 {
        self.current_batch
    }

    /// The chained STARK proofs of the current run.
    pub closed spec fn spec_previous_proofs(&self) -> Seq<BatchProof> {
        self.previous_proofs@
    }

    /// Whether the host-side cross-checks are skipped.
    pub closed spec fn spec_skip_proof_verification(&self) -> bool {
        self.skip_proof_verification
    }

    /// A builder's batch size is positive.
    pub open spec fn wf(&self) -> bool {
        self.spec_batch_size() >= 1
    }

    /// A builder over a fixed batch size.  Rejects a zero batch size.
    pub fn new(batch_size: u64, skip_proof_verification: bool) -> (r: Result<
        AccumulatorBuilder,
        AccumulatorError,
    >)
        ensures
            batch_size == 0 ==> (r matches Err(AccumulatorError::InvalidInput(_))),
            batch_size >= 1 ==> (r matches Ok(b) && b.wf() && b.spec_batch_size() == batch_size
                && b.spec_skip_proof_verification() == skip_proof_verification
                && b.spec_total_batches() == 0 && b.spec_current_batch() == 0
                && b.spec_previous_proofs().len() == 0),
    {
        if batch_size == 0 {
            return Err(AccumulatorError::InvalidInput(String::from_str(
                "batch size must be greater than 0",
            )));
        }
        Ok(AccumulatorBuilder {
            batch_size,
            total_batches: 0,
            current_batch: 0,
            previous_proofs: Vec::new(),
            skip_proof_verification,
        })
    }

    /// The chained proofs accumulated so far.
    pub fn previous_proofs(&self) -> (r: &Vec<BatchProof>)
        ensures
            r@ == self.spec_previous_proofs(),
    {
        &self.previous_proofs
    }

    /// The proof flavour of one batch of the transcript.
    fn proof_for_step(ev: &BatchEvidence, groth: bool) -> (r: ProofType)
        ensures
            groth ==> (r matches ProofType::Groth16 { receipt, calldata } && receipt@
                == ev.receipt@ && str_views(calldata@) == str_views(ev.calldata@)),
            !groth ==> (r matches ProofType::Stark { receipt, image_id, method_id } && receipt@
                == ev.receipt@ && image_id@ == ev.image_id@ && method_id == ev.method_id),
    {
        if groth {
            ProofType::Groth16 {
                receipt: clone_bytes(&ev.receipt),
                calldata: clone_string_vec(&ev.calldata),
            }
        } else {
            ProofType::Stark {
                receipt: clone_bytes(&ev.receipt),
                image_id: clone_bytes(&ev.image_id),
                method_id: ev.method_id,
            }
        }
    }

    /// Runs the downward walk over the supplied transcript: one batch per
    /// evidence entry, STARKs chained into `previous_proofs`, the Groth16
    /// wrap exactly on the final batch of the plan.  A failed commit
    /// aborts the chain.
    fn run_batches(
        &mut self,
        num_batches: u64,
        finalized_block_number: u64,
        stores: Vec<Mmr>,
        evidence: &Vec<BatchEvidence>,
    ) -> (r: Result<(Vec<BatchResult>, Vec<Mmr>), AccumulatorError>)
        requires
            old(self).wf(),
            old(self).spec_total_batches() == num_batches,
            old(self).spec_current_batch() == 0,
            old(self).spec_previous_proofs().len() == 0,
            stores@.len() == evidence@.len(),
            evidence@.len() == run_len(
                finalized_block_number,
                old(self).spec_batch_size(),
                num_batches as nat,
            ),
            forall|i: int| 0 <= i < stores@.len() ==> (#[trigger] stores@[i]).wf(),
            forall|i: int|
                0 <= i < stores@.len() ==> (#[trigger] stores@[i])@.leaves < old(
                    self,
                ).spec_batch_size(),
        ensures
            final(self).wf(),
            final(self).spec_batch_size() == old(self).spec_batch_size(),
            r matches Ok(p) ==> ({
                let results = p.0;
                let out = p.1;
                &&& results@.len() == evidence@.len()
                &&& out@.len() == evidence@.len()
                &&& (forall|i: int|
                    0 <= i < results@.len() ==> (#[trigger] results@[i]).start_block()
                        == spec_range(
                        finalized_block_number,
                        old(self).spec_batch_size(),
                        i as nat,
                    ).0 && results@[i].end_block() == spec_range(
                        finalized_block_number,
                        old(self).spec_batch_size(),
                        i as nat,
                    ).1)
                &&& (forall|i: int|
                    0 <= i < results@.len() ==> ((#[trigger] results@[i]).spec_proof() matches
                    Some(p2) && ((p2 is Groth16) <==> is_groth16_turn(i as u64, num_batches))))
                &&& (forall|i: int|
                    0 <= i < results@.len() ==> commit_accepts(
                        (#[trigger] stores@[i])@,
                        evidence@[i].guest_output,
                    ) && out@[i]@ == commit_view(stores@[i]@, evidence@[i].guest_output))
                &&& (forall|i: int|
                    0 <= i < results@.len() ==> (#[trigger] results@[i]).spec_new_mmr_state(
                    ).root_hash_view() == crate::mmr::spec_root_hash(
                        evidence@[i].guest_output.elements_count,
                        str_views(evidence@[i].guest_output.final_peaks@),
                    ))
                &&& final(self).spec_current_batch() == results@.len()
                &&& final(self).spec_previous_proofs().len() == (
                if evidence@.len() == num_batches && num_batches > 0 {
                    evidence@.len() - 1
                } else {
                    evidence@.len() as int
                })
                &&& ({
                    let chain = final(self).spec_previous_proofs();
                    forall|j: int|
                        0 <= j < chain.len() ==> (#[trigger] chain[j]).receipt@
                            == evidence@[j].receipt@ && chain[j].image_id@
                            == evidence@[j].image_id@ && chain[j].method_id
                            == evidence@[j].method_id
                })
            }),
            (forall|i: int|
                0 <= i < evidence@.len() ==> commit_accepts(
                    (#[trigger] stores@[i])@,
                    evidence@[i].guest_output,
                ) && evidence@[i].headers@.len() > 0) ==> r is Ok,
    {
        let processor = match BatchProcessor::new(self.batch_size, self.skip_proof_verification) {
            Ok(p) => p,
            Err(e) => {
                proof {
                    assert(false);
                }
                return Err(e);
            },
        };
        let ghost bs = self.batch_size;
        let ghost n_steps = evidence@.len();
        let ghost stores0 = stores@;
        let mut store_list = stores;
        let mut results: Vec<BatchResult> = Vec::new();
        let mut out: Vec<Mmr> = Vec::new();
        let mut current_end: u64 = finalized_block_number;
        let mut k: usize = 0;
        while k < evidence.len()
            invariant
                self.wf(),
                self.batch_size == bs,
                bs == old(self).spec_batch_size(),
                self.total_batches == num_batches,
                processor.wf(),
                processor.spec_batch_size() == bs,
                n_steps == evidence@.len(),
                stores0 == stores@,
                stores0.len() == n_steps,
                k <= n_steps,
                store_list@.len() == n_steps - k,
                forall|i: int| 0 <= i < store_list@.len() ==> store_list@[i] == stores0[k + i],
                forall|i: int| 0 <= i < stores0.len() ==> (#[trigger] stores0[i]).wf(),
                forall|i: int| 0 <= i < stores0.len() ==> (#[trigger] stores0[i])@.leaves < bs,
                results@.len() == k,
                out@.len() == k,
                self.current_batch == k,
                self.previous_proofs@.len() == (if k == num_batches && k > 0 {
                    k - 1
                } else {
                    k as int
                }),
                n_steps == run_len(finalized_block_number, bs, num_batches as nat),
                k < n_steps ==> k + run_len(current_end, bs, (num_batches - k) as nat)
                    == n_steps,
                k < n_steps ==> current_end == spec_range(
                    finalized_block_number,
                    bs,
                    k as nat,
                ).1,
                k <= num_batches,
                forall|j: int|
                    0 <= j < self.previous_proofs@.len() ==> (
                    #[trigger] self.previous_proofs@[j]).receipt@ == evidence@[j].receipt@
                        && self.previous_proofs@[j].image_id@ == evidence@[j].image_id@
                        && self.previous_proofs@[j].method_id == evidence@[j].method_id,
                forall|i: int|
                    0 <= i < k ==> (#[trigger] results@[i]).start_block() == spec_range(
                        finalized_block_number,
                        bs,
                        i as nat,
                    ).0 && results@[i].end_block() == spec_range(
                        finalized_block_number,
                        bs,
                        i as nat,
                    ).1,
                forall|i: int|
                    0 <= i < k ==> ((#[trigger] results@[i]).spec_proof() matches Some(p2) && (
                    (p2 is Groth16) <==> is_groth16_turn(i as u64, num_batches))),
                forall|i: int|
                    0 <= i < k ==> commit_accepts(
                        (#[trigger] stores0[i])@,
                        evidence@[i].guest_output,
                    ) && out@[i]@ == commit_view(stores0[i]@, evidence@[i].guest_output),
                forall|i: int|
                    0 <= i < k ==> (#[trigger] results@[i]).spec_new_mmr_state(
                    ).root_hash_view() == crate::mmr::spec_root_hash(
                        evidence@[i].guest_output.elements_count,
                        str_views(evidence@[i].guest_output.final_peaks@),
                    ),
            decreases n_steps - k,
        {
            let ghost ce0 = current_end;
            let ghost k0 = k;
            let start_block = if current_end > self.batch_size - 1 {
                current_end - (self.batch_size - 1)
            } else {
                0
            };
            let groth = self.current_batch + 1 == self.total_batches;
            let ev = &evidence[k];
            let proof_value = Self::proof_for_step(ev, groth);
            let mut store = store_list.remove(0);
            proof {
                assert(store == stores0[k as int]);
            }
            let outcome = processor.process_batch(
                &mut store,
                start_block,
                current_end,
                &ev.headers,
                &ev.guest_output,
                proof_value,
            );
            let br = match outcome {
                Ok(Some(b)) => b,
                Ok(None) => {
                    proof {
                        assert(false);
                    }
                    return Err(AccumulatorError::InvalidStateTransition);
                },
                Err(e) => {
                    proof {
                        assert(stores0[k as int]@.leaves < bs);
                        assert(!(commit_accepts(
                            stores0[k as int]@,
                            evidence@[k as int].guest_output,
                        ) && evidence@[k as int].headers@.len() > 0));
                    }
                    return Err(e);
                },
            };
            if !groth {
                self.previous_proofs.push(
                    BatchProof::new(clone_bytes(&ev.receipt), clone_bytes(&ev.image_id), ev.method_id),
                );
            }
            self.current_batch = self.current_batch + 1;
            results.push(br);
            out.push(store);
            proof {
                assert(forall|i: int|
                    0 <= i < store_list@.len() ==> store_list@[i] == stores0[k + 1 + i]);
            }
            current_end = if start_block == 0 {
                0
            } else {
                start_block - 1
            };
            k = k + 1;
            proof {
                if start_block == 0 {
                    assert(run_len(ce0, bs, (num_batches - k0) as nat) == 1);
                    assert(k == n_steps);
                } else {
                    assert(run_len(ce0, bs, (num_batches - k0) as nat) == 1 + run_len(
                        current_end,
                        bs,
                        (num_batches - k) as nat,
                    ));
                }
            }
        }
        Ok((results, out))
    }

    /// Builds the MMR over a fixed number of batches, walking down from
    /// the finalized head; the transcript supplies each batch's headers
    /// and prover answers.
    pub fn build_with_num_batches(
        &mut self,
        num_batches: u64,
        finalized_block_number: u64,
        stores: Vec<Mmr>,
        evidence: &Vec<BatchEvidence>,
    ) -> (r: Result<(Vec<BatchResult>, Vec<Mmr>), AccumulatorError>)
        requires
            old(self).wf(),
            stores@.len() == evidence@.len(),
            evidence@.len() == run_len(
                finalized_block_number,
                old(self).spec_batch_size(),
                num_batches as nat,
            ),
            forall|i: int| 0 <= i < stores@.len() ==> (#[trigger] stores@[i]).wf(),
            forall|i: int|
                0 <= i < stores@.len() ==> (#[trigger] stores@[i])@.leaves < old(
                    self,
                ).spec_batch_size(),
        ensures
            final(self).wf(),
            r matches Ok(p) ==> ({
                &&& p.0@.len() == evidence@.len()
                &&& (forall|i: int|
                    0 <= i < p.0@.len() ==> ((#[trigger] p.0@[i]).spec_proof() matches Some(p2)
                        && ((p2 is Groth16) <==> is_groth16_turn(i as u64, num_batches))))
                &&& (forall|i: int|
                    0 <= i < p.0@.len() ==> (#[trigger] p.0@[i]).start_block() == spec_range(
                        finalized_block_number,
                        old(self).spec_batch_size(),
                        i as nat,
                    ).0 && p.0@[i].end_block() == spec_range(
                        finalized_block_number,
                        old(self).spec_batch_size(),
                        i as nat,
                    ).1)
                &&& (forall|i: int|
                    0 <= i < p.0@.len() ==> commit_accepts(
                        (#[trigger] stores@[i])@,
                        evidence@[i].guest_output,
                    ) && p.1@[i]@ == commit_view(stores@[i]@, evidence@[i].guest_output))
                &&& ({
                    let chain = final(self).spec_previous_proofs();
                    forall|j: int|
                        0 <= j < chain.len() ==> (#[trigger] chain[j]).receipt@
                            == evidence@[j].receipt@ && chain[j].image_id@
                            == evidence@[j].image_id@ && chain[j].method_id
                            == evidence@[j].method_id
                })
                &&& final(self).spec_previous_proofs().len() == (
                if evidence@.len() == num_batches && num_batches > 0 {
                    evidence@.len() - 1
                } else {
                    evidence@.len() as int
                })
            }),
            (forall|i: int|
                0 <= i < evidence@.len() ==> commit_accepts(
                    (#[trigger] stores@[i])@,
                    evidence@[i].guest_output,
                ) && evidence@[i].headers@.len() > 0) ==> r is Ok,
    {
        self.total_batches = num_batches;
        self.current_batch = 0;
        self.previous_proofs = Vec::new();
        self.run_batches(num_batches, finalized_block_number, stores, evidence)
    }

    /// Builds the MMR from the finalized head down to block 0: the plan
    /// covers `finalized / batch_size + 1` batches.
    pub fn build_from_finalized(
        &mut self,
        finalized_block_number: u64,
        stores: Vec<Mmr>,
        evidence: &Vec<BatchEvidence>,
    ) -> (r: Result<(Vec<BatchResult>, Vec<Mmr>), AccumulatorError>)
        requires
            old(self).wf(),
            finalized_block_number < u64::MAX,
            stores@.len() == evidence@.len(),
            evidence@.len() == run_len(
                finalized_block_number,
                old(self).spec_batch_size(),
                (finalized_block_number / old(self).spec_batch_size() + 1) as nat,
            ),
            forall|i: int| 0 <= i < stores@.len() ==> (#[trigger] stores@[i]).wf(),
            forall|i: int|
                0 <= i < stores@.len() ==> (#[trigger] stores@[i])@.leaves < old(
                    self,
                ).spec_batch_size(),
        ensures
            final(self).wf(),
            r matches Ok(p) ==> ({
                let total = finalized_block_number / old(self).spec_batch_size() + 1;
                let bs = old(self).spec_batch_size();
                &&& p.0@.len() == evidence@.len()
                &&& evidence@.len() == total
                &&& (forall|i: int|
                    0 <= i < p.0@.len() ==> ((#[trigger] p.0@[i]).spec_proof() matches Some(p2)
                        && ((p2 is Groth16) <==> i + 1 == total)))
                &&& (forall|i: int|
                    0 <= i < p.0@.len() ==> (#[trigger] p.0@[i]).start_block() == spec_range(
                        finalized_block_number,
                        bs,
                        i as nat,
                    ).0 && p.0@[i].end_block() == spec_range(
                        finalized_block_number,
                        bs,
                        i as nat,
                    ).1)
                &&& p.0@[0].end_block() == finalized_block_number
                &&& p.0@[p.0@.len() - 1].start_block() == 0
                &&& (forall|i: int|
                    0 <= i < p.0@.len() - 1 ==> (#[trigger] p.0@[i + 1]).end_block() == p.0@[
                    i].start_block() - 1)
                &&& (forall|i: int|
                    0 <= i < p.0@.len() ==> commit_accepts(
                        (#[trigger] stores@[i])@,
                        evidence@[i].guest_output,
                    ) && p.1@[i]@ == commit_view(stores@[i]@, evidence@[i].guest_output))
                &&& ({
                    let chain = final(self).spec_previous_proofs();
                    &&& chain.len() == total - 1
                    &&& forall|j: int|
                        0 <= j < chain.len() ==> (#[trigger] chain[j]).receipt@
                            == evidence@[j].receipt@ && chain[j].image_id@
                            == evidence@[j].image_id@ && chain[j].method_id
                            == evidence@[j].method_id
                })
            }),
            (forall|i: int|
                0 <= i < evidence@.len() ==> commit_accepts(
                    (#[trigger] stores@[i])@,
                    evidence@[i].guest_output,
                ) && evidence@[i].headers@.len() > 0) ==> r is Ok,
    {
        let total = finalized_block_number / self.batch_size + 1;
        proof {
            lemma_walk_covers(finalized_block_number, self.batch_size);
        }
        self.total_batches = total;
        self.current_batch = 0;
        self.previous_proofs = Vec::new();
        self.run_batches(total, finalized_block_number, stores, evidence)
    }

    /// Updates one batch MMR with new headers; the single batch must wrap
    /// in Groth16, whose calldata is returned with the committed state.
    pub fn update_mmr_with_new_headers(
        &mut self,
        mmr: &mut Mmr,
        start_block: u64,
        end_block: u64,
        evidence: &BatchEvidence,
    ) -> (r: Result<(Vec<String>, MmrState), AccumulatorError>)
        requires
            old(self).wf(),
            old(mmr).wf(),
            old(mmr)@.leaves < old(self).spec_batch_size(),
            start_block <= end_block,
            end_block - start_block < u64::MAX,
        ensures
            final(self).wf(),
            final(mmr).wf(),
            (end_block - start_block) / (old(self).spec_batch_size() as int) + 1 != 1 ==> (
            r matches Err(
                AccumulatorError::ExpectedGroth16Proof,
            )),
            (end_block - start_block) < old(self).spec_batch_size() && evidence.headers@.len()
                > 0 && commit_accepts(old(mmr)@, evidence.guest_output) ==> (r matches Ok(p)
                && str_views(p.0@) == str_views(evidence.calldata@) && final(mmr)@ == commit_view(
                old(mmr)@,
                evidence.guest_output,
            ) && p.1.elements_count() == evidence.guest_output.elements_count
                && p.1.leaves_count() == evidence.guest_output.leaves_count
                && p.1.latest_block_number() == end_block && p.1.root_hash_view()
                == crate::mmr::spec_root_hash(
                evidence.guest_output.elements_count,
                str_views(evidence.guest_output.final_peaks@),
            )),
    {
        let total = (end_block - start_block) / self.batch_size + 1;
        self.total_batches = total;
        self.current_batch = 0;
        if total != 1 {
            proof {
                assert((end_block - start_block) < self.batch_size ==> (end_block - start_block)
                    / (self.batch_size as int) == 0) by (nonlinear_arith)
                    requires
                        self.batch_size >= 1,
                        end_block >= start_block,
                ;
            }
            return Err(AccumulatorError::ExpectedGroth16Proof);
        }
        let processor = match BatchProcessor::new(self.batch_size, self.skip_proof_verification) {
            Ok(p) => p,
            Err(e) => {
                proof {
                    assert(false);
                }
                return Err(e);
            },
        };
        let proof_value = Self::proof_for_step(evidence, true);
        let outcome = processor.process_batch(
            mmr,
            start_block,
            end_block,
            &evidence.headers,
            &evidence.guest_output,
            proof_value,
        );
        let br = match outcome {
            Ok(Some(b)) => b,
            Ok(None) => {
                proof {
                    assert(false);
                }
                return Err(AccumulatorError::InvalidStateTransition);
            },
            Err(e) => {
                return Err(e);
            },
        };
        self.current_batch = 1;
        let state = br.new_mmr_state();
        let root = state.root_hash().clone();
        let ms = MmrState::new(
            br.new_mmr_state().latest_block_number(),
            root,
            br.new_mmr_state().elements_count(),
            br.new_mmr_state().leaves_count(),
        );
        match br.proof_type() {
            Some(ProofType::Groth16 { receipt: _, calldata }) => Ok(
                (clone_string_vec(calldata), ms),
            ),
            _ => Err(AccumulatorError::ExpectedGroth16Proof),
        }
    }
}

} // verus!
