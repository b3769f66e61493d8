//! The batch pipeline end to end: commits, idempotence, the proof chain,
//! and the validator.

use fossil_mmr::accumulator::AccumulatorBuilder;
use fossil_mmr::accumulator::BatchEvidence;
use fossil_mmr::batch_processor::BatchProcessor;
use fossil_mmr::errors::AccumulatorError;
use fossil_mmr::errors::MmrError;
use fossil_mmr::errors::ValidatorError;
use fossil_mmr::guest::BlockHeader;
use fossil_mmr::guest::GuestAppendResult;
use fossil_mmr::guest::GuestOutput;
use fossil_mmr::mmr::Mmr;
use fossil_mmr::types::ProofType;
use fossil_mmr::validator::ValidatorBuilder;

fn leaf(i: u64) -> String {
    format!("0x{:02x}", i)
}

fn headers_for(numbers: &[u64]) -> Vec<BlockHeader> {
    numbers
        .iter()
        .map(|n| BlockHeader {
            number: *n,
            block_hash: leaf(*n + 1),
        })
        .collect()
}

/// Emulates the guest: appends all leaves (pre-state plus new ones) to a
/// scratch MMR and reads off the journal fields.
fn emulate_guest(all_leaves: &[String]) -> GuestOutput {
    let mut scratch = Mmr::new();
    for h in all_leaves {
        scratch.append(h.clone()).unwrap();
    }
    let elements = scratch.elements_count();
    let leaves = scratch.leaves_count();
    let final_peaks = scratch.get_peaks();
    let mut all_hashes: Vec<(u64, String)> = vec![];
    for i in 1..=elements {
        all_hashes.push((i, scratch.get_value_for_element_index(i).unwrap()));
    }
    let bag = scratch.bag_the_peaks();
    let root = scratch.calculate_root_hash(&bag, elements).unwrap();
    GuestOutput::new(
        final_peaks,
        elements,
        leaves,
        Vec::<GuestAppendResult>::new(),
        root,
        all_hashes,
    )
}

fn dummy_stark() -> ProofType {
    ProofType::Stark {
        receipt: vec![1, 2, 3],
        image_id: vec![9, 9],
        method_id: [0; 8],
    }
}

fn evidence_for(numbers: &[u64], pre_leaves: &[String]) -> BatchEvidence {
    let headers = headers_for(numbers);
    let mut all: Vec<String> = pre_leaves.to_vec();
    for h in &headers {
        all.push(h.block_hash.clone());
    }
    BatchEvidence {
        headers,
        guest_output: emulate_guest(&all),
        receipt: vec![7],
        image_id: vec![8],
        method_id: [1; 8],
        calldata: vec![leaf(100), leaf(101)],
    }
}

#[test]
fn test_commit_full_batch() {
    // Four headers, empty pre-state: 4 leaves, 7 elements, one peak.
    let processor = BatchProcessor::new(4, false).unwrap();
    let mut mmr = Mmr::new();
    let headers = headers_for(&[0, 1, 2, 3]);
    let go = emulate_guest(&[leaf(1), leaf(2), leaf(3), leaf(4)]);
    let br = processor
        .process_batch(&mut mmr, 0, 3, &headers, &go, dummy_stark())
        .unwrap()
        .unwrap();
    assert_eq!(mmr.leaves_count(), 4);
    assert_eq!(mmr.elements_count(), 7);
    assert_eq!(mmr.get_peaks().len(), 1);
    assert_eq!(br.start_block(), 0);
    assert_eq!(br.end_block(), 3);

    // The batch is complete: processing again touches nothing.
    let again = processor
        .process_batch(&mut mmr, 0, 3, &headers, &go, dummy_stark())
        .unwrap();
    assert!(again.is_none());
    assert_eq!(mmr.elements_count(), 7);
}

#[test]
fn test_commit_incremental() {
    // Append two leaves, then one more through a second commit.
    let processor = BatchProcessor::new(4, false).unwrap();
    let mut mmr = Mmr::new();

    let first = headers_for(&[0, 1]);
    let go1 = emulate_guest(&[leaf(1), leaf(2)]);
    processor
        .process_batch(&mut mmr, 0, 1, &first, &go1, dummy_stark())
        .unwrap()
        .unwrap();
    assert_eq!(mmr.leaves_count(), 2);
    assert_eq!(mmr.elements_count(), 3);

    let second = headers_for(&[2]);
    let go2 = emulate_guest(&[leaf(1), leaf(2), leaf(3)]);
    processor
        .process_batch(&mut mmr, 2, 2, &second, &go2, dummy_stark())
        .unwrap()
        .unwrap();
    assert_eq!(mmr.leaves_count(), 3);
    assert_eq!(mmr.elements_count(), 4);
    assert_eq!(mmr.get_peaks().len(), 2);
}

#[test]
fn test_commit_rejects_shrinking_counters() {
    // A guest count one below the current one is an invalid transition,
    // and the MMR stays untouched.
    let processor = BatchProcessor::new(8, false).unwrap();
    let mut mmr = Mmr::new();
    let headers = headers_for(&[0, 1, 2]);
    let go = emulate_guest(&[leaf(1), leaf(2), leaf(3)]);
    processor
        .process_batch(&mut mmr, 0, 2, &headers, &go, dummy_stark())
        .unwrap()
        .unwrap();
    let root_before = {
        let bag = mmr.bag_the_peaks();
        mmr.calculate_root_hash(&bag, mmr.elements_count()).unwrap()
    };

    let bad = GuestOutput::new(
        mmr.get_peaks(),
        mmr.elements_count() - 1,
        mmr.leaves_count(),
        Vec::<GuestAppendResult>::new(),
        root_before.clone(),
        vec![],
    );
    let next = headers_for(&[3]);
    let outcome = processor.process_batch(&mut mmr, 3, 3, &next, &bad, dummy_stark());
    assert!(matches!(
        outcome,
        Err(AccumulatorError::InvalidStateTransition)
    ));
    assert_eq!(mmr.elements_count(), 4);
    assert_eq!(mmr.leaves_count(), 3);
    let root_after = {
        let bag = mmr.bag_the_peaks();
        mmr.calculate_root_hash(&bag, mmr.elements_count()).unwrap()
    };
    assert_eq!(root_before, root_after);
}

#[test]
fn test_commit_rejects_wrong_peaks() {
    let processor = BatchProcessor::new(4, false).unwrap();
    let mut mmr = Mmr::new();
    let headers = headers_for(&[0, 1]);
    let mut go = emulate_guest(&[leaf(1), leaf(2)]);
    go.final_peaks[0] = leaf(99);
    let outcome = processor.process_batch(&mut mmr, 0, 1, &headers, &go, dummy_stark());
    assert!(matches!(
        outcome,
        Err(AccumulatorError::PeaksVerificationError)
    ));
    assert_eq!(mmr.elements_count(), 0);
}

#[test]
fn test_chain_discipline_three_batches() {
    // Three batches down from finalized 11 with batch size 4: ranges
    // [8,11], [4,7], [0,3]; two STARKs then one Groth16.
    let mut builder = AccumulatorBuilder::new(4, false).unwrap();
    let stores = vec![Mmr::new(), Mmr::new(), Mmr::new()];
    let evidence = vec![
        evidence_for(&[8, 9, 10, 11], &[]),
        evidence_for(&[4, 5, 6, 7], &[]),
        evidence_for(&[0, 1, 2, 3], &[]),
    ];
    let (results, out) = builder
        .build_with_num_batches(3, 11, stores, &evidence)
        .unwrap();
    assert_eq!(results.len(), 3);
    assert_eq!(out.len(), 3);
    assert_eq!(results[0].start_block(), 8);
    assert_eq!(results[0].end_block(), 11);
    assert_eq!(results[1].start_block(), 4);
    assert_eq!(results[1].end_block(), 7);
    assert_eq!(results[2].start_block(), 0);
    assert_eq!(results[2].end_block(), 3);
    assert!(matches!(
        results[0].proof_type(),
        Some(ProofType::Stark { .. })
    ));
    assert!(matches!(
        results[1].proof_type(),
        Some(ProofType::Stark { .. })
    ));
    assert!(matches!(
        results[2].proof_type(),
        Some(ProofType::Groth16 { .. })
    ));
    // The two STARKs entered the recursion chain.
    assert_eq!(builder.previous_proofs().len(), 2);
    // Each store committed its batch.
    for m in &out {
        assert_eq!(m.leaves_count(), 4);
        assert_eq!(m.elements_count(), 7);
    }
}

#[test]
fn test_build_from_finalized_covers_genesis() {
    // A head that is an exact multiple of the batch size still reaches
    // block 0: finalized 4 with batch size 2 plans 3 batches, the last
    // holding block 0 alone and wrapping in Groth16.
    let mut builder = AccumulatorBuilder::new(2, false).unwrap();
    let stores = vec![Mmr::new(), Mmr::new(), Mmr::new()];
    let evidence = vec![
        evidence_for(&[3, 4], &[]),
        evidence_for(&[1, 2], &[]),
        evidence_for(&[0], &[]),
    ];
    let (results, _) = builder.build_from_finalized(4, stores, &evidence).unwrap();
    assert_eq!(results.len(), 3);
    assert_eq!(results[0].start_block(), 3);
    assert_eq!(results[0].end_block(), 4);
    assert_eq!(results[1].start_block(), 1);
    assert_eq!(results[1].end_block(), 2);
    assert_eq!(results[2].start_block(), 0);
    assert_eq!(results[2].end_block(), 0);
    assert!(matches!(
        results[2].proof_type(),
        Some(ProofType::Groth16 { .. })
    ));
    assert_eq!(builder.previous_proofs().len(), 2);
}

#[test]
fn test_build_from_finalized_plan() {
    // Finalized 7 with batch size 4 plans 2 batches, the last Groth16.
    let mut builder = AccumulatorBuilder::new(4, false).unwrap();
    let stores = vec![Mmr::new(), Mmr::new()];
    let evidence = vec![
        evidence_for(&[4, 5, 6, 7], &[]),
        evidence_for(&[0, 1, 2, 3], &[]),
    ];
    let (results, _) = builder.build_from_finalized(7, stores, &evidence).unwrap();
    assert_eq!(results.len(), 2);
    assert!(matches!(
        results[0].proof_type(),
        Some(ProofType::Stark { .. })
    ));
    assert!(matches!(
        results[1].proof_type(),
        Some(ProofType::Groth16 { .. })
    ));
}

#[test]
fn test_update_mmr_with_new_headers_returns_calldata() {
    let mut builder = AccumulatorBuilder::new(8, false).unwrap();
    let mut mmr = Mmr::new();
    let ev = evidence_for(&[0, 1, 2], &[]);
    let (calldata, state) = builder
        .update_mmr_with_new_headers(&mut mmr, 0, 2, &ev)
        .unwrap();
    assert_eq!(calldata, vec![leaf(100), leaf(101)]);
    assert_eq!(state.latest_block_number(), 2);
    assert_eq!(state.elements_count(), 4);
    assert_eq!(state.leaves_count(), 3);
    assert_eq!(mmr.leaves_count(), 3);
}

#[test]
fn test_update_mmr_rejects_multi_batch_range() {
    // A range wider than one batch cannot produce the terminal Groth16.
    let mut builder = AccumulatorBuilder::new(2, false).unwrap();
    let mut mmr = Mmr::new();
    let ev = evidence_for(&[0, 1, 2, 3], &[]);
    let outcome = builder.update_mmr_with_new_headers(&mut mmr, 0, 3, &ev);
    assert!(matches!(
        outcome,
        Err(AccumulatorError::ExpectedGroth16Proof)
    ));
}

/// Builds one committed batch MMR over the block numbers.
fn committed_batch(numbers: &[u64]) -> Mmr {
    let mut mmr = Mmr::new();
    for h in headers_for(numbers) {
        mmr.append(h.block_hash).unwrap();
    }
    mmr
}

fn onchain_root_of(mmr: &Mmr) -> String {
    let bag = mmr.bag_the_peaks();
    mmr.calculate_root_hash(&bag, mmr.elements_count()).unwrap()
}

#[test]
fn test_validator_two_batches() {
    // Headers spanning two batches yield two validator-guest inputs.
    let validator = ValidatorBuilder::new(1, 4, false).unwrap();
    let m0 = committed_batch(&[0, 1, 2, 3]);
    let m1 = committed_batch(&[4, 5, 6, 7]);
    let roots = vec![(0u64, onchain_root_of(&m0)), (1u64, onchain_root_of(&m1))];
    let mmrs = vec![(0u64, m0), (1u64, m1)];
    let headers = headers_for(&[2, 5]);
    let inputs = validator
        .validate_blocks_and_extract_fees(&headers, &mmrs, &roots)
        .unwrap();
    assert_eq!(inputs.len(), 2);
    assert_eq!(inputs[0].chain_id, 1);
    assert_eq!(inputs[0].headers.len(), 1);
    assert_eq!(inputs[0].proofs.len(), 1);
    assert_eq!(inputs[1].headers.len(), 1);
    assert_eq!(inputs[1].proofs.len(), 1);
}

#[test]
fn test_validator_rejects_wrong_onchain_root() {
    // A mismatching on-chain root fails the whole run; no inputs come out.
    let validator = ValidatorBuilder::new(1, 4, false).unwrap();
    let m0 = committed_batch(&[0, 1, 2, 3]);
    let m1 = committed_batch(&[4, 5, 6, 7]);
    let roots = vec![(0u64, onchain_root_of(&m0)), (1u64, leaf(99))];
    let mmrs = vec![(0u64, m0), (1u64, m1)];
    let headers = headers_for(&[2, 5]);
    let outcome = validator.validate_blocks_and_extract_fees(&headers, &mmrs, &roots);
    assert!(matches!(
        outcome,
        Err(ValidatorError::InvalidMmrRoot { .. })
    ));
}

#[test]
fn test_validator_skip_proof_ignores_roots() {
    let validator = ValidatorBuilder::new(1, 4, true).unwrap();
    let m0 = committed_batch(&[0, 1, 2, 3]);
    let roots = vec![(0u64, leaf(99))];
    let mmrs = vec![(0u64, m0)];
    let headers = headers_for(&[1]);
    let inputs = validator
        .validate_blocks_and_extract_fees(&headers, &mmrs, &roots)
        .unwrap();
    assert_eq!(inputs.len(), 1);
}

#[test]
fn test_validator_missing_element_index() {
    // A corrupted hash-to-index mapping fails with the missing hash and
    // produces no inputs.
    let validator = ValidatorBuilder::new(1, 4, true).unwrap();
    let mut m0 = committed_batch(&[0, 1, 2, 3]);
    let corrupted = leaf(2);
    m0.delete_value_index_mapping(&corrupted);
    let roots = vec![(0u64, onchain_root_of(&m0))];
    let mmrs = vec![(0u64, m0)];
    let headers = headers_for(&[0, 1]);
    let outcome = validator.validate_blocks_and_extract_fees(&headers, &mmrs, &roots);
    match outcome {
        Err(ValidatorError::MissingElementIndex { block_hash }) => {
            assert_eq!(block_hash, corrupted);
        }
        other => panic!("unexpected outcome: {:?}", other.is_ok()),
    }
}

#[test]
fn test_validator_rejects_empty_headers() {
    let validator = ValidatorBuilder::new(1, 4, true).unwrap();
    let outcome = validator.validate_blocks_and_extract_fees(&vec![], &vec![], &vec![]);
    assert!(matches!(outcome, Err(ValidatorError::EmptyHeaders)));
}

#[test]
fn test_validator_missing_batch_mmr() {
    let validator = ValidatorBuilder::new(1, 4, true).unwrap();
    let m0 = committed_batch(&[0, 1, 2, 3]);
    let mmrs = vec![(0u64, m0)];
    let headers = headers_for(&[6]);
    let outcome = validator.validate_blocks_and_extract_fees(&headers, &mmrs, &vec![]);
    assert!(matches!(
        outcome,
        Err(ValidatorError::MissingBatchMmr { batch_index: 1 })
    ));
}

#[test]
fn test_journal_round_trip() {
    // Encoding a guest output and decoding the journal gives it back.
    let go = emulate_guest(&[leaf(1), leaf(2), leaf(3)]);
    let bytes = fossil_mmr::journal::encode_guest_output(&go).unwrap();
    let back = fossil_mmr::journal::decode_journal(&bytes).unwrap();
    assert_eq!(back.final_peaks, go.final_peaks);
    assert_eq!(back.elements_count, go.elements_count);
    assert_eq!(back.leaves_count, go.leaves_count);
    assert_eq!(back.root_hash, go.root_hash);
    assert_eq!(back.all_hashes, go.all_hashes);
    // And the decode is canonical: re-encoding gives the same bytes.
    let again = fossil_mmr::journal::encode_guest_output(&back).unwrap();
    assert_eq!(again, bytes);
}

#[test]
fn test_journal_rejects_malformed_bytes() {
    // Truncated input.
    assert!(fossil_mmr::journal::decode_journal(&vec![1, 2, 3]).is_err());
    // A journal with trailing garbage is not canonical.
    let go = emulate_guest(&[leaf(1)]);
    let mut bytes = fossil_mmr::journal::encode_guest_output(&go).unwrap();
    bytes.push(0);
    assert!(fossil_mmr::journal::decode_journal(&bytes).is_err());
    // A byte outside the alphabet where a hash is expected.
    let mut corrupt = fossil_mmr::journal::encode_guest_output(&go).unwrap();
    let last = corrupt.len() - 1;
    corrupt[last] = 0xff;
    assert!(fossil_mmr::journal::decode_journal(&corrupt).is_err());
}

#[test]
fn test_journal_rejects_non_alphabet_string() {
    // An uppercase hash cannot be encoded.
    let mut go = emulate_guest(&[leaf(1)]);
    go.root_hash = "0xFF".to_string();
    assert!(fossil_mmr::journal::encode_guest_output(&go).is_err());
}

#[test]
fn test_empty_header_range_rejected() {
    let processor = BatchProcessor::new(4, false).unwrap();
    let mut mmr = Mmr::new();
    let go = emulate_guest(&[leaf(1)]);
    let outcome = processor.process_batch(&mut mmr, 5, 4, &vec![], &go, dummy_stark());
    match outcome {
        Err(AccumulatorError::EmptyHeaders {
            start_block,
            end_block,
        }) => {
            assert_eq!(start_block, 5);
            assert_eq!(end_block, 4);
        }
        other => panic!("unexpected outcome: {:?}", other.is_ok()),
    }
}

#[test]
fn test_zero_batch_size_rejected() {
    assert!(matches!(
        BatchProcessor::new(0, false),
        Err(AccumulatorError::InvalidInput(_))
    ));
    assert!(matches!(
        AccumulatorBuilder::new(0, false),
        Err(AccumulatorError::InvalidInput(_))
    ));
    assert!(matches!(
        ValidatorBuilder::new(1, 0, false),
        Err(ValidatorError::InvalidInput(_))
    ));
}

#[test]
fn test_validator_missing_onchain_root() {
    let validator = ValidatorBuilder::new(1, 4, false).unwrap();
    let m0 = committed_batch(&[0, 1, 2, 3]);
    let mmrs = vec![(0u64, m0)];
    let headers = headers_for(&[1]);
    let outcome = validator.validate_blocks_and_extract_fees(&headers, &mmrs, &vec![]);
    assert!(matches!(
        outcome,
        Err(ValidatorError::MissingOnchainRoot { batch_index: 0 })
    ));
}

#[test]
fn test_proof_fails_on_missing_sibling() {
    // A guest output may omit interior nodes; the peaks still verify, but
    // a proof that needs the missing sibling reports the gap.
    let mut scratch = Mmr::new();
    scratch.append(leaf(1)).unwrap();
    scratch.append(leaf(2)).unwrap();
    let sparse = GuestOutput::new(
        scratch.get_peaks(),
        scratch.elements_count(),
        scratch.leaves_count(),
        Vec::<GuestAppendResult>::new(),
        {
            let bag = scratch.bag_the_peaks();
            scratch
                .calculate_root_hash(&bag, scratch.elements_count())
                .unwrap()
        },
        vec![
            (2, scratch.get_value_for_element_index(2).unwrap()),
            (3, scratch.get_value_for_element_index(3).unwrap()),
        ],
    );
    let processor = BatchProcessor::new(4, false).unwrap();
    let mut mmr = Mmr::new();
    let headers = headers_for(&[0, 1]);
    processor
        .process_batch(&mut mmr, 0, 1, &headers, &sparse, dummy_stark())
        .unwrap()
        .unwrap();
    // Node 1 was never written, so proving leaf 2 lacks its sibling.
    assert!(matches!(mmr.get_proof(2, None), Err(MmrError::MissingHash)));
}
