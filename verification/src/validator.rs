//! The validator: given headers, their batch MMRs and the on-chain roots,
//! it checks each batch root against the chain, resolves every header to
//! its element index, and assembles one validator-guest input per batch.

use vstd::prelude::*;

use crate::errors::MmrError;
use crate::errors::ValidatorError;
use crate::guest::BlockHeader;
use crate::guest::BlocksValidityInput;
use crate::guest::GuestProof;
use crate::guest::MMRInput;
use crate::mmr::node_search;
use crate::mmr::nodes_map;
use crate::mmr::spec_bag;
use crate::mmr::spec_root_of;
use crate::mmr::Mmr;
use crate::mmr::MmrView;
use crate::mmr::Proof;

verus! {

/// The first MMR grouped under a batch index.
pub open spec fn find_group(s: Seq<(u64, Mmr)>, batch_index: u64) -> Option<Mmr>
    decreases s.len(),
{
    if s.len() == 0 {
        None
    } else if s.first().0 == batch_index {
        Some(s.first().1)
    } else {
        find_group(s.drop_first(), batch_index)
    }
}

/// The root of an MMR state: its element count over the bag of its peaks.
pub open spec fn spec_batch_root(v: MmrView) -> Seq<char> {
    spec_root_of(v.elements, spec_bag(v.peaks))
}

/// Whether every supplied MMR's root equals the on-chain root recorded
/// for its batch index.
pub open spec fn roots_match(mmrs: Seq<(u64, Mmr)>, onchain: Seq<(u64, String)>) -> bool {
    forall|j: int|
        0 <= j < mmrs.len() ==> nodes_map(onchain).dom().contains((#[trigger] mmrs[j]).0)
            && nodes_map(onchain)[mmrs[j].0] == spec_batch_root(mmrs[j].1@)
}

/// Whether every header's batch has a supplied MMR.
pub open spec fn mmrs_cover(headers: Seq<BlockHeader>, mmrs: Seq<(u64, Mmr)>, bs: u64) -> bool {
    forall|j: int|
        0 <= j < headers.len() ==> find_group(mmrs, ((#[trigger] headers[j]).number / bs) as u64)
            is Some
}

/// Whether every header's hash has an element index in its batch MMR.
pub open spec fn indexes_ok(headers: Seq<BlockHeader>, mmrs: Seq<(u64, Mmr)>, bs: u64) -> bool {
    forall|j: int|
        0 <= j < headers.len() ==> match find_group(
            mmrs,
            ((#[trigger] headers[j]).number / bs) as u64,
        ) {
            Some(m) => m@.index.dom().contains(headers[j].block_hash@),
            None => false,
        }
}

/// The headers that fall in one batch, in input order.
pub open spec fn spec_filter_headers(headers: Seq<BlockHeader>, bs: u64, bi: u64) -> Seq<
    BlockHeader,
>
    decreases headers.len(),
{
    if headers.len() == 0 {
        Seq::empty()
    } else {
        let rest = spec_filter_headers(headers.drop_last(), bs, bi);
        if ((headers.last().number / bs) as u64) == bi {
            rest.push(headers.last())
        } else {
            rest
        }
    }
}

/// The element indexes recorded for one batch, in input order.
pub open spec fn spec_filter_indexes(ixs: Seq<(u64, u64)>, bi: u64) -> Seq<u64>
    decreases ixs.len(),
{
    if ixs.len() == 0 {
        Seq::empty()
    } else {
        let rest = spec_filter_indexes(ixs.drop_last(), bi);
        if ixs.last().1 == bi {
            rest.push(ixs.last().0)
        } else {
            rest
        }
    }
}

/// Whether a guest proof carries exactly an engine proof model's content.
pub open spec fn guest_proof_matches(g: GuestProof, pm: crate::mmr::ProofModel) -> bool {
    &&& g.element_index == pm.element_index
    &&& g.element_hash@ == pm.element_hash
    &&& crate::mmr::str_views(g.siblings_hashes@) == pm.siblings
    &&& crate::mmr::str_views(g.peaks_hashes@) == pm.peaks
    &&& g.elements_count == pm.elements_count
}

/// Each header's element index and batch index, in input order.
pub open spec fn header_indexes(headers: Seq<BlockHeader>, mmrs: Seq<(u64, Mmr)>, bs: u64) -> Seq<
    (u64, u64),
> {
    headers.map_values(
        |h: BlockHeader|
            (
                (find_group(mmrs, (h.number / bs) as u64)->Some_0)@.index[h.block_hash@],
                (h.number / bs) as u64,
            ),
    )
}

/// Whether one validator-guest input holds exactly its batch's headers,
/// MMR snapshot, and inclusion proofs.
pub open spec fn input_pinned(
    inp: BlocksValidityInput,
    headers: Seq<BlockHeader>,
    bs: u64,
    bi: u64,
    m: Mmr,
    ixs: Seq<(u64, u64)>,
) -> bool {
    let proofs = crate::mmr::spec_get_proofs(m@, spec_filter_indexes(ixs, bi), m@.elements);
    &&& inp.headers@ == spec_filter_headers(headers, bs, bi)
    &&& crate::mmr::str_views(inp.mmr_input.initial_peaks@) == m@.peaks
    &&& inp.mmr_input.elements_count == m@.elements
    &&& inp.mmr_input.leaves_count == m@.leaves
    &&& inp.mmr_input.new_elements@.len() == 0
    &&& proofs is Ok
    &&& inp.proofs@.len() == proofs->Ok_0.len()
    &&& (forall|j: int|
        0 <= j < inp.proofs@.len() ==> guest_proof_matches(
            #[trigger] inp.proofs@[j],
            proofs->Ok_0[j],
        ))
}

/// One batch holds as many recorded indexes as headers.
proof fn lemma_filter_lengths(headers: Seq<BlockHeader>, mmrs: Seq<(u64, Mmr)>, bs: u64, bi: u64)
    ensures
        spec_filter_headers(headers, bs, bi).len() == spec_filter_indexes(
            header_indexes(headers, mmrs, bs),
            bi,
        ).len(),
    decreases headers.len(),
{
    let hi = header_indexes(headers, mmrs, bs);
    if headers.len() > 0 {
        assert(hi.drop_last() =~= header_indexes(headers.drop_last(), mmrs, bs));
        assert(hi.last().1 == (headers.last().number / bs) as u64);
        lemma_filter_lengths(headers.drop_last(), mmrs, bs, bi);
    }
}

/// Builds inclusion-proof inputs for blocks against their accumulated
/// batches.
pub struct ValidatorBuilder {
    chain_id: u64,
    batch_size: u64,
    skip_proof: bool,
}

/// Finds the position of the first MMR grouped under a batch index.
fn find_mmr(mmrs: &Vec<(u64, Mmr)>, batch_index: u64) -> (r: Option<usize>)
    ensures
        r matches Some(i) ==> i < mmrs@.len() && mmrs@[i as int].0 == batch_index && find_group(
            mmrs@,
            batch_index,
        ) == Some(mmrs@[i as int].1),
        r is None ==> find_group(mmrs@, batch_index) is None,
{
    let mut i: usize = 0;
    proof {
        assert(mmrs@.skip(0) =~= mmrs@);
    }
    while i < mmrs.len()
        invariant
            i <= mmrs@.len(),
            find_group(mmrs@, batch_index) == find_group(mmrs@.skip(i as int), batch_index),
            forall|j: int| 0 <= j < i ==> (#[trigger] mmrs@[j]).0 != batch_index,
        decreases mmrs@.len() - i,
    {
        proof {
            assert(mmrs@.skip(i as int).first() == mmrs@[i as int]);
            assert(mmrs@.skip(i as int).drop_first() =~= mmrs@.skip(i as int + 1));
        }
        if mmrs[i].0 == batch_index {
            return Some(i);
        }
        i += 1;
    }
    proof {
        assert(mmrs@.skip(mmrs@.len() as int) =~= Seq::<(u64, Mmr)>::empty());
    }
    None
}

impl ValidatorBuilder {
    /// The chain the headers belong to.
    pub closed spec fn spec_chain_id(&self) -> u64 {
        self.chain_id
    }

    /// The fixed batch size.
    pub closed spec fn spec_batch_size(&self) -> u64 {
        self.batch_size
    }

    /// Whether the on-chain root cross-check is skipped.
    pub closed spec fn spec_skip_proof(&self) -> bool {
        self.skip_proof
    }

    /// A validator's batch size is positive.
    pub open spec fn wf(&self) -> bool {
        self.spec_batch_size() >= 1
    }

    /// A validator over a chain and a batch size.  Rejects a zero batch
    /// size.
    pub fn new(chain_id: u64, batch_size: u64, skip_proof: bool) -> (r: Result<
        ValidatorBuilder,
        ValidatorError,
    >)
        ensures
            batch_size == 0 ==> (r matches Err(e) && e matches ValidatorError::InvalidInput(m)
                && m@ == "Batch size must be greater than 0"@),
            batch_size >= 1 ==> (r matches Ok(v) && v.wf() && v.spec_chain_id() == chain_id
                && v.spec_batch_size() == batch_size && v.spec_skip_proof() == skip_proof),
    {
        if batch_size == 0 {
            return Err(ValidatorError::InvalidInput(String::from_str(
                "Batch size must be greater than 0",
            )));
        }
        Ok(ValidatorBuilder { chain_id, batch_size, skip_proof })
    }

    /// Checks one batch MMR's root against the on-chain record.
    fn verify_single_mmr_root(
        &self,
        batch_index: u64,
        mmr: &Mmr,
        onchain_roots: &Vec<(u64, String)>,
    ) -> (r: Result<(), ValidatorError>)
        requires
            mmr.wf(),
        ensures
            r is Ok <==> (nodes_map(onchain_roots@).dom().contains(batch_index) && nodes_map(
                onchain_roots@,
            )[batch_index] == spec_batch_root(mmr@)),
            r matches Err(e) ==> ((e matches ValidatorError::MissingOnchainRoot { batch_index: b }
                && b == batch_index && !nodes_map(onchain_roots@).dom().contains(batch_index))
                || (e matches ValidatorError::InvalidMmrRoot { expected, actual } && nodes_map(
                onchain_roots@,
            ).dom().contains(batch_index) && expected@ == nodes_map(
                onchain_roots@,
            )[batch_index] && actual@ == spec_batch_root(mmr@) && actual@ != expected@)),
    {
        let bag = mmr.bag_the_peaks();
        let root = match self.calculate_root(mmr, bag) {
            Ok(h) => h,
            Err(e) => {
                proof {
                    assert(false);
                }
                return Err(ValidatorError::Mmr(e));
            },
        };
        match node_search(onchain_roots, batch_index) {
            None => Err(ValidatorError::MissingOnchainRoot { batch_index }),
            Some(onchain) => {
                if onchain.eq(&root) {
                    Ok(())
                } else {
                    Err(ValidatorError::InvalidMmrRoot { expected: onchain, actual: root })
                }
            },
        }
    }

    /// The current root of one batch MMR.
    fn calculate_root(&self, mmr: &Mmr, bag: String) -> (r: Result<String, MmrError>)
        requires
            mmr.wf(),
            bag@ == spec_bag(mmr@.peaks),
            crate::hex::is_elem_hex(bag@),
        ensures
            r matches Ok(h) && h@ == spec_batch_root(mmr@),
    {
        mmr.calculate_root_hash(bag.as_str(), mmr.elements_count())
    }

    /// Validates a set of headers against their accumulated batches and
    /// assembles one validator-guest input per batch: the headers are
    /// grouped by batch index, each batch's root is checked against the
    /// on-chain record unless `skip_proof` is set, every header is
    /// resolved to its element index, and an inclusion proof per header is
    /// packed with the batch's MMR snapshot.
    pub fn validate_blocks_and_extract_fees(
        &self,
        headers: &Vec<BlockHeader>,
        mmrs: &Vec<(u64, Mmr)>,
        onchain_roots: &Vec<(u64, String)>,
    ) -> (r: Result<Vec<BlocksValidityInput>, ValidatorError>)
        requires
            self.wf(),
            forall|i: int| 0 <= i < mmrs@.len() ==> (#[trigger] mmrs@[i]).1.wf(),
        ensures
            headers@.len() == 0 <==> (r matches Err(e) && e matches
            ValidatorError::EmptyHeaders),
            headers@.len() > 0 && !mmrs_cover(headers@, mmrs@, self.spec_batch_size()) ==> (
            r matches Err(e) && e matches ValidatorError::MissingBatchMmr { .. }),
            headers@.len() > 0 && mmrs_cover(headers@, mmrs@, self.spec_batch_size())
                && !self.spec_skip_proof() && !roots_match(mmrs@, onchain_roots@) ==> (r matches
            Err(e) && (e matches ValidatorError::InvalidMmrRoot { .. } || e matches
            ValidatorError::MissingOnchainRoot { .. })),
            r matches Err(e) ==> (e matches ValidatorError::MissingOnchainRoot { batch_index }
                ==> !nodes_map(onchain_roots@).dom().contains(batch_index)),
            r matches Err(e) ==> (e matches ValidatorError::InvalidMmrRoot { expected, actual }
                ==> exists|j: int|
                    0 <= j < mmrs@.len() && expected@ == nodes_map(onchain_roots@)[(
                    #[trigger] mmrs@[j]).0] && actual@ == spec_batch_root(mmrs@[j].1@)
                        && actual@ != expected@),
            headers@.len() > 0 && mmrs_cover(headers@, mmrs@, self.spec_batch_size()) && (
            self.spec_skip_proof() || roots_match(mmrs@, onchain_roots@)) && !indexes_ok(
                headers@,
                mmrs@,
                self.spec_batch_size(),
            ) ==> (r matches Err(e) && e matches ValidatorError::MissingElementIndex { .. }),
            headers@.len() > 0 && mmrs_cover(headers@, mmrs@, self.spec_batch_size()) && (
            self.spec_skip_proof() || roots_match(mmrs@, onchain_roots@)) && indexes_ok(
                headers@,
                mmrs@,
                self.spec_batch_size(),
            ) && (forall|b: int|
                0 <= b < mmrs@.len() ==> crate::mmr::spec_get_proofs(
                    (#[trigger] mmrs@[b]).1@,
                    spec_filter_indexes(
                        header_indexes(headers@, mmrs@, self.spec_batch_size()),
                        mmrs@[b].0,
                    ),
                    mmrs@[b].1@.elements,
                ) is Ok) ==> r is Ok,
            r matches Ok(v) ==> (v@.len() == mmrs@.len() && headers@.len() > 0 && mmrs_cover(
                headers@,
                mmrs@,
                self.spec_batch_size(),
            ) && (self.spec_skip_proof() || roots_match(mmrs@, onchain_roots@)) && indexes_ok(
                headers@,
                mmrs@,
                self.spec_batch_size(),
            ) && (forall|i: int| 0 <= i < v@.len() ==> (#[trigger] v@[i]).chain_id
                == self.spec_chain_id()) && (forall|i: int|
                0 <= i < v@.len() ==> input_pinned(
                    #[trigger] v@[i],
                    headers@,
                    self.spec_batch_size(),
                    mmrs@[i].0,
                    mmrs@[i].1,
                    header_indexes(headers@, mmrs@, self.spec_batch_size()),
                ))),
    {
        if headers.len() == 0 {
            return Err(ValidatorError::EmptyHeaders);
        }
        // Every header's batch must have a supplied MMR.
        let mut i: usize = 0;
        while i < headers.len()
            invariant
                self.wf(),
                headers@.len() > 0,
                i <= headers@.len(),
                forall|j: int|
                    0 <= j < i ==> find_group(
                        mmrs@,
                        ((#[trigger] headers@[j]).number / self.spec_batch_size()) as u64,
                    ) is Some,
            decreases headers@.len() - i,
        {
            let batch_index = headers[i].number / self.batch_size;
            if find_mmr(mmrs, batch_index).is_none() {
                proof {
                    assert(find_group(
                        mmrs@,
                        ((headers@[i as int]).number / self.spec_batch_size()) as u64,
                    ) is None);
                    assert(!mmrs_cover(headers@, mmrs@, self.spec_batch_size()));
                }
                return Err(ValidatorError::MissingBatchMmr { batch_index });
            }
            i += 1;
        }
        proof {
            assert(mmrs_cover(headers@, mmrs@, self.spec_batch_size()));
        }
        // Cross-check each batch root against the chain.
        if !self.skip_proof {
            let mut j: usize = 0;
            while j < mmrs.len()
                invariant
                    self.wf(),
                    !self.spec_skip_proof(),
                    headers@.len() > 0,
                    mmrs_cover(headers@, mmrs@, self.spec_batch_size()),
                    forall|k: int| 0 <= k < mmrs@.len() ==> (#[trigger] mmrs@[k]).1.wf(),
                    j <= mmrs@.len(),
                    forall|k: int|
                        0 <= k < j ==> nodes_map(onchain_roots@).dom().contains(
                            (#[trigger] mmrs@[k]).0,
                        ) && nodes_map(onchain_roots@)[mmrs@[k].0] == spec_batch_root(
                            mmrs@[k].1@,
                        ),
                decreases mmrs@.len() - j,
            {
                match self.verify_single_mmr_root(mmrs[j].0, &mmrs[j].1, onchain_roots) {
                    Ok(()) => {},
                    Err(e) => {
                        proof {
                            assert(!(nodes_map(onchain_roots@).dom().contains(
                                mmrs@[j as int].0,
                            ) && nodes_map(onchain_roots@)[mmrs@[j as int].0]
                                == spec_batch_root(mmrs@[j as int].1@)));
                            assert(!roots_match(mmrs@, onchain_roots@));
                        }
                        return Err(e);
                    },
                }
                j += 1;
            }
            proof {
                assert(roots_match(mmrs@, onchain_roots@));
            }
        }
        // Resolve every header to its element index within its batch.
        let mut block_indexes: Vec<(u64, u64)> = Vec::new();
        let mut i2: usize = 0;
        while i2 < headers.len()
            invariant
                self.wf(),
                headers@.len() > 0,
                i2 <= headers@.len(),
                mmrs_cover(headers@, mmrs@, self.spec_batch_size()),
                self.spec_skip_proof() || roots_match(mmrs@, onchain_roots@),
                block_indexes@.len() == i2,
                forall|j: int|
                    0 <= j < i2 ==> match find_group(
                        mmrs@,
                        ((#[trigger] headers@[j]).number / self.spec_batch_size()) as u64,
                    ) {
                        Some(m) => m@.index.dom().contains(headers@[j].block_hash@),
                        None => false,
                    },
                forall|j: int|
                    0 <= j < i2 ==> (#[trigger] block_indexes@[j]).1 == (headers@[j].number
                        / self.spec_batch_size()) as u64,
                block_indexes@ =~= header_indexes(
                    headers@,
                    mmrs@,
                    self.spec_batch_size(),
                ).take(i2 as int),
            decreases headers@.len() - i2,
        {
            let batch_index = headers[i2].number / self.batch_size;
            let pos = match find_mmr(mmrs, batch_index) {
                Some(p) => p,
                None => {
                    proof {
                        assert(false);
                    }
                    return Err(ValidatorError::MissingBatchMmr { batch_index });
                },
            };
            match mmrs[pos].1.get_element_index_for_value(&headers[i2].block_hash) {
                Some(idx) => {
                    let ghost bi0 = block_indexes@;
                    block_indexes.push((idx, batch_index));
                    proof {
                        let hi = header_indexes(headers@, mmrs@, self.spec_batch_size());
                        assert(hi.take(i2 as int + 1).drop_last() =~= hi.take(i2 as int));
                        assert(hi.take(i2 as int + 1).last() == hi[i2 as int]);
                        assert(block_indexes@.drop_last() =~= bi0);
                        assert(block_indexes@.last() == (idx, batch_index));
                        assert(hi[i2 as int] == (idx, batch_index));
                        assert(block_indexes@ =~= hi.take(i2 as int + 1));
                    }
                },
                None => {
                    proof {
                        assert(match find_group(
                            mmrs@,
                            ((headers@[i2 as int]).number / self.spec_batch_size()) as u64,
                        ) {
                            Some(m) => !m@.index.dom().contains(
                                headers@[i2 as int].block_hash@,
                            ),
                            None => true,
                        });
                        assert(!indexes_ok(headers@, mmrs@, self.spec_batch_size()));
                    }
                    return Err(ValidatorError::MissingElementIndex {
                        block_hash: headers[i2].block_hash.clone(),
                    });
                },
            }
            i2 += 1;
        }
        proof {
            assert(indexes_ok(headers@, mmrs@, self.spec_batch_size()));
            assert(header_indexes(headers@, mmrs@, self.spec_batch_size()).take(
                headers@.len() as int,
            ) =~= header_indexes(headers@, mmrs@, self.spec_batch_size()));
            assert(block_indexes@ == header_indexes(headers@, mmrs@, self.spec_batch_size()));
        }
        // One validator-guest input per batch.
        let mut inputs: Vec<BlocksValidityInput> = Vec::new();
        let mut b: usize = 0;
        while b < mmrs.len()
            invariant
                self.wf(),
                headers@.len() > 0,
                mmrs_cover(headers@, mmrs@, self.spec_batch_size()),
                self.spec_skip_proof() || roots_match(mmrs@, onchain_roots@),
                indexes_ok(headers@, mmrs@, self.spec_batch_size()),
                forall|k: int| 0 <= k < mmrs@.len() ==> (#[trigger] mmrs@[k]).1.wf(),
                b <= mmrs@.len(),
                inputs@.len() == b,
                forall|k: int| 0 <= k < b ==> (#[trigger] inputs@[k]).chain_id
                    == self.spec_chain_id(),
                block_indexes@ == header_indexes(headers@, mmrs@, self.spec_batch_size()),
                forall|k: int|
                    0 <= k < b ==> input_pinned(
                        #[trigger] inputs@[k],
                        headers@,
                        self.spec_batch_size(),
                        mmrs@[k].0,
                        mmrs@[k].1,
                        header_indexes(headers@, mmrs@, self.spec_batch_size()),
                    ),
            decreases mmrs@.len() - b,
        {
            let batch_index = mmrs[b].0;
            let batch_block_indexes = self.get_batch_block_indexes(&block_indexes, batch_index);
            let batch_headers = self.get_batch_headers(headers, batch_index);
            let batch_proofs = match mmrs[b].1.get_proofs(&batch_block_indexes, None) {
                Ok(ps) => ps,
                Err(e) => {
                    proof {
                        assert(batch_block_indexes@ == spec_filter_indexes(
                            header_indexes(headers@, mmrs@, self.spec_batch_size()),
                            mmrs@[b as int].0,
                        ));
                        assert(!(crate::mmr::spec_get_proofs(
                            mmrs@[b as int].1@,
                            spec_filter_indexes(
                                header_indexes(headers@, mmrs@, self.spec_batch_size()),
                                mmrs@[b as int].0,
                            ),
                            mmrs@[b as int].1@.elements,
                        ) is Ok));
                    }
                    return Err(ValidatorError::Mmr(e));
                },
            };
            let guest_proofs = self.convert_to_guest_proofs(batch_proofs);
            match self.validate_proofs_count(&batch_headers, &guest_proofs) {
                Ok(()) => {},
                Err(e) => {
                    proof {
                        crate::mmr::lemma_spec_get_proofs_len(
                            mmrs@[b as int].1@,
                            batch_block_indexes@,
                            mmrs@[b as int].1@.elements,
                        );
                        lemma_filter_lengths(
                            headers@,
                            mmrs@,
                            self.spec_batch_size(),
                            mmrs@[b as int].0,
                        );
                        assert(false);
                    }
                    return Err(e);
                },
            }
            let mmr_input = self.prepare_mmr_input(&mmrs[b].1);
            let ghost gp = guest_proofs@;
            inputs.push(
                BlocksValidityInput::new(self.chain_id, batch_headers, mmr_input, guest_proofs),
            );
            proof {
                let pin_models = crate::mmr::spec_get_proofs(
                    mmrs@[b as int].1@,
                    spec_filter_indexes(
                        header_indexes(headers@, mmrs@, self.spec_batch_size()),
                        mmrs@[b as int].0,
                    ),
                    mmrs@[b as int].1@.elements,
                );
                assert(pin_models is Ok);
                assert forall|j: int| 0 <= j < gp.len() implies guest_proof_matches(
                    gp[j],
                    pin_models->Ok_0[j],
                ) by {
                    assert(crate::mmr::proof_matches(batch_proofs@[j], pin_models->Ok_0[j]));
                }
                assert(input_pinned(
                    inputs@.last(),
                    headers@,
                    self.spec_batch_size(),
                    mmrs@[b as int].0,
                    mmrs@[b as int].1,
                    header_indexes(headers@, mmrs@, self.spec_batch_size()),
                ));
            }
            b += 1;
        }
        Ok(inputs)
    }

    /// The element indexes collected for one batch, in input order.
    fn get_batch_block_indexes(&self, block_indexes: &Vec<(u64, u64)>, batch_index: u64) -> (r:
        Vec<u64>)
        ensures
            r@ == spec_filter_indexes(block_indexes@, batch_index),
    {
        let mut out: Vec<u64> = Vec::new();
        let mut i: usize = 0;
        proof {
            assert(block_indexes@.take(0) =~= Seq::<(u64, u64)>::empty());
            assert(out@ =~= spec_filter_indexes(block_indexes@.take(0), batch_index));
        }
        while i < block_indexes.len()
            invariant
                i <= block_indexes@.len(),
                out@ =~= spec_filter_indexes(block_indexes@.take(i as int), batch_index),
            decreases block_indexes@.len() - i,
        {
            proof {
                assert(block_indexes@.take(i as int + 1).drop_last() =~= block_indexes@.take(
                    i as int,
                ));
                assert(block_indexes@.take(i as int + 1).last() == block_indexes@[i as int]);
            }
            if block_indexes[i].1 == batch_index {
                out.push(block_indexes[i].0);
            }
            i += 1;
        }
        proof {
            assert(block_indexes@.take(block_indexes@.len() as int) =~= block_indexes@);
        }
        out
    }

    /// The headers that fall in one batch, in input order.
    fn get_batch_headers(&self, headers: &Vec<BlockHeader>, batch_index: u64) -> (r: Vec<
        BlockHeader,
    >)
        requires
            self.wf(),
        ensures
            r@ == spec_filter_headers(headers@, self.spec_batch_size(), batch_index),
    {
        let mut out: Vec<BlockHeader> = Vec::new();
        let mut i: usize = 0;
        proof {
            assert(headers@.take(0) =~= Seq::<BlockHeader>::empty());
            assert(out@ =~= spec_filter_headers(
                headers@.take(0),
                self.spec_batch_size(),
                batch_index,
            ));
        }
        while i < headers.len()
            invariant
                self.wf(),
                i <= headers@.len(),
                out@ =~= spec_filter_headers(
                    headers@.take(i as int),
                    self.spec_batch_size(),
                    batch_index,
                ),
            decreases headers@.len() - i,
        {
            proof {
                assert(headers@.take(i as int + 1).drop_last() =~= headers@.take(i as int));
                assert(headers@.take(i as int + 1).last() == headers@[i as int]);
            }
            if headers[i].number / self.batch_size == batch_index {
                let copied = BlockHeader {
                    number: headers[i].number,
                    block_hash: headers[i].block_hash.clone(),
                };
                proof {
                    assert(copied == headers@[i as int]);
                }
                out.push(copied);
            }
            i += 1;
        }
        proof {
            assert(headers@.take(headers@.len() as int) =~= headers@);
        }
        out
    }

    /// Repacks engine proofs as validator-guest proofs.
    fn convert_to_guest_proofs(&self, batch_proofs: Vec<Proof>) -> (r: Vec<GuestProof>)
        ensures
            r@.len() == batch_proofs@.len(),
            forall|j: int|
                0 <= j < r@.len() ==> ((#[trigger] r@[j]).element_index
                    == batch_proofs@[j].element_index && r@[j].element_hash@
                    == batch_proofs@[j].element_hash@ && r@[j].siblings_hashes
                    == batch_proofs@[j].siblings_hashes && r@[j].peaks_hashes
                    == batch_proofs@[j].peaks_hashes && r@[j].elements_count
                    == batch_proofs@[j].elements_count),
    {
        let ghost orig = batch_proofs@;
        let mut out: Vec<GuestProof> = Vec::new();
        let mut proofs = batch_proofs;
        while proofs.len() > 0
            invariant
                out@.len() + proofs@.len() == orig.len(),
                forall|j: int| 0 <= j < proofs@.len() ==> #[trigger] proofs@[j] == orig[
                    out@.len() + j],
                forall|j: int|
                    0 <= j < out@.len() ==> ((#[trigger] out@[j]).element_index
                        == orig[j].element_index && out@[j].element_hash@
                        == orig[j].element_hash@ && out@[j].siblings_hashes
                        == orig[j].siblings_hashes && out@[j].peaks_hashes
                        == orig[j].peaks_hashes && out@[j].elements_count
                        == orig[j].elements_count),
            decreases proofs@.len(),
        {
            let ghost k = out@.len() as int;
            let p = proofs.remove(0);
            proof {
                assert(p == orig[k]);
            }
            out.push(GuestProof::from(LocalGuestProof::from(p)));
        }
        out
    }

    /// The number of proofs must equal the number of headers in the
    /// batch.
    fn validate_proofs_count(
        &self,
        batch_headers: &Vec<BlockHeader>,
        guest_proofs: &Vec<GuestProof>,
    ) -> (r: Result<(), ValidatorError>)
        ensures
            r is Ok <==> batch_headers@.len() == guest_proofs@.len(),
            r matches Err(e) ==> (e matches ValidatorError::InvalidProofsCount {
                expected,
                actual,
            } && expected == batch_headers@.len() && actual == guest_proofs@.len()),
    {
        if batch_headers.len() != guest_proofs.len() {
            return Err(ValidatorError::InvalidProofsCount {
                expected: batch_headers.len(),
                actual: guest_proofs.len(),
            });
        }
        Ok(())
    }

    /// The MMR snapshot the validator guest verifies against: current
    /// peaks and counters, no new elements.
    fn prepare_mmr_input(&self, mmr: &Mmr) -> (r: MMRInput)
        ensures
            crate::mmr::str_views(r.initial_peaks@) == mmr@.peaks,
            r.elements_count == mmr@.elements,
            r.leaves_count == mmr@.leaves,
            r.new_elements@.len() == 0,
    {
        let peaks = mmr.get_peaks();
        let none_new: Vec<String> = Vec::new();
        let r = MMRInput::new(peaks, mmr.elements_count(), mmr.leaves_count(), none_new);
        proof {
            assert(crate::mmr::str_views(r.new_elements@).len() == r.new_elements@.len());
        }
        r
    }
}

/// An engine proof in the validator's own shape.
pub struct LocalGuestProof {
    pub element_index: u64,
    pub element_hash: String,
    pub siblings_hashes: Vec<String>,
    pub peaks_hashes: Vec<String>,
    pub elements_count: u64,
}

impl LocalGuestProof {
    /// Repacks an engine proof.
    pub fn from(p: Proof) -> (r: LocalGuestProof)
        ensures
            r.element_index == p.element_index,
            r.element_hash@ == p.element_hash@,
            r.siblings_hashes == p.siblings_hashes,
            r.peaks_hashes == p.peaks_hashes,
            r.elements_count == p.elements_count,
    {
        LocalGuestProof {
            element_index: p.element_index,
            element_hash: p.element_hash,
            siblings_hashes: p.siblings_hashes,
            peaks_hashes: p.peaks_hashes,
            elements_count: p.elements_count,
        }
    }
}

impl GuestProof {
    /// Repacks a local proof for the guest.
    pub fn from(local: LocalGuestProof) -> (r: GuestProof)
        ensures
            r.element_index == local.element_index,
            r.element_hash@ == local.element_hash@,
            r.siblings_hashes == local.siblings_hashes,
            r.peaks_hashes == local.peaks_hashes,
            r.elements_count == local.elements_count,
    {
        GuestProof {
            element_index: local.element_index,
            element_hash: local.element_hash,
            siblings_hashes: local.siblings_hashes,
            peaks_hashes: local.peaks_hashes,
            elements_count: local.elements_count,
        }
    }
}

} // verus!
