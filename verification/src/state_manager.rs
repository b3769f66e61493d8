//! The commit step: adopting a guest-reported MMR state, with every
//! integrity check the transition demands.  A failed commit leaves the
//! MMR untouched.

use vstd::prelude::*;

use crate::errors::AccumulatorError;
use crate::guest::GuestOutput;
use crate::hex::is_elem_hex;
use crate::mmr::all_present;
use crate::mmr::insert_index_pairs;
use crate::mmr::insert_pairs;
use crate::mmr::lookup_all;
use crate::mmr::spec_bag;
use crate::mmr::spec_root_of;
use crate::mmr::str_views;
use crate::mmr::Mmr;
use crate::mmr::MmrView;
use crate::positions::popcount;
use crate::positions::popcount_u64;
use crate::positions::spec_find_peaks;
use crate::positions::SIZE_CAP;
use crate::types::MmrState;

verus! {

/// Whether the guest's counters describe a well-formed state that does
/// not shrink the current one.
pub open spec fn counters_accept(v: MmrView, go: GuestOutput) -> bool {
    &&& go.elements_count >= v.elements
    &&& go.elements_count + popcount(go.leaves_count as nat) == 2 * go.leaves_count
    &&& go.elements_count <= SIZE_CAP
    &&& go.final_peaks@.len() == popcount(go.leaves_count as nat)
}

/// Whether every hash the guest reports is a well-formed node hash.
pub open spec fn hashes_accept(go: GuestOutput) -> bool {
    &&& forall|i: int|
        0 <= i < str_views(go.final_peaks@).len() ==> is_elem_hex(
            #[trigger] str_views(go.final_peaks@)[i],
        )
    &&& forall|i: int| 0 <= i < go.all_hashes@.len() ==> is_elem_hex(
        #[trigger] go.all_hashes@[i].1@,
    )
}

/// Whether the stored hashes at the new peak positions equal the guest's
/// peaks, once every reported pair is recorded.
pub open spec fn peaks_accept(v: MmrView, go: GuestOutput) -> bool {
    &&& all_present(insert_pairs(v.nodes, go.all_hashes@), spec_find_peaks(go.elements_count))
    &&& lookup_all(insert_pairs(v.nodes, go.all_hashes@), spec_find_peaks(go.elements_count))
        == str_views(go.final_peaks@)
}

/// Whether a commit of `go` onto state `v` goes through.
pub open spec fn commit_accepts(v: MmrView, go: GuestOutput) -> bool {
    counters_accept(v, go) && hashes_accept(go) && peaks_accept(v, go)
}

/// The state a successful commit leaves behind.
pub open spec fn commit_view(v: MmrView, go: GuestOutput) -> MmrView {
    MmrView {
        elements: go.elements_count,
        leaves: go.leaves_count,
        peaks: str_views(go.final_peaks@),
        nodes: insert_pairs(v.nodes, go.all_hashes@),
        index: insert_index_pairs(v.index, go.all_hashes@),
    }
}

/// The state manager: it owns the commit step of a batch.
pub struct MMRStateManager;

impl MMRStateManager {
    /// Commits a guest-reported state onto the MMR: checks monotonicity
    /// and counter consistency, validates every reported hash, records
    /// the pairs, verifies the stored peaks against the guest's, and
    /// packages the new on-chain state view.  Any failure leaves the MMR
    /// exactly as it was.
    pub fn update_state(mmr: &mut Mmr, latest_block_number: u64, guest_output: &GuestOutput) -> (
        r: Result<MmrState, AccumulatorError>)
        requires
            old(mmr).wf(),
        ensures
            final(mmr).wf(),
            guest_output.elements_count < old(mmr)@.elements ==> (r matches Err(
                AccumulatorError::InvalidStateTransition,
            ) && final(mmr)@ == old(mmr)@),
            guest_output.elements_count >= old(mmr)@.elements && !counters_accept(
                old(mmr)@,
                *guest_output,
            ) ==> (r matches Err(AccumulatorError::InvalidStateTransition) && final(mmr)@ == old(
                mmr,
            )@),
            counters_accept(old(mmr)@, *guest_output) && !hashes_accept(*guest_output) ==> (
            r matches Err(AccumulatorError::InvalidInput(_)) && final(mmr)@ == old(mmr)@),
            counters_accept(old(mmr)@, *guest_output) && hashes_accept(*guest_output)
                && !peaks_accept(old(mmr)@, *guest_output) ==> (r matches Err(
                AccumulatorError::PeaksVerificationError,
            ) && final(mmr)@ == old(mmr)@),
            commit_accepts(old(mmr)@, *guest_output) ==> (r matches Ok(ms)
                && final(mmr)@ == commit_view(old(mmr)@, *guest_output)
                && ms.latest_block_number() == latest_block_number
                && ms.elements_count() == guest_output.elements_count
                && ms.leaves_count() == guest_output.leaves_count
                && ms.root_hash_view() == spec_root_of(
                guest_output.elements_count,
                spec_bag(str_views(guest_output.final_peaks@)),
            ) && crate::hex::is_u256_hex(ms.root_hash_view())),
            r is Ok <==> commit_accepts(old(mmr)@, *guest_output),
    {
        let new_elements = guest_output.elements_count;
        let new_leaves = guest_output.leaves_count;
        proof {
            crate::positions::lemma_popcount_le(new_leaves as nat);
        }
        if new_elements < mmr.elements_count() {
            return Err(AccumulatorError::InvalidStateTransition);
        }
        if new_elements > SIZE_CAP || new_leaves > u64::MAX / 2 {
            return Err(AccumulatorError::InvalidStateTransition);
        }
        let pc = popcount_u64(new_leaves);
        if new_elements + pc != 2 * new_leaves || guest_output.final_peaks.len() as u64 != pc {
            return Err(AccumulatorError::InvalidStateTransition);
        }
        if !crate::mmr::all_elem_hex(&guest_output.final_peaks) {
            proof {
                assert(!hashes_accept(*guest_output));
            }
            return Err(AccumulatorError::InvalidInput(String::from_str(
                "guest output holds a malformed hash",
            )));
        }
        let ghost v0 = mmr@;
        let mut i: usize = 0;
        while i < guest_output.all_hashes.len()
            invariant
                old(mmr).wf(),
                mmr@ == old(mmr)@,
                v0 == old(mmr)@,
                counters_accept(old(mmr)@, *guest_output),
                forall|j: int|
                    0 <= j < str_views(guest_output.final_peaks@).len() ==> is_elem_hex(
                        #[trigger] str_views(guest_output.final_peaks@)[j],
                    ),
                i <= guest_output.all_hashes@.len(),
                forall|j: int| 0 <= j < i ==> is_elem_hex(
                    #[trigger] guest_output.all_hashes@[j].1@,
                ),
            decreases guest_output.all_hashes@.len() - i,
        {
            if !crate::hex::check_elem_hex(guest_output.all_hashes[i].1.as_str()) {
                proof {
                    assert(!is_elem_hex(guest_output.all_hashes@[i as int].1@));
                    assert(!hashes_accept(*guest_output));
                }
                return Err(AccumulatorError::InvalidInput(String::from_str(
                    "guest output holds a malformed hash",
                )));
            }
            i += 1;
        }
        proof {
            assert forall|j: int|
                0 <= j < guest_output.final_peaks@.len() implies is_elem_hex(
                guest_output.final_peaks@[j]@,
            ) by {
                assert(str_views(guest_output.final_peaks@)[j]
                    == guest_output.final_peaks@[j]@);
            }
        }
        match mmr.apply_guest_update(
            new_elements,
            new_leaves,
            &guest_output.all_hashes,
            &guest_output.final_peaks,
        ) {
            Ok(()) => {},
            Err(_) => {
                return Err(AccumulatorError::PeaksVerificationError);
            },
        }
        let bag = mmr.bag_the_peaks();
        let root = match mmr.calculate_root_hash(bag.as_str(), new_elements) {
            Ok(h) => h,
            Err(e) => {
                proof {
                    assert(false);
                }
                return Err(AccumulatorError::Mmr(e));
            },
        };
        proof {
            crate::hex::lemma_elem_hex_is_u256_hex(root@);
        }
        Ok(MmrState::new(latest_block_number, root, new_elements, new_leaves))
    }
}

/// A committed transition never shrinks the counters: acceptance forces
/// both the element and the leaf counter to grow or stay.
pub proof fn lemma_commit_monotonic(v: MmrView, go: GuestOutput)
    requires
        crate::mmr::view_wf(v),
        commit_accepts(v, go),
    ensures
        go.elements_count >= v.elements,
        go.leaves_count >= v.leaves,
{
    if go.leaves_count < v.leaves {
        lemma_mmr_size_strict(go.leaves_count as nat, v.leaves as nat);
    }
}

/// The element count `2l - popcount(l)` grows strictly with the leaf
/// count.
pub proof fn lemma_mmr_size_strict(l1: nat, l2: nat)
    requires
        l1 < l2,
    ensures
        2 * l1 - popcount(l1) < 2 * l2 - popcount(l2),
    decreases l2,
{
    crate::positions::lemma_popcount_le(l1);
    crate::positions::lemma_popcount_le(l2);
    if l1 + 1 == l2 {
        crate::positions::lemma_popcount_succ(l1);
        crate::positions::lemma_trailing_le_popcount(l1);
        crate::positions::lemma_popcount_le(l1);
    } else {
        lemma_mmr_size_strict(l1, (l2 - 1) as nat);
        crate::positions::lemma_popcount_succ((l2 - 1) as nat);
        crate::positions::lemma_trailing_le_popcount((l2 - 1) as nat);
    }
}

/// After a commit the stored peak hashes equal the guest's peaks: reading
/// the committed node table at the new peak positions yields exactly
/// `final_peaks`.
pub proof fn lemma_commit_peaks(v: MmrView, go: GuestOutput)
    requires
        commit_accepts(v, go),
    ensures
        lookup_all(commit_view(v, go).nodes, spec_find_peaks(commit_view(v, go).elements))
            == str_views(go.final_peaks@),
{
}

/// After a commit, hash and index stay aligned: for every reported pair
/// `(i, h)` whose index and hash no later pair overrides, the committed
/// node table maps `i` to `h` and the auxiliary index maps `h` to `i`.
/// The override condition is needed: a guest that reports the same hash
/// twice re-points the hash's index entry to the later position, so the
/// unconditional two-way alignment does not hold for repeated hashes.
pub proof fn lemma_commit_hash_index(v: MmrView, go: GuestOutput, j: int)
    requires
        0 <= j < go.all_hashes@.len(),
        forall|k: int|
            j < k < go.all_hashes@.len() ==> (#[trigger] go.all_hashes@[k]).0
                != go.all_hashes@[j].0,
        forall|k: int|
            j < k < go.all_hashes@.len() ==> (#[trigger] go.all_hashes@[k]).1@
                != go.all_hashes@[j].1@,
    ensures
        commit_view(v, go).nodes.dom().contains(go.all_hashes@[j].0),
        commit_view(v, go).nodes[go.all_hashes@[j].0] == go.all_hashes@[j].1@,
        commit_view(v, go).index.dom().contains(go.all_hashes@[j].1@),
        commit_view(v, go).index[go.all_hashes@[j].1@] == go.all_hashes@[j].0,
{
    crate::mmr::lemma_pairs_round_trip(v.nodes, v.index, go.all_hashes@, j);
}

} // verus!
