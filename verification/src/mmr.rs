//! The MMR engine: append with its merge cascade, peak bagging, root
//! computation, and the hash-to-index store.
//!
//! A value of [`Mmr`] holds one batch's accumulator: the two counters, the
//! current peak hashes, the node table (element index to hash) and the
//! auxiliary index (hash to element index).  Its view is a [`MmrView`] over
//! mathematical maps, and every mutation is pinned to a spec-level
//! transition.

use vstd::prelude::*;

use crate::errors::MmrError;
use crate::hasher::hash_pair;
use crate::hasher::poseidon_pair;
use crate::hex::check_elem_hex;
use crate::hex::is_elem_hex;
use crate::hex::u64_hex;
use crate::hex::u64_to_hex;
use crate::positions::popcount;
use crate::positions::trailing_ones;
use crate::positions::trailing_ones_u64;
use crate::positions::lemma_popcount_succ;
use crate::positions::lemma_trailing_le_popcount;
use crate::positions::SIZE_CAP;

verus! {

/// The views of a sequence of strings.
pub open spec fn str_views(s: Seq<String>) -> Seq<Seq<char>> {
    s.map_values(|x: String| x@)
}

/// The node table as a map, later entries winning.
pub open spec fn nodes_map(s: Seq<(u64, String)>) -> Map<u64, Seq<char>>
    decreases s.len(),
{
    if s.len() == 0 {
        Map::empty()
    } else {
        nodes_map(s.drop_last()).insert(s.last().0, s.last().1@)
    }
}

/// The hash-to-index table as a map, later entries winning.
pub open spec fn index_map(s: Seq<(String, u64)>) -> Map<Seq<char>, u64>
    decreases s.len(),
{
    if s.len() == 0 {
        Map::empty()
    } else {
        index_map(s.drop_last()).insert(s.last().0@, s.last().1)
    }
}

/// The mathematical state of one MMR.
pub struct MmrView {
    /// The element counter.
    pub elements: u64,
    /// The leaf counter.
    pub leaves: u64,
    /// The current peak hashes, leftmost (highest) first.
    pub peaks: Seq<Seq<char>>,
    /// The node hashes by element index.
    pub nodes: Map<u64, Seq<char>>,
    /// The element index of each node hash.
    pub index: Map<Seq<char>, u64>,
}

/// A persistent MMR over hex-string node hashes.
pub struct Mmr {
    elements_count: u64,
    leaves_count: u64,
    peaks: Vec<String>,
    nodes: Vec<(u64, String)>,
    index: Vec<(String, u64)>,
}

impl View for Mmr {
    type V = MmrView;

    closed spec fn view(&self) -> MmrView {
        MmrView {
            elements: self.elements_count,
            leaves: self.leaves_count,
            peaks: str_views(self.peaks@),
            nodes: nodes_map(self.nodes@),
            index: index_map(self.index@),
        }
    }
}

/// Well-formedness of an MMR state: the counters agree with the peak
/// count through the bit count of the leaves, sizes stay under the cap,
/// and every stored hash is a well-formed node hash.
pub open spec fn view_wf(v: MmrView) -> bool {
    &&& v.elements + popcount(v.leaves as nat) == 2 * v.leaves
    &&& v.peaks.len() == popcount(v.leaves as nat)
    &&& v.elements <= SIZE_CAP
    &&& forall|i: int| 0 <= i < v.peaks.len() ==> is_elem_hex(#[trigger] v.peaks[i])
    &&& forall|k: u64| v.nodes.dom().contains(k) ==> is_elem_hex(#[trigger] v.nodes[k])
}

/// The result of one append: the new state's root and counters, and the
/// position at which the leaf landed.
pub struct AppendResult {
    pub element_index: u64,
    pub leaves_count: u64,
    pub elements_count: u64,
    pub root_hash: String,
}

/// An inclusion proof for one leaf.
pub struct Proof {
    pub element_index: u64,
    pub element_hash: String,
    pub siblings_hashes: Vec<String>,
    pub peaks_hashes: Vec<String>,
    pub elements_count: u64,
}

/// The hash climbing out of the merge cascade after `k` merges: the leaf
/// itself for `k == 0`, then pairings with the peaks from the right.
pub open spec fn chain(peaks: Seq<Seq<char>>, leaf: Seq<char>, k: nat) -> Seq<char>
    decreases k,
{
    if k == 0 {
        leaf
    } else {
        poseidon_pair(peaks[peaks.len() - k], chain(peaks, leaf, (k - 1) as nat))
    }
}

/// The peaks after appending a leaf with `t` merges: the unmerged prefix
/// plus the cascade's final hash.
pub open spec fn merged_peaks(peaks: Seq<Seq<char>>, leaf: Seq<char>, t: nat) -> Seq<Seq<char>> {
    peaks.take(peaks.len() - t).push(chain(peaks, leaf, t))
}

/// The node table after appending: the leaf at `n + 1`, then each cascade
/// hash at the next position.
pub open spec fn nodes_after(
    nodes: Map<u64, Seq<char>>,
    peaks: Seq<Seq<char>>,
    leaf: Seq<char>,
    n: u64,
    k: nat,
) -> Map<u64, Seq<char>>
    decreases k,
{
    if k == 0 {
        nodes.insert((n + 1) as u64, leaf)
    } else {
        nodes_after(nodes, peaks, leaf, n, (k - 1) as nat).insert(
            (n + 1 + k) as u64,
            chain(peaks, leaf, k),
        )
    }
}

/// The hash-to-index table after appending, mirroring `nodes_after`.
pub open spec fn index_after(
    index: Map<Seq<char>, u64>,
    peaks: Seq<Seq<char>>,
    leaf: Seq<char>,
    n: u64,
    k: nat,
) -> Map<Seq<char>, u64>
    decreases k,
{
    if k == 0 {
        index.insert(leaf, (n + 1) as u64)
    } else {
        index_after(index, peaks, leaf, n, (k - 1) as nat).insert(
            chain(peaks, leaf, k),
            (n + 1 + k) as u64,
        )
    }
}

/// Whether one more append stays under the size cap.
pub open spec fn append_fits(v: MmrView) -> bool {
    v.elements + 1 + trailing_ones(v.leaves as nat) <= SIZE_CAP
}

/// The state transition of one append.
pub open spec fn spec_append(v: MmrView, leaf: Seq<char>) -> MmrView {
    let t = trailing_ones(v.leaves as nat);
    MmrView {
        elements: (v.elements + 1 + t) as u64,
        leaves: (v.leaves + 1) as u64,
        peaks: merged_peaks(v.peaks, leaf, t),
        nodes: nodes_after(v.nodes, v.peaks, leaf, v.elements, t),
        index: index_after(v.index, v.peaks, leaf, v.elements, t),
    }
}

/// The right fold of the peaks: the rightmost peak, paired leftward.
pub open spec fn bag_from(peaks: Seq<Seq<char>>, i: int) -> Seq<char>
    decreases peaks.len() - i,
{
    if i < 0 || i >= peaks.len() {
        seq!['0', 'x', '0']
    } else if i == peaks.len() - 1 {
        peaks[i]
    } else {
        poseidon_pair(peaks[i], bag_from(peaks, i + 1))
    }
}

/// The bag of the peaks; `0x0` for an empty MMR.
pub open spec fn spec_bag(peaks: Seq<Seq<char>>) -> Seq<char> {
    if peaks.len() == 0 {
        seq!['0', 'x', '0']
    } else {
        bag_from(peaks, 0)
    }
}

/// The root over a given bag: the element count paired with the bag.
pub open spec fn spec_root_of(elements: u64, bag: Seq<char>) -> Seq<char> {
    poseidon_pair(u64_hex(elements as nat), bag)
}

/// The root of a state: count paired with the bag of the peaks.
pub open spec fn spec_root_hash(elements: u64, peaks: Seq<Seq<char>>) -> Seq<char> {
    spec_root_of(elements, spec_bag(peaks))
}

/// Finds the hash stored for a key in a node table, later entries winning.
pub fn node_search(v: &Vec<(u64, String)>, key: u64) -> (r: Option<String>)
    ensures
        r matches Some(h) ==> nodes_map(v@).dom().contains(key) && h@ == nodes_map(v@)[key],
        r is None ==> !nodes_map(v@).dom().contains(key),
{
    let mut i: usize = v.len();
    proof {
        assert(v@.take(i as int) =~= v@);
    }
    while i > 0
        invariant
            i <= v@.len(),
            nodes_map(v@).dom().contains(key) == nodes_map(v@.take(i as int)).dom().contains(
                key,
            ),
            nodes_map(v@).dom().contains(key) ==> nodes_map(v@.take(i as int))[key] == nodes_map(
                v@,
            )[key],
        decreases i,
    {
        i = i - 1;
        proof {
            assert(v@.take(i as int + 1).drop_last() =~= v@.take(i as int));
            assert(v@.take(i as int + 1).last() == v@[i as int]);
        }
        if v[i].0 == key {
            return Some(v[i].1.clone());
        }
    }
    proof {
        assert(v@.take(0) =~= Seq::<(u64, String)>::empty());
    }
    None
}

/// Copies a vector of strings, element for element.
pub fn clone_string_vec(v: &Vec<String>) -> (r: Vec<String>)
    ensures
        r@ =~= v@,
{
    let mut r: Vec<String> = Vec::new();
    let mut i: usize = 0;
    while i < v.len()
        invariant
            i <= v@.len(),
            r@ =~= v@.take(i as int),
        decreases v@.len() - i,
    {
        r.push(v[i].clone());
        proof {
            assert(v@.take(i as int).push(v@[i as int]) =~= v@.take(i as int + 1));
        }
        i += 1;
    }
    proof {
        assert(v@.take(v@.len() as int) =~= v@);
    }
    r
}

impl Mmr {
    /// Well-formedness of this MMR's state.
    pub open spec fn wf(&self) -> bool {
        view_wf(self@)
    }

    /// A fresh, empty MMR.
    pub fn new() -> (m: Mmr)
        ensures
            m.wf(),
            m@ == empty_view(),
    {
        let m = Mmr {
            elements_count: 0,
            leaves_count: 0,
            peaks: Vec::new(),
            nodes: Vec::new(),
            index: Vec::new(),
        };
        proof {
            assert(str_views(m.peaks@) =~= Seq::<Seq<char>>::empty());
            assert(m@.nodes =~= Map::<u64, Seq<char>>::empty());
            assert(m@.index =~= Map::<Seq<char>, u64>::empty());
            assert(m@ == empty_view());
        }
        m
    }

    /// The element counter.
    pub fn elements_count(&self) -> (r: u64)
        ensures
            r == self@.elements,
    {
        self.elements_count
    }

    /// The leaf counter.
    pub fn leaves_count(&self) -> (r: u64)
        ensures
            r == self@.leaves,
    {
        self.leaves_count
    }

    /// The current peak hashes, leftmost first.
    pub fn get_peaks(&self) -> (r: Vec<String>)
        ensures
            str_views(r@) == self@.peaks,
    {
        let r = clone_string_vec(&self.peaks);
        proof {
            assert(str_views(r@) =~= str_views(self.peaks@));
        }
        r
    }

    /// The stored hash at an element index, if any.
    pub fn get_value_for_element_index(&self, element_index: u64) -> (r: Option<String>)
        ensures
            r matches Some(h) ==> self@.nodes.dom().contains(element_index) && h@
                == self@.nodes[element_index],
            r is None ==> !self@.nodes.dom().contains(element_index),
    {
        node_search(&self.nodes, element_index)
    }

    /// The element index recorded for a hash, if any.
    pub fn get_element_index_for_value(&self, hash: &String) -> (r: Option<u64>)
        ensures
            r matches Some(idx) ==> self@.index.dom().contains(hash@) && idx
                == self@.index[hash@],
            r is None ==> !self@.index.dom().contains(hash@),
    {
        let mut i: usize = self.index.len();
        proof {
            assert(self.index@.take(i as int) =~= self.index@);
        }
        while i > 0
            invariant
                i <= self.index@.len(),
                index_map(self.index@).dom().contains(hash@) == index_map(
                    self.index@.take(i as int),
                ).dom().contains(hash@),
                index_map(self.index@).dom().contains(hash@) ==> index_map(
                    self.index@.take(i as int),
                )[hash@] == index_map(self.index@)[hash@],
            decreases i,
        {
            i = i - 1;
            proof {
                assert(self.index@.take(i as int + 1).drop_last() =~= self.index@.take(i as int));
                assert(self.index@.take(i as int + 1).last() == self.index@[i as int]);
            }
            if self.index[i].0.eq(hash) {
                return Some(self.index[i].1);
            }
        }
        proof {
            assert(self.index@.take(0) =~= Seq::<(String, u64)>::empty());
        }
        None
    }

    /// Records the index of a hash in the auxiliary table.
    pub fn insert_value_index_mapping(&mut self, hash: &String, element_index: u64)
        ensures
            final(self)@.index == old(self)@.index.insert(hash@, element_index),
            final(self)@.elements == old(self)@.elements,
            final(self)@.leaves == old(self)@.leaves,
            final(self)@.peaks == old(self)@.peaks,
            final(self)@.nodes == old(self)@.nodes,
            old(self).wf() ==> final(self).wf(),
    {
        self.index.push((hash.clone(), element_index));
        proof {
            assert(self.index@.drop_last() =~= old(self).index@);
        }
    }

    /// Removes a hash from the auxiliary table.
    pub fn delete_value_index_mapping(&mut self, hash: &String)
        ensures
            final(self)@.index == old(self)@.index.remove(hash@),
            final(self)@.elements == old(self)@.elements,
            final(self)@.leaves == old(self)@.leaves,
            final(self)@.peaks == old(self)@.peaks,
            final(self)@.nodes == old(self)@.nodes,
            old(self).wf() ==> final(self).wf(),
    {
        let mut kept: Vec<(String, u64)> = Vec::new();
        let mut i: usize = 0;
        proof {
            assert(self.index@.take(0) =~= Seq::<(String, u64)>::empty());
            assert(index_map(kept@) =~= index_map(self.index@.take(0)).remove(hash@));
        }
        while i < self.index.len()
            invariant
                i <= self.index@.len(),
                index_map(kept@) =~= index_map(self.index@.take(i as int)).remove(hash@),
            decreases self.index@.len() - i,
        {
            let ghost kept0 = kept@;
            let entry_hash = self.index[i].0.clone();
            let entry_idx = self.index[i].1;
            proof {
                assert(entry_hash@ == self.index@[i as int].0@);
                assert(entry_idx == self.index@[i as int].1);
            }
            let keep_it = !entry_hash.eq(hash);
            if keep_it {
                kept.push((entry_hash, entry_idx));
            }
            proof {
                let t1 = self.index@.take(i as int + 1);
                assert(t1.drop_last() =~= self.index@.take(i as int));
                assert(t1.last() == self.index@[i as int]);
                if self.index@[i as int].0@ == hash@ {
                    assert(index_map(t1).remove(hash@) =~= index_map(
                        self.index@.take(i as int),
                    ).remove(hash@));
                } else {
                    assert(kept@.drop_last() =~= kept0);
                    assert(kept@.last().0@ == self.index@[i as int].0@);
                    assert(kept@.last().1 == self.index@[i as int].1);
                    assert(index_map(kept@) =~= index_map(kept0).insert(
                        self.index@[i as int].0@,
                        self.index@[i as int].1,
                    ));
                    assert(index_map(t1).remove(hash@) =~= index_map(
                        self.index@.take(i as int),
                    ).remove(hash@).insert(self.index@[i as int].0@, self.index@[i as int].1));
                }
            }
            i += 1;
        }
        proof {
            assert(self.index@.take(self.index@.len() as int) =~= self.index@);
        }
        self.index = kept;
        proof {
            assert(self@.peaks == old(self)@.peaks);
            assert(self@.nodes == old(self)@.nodes);
            assert(self@.elements == old(self)@.elements);
            assert(self@.leaves == old(self)@.leaves);
        }
    }

    /// The bag of the current peaks: the right fold of the peak hashes,
    /// `0x0` when the MMR is empty.
    pub fn bag_the_peaks(&self) -> (r: String)
        requires
            self.wf(),
        ensures
            r@ == spec_bag(self@.peaks),
            is_elem_hex(r@),
    {
        let m = self.peaks.len();
        if m == 0 {
            let r = String::from_str("0x0");
            proof {
                reveal_strlit("0x0");
                assert(r@ =~= seq!['0', 'x', '0']);
                assert(is_elem_hex(r@));
            }
            return r;
        }
        let mut acc = self.peaks[m - 1].clone();
        proof {
            assert(str_views(self.peaks@)[m - 1] == self.peaks@[m - 1]@);
        }
        let mut i: usize = m - 1;
        while i > 0
            invariant
                self.wf(),
                m == self.peaks@.len(),
                i < m,
                acc@ == bag_from(self@.peaks, i as int),
                is_elem_hex(acc@),
            decreases i,
        {
            i = i - 1;
            proof {
                assert(is_elem_hex(self@.peaks[i as int]));
                assert(str_views(self.peaks@)[i as int] == self.peaks@[i as int]@);
            }
            acc = hash_pair(self.peaks[i].as_str(), acc.as_str());
        }
        acc
    }

    /// The root over a bag at a given element count: the count's canonical
    /// hex paired with the bag.  Rejects a malformed bag.
    pub fn calculate_root_hash(&self, bag: &str, elements_count: u64) -> (r: Result<
        String,
        MmrError,
    >)
        ensures
            is_elem_hex(bag@) ==> (r matches Ok(h) && h@ == spec_root_of(elements_count, bag@)
                && is_elem_hex(h@) && crate::hex::is_u256_hex(h@)),
            !is_elem_hex(bag@) ==> r matches Err(MmrError::InvalidInput),
    {
        if !check_elem_hex(bag) {
            return Err(MmrError::InvalidInput);
        }
        let nh = u64_to_hex(elements_count);
        let h = hash_pair(nh.as_str(), bag);
        proof {
            crate::hex::lemma_elem_hex_is_u256_hex(h@);
        }
        Ok(h)
    }

    /// Appends a leaf hash, running the merge cascade, and returns the new
    /// root and counters.  Rejects a malformed leaf, and a state grown past
    /// the size cap.
    pub fn append(&mut self, leaf: String) -> (r: Result<AppendResult, MmrError>)
        requires
            old(self).wf(),
        ensures
            final(self).wf(),
            !is_elem_hex(leaf@) ==> (r matches Err(MmrError::InvalidInput)
                && final(self)@ == old(self)@),
            is_elem_hex(leaf@) && !append_fits(old(self)@) ==> (r matches Err(
                MmrError::OutOfRange,
            ) && final(self)@ == old(self)@),
            is_elem_hex(leaf@) && append_fits(old(self)@) ==> (r matches Ok(ar)
                && final(self)@ == spec_append(old(self)@, leaf@)
                && ar.element_index == old(self)@.elements + 1
                && ar.elements_count == final(self)@.elements
                && ar.leaves_count == final(self)@.leaves
                && ar.root_hash@ == spec_root_hash(final(self)@.elements, final(self)@.peaks)
                && is_elem_hex(ar.root_hash@)),
    {
        if !check_elem_hex(leaf.as_str()) {
            return Err(MmrError::InvalidInput);
        }
        let t = trailing_ones_u64(self.leaves_count);
        proof {
            lemma_trailing_le_popcount(self.leaves_count as nat);
            crate::positions::lemma_popcount_le(self.leaves_count as nat);
        }
        if self.elements_count > SIZE_CAP - 1 - t || self.elements_count + 1 + t > SIZE_CAP {
            return Err(MmrError::OutOfRange);
        }
        let ghost v0 = self@;
        let ghost leaf_s = leaf@;
        let ghost m0 = v0.peaks.len();
        let mut elem_idx: u64 = self.elements_count + 1;
        let leaf_index = elem_idx;
        self.nodes.push((elem_idx, leaf.clone()));
        self.index.push((leaf.clone(), elem_idx));
        self.peaks.push(leaf);
        proof {
            assert(self.nodes@.drop_last() =~= old(self).nodes@);
            assert(self.index@.drop_last() =~= old(self).index@);
            assert(str_views(self.peaks@) =~= v0.peaks.push(leaf_s));
            assert(v0.peaks.take(m0 as int) =~= v0.peaks);
            assert(v0.peaks.take(m0 as int).push(chain(v0.peaks, leaf_s, 0)) =~= v0.peaks.push(
                leaf_s,
            ));
            assert forall|j: int| 0 <= j < self.peaks@.len() implies is_elem_hex(
                self.peaks@[j]@,
            ) by {
                assert(self.peaks@[j]@ == str_views(self.peaks@)[j]);
                if j < m0 {
                    assert(str_views(self.peaks@)[j] == v0.peaks[j]);
                }
            }
            assert(nodes_map(self.nodes@) =~= v0.nodes.insert((v0.elements + 1) as u64, leaf_s));
            assert forall|kk: u64| nodes_map(self.nodes@).dom().contains(kk) implies is_elem_hex(
                nodes_map(self.nodes@)[kk],
            ) by {
                if kk != (v0.elements + 1) as u64 {
                    assert(nodes_map(self.nodes@)[kk] == v0.nodes[kk]);
                }
            }
        }
        let mut k: u64 = 0;
        while k < t
            invariant
                v0 == old(self)@,
                view_wf(v0),
                is_elem_hex(leaf_s),
                t == trailing_ones(v0.leaves as nat),
                t <= m0,
                m0 == v0.peaks.len(),
                v0.elements + 1 + t <= SIZE_CAP,
                k <= t,
                elem_idx == v0.elements + 1 + k,
                self.elements_count == v0.elements,
                self.leaves_count == v0.leaves,
                self.peaks@.len() == m0 - k + 1,
                str_views(self.peaks@) =~= v0.peaks.take(m0 - k).push(chain(v0.peaks, leaf_s, k as nat)),
                forall|j: int| 0 <= j < self.peaks@.len() ==> is_elem_hex(
                    #[trigger] self.peaks@[j]@,
                ),
                nodes_map(self.nodes@) =~= nodes_after(v0.nodes, v0.peaks, leaf_s, v0.elements, k as nat),
                index_map(self.index@) =~= index_after(v0.index, v0.peaks, leaf_s, v0.elements, k as nat),
                forall|kk: u64| nodes_map(self.nodes@).dom().contains(kk) ==> is_elem_hex(
                    #[trigger] nodes_map(self.nodes@)[kk],
                ),
            decreases t - k,
        {
            let len = self.peaks.len();
            proof {
                assert(len >= 2);
                assert(self.peaks@[len - 2]@ == str_views(self.peaks@)[len - 2]);
                assert(self.peaks@[len - 1]@ == str_views(self.peaks@)[len - 1]);
                assert(str_views(self.peaks@)[len - 2] == v0.peaks[m0 - k - 1]);
                assert(str_views(self.peaks@)[len - 1] == chain(v0.peaks, leaf_s, k as nat));
                assert(is_elem_hex(v0.peaks[m0 - k - 1]));
            }
            let parent = hash_pair(self.peaks[len - 2].as_str(), self.peaks[len - 1].as_str());
            proof {
                assert(v0.peaks.len() - (k + 1) == m0 - k - 1);
                assert(parent@ == chain(v0.peaks, leaf_s, (k + 1) as nat));
            }
            elem_idx = elem_idx + 1;
            let ghost nodes0 = self.nodes@;
            let ghost index0 = self.index@;
            let ghost peaks_view0 = str_views(self.peaks@);
            self.nodes.push((elem_idx, parent.clone()));
            self.index.push((parent.clone(), elem_idx));
            self.peaks.truncate(len - 2);
            self.peaks.push(parent);
            proof {
                assert(self.nodes@.drop_last() =~= nodes0);
                assert(self.index@.drop_last() =~= index0);
                assert(str_views(self.peaks@) =~= peaks_view0.take(len - 2).push(
                    chain(v0.peaks, leaf_s, (k + 1) as nat),
                ));
                assert(peaks_view0.take(len - 2) =~= v0.peaks.take(m0 - (k + 1)));
                assert(nodes_map(self.nodes@) =~= nodes_map(nodes0).insert(elem_idx, parent@));
                assert forall|kk: u64| nodes_map(self.nodes@).dom().contains(kk) implies
                    is_elem_hex(nodes_map(self.nodes@)[kk]) by {
                    if kk != elem_idx {
                        assert(nodes_map(self.nodes@)[kk] == nodes_map(nodes0)[kk]);
                    }
                }
            }
            k = k + 1;
        }
        self.elements_count = elem_idx;
        self.leaves_count = self.leaves_count + 1;
        proof {
            lemma_popcount_succ(v0.leaves as nat);
            assert(self@.peaks =~= merged_peaks(v0.peaks, leaf_s, t as nat));
            assert(self@.nodes =~= nodes_after(v0.nodes, v0.peaks, leaf_s, v0.elements, t as nat));
            assert(self@.index =~= index_after(v0.index, v0.peaks, leaf_s, v0.elements, t as nat));
            assert(self@ == spec_append(v0, leaf_s));
            assert(self@.peaks.len() == popcount(self@.leaves as nat));
            assert(self@.elements + popcount(self@.leaves as nat) == 2 * self@.leaves);
            assert(view_wf(self@));
        }
        let bag = self.bag_the_peaks();
        let root = match self.calculate_root_hash(bag.as_str(), self.elements_count) {
            Ok(h) => h,
            Err(e) => {
                proof {
                    assert(false);
                }
                return Err(e);
            },
        };
        Ok(AppendResult {
            element_index: leaf_index,
            leaves_count: self.leaves_count,
            elements_count: self.elements_count,
            root_hash: root,
        })
    }
}

/// Whether every position in `ps` has a stored hash.
pub open spec fn all_present(nodes: Map<u64, Seq<char>>, ps: Seq<u64>) -> bool {
    forall|i: int| 0 <= i < ps.len() ==> nodes.dom().contains(#[trigger] ps[i])
}

/// The stored hashes at the given positions.
pub open spec fn lookup_all(nodes: Map<u64, Seq<char>>, ps: Seq<u64>) -> Seq<Seq<char>> {
    ps.map_values(|p: u64| nodes[p])
}

/// The mathematical content of an inclusion proof.
pub struct ProofModel {
    pub element_index: u64,
    pub element_hash: Seq<char>,
    pub siblings: Seq<Seq<char>>,
    pub peaks: Seq<Seq<char>>,
    pub elements_count: u64,
}

/// The size a proof operation runs at: the explicit choice, or the current
/// element count.
pub open spec fn spec_tree_size(at: Option<u64>, current: u64) -> u64 {
    match at {
        Some(c) => c,
        None => current,
    }
}

/// What `get_proof` yields: each guard in the order the engine checks it.
pub open spec fn spec_get_proof(v: MmrView, element_index: u64, ts: u64) -> Result<
    ProofModel,
    MmrError,
> {
    if ts > v.elements {
        Err(MmrError::OutOfRange)
    } else if element_index == 0 || element_index > ts {
        Err(MmrError::InvalidElementIndex)
    } else if crate::positions::spec_leaf_index(element_index) is None {
        Err(MmrError::InvalidElementIndex)
    } else if crate::positions::spec_sibling_walk(
        element_index,
        crate::positions::spec_leaf_index(element_index)->Some_0,
        1,
        ts,
    ) is None {
        Err(MmrError::InvalidElementIndex)
    } else if !v.nodes.dom().contains(element_index) {
        Err(MmrError::MissingHash)
    } else if !all_present(
        v.nodes,
        crate::positions::spec_sibling_walk(
            element_index,
            crate::positions::spec_leaf_index(element_index)->Some_0,
            1,
            ts,
        )->Some_0,
    ) {
        Err(MmrError::MissingHash)
    } else if !all_present(v.nodes, crate::positions::spec_find_peaks(ts)) {
        Err(MmrError::MissingHash)
    } else {
        Ok(ProofModel {
            element_index,
            element_hash: v.nodes[element_index],
            siblings: lookup_all(
                v.nodes,
                crate::positions::spec_sibling_walk(
                    element_index,
                    crate::positions::spec_leaf_index(element_index)->Some_0,
                    1,
                    ts,
                )->Some_0,
            ),
            peaks: lookup_all(v.nodes, crate::positions::spec_find_peaks(ts)),
            elements_count: ts,
        })
    }
}

/// Whether an executable proof carries exactly a model's content.
pub open spec fn proof_matches(p: Proof, pm: ProofModel) -> bool {
    &&& p.element_index == pm.element_index
    &&& p.element_hash@ == pm.element_hash
    &&& str_views(p.siblings_hashes@) == pm.siblings
    &&& str_views(p.peaks_hashes@) == pm.peaks
    &&& p.elements_count == pm.elements_count
}

/// What `get_proofs` yields: the proofs in order, or the first failure.
pub open spec fn spec_get_proofs(v: MmrView, ids: Seq<u64>, ts: u64) -> Result<
    Seq<ProofModel>,
    MmrError,
>
    decreases ids.len(),
{
    if ids.len() == 0 {
        Ok(Seq::empty())
    } else {
        match spec_get_proofs(v, ids.drop_last(), ts) {
            Err(e) => Err(e),
            Ok(s) => match spec_get_proof(v, ids.last(), ts) {
                Err(e) => Err(e),
                Ok(p) => Ok(s.push(p)),
            },
        }
    }
}

/// The hash climbed from a leaf over its siblings: at each level the leaf
/// ordinal's parity says which side the sibling joins on.
pub open spec fn spec_climb(h: Seq<char>, lf: u64, sibs: Seq<Seq<char>>) -> Seq<char>
    decreases sibs.len(),
{
    if sibs.len() == 0 {
        h
    } else if lf % 2 == 0 {
        spec_climb(poseidon_pair(h, sibs.first()), (lf / 2) as u64, sibs.drop_first())
    } else {
        spec_climb(poseidon_pair(sibs.first(), h), (lf / 2) as u64, sibs.drop_first())
    }
}

/// What `verify_proof` yields: an error when the size is out of range or
/// a stored peak is missing, else the verdict of `spec_verify`.
pub open spec fn spec_verify_outcome(
    v: MmrView,
    element_index: u64,
    element_hash: Seq<char>,
    siblings: Seq<Seq<char>>,
    peaks: Seq<Seq<char>>,
    element_value: Seq<char>,
    at: Option<u64>,
) -> Result<bool, MmrError> {
    let ts = spec_tree_size(at, v.elements);
    if ts > v.elements {
        Err(MmrError::OutOfRange)
    } else if !all_present(v.nodes, crate::positions::spec_find_peaks(ts)) {
        Err(MmrError::MissingHash)
    } else {
        Ok(spec_verify(v, element_index, element_hash, siblings, peaks, element_value, ts))
    }
}

/// What `verify_proof` decides once the stored peaks are at hand: the
/// value must match the proof's leaf hash, everything must be well-formed
/// hex, the claimed peaks must equal the stored ones, and the climbed hash
/// must be among them.
pub open spec fn spec_verify(
    v: MmrView,
    element_index: u64,
    element_hash: Seq<char>,
    siblings: Seq<Seq<char>>,
    peaks: Seq<Seq<char>>,
    element_value: Seq<char>,
    ts: u64,
) -> bool {
    &&& 1 <= element_index <= ts
    &&& element_value == element_hash
    &&& is_elem_hex(element_value)
    &&& (forall|i: int| 0 <= i < siblings.len() ==> is_elem_hex(#[trigger] siblings[i]))
    &&& crate::positions::spec_leaf_index(element_index) is Some
    &&& peaks == lookup_all(v.nodes, crate::positions::spec_find_peaks(ts))
    &&& peaks.contains(
        spec_climb(
            element_value,
            crate::positions::spec_leaf_index(element_index)->Some_0,
            siblings,
        ),
    )
}

/// Looks up the hashes at the given positions, `None` when any is absent.
pub fn lookup_hashes(table: &Vec<(u64, String)>, positions: &Vec<u64>) -> (r: Option<
    Vec<String>,
>)
    ensures
        r matches Some(hs) ==> all_present(nodes_map(table@), positions@) && str_views(hs@)
            == lookup_all(nodes_map(table@), positions@),
        r is None ==> !all_present(nodes_map(table@), positions@),
{
    let mut out: Vec<String> = Vec::new();
    let mut i: usize = 0;
    while i < positions.len()
        invariant
            i <= positions@.len(),
            out@.len() == i,
            forall|j: int| 0 <= j < i ==> nodes_map(table@).dom().contains(
                #[trigger] positions@[j],
            ),
            forall|j: int| 0 <= j < i ==> #[trigger] out@[j]@ == nodes_map(
                table@,
            )[positions@[j]],
        decreases positions@.len() - i,
    {
        match node_search(table, positions[i]) {
            Some(h) => {
                out.push(h);
            },
            None => {
                return None;
            },
        }
        i += 1;
    }
    proof {
        assert(str_views(out@) =~= lookup_all(nodes_map(table@), positions@));
    }
    Some(out)
}

/// Whether every string in `v` is a well-formed node hash.
pub fn all_elem_hex(v: &Vec<String>) -> (b: bool)
    ensures
        b == (forall|i: int|
            0 <= i < str_views(v@).len() ==> is_elem_hex(#[trigger] str_views(v@)[i])),
{
    let mut i: usize = 0;
    while i < v.len()
        invariant
            i <= v@.len(),
            forall|j: int| 0 <= j < i ==> is_elem_hex(#[trigger] str_views(v@)[j]),
        decreases v@.len() - i,
    {
        proof {
            assert(str_views(v@)[i as int] == v@[i as int]@);
        }
        if !check_elem_hex(v[i].as_str()) {
            return false;
        }
        i += 1;
    }
    true
}

/// Whether two string vectors hold the same strings in the same order.
pub fn string_vecs_equal(a: &Vec<String>, b: &Vec<String>) -> (r: bool)
    ensures
        r == (str_views(a@) == str_views(b@)),
{
    if a.len() != b.len() {
        proof {
            assert(str_views(a@).len() != str_views(b@).len());
        }
        return false;
    }
    let mut i: usize = 0;
    while i < a.len()
        invariant
            a@.len() == b@.len(),
            i <= a@.len(),
            forall|j: int| 0 <= j < i ==> str_views(a@)[j] == str_views(b@)[j],
        decreases a@.len() - i,
    {
        if !a[i].eq(&b[i]) {
            proof {
                assert(str_views(a@)[i as int] != str_views(b@)[i as int]);
            }
            return false;
        }
        proof {
            assert(str_views(a@)[i as int] == str_views(b@)[i as int]);
        }
        i += 1;
    }
    proof {
        assert(str_views(a@) =~= str_views(b@));
    }
    true
}

/// Whether `x` occurs among the strings of `v`.
pub fn vec_contains_string(v: &Vec<String>, x: &String) -> (r: bool)
    ensures
        r == str_views(v@).contains(x@),
{
    let mut i: usize = 0;
    while i < v.len()
        invariant
            i <= v@.len(),
            forall|j: int| 0 <= j < i ==> str_views(v@)[j] != x@,
        decreases v@.len() - i,
    {
        if v[i].eq(x) {
            proof {
                assert(str_views(v@)[i as int] == x@);
            }
            return true;
        }
        i += 1;
    }
    proof {
        if str_views(v@).contains(x@) {
            let j = choose|j: int| 0 <= j < str_views(v@).len() && str_views(v@)[j] == x@;
            assert(false);
        }
    }
    false
}

/// Climbs from a leaf hash over the sibling hashes.
fn climb(start: &String, lf: u64, siblings: &Vec<String>) -> (r: String)
    requires
        is_elem_hex(start@),
        forall|i: int|
            0 <= i < str_views(siblings@).len() ==> is_elem_hex(
                #[trigger] str_views(siblings@)[i],
            ),
    ensures
        r@ == spec_climb(start@, lf, str_views(siblings@)),
        is_elem_hex(r@),
{
    let mut acc = start.clone();
    let mut l: u64 = lf;
    let mut i: usize = 0;
    proof {
        assert(str_views(siblings@).skip(0) =~= str_views(siblings@));
    }
    while i < siblings.len()
        invariant
            i <= siblings@.len(),
            is_elem_hex(acc@),
            forall|j: int|
                0 <= j < str_views(siblings@).len() ==> is_elem_hex(
                    #[trigger] str_views(siblings@)[j],
                ),
            spec_climb(start@, lf, str_views(siblings@)) == spec_climb(
                acc@,
                l,
                str_views(siblings@).skip(i as int),
            ),
        decreases siblings@.len() - i,
    {
        proof {
            assert(str_views(siblings@).skip(i as int).first() == siblings@[i as int]@);
            assert(str_views(siblings@).skip(i as int).drop_first() =~= str_views(
                siblings@,
            ).skip(i as int + 1));
            assert(is_elem_hex(str_views(siblings@)[i as int]));
            assert(siblings@[i as int]@ == str_views(siblings@)[i as int]);
        }
        if l % 2 == 0 {
            acc = hash_pair(acc.as_str(), siblings[i].as_str());
        } else {
            acc = hash_pair(siblings[i].as_str(), acc.as_str());
        }
        l = l / 2;
        i += 1;
    }
    proof {
        assert(str_views(siblings@).skip(siblings@.len() as int) =~= Seq::<Seq<char>>::empty());
    }
    acc
}

/// The node table after recording every `(index, hash)` pair, later pairs
/// winning.
pub open spec fn insert_pairs(nodes: Map<u64, Seq<char>>, pairs: Seq<(u64, String)>) -> Map<
    u64,
    Seq<char>,
>
    decreases pairs.len(),
{
    if pairs.len() == 0 {
        nodes
    } else {
        insert_pairs(nodes, pairs.drop_last()).insert(pairs.last().0, pairs.last().1@)
    }
}

/// The hash-to-index table after recording every `(index, hash)` pair.
pub open spec fn insert_index_pairs(index: Map<Seq<char>, u64>, pairs: Seq<(u64, String)>) -> Map<
    Seq<char>,
    u64,
>
    decreases pairs.len(),
{
    if pairs.len() == 0 {
        index
    } else {
        insert_index_pairs(index, pairs.drop_last()).insert(pairs.last().1@, pairs.last().0)
    }
}

/// Copies a vector of `(index, hash)` pairs.
fn clone_pairs(v: &Vec<(u64, String)>) -> (r: Vec<(u64, String)>)
    ensures
        r@ =~= v@,
{
    let mut r: Vec<(u64, String)> = Vec::new();
    let mut i: usize = 0;
    while i < v.len()
        invariant
            i <= v@.len(),
            r@ =~= v@.take(i as int),
        decreases v@.len() - i,
    {
        r.push((v[i].0, v[i].1.clone()));
        proof {
            assert(v@.take(i as int).push(v@[i as int]) =~= v@.take(i as int + 1));
        }
        i += 1;
    }
    proof {
        assert(v@.take(v@.len() as int) =~= v@);
    }
    r
}

/// Copies a vector of `(hash, index)` pairs.
fn clone_index_pairs(v: &Vec<(String, u64)>) -> (r: Vec<(String, u64)>)
    ensures
        r@ =~= v@,
{
    let mut r: Vec<(String, u64)> = Vec::new();
    let mut i: usize = 0;
    while i < v.len()
        invariant
            i <= v@.len(),
            r@ =~= v@.take(i as int),
        decreases v@.len() - i,
    {
        r.push((v[i].0.clone(), v[i].1));
        proof {
            assert(v@.take(i as int).push(v@[i as int]) =~= v@.take(i as int + 1));
        }
        i += 1;
    }
    proof {
        assert(v@.take(v@.len() as int) =~= v@);
    }
    r
}

impl Mmr {
    /// An inclusion proof for the leaf at `element_index`, at the current
    /// size or a historical one.  Fails on a position that is not a leaf
    /// within the chosen size, and on any hash the store is missing.
    pub fn get_proof(&self, element_index: u64, at: Option<u64>) -> (r: Result<Proof, MmrError>)
        requires
            self.wf(),
        ensures
            r matches Ok(p) ==> (spec_get_proof(
                self@,
                element_index,
                spec_tree_size(at, self@.elements),
            ) matches Ok(pm) && proof_matches(p, pm)),
            r matches Err(e) ==> spec_get_proof(
                self@,
                element_index,
                spec_tree_size(at, self@.elements),
            ) == Err::<ProofModel, MmrError>(e),
    {
        let ts: u64 = match at {
            Some(c) => c,
            None => self.elements_count,
        };
        if ts > self.elements_count {
            return Err(MmrError::OutOfRange);
        }
        if element_index == 0 || element_index > ts {
            return Err(MmrError::InvalidElementIndex);
        }
        let lf = match crate::positions::leaf_index_of(element_index) {
            Some(l) => l,
            None => {
                return Err(MmrError::InvalidElementIndex);
            },
        };
        let sib_positions = match crate::positions::sibling_walk(element_index, lf, ts) {
            Some(v) => v,
            None => {
                return Err(MmrError::InvalidElementIndex);
            },
        };
        let element_hash = match node_search(&self.nodes, element_index) {
            Some(h) => h,
            None => {
                return Err(MmrError::MissingHash);
            },
        };
        let siblings_hashes = match lookup_hashes(&self.nodes, &sib_positions) {
            Some(v) => v,
            None => {
                return Err(MmrError::MissingHash);
            },
        };
        let positions = crate::positions::find_peaks(ts);
        let peaks_hashes = match lookup_hashes(&self.nodes, &positions) {
            Some(v) => v,
            None => {
                return Err(MmrError::MissingHash);
            },
        };
        Ok(Proof {
            element_index,
            element_hash,
            siblings_hashes,
            peaks_hashes,
            elements_count: ts,
        })
    }

    /// Inclusion proofs for several leaves, in order; the first failure
    /// wins.
    pub fn get_proofs(&self, element_indexes: &Vec<u64>, at: Option<u64>) -> (r: Result<
        Vec<Proof>,
        MmrError,
    >)
        requires
            self.wf(),
        ensures
            r matches Ok(ps) ==> (spec_get_proofs(
                self@,
                element_indexes@,
                spec_tree_size(at, self@.elements),
            ) matches Ok(ms) && ps@.len() == ms.len() && forall|i: int|
                0 <= i < ms.len() ==> proof_matches(#[trigger] ps@[i], ms[i])),
            r matches Err(e) ==> spec_get_proofs(
                self@,
                element_indexes@,
                spec_tree_size(at, self@.elements),
            ) == Err::<Seq<ProofModel>, MmrError>(e),
    {
        let ghost ts = spec_tree_size(at, self@.elements);
        let mut out: Vec<Proof> = Vec::new();
        let mut i: usize = 0;
        proof {
            assert(element_indexes@.take(0) =~= Seq::<u64>::empty());
        }
        while i < element_indexes.len()
            invariant
                self.wf(),
                ts == spec_tree_size(at, self@.elements),
                i <= element_indexes@.len(),
                spec_get_proofs(self@, element_indexes@.take(i as int), ts) is Ok,
                out@.len() == spec_get_proofs(
                    self@,
                    element_indexes@.take(i as int),
                    ts,
                )->Ok_0.len(),
                out@.len() == i,
                forall|j: int| 0 <= j < i ==> proof_matches(
                    #[trigger] out@[j],
                    spec_get_proofs(self@, element_indexes@.take(i as int), ts)->Ok_0[j],
                ),
            decreases element_indexes@.len() - i,
        {
            let ghost pre = spec_get_proofs(self@, element_indexes@.take(i as int), ts);
            let ghost out0 = out@;
            match self.get_proof(element_indexes[i], at) {
                Ok(p) => {
                    out.push(p);
                },
                Err(e) => {
                    proof {
                        assert(element_indexes@.take(i as int + 1).drop_last()
                            =~= element_indexes@.take(i as int));
                        assert(element_indexes@.take(i as int + 1).last()
                            == element_indexes@[i as int]);
                        assert(spec_get_proofs(self@, element_indexes@.take(i as int + 1), ts)
                            == Err::<Seq<ProofModel>, MmrError>(e));
                        lemma_get_proofs_err(self@, element_indexes@, ts, i as int + 1);
                    }
                    return Err(e);
                },
            }
            proof {
                assert(element_indexes@.take(i as int + 1).drop_last() =~= element_indexes@.take(
                    i as int,
                ));
                assert(element_indexes@.take(i as int + 1).last()
                    == element_indexes@[i as int]);
                let ms1 = spec_get_proofs(self@, element_indexes@.take(i as int + 1), ts);
                assert(ms1 is Ok);
                assert(ms1->Ok_0 =~= pre->Ok_0.push(
                    spec_get_proof(self@, element_indexes@[i as int], ts)->Ok_0,
                ));
                assert(out@.drop_last() =~= out0);
                assert forall|j: int| 0 <= j < out@.len() implies proof_matches(
                    out@[j],
                    ms1->Ok_0[j],
                ) by {
                    if j < i as int {
                        assert(out@[j] == out@.drop_last()[j]);
                        assert(ms1->Ok_0[j] == pre->Ok_0[j]);
                        assert(proof_matches(out0[j], pre->Ok_0[j]));
                    } else {
                        assert(out@[j] == out@.last());
                    }
                }
            }
            i += 1;
        }
        proof {
            assert(element_indexes@.take(element_indexes@.len() as int) =~= element_indexes@);
        }
        Ok(out)
    }

    /// Verifies an inclusion proof against the stored peaks at the chosen
    /// size.  Returns `false` on any mismatch; errors only when the size
    /// is out of range or a stored peak is missing.
    pub fn verify_proof(&self, proof: &Proof, element_value: &String, at: Option<u64>) -> (r:
        Result<bool, MmrError>)
        requires
            self.wf(),
        ensures
            r == spec_verify_outcome(
                self@,
                proof.element_index,
                proof.element_hash@,
                str_views(proof.siblings_hashes@),
                str_views(proof.peaks_hashes@),
                element_value@,
                at,
            ),
    {
        let ts: u64 = match at {
            Some(c) => c,
            None => self.elements_count,
        };
        if ts > self.elements_count {
            return Err(MmrError::OutOfRange);
        }
        let positions = crate::positions::find_peaks(ts);
        let stored_peaks = match lookup_hashes(&self.nodes, &positions) {
            Some(v) => v,
            None => {
                return Err(MmrError::MissingHash);
            },
        };
        if proof.element_index == 0 || proof.element_index > ts {
            proof {
                assert(ts == spec_tree_size(at, self@.elements));
                assert(ts <= self@.elements);
                assert(all_present(self@.nodes, crate::positions::spec_find_peaks(ts)));
                assert(!spec_verify(
                    self@,
                    proof.element_index,
                    proof.element_hash@,
                    str_views(proof.siblings_hashes@),
                    str_views(proof.peaks_hashes@),
                    element_value@,
                    ts,
                ));
            }
            return Ok(false);
        }
        if !element_value.eq(&proof.element_hash) {
            return Ok(false);
        }
        if !check_elem_hex(element_value.as_str()) {
            return Ok(false);
        }
        if !all_elem_hex(&proof.siblings_hashes) {
            return Ok(false);
        }
        let lf = match crate::positions::leaf_index_of(proof.element_index) {
            Some(l) => l,
            None => {
                return Ok(false);
            },
        };
        if !string_vecs_equal(&proof.peaks_hashes, &stored_peaks) {
            return Ok(false);
        }
        let climbed = climb(element_value, lf, &proof.siblings_hashes);
        Ok(vec_contains_string(&proof.peaks_hashes, &climbed))
    }

    /// Applies a guest-reported state: records every `(index, hash)` pair,
    /// verifies the stored hashes at the new peak positions against the
    /// reported peaks, and only then adopts the new counters and peaks.
    /// On any failure the state is untouched.
    pub fn apply_guest_update(
        &mut self,
        new_elements: u64,
        new_leaves: u64,
        all_hashes: &Vec<(u64, String)>,
        final_peaks: &Vec<String>,
    ) -> (r: Result<(), MmrError>)
        requires
            old(self).wf(),
            new_elements + popcount(new_leaves as nat) == 2 * new_leaves,
            new_elements <= SIZE_CAP,
            final_peaks@.len() == popcount(new_leaves as nat),
            forall|i: int| 0 <= i < final_peaks@.len() ==> is_elem_hex(
                #[trigger] final_peaks@[i]@,
            ),
            forall|i: int| 0 <= i < all_hashes@.len() ==> is_elem_hex(
                #[trigger] all_hashes@[i].1@,
            ),
        ensures
            final(self).wf(),
            ({
                let un = insert_pairs(old(self)@.nodes, all_hashes@);
                let ui = insert_index_pairs(old(self)@.index, all_hashes@);
                let ps = crate::positions::spec_find_peaks(new_elements);
                &&& !all_present(un, ps) ==> (r matches Err(MmrError::MissingHash)
                    && final(self)@ == old(self)@)
                &&& all_present(un, ps) && lookup_all(un, ps) != str_views(final_peaks@) ==> (
                r matches Err(MmrError::InvalidInput) && final(self)@ == old(self)@)
                &&& all_present(un, ps) && lookup_all(un, ps) == str_views(final_peaks@) ==> (
                r is Ok && final(self)@.elements == new_elements && final(self)@.leaves
                    == new_leaves && final(self)@.peaks == str_views(final_peaks@)
                    && final(self)@.nodes == un && final(self)@.index == ui)
            }),
    {
        let ghost v0 = self@;
        let mut new_nodes = clone_pairs(&self.nodes);
        let mut new_index = clone_index_pairs(&self.index);
        let mut i: usize = 0;
        proof {
            assert(all_hashes@.take(0) =~= Seq::<(u64, String)>::empty());
            assert(nodes_map(new_nodes@) =~= nodes_map(self.nodes@));
            assert(index_map(new_index@) =~= index_map(self.index@));
        }
        while i < all_hashes.len()
            invariant
                view_wf(v0),
                v0 == self@,
                i <= all_hashes@.len(),
                forall|j: int| 0 <= j < all_hashes@.len() ==> is_elem_hex(
                    #[trigger] all_hashes@[j].1@,
                ),
                nodes_map(new_nodes@) =~= insert_pairs(v0.nodes, all_hashes@.take(i as int)),
                index_map(new_index@) =~= insert_index_pairs(
                    v0.index,
                    all_hashes@.take(i as int),
                ),
                forall|kk: u64| nodes_map(new_nodes@).dom().contains(kk) ==> is_elem_hex(
                    #[trigger] nodes_map(new_nodes@)[kk],
                ),
            decreases all_hashes@.len() - i,
        {
            let ghost nn0 = new_nodes@;
            let ghost ni0 = new_index@;
            new_nodes.push((all_hashes[i].0, all_hashes[i].1.clone()));
            new_index.push((all_hashes[i].1.clone(), all_hashes[i].0));
            proof {
                assert(new_nodes@.drop_last() =~= nn0);
                assert(new_index@.drop_last() =~= ni0);
                assert(all_hashes@.take(i as int + 1).drop_last() =~= all_hashes@.take(
                    i as int,
                ));
                assert(all_hashes@.take(i as int + 1).last() == all_hashes@[i as int]);
                assert(new_nodes@.last().1@ == all_hashes@[i as int].1@);
                assert(nodes_map(new_nodes@) =~= insert_pairs(
                    v0.nodes,
                    all_hashes@.take(i as int + 1),
                ));
                assert(index_map(new_index@) =~= insert_index_pairs(
                    v0.index,
                    all_hashes@.take(i as int + 1),
                ));
                assert forall|kk: u64| nodes_map(new_nodes@).dom().contains(kk) implies
                    is_elem_hex(nodes_map(new_nodes@)[kk]) by {
                    if kk != all_hashes@[i as int].0 {
                        assert(nodes_map(new_nodes@)[kk] == nodes_map(nn0)[kk]);
                    }
                }
            }
            i += 1;
        }
        proof {
            assert(all_hashes@.take(all_hashes@.len() as int) =~= all_hashes@);
        }
        let positions = crate::positions::find_peaks(new_elements);
        let stored_peaks = match lookup_hashes(&new_nodes, &positions) {
            Some(v) => v,
            None => {
                return Err(MmrError::MissingHash);
            },
        };
        if !string_vecs_equal(&stored_peaks, final_peaks) {
            return Err(MmrError::InvalidInput);
        }
        self.nodes = new_nodes;
        self.index = new_index;
        self.elements_count = new_elements;
        self.leaves_count = new_leaves;
        self.peaks = clone_string_vec(final_peaks);
        proof {
            assert(str_views(self.peaks@) =~= str_views(final_peaks@));
            assert(view_wf(self@));
        }
        Ok(())
    }
}

/// Once a prefix of the requested proofs fails, the whole request fails
/// with the same error.
proof fn lemma_get_proofs_err(v: MmrView, ids: Seq<u64>, ts: u64, i: int)
    requires
        0 <= i <= ids.len(),
        spec_get_proofs(v, ids.take(i), ts) is Err,
    ensures
        spec_get_proofs(v, ids, ts) == spec_get_proofs(v, ids.take(i), ts),
    decreases ids.len() - i,
{
    if i == ids.len() {
        assert(ids.take(i) =~= ids);
    } else {
        assert(ids.take(i + 1).drop_last() =~= ids.take(i));
        lemma_get_proofs_err(v, ids, ts, i + 1);
    }
}

/// Recorded pairs keep the two tables aligned: for a pair whose index and
/// hash no later pair overrides, the node table at the index yields the
/// hash, and the auxiliary table at the hash yields the index.
pub proof fn lemma_pairs_round_trip(
    nodes: Map<u64, Seq<char>>,
    index: Map<Seq<char>, u64>,
    pairs: Seq<(u64, String)>,
    j: int,
)
    requires
        0 <= j < pairs.len(),
        forall|k: int| j < k < pairs.len() ==> (#[trigger] pairs[k]).0 != pairs[j].0,
        forall|k: int| j < k < pairs.len() ==> (#[trigger] pairs[k]).1@ != pairs[j].1@,
    ensures
        insert_pairs(nodes, pairs).dom().contains(pairs[j].0),
        insert_pairs(nodes, pairs)[pairs[j].0] == pairs[j].1@,
        insert_index_pairs(index, pairs).dom().contains(pairs[j].1@),
        insert_index_pairs(index, pairs)[pairs[j].1@] == pairs[j].0,
    decreases pairs.len(),
{
    if j == pairs.len() - 1 {
    } else {
        assert(pairs.drop_last()[j] == pairs[j]);
        assert(pairs.last() == pairs[pairs.len() - 1]);
        lemma_pairs_round_trip(nodes, index, pairs.drop_last(), j);
    }
}

/// The empty MMR state.
pub open spec fn empty_view() -> MmrView {
    MmrView {
        elements: 0,
        leaves: 0,
        peaks: Seq::empty(),
        nodes: Map::empty(),
        index: Map::empty(),
    }
}

/// The state reached by appending a sequence of leaves to the empty MMR.
pub open spec fn mmr_after(leaves: Seq<Seq<char>>) -> MmrView
    decreases leaves.len(),
{
    if leaves.len() == 0 {
        empty_view()
    } else {
        spec_append(mmr_after(leaves.drop_last()), leaves.last())
    }
}

/// Root determinism: every build of the same leaf sequence ends in the
/// same state and reports the same root.  Each executable `append` is
/// pinned to `spec_append`, so any two runs that start from the empty MMR
/// and append the same leaves both end in `mmr_after(leaves)`; this lemma
/// states that that state, and with it the root, is unique.
pub proof fn lemma_root_deterministic(leaves: Seq<Seq<char>>, v1: MmrView, v2: MmrView)
    requires
        v1 == mmr_after(leaves),
        v2 == mmr_after(leaves),
    ensures
        v1 == v2,
        spec_root_hash(v1.elements, v1.peaks) == spec_root_hash(v2.elements, v2.peaks),
{
}

/// A successful proof request answers one proof per requested index.
pub proof fn lemma_spec_get_proofs_len(v: MmrView, ids: Seq<u64>, ts: u64)
    requires
        spec_get_proofs(v, ids, ts) is Ok,
    ensures
        spec_get_proofs(v, ids, ts)->Ok_0.len() == ids.len(),
    decreases ids.len(),
{
    if ids.len() > 0 {
        lemma_spec_get_proofs_len(v, ids.drop_last(), ts);
    }
}

} // verus!
