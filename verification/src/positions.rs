//! Position arithmetic of the Merkle Mountain Range.
//!
//! Element indices are 1-based in append order.  An MMR of `l` leaves holds
//! `2l - popcount(l)` elements and `popcount(l)` peaks; the peak positions
//! follow from the size alone by greedy decomposition into complete
//! mountains.

use vstd::prelude::*;

verus! {

/// The engine's size cap: element counts stay below 2^60, so every position
/// computation fits comfortably in a `u64`.
pub const SIZE_CAP: u64 = 0x1000_0000_0000_0000;

/// The number of set bits of `n`.
pub open spec fn popcount(n: nat) -> nat
    decreases n,
{
    if n == 0 {
        0
    } else {
        n % 2 + popcount(n / 2)
    }
}

/// The number of trailing set bits of `n`.
pub open spec fn trailing_ones(n: nat) -> nat
    decreases n,
{
    if n % 2 == 1 {
        1 + trailing_ones(n / 2)
    } else {
        0
    }
}

/// The set bits of `n` are at most `n`.
pub proof fn lemma_popcount_le(n: nat)
    ensures
        popcount(n) <= n,
    decreases n,
{
    if n > 0 {
        lemma_popcount_le(n / 2);
    }
}

/// The trailing set bits are among the set bits.
pub proof fn lemma_trailing_le_popcount(n: nat)
    ensures
        trailing_ones(n) <= popcount(n),
    decreases n,
{
    if n % 2 == 1 {
        lemma_trailing_le_popcount(n / 2);
    }
}

/// Incrementing clears the trailing ones and sets one bit above them.
pub proof fn lemma_popcount_succ(n: nat)
    ensures
        popcount(n + 1) + trailing_ones(n) == popcount(n) + 1,
    decreases n,
{
    if n % 2 == 1 {
        lemma_popcount_succ(n / 2);
        assert((n + 1) / 2 == n / 2 + 1);
        assert((n + 1) % 2 == 0);
    }
}

/// Counts the set bits of `n`.
pub fn popcount_u64(n: u64) -> (r: u64)
    ensures
        r == popcount(n as nat),
{
    proof {
        lemma_popcount_le(n as nat);
    }
    let mut c: u64 = 0;
    let mut m: u64 = n;
    while m > 0
        invariant
            c + popcount(m as nat) == popcount(n as nat),
            popcount(n as nat) <= n,
        decreases m,
    {
        c = c + m % 2;
        m = m / 2;
    }
    c
}

/// Counts the trailing set bits of `n`.
pub fn trailing_ones_u64(n: u64) -> (r: u64)
    ensures
        r == trailing_ones(n as nat),
{
    proof {
        lemma_trailing_le_popcount(n as nat);
        lemma_popcount_le(n as nat);
    }
    let mut c: u64 = 0;
    let mut m: u64 = n;
    while m % 2 == 1
        invariant
            c + trailing_ones(m as nat) == trailing_ones(n as nat),
            trailing_ones(n as nat) <= n,
        decreases m,
    {
        c = c + 1;
        m = m / 2;
    }
    c
}

/// The largest all-ones number at least `n`: one less than the next power
/// of two, the size of the largest complete mountain to try.
pub open spec fn lms64(n: u64) -> u64
    decreases n,
{
    if n == 0 {
        0
    } else {
        (2 * lms64((n / 2) as u64) + 1) as u64
    }
}

/// For positive `n` below the cap, `n <= lms64(n) <= 2n - 1`.
pub proof fn lemma_lms64_bounds(n: u64)
    requires
        n <= 2 * SIZE_CAP,
    ensures
        n >= 1 ==> n <= lms64(n) <= 2 * n - 1,
        n == 0 ==> lms64(n) == 0,
    decreases n,
{
    if n >= 1 {
        lemma_lms64_bounds((n / 2) as u64);
    }
}

/// Computes `lms64`.
pub fn lms_exec(n: u64) -> (r: u64)
    requires
        n <= 2 * SIZE_CAP,
    ensures
        r == lms64(n),
    decreases n,
{
    proof {
        lemma_lms64_bounds(n);
    }
    if n == 0 {
        0
    } else {
        let h = lms_exec(n / 2);
        proof {
            lemma_lms64_bounds((n / 2) as u64);
        }
        2 * h + 1
    }
}

/// The peak positions found by greedy decomposition: `remaining` elements
/// left, the next mountain size to try, positions shifted by `shift`.
pub open spec fn peaks_acc(remaining: u64, msize: u64, shift: u64) -> Seq<u64>
    decreases msize,
{
    if msize == 0 {
        Seq::empty()
    } else if msize <= remaining {
        seq![(shift + msize) as u64] + peaks_acc(
            (remaining - msize) as u64,
            (msize / 2) as u64,
            (shift + msize) as u64,
        )
    } else {
        peaks_acc(remaining, (msize / 2) as u64, shift)
    }
}

/// What the greedy decomposition leaves over; zero exactly for well-formed
/// sizes.
pub open spec fn rem_acc(remaining: u64, msize: u64) -> u64
    decreases msize,
{
    if msize == 0 {
        remaining
    } else if msize <= remaining {
        rem_acc((remaining - msize) as u64, (msize / 2) as u64)
    } else {
        rem_acc(remaining, (msize / 2) as u64)
    }
}

/// Whether `n` is the element count of some MMR.
pub open spec fn is_valid_mmr_size(n: u64) -> bool {
    rem_acc(n, lms64(n)) == 0
}

/// The peak positions of an MMR of size `n`, ascending; empty when `n` is
/// not a well-formed size.
pub open spec fn spec_find_peaks(n: u64) -> Seq<u64> {
    if is_valid_mmr_size(n) {
        peaks_acc(n, lms64(n), 0)
    } else {
        Seq::empty()
    }
}

/// The peak element positions of an MMR with `elements_count` elements,
/// ascending; an empty vector when the size is not well formed.
pub fn find_peaks(elements_count: u64) -> (r: Vec<u64>)
    requires
        elements_count <= SIZE_CAP,
    ensures
        r@ == spec_find_peaks(elements_count),
{
    let mut peaks: Vec<u64> = Vec::new();
    let mut msize: u64 = lms_exec(elements_count);
    let mut remaining: u64 = elements_count;
    let mut shift: u64 = 0;
    proof {
        lemma_lms64_bounds(elements_count);
        assert(peaks@ + peaks_acc(remaining, msize, shift) =~= peaks_acc(
            elements_count,
            lms64(elements_count),
            0,
        ));
    }
    while msize > 0
        invariant
            shift + remaining == elements_count,
            elements_count <= SIZE_CAP,
            peaks@ + peaks_acc(remaining, msize, shift) =~= peaks_acc(
                elements_count,
                lms64(elements_count),
                0,
            ),
            rem_acc(remaining, msize) == rem_acc(elements_count, lms64(elements_count)),
        decreases msize,
    {
        let ghost acc0 = peaks@;
        let ghost rem0 = remaining;
        let ghost msize0 = msize;
        let ghost shift0 = shift;
        if msize <= remaining {
            peaks.push(shift + msize);
            shift = shift + msize;
            remaining = remaining - msize;
        }
        msize = msize / 2;
        proof {
            if msize0 <= rem0 {
                assert(peaks_acc(rem0, msize0, shift0) =~= seq![(shift0 + msize0) as u64]
                    + peaks_acc(remaining, msize, shift));
                assert(acc0 + peaks_acc(rem0, msize0, shift0) =~= peaks@ + peaks_acc(
                    remaining,
                    msize,
                    shift,
                ));
            }
        }
    }
    proof {
        assert(peaks_acc(remaining, 0, shift) =~= Seq::<u64>::empty());
        assert(peaks@ + Seq::<u64>::empty() =~= peaks@);
    }
    if remaining > 0 {
        let empty: Vec<u64> = Vec::new();
        return empty;
    }
    peaks
}

/// The number of leaves among `remaining` elements under greedy mountain
/// decomposition; `None` when the elements do not form complete mountains.
pub open spec fn leaves_in(remaining: u64, msize: u64) -> Option<u64>
    decreases msize,
{
    if msize == 0 {
        if remaining == 0 {
            Some(0)
        } else {
            None
        }
    } else if msize <= remaining {
        match leaves_in((remaining - msize) as u64, (msize / 2) as u64) {
            Some(l) => Some((l + (msize + 1) / 2) as u64),
            None => None,
        }
    } else {
        leaves_in(remaining, (msize / 2) as u64)
    }
}

proof fn lemma_leaves_in_le(remaining: u64, msize: u64)
    requires
        msize <= 2 * SIZE_CAP + 1,
    ensures
        leaves_in(remaining, msize) matches Some(l) ==> l <= remaining,
    decreases msize,
{
    if msize == 0 {
    } else if msize <= remaining {
        lemma_leaves_in_le((remaining - msize) as u64, (msize / 2) as u64);
    } else {
        lemma_leaves_in_le(remaining, (msize / 2) as u64);
    }
}

fn leaves_in_exec(remaining: u64, msize: u64) -> (r: Option<u64>)
    requires
        remaining <= SIZE_CAP,
        msize <= 2 * SIZE_CAP + 1,
    ensures
        r == leaves_in(remaining, msize),
    decreases msize,
{
    if msize == 0 {
        if remaining == 0 {
            Some(0)
        } else {
            None
        }
    } else if msize <= remaining {
        proof {
            lemma_leaves_in_le((remaining - msize) as u64, (msize / 2) as u64);
        }
        match leaves_in_exec(remaining - msize, msize / 2) {
            Some(l) => Some(l + (msize + 1) / 2),
            None => None,
        }
    } else {
        leaves_in_exec(remaining, msize / 2)
    }
}

/// The leaf ordinal (0-based) of the element at `element_index`; `None`
/// when the position is not a leaf.
pub open spec fn spec_leaf_index(element_index: u64) -> Option<u64> {
    if element_index == 0 {
        None
    } else {
        leaves_in((element_index - 1) as u64, lms64((element_index - 1) as u64))
    }
}

/// Computes the leaf ordinal of an element position, `None` for interior
/// positions.
pub fn leaf_index_of(element_index: u64) -> (r: Option<u64>)
    requires
        element_index <= SIZE_CAP,
    ensures
        r == spec_leaf_index(element_index),
{
    if element_index == 0 {
        return None;
    }
    proof {
        lemma_lms64_bounds((element_index - 1) as u64);
    }
    let below = element_index - 1;
    leaves_in_exec(below, lms_exec(below))
}

/// The sibling positions climbing from `pos` (a leaf at ordinal `lf`) to
/// its peak in an MMR of size `n`; `off` is the current subtree size.
/// `None` marks a walk that leaves the tree, which no well-formed input
/// produces.
pub open spec fn spec_sibling_walk(pos: u64, lf: u64, off: u64, n: u64) -> Option<Seq<u64>>
    decreases n - pos,
{
    if pos == 0 || pos > n {
        None
    } else if lf % 2 == 0 {
        if pos + off + 1 > n {
            Some(Seq::empty())
        } else {
            match spec_sibling_walk(
                (pos + off + 1) as u64,
                (lf / 2) as u64,
                (2 * off + 1) as u64,
                n,
            ) {
                Some(s) => Some(seq![(pos + off) as u64] + s),
                None => None,
            }
        }
    } else {
        if off > pos {
            None
        } else if pos + 1 > n {
            Some(Seq::empty())
        } else {
            match spec_sibling_walk((pos + 1) as u64, (lf / 2) as u64, (2 * off + 1) as u64, n) {
                Some(s) => Some(seq![(pos - off) as u64] + s),
                None => None,
            }
        }
    }
}

/// Computes the sibling positions from leaf position `pos` with leaf
/// ordinal `lf` up to its peak.
pub fn sibling_walk(pos: u64, lf: u64, n: u64) -> (r: Option<Vec<u64>>)
    requires
        n <= SIZE_CAP,
        1 <= pos <= n,
    ensures
        match r {
            Some(v) => spec_sibling_walk(pos, lf, 1, n) == Some(v@),
            None => spec_sibling_walk(pos, lf, 1, n) is None,
        },
{
    let mut sibs: Vec<u64> = Vec::new();
    let mut cur: u64 = pos;
    let mut l: u64 = lf;
    let mut off: u64 = 1;
    proof {
        assert(sibs@ =~= Seq::<u64>::empty());
    }
    loop
        invariant
            n <= SIZE_CAP,
            1 <= cur <= n,
            off <= 2 * n + 1,
            (match spec_sibling_walk(cur, l, off, n) {
                Some(s) => spec_sibling_walk(pos, lf, 1, n) == Some(sibs@ + s),
                None => spec_sibling_walk(pos, lf, 1, n) is None,
            }),
        ensures
            (match spec_sibling_walk(pos, lf, 1, n) {
                Some(s) => s == sibs@,
                None => false,
            }),
        decreases n - cur,
    {
        let ghost w0 = spec_sibling_walk(cur, l, off, n);
        let ghost acc0 = sibs@;
        if l % 2 == 0 {
            if cur + off + 1 > n {
                proof {
                    assert(spec_sibling_walk(cur, l, off, n) == Some(Seq::<u64>::empty()));
                    assert(sibs@ + Seq::<u64>::empty() =~= sibs@);
                }
                break;
            }
            let sib = cur + off;
            sibs.push(sib);
            cur = cur + off + 1;
            l = l / 2;
            off = 2 * off + 1;
            proof {
                let w1 = spec_sibling_walk(cur, l, off, n);
                if w1 is Some {
                    assert(w0 == Some(seq![sib] + w1->Some_0));
                    assert(acc0 + (seq![sib] + w1->Some_0) =~= sibs@ + w1->Some_0);
                }
            }
        } else {
            if off > cur {
                return None;
            }
            if cur + 1 > n {
                proof {
                    assert(spec_sibling_walk(cur, l, off, n) == Some(Seq::<u64>::empty()));
                    assert(sibs@ + Seq::<u64>::empty() =~= sibs@);
                }
                break;
            }
            let sib = cur - off;
            sibs.push(sib);
            cur = cur + 1;
            l = l / 2;
            off = 2 * off + 1;
            proof {
                let w1 = spec_sibling_walk(cur, l, off, n);
                if w1 is Some {
                    assert(w0 == Some(seq![sib] + w1->Some_0));
                    assert(acc0 + (seq![sib] + w1->Some_0) =~= sibs@ + w1->Some_0);
                }
            }
        }
    }
    Some(sibs)
}

} // verus!
