//! The Poseidon pair hash, the one operation taken on trust.

use vstd::prelude::*;

use crate::hex::is_elem_hex;
use starknet_crypto::poseidon_hash;
use starknet_crypto::Felt;

verus! {

/// The Poseidon hash of two field elements, each given as its hex string;
/// the result as the canonical hex string of the digest.
pub uninterp spec fn poseidon_pair(a: Seq<char>, b: Seq<char>) -> Seq<char>;

/// Relies on `starknet_crypto::poseidon_hash` over
/// `starknet_types_core::felt::Felt`: the digest depends on the two input
/// strings alone.  `Felt::from_hex_unchecked` accepts any `0x`-prefixed
/// string of 1 to 64 hex digits, reducing the value modulo the field prime,
/// and `Felt::to_hex_string` renders a field element as `0x` plus minimal
/// lowercase hex, at most 63 digits.
#[verifier::external_body]
pub fn hash_pair(a: &str, b: &str) -> (r: String)
    requires
        is_elem_hex(a@),
        is_elem_hex(b@),
    ensures
        r@ == poseidon_pair(a@, b@),
        is_elem_hex(r@),
{
    let x = Felt::from_hex_unchecked(a);
    let y = Felt::from_hex_unchecked(b);
    poseidon_hash(x, y).to_hex_string()
}

} // verus!
