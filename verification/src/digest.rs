//! Identifiers derived from a counter by a collision-resistant hash.

use crate::word::{be_bytes, U256};
use tiny_keccak::{Hasher, Keccak};
use vstd::prelude::*;

verus! {

/// The Keccak-256 digest of a byte string.
pub uninterp spec fn keccak256(data: Seq<u8>) -> Seq<u8>;

/// The identifier that belongs to a counter value: the digest of its
/// big-endian 32-byte encoding.
pub open spec fn identifier_of(counter: nat) -> Seq<u8> {
    keccak256(be_bytes(counter))
}

/// The Keccak-256 digest of 32 bytes.
///
/// Trusted: the body makes a `tiny_keccak::Keccak::v256` hasher, feeds it the
/// input through one `Hasher::update` and reads 32 bytes through
/// `Hasher::finalize`. The contract claims only that the output depends on
/// the input bytes alone, and calls it `keccak256` of them.
#[verifier::external_body]
pub(crate) fn keccak256_of(data: &[u8; 32]) -> (out: [u8; 32])
    ensures
        out@ == keccak256(data@),
{
    let mut hasher = Keccak::v256();
    let mut output = [0u8; 32];
    hasher.update(data);
    hasher.finalize(&mut output);
    output
}

/// Derives the 32-byte identifier of a counter value.
pub fn identifier(counter: U256) -> (id: [u8; 32])
    ensures
        id@ == identifier_of(counter@),
{
    let encoded = counter.to_be_bytes();
    keccak256_of(&encoded)
}

} // verus!
