//! The 256-bit digest used for operation hashes, code hashes and addresses.
use sha3::{Digest, Keccak256};
use vstd::prelude::*;

verus! {

/// The Keccak-256 digest of `data`, as 32 bytes.
pub uninterp spec fn keccak256(data: Seq<u8>) -> Seq<u8>;

/// Calls `sha3::Keccak256::digest`. Trusted: the result is the Keccak-256 digest
/// of the input, which this library names `keccak256`; nothing else is claimed
/// of it beyond its length, which the result type fixes.
#[verifier::external_body]
pub(crate) fn keccak256_digest(data: &[u8]) -> (digest: [u8; 32])
    ensures
        digest@ == keccak256(data@),
{
    Keccak256::digest(data).into()
}

} // verus!
