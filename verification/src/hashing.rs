//! Content hashing for transaction identity.
//!
//! The pool identifies a tracked transaction by the Blake2 256-bit digest of
//! its bytes; the driver keeps that digest so a best-effort untracking
//! request can name the transaction without resending it.

use vstd::prelude::*;

verus! {

/// The Blake2 256-bit digest of a byte sequence. The digest is a function of
/// the bytes alone; its value is not axiomatised here.
pub uninterp spec fn blake2_256_of(data: Seq<u8>) -> Seq<u8>;

/// Relies on `sp_crypto_hashing::blake2_256`: a 32-byte Blake2b digest
/// computed from the input bytes alone.
#[verifier::external_body]
pub fn blake2_256_digest(data: &[u8]) -> (r: Vec<u8>)
    ensures
        r@ == blake2_256_of(data@),
        r@.len() == 32,
{
    sp_crypto_hashing::blake2_256(data).to_vec()
}

} // verus!
