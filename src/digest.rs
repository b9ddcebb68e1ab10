//! The two fixed-width hashes of the chain, from the BLAKE2b family.
use vstd::prelude::*;

use blake2::digest::{Update, VariableOutput};
use blake2::Digest;

verus! {

/// The 28-byte digest that the Merkle tree is built from.
pub uninterp spec fn merkle_digest(data: Seq<u8>) -> Seq<u8>;

/// The 64-byte digest that entry difficulty is measured on.
pub uninterp spec fn wide_digest(data: Seq<u8>) -> Seq<u8>;

/// Relies on blake2::VarBlake2b configured for 28 bytes of output: the
/// digest is a function of the input bytes alone.
#[verifier::external_body]
pub fn hash(data: &[u8]) -> (r: [u8; 28])
    ensures
        r@ == merkle_digest(data@),
{
    let mut hasher = blake2::VarBlake2b::new(28).unwrap();
    hasher.update(data);
    let out = hasher.finalize_boxed();
    let mut r = [0u8; 28];
    r.copy_from_slice(&out[..]);
    r
}

/// Relies on blake2::Blake2b (64 bytes of output): the digest is a function
/// of the input bytes alone.
#[verifier::external_body]
pub(crate) fn wide_hash(data: &[u8]) -> (r: [u8; 64])
    ensures
        r@ == wide_digest(data@),
{
    let out = blake2::Blake2b::digest(data);
    let mut r = [0u8; 64];
    r.copy_from_slice(&out[..]);
    r
}

} // verus!
