//! The aggregate signature scheme, through the `bls_signatures` crate.
//! Signatures and keys cross this boundary as their compressed bytes.
use vstd::prelude::*;

use bls_signatures::Serialize;

verus! {

/// Whether a byte string decodes as a signature.
pub uninterp spec fn signature_decodes(raw: Seq<u8>) -> bool;

/// The compressed bytes of the aggregate of the signatures that `signatures` decode to.
pub uninterp spec fn aggregate_bytes(signatures: Seq<Seq<u8>>) -> Seq<u8>;

/// Whether `signature` decodes, every key of `public_keys` decodes, and the
/// signature is the aggregate of the keys' signatures over `messages`.
pub uninterp spec fn aggregate_accepts(signature: Seq<u8>, messages: Seq<Seq<u8>>, public_keys: Seq<Seq<u8>>) -> bool;

pub open spec fn byte_views(v: Seq<Vec<u8>>) -> Seq<Seq<u8>> {
    v.map_values(|x: Vec<u8>| x@)
}

/// Relies on `<Signature as Serialize>::from_bytes` (a length other than 96
/// is refused), `bls_signatures::aggregate` (fails exactly on an empty list)
/// and `<Signature as Serialize>::as_bytes` (the 96-byte compressed point).
#[verifier::external_body]
pub(crate) fn aggregate_signatures(signatures: &Vec<Vec<u8>>) -> (r: Option<Vec<u8>>)
    ensures
        r is Some <==> signatures@.len() > 0 && forall|i: int|
            0 <= i < signatures@.len() ==> signature_decodes(#[trigger] signatures@[i]@),
        (exists|i: int| 0 <= i < signatures@.len() && (#[trigger] signatures@[i])@.len() != 96) ==> r is None,
        r matches Some(v) ==> v@ == aggregate_bytes(byte_views(signatures@)) && v@.len() == 96,
{
    let parsed: Result<Vec<bls_signatures::Signature>, bls_signatures::Error> =
        signatures.iter().map(|s| bls_signatures::Signature::from_bytes(s)).collect();
    let parsed = parsed.ok()?;
    bls_signatures::aggregate(&parsed).ok().map(|a| a.as_bytes())
}

/// Relies on `<Signature as Serialize>::from_bytes` and
/// `<PublicKey as Serialize>::from_bytes` (lengths other than 96 and 48 are
/// refused), then on `bls_signatures::verify_messages`, which rejects an
/// empty list, a count of messages that differs from the count of keys, and
/// repeated messages, before it checks the pairing equation.
#[verifier::external_body]
pub(crate) fn verify_aggregate(signature: &[u8], messages: &Vec<Vec<u8>>, public_keys: &Vec<Vec<u8>>) -> (r: bool)
    ensures
        r == aggregate_accepts(signature@, byte_views(messages@), byte_views(public_keys@)),
        messages@.len() == 0 ==> !r,
        messages@.len() != public_keys@.len() ==> !r,
        (exists|i: int, j: int| 0 <= i < j < messages@.len() && messages@[i]@ == messages@[j]@) ==> !r,
        signature@.len() != 96 ==> !r,
        (exists|i: int| 0 <= i < public_keys@.len() && (#[trigger] public_keys@[i])@.len() != 48) ==> !r,
{
    let sig = match bls_signatures::Signature::from_bytes(signature) {
        Ok(s) => s,
        Err(_) => return false,
    };
    let keys: Result<Vec<bls_signatures::PublicKey>, bls_signatures::Error> =
        public_keys.iter().map(|k| bls_signatures::PublicKey::from_bytes(k)).collect();
    let keys = match keys {
        Ok(k) => k,
        Err(_) => return false,
    };
    let slices: Vec<&[u8]> = messages.iter().map(|m| m.as_slice()).collect();
    bls_signatures::verify_messages(&sig, &slices, &keys)
}

} // verus!
