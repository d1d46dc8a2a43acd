//! The calls into the secp256k1 library.

use vstd::prelude::*;

verus! {

/// Whether a byte string parses as a public key on the curve.
pub uninterp spec fn is_pubkey(b: Seq<u8>) -> bool;

/// Relies on secp256k1::PublicKey::from_slice, which succeeds exactly on the
/// byte strings that encode a point of the curve; its error is dropped.
#[verifier::external_body]
pub(crate) fn parse_pubkey(b: &[u8]) -> (r: bool)
    ensures
        r == is_pubkey(b@),
{
    secp256k1::PublicKey::from_slice(b).is_ok()
}

} // verus!
