//! Signature recovery, the one cryptographic operation the gatekeeper needs.
//!
//! Authentication works by recovering the signer's public key from a message
//! and a recoverable signature; the recovered key *is* the user's identity.

use vstd::prelude::*;

verus! {

/// The public key (in 33-byte compressed serialization) that signature
/// recovery yields for a message and signature, if recovery succeeds.
/// Recovery is a deterministic function of the two inputs alone.
pub uninterp spec fn recovered_pk_of(message: Seq<u8>, signature: Seq<char>) -> Option<Seq<u8>>;

/// Relies on `lightning::util::message_signing::recover_pk`: ECDSA public
/// key recovery from a zbase32-encoded recoverable signature over the
/// message. The result depends on the message and signature bytes alone;
/// on success, `secp256k1::PublicKey::serialize` yields the key's 33-byte
/// compressed serialization.
#[verifier::external_body]
pub(crate) fn recover_pk_bytes(message: &[u8], signature: &str) -> (r: Option<Vec<u8>>)
    ensures
        r is Some <==> recovered_pk_of(message@, signature@) is Some,
        r matches Some(pk) ==> pk@ == recovered_pk_of(message@, signature@).unwrap() && pk@.len()
            == 33,
{
    match lightning::util::message_signing::recover_pk(message, signature) {
        Ok(pk) => Some(pk.serialize().to_vec()),
        Err(_) => None,
    }
}

} // verus!
