//! The signing primitive behind sealed envelopes.
//!
//! The cryptography itself lives in the `libp2p-identity` crate; this module
//! names what it computes. Whether a byte string decodes as a public key, and
//! whether a signature verifies under given key bytes over a given message,
//! are functions of those bytes alone, named here by `key_decodes` and
//! `sig_valid`.

use vstd::prelude::*;

verus! {

/// The signing keypair of `libp2p-identity`, declared so sealing can carry
/// it; its contents stay opaque here.
#[verifier::external_type_specification]
#[verifier::external_body]
pub struct ExKeypair(libp2p_identity::Keypair);

/// Whether `libp2p_identity::PublicKey::try_decode_protobuf` accepts `pk`.
pub uninterp spec fn key_decodes(pk: Seq<u8>) -> bool;

/// Whether `libp2p_identity::PublicKey::verify` accepts `sig` as a signature
/// over `msg` under the key that `pk` decodes to.
pub uninterp spec fn sig_valid(pk: Seq<u8>, msg: Seq<u8>, sig: Seq<u8>) -> bool;

/// Relies on `libp2p_identity::PublicKey::try_decode_protobuf` and
/// `PublicKey::verify`: decoding succeeds or fails on the key bytes alone,
/// and verification is a function of the key bytes, the message and the
/// signature. Returns `None` when the key bytes do not decode, else whether
/// the signature verifies.
#[verifier::external_body]
pub(crate) fn check_signature(public_key: &[u8], msg: &[u8], signature: &[u8]) -> (r: Option<bool>)
    ensures
        r is Some <==> key_decodes(public_key@),
        r matches Some(b) ==> b == sig_valid(public_key@, msg@, signature@),
{
    match libp2p_identity::PublicKey::try_decode_protobuf(public_key) {
        Ok(pk) => Some(pk.verify(msg, signature)),
        Err(_) => None,
    }
}

/// Relies on `libp2p_identity::Keypair::sign`, whose documentation promises a
/// signature that verifies under the corresponding public key, and on
/// `PublicKey::encode_protobuf` / `try_decode_protobuf`, which round-trip a
/// key through its protobuf form. Returns the exported public key and the
/// signature over `msg`, or `None` when the scheme fails to sign.
#[verifier::external_body]
pub(crate) fn sign_and_export(keypair: &libp2p_identity::Keypair, msg: &[u8]) -> (r: Option<
    (Vec<u8>, Vec<u8>),
>)
    ensures
        r matches Some((pk, sig)) ==> key_decodes(pk@) && sig_valid(pk@, msg@, sig@),
{
    let pk = keypair.public().encode_protobuf();
    match keypair.sign(msg) {
        Ok(sig) => Some((pk, sig)),
        Err(_) => None,
    }
}

} // verus!
