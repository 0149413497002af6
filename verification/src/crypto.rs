//! The cryptographic primitives the relay relies on without proving them:
//! SHA-256, and ECDSA over secp256k1 with public-key recovery.
//!
//! Each primitive is a function of its arguments alone. Its result is given
//! a name here, and the contracts of the rest of the library are stated over
//! those names.

use byteorder::{LittleEndian, WriteBytesExt};
use secp256k1::ecdsa::{RecoverableSignature, RecoveryId, Signature};
use secp256k1::{Message, PublicKey, Secp256k1, SecretKey};
use sha2::{Digest, Sha256};
use vstd::prelude::*;
use crate::wire::le32;

verus! {

/// The SHA-256 digest of `data`.
pub uninterp spec fn sha256_digest(data: Seq<u8>) -> Seq<u8>;

/// The compressed public key that the compact signature `sig` recovers for
/// the message `digest` under `recovery_id`, or `None` where the recovery id
/// or the signature is malformed or no key can be recovered.
pub uninterp spec fn ecdsa_recovered_key(digest: Seq<u8>, sig: Seq<u8>, recovery_id: int) -> Option<
    Seq<u8>,
>;

/// Whether the compact signature `sig` is a valid signature of the message
/// `digest` under the compressed public key `key`.
pub uninterp spec fn ecdsa_verifies(digest: Seq<u8>, sig: Seq<u8>, key: Seq<u8>) -> bool;

/// The recovery id and the compact signature that the secret key `secret`
/// gives for the message `digest`, or `None` where `secret` is not a valid
/// secret key.
pub uninterp spec fn ecdsa_signature(digest: Seq<u8>, secret: Seq<u8>) -> Option<(int, Seq<u8>)>;

/// `sha2::Sha256` run over `data`: the 32 bytes returned are the SHA-256
/// digest of `data`.
#[verifier::external_body]
pub(crate) fn sha256(data: &Vec<u8>) -> (digest: [u8; 32])
    ensures
        digest@ == sha256_digest(data@),
{
    let mut hasher = Sha256::new();
    hasher.update(data);
    hasher.finalize().into()
}

/// `byteorder::WriteBytesExt::write_u32::<LittleEndian>` on a vector: the
/// four bytes of `value` are appended, least significant first, and nothing
/// else changes. Writing to a vector does not fail.
#[verifier::external_body]
pub(crate) fn append_u32_le(out: &mut Vec<u8>, value: u32)
    ensures
        final(out)@ == old(out)@ + le32(value),
{
    out.write_u32::<LittleEndian>(value).unwrap_or(());
}

/// `Secp256k1::recover_ecdsa` on the recoverable signature made of `sig` and
/// `recovery_id`, for the message `digest`: the recovered public key in
/// compressed form, or `None` where the recovery id or the signature is
/// refused or recovery fails.
#[verifier::external_body]
pub(crate) fn recover_public_key(digest: &[u8; 32], sig: &[u8; 64], recovery_id: i32) -> (key:
    Option<[u8; 33]>)
    ensures
        key is Some <==> ecdsa_recovered_key(digest@, sig@, recovery_id as int) is Some,
        key is Some ==> key->Some_0@ == ecdsa_recovered_key(
            digest@,
            sig@,
            recovery_id as int,
        )->Some_0,
{
    let id = RecoveryId::from_i32(recovery_id).ok()?;
    let signature = RecoverableSignature::from_compact(sig, id).ok()?;
    let message = Message::from_slice(digest).ok()?;
    let key = Secp256k1::new().recover_ecdsa(&message, &signature).ok()?;
    Some(key.serialize())
}

/// `Secp256k1::verify_ecdsa` on the plain signature `sig`, the message
/// `digest` and the public key `key`: `true` exactly when the signature and
/// the key parse and the signature verifies.
#[verifier::external_body]
pub(crate) fn verify_under_key(digest: &[u8; 32], sig: &[u8; 64], key: &[u8; 33]) -> (ok: bool)
    ensures
        ok == ecdsa_verifies(digest@, sig@, key@),
{
    let parsed =
        (Message::from_slice(digest), Signature::from_compact(sig), PublicKey::from_slice(key));
    match parsed {
        (Ok(message), Ok(signature), Ok(key)) => {
            Secp256k1::new().verify_ecdsa(&message, &signature, &key).is_ok()
        },
        _ => false,
    }
}

/// `Secp256k1::sign_ecdsa_recoverable` with the secret key `secret` on the
/// message `digest`: the recovery id and the compact signature, or `None`
/// where `secret` is refused as a secret key. The nonce is derived from the
/// key and the message, so equal arguments give equal signatures.
#[verifier::external_body]
pub(crate) fn sign_recoverable(digest: &[u8; 32], secret: &[u8; 32]) -> (signed: Option<
    (i32, [u8; 64]),
>)
    ensures
        signed is Some <==> ecdsa_signature(digest@, secret@) is Some,
        signed is Some ==> signed->Some_0.0 == ecdsa_signature(digest@, secret@)->Some_0.0,
        signed is Some ==> signed->Some_0.1@ == ecdsa_signature(digest@, secret@)->Some_0.1,
{
    let key = SecretKey::from_slice(secret).ok()?;
    let message = Message::from_slice(digest).ok()?;
    let (id, sig) = Secp256k1::new().sign_ecdsa_recoverable(&message, &key).serialize_compact();
    Some((id.to_i32(), sig))
}

} // verus!
