//! Packet authentication: the integrity hash and the recoverable signature,
//! and their production on the sending side.

use vstd::prelude::*;
use crate::codec::{HeaderView, IguanaPacketHeader};
use crate::crypto::{
    append_u32_le, ecdsa_recovered_key, ecdsa_signature, ecdsa_verifies, recover_public_key,
    sha256, sha256_digest, sign_recoverable, verify_under_key,
};
use crate::error::PacketError;
use crate::wire::le32;

verus! {

/// Nonces tried when grinding a packet hash: `0` up to, not including, this.
pub const GRIND_LIMIT: u32 = 10000;

/// The recovery id under which every packet signature is recovered. It is
/// never transmitted.
pub const RECOVERY_ID: i32 = 0;

/// A public key of the curve, in compressed form.
#[derive(Clone, Copy, Debug, PartialEq, Eq)]
pub struct PublicKey {
    pub compressed: [u8; 33],
}

impl View for PublicKey {
    type V = Seq<u8>;

    open spec fn view(&self) -> Seq<u8> {
        self.compressed@
    }
}

/// The bytes that are hashed for a packet: the nonce, the declared length,
/// then the payload.
pub open spec fn packet_preimage(payload: Seq<u8>, nonce: u32, packetlen: u32) -> Seq<u8> {
    le32(nonce) + le32(packetlen) + payload
}

/// The integrity hash of a packet.
pub open spec fn packethash_of(payload: Seq<u8>, nonce: u32, packetlen: u32) -> Seq<u8> {
    sha256_digest(packet_preimage(payload, nonce, packetlen))
}

/// The length field that a producer declares for a payload of `len` bytes:
/// `len` reduced to 32 bits.
pub open spec fn length_field(len: nat) -> u32 {
    (len % 0x1_0000_0000) as u32
}

/// Whether `nonce` gives `payload` a hash that passes the rate limiter: one
/// whose first byte is zero.
pub open spec fn grind_hit(payload: Seq<u8>, nonce: u32) -> bool {
    packethash_of(payload, nonce, length_field(payload.len()))[0] == 0
}

/// Whether `nonce` is the nonce that grinding `payload` settles on: the
/// first that gives a hit.
pub open spec fn first_hit(payload: Seq<u8>, nonce: u32) -> bool {
    &&& grind_hit(payload, nonce)
    &&& forall|m: u32| m < nonce ==> !grind_hit(payload, m)
}

/// Whether the hash that `header` carries is the integrity hash of
/// `payload` under the nonce and the length that the header declares.
pub open spec fn hash_accepted(header: HeaderView, payload: Seq<u8>) -> bool {
    header.packethash == packethash_of(payload, header.nonce, header.packetlen)
}

/// Where a header declares the length of the payload, its hash is accepted
/// exactly when it is the SHA-256 digest of the little-endian nonce, the
/// little-endian length of the payload, and the payload.
pub proof fn lemma_hash_accepted(header: HeaderView, payload: Seq<u8>)
    requires
        header.packetlen == payload.len(),
    ensures
        hash_accepted(header, payload) <==> header.packethash == sha256_digest(
            le32(header.nonce) + le32(payload.len() as u32) + payload,
        ),
{
}

/// Grinding is deterministic: a payload has at most one first hit, and the
/// hash that goes with it starts with a zero byte.
pub proof fn lemma_first_hit_unique(payload: Seq<u8>, a: u32, b: u32)
    requires
        first_hit(payload, a),
        first_hit(payload, b),
    ensures
        a == b,
        packethash_of(payload, a, length_field(payload.len()))[0] == 0,
{
    if a < b {
        assert(!grind_hit(payload, a));
    }
    if b < a {
        assert(!grind_hit(payload, b));
    }
}

/// Whether the signature of a header is accepted for its hash: a key can be
/// recovered under the fixed recovery id, and the plain signature verifies
/// under that key.
pub open spec fn signature_accepted(packethash: Seq<u8>, sig: Seq<u8>) -> bool {
    let recovered = ecdsa_recovered_key(packethash, sig, RECOVERY_ID as int);
    recovered is Some && ecdsa_verifies(packethash, sig, recovered->Some_0)
}

/// Whether two byte strings are equal.
pub fn bytes_equal(a: &[u8], b: &[u8]) -> (same: bool)
    ensures
        same == (a@ == b@),
{
    if a.len() != b.len() {
        return false;
    }
    let mut i: usize = 0;
    while i < a.len()
        invariant
            i <= a@.len(),
            a@.len() == b@.len(),
            forall|k: int| 0 <= k < i ==> a@[k] == b@[k],
        decreases a@.len() - i,
    {
        if a[i] != b[i] {
            return false;
        }
        i += 1;
    }
    assert(a@ =~= b@);
    true
}

/// The length field for a payload of `len` bytes.
pub fn payload_length_field(len: usize) -> (field: u32)
    ensures
        field == length_field(len as nat),
{
    let wide: u64 = len as u64;
    (wide % 0x1_0000_0000) as u32
}

/// Computes the integrity hash of a packet: SHA-256 over the little-endian
/// nonce, the little-endian declared length and the payload. Never fails.
pub fn get_packethash(buffer: &Vec<u8>, nonce: &u32, packetlen: &u32) -> (r: Result<[u8; 32], ()>)
    ensures
        r is Ok,
        r->Ok_0@ == packethash_of(buffer@, *nonce, *packetlen),
{
    let mut preimage: Vec<u8> = Vec::new();
    append_u32_le(&mut preimage, *nonce);
    append_u32_le(&mut preimage, *packetlen);
    let mut i: usize = 0;
    while i < buffer.len()
        invariant
            i <= buffer@.len(),
            preimage@ == le32(*nonce) + le32(*packetlen) + buffer@.subrange(0, i as int),
        decreases buffer@.len() - i,
    {
        preimage.push(buffer[i]);
        i += 1;
        assert(preimage@ =~= le32(*nonce) + le32(*packetlen) + buffer@.subrange(0, i as int));
    }
    assert(buffer@.subrange(0, i as int) =~= buffer@);
    Ok(sha256(&preimage))
}

/// Compares the hash a header carries with a computed digest.
pub fn check_packethash(header: &IguanaPacketHeader, digest: &[u8; 32]) -> (r: Result<
    (),
    PacketError,
>)
    ensures
        r is Ok <==> header.packethash@ == digest@,
        r is Err ==> r == Err::<(), PacketError>(PacketError::HashMismatch),
{
    if bytes_equal(&header.packethash, digest) {
        Ok(())
    } else {
        Err(PacketError::HashMismatch)
    }
}

/// Checks the integrity hash of a packet: succeeds exactly when the hash in
/// the header is the digest of the header's nonce, its declared length and
/// `buffer`; otherwise the packet is to be dropped with `HashMismatch`.
pub fn validate_packethash(header: &IguanaPacketHeader, buffer: &Vec<u8>) -> (r: Result<
    (),
    PacketError,
>)
    ensures
        r is Ok <==> hash_accepted(header@, buffer@),
        r is Err ==> r == Err::<(), PacketError>(PacketError::HashMismatch),
{
    match get_packethash(buffer, &header.nonce, &header.packetlen) {
        Ok(digest) => check_packethash(header, &digest),
        Err(_) => Err(PacketError::HashMismatch),
    }
}

/// Whether a hash passes the rate limiter: its first byte is zero.
pub fn hash_qualifies(hash: &[u8; 32]) -> (hit: bool)
    ensures
        hit == (hash@[0] == 0),
{
    hash[0] == 0
}

/// Searches the nonces below `limit`, in increasing order, for the first
/// whose hash of `buffer` has a leading zero byte, and returns it with that
/// hash. Fails with `GrindExhausted` exactly when no nonce below `limit`
/// qualifies.
pub fn grind_packethash(buffer: &Vec<u8>, limit: u32) -> (r: Result<(u32, [u8; 32]), PacketError>)
    ensures
        r is Ok <==> exists|n: u32| n < limit && grind_hit(buffer@, n),
        r is Err ==> r == Err::<(u32, [u8; 32]), PacketError>(PacketError::GrindExhausted),
        r is Ok ==> {
            let (nonce, hash) = r->Ok_0;
            &&& nonce < limit
            &&& first_hit(buffer@, nonce)
            &&& hash@ == packethash_of(buffer@, nonce, length_field(buffer@.len()))
            &&& hash@[0] == 0
        },
{
    let packetlen: u32 = payload_length_field(buffer.len());
    let mut nonce: u32 = 0;
    while nonce < limit
        invariant
            nonce <= limit,
            packetlen == length_field(buffer@.len()),
            forall|m: u32| m < nonce ==> !grind_hit(buffer@, m),
        decreases limit - nonce,
    {
        match get_packethash(buffer, &nonce, &packetlen) {
            Ok(hash) => {
                if hash_qualifies(&hash) {
                    assert(grind_hit(buffer@, nonce));
                    return Ok((nonce, hash));
                }
            },
            Err(_) => {},
        }
        nonce += 1;
    }
    Err(PacketError::GrindExhausted)
}

/// Grinds the packet hash of `buffer` over the nonces below `GRIND_LIMIT`:
/// returns the first nonce whose hash has a leading zero byte, with that
/// hash, or fails with `GrindExhausted` exactly when there is none. The
/// producer must give the packet up on that error.
pub fn packethash_pow(buffer: &Vec<u8>) -> (r: Result<(u32, [u8; 32]), PacketError>)
    ensures
        r is Ok <==> exists|n: u32| n < GRIND_LIMIT && grind_hit(buffer@, n),
        r is Err ==> r == Err::<(u32, [u8; 32]), PacketError>(PacketError::GrindExhausted),
        r is Ok ==> {
            let (nonce, hash) = r->Ok_0;
            &&& nonce < GRIND_LIMIT
            &&& first_hit(buffer@, nonce)
            &&& hash@ == packethash_of(buffer@, nonce, length_field(buffer@.len()))
            &&& hash@[0] == 0
        },
{
    grind_packethash(buffer, GRIND_LIMIT)
}

/// Decides on a signature from what recovery and verification gave: the
/// recovered key where both passed, `SignatureInvalid` otherwise.
pub fn signature_verdict(recovered: Option<PublicKey>, verified: bool) -> (r: Result<
    PublicKey,
    PacketError,
>)
    ensures
        r is Ok <==> recovered is Some && verified,
        r is Ok ==> r->Ok_0 == recovered->Some_0,
        r is Err ==> r == Err::<PublicKey, PacketError>(PacketError::SignatureInvalid),
{
    match recovered {
        Some(key) => {
            if verified {
                Ok(key)
            } else {
                Err(PacketError::SignatureInvalid)
            }
        },
        None => Err(PacketError::SignatureInvalid),
    }
}

/// Checks that the signature in `header` signs the hash in `header`.
///
/// A public key is recovered from the 64-byte compact signature under the
/// fixed recovery id, and the plain signature is then verified against that
/// key. Both steps must pass; the key is returned. This does not check the
/// hash itself, and does not say who the sender is.
pub fn validate_packet_signature(header: &IguanaPacketHeader) -> (r: Result<PublicKey, PacketError>)
    ensures
        r is Ok <==> signature_accepted(header.packethash@, header.sig@),
        r is Ok ==> Some(r->Ok_0@) == ecdsa_recovered_key(
            header.packethash@,
            header.sig@,
            RECOVERY_ID as int,
        ),
        r is Err ==> r == Err::<PublicKey, PacketError>(PacketError::SignatureInvalid),
{
    match recover_public_key(&header.packethash, &header.sig, RECOVERY_ID) {
        Some(compressed) => {
            let verified = verify_under_key(&header.packethash, &header.sig, &compressed);
            signature_verdict(Some(PublicKey { compressed }), verified)
        },
        None => signature_verdict(None, false),
    }
}

/// Gives the signature the producer sends from what signing returned: the
/// compact signature without its recovery id, or `InvalidSecretKey` where
/// signing refused the key.
pub fn signature_from_signing(signed: Option<(i32, [u8; 64])>) -> (r: Result<[u8; 64], PacketError>)
    ensures
        r is Ok <==> signed is Some,
        r is Ok ==> r->Ok_0 == signed->Some_0.1,
        r is Err ==> r == Err::<[u8; 64], PacketError>(PacketError::InvalidSecretKey),
{
    match signed {
        Some((_, sig)) => Ok(sig),
        None => Err(PacketError::InvalidSecretKey),
    }
}

/// Signs `packethash` with the secret key `sk` and returns the 64-byte
/// compact signature. The recovery id of the signature is not part of it.
/// Fails with `InvalidSecretKey` exactly when `sk` is not a valid secret key.
pub fn produce_packethash_signature(packethash: [u8; 32], sk: &[u8; 32]) -> (r: Result<
    [u8; 64],
    PacketError,
>)
    ensures
        r is Ok <==> ecdsa_signature(packethash@, sk@) is Some,
        r is Ok ==> r->Ok_0@ == ecdsa_signature(packethash@, sk@)->Some_0.1,
        r is Err ==> r == Err::<[u8; 64], PacketError>(PacketError::InvalidSecretKey),
{
    signature_from_signing(sign_recoverable(&packethash, sk))
}

} // verus!
