use iguana_rs::auth::{
    get_packethash, packethash_pow, produce_packethash_signature, validate_packet_signature,
    validate_packethash,
};
use iguana_rs::codec::IguanaPacketHeader;
use iguana_rs::error::PacketError;

fn header_for(payload: &Vec<u8>, secret: &[u8; 32]) -> IguanaPacketHeader {
    let (nonce, packethash) = packethash_pow(payload).unwrap();
    let sig = produce_packethash_signature(packethash, secret).unwrap();
    IguanaPacketHeader { sig, packethash, nonce, packetlen: payload.len() as u32 }
}

#[test]
fn packethash_of_empty_payload_is_sha256_of_eight_zero_bytes() {
    let hash = get_packethash(&vec![], &0, &0).unwrap();
    let expected: [u8; 32] = [
        0xaf, 0x55, 0x70, 0xf5, 0xa1, 0x81, 0x0b, 0x7a, 0xf7, 0x8c, 0xaf, 0x4b, 0xc7, 0x0a, 0x66,
        0x0f, 0x0d, 0xf5, 0x1e, 0x42, 0xba, 0xf9, 0x1d, 0x4d, 0xe5, 0xb2, 0x32, 0x8d, 0xe0, 0xe8,
        0x3d, 0xfc,
    ];
    assert_eq!(hash, expected);
}

#[test]
fn grind_returns_first_nonce_with_leading_zero_byte() {
    let payload: Vec<u8> = vec![1, 2, 3, 4, 5];
    let (nonce, hash) = packethash_pow(&payload).unwrap();
    assert!(nonce < 10000);
    assert_eq!(hash[0], 0);
    assert_eq!(hash, get_packethash(&payload, &nonce, &5).unwrap());
    for earlier in 0..nonce {
        assert_ne!(get_packethash(&payload, &earlier, &5).unwrap()[0], 0);
    }
    assert_eq!(packethash_pow(&payload).unwrap(), (nonce, hash));
}

#[test]
fn validate_packethash_accepts_ground_hash_and_rejects_flipped_byte() {
    let payload: Vec<u8> = vec![9; 40];
    let header = header_for(&payload, &[0x11; 32]);
    assert_eq!(validate_packethash(&header, &payload), Ok(()));
    for at in 0..payload.len() {
        let mut corrupted = payload.clone();
        corrupted[at] ^= 0x01;
        assert_eq!(validate_packethash(&header, &corrupted), Err(PacketError::HashMismatch));
    }
}

#[test]
fn invalid_secret_key_is_refused() {
    assert_eq!(
        produce_packethash_signature([7; 32], &[0; 32]),
        Err(PacketError::InvalidSecretKey)
    );
    assert_eq!(
        produce_packethash_signature([7; 32], &[0xff; 32]),
        Err(PacketError::InvalidSecretKey)
    );
}

#[test]
fn garbage_signature_is_invalid() {
    let header =
        IguanaPacketHeader { sig: [0xff; 64], packethash: [3; 32], nonce: 0, packetlen: 0 };
    assert_eq!(validate_packet_signature(&header), Err(PacketError::SignatureInvalid));
    let zero = IguanaPacketHeader { sig: [0; 64], packethash: [3; 32], nonce: 0, packetlen: 0 };
    assert_eq!(validate_packet_signature(&zero), Err(PacketError::SignatureInvalid));
}

use iguana_rs::auth::{
    bytes_equal, check_packethash, grind_packethash, hash_qualifies, payload_length_field, signature_from_signing,
    signature_verdict, PublicKey,
};
use secp256k1::{Message, Secp256k1, SecretKey};

fn signed_with_recovery_id(secret: &[u8; 32], wanted: i32) -> ([u8; 32], [u8; 33]) {
    let secp = Secp256k1::new();
    let key = SecretKey::from_slice(secret).unwrap();
    let public = secp256k1::PublicKey::from_secret_key(&secp, &key).serialize();
    for seed in 0u8..=255 {
        let digest = [seed; 32];
        let message = Message::from_slice(&digest).unwrap();
        let (id, _) = secp.sign_ecdsa_recoverable(&message, &key).serialize_compact();
        if id.to_i32() == wanted {
            return (digest, public);
        }
    }
    panic!("no digest gives recovery id {}", wanted);
}

#[test]
fn packethash_binds_nonce_length_and_payload() {
    // SHA-256 of 01 00 00 00 | 03 00 00 00 | 61 62 63
    let hash = get_packethash(&vec![0x61, 0x62, 0x63], &1, &3).unwrap();
    let expected: [u8; 32] = [
        0x1f, 0x35, 0xc2, 0x57, 0xd2, 0x1d, 0x70, 0x03, 0xc9, 0xf1, 0xa5, 0xee, 0x3b, 0x64, 0x0f,
        0x72, 0x32, 0x48, 0x1c, 0x27, 0x46, 0xaa, 0xf4, 0x45, 0x24, 0xb8, 0xa7, 0x37, 0xed, 0x00,
        0xab, 0xd4,
    ];
    assert_eq!(hash, expected);
    assert_ne!(hash, get_packethash(&vec![0x61, 0x62, 0x63], &2, &3).unwrap());
    assert_ne!(hash, get_packethash(&vec![0x61, 0x62, 0x63], &1, &4).unwrap());
    assert_ne!(hash, get_packethash(&vec![0x61, 0x62, 0x64], &1, &3).unwrap());
}

#[test]
fn nonce_and_length_are_hashed_little_endian() {
    let hash = get_packethash(&vec![], &0x0403_0201, &0x0807_0605).unwrap();
    let expected: [u8; 32] = [
        0x66, 0x84, 0x0d, 0xda, 0x15, 0x4e, 0x8a, 0x11, 0x3c, 0x31, 0xdd, 0x0a, 0xd3, 0x2f, 0x7f,
        0x3a, 0x36, 0x6a, 0x80, 0xe8, 0x13, 0x69, 0x79, 0xd8, 0xf5, 0xa1, 0x01, 0xd3, 0xd2, 0x9d,
        0x6f, 0x72,
    ];
    assert_eq!(hash, expected);
}

#[test]
fn check_packethash_compares_all_bytes() {
    let header =
        IguanaPacketHeader { sig: [0; 64], packethash: [7; 32], nonce: 0, packetlen: 0 };
    assert_eq!(check_packethash(&header, &[7; 32]), Ok(()));
    let mut other = [7u8; 32];
    other[31] = 8;
    assert_eq!(check_packethash(&header, &other), Err(PacketError::HashMismatch));
}

#[test]
fn bytes_equal_is_equality() {
    assert!(bytes_equal(&[], &[]));
    assert!(bytes_equal(&[1, 2, 3], &[1, 2, 3]));
    assert!(!bytes_equal(&[1, 2, 3], &[1, 2, 4]));
    assert!(!bytes_equal(&[1, 2, 3], &[1, 2]));
}

#[test]
fn hash_qualifies_on_leading_zero_byte_only() {
    let mut hash = [0xffu8; 32];
    assert!(!hash_qualifies(&hash));
    hash[0] = 0;
    assert!(hash_qualifies(&hash));
    let mut other = [0u8; 32];
    other[0] = 1;
    assert!(!hash_qualifies(&other));
}

#[test]
fn length_field_is_the_length_in_32_bits() {
    assert_eq!(payload_length_field(0), 0);
    assert_eq!(payload_length_field(2871), 2871);
    assert_eq!(payload_length_field(0xffff_ffff), 0xffff_ffff);
    assert_eq!(payload_length_field(0x1_0000_0005), 5);
}

#[test]
fn signature_verdict_needs_recovery_and_verification() {
    let key = PublicKey { compressed: [2; 33] };
    assert_eq!(signature_verdict(Some(key), true), Ok(key));
    assert_eq!(signature_verdict(Some(key), false), Err(PacketError::SignatureInvalid));
    assert_eq!(signature_verdict(None, true), Err(PacketError::SignatureInvalid));
    assert_eq!(signature_verdict(None, false), Err(PacketError::SignatureInvalid));
}

#[test]
fn signature_from_signing_drops_the_recovery_id() {
    assert_eq!(signature_from_signing(Some((1, [9; 64]))), Ok([9; 64]));
    assert_eq!(signature_from_signing(Some((0, [8; 64]))), Ok([8; 64]));
    assert_eq!(signature_from_signing(None), Err(PacketError::InvalidSecretKey));
}

#[test]
fn produced_signature_is_the_compact_recoverable_signature() {
    let secret = [0x42u8; 32];
    let digest = [0x17u8; 32];
    let secp = Secp256k1::new();
    let key = SecretKey::from_slice(&secret).unwrap();
    let message = Message::from_slice(&digest).unwrap();
    let (_, expected) = secp.sign_ecdsa_recoverable(&message, &key).serialize_compact();
    assert_eq!(produce_packethash_signature(digest, &secret), Ok(expected));
    assert_eq!(
        produce_packethash_signature(digest, &secret),
        produce_packethash_signature(digest, &secret)
    );
}

#[test]
fn signature_with_recovery_id_zero_verifies_and_recovers_the_signer() {
    let secret = [0x42u8; 32];
    let (digest, public) = signed_with_recovery_id(&secret, 0);
    let sig = produce_packethash_signature(digest, &secret).unwrap();
    let header = IguanaPacketHeader { sig, packethash: digest, nonce: 0, packetlen: 0 };
    assert_eq!(validate_packet_signature(&header), Ok(PublicKey { compressed: public }));
}

#[test]
fn signature_with_recovery_id_one_does_not_recover_the_signer() {
    let secret = [0x42u8; 32];
    let (digest, public) = signed_with_recovery_id(&secret, 1);
    let sig = produce_packethash_signature(digest, &secret).unwrap();
    let header = IguanaPacketHeader { sig, packethash: digest, nonce: 0, packetlen: 0 };
    assert_ne!(validate_packet_signature(&header), Ok(PublicKey { compressed: public }));
}

#[test]
fn signature_over_another_hash_does_not_recover_the_signer() {
    let secret = [0x42u8; 32];
    let (digest, public) = signed_with_recovery_id(&secret, 0);
    let sig = produce_packethash_signature(digest, &secret).unwrap();
    let mut other = digest;
    other[5] ^= 0x80;
    let header = IguanaPacketHeader { sig, packethash: other, nonce: 0, packetlen: 0 };
    assert_ne!(validate_packet_signature(&header), Ok(PublicKey { compressed: public }));
}

#[test]
fn high_s_signature_is_invalid() {
    // The same signature with s replaced by n - s recovers a key but fails
    // plain verification, which wants the low form.
    let secret = [0x42u8; 32];
    let (digest, _) = signed_with_recovery_id(&secret, 0);
    let sig = produce_packethash_signature(digest, &secret).unwrap();
    let order: [u8; 32] = [
        0xff, 0xff, 0xff, 0xff, 0xff, 0xff, 0xff, 0xff, 0xff, 0xff, 0xff, 0xff, 0xff, 0xff, 0xff,
        0xfe, 0xba, 0xae, 0xdc, 0xe6, 0xaf, 0x48, 0xa0, 0x3b, 0xbf, 0xd2, 0x5e, 0x8c, 0xd0, 0x36,
        0x41, 0x41,
    ];
    let mut high = sig;
    let mut borrow = 0i16;
    for i in (0..32).rev() {
        let diff = order[i] as i16 - sig[32 + i] as i16 - borrow;
        if diff < 0 {
            high[32 + i] = (diff + 256) as u8;
            borrow = 1;
        } else {
            high[32 + i] = diff as u8;
            borrow = 0;
        }
    }
    let header = IguanaPacketHeader { sig: high, packethash: digest, nonce: 0, packetlen: 0 };
    assert_eq!(validate_packet_signature(&header), Err(PacketError::SignatureInvalid));
}

#[test]
fn grind_is_exhausted_when_the_range_ends_before_the_first_hit() {
    let mut payload: Vec<u8> = vec![0x33; 64];
    let mut found = packethash_pow(&payload).unwrap();
    while found.0 == 0 {
        payload.push(0x33);
        found = packethash_pow(&payload).unwrap();
    }
    let (nonce, hash) = found;
    assert_eq!(grind_packethash(&payload, 0), Err(PacketError::GrindExhausted));
    assert_eq!(grind_packethash(&payload, nonce), Err(PacketError::GrindExhausted));
    assert_eq!(grind_packethash(&payload, nonce + 1), Ok((nonce, hash)));
    assert_eq!(grind_packethash(&payload, u32::MAX), Ok((nonce, hash)));
    assert_eq!(grind_packethash(&payload, 10000), packethash_pow(&payload));
}

#[test]
fn grind_uses_the_length_of_the_payload() {
    let payload: Vec<u8> = vec![0xab; 300];
    let (nonce, hash) = packethash_pow(&payload).unwrap();
    assert_eq!(hash, get_packethash(&payload, &nonce, &300).unwrap());
    let header = IguanaPacketHeader { sig: [0; 64], packethash: hash, nonce, packetlen: 300 };
    assert_eq!(validate_packethash(&header, &payload), Ok(()));
    let wrong_len = IguanaPacketHeader { sig: [0; 64], packethash: hash, nonce, packetlen: 299 };
    assert_eq!(validate_packethash(&wrong_len, &payload), Err(PacketError::HashMismatch));
    let wrong_nonce =
        IguanaPacketHeader { sig: [0; 64], packethash: hash, nonce: nonce + 1, packetlen: 300 };
    assert_eq!(validate_packethash(&wrong_nonce, &payload), Err(PacketError::HashMismatch));
}
