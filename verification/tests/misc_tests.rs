use iguana_rs::bits::reverse_bits;
use iguana_rs::clock::{now_sec, timestamp_from_clock};
use iguana_rs::error::PacketError;
use iguana_rs::roster::{
    classify_channel, notary_name, Channel, DPOW_BTCTXIDCHANNEL, DPOW_SIGBTCCHANNEL,
    DPOW_SIGCHANNEL, DPOW_TXIDCHANNEL, FIRST_PARTY, NOTARY_COUNT,
};
use iguana_rs::wire::{get_array, get_u16, get_u32, put_bytes, put_u16, put_u32};

#[test]
fn reverse_bits_reverses_every_byte() {
    assert_eq!(reverse_bits(0x00), 0x00);
    assert_eq!(reverse_bits(0x01), 0x80);
    assert_eq!(reverse_bits(0x80), 0x01);
    assert_eq!(reverse_bits(0x0f), 0xf0);
    assert_eq!(reverse_bits(0b1011_0001), 0b1000_1101);
    assert_eq!(reverse_bits(0xff), 0xff);
    for byte in 0..=255u8 {
        assert_eq!(reverse_bits(byte), byte.reverse_bits());
        assert_eq!(reverse_bits(reverse_bits(byte)), byte);
    }
}

#[test]
fn channel_tags_come_from_the_ascii_tags() {
    assert_eq!(DPOW_SIGCHANNEL, u32::from_le_bytes(*b"sigs"));
    assert_eq!(DPOW_TXIDCHANNEL, u32::from_le_bytes(*b"txid"));
    assert_eq!(DPOW_SIGBTCCHANNEL, !DPOW_SIGCHANNEL);
    assert_eq!(DPOW_BTCTXIDCHANNEL, !DPOW_TXIDCHANNEL);
}

#[test]
fn channels_are_classified_by_tag() {
    assert_eq!(classify_channel(DPOW_SIGCHANNEL), Some(Channel::Sigs));
    assert_eq!(classify_channel(DPOW_SIGBTCCHANNEL), Some(Channel::SigsBtc));
    assert_eq!(classify_channel(DPOW_TXIDCHANNEL), Some(Channel::Txid));
    assert_eq!(classify_channel(DPOW_BTCTXIDCHANNEL), Some(Channel::BtcTxid));
    assert_eq!(classify_channel(0), None);
    assert_eq!(classify_channel(DPOW_SIGCHANNEL + 1), None);
}

#[test]
fn roster_has_64_names() {
    assert_eq!(NOTARY_COUNT, 64);
    assert_eq!(FIRST_PARTY.len(), 64);
    assert_eq!(notary_name(0), Ok("blackice_DEV"));
    assert_eq!(notary_name(10), Ok("artem.pikulin_AR"));
    assert_eq!(notary_name(63), Ok("dragonhound_DEV"));
    assert_eq!(notary_name(64), Err(PacketError::InvalidSender));
    assert_eq!(notary_name(255), Err(PacketError::InvalidSender));
}

#[test]
fn every_error_has_its_own_description() {
    let all = [
        PacketError::FramingError,
        PacketError::HashMismatch,
        PacketError::SignatureInvalid,
        PacketError::InvalidSender,
        PacketError::GrindExhausted,
        PacketError::InvalidSecretKey,
    ];
    for (i, a) in all.iter().enumerate() {
        assert!(!a.describe().is_empty());
        for b in all.iter().skip(i + 1) {
            assert_ne!(a.describe(), b.describe());
        }
    }
    assert_eq!(PacketError::HashMismatch.describe(), "packet hash does not match the payload");
}

#[test]
fn timestamps_are_seconds_in_32_bits() {
    assert_eq!(timestamp_from_clock(Some(0)), 0);
    assert_eq!(timestamp_from_clock(Some(1_700_000_000)), 1_700_000_000);
    assert_eq!(timestamp_from_clock(Some(0x1_0000_0007)), 7);
    assert_eq!(timestamp_from_clock(None), 0);
    assert!(now_sec() > 1_600_000_000);
}

#[test]
fn integers_are_written_and_read_little_endian() {
    let mut out = vec![0xee];
    put_u32(&mut out, 0x0403_0201);
    put_u16(&mut out, 0x0605);
    put_bytes(&mut out, &[7, 8]);
    assert_eq!(out, vec![0xee, 1, 2, 3, 4, 5, 6, 7, 8]);
    assert_eq!(get_u32(&out, 1), 0x0403_0201);
    assert_eq!(get_u16(&out, 5), 0x0605);
    assert_eq!(get_u32(&out, 5), 0x0807_0605);
    assert_eq!(get_array::<3>(&out, 6), [6, 7, 8]);
    let mut wide = Vec::new();
    put_u32(&mut wide, u32::MAX);
    put_u16(&mut wide, u16::MAX);
    put_u32(&mut wide, 0);
    assert_eq!(wide, vec![255, 255, 255, 255, 255, 255, 0, 0, 0, 0]);
    assert_eq!(get_u32(&wide, 0), u32::MAX);
    assert_eq!(get_u16(&wide, 4), u16::MAX);
}
