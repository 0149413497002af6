use iguana_rs::codec::{
    decode_header, decode_message, decode_utxo, encode_header, encode_message, encode_utxo,
    message_wire_size, DpowNanoMsgHdr, DpowNanoUtxo, IguanaPacketHeader,
};
use iguana_rs::error::PacketError;

fn pattern<const N: usize>(seed: u8) -> [u8; N] {
    let mut out = [0u8; N];
    for (i, b) in out.iter_mut().enumerate() {
        *b = seed.wrapping_add((i as u8).wrapping_mul(7));
    }
    out
}

fn sample_utxo(seed: u8) -> DpowNanoUtxo {
    DpowNanoUtxo {
        srcutxo: pattern::<32>(seed),
        destutxo: pattern::<32>(seed.wrapping_add(1)),
        bestmask: pattern::<8>(seed.wrapping_add(2)),
        recvmask: pattern::<8>(seed.wrapping_add(3)),
        pendingcrc1: 0x0102_0304,
        pendingcrc2: 0xa1b2_c3d4,
        paxwdcrc: 0xffff_fffe,
        srcvout: 0x1234,
        destvout: 0xfedc,
        sig1: pattern::<128>(seed.wrapping_add(4)),
        sig2: pattern::<128>(seed.wrapping_add(5)),
        siglens: [71, 72],
        pad: 0x5a,
        bestk: 13,
    }
}

fn sample_message(capacity: usize) -> DpowNanoMsgHdr {
    let mut ipbits = vec![[0u8; 4]; capacity];
    for (i, ip) in ipbits.iter_mut().enumerate().take(capacity / 2) {
        *ip = [10, (i / 256) as u8, (i % 256) as u8, 1];
    }
    DpowNanoMsgHdr {
        srchash: pattern::<32>(0x11),
        desthash: pattern::<32>(0x22),
        ratify: sample_utxo(0x33),
        notarize: sample_utxo(0x44),
        channel: 0x7367_6973,
        height: 3_000_000,
        size: 2871,
        datalen: 0,
        crc32: 0xdead_beef,
        myipbits: [192, 168, 1, 20],
        numipbits: (capacity / 2) as u32,
        ipbits,
        symbol: *b"KMD\0\0\0\0\0\0\0\0\0\0\0\0\0",
        senderind: 63,
        senderind2: 62,
        version1: 2,
    }
}

#[test]
fn header_round_trips() {
    let header = IguanaPacketHeader {
        sig: pattern::<64>(9),
        packethash: pattern::<32>(200),
        nonce: 0x0a0b_0c0d,
        packetlen: 2871,
    };
    let bytes = encode_header(&header);
    assert_eq!(bytes.len(), 104);
    assert_eq!(decode_header(&bytes), Ok(header));
}

#[test]
fn header_layout_is_packed_and_little_endian() {
    let header = IguanaPacketHeader {
        sig: [0xaa; 64],
        packethash: [0xbb; 32],
        nonce: 0x0403_0201,
        packetlen: 0x0000_0b37,
    };
    let bytes = encode_header(&header);
    assert_eq!(&bytes[..64], &[0xaa; 64][..]);
    assert_eq!(&bytes[64..96], &[0xbb; 32][..]);
    assert_eq!(&bytes[96..100], &[1, 2, 3, 4][..]);
    assert_eq!(&bytes[100..104], &[0x37, 0x0b, 0, 0][..]);
}

#[test]
fn header_decodes_from_raw_bytes() {
    let mut bytes = vec![0u8; 104];
    for (i, b) in bytes.iter_mut().enumerate() {
        *b = i as u8;
    }
    let header = decode_header(&bytes).unwrap();
    assert_eq!(header.sig[0], 0);
    assert_eq!(header.sig[63], 63);
    assert_eq!(header.packethash[0], 64);
    assert_eq!(header.packethash[31], 95);
    assert_eq!(header.nonce, u32::from_le_bytes([96, 97, 98, 99]));
    assert_eq!(header.packetlen, u32::from_le_bytes([100, 101, 102, 103]));
    assert_eq!(encode_header(&header), bytes);
}

#[test]
fn header_with_too_few_bytes_is_a_framing_error() {
    assert_eq!(decode_header(&[]), Err(PacketError::FramingError));
    assert_eq!(decode_header(&[0u8; 103]), Err(PacketError::FramingError));
    assert!(decode_header(&[0u8; 104]).is_ok());
}

#[test]
fn header_ignores_what_follows_it() {
    let header =
        IguanaPacketHeader { sig: [1; 64], packethash: [2; 32], nonce: 3, packetlen: 4 };
    let mut bytes = encode_header(&header);
    bytes.extend_from_slice(&[9, 9, 9, 9]);
    assert_eq!(decode_header(&bytes), Ok(header));
}

#[test]
fn utxo_round_trips() {
    let utxo = sample_utxo(0x70);
    let bytes = encode_utxo(&utxo);
    assert_eq!(bytes.len(), 356);
    assert_eq!(decode_utxo(&bytes), Ok(utxo));
    assert_eq!(decode_utxo(&bytes[..355]), Err(PacketError::FramingError));
}

#[test]
fn utxo_layout_is_exact() {
    let utxo = sample_utxo(0);
    let bytes = encode_utxo(&utxo);
    assert_eq!(&bytes[80..84], &[0x04, 0x03, 0x02, 0x01][..]);
    assert_eq!(&bytes[84..88], &[0xd4, 0xc3, 0xb2, 0xa1][..]);
    assert_eq!(&bytes[88..92], &[0xfe, 0xff, 0xff, 0xff][..]);
    assert_eq!(&bytes[92..94], &[0x34, 0x12][..]);
    assert_eq!(&bytes[94..96], &[0xdc, 0xfe][..]);
    assert_eq!(&bytes[96..224], &utxo.sig1[..]);
    assert_eq!(&bytes[224..352], &utxo.sig2[..]);
    assert_eq!(&bytes[352..354], &[71, 72][..]);
    assert_eq!(bytes[354], 0x5a);
    assert_eq!(bytes[355], 13);
}

#[test]
fn message_round_trips_with_capacity_512() {
    let message = sample_message(512);
    let bytes = encode_message(&message);
    assert_eq!(bytes.len(), 2871);
    assert_eq!(decode_message(&bytes, 512), Ok(message));
}

#[test]
fn message_round_trips_with_capacity_128() {
    let message = sample_message(128);
    let bytes = encode_message(&message);
    assert_eq!(bytes.len(), 1335);
    assert_eq!(decode_message(&bytes, 128), Ok(message));
}

#[test]
fn message_round_trips_with_an_empty_address_list() {
    let message = sample_message(0);
    let bytes = encode_message(&message);
    assert_eq!(bytes.len(), 823);
    assert_eq!(decode_message(&bytes, 0), Ok(message));
}

#[test]
fn message_travels_one_byte_short_of_its_declared_size() {
    assert_eq!(message_wire_size(512), Some(2872 - 1));
    assert_eq!(message_wire_size(128), Some(1336 - 1));
    assert_eq!(message_wire_size(usize::MAX), None);
    let bytes = encode_message(&sample_message(512));
    assert_eq!(decode_message(&bytes[..2870], 512), Err(PacketError::FramingError));
    assert!(decode_message(&bytes[..2871], 512).is_ok());
    assert_eq!(decode_message(&bytes, usize::MAX), Err(PacketError::FramingError));
}

#[test]
fn message_layout_is_exact() {
    let message = sample_message(128);
    let bytes = encode_message(&message);
    assert_eq!(&bytes[..32], &message.srchash[..]);
    assert_eq!(&bytes[32..64], &message.desthash[..]);
    assert_eq!(&bytes[64..420], &encode_utxo(&message.ratify)[..]);
    assert_eq!(&bytes[420..776], &encode_utxo(&message.notarize)[..]);
    assert_eq!(&bytes[776..780], b"sigs");
    assert_eq!(&bytes[780..784], &3_000_000u32.to_le_bytes()[..]);
    assert_eq!(&bytes[784..788], &2871u32.to_le_bytes()[..]);
    assert_eq!(&bytes[788..792], &[0, 0, 0, 0][..]);
    assert_eq!(&bytes[792..796], &[0xef, 0xbe, 0xad, 0xde][..]);
    assert_eq!(&bytes[796..800], &[192, 168, 1, 20][..]);
    assert_eq!(&bytes[800..804], &64u32.to_le_bytes()[..]);
    assert_eq!(&bytes[804..808], &[10, 0, 0, 1][..]);
    assert_eq!(&bytes[808..812], &[10, 0, 1, 1][..]);
    assert_eq!(&bytes[804 + 4 * 64..804 + 4 * 65], &[0, 0, 0, 0][..]);
    assert_eq!(&bytes[1316..1332], b"KMD\0\0\0\0\0\0\0\0\0\0\0\0\0");
    assert_eq!(bytes[1332], 63);
    assert_eq!(bytes[1333], 62);
    assert_eq!(bytes[1334], 2);
}

#[test]
fn message_ignores_what_follows_it() {
    let message = sample_message(128);
    let mut bytes = encode_message(&message);
    bytes.extend_from_slice(&[1, 2, 3]);
    assert_eq!(decode_message(&bytes, 128), Ok(message));
}

#[test]
fn any_bytes_of_the_right_length_decode_and_encode_back() {
    let mut bytes = vec![0u8; 1335];
    for (i, b) in bytes.iter_mut().enumerate() {
        *b = (i * 31 + 7) as u8;
    }
    let message = decode_message(&bytes, 128).unwrap();
    assert_eq!(message.ipbits.len(), 128);
    assert_eq!(encode_message(&message), bytes);
}
