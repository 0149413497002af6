//! The two wire structures and their bit-exact encoding.
//!
//! Fields are packed without padding, integers are little-endian, and byte
//! arrays are copied verbatim. The message travels one byte shorter than the
//! size its structure declares.

use vstd::prelude::*;
use crate::error::PacketError;
use crate::wire::{
    from_le16, from_le32, get_array, get_u16, get_u32, le16, le32, put_bytes, put_u16, put_u32,
};

verus! {

/// Length of the packet header on the wire.
pub const HEADER_SIZE: usize = 104;

/// Length of a utxo record on the wire.
pub const UTXO_SIZE: usize = 356;

/// Bytes of a message that do not belong to its address list.
pub const MESSAGE_FIXED_SIZE: usize = 823;

/// The header that precedes every packet.
#[derive(Clone, Debug, PartialEq, Eq)]
pub struct IguanaPacketHeader {
    pub sig: [u8; 64],
    pub packethash: [u8; 32],
    pub nonce: u32,
    pub packetlen: u32,
}

/// What a header holds, as mathematical values.
pub struct HeaderView {
    pub sig: Seq<u8>,
    pub packethash: Seq<u8>,
    pub nonce: u32,
    pub packetlen: u32,
}

impl View for IguanaPacketHeader {
    type V = HeaderView;

    open spec fn view(&self) -> HeaderView {
        HeaderView {
            sig: self.sig@,
            packethash: self.packethash@,
            nonce: self.nonce,
            packetlen: self.packetlen,
        }
    }
}

impl HeaderView {
    /// The field lengths that every header has.
    pub open spec fn wf(self) -> bool {
        self.sig.len() == 64 && self.packethash.len() == 32
    }

    /// The 104 bytes that stand for the header on the wire.
    pub open spec fn wire(self) -> Seq<u8> {
        self.sig + self.packethash + le32(self.nonce) + le32(self.packetlen)
    }
}

/// The header that the first 104 bytes of `b` stand for.
pub open spec fn parse_header(b: Seq<u8>) -> HeaderView
    recommends
        b.len() >= 104,
{
    HeaderView {
        sig: b.subrange(0, 64),
        packethash: b.subrange(64, 96),
        nonce: from_le32(b.subrange(96, 100)),
        packetlen: from_le32(b.subrange(100, 104)),
    }
}

/// Decoding the encoding of a header gives the header back.
pub proof fn lemma_header_roundtrip(v: HeaderView)
    requires
        v.wf(),
    ensures
        v.wire().len() == 104,
        parse_header(v.wire()) == v,
{
    let w = v.wire();
    assert(w.subrange(0, 64) =~= v.sig);
    assert(w.subrange(64, 96) =~= v.packethash);
    assert(w.subrange(96, 100) =~= le32(v.nonce));
    assert(w.subrange(100, 104) =~= le32(v.packetlen));
    crate::wire::lemma_le32_roundtrip(v.nonce);
    crate::wire::lemma_le32_roundtrip(v.packetlen);
}

/// Encoding the header decoded from 104 bytes gives the same bytes.
pub proof fn lemma_header_bytes_roundtrip(b: Seq<u8>)
    requires
        b.len() == 104,
    ensures
        parse_header(b).wf(),
        parse_header(b).wire() == b,
{
    crate::wire::lemma_le32_bytes_roundtrip(b.subrange(96, 100));
    crate::wire::lemma_le32_bytes_roundtrip(b.subrange(100, 104));
    assert(parse_header(b).wire() =~= b);
}

/// Every header decodes from its own encoding.
pub proof fn lemma_header_value_roundtrip(header: IguanaPacketHeader)
    ensures
        header@.wire().len() == 104,
        parse_header(header@.wire()) == header@,
{
    lemma_header_roundtrip(header@);
}

/// Decodes the header at the start of `bytes`.
///
/// Fails with `FramingError` exactly when fewer than 104 bytes are
/// available; bytes after the header are not looked at.
pub fn decode_header(bytes: &[u8]) -> (r: Result<IguanaPacketHeader, PacketError>)
    ensures
        r is Ok <==> bytes@.len() >= 104,
        r is Err ==> r == Err::<IguanaPacketHeader, PacketError>(PacketError::FramingError),
        r is Ok ==> r->Ok_0@ == parse_header(bytes@),
{
    if bytes.len() < HEADER_SIZE {
        return Err(PacketError::FramingError);
    }
    let header = IguanaPacketHeader {
        sig: get_array::<64>(bytes, 0),
        packethash: get_array::<32>(bytes, 64),
        nonce: get_u32(bytes, 96),
        packetlen: get_u32(bytes, 100),
    };
    Ok(header)
}

/// Encodes `header` as the 104 bytes that `decode_header` reads.
pub fn encode_header(header: &IguanaPacketHeader) -> (out: Vec<u8>)
    ensures
        out@ == header@.wire(),
        out@.len() == 104,
{
    let mut out: Vec<u8> = Vec::new();
    put_bytes(&mut out, &header.sig);
    put_bytes(&mut out, &header.packethash);
    put_u32(&mut out, header.nonce);
    put_u32(&mut out, header.packetlen);
    assert(out@ =~= header@.wire());
    out
}

/// A reference to a ratification or notarization output, with the signature
/// material attached to it.
#[derive(Clone, Debug, PartialEq, Eq)]
pub struct DpowNanoUtxo {
    pub srcutxo: [u8; 32],
    pub destutxo: [u8; 32],
    pub bestmask: [u8; 8],
    pub recvmask: [u8; 8],
    pub pendingcrc1: u32,
    pub pendingcrc2: u32,
    pub paxwdcrc: u32,
    pub srcvout: u16,
    pub destvout: u16,
    pub sig1: [u8; 128],
    pub sig2: [u8; 128],
    pub siglens: [u8; 2],
    pub pad: u8,
    pub bestk: u8,
}

/// What a utxo record holds, as mathematical values.
pub struct UtxoView {
    pub srcutxo: Seq<u8>,
    pub destutxo: Seq<u8>,
    pub bestmask: Seq<u8>,
    pub recvmask: Seq<u8>,
    pub pendingcrc1: u32,
    pub pendingcrc2: u32,
    pub paxwdcrc: u32,
    pub srcvout: u16,
    pub destvout: u16,
    pub sig1: Seq<u8>,
    pub sig2: Seq<u8>,
    pub siglens: Seq<u8>,
    pub pad: u8,
    pub bestk: u8,
}

impl View for DpowNanoUtxo {
    type V = UtxoView;

    open spec fn view(&self) -> UtxoView {
        UtxoView {
            srcutxo: self.srcutxo@,
            destutxo: self.destutxo@,
            bestmask: self.bestmask@,
            recvmask: self.recvmask@,
            pendingcrc1: self.pendingcrc1,
            pendingcrc2: self.pendingcrc2,
            paxwdcrc: self.paxwdcrc,
            srcvout: self.srcvout,
            destvout: self.destvout,
            sig1: self.sig1@,
            sig2: self.sig2@,
            siglens: self.siglens@,
            pad: self.pad,
            bestk: self.bestk,
        }
    }
}

impl UtxoView {
    /// The field lengths that every utxo record has.
    pub open spec fn wf(self) -> bool {
        &&& self.srcutxo.len() == 32
        &&& self.destutxo.len() == 32
        &&& self.bestmask.len() == 8
        &&& self.recvmask.len() == 8
        &&& self.sig1.len() == 128
        &&& self.sig2.len() == 128
        &&& self.siglens.len() == 2
    }

    /// The hashes, masks, checksums and output indices: the first 96 bytes.
    pub open spec fn wire_front(self) -> Seq<u8> {
        self.srcutxo + self.destutxo + self.bestmask + self.recvmask + le32(self.pendingcrc1)
            + le32(self.pendingcrc2) + le32(self.paxwdcrc) + le16(self.srcvout) + le16(
            self.destvout,
        )
    }

    /// The signatures, their lengths and the two closing bytes: the last 260 bytes.
    pub open spec fn wire_back(self) -> Seq<u8> {
        self.sig1 + self.sig2 + self.siglens + seq![self.pad, self.bestk]
    }

    /// The 356 bytes that stand for the record on the wire.
    pub open spec fn wire(self) -> Seq<u8> {
        self.wire_front() + self.wire_back()
    }
}

/// The utxo record that the first 356 bytes of `b` stand for.
pub open spec fn parse_utxo(b: Seq<u8>) -> UtxoView
    recommends
        b.len() >= 356,
{
    UtxoView {
        srcutxo: b.subrange(0, 32),
        destutxo: b.subrange(32, 64),
        bestmask: b.subrange(64, 72),
        recvmask: b.subrange(72, 80),
        pendingcrc1: from_le32(b.subrange(80, 84)),
        pendingcrc2: from_le32(b.subrange(84, 88)),
        paxwdcrc: from_le32(b.subrange(88, 92)),
        srcvout: from_le16(b.subrange(92, 94)),
        destvout: from_le16(b.subrange(94, 96)),
        sig1: b.subrange(96, 224),
        sig2: b.subrange(224, 352),
        siglens: b.subrange(352, 354),
        pad: b[354],
        bestk: b[355],
    }
}

/// Decoding the encoding of a utxo record gives the record back.
pub proof fn lemma_utxo_roundtrip(v: UtxoView)
    requires
        v.wf(),
    ensures
        v.wire().len() == 356,
        parse_utxo(v.wire()) == v,
{
    let w = v.wire();
    let f = v.wire_front();
    let k = v.wire_back();
    assert(f.len() == 96);
    assert(k.len() == 260);
    assert(w.subrange(0, 96) =~= f);
    assert(w.subrange(96, 356) =~= k);
    assert(w.subrange(0, 32) =~= v.srcutxo);
    assert(w.subrange(32, 64) =~= v.destutxo);
    assert(w.subrange(64, 72) =~= v.bestmask);
    assert(w.subrange(72, 80) =~= v.recvmask);
    assert(w.subrange(80, 84) =~= le32(v.pendingcrc1));
    assert(w.subrange(84, 88) =~= le32(v.pendingcrc2));
    assert(w.subrange(88, 92) =~= le32(v.paxwdcrc));
    assert(w.subrange(92, 94) =~= le16(v.srcvout));
    assert(w.subrange(94, 96) =~= le16(v.destvout));
    assert(w.subrange(96, 224) =~= v.sig1);
    assert(w.subrange(224, 352) =~= v.sig2);
    assert(w.subrange(352, 354) =~= v.siglens);
    assert(w[354] == v.pad);
    assert(w[355] == v.bestk);
    crate::wire::lemma_le32_roundtrip(v.pendingcrc1);
    crate::wire::lemma_le32_roundtrip(v.pendingcrc2);
    crate::wire::lemma_le32_roundtrip(v.paxwdcrc);
    crate::wire::lemma_le16_roundtrip(v.srcvout);
    crate::wire::lemma_le16_roundtrip(v.destvout);
}

/// Encoding the utxo record decoded from 356 bytes gives the same bytes.
pub proof fn lemma_utxo_bytes_roundtrip(b: Seq<u8>)
    requires
        b.len() == 356,
    ensures
        parse_utxo(b).wf(),
        parse_utxo(b).wire() == b,
{
    crate::wire::lemma_le32_bytes_roundtrip(b.subrange(80, 84));
    crate::wire::lemma_le32_bytes_roundtrip(b.subrange(84, 88));
    crate::wire::lemma_le32_bytes_roundtrip(b.subrange(88, 92));
    crate::wire::lemma_le16_bytes_roundtrip(b.subrange(92, 94));
    crate::wire::lemma_le16_bytes_roundtrip(b.subrange(94, 96));
    let v = parse_utxo(b);
    assert(v.wire_front() =~= b.subrange(0, 96));
    assert(v.wire_back() =~= b.subrange(96, 356));
    assert(v.wire() =~= b);
}

/// Decodes the utxo record at the start of `bytes`.
pub fn decode_utxo(bytes: &[u8]) -> (r: Result<DpowNanoUtxo, PacketError>)
    ensures
        r is Ok <==> bytes@.len() >= 356,
        r is Err ==> r == Err::<DpowNanoUtxo, PacketError>(PacketError::FramingError),
        r is Ok ==> r->Ok_0@ == parse_utxo(bytes@),
{
    if bytes.len() < UTXO_SIZE {
        return Err(PacketError::FramingError);
    }
    let utxo = DpowNanoUtxo {
        srcutxo: get_array::<32>(bytes, 0),
        destutxo: get_array::<32>(bytes, 32),
        bestmask: get_array::<8>(bytes, 64),
        recvmask: get_array::<8>(bytes, 72),
        pendingcrc1: get_u32(bytes, 80),
        pendingcrc2: get_u32(bytes, 84),
        paxwdcrc: get_u32(bytes, 88),
        srcvout: get_u16(bytes, 92),
        destvout: get_u16(bytes, 94),
        sig1: get_array::<128>(bytes, 96),
        sig2: get_array::<128>(bytes, 224),
        siglens: get_array::<2>(bytes, 352),
        pad: bytes[354],
        bestk: bytes[355],
    };
    Ok(utxo)
}

/// Appends the 356 bytes of `utxo` to `out`.
pub fn put_utxo(out: &mut Vec<u8>, utxo: &DpowNanoUtxo)
    ensures
        final(out)@ == old(out)@ + utxo@.wire(),
{
    put_bytes(out, &utxo.srcutxo);
    put_bytes(out, &utxo.destutxo);
    put_bytes(out, &utxo.bestmask);
    put_bytes(out, &utxo.recvmask);
    put_u32(out, utxo.pendingcrc1);
    put_u32(out, utxo.pendingcrc2);
    put_u32(out, utxo.paxwdcrc);
    put_u16(out, utxo.srcvout);
    put_u16(out, utxo.destvout);
    assert(out@ =~= old(out)@ + utxo@.wire_front());
    put_bytes(out, &utxo.sig1);
    put_bytes(out, &utxo.sig2);
    put_bytes(out, &utxo.siglens);
    out.push(utxo.pad);
    out.push(utxo.bestk);
    assert(out@ =~= old(out)@ + utxo@.wire_front() + utxo@.wire_back());
    assert(out@ =~= old(out)@ + utxo@.wire());
}

/// Encodes `utxo` as the 356 bytes that `decode_utxo` reads.
pub fn encode_utxo(utxo: &DpowNanoUtxo) -> (out: Vec<u8>)
    ensures
        out@ == utxo@.wire(),
{
    let mut out: Vec<u8> = Vec::new();
    put_utxo(&mut out, utxo);
    assert(out@ =~= utxo@.wire());
    out
}

/// The message that follows the header of every packet.
///
/// `ipbits` is the address list: its length is the capacity that the
/// deployment is configured with, and unused entries are zero.
#[derive(Clone, Debug, PartialEq, Eq)]
pub struct DpowNanoMsgHdr {
    pub srchash: [u8; 32],
    pub desthash: [u8; 32],
    pub ratify: DpowNanoUtxo,
    pub notarize: DpowNanoUtxo,
    pub channel: u32,
    pub height: u32,
    pub size: u32,
    pub datalen: u32,
    pub crc32: u32,
    pub myipbits: [u8; 4],
    pub numipbits: u32,
    pub ipbits: Vec<[u8; 4]>,
    pub symbol: [u8; 16],
    pub senderind: u8,
    pub senderind2: u8,
    pub version1: u8,
}

/// What a message holds, as mathematical values.
pub struct MessageView {
    pub srchash: Seq<u8>,
    pub desthash: Seq<u8>,
    pub ratify: UtxoView,
    pub notarize: UtxoView,
    pub channel: u32,
    pub height: u32,
    pub size: u32,
    pub datalen: u32,
    pub crc32: u32,
    pub myipbits: Seq<u8>,
    pub numipbits: u32,
    pub ipbits: Seq<Seq<u8>>,
    pub symbol: Seq<u8>,
    pub senderind: u8,
    pub senderind2: u8,
    pub version1: u8,
}

/// The addresses of a list, each as its four bytes.
pub open spec fn address_views(list: Seq<[u8; 4]>) -> Seq<Seq<u8>> {
    Seq::new(list.len(), |i: int| list[i]@)
}

/// The bytes of an address list: four for each entry, in order.
pub open spec fn addresses_wire(list: Seq<Seq<u8>>) -> Seq<u8> {
    Seq::new(4 * list.len(), |j: int| list[j / 4][j % 4])
}

/// The `capacity` addresses that `b` holds from offset `at` on.
pub open spec fn parse_addresses(b: Seq<u8>, at: int, capacity: nat) -> Seq<Seq<u8>> {
    Seq::new(capacity, |i: int| b.subrange(at + 4 * i, at + 4 * i + 4))
}

impl View for DpowNanoMsgHdr {
    type V = MessageView;

    open spec fn view(&self) -> MessageView {
        MessageView {
            srchash: self.srchash@,
            desthash: self.desthash@,
            ratify: self.ratify@,
            notarize: self.notarize@,
            channel: self.channel,
            height: self.height,
            size: self.size,
            datalen: self.datalen,
            crc32: self.crc32,
            myipbits: self.myipbits@,
            numipbits: self.numipbits,
            ipbits: address_views(self.ipbits@),
            symbol: self.symbol@,
            senderind: self.senderind,
            senderind2: self.senderind2,
            version1: self.version1,
        }
    }
}

/// The size that the message structure declares for an address list of
/// `capacity` entries: its fields, and one byte that never travels.
pub open spec fn declared_size(capacity: nat) -> nat {
    824 + 4 * capacity
}

/// The length of a message on the wire: one byte less than it declares.
pub open spec fn wire_size(capacity: nat) -> nat {
    (declared_size(capacity) - 1) as nat
}

impl MessageView {
    /// The field lengths that every message has.
    pub open spec fn wf(self) -> bool {
        &&& self.srchash.len() == 32
        &&& self.desthash.len() == 32
        &&& self.ratify.wf()
        &&& self.notarize.wf()
        &&& self.myipbits.len() == 4
        &&& self.symbol.len() == 16
        &&& forall|i: int| 0 <= i < self.ipbits.len() ==> (#[trigger] self.ipbits[i]).len() == 4
    }

    /// Everything before the address list: 804 bytes.
    pub open spec fn wire_front(self) -> Seq<u8> {
        self.srchash + self.desthash + self.ratify.wire() + self.notarize.wire() + le32(
            self.channel,
        ) + le32(self.height) + le32(self.size) + le32(self.datalen) + le32(self.crc32)
            + self.myipbits + le32(self.numipbits)
    }

    /// Everything after the address list: 19 bytes.
    pub open spec fn wire_back(self) -> Seq<u8> {
        self.symbol + seq![self.senderind, self.senderind2, self.version1]
    }

    /// The bytes that stand for the message on the wire.
    pub open spec fn wire(self) -> Seq<u8> {
        self.wire_front() + addresses_wire(self.ipbits) + self.wire_back()
    }
}

/// The message with an address list of `capacity` entries that the first
/// `wire_size(capacity)` bytes of `b` stand for.
pub open spec fn parse_message(b: Seq<u8>, capacity: nat) -> MessageView
    recommends
        b.len() >= wire_size(capacity),
{
    let t: int = 804 + 4 * (capacity as int);
    MessageView {
        srchash: b.subrange(0, 32),
        desthash: b.subrange(32, 64),
        ratify: parse_utxo(b.subrange(64, 420)),
        notarize: parse_utxo(b.subrange(420, 776)),
        channel: from_le32(b.subrange(776, 780)),
        height: from_le32(b.subrange(780, 784)),
        size: from_le32(b.subrange(784, 788)),
        datalen: from_le32(b.subrange(788, 792)),
        crc32: from_le32(b.subrange(792, 796)),
        myipbits: b.subrange(796, 800),
        numipbits: from_le32(b.subrange(800, 804)),
        ipbits: parse_addresses(b, 804, capacity),
        symbol: b.subrange(t, t + 16),
        senderind: b[t + 16],
        senderind2: b[t + 17],
        version1: b[t + 18],
    }
}

proof fn lemma_front_fields(v: MessageView)
    requires
        v.wf(),
    ensures
        v.wire_front().len() == 804,
        v.wire_front().subrange(0, 32) == v.srchash,
        v.wire_front().subrange(32, 64) == v.desthash,
        v.wire_front().subrange(64, 420) == v.ratify.wire(),
        v.wire_front().subrange(420, 776) == v.notarize.wire(),
        v.wire_front().subrange(776, 780) == le32(v.channel),
        v.wire_front().subrange(780, 784) == le32(v.height),
        v.wire_front().subrange(784, 788) == le32(v.size),
        v.wire_front().subrange(788, 792) == le32(v.datalen),
        v.wire_front().subrange(792, 796) == le32(v.crc32),
        v.wire_front().subrange(796, 800) == v.myipbits,
        v.wire_front().subrange(800, 804) == le32(v.numipbits),
{
    let f = v.wire_front();
    lemma_utxo_roundtrip(v.ratify);
    lemma_utxo_roundtrip(v.notarize);
    assert(f.len() == 804);
    assert(f.subrange(0, 32) =~= v.srchash);
    assert(f.subrange(32, 64) =~= v.desthash);
    assert(f.subrange(64, 420) =~= v.ratify.wire());
    assert(f.subrange(420, 776) =~= v.notarize.wire());
    assert(f.subrange(776, 780) =~= le32(v.channel));
    assert(f.subrange(780, 784) =~= le32(v.height));
    assert(f.subrange(784, 788) =~= le32(v.size));
    assert(f.subrange(788, 792) =~= le32(v.datalen));
    assert(f.subrange(792, 796) =~= le32(v.crc32));
    assert(f.subrange(796, 800) =~= v.myipbits);
    assert(f.subrange(800, 804) =~= le32(v.numipbits));
}

proof fn lemma_addresses_roundtrip(front: Seq<u8>, list: Seq<Seq<u8>>, back: Seq<u8>)
    requires
        front.len() == 804,
        forall|i: int| 0 <= i < list.len() ==> (#[trigger] list[i]).len() == 4,
    ensures
        parse_addresses(front + addresses_wire(list) + back, 804, list.len()) == list,
{
    let n = list.len();
    let a = addresses_wire(list);
    let w = front + a + back;
    let p = parse_addresses(w, 804, n);
    assert forall|i: int| 0 <= i < n implies #[trigger] p[i] == list[i] by {
        assert(list[i].len() == 4);
        assert forall|c: int| 0 <= c < 4 implies w.subrange(804 + 4 * i, 804 + 4 * i + 4)[c]
            == list[i][c] by {
            let j = 4 * i + c;
            assert(w[804 + j] == a[j]);
            assert(j / 4 == i && j % 4 == c);
        }
        assert(p[i] =~= list[i]);
    }
    assert(p =~= list);
}

proof fn lemma_back_fields(head: Seq<u8>, v: MessageView, t: int)
    requires
        v.symbol.len() == 16,
        t == head.len(),
    ensures
        (head + v.wire_back()).subrange(t, t + 16) == v.symbol,
        (head + v.wire_back())[t + 16] == v.senderind,
        (head + v.wire_back())[t + 17] == v.senderind2,
        (head + v.wire_back())[t + 18] == v.version1,
        (head + v.wire_back()).len() == t + 19,
{
    let w = head + v.wire_back();
    assert(w.subrange(t, t + 16) =~= v.symbol);
}

proof fn lemma_parsed_front(w: Seq<u8>, v: MessageView, capacity: nat)
    requires
        v.wf(),
        w.len() >= 804,
        w.subrange(0, 804) == v.wire_front(),
    ensures
        parse_message(w, capacity).srchash == v.srchash,
        parse_message(w, capacity).desthash == v.desthash,
        parse_message(w, capacity).ratify == v.ratify,
        parse_message(w, capacity).notarize == v.notarize,
        parse_message(w, capacity).channel == v.channel,
        parse_message(w, capacity).height == v.height,
        parse_message(w, capacity).size == v.size,
        parse_message(w, capacity).datalen == v.datalen,
        parse_message(w, capacity).crc32 == v.crc32,
        parse_message(w, capacity).myipbits == v.myipbits,
        parse_message(w, capacity).numipbits == v.numipbits,
{
    let f = w.subrange(0, 804);
    lemma_front_fields(v);
    assert(w.subrange(0, 32) =~= f.subrange(0, 32));
    assert(w.subrange(32, 64) =~= f.subrange(32, 64));
    assert(w.subrange(64, 420) =~= f.subrange(64, 420));
    assert(w.subrange(420, 776) =~= f.subrange(420, 776));
    assert(w.subrange(776, 780) =~= f.subrange(776, 780));
    assert(w.subrange(780, 784) =~= f.subrange(780, 784));
    assert(w.subrange(784, 788) =~= f.subrange(784, 788));
    assert(w.subrange(788, 792) =~= f.subrange(788, 792));
    assert(w.subrange(792, 796) =~= f.subrange(792, 796));
    assert(w.subrange(796, 800) =~= f.subrange(796, 800));
    assert(w.subrange(800, 804) =~= f.subrange(800, 804));
    lemma_utxo_roundtrip(v.ratify);
    lemma_utxo_roundtrip(v.notarize);
    crate::wire::lemma_le32_roundtrip(v.channel);
    crate::wire::lemma_le32_roundtrip(v.height);
    crate::wire::lemma_le32_roundtrip(v.size);
    crate::wire::lemma_le32_roundtrip(v.datalen);
    crate::wire::lemma_le32_roundtrip(v.crc32);
    crate::wire::lemma_le32_roundtrip(v.numipbits);
}

/// Decoding the encoding of a message gives the message back, with the
/// address-list capacity it was encoded with.
pub proof fn lemma_message_roundtrip(v: MessageView)
    requires
        v.wf(),
    ensures
        v.wire().len() == wire_size(v.ipbits.len()),
        parse_message(v.wire(), v.ipbits.len()) == v,
{
    let n = v.ipbits.len();
    let w = v.wire();
    let f = v.wire_front();
    let a = addresses_wire(v.ipbits);
    lemma_front_fields(v);
    assert(w.subrange(0, 804) =~= f);
    lemma_parsed_front(w, v, n);
    lemma_addresses_roundtrip(f, v.ipbits, v.wire_back());
    lemma_back_fields(f + a, v, 804 + 4 * (n as int));
}

proof fn lemma_front_bytes_roundtrip(b: Seq<u8>, capacity: nat)
    requires
        b.len() == wire_size(capacity),
    ensures
        parse_message(b, capacity).wire_front() == b.subrange(0, 804),
        parse_message(b, capacity).ratify.wf(),
        parse_message(b, capacity).notarize.wf(),
{
    let v = parse_message(b, capacity);
    lemma_utxo_bytes_roundtrip(b.subrange(64, 420));
    lemma_utxo_bytes_roundtrip(b.subrange(420, 776));
    crate::wire::lemma_le32_bytes_roundtrip(b.subrange(776, 780));
    crate::wire::lemma_le32_bytes_roundtrip(b.subrange(780, 784));
    crate::wire::lemma_le32_bytes_roundtrip(b.subrange(784, 788));
    crate::wire::lemma_le32_bytes_roundtrip(b.subrange(788, 792));
    crate::wire::lemma_le32_bytes_roundtrip(b.subrange(792, 796));
    crate::wire::lemma_le32_bytes_roundtrip(b.subrange(800, 804));
    let f = b.subrange(0, 32) + b.subrange(32, 64) + b.subrange(64, 420) + b.subrange(420, 776)
        + b.subrange(776, 780) + b.subrange(780, 784) + b.subrange(784, 788) + b.subrange(
        788,
        792,
    ) + b.subrange(792, 796) + b.subrange(796, 800) + b.subrange(800, 804);
    assert(v.wire_front() == f);
    assert(f =~= b.subrange(0, 804));
}

proof fn lemma_addresses_bytes_roundtrip(b: Seq<u8>, capacity: nat)
    requires
        b.len() == wire_size(capacity),
    ensures
        addresses_wire(parse_addresses(b, 804, capacity)) == b.subrange(
            804,
            804 + 4 * (capacity as int),
        ),
{
    let list = parse_addresses(b, 804, capacity);
    let a = addresses_wire(list);
    assert forall|j: int| 0 <= j < 4 * capacity implies #[trigger] a[j] == b[804 + j] by {
        let i = j / 4;
        let c = j % 4;
        assert(0 <= i < capacity);
        assert(list[i][c] == b[804 + 4 * i + c]);
    }
    assert(a =~= b.subrange(804, 804 + 4 * (capacity as int)));
}

proof fn lemma_back_bytes_roundtrip(b: Seq<u8>, capacity: nat)
    requires
        b.len() == wire_size(capacity),
    ensures
        parse_message(b, capacity).wire_back() == b.subrange(
            804 + 4 * (capacity as int),
            823 + 4 * (capacity as int),
        ),
{
    let t: int = 804 + 4 * (capacity as int);
    assert(parse_message(b, capacity).wire_back() =~= b.subrange(t, t + 19));
}

proof fn lemma_split_in_three(b: Seq<u8>, p: int, q: int)
    requires
        0 <= p <= q <= b.len(),
    ensures
        b.subrange(0, p) + b.subrange(p, q) + b.subrange(q, b.len() as int) == b,
{
    assert(b.subrange(0, p) + b.subrange(p, q) + b.subrange(q, b.len() as int) =~= b);
}

/// Encoding the message decoded from exactly `wire_size(capacity)` bytes
/// gives the same bytes.
pub proof fn lemma_message_bytes_roundtrip(b: Seq<u8>, capacity: nat)
    requires
        b.len() == wire_size(capacity),
    ensures
        parse_message(b, capacity).wf(),
        parse_message(b, capacity).ipbits.len() == capacity,
        parse_message(b, capacity).wire() == b,
{
    let t: int = 804 + 4 * (capacity as int);
    lemma_front_bytes_roundtrip(b, capacity);
    lemma_addresses_bytes_roundtrip(b, capacity);
    lemma_back_bytes_roundtrip(b, capacity);
    lemma_split_in_three(b, 804, t);
}

/// Every message decodes from its own encoding, which is one byte shorter
/// than the size that the message declares.
pub proof fn lemma_message_value_roundtrip(msg: DpowNanoMsgHdr)
    ensures
        msg@.wire().len() == declared_size(msg.ipbits@.len()) - 1,
        parse_message(msg@.wire(), msg.ipbits@.len()) == msg@,
{
    assert(msg@.wf());
    lemma_message_roundtrip(msg@);
}

/// The wire length of a message whose address list holds `capacity` entries,
/// or `None` where that length does not fit in `usize`.
pub fn message_wire_size(capacity: usize) -> (r: Option<usize>)
    ensures
        r is Some <==> wire_size(capacity as nat) <= usize::MAX,
        r is Some ==> r->Some_0 == wire_size(capacity as nat),
{
    if capacity > (usize::MAX - MESSAGE_FIXED_SIZE) / 4 {
        None
    } else {
        Some(MESSAGE_FIXED_SIZE + 4 * capacity)
    }
}

/// Decodes the message at the start of `bytes`, for a deployment whose
/// address list holds `capacity` entries.
///
/// Fails with `FramingError` exactly when fewer than `wire_size(capacity)`
/// bytes are available; bytes after the message are not looked at.
pub fn decode_message(bytes: &[u8], capacity: usize) -> (r: Result<DpowNanoMsgHdr, PacketError>)
    ensures
        r is Ok <==> bytes@.len() >= wire_size(capacity as nat),
        r is Err ==> r == Err::<DpowNanoMsgHdr, PacketError>(PacketError::FramingError),
        r is Ok ==> r->Ok_0@ == parse_message(bytes@, capacity as nat),
        r is Ok ==> r->Ok_0.ipbits@.len() == capacity,
{
    let total: usize = bytes.len();
    let need: usize = match message_wire_size(capacity) {
        Some(n) => n,
        None => {
            return Err(PacketError::FramingError);
        },
    };
    if total < need {
        return Err(PacketError::FramingError);
    }
    let ratify = match decode_utxo(&bytes[64..420]) {
        Ok(u) => u,
        Err(e) => {
            return Err(e);
        },
    };
    let notarize = match decode_utxo(&bytes[420..776]) {
        Ok(u) => u,
        Err(e) => {
            return Err(e);
        },
    };
    let mut ipbits: Vec<[u8; 4]> = Vec::new();
    let mut i: usize = 0;
    while i < capacity
        invariant
            i <= capacity,
            need == 823 + 4 * capacity,
            need <= bytes@.len(),
            ipbits@.len() == i,
            forall|k: int|
                0 <= k < i ==> (#[trigger] ipbits@[k])@ == bytes@.subrange(
                    804 + 4 * k,
                    804 + 4 * k + 4,
                ),
        decreases capacity - i,
    {
        let entry = get_array::<4>(bytes, 804 + 4 * i);
        ipbits.push(entry);
        i += 1;
    }
    let t: usize = 804 + 4 * capacity;
    let msg = DpowNanoMsgHdr {
        srchash: get_array::<32>(bytes, 0),
        desthash: get_array::<32>(bytes, 32),
        ratify,
        notarize,
        channel: get_u32(bytes, 776),
        height: get_u32(bytes, 780),
        size: get_u32(bytes, 784),
        datalen: get_u32(bytes, 788),
        crc32: get_u32(bytes, 792),
        myipbits: get_array::<4>(bytes, 796),
        numipbits: get_u32(bytes, 800),
        ipbits,
        symbol: get_array::<16>(bytes, t),
        senderind: bytes[t + 16],
        senderind2: bytes[t + 17],
        version1: bytes[t + 18],
    };
    assert(msg@.ipbits =~= parse_addresses(bytes@, 804, capacity as nat));
    Ok(msg)
}

/// Encodes `msg` as the bytes that `decode_message` reads for an address
/// list of `msg.ipbits.len()` entries.
pub fn encode_message(msg: &DpowNanoMsgHdr) -> (out: Vec<u8>)
    ensures
        out@ == msg@.wire(),
        out@.len() == wire_size(msg.ipbits@.len()),
{
    let mut out: Vec<u8> = Vec::new();
    put_bytes(&mut out, &msg.srchash);
    put_bytes(&mut out, &msg.desthash);
    put_utxo(&mut out, &msg.ratify);
    put_utxo(&mut out, &msg.notarize);
    put_u32(&mut out, msg.channel);
    put_u32(&mut out, msg.height);
    put_u32(&mut out, msg.size);
    put_u32(&mut out, msg.datalen);
    put_u32(&mut out, msg.crc32);
    put_bytes(&mut out, &msg.myipbits);
    put_u32(&mut out, msg.numipbits);
    assert(out@ =~= msg@.wire_front());
    let ghost front = out@;
    let ghost list = msg@.ipbits;
    let mut i: usize = 0;
    while i < msg.ipbits.len()
        invariant
            i <= msg.ipbits@.len(),
            list == msg@.ipbits,
            out@ == front + addresses_wire(list.subrange(0, i as int)),
        decreases msg.ipbits@.len() - i,
    {
        let ghost before = out@;
        put_bytes(&mut out, &msg.ipbits[i]);
        i += 1;
        proof {
            let a0 = addresses_wire(list.subrange(0, i - 1));
            let a1 = addresses_wire(list.subrange(0, i as int));
            assert(list[i - 1] == msg.ipbits@[i - 1]@);
            assert(a1 =~= a0 + list[i - 1]) by {
                assert forall|j: int| 0 <= j < 4 * i implies a1[j] == (a0 + list[i - 1])[j] by {
                    if j < 4 * (i - 1) {
                        assert(j / 4 < i - 1);
                    } else {
                        assert(j / 4 == i - 1);
                        assert(j % 4 == j - 4 * (i - 1));
                    }
                }
            }
            assert(out@ =~= front + a1);
        }
    }
    assert(list.subrange(0, i as int) =~= list);
    put_bytes(&mut out, &msg.symbol);
    out.push(msg.senderind);
    out.push(msg.senderind2);
    out.push(msg.version1);
    assert(out@ =~= msg@.wire_front() + addresses_wire(list) + msg@.wire_back());
    out
}

} // verus!
