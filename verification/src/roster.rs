//! The compiled roster of notaries and the channel tags of the protocol.

use vstd::prelude::*;
use crate::wire::from_le32;

verus! {

/// How many notaries the roster holds; sender indices are below this.
pub const NOTARY_COUNT: usize = 64;

/// Channel of signature packets: the ASCII tag "sigs" read as a
/// little-endian integer.
pub const DPOW_SIGCHANNEL: u32 = 0x7367_6973;

/// Channel of signature packets of the second chain: the complement of
/// `DPOW_SIGCHANNEL`.
pub const DPOW_SIGBTCCHANNEL: u32 = 0x8c98_968c;

/// Channel of transaction-id packets: the ASCII tag "txid" read as a
/// little-endian integer.
pub const DPOW_TXIDCHANNEL: u32 = 0x6469_7874;

/// Channel of transaction-id packets of the second chain: the complement of
/// `DPOW_TXIDCHANNEL`.
pub const DPOW_BTCTXIDCHANNEL: u32 = 0x9b96_878b;

/// The names of the notaries, by id.
pub const FIRST_PARTY: [&'static str; 64] = [
    "blackice_DEV",
    "blackice_AR",
    "blackice_EU",
    "blackice_NA",
    "alien_NA",
    "alien_EU",
    "alien_SH",
    "alienx_NA",
    "alright_EU",
    "alright_DEV",
    "artem.pikulin_AR",
    "batman_AR",
    "blackice2_AR",
    "ca333_EU",
    "caglarkaya_EU",
    "chmex_AR",
    "chmex_EU",
    "chmex_NA",
    "chmex_SH",
    "chmex2_SH",
    "cipi_AR",
    "cipi_EU",
    "cipi_NA",
    "colmapol_EU",
    "computergenie_EU",
    "computergenie_NA",
    "computergenie2_NA",
    "dimxy_AR",
    "dimxy_DEV",
    "emmaccen_DEV",
    "fediakash_AR",
    "gcharang_AR",
    "gcharang_SH",
    "gcharang_DEV",
    "kmdude_SH",
    "marmara_AR",
    "marmara_EU",
    "mcrypt_SH",
    "nodeone_NA",
    "nodeone2_NA",
    "ozkanonur_NA",
    "pbca26_NA",
    "pbca26_SH",
    "phit_SH",
    "ptyx_SH",
    "shamardy_SH",
    "sheeba_SH",
    "sheeba2_SH",
    "smdmitry_AR",
    "smdmitry_EU",
    "smdmitry_SH",
    "smdmitry2_AR",
    "strob_SH",
    "tonyl_AR",
    "tonyl_DEV",
    "van_EU",
    "webworker01_EU",
    "webworker01_NA",
    "who-biz_NA",
    "yurri-khi_DEV",
    "dragonhound_AR",
    "dragonhound_EU",
    "dragonhound_NA",
    "dragonhound_DEV",
];

/// The interpretation that a channel tag selects for a packet's payload.
#[derive(Clone, Copy, Debug, PartialEq, Eq, Structural)]
pub enum Channel {
    Sigs,
    SigsBtc,
    Txid,
    BtcTxid,
}

/// The channel that a tag names, if it names one.
pub open spec fn channel_of(tag: u32) -> Option<Channel> {
    if tag == DPOW_SIGCHANNEL {
        Some(Channel::Sigs)
    } else if tag == DPOW_SIGBTCCHANNEL {
        Some(Channel::SigsBtc)
    } else if tag == DPOW_TXIDCHANNEL {
        Some(Channel::Txid)
    } else if tag == DPOW_BTCTXIDCHANNEL {
        Some(Channel::BtcTxid)
    } else {
        None
    }
}

/// The four tags are the two ASCII tags, read little-endian, and their
/// bitwise complements.
pub proof fn lemma_channel_tags()
    ensures
        DPOW_SIGCHANNEL == from_le32(seq![0x73u8, 0x69u8, 0x67u8, 0x73u8]),
        DPOW_TXIDCHANNEL == from_le32(seq![0x74u8, 0x78u8, 0x69u8, 0x64u8]),
        DPOW_SIGBTCCHANNEL == !DPOW_SIGCHANNEL,
        DPOW_BTCTXIDCHANNEL == !DPOW_TXIDCHANNEL,
{
    assert(0x8c98_968cu32 == !0x7367_6973u32) by (bit_vector);
    assert(0x9b96_878bu32 == !0x6469_7874u32) by (bit_vector);
}

/// Classifies the channel tag of a message.
pub fn classify_channel(tag: u32) -> (channel: Option<Channel>)
    ensures
        channel == channel_of(tag),
{
    if tag == DPOW_SIGCHANNEL {
        Some(Channel::Sigs)
    } else if tag == DPOW_SIGBTCCHANNEL {
        Some(Channel::SigsBtc)
    } else if tag == DPOW_TXIDCHANNEL {
        Some(Channel::Txid)
    } else if tag == DPOW_BTCTXIDCHANNEL {
        Some(Channel::BtcTxid)
    } else {
        None
    }
}

/// The roster name of the notary with index `senderind`, or `InvalidSender`
/// where the index is outside the roster.
pub fn notary_name(senderind: u8) -> (r: Result<&'static str, crate::error::PacketError>)
    ensures
        r is Ok <==> senderind < NOTARY_COUNT,
        r is Ok ==> r->Ok_0 == FIRST_PARTY[senderind as int],
        r is Err ==> r == Err::<&'static str, crate::error::PacketError>(
            crate::error::PacketError::InvalidSender,
        ),
{
    if (senderind as usize) < NOTARY_COUNT {
        Ok(FIRST_PARTY[senderind as usize])
    } else {
        Err(crate::error::PacketError::InvalidSender)
    }
}

} // verus!
