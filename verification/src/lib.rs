//! Relay-node core for a notarization gossip network: the packet codec, the
//! packet authentication pipeline, the notary and address bookkeeping, and the
//! peer-discovery decisions, each with a machine-checked contract.

pub mod address;
pub mod auth;
pub mod bits;
pub mod clock;
pub mod codec;
pub mod crypto;
pub mod db;
pub mod error;
pub mod relay;
pub mod roster;
pub mod table;
pub mod wire;

pub use crate::auth::{
    get_packethash, packethash_pow, produce_packethash_signature, validate_packet_signature,
    validate_packethash,
};
pub use crate::clock::now_sec;
pub use crate::codec::{DpowNanoMsgHdr, DpowNanoUtxo, IguanaPacketHeader};
pub use crate::roster::{
    DPOW_BTCTXIDCHANNEL, DPOW_SIGBTCCHANNEL, DPOW_SIGCHANNEL, DPOW_TXIDCHANNEL, FIRST_PARTY,
};
