//! The reasons for which a packet, or the production of one, is given up.

use vstd::prelude::*;

verus! {

/// Why a packet was not accepted, or could not be produced.
#[derive(Clone, Copy, Debug, PartialEq, Eq, Structural)]
pub enum PacketError {
    /// Fewer bytes were available than the frame declares; more data must
    /// arrive before the frame can be read.
    FramingError,
    /// The digest of the nonce, the declared length and the payload is not
    /// the one the header carries.
    HashMismatch,
    /// No public key could be recovered from the signature, or the
    /// signature does not verify under the recovered key.
    SignatureInvalid,
    /// The sender index names no slot of the roster.
    InvalidSender,
    /// No nonce of the search range gives a digest with a leading zero byte.
    GrindExhausted,
    /// The bytes offered as a secret key are not a valid secret key.
    InvalidSecretKey,
}

impl PacketError {
    /// A short description of the error, as it would be logged.
    pub fn describe(&self) -> (text: &'static str)
        ensures
            text@ == describe_text(*self),
    {
        match self {
            PacketError::FramingError => "insufficient bytes for the declared frame",
            PacketError::HashMismatch => "packet hash does not match the payload",
            PacketError::SignatureInvalid => "packet signature is not valid",
            PacketError::InvalidSender => "sender index is outside the roster",
            PacketError::GrindExhausted => "no nonce in range gives a qualifying hash",
            PacketError::InvalidSecretKey => "secret key bytes are not a valid key",
        }
    }
}

/// The text that `describe` gives for each error.
pub open spec fn describe_text(e: PacketError) -> Seq<char> {
    match e {
        PacketError::FramingError => "insufficient bytes for the declared frame"@,
        PacketError::HashMismatch => "packet hash does not match the payload"@,
        PacketError::SignatureInvalid => "packet signature is not valid"@,
        PacketError::InvalidSender => "sender index is outside the roster"@,
        PacketError::GrindExhausted => "no nonce in range gives a qualifying hash"@,
        PacketError::InvalidSecretKey => "secret key bytes are not a valid key"@,
    }
}

} // verus!
