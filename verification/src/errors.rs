//! Wire-format and cryptographic error values.
use vstd::prelude::*;

verus! {

/// A wire-format or cryptographic failure.
///
/// Wire-format failures are recovered locally (the datagram is dropped);
/// cryptographic failures are fatal to the exchange that caused them.
#[derive(Debug, Clone, Copy, PartialEq, Eq, Structural)]
pub enum Error {
    /// The buffer is too short, too long, carries an unknown discriminant, or
    /// is otherwise not a well-formed packet for this endpoint.
    MalformedPacket,
    /// The local key is not of the one key type the discovery curve supports.
    UnsupportedKeyType,
    /// The remote ephemeral public key does not decode to a point on the curve.
    InvalidRemotePublicKey,
    /// Key expansion could not produce enough output.
    KeyDerivationFailed,
    /// Authenticated decryption failed: the input is shorter than the tag, or
    /// the tag does not verify.
    AuthenticationFailed,
    /// The plaintext or associated data exceeds what the cipher accepts.
    MessageTooLong,
    /// A handshake arrived without the remote's signed record.
    MissingEnrRecord,
    /// Decrypted bytes do not parse as a protocol message.
    MalformedMessage,
}

} // verus!
