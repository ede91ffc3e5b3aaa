//! Recoverable failures of the codec.

use vstd::prelude::*;

verus! {

/// Why a value could not be encoded or decoded.
#[derive(Clone, Copy, Debug, PartialEq, Eq, Structural)]
pub enum ProtocolError {
    /// The caller asked to encode what cannot be sent: an identifier that
    /// needs more than 160 bits, or a query or response without a sender.
    ContractViolation,
    /// The address to pack is not an IPv4 address.
    UnsupportedAddressFamily,
    /// A required key is missing, or a value has the wrong type or length.
    MalformedMessage,
    /// The message type tag is none of `q`, `r` and `e`.
    UnknownMessageType,
}

} // verus!
