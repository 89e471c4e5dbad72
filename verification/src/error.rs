//! The ways in which a query can fail.

use vstd::prelude::*;

verus! {

/// Why a query produced no result.
#[derive(Clone, Copy, Debug, PartialEq, Eq, Structural)]
pub enum QueryError {
    /// The name lookup failed or returned no address.
    ResolutionError,
    /// Connecting, sending or receiving failed.
    TransportError,
    /// No status response arrived before the deadline.
    TimeoutError,
    /// A packet's framing or one of its fields was malformed.
    DecodeError,
    /// A Bedrock payload had the wrong number of fields or a field that does
    /// not parse as its type.
    MalformedResponseError,
    /// Something arrived that the current state of the exchange cannot accept.
    ProtocolMismatchError,
}

} // verus!
