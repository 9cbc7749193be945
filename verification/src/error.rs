//! The error kinds of the overlay.

use vstd::prelude::*;

verus! {

/// What can go wrong in the transport, the pool and the router.
#[derive(Clone, Debug, PartialEq, Eq)]
pub enum Error {
    /// A signature is invalid or the signing session has expired.
    VerificationFailed,
    /// Bytes that do not parse as an envelope or a frame.
    MalformedEnvelope,
    /// No next hop is known for the destination.
    RoutingUnreachable,
    /// The connection is not in state `Connected`.
    ChannelNotOpen,
    /// A live connection is already registered under this connection id.
    ConnectionAlreadyExists(String),
    /// No connection is registered under this connection id.
    ConnectionNotFound(String),
    /// The connection id is not the string form of an identifier.
    MalformedCid(String),
    /// Shutdown is in progress.
    Canceled,
    /// The queue of the event loop is full: the producer has to wait until
    /// the loop has taken an event, and try again.
    ChannelFull,
    /// The hop budget of an envelope is used up.
    TtlExpired,
    /// The relay path of an envelope already holds this node.
    LoopDetected,
    /// The application's callback refused, with this message.
    Callback(String),
    /// An answer of the node is not of the expected form.
    DecodeError,
}

} // verus!
