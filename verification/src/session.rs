//! The role-neutral message set of the connector sessions, their error
//! types and resource bounds.
//!
//! A record value travels through the session layer as opaque bytes (a
//! serialized JSON value).

use vstd::prelude::*;

verus! {

/// Per-session resource bounds consumed by the engines.
#[derive(Debug, Clone, Copy)]
pub struct SessionLimits {
    /// Maximum concurrently served connections.
    pub max_connections: usize,
    /// Maximum live subscriptions per connection.
    pub max_subs_per_connection: usize,
}

impl Default for SessionLimits {
    fn default() -> (r: Self)
        ensures
            r.max_connections == 16,
            r.max_subs_per_connection == 32,
    {
        SessionLimits { max_connections: 16, max_subs_per_connection: 32 }
    }
}

/// Transport-layer failure.
#[derive(Debug, Clone, Copy, PartialEq, Eq, Structural)]
pub enum TransportError {
    /// The connection was closed or reset by the peer.
    Closed,
    /// An underlying I/O operation failed.
    Io,
}

/// Envelope-codec failure: a frame could not be decoded or encoded.
#[derive(Debug, Clone, Copy, PartialEq, Eq, Structural)]
pub enum CodecError {
    /// The frame was not valid for this envelope format.
    Malformed,
}

/// Dispatch-layer (application) failure for calls, subscriptions and writes.
#[derive(Debug, Clone, Copy, PartialEq, Eq, Structural)]
pub enum RpcError {
    /// No such method or topic.
    NotFound,
    /// The caller lacks permission for this operation.
    Denied,
    /// The handler failed.
    Internal,
    /// The peer speaks a protocol version this side does not.
    VersionMismatch,
}

/// Authentication failure.
#[derive(Debug, Clone, Copy, PartialEq, Eq, Structural)]
pub enum AuthError {
    /// Credentials were missing or rejected.
    Unauthorized,
}

/// A logical request arriving over a connection (what the server receives).
#[derive(Debug)]
pub enum Inbound {
    /// An RPC call expecting a single reply.
    Request {
        /// Correlation id, echoed in the reply.
        id: u64,
        /// Method name.
        method: String,
        /// Unparsed method parameters.
        params: Vec<u8>,
    },
    /// Open a subscription producing many events.
    Subscribe {
        /// Correlation id for the subscription handshake.
        id: u64,
        /// Topic to subscribe to.
        topic: String,
    },
    /// Close a previously opened subscription.
    Unsubscribe {
        /// Subscription id to cancel.
        sub: String,
    },
    /// A fire-and-forget write (no reply).
    Write {
        /// Destination topic.
        topic: String,
        /// Unparsed record value.
        payload: Vec<u8>,
    },
    /// Keepalive.
    Ping,
}

/// A logical message sent back over a connection (what the server emits).
#[derive(Debug)]
pub enum Outbound {
    /// Reply to a request.
    Reply {
        /// Correlation id of the originating request.
        id: u64,
        /// The result, or an [`RpcError`].
        result: Result<Vec<u8>, RpcError>,
    },
    /// A subscription update.
    Event {
        /// Subscription id this event belongs to.
        sub: String,
        /// Monotonic sequence number.
        seq: u64,
        /// The concrete record, on wildcard subscriptions.
        topic: Option<String>,
        /// Unparsed record value.
        data: Vec<u8>,
    },
    /// The current value, sent when a subscription opens (late join).
    Snapshot {
        /// Subscription id the snapshot is routed to.
        sub: String,
        /// Topic the snapshot is for.
        topic: String,
        /// Unparsed record value.
        data: Vec<u8>,
    },
    /// An explicit acknowledgement that a subscription opened.
    Subscribed {
        /// Subscription id that was opened.
        sub: String,
    },
    /// Keepalive response.
    Pong,
}

/// The protocol-envelope codec: frame bytes to and from the logical message
/// set, in both directions.
pub trait EnvelopeCodec {
    /// Decode one frame into a request (server reads a request).
    fn decode(&self, frame: &[u8]) -> Result<Inbound, CodecError>;

    /// Encode a reply or event, appending its bytes to `out`.
    fn encode(&self, msg: Outbound, out: &mut Vec<u8>) -> Result<(), CodecError>;

    /// Encode a request, appending its bytes to `out` (client writes a request).
    fn encode_inbound(&self, msg: Inbound, out: &mut Vec<u8>) -> Result<(), CodecError>;

    /// Decode one frame into a reply or event (client reads it).
    fn decode_outbound(&self, frame: &[u8]) -> Result<Outbound, CodecError>;
}

} // verus!
