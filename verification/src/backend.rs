//! The messages of the application layer that rides on custom messages,
//! and the backend that hands them to its endpoints.

use vstd::prelude::*;
use crate::error::Error;
use crate::held::Held;
use crate::message::{parse_message, Message, MessagePayload, MessageView};

verus! {

/// The id of a tunnel: 128 random bits.
pub type TunnelId = u128;

/// Why a tunnel was given up.
#[derive(Debug, Clone, Copy, PartialEq, Eq, Structural)]
#[non_exhaustive]
pub enum TunnelDefeat {
    /// Data could not be sent to the peer over the data channel.
    WebrtcDatachannelSendFailed,
    /// Dialing timed out.
    ConnectionTimeout,
    /// The local stream refused the connection.
    ConnectionRefused,
    /// The local stream aborted the connection.
    ConnectionAborted,
    /// The local stream reset the connection.
    ConnectionReset,
    /// The local stream is not connected.
    NotConnected,
    /// The peer closed the connection.
    ConnectionClosed,
    /// Any other failure.
    Unknown,
}

/// The failures of a local stream that a tunnel tells apart.
#[derive(Debug, Clone, Copy, PartialEq, Eq, Structural)]
pub enum IoErrorKind {
    ConnectionRefused,
    ConnectionAborted,
    ConnectionReset,
    NotConnected,
    Other,
}

impl TunnelDefeat {
    /// The number of the defeat on the wire.
    pub open spec fn code_of(self) -> u8 {
        match self {
            TunnelDefeat::WebrtcDatachannelSendFailed => 1,
            TunnelDefeat::ConnectionTimeout => 2,
            TunnelDefeat::ConnectionRefused => 3,
            TunnelDefeat::ConnectionAborted => 4,
            TunnelDefeat::ConnectionReset => 5,
            TunnelDefeat::NotConnected => 6,
            TunnelDefeat::ConnectionClosed => 7,
            TunnelDefeat::Unknown => 255,
        }
    }

    /// The number of the defeat on the wire.
    pub fn code(&self) -> (c: u8)
        ensures
            c == self.code_of(),
    {
        match self {
            TunnelDefeat::WebrtcDatachannelSendFailed => 1,
            TunnelDefeat::ConnectionTimeout => 2,
            TunnelDefeat::ConnectionRefused => 3,
            TunnelDefeat::ConnectionAborted => 4,
            TunnelDefeat::ConnectionReset => 5,
            TunnelDefeat::NotConnected => 6,
            TunnelDefeat::ConnectionClosed => 7,
            TunnelDefeat::Unknown => 255,
        }
    }

    /// The defeat of a number on the wire; a number that names none is
    /// `Unknown`.
    pub fn from_code(code: u8) -> (d: TunnelDefeat)
        ensures
            d.code_of() == code || (d == TunnelDefeat::Unknown && forall|e: TunnelDefeat|
                e.code_of() != code),
    {
        match code {
            1 => TunnelDefeat::WebrtcDatachannelSendFailed,
            2 => TunnelDefeat::ConnectionTimeout,
            3 => TunnelDefeat::ConnectionRefused,
            4 => TunnelDefeat::ConnectionAborted,
            5 => TunnelDefeat::ConnectionReset,
            6 => TunnelDefeat::NotConnected,
            7 => TunnelDefeat::ConnectionClosed,
            _ => TunnelDefeat::Unknown,
        }
    }

    /// The defeat that stands for a failure of the local stream.
    pub open spec fn of_io(kind: IoErrorKind) -> TunnelDefeat {
        match kind {
            IoErrorKind::ConnectionRefused => TunnelDefeat::ConnectionRefused,
            IoErrorKind::ConnectionAborted => TunnelDefeat::ConnectionAborted,
            IoErrorKind::ConnectionReset => TunnelDefeat::ConnectionReset,
            IoErrorKind::NotConnected => TunnelDefeat::NotConnected,
            IoErrorKind::Other => TunnelDefeat::Unknown,
        }
    }

    /// The defeat that stands for a failure of the local stream.
    pub fn from(kind: IoErrorKind) -> (d: TunnelDefeat)
        ensures
            d == Self::of_io(kind),
    {
        match kind {
            IoErrorKind::ConnectionRefused => TunnelDefeat::ConnectionRefused,
            IoErrorKind::ConnectionAborted => TunnelDefeat::ConnectionAborted,
            IoErrorKind::ConnectionReset => TunnelDefeat::ConnectionReset,
            IoErrorKind::NotConnected => TunnelDefeat::NotConnected,
            IoErrorKind::Other => TunnelDefeat::Unknown,
        }
    }
}

/// A request to an HTTP service behind a peer.
#[derive(Debug, Clone, PartialEq, Eq)]
pub struct HttpRequest {
    /// The id by which the response is matched to the request.
    pub rid: Option<String>,
    /// The name of the service.
    pub service: String,
    pub method: String,
    pub path: String,
    pub headers: Vec<(String, String)>,
    pub body: Option<Vec<u8>>,
}

/// The response of an HTTP service behind a peer.
#[derive(Debug, Clone, PartialEq, Eq)]
pub struct HttpResponse {
    /// The id of the request that this answers.
    pub rid: Option<String>,
    pub status: u16,
    pub headers: Vec<(String, String)>,
    pub body: Option<Vec<u8>>,
}

/// A message for a service behind a peer.
#[derive(Debug, Clone, PartialEq, Eq)]
pub enum ServiceMessage {
    /// Opens a tunnel to the named service.
    TcpDial { tid: TunnelId, service: String },
    /// Closes a tunnel.
    TcpClose { tid: TunnelId, reason: TunnelDefeat },
    /// Bytes for a tunnel.
    TcpPackage { tid: TunnelId, body: Vec<u8> },
    HttpRequest(HttpRequest),
    HttpResponse(HttpResponse),
}

/// A message of the application layer.
#[derive(Debug, Clone, PartialEq, Eq)]
#[non_exhaustive]
pub enum BackendMessage {
    /// For an extension.
    Extension(Vec<u8>),
    /// For a service.
    ServiceMessage(ServiceMessage),
    /// Plain text.
    PlainText(String),
}

impl BackendMessage {
    /// The backend message that holds a service message.
    pub fn from(val: ServiceMessage) -> (m: BackendMessage)
        ensures
            m == BackendMessage::ServiceMessage(val),
    {
        BackendMessage::ServiceMessage(val)
    }
}

/// An endpoint for the messages of the application layer.
pub trait MessageEndpoint: Send + Sync {
    /// Handles `data`, which came in the envelope `ctx`.
    fn on_message(&self, ctx: &MessagePayload, data: &BackendMessage) -> Result<(), Error>;
}

/// Hands `data` to each of the endpoints in turn. An endpoint that fails
/// does not keep the others from their turn, nor the whole from success.
pub fn dispatch(
    endpoints: &Vec<Box<dyn MessageEndpoint>>,
    ctx: &MessagePayload,
    data: &BackendMessage,
) -> (r: Result<(), Error>)
    ensures
        r is Ok,
{
    let mut i: usize = 0;
    while i < endpoints.len()
        invariant
            i <= endpoints@.len(),
        decreases endpoints@.len() - i,
    {
        let _ = endpoints[i].on_message(ctx, data);
        i = i + 1;
    }
    Ok(())
}

/// The bytes of the custom message in a body, where the body holds one.
pub open spec fn custom_bytes_of(body: Seq<u8>) -> Option<Seq<u8>> {
    match parse_message(body) {
        Some(MessageView::CustomMessage(b)) => Some(b),
        _ => None,
    }
}

/// The backend: it takes the custom messages out of the envelopes that
/// reach the node and hands them to its handler.
pub struct Backend {
    handler: Held<Box<dyn MessageEndpoint>>,
}

impl Backend {
    /// The handler that the backend hands its messages to.
    pub closed spec fn handler(&self) -> Held<Box<dyn MessageEndpoint>> {
        self.handler
    }

    /// A backend that hands its messages to `handler`.
    pub fn new(handler: Box<dyn MessageEndpoint>) -> (backend: Backend)
        ensures
            backend.handler().value() == handler,
    {
        let held = Held::new(handler);
        Backend { handler: held }
    }

    /// Hands a message of the application layer to the handler.
    pub fn on_backend_message(&self, payload: &MessagePayload, msg: &BackendMessage) -> Result<
        (),
        Error,
    > {
        self.handler.get().on_message(payload, msg)
    }

    /// The bytes of the application's message in an envelope: `None` where
    /// the envelope holds another kind of message. Fails with
    /// `MalformedEnvelope` exactly where the body is no message.
    pub fn on_inbound(payload: &MessagePayload) -> (r: Result<Option<Vec<u8>>, Error>)
        ensures
            match r {
                Ok(Some(bytes)) => custom_bytes_of(payload@.transaction.body) == Some(bytes@),
                Ok(None) => parse_message(payload@.transaction.body) is Some && custom_bytes_of(
                    payload@.transaction.body,
                ) is None,
                Err(e) => parse_message(payload@.transaction.body) is None && e
                    == Error::MalformedEnvelope,
            },
    {
        match payload.transaction.data() {
            Ok(Message::CustomMessage(bytes)) => Ok(Some(bytes)),
            Ok(_) => Ok(None),
            Err(e) => Err(e),
        }
    }
}

} // verus!
