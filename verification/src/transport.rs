//! What every transport shares: the connection states, the message that a
//! data channel carries, and the notices that a transport hands to its
//! observers.

use vstd::prelude::*;
use vstd::bytes::*;
use crate::error::Error;
use crate::wire::{copy_range, put_bytes, put_u32, read_u32};

verus! {

/// The state of a connection, the same on every platform.
#[derive(Debug, Copy, Clone, PartialEq, Eq, Structural)]
pub enum WebrtcConnectionState {
    /// Not yet known.
    Unspecified,
    /// Created; no handshake has started.
    New,
    /// An offer or an answer has been made.
    Connecting,
    /// The handshake is complete and the data channel is writable.
    Connected,
    /// The peer went away; the connection may still close or fail.
    Disconnected,
    /// The transport gave up on the connection.
    Failed,
    /// The connection is closed for good.
    Closed,
}

impl Default for WebrtcConnectionState {
    fn default() -> (s: Self)
        ensures
            s == WebrtcConnectionState::Unspecified,
    {
        WebrtcConnectionState::Unspecified
    }
}

impl WebrtcConnectionState {
    /// The states in which a connection still blocks a second one to the
    /// same peer: `New`, `Connecting` and `Connected`.
    pub open spec fn live(self) -> bool {
        self == WebrtcConnectionState::New || self == WebrtcConnectionState::Connecting || self
            == WebrtcConnectionState::Connected
    }

    /// The states in which a connection is lost: `Disconnected`, `Failed`
    /// and `Closed`.
    pub open spec fn lost(self) -> bool {
        self == WebrtcConnectionState::Disconnected || self == WebrtcConnectionState::Failed
            || self == WebrtcConnectionState::Closed
    }

    pub fn is_live(&self) -> (b: bool)
        ensures
            b == self.live(),
    {
        match self {
            WebrtcConnectionState::New => true,
            WebrtcConnectionState::Connecting => true,
            WebrtcConnectionState::Connected => true,
            _ => false,
        }
    }

    pub fn is_connected(&self) -> (b: bool)
        ensures
            b == (*self == WebrtcConnectionState::Connected),
    {
        match self {
            WebrtcConnectionState::Connected => true,
            _ => false,
        }
    }

    pub fn is_disconnected(&self) -> (b: bool)
        ensures
            b == self.lost(),
    {
        match self {
            WebrtcConnectionState::Disconnected => true,
            WebrtcConnectionState::Failed => true,
            WebrtcConnectionState::Closed => true,
            _ => false,
        }
    }
}

/// What is sent over a data channel.
#[derive(Debug, Clone, PartialEq, Eq)]
pub enum TransportMessage {
    /// Bytes from the layer above, for its `on_message`.
    Custom(Vec<u8>),
}

impl View for TransportMessage {
    type V = Seq<u8>;

    open spec fn view(&self) -> Seq<u8> {
        match self {
            TransportMessage::Custom(data) => data@,
        }
    }
}

/// The frame of a custom message: tag 0, the length, the bytes.
pub open spec fn message_frame(data: Seq<u8>) -> Seq<u8> {
    spec_u32_to_le_bytes(0) + spec_u32_to_le_bytes(data.len() as u32) + data
}

/// The bytes that a frame carries, if it is the frame of a custom message.
pub open spec fn parse_message_frame(b: Seq<u8>) -> Option<Seq<u8>> {
    if b.len() >= 8 && spec_u32_from_le_bytes(b.subrange(0, 4)) == 0 && spec_u32_from_le_bytes(
        b.subrange(4, 8),
    ) == b.len() - 8 {
        Some(b.subrange(8, b.len() as int))
    } else {
        None
    }
}

/// A frame parses back to the bytes it was made of.
pub proof fn lemma_message_frame_round_trip(data: Seq<u8>)
    requires
        data.len() <= u32::MAX,
    ensures
        parse_message_frame(message_frame(data)) == Some(data),
{
    lemma_auto_spec_u32_to_from_le_bytes();
    let b = message_frame(data);
    assert(b.subrange(0, 4) =~= spec_u32_to_le_bytes(0));
    assert(b.subrange(4, 8) =~= spec_u32_to_le_bytes(data.len() as u32));
    assert(b.subrange(8, b.len() as int) =~= data);
}

impl TransportMessage {
    /// The frame of the message. Fails with `MalformedEnvelope` exactly when
    /// the bytes are too many for the 32-bit length field.
    pub fn encode(&self) -> (r: Result<Vec<u8>, Error>)
        ensures
            match r {
                Ok(bytes) => self@.len() <= u32::MAX && bytes@ == message_frame(self@),
                Err(e) => self@.len() > u32::MAX && e == Error::MalformedEnvelope,
            },
    {
        match self {
            TransportMessage::Custom(data) => {
                let n = data.len();
                if n > u32::MAX as usize {
                    return Err(Error::MalformedEnvelope);
                }
                let mut out: Vec<u8> = Vec::new();
                put_u32(&mut out, 0);
                put_u32(&mut out, n as u32);
                put_bytes(&mut out, data.as_slice());
                assert(out@ =~= message_frame(data@));
                Ok(out)
            },
        }
    }

    /// Reads a message from its frame. Fails with `MalformedEnvelope`
    /// exactly when the bytes are no frame.
    pub fn decode(bytes: &[u8]) -> (r: Result<TransportMessage, Error>)
        ensures
            match r {
                Ok(m) => parse_message_frame(bytes@) == Some(m@),
                Err(e) => parse_message_frame(bytes@) is None && e == Error::MalformedEnvelope,
            },
    {
        let n = bytes.len();
        if n < 8 {
            return Err(Error::MalformedEnvelope);
        }
        if read_u32(bytes, 0) != 0 {
            return Err(Error::MalformedEnvelope);
        }
        if read_u32(bytes, 4) as usize != n - 8 {
            return Err(Error::MalformedEnvelope);
        }
        Ok(TransportMessage::Custom(copy_range(bytes, 8, n)))
    }
}

/// A call that a transport owes to the observer of one connection. The
/// connection is named by the id under which its owner registered it and by
/// the id that the transport gave it.
#[derive(Debug, Clone, PartialEq, Eq)]
pub enum CallbackEvent {
    /// `on_message`: a frame has arrived on the connection.
    Message { cid: String, rand_id: String, data: Vec<u8> },
    /// `on_peer_connection_state_change`: the connection is now in `state`.
    StateChange { cid: String, rand_id: String, state: WebrtcConnectionState },
}

/// A notice as a mathematical value.
pub enum EventView {
    Message { cid: Seq<char>, rand_id: Seq<char>, data: Seq<u8> },
    StateChange { cid: Seq<char>, rand_id: Seq<char>, state: WebrtcConnectionState },
}

impl View for CallbackEvent {
    type V = EventView;

    open spec fn view(&self) -> EventView {
        match self {
            CallbackEvent::Message { cid, rand_id, data } => EventView::Message {
                cid: cid@,
                rand_id: rand_id@,
                data: data@,
            },
            CallbackEvent::StateChange { cid, rand_id, state } => EventView::StateChange {
                cid: cid@,
                rand_id: rand_id@,
                state: *state,
            },
        }
    }
}

/// The notices of a list, as mathematical values.
pub open spec fn event_views(events: Seq<CallbackEvent>) -> Seq<EventView> {
    events.map_values(|e: CallbackEvent| e@)
}

} // verus!
