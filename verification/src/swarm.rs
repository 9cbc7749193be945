//! The swarm: one node's ring table, session and transport, and the rules
//! by which it sends, forwards and delivers envelopes.

pub mod builder;
pub mod callback;
pub mod router;

use vstd::prelude::*;
use crate::chunk::{without_stale, PendingView};
use crate::did::{did_string, parse_did, Did};
use crate::dummy::{
    accept_notices, after_accept, fresh_record, has_live, state_notices, with_remote, with_state,
    Delivery, DummyConnection, DummyNet, DummyTransport, NetView, SendRefusal,
};
use crate::error::Error;
use crate::held::Held;
use crate::message::{parse_payload, payload_bytes, wire_ok, MessagePayload, PayloadView};
use crate::ring::{join_spec, leave_spec, PeerRing, RingView};
use crate::session::SessionSk;
use crate::storage::PersistenceStorage;
use crate::swarm::callback::{
    buffer_after, change_event, plan_for, rejection_fits, state_change_outcome,
    state_change_plan, CallbackError, InnerSwarmCallback, MessageOutcome, PlanView,
    SharedSwarmCallback, TransportEvent,
};
use crate::swarm::router::{
    forward_refusal, forwarded, next_hop_of, relay_refusal, route, Routing,
};
use crate::transport::{
    event_views, message_frame, parse_message_frame, CallbackEvent, EventView, TransportMessage,
    WebrtcConnectionState,
};

verus! {

/// The most events that wait for the event loop.
pub const TRANSPORT_EVENT_CAPACITY: usize = 1024;

/// What a measure counts for a peer.
#[derive(Clone, Copy, Debug, PartialEq, Eq, Structural)]
pub enum MeasureCounter {
    Sent,
    FailedToSend,
    Received,
    FailedToReceive,
    Connect,
    Disconnected,
}

/// A measure of the behaviour of peers, kept by the application.
pub trait Measure: Send + Sync {
    /// Counts one more of `counter` for `did`.
    fn incr(&self, did: Did, counter: MeasureCounter);
}

/// The measure that an application hands to its swarm.
pub type MeasureImpl = Box<dyn Measure>;

/// What became of a call that the transport owed to a node.
#[derive(Clone, Debug, PartialEq, Eq)]
pub struct Handled {
    /// Bytes of an envelope that an arrived fragment completed. They are
    /// to be verified and handled as if they had arrived in a frame.
    pub reassembled: Option<Vec<u8>>,
    /// Whether the application was told of an arrived message.
    pub delivered: bool,
    /// Whether the peer that sent the message is to be disconnected: it
    /// sent a fragment for which the reassembly buffer has no room.
    pub disconnect: bool,
    /// What went wrong in the handling, for the log: the body of an
    /// accepted envelope is no message, or the application refused when it
    /// was told of a message or of a change.
    pub failure: Option<Error>,
}

/// Why a swarm does not send.
pub enum SendError {
    /// The shutdown has begun.
    Canceled,
    /// No connection to the next hop is registered.
    NotConnected,
    /// The connection refuses.
    Refused(SendRefusal),
}

/// One node of the overlay.
pub struct Swarm {
    transport_events: Vec<TransportEvent>,
    dht: PeerRing,
    dht_storage: PersistenceStorage,
    measure: Option<Held<MeasureImpl>>,
    session_sk: SessionSk,
    transport: DummyTransport,
    callback: InnerSwarmCallback,
    canceled: bool,
}

/// A swarm as a mathematical value.
pub struct SwarmView {
    /// The ring table.
    pub ring: RingView,
    /// The random id of the connection to each peer, by connection id.
    pub connections: Map<Seq<char>, Seq<char>>,
    /// The envelopes that are being reassembled.
    pub buffer: Map<u128, PendingView>,
    /// The events queued for the event loop, oldest first.
    pub pending: Seq<TransportEvent>,
    /// Whether the shutdown has begun.
    pub canceled: bool,
    /// The session that the node signs with.
    pub session: SessionSk,
    /// The store of the ring's entries.
    pub storage: PersistenceStorage,
    /// The measure that the swarm counts with, where it has one.
    pub measure: Option<Held<MeasureImpl>>,
    /// The application's callback; `None` where the swarm was given none
    /// and accepts everything in its place.
    pub callback: Option<Held<SharedSwarmCallback>>,
}

impl View for Swarm {
    type V = SwarmView;

    closed spec fn view(&self) -> SwarmView {
        SwarmView {
            ring: self.dht@,
            connections: self.transport@,
            buffer: self.callback.buffer(),
            pending: self.transport_events@,
            canceled: self.canceled,
            session: self.session_sk,
            storage: self.dht_storage,
            measure: self.measure,
            callback: self.callback.callback(),
        }
    }
}

/// The ring table after the swarm's event loop has taken one event: a
/// peer whose connection is up joins, one whose connection is lost leaves.
pub open spec fn ring_after_event(r: RingView, event: TransportEvent) -> RingView {
    match event {
        TransportEvent::Connected(d) => join_spec(r, d),
        TransportEvent::Closed(d) => leave_spec(r, d),
        TransportEvent::DataChannelMessage(_) => r,
    }
}

/// The swarm with another queue of events.
pub open spec fn with_pending(s: SwarmView, pending: Seq<TransportEvent>) -> SwarmView {
    SwarmView { pending, ..s }
}

/// The swarm with a connection to `cid` under the random id `id`.
pub open spec fn with_connection(s: SwarmView, cid: Seq<char>, id: Seq<char>) -> SwarmView {
    SwarmView { connections: s.connections.insert(cid, id), ..s }
}

/// The swarm after the shutdown has begun.
pub open spec fn shut_down(s: SwarmView) -> SwarmView {
    SwarmView { buffer: Map::empty(), pending: Seq::empty(), canceled: true, ..s }
}

/// The table after a connection has been recorded under `id` for `cid` and
/// has made or answered an offer.
pub open spec fn net_connecting(net: NetView, cid: Seq<char>, id: Seq<char>) -> NetView {
    with_state(net.insert(id, fresh_record(cid)), id, WebrtcConnectionState::Connecting)
}

/// What the observer of the new connection `id` is told of its offer or
/// answer.
pub open spec fn connecting_notices(net: NetView, cid: Seq<char>, id: Seq<char>) -> Seq<
    EventView,
> {
    state_notices(net.insert(id, fresh_record(cid)), id, WebrtcConnectionState::Connecting)
}

/// The envelope in a frame, where the frame holds one.
pub open spec fn framed_payload(frame: Seq<u8>) -> Option<PayloadView> {
    match parse_message_frame(frame) {
        Some(bytes) => parse_payload(bytes),
        None => None,
    }
}

/// The swarm after it has accepted and handled the envelope `p`, which
/// came as the bytes `msg`: a fragment is in the buffer, and the bytes are
/// queued for the event loop.
pub open spec fn after_message(s: SwarmView, p: PayloadView, msg: Seq<u8>, now_ms: u64, after:
    SwarmView) -> bool {
    &&& after.pending.len() == s.pending.len() + 1
    &&& after.pending.last() matches TransportEvent::DataChannelMessage(bytes) && bytes@ == msg
    &&& after == (SwarmView {
        buffer: buffer_after(s.buffer, p.transaction.body, now_ms),
        pending: s.pending.push(after.pending.last()),
        ..s
    })
}

/// What was handled says what the plan asks for: the reassembled bytes
/// where a fragment completed an envelope, that the application was told
/// where the message is for this node, that the peer is to be disconnected
/// where the buffer has no room for its fragment, and that the body is
/// malformed where it is no message. Nothing else fails, but that an
/// application's callback may refuse what it is told.
pub open spec fn handled_matches(plan: PlanView, has_callback: bool, h: Handled) -> bool {
    match plan {
        PlanView::Reassembled(data) => !h.delivered && !h.disconnect && h.failure is None && (
        h.reassembled matches Some(b) && b@ == data),
        PlanView::Deliver => h.delivered && !h.disconnect && h.reassembled is None && (
        h.failure matches Some(e) ==> has_callback && e is Callback),
        PlanView::Nothing => !h.delivered && !h.disconnect && h.reassembled is None && h.failure
            is None,
        PlanView::Disconnect => !h.delivered && h.disconnect && h.reassembled is None
            && h.failure is None,
        PlanView::Malformed => !h.delivered && !h.disconnect && h.reassembled is None && h.failure
            == Some(Error::MalformedEnvelope),
    }
}

/// What comes of the envelope `envelope`, which came as the bytes `msg`.
/// While the queue of the event loop is full, nothing is handled. An
/// envelope that is refused or dropped changes nothing. Once it is
/// accepted, the swarm is as `after_message` says, whatever comes of
/// handling it.
pub open spec fn message_outcome(
    s: SwarmView,
    envelope: Option<PayloadView>,
    msg: Seq<u8>,
    verified: bool,
    now_ms: u64,
    after: SwarmView,
    r: Result<Handled, Error>,
) -> bool {
    match r {
        Ok(h) => s.pending.len() < 1024 && verified && envelope is Some && relay_refusal(
            s.ring.local,
            envelope.unwrap(),
        ) is None && after_message(s, envelope.unwrap(), msg, now_ms, after) && handled_matches(
            plan_for(s.ring.local, s.buffer, envelope.unwrap()),
            s.callback is Some,
            h,
        ),
        Err(e) => after == s && (if s.pending.len() >= 1024 {
            e == Error::ChannelFull
        } else {
            rejection_fits(s.ring.local, s.callback is Some, envelope, verified, e)
        }),
    }
}

/// A swarm without a callback of the application accepts every verified
/// envelope that it does not drop, as long as its queue has room.
pub open spec fn acceptance_owed(
    s: SwarmView,
    envelope: Option<PayloadView>,
    verified: bool,
) -> bool {
    s.callback is None && s.pending.len() < 1024 && verified && envelope is Some && relay_refusal(
        s.ring.local,
        envelope.unwrap(),
    ) is None
}

/// What comes of forwarding the envelope `envelope`: nothing where it is
/// for this node; an error where it is dropped, cannot be put on the wire
/// with this node's relay entry, or cannot be sent; else the call that is
/// owed to the next hop's observer, with the forwarded envelope.
pub open spec fn forward_outcome(
    s: SwarmView,
    net: NetView,
    envelope: Option<PayloadView>,
    relay_signature: Seq<u8>,
    r: Result<Option<Delivery>, Error>,
) -> bool {
    match envelope {
        None => r == Err::<Option<Delivery>, Error>(Error::MalformedEnvelope),
        Some(p) => if p.transaction.destination == s.ring.local {
            r == Ok::<Option<Delivery>, Error>(None)
        } else {
            match forward_refusal(s.ring, p) {
                Some(e) => r == Err::<Option<Delivery>, Error>(e),
                None => forward_sent(
                    s,
                    net,
                    next_hop_of(s.ring, p.transaction.destination).unwrap(),
                    forwarded(p, s.ring.local, relay_signature),
                    r,
                ),
            }
        },
    }
}

/// What comes of sending the forwarded envelope `sent` to `hop`.
pub open spec fn forward_sent(
    s: SwarmView,
    net: NetView,
    hop: Did,
    sent: PayloadView,
    r: Result<Option<Delivery>, Error>,
) -> bool {
    if !wire_ok(sent) {
        r == Err::<Option<Delivery>, Error>(Error::MalformedEnvelope)
    } else {
        match r {
            Ok(d) => send_error(s, net, hop, payload_bytes(sent)) is None && (d matches Some(
                delivery,
            ) && delivery.delay_ms < 100 && delivery.event@ == sent_event(
                net,
                s.connections[did_string(hop)],
                payload_bytes(sent),
            )),
            Err(e) => send_error_fits(s, net, hop, payload_bytes(sent), e),
        }
    }
}

/// Why envelope bytes cannot be sent to `next_hop`, if they cannot.
pub open spec fn send_error(s: SwarmView, net: NetView, next_hop: Did, bytes: Seq<u8>) -> Option<
    SendError,
> {
    let cid = did_string(next_hop);
    if s.canceled {
        Some(SendError::Canceled)
    } else if !s.connections.contains_key(cid) {
        Some(SendError::NotConnected)
    } else {
        match DummyConnection::send_refusal(net, s.connections[cid], bytes) {
            Some(refusal) => Some(SendError::Refused(refusal)),
            None => None,
        }
    }
}

/// The error says why the bytes were not sent.
pub open spec fn send_error_fits(
    s: SwarmView,
    net: NetView,
    next_hop: Did,
    bytes: Seq<u8>,
    e: Error,
) -> bool {
    match send_error(s, net, next_hop, bytes) {
        Some(SendError::Canceled) => e == Error::Canceled,
        Some(SendError::NotConnected) => e matches Error::ConnectionNotFound(t) && t@
            == did_string(next_hop),
        Some(SendError::Refused(SendRefusal::NotRecorded)) => e matches Error::ConnectionNotFound(
            t,
        ) && t@ == s.connections[did_string(next_hop)],
        Some(SendError::Refused(SendRefusal::NotOpen)) => e == Error::ChannelNotOpen,
        Some(SendError::Refused(SendRefusal::TooLong)) => e == Error::MalformedEnvelope,
        Some(SendError::Refused(SendRefusal::NoRemote)) => e == Error::ChannelNotOpen,
        None => false,
    }
}

/// What the observer at the other end of the connection `id` is owed when
/// `bytes` are sent on it.
pub open spec fn sent_event(net: NetView, id: Seq<char>, bytes: Seq<u8>) -> EventView {
    EventView::Message {
        cid: net[net[id].remote.unwrap()].cid,
        rand_id: net[id].remote.unwrap(),
        data: message_frame(bytes),
    }
}

/// The queue after the event loop has been told of a change of the
/// connection under `cid` to `state`.
pub open spec fn pending_after_change(
    pending: Seq<TransportEvent>,
    cid: Seq<char>,
    state: WebrtcConnectionState,
) -> Seq<TransportEvent> {
    match change_event(cid, state) {
        Some(e) => pending.push(e),
        None => pending,
    }
}

/// A change of the connection under `cid` to `state` has to wait: it has
/// an event for the event loop, and the queue is full.
pub open spec fn change_waits(
    pending: Seq<TransportEvent>,
    cid: Seq<char>,
    state: WebrtcConnectionState,
) -> bool {
    change_event(cid, state) is Some && pending.len() >= 1024
}

/// What comes of an envelope that was verified, given what the
/// application answered when it was asked to validate it. While the queue
/// of the event loop is full, nothing is handled. An envelope that the
/// application refuses is dropped with its refusal; so is an envelope for
/// another node that has been here before, or whose hops run out here.
/// Nothing has changed then. Else the swarm is as `after_message` says,
/// and `r` says what the plan asks for.
pub open spec fn validated_outcome(
    s: SwarmView,
    p: PayloadView,
    msg: Seq<u8>,
    validated: Result<(), CallbackError>,
    now_ms: u64,
    after: SwarmView,
    r: Result<Handled, Error>,
) -> bool {
    if s.pending.len() >= 1024 {
        r == Err::<Handled, Error>(Error::ChannelFull) && after == s
    } else {
        match validated {
            Err(refusal) => r == Err::<Handled, Error>(Error::Callback(refusal.message)) && after
                == s,
            Ok(()) => match relay_refusal(s.ring.local, p) {
                Some(e) => r == Err::<Handled, Error>(e) && after == s,
                None => r matches Ok(h) && after_message(s, p, msg, now_ms, after)
                    && handled_matches(plan_for(s.ring.local, s.buffer, p), s.callback is Some, h),
            },
        }
    }
}

impl Swarm {
    /// The swarm's invariant: its parts are well-formed, and the node of
    /// its ring table is the one its callback answers for.
    pub closed spec fn wf(&self) -> bool {
        &&& self.dht.wf()
        &&& self.transport.wf()
        &&& self.callback.wf()
        &&& self.callback.local() == self.dht@.local
    }

    pub(crate) fn assemble(
        dht: PeerRing,
        dht_storage: PersistenceStorage,
        measure: Option<Held<MeasureImpl>>,
        session_sk: SessionSk,
        transport: DummyTransport,
        callback: InnerSwarmCallback,
    ) -> (swarm: Swarm)
        requires
            dht.wf(),
            transport.wf(),
            callback.wf(),
            callback.local() == dht@.local,
        ensures
            swarm.wf(),
            swarm@ == (SwarmView {
                ring: dht@,
                connections: transport@,
                buffer: callback.buffer(),
                pending: Seq::empty(),
                canceled: false,
                session: session_sk,
                storage: dht_storage,
                measure,
                callback: callback.callback(),
            }),
    {
        Swarm {
            transport_events: Vec::new(),
            dht,
            dht_storage,
            measure,
            session_sk,
            transport,
            callback,
            canceled: false,
        }
    }

    /// Begins the shutdown: whatever was being reassembled and whatever
    /// was queued for the event loop is dropped, and nothing is sent from
    /// now on.
    pub fn shutdown(&mut self)
        requires
            old(self).wf(),
        ensures
            final(self).wf(),
            final(self)@ == shut_down(old(self)@),
    {
        self.canceled = true;
        self.callback.drop_reassemblies();
        self.transport_events = Vec::new();
    }

    /// Drops the envelopes of which no fragment has come for longer than
    /// the reassembly buffer keeps them.
    pub fn expire_reassemblies(&mut self, now_ms: u64)
        requires
            old(self).wf(),
        ensures
            final(self).wf(),
            final(self)@ == (SwarmView {
                buffer: without_stale(old(self)@.buffer, now_ms),
                ..old(self)@
            }),
    {
        self.callback.remove_expired(now_ms);
    }

    /// Whether the shutdown has begun.
    pub fn canceled(&self) -> (b: bool)
        ensures
            b == self@.canceled,
    {
        self.canceled
    }

    /// The identifier of the node.
    pub fn did(&self) -> (d: Did)
        ensures
            d == self@.ring.local,
    {
        self.dht.did()
    }

    /// The ring table.
    pub fn dht(&self) -> (ring: &PeerRing)
        ensures
            ring@ == self@.ring,
            self.wf() ==> ring.wf(),
    {
        &self.dht
    }

    /// The session that the node signs with.
    pub fn session_sk(&self) -> (s: &SessionSk)
        ensures
            *s == self@.session,
    {
        &self.session_sk
    }

    /// The store of the ring's entries.
    pub fn dht_storage(&self) -> (s: &PersistenceStorage)
        ensures
            *s == self@.storage,
    {
        &self.dht_storage
    }

    /// Queues an event for the event loop, and says whether it did: while
    /// `TRANSPORT_EVENT_CAPACITY` events wait, no more are taken.
    pub fn push_event(&mut self, event: TransportEvent) -> (queued: bool)
        requires
            old(self).wf(),
        ensures
            final(self).wf(),
            queued == (old(self)@.pending.len() < 1024),
            final(self)@ == (if queued {
                with_pending(old(self)@, old(self)@.pending.push(event))
            } else {
                old(self)@
            }),
    {
        if self.transport_events.len() >= TRANSPORT_EVENT_CAPACITY {
            return false;
        }
        self.transport_events.push(event);
        true
    }

    /// One turn of the event loop: takes the oldest queued event and
    /// brings the ring table up to date with it. Hands the event back, or
    /// `None` where none was queued.
    pub fn poll_event(&mut self) -> (r: Option<TransportEvent>)
        requires
            old(self).wf(),
        ensures
            final(self).wf(),
            match r {
                Some(event) => old(self)@.pending.len() > 0 && event == old(self)@.pending[0]
                    && final(self)@ == (SwarmView {
                    ring: ring_after_event(old(self)@.ring, event),
                    pending: old(self)@.pending.drop_first(),
                    ..old(self)@
                }),
                None => old(self)@.pending.len() == 0 && final(self)@ == old(self)@,
            },
    {
        if self.transport_events.len() == 0 {
            return None;
        }
        let event = self.transport_events.remove(0);
        assert(self.transport_events@ =~= old(self).transport_events@.drop_first());
        match &event {
            TransportEvent::Connected(d) => {
                self.dht.join(*d);
            },
            TransportEvent::Closed(d) => {
                self.dht.leave(*d);
            },
            TransportEvent::DataChannelMessage(_) => {},
        }
        Some(event)
    }

    /// The connection to `peer`, where one is registered.
    pub fn connection(&self, peer: Did) -> (r: Result<DummyConnection, Error>)
        requires
            self.wf(),
        ensures
            match r {
                Ok(conn) => self@.connections.contains_key(did_string(peer)) && conn@
                    == self@.connections[did_string(peer)],
                Err(e) => !self@.connections.contains_key(did_string(peer)) && (
                e matches Error::ConnectionNotFound(t) && t@ == did_string(peer)),
            },
    {
        let cid = peer.to_string();
        match self.transport.connection(cid.as_str()) {
            Ok(reference) => match reference.upgrade(self.transport.pool()) {
                Ok(conn) => Ok(conn),
                Err(e) => Err(e),
            },
            Err(e) => Err(e),
        }
    }

    /// Makes a connection to `peer` and starts the handshake: the offer is
    /// to be handed to `peer`. Refuses, and changes nothing, while a live
    /// connection to `peer` is registered.
    pub fn create_offer(&mut self, net: &mut DummyNet, peer: Did) -> (r: Result<
        (String, Vec<CallbackEvent>),
        Error,
    >)
        requires
            old(self).wf(),
        ensures
            final(self).wf(),
            match r {
                Ok((offer, events)) => !has_live(
                    old(self)@.connections,
                    old(net)@,
                    did_string(peer),
                ) && final(self)@ == with_connection(old(self)@, did_string(peer), offer@)
                    && final(net)@ == net_connecting(old(net)@, did_string(peer), offer@)
                    && event_views(events@) == connecting_notices(
                    old(net)@,
                    did_string(peer),
                    offer@,
                ),
                Err(e) => has_live(old(self)@.connections, old(net)@, did_string(peer)) && final(self)@ == old(self)@ && final(net)@ == old(net)@ && (
                e matches Error::ConnectionAlreadyExists(t) && t@ == did_string(peer)),
            },
    {
        proof {
            crate::did::lemma_did_string_round_trip(peer);
        }
        let cid = peer.to_string();
        match self.transport.new_connection(net, cid.as_str()) {
            Ok(()) => {},
            Err(e) => {
                return Err(e);
            },
        }
        let conn = match self.connection(peer) {
            Ok(conn) => conn,
            Err(e) => {
                return Err(e);
            },
        };
        conn.webrtc_create_offer(net)
    }

    /// Makes a connection to `peer` and answers its offer: the answer is
    /// to be handed back to `peer`. Refuses, and changes nothing, while a
    /// live connection to `peer` is registered.
    pub fn answer_offer(&mut self, net: &mut DummyNet, peer: Did, offer: String) -> (r: Result<
        (String, Vec<CallbackEvent>),
        Error,
    >)
        requires
            old(self).wf(),
        ensures
            final(self).wf(),
            match r {
                Ok((answer, events)) => !has_live(
                    old(self)@.connections,
                    old(net)@,
                    did_string(peer),
                ) && final(self)@ == with_connection(old(self)@, did_string(peer), answer@)
                    && final(net)@ == with_remote(
                    net_connecting(old(net)@, did_string(peer), answer@),
                    answer@,
                    offer@,
                ) && event_views(events@) == connecting_notices(
                    old(net)@,
                    did_string(peer),
                    answer@,
                ),
                Err(e) => has_live(old(self)@.connections, old(net)@, did_string(peer)) && final(self)@ == old(self)@ && final(net)@ == old(net)@ && (
                e matches Error::ConnectionAlreadyExists(t) && t@ == did_string(peer)),
            },
    {
        proof {
            crate::did::lemma_did_string_round_trip(peer);
        }
        let cid = peer.to_string();
        match self.transport.new_connection(net, cid.as_str()) {
            Ok(()) => {},
            Err(e) => {
                return Err(e);
            },
        }
        let conn = match self.connection(peer) {
            Ok(conn) => conn,
            Err(e) => {
                return Err(e);
            },
        };
        conn.webrtc_answer_offer(net, offer)
    }

    /// Completes the handshake with `peer` on its answer: both ends become
    /// `Connected`. Fails, and changes nothing, where no connection to
    /// `peer` is registered or an end is not recorded.
    pub fn accept_answer(&mut self, net: &mut DummyNet, peer: Did, answer: String) -> (r: Result<
        Vec<CallbackEvent>,
        Error,
    >)
        requires
            old(self).wf(),
        ensures
            final(self).wf(),
            final(self)@ == old(self)@,
            match r {
                Ok(events) => old(self)@.connections.contains_key(did_string(peer)) && final(net)@ == after_accept(old(net)@, old(self)@.connections[did_string(peer)], answer@)
                    && event_views(events@) == accept_notices(
                    old(net)@,
                    old(self)@.connections[did_string(peer)],
                    answer@,
                ),
                Err(e) => final(net)@ == old(net)@ && (if !old(self)@.connections.contains_key(
                    did_string(peer),
                ) {
                    e matches Error::ConnectionNotFound(t) && t@ == did_string(peer)
                } else if !old(net)@.contains_key(old(self)@.connections[did_string(peer)]) {
                    e matches Error::ConnectionNotFound(t) && t@
                        == old(self)@.connections[did_string(peer)]
                } else {
                    !old(net)@.contains_key(answer@) && (e matches Error::ConnectionNotFound(t)
                        && t@ == answer@)
                }),
            },
    {
        let conn = match self.connection(peer) {
            Ok(conn) => conn,
            Err(e) => {
                return Err(e);
            },
        };
        conn.webrtc_accept_answer(net, answer)
    }

    /// Sends envelope bytes to `next_hop` in one frame. Nothing is sent
    /// after the shutdown has begun, nor unless a connection to `next_hop`
    /// is registered and `Connected`.
    pub fn send_bytes(&self, net: &DummyNet, next_hop: Did, bytes: Vec<u8>) -> (r: Result<
        Delivery,
        Error,
    >)
        requires
            self.wf(),
        ensures
            match r {
                Ok(d) => send_error(self@, net@, next_hop, bytes@) is None && d.delay_ms < 100
                    && d.event@ == sent_event(
                    net@,
                    self@.connections[did_string(next_hop)],
                    bytes@,
                ),
                Err(e) => send_error_fits(self@, net@, next_hop, bytes@, e),
            },
    {
        if self.canceled {
            return Err(Error::Canceled);
        }
        let conn = match self.connection(next_hop) {
            Ok(conn) => conn,
            Err(e) => {
                self.count(next_hop, MeasureCounter::FailedToSend);
                return Err(e);
            },
        };
        match conn.send_message(net, TransportMessage::Custom(bytes)) {
            Ok(delivery) => {
                self.count(next_hop, MeasureCounter::Sent);
                Ok(delivery)
            },
            Err(e) => {
                self.count(next_hop, MeasureCounter::FailedToSend);
                Err(e)
            },
        }
    }

    /// Counts one more of `counter` for `did`, where the swarm has a
    /// measure.
    fn count(&self, did: Did, counter: MeasureCounter) {
        match &self.measure {
            Some(measure) => {
                measure.get().incr(did, counter);
            },
            None => {},
        }
    }

    /// Handles envelope bytes, be it that they arrived in one frame from
    /// the connection under `cid` or that fragments have made them up.
    /// `verified` says whether the envelope's signatures are valid and
    /// its session has not expired. While the queue of the event loop is
    /// full, nothing is handled. An envelope that is accepted is queued
    /// for the event loop, whatever comes of handling it.
    pub fn on_message(&mut self, cid: &str, msg: &[u8], verified: bool, now_ms: u64) -> (r: Result<
        Handled,
        Error,
    >)
        requires
            old(self).wf(),
        ensures
            final(self).wf(),
            message_outcome(
                old(self)@,
                parse_payload(msg@),
                msg@,
                verified,
                now_ms,
                final(self)@,
                r,
            ),
            acceptance_owed(old(self)@, parse_payload(msg@), verified) ==> r is Ok,
    {
        if self.transport_events.len() >= TRANSPORT_EVENT_CAPACITY {
            return Err(Error::ChannelFull);
        }
        let payload = match InnerSwarmCallback::accept(msg, verified) {
            Ok(payload) => payload,
            Err(e) => {
                return Err(e);
            },
        };
        let validated = self.callback.validate(&payload);
        self.after_validation(&payload, msg, validated, now_ms)
    }

    /// Handles an envelope that was read from the bytes `msg` and verified,
    /// given what the application answered when it was asked to validate
    /// it: `validated_outcome` says what comes of it.
    pub fn after_validation(
        &mut self,
        payload: &MessagePayload,
        msg: &[u8],
        validated: Result<(), CallbackError>,
        now_ms: u64,
    ) -> (r: Result<Handled, Error>)
        requires
            old(self).wf(),
        ensures
            final(self).wf(),
            validated_outcome(old(self)@, payload@, msg@, validated, now_ms, final(self)@, r),
    {
        if self.transport_events.len() >= TRANSPORT_EVENT_CAPACITY {
            return Err(Error::ChannelFull);
        }
        match self.callback.after_validation(payload, msg, validated, now_ms) {
            Ok(outcome) => {
                let MessageOutcome { transport_event, reassembled, delivered, disconnect, failure } =
                    outcome;
                let ghost queued = self.transport_events@;
                self.transport_events.push(transport_event);
                assert(self.transport_events@.drop_last() =~= queued);
                Ok(Handled { reassembled, delivered, disconnect, failure })
            },
            Err(e) => Err(e),
        }
    }

    /// Sends on an envelope that the event loop has taken from its queue:
    /// one that is for another node goes to the next hop, with this node
    /// on its relay path under `relay_signature` and one hop less to go.
    /// One that is for this node is not sent on. Nothing is sent of an
    /// envelope that has been here before, whose hops run out here, or for
    /// which no next hop is known.
    pub fn forward(&self, net: &DummyNet, msg: &[u8], relay_signature: Vec<u8>) -> (r: Result<
        Option<Delivery>,
        Error,
    >)
        requires
            self.wf(),
        ensures
            forward_outcome(self@, net@, parse_payload(msg@), relay_signature@, r),
    {
        let payload = match MessagePayload::decode(msg) {
            Ok(payload) => payload,
            Err(e) => {
                return Err(e);
            },
        };
        let (next_hop, sent) = match route(&self.dht, payload, relay_signature) {
            Ok(Routing::Deliver) => {
                return Ok(None);
            },
            Ok(Routing::Forward { next_hop, payload }) => (next_hop, payload),
            Err(e) => {
                return Err(e);
            },
        };
        let bytes = match sent.encode() {
            Ok(bytes) => bytes,
            Err(e) => {
                return Err(e);
            },
        };
        match self.send_bytes(net, next_hop, bytes) {
            Ok(delivery) => Ok(Some(delivery)),
            Err(e) => Err(e),
        }
    }

    /// Handles a call that the transport owes to this node: a change of a
    /// connection's state, of which the event loop and the application
    /// are told, or a frame that has arrived, which is handled as
    /// `on_message` handles the bytes in it. A change of state reaches
    /// the event loop whatever the application answers; its refusal is
    /// handed back for the log. A change that has an event for the event
    /// loop waits while the queue is full: nobody is told of it then.
    pub fn handle_callback(&mut self, event: &CallbackEvent, verified: bool, now_ms: u64) -> (r:
        Result<Handled, Error>)
        requires
            old(self).wf(),
        ensures
            final(self).wf(),
            match event@ {
                EventView::StateChange { cid, rand_id, state } => match r {
                    Ok(h) => !change_waits(old(self)@.pending, cid, state) && h.reassembled
                        is None && !h.delivered && !h.disconnect && (h.failure matches Some(e)
                        ==> e is Callback && parse_did(cid) is Some && old(self)@.callback
                        is Some) && final(self)@ == with_pending(
                        old(self)@,
                        pending_after_change(old(self)@.pending, cid, state),
                    ),
                    Err(e) => change_waits(old(self)@.pending, cid, state) && e
                        == Error::ChannelFull && final(self)@ == old(self)@,
                },
                EventView::Message { cid, rand_id, data } => if parse_message_frame(data)
                    is None {
                    r == Err::<Handled, Error>(Error::MalformedEnvelope) && final(self)@ == old(self)@
                } else {
                    message_outcome(
                        old(self)@,
                        framed_payload(data),
                        parse_message_frame(data).unwrap(),
                        verified,
                        now_ms,
                        final(self)@,
                        r,
                    ) && (acceptance_owed(old(self)@, framed_payload(data), verified) ==> r
                        is Ok)
                },
            },
    {
        match event {
            CallbackEvent::StateChange { cid, rand_id, state } => {
                let plan = state_change_plan(cid.as_str(), *state);
                if plan.transport_event.is_some() && self.transport_events.len()
                    >= TRANSPORT_EVENT_CAPACITY {
                    return Err(Error::ChannelFull);
                }
                let outcome = self.callback.on_peer_connection_state_change(cid.as_str(), *state);
                match outcome.transport_event {
                    Some(e) => {
                        self.transport_events.push(e);
                    },
                    None => {},
                }
                let failure = match outcome.told {
                    Ok(()) => None,
                    Err(e) => Some(e),
                };
                Ok(Handled { reassembled: None, delivered: false, disconnect: false, failure })
            },
            CallbackEvent::Message { cid, rand_id, data } => {
                let bytes = match TransportMessage::decode(data.as_slice()) {
                    Ok(TransportMessage::Custom(bytes)) => bytes,
                    Err(e) => {
                        return Err(e);
                    },
                };
                self.on_message(cid.as_str(), bytes.as_slice(), verified, now_ms)
            },
        }
    }
}

} // verus!
