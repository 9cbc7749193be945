//! What the swarm does with the notices of one connection, and the
//! interface through which it tells the application.

use vstd::prelude::*;
use crate::chunk::{
    list_after, output_of, overflows, without_stale, ChunkList, PendingView,
};
use crate::did::{parse_did, Did};
use crate::error::Error;
use crate::held::Held;
use crate::message::{
    parse_message, parse_payload, Message, MessagePayload, MessageView, PayloadView,
};
use crate::swarm::router::{check_relay, relay_refusal};
use crate::transport::WebrtcConnectionState;

verus! {

/// What an application's callback reports when it refuses.
#[derive(Clone, Debug, PartialEq, Eq)]
pub struct CallbackError {
    pub message: String,
}

/// What the swarm tells the application of.
#[derive(Clone, Copy, Debug, PartialEq, Eq, Structural)]
#[non_exhaustive]
pub enum SwarmEvent {
    /// The connection to `peer` has changed its state to `state`.
    ConnectionStateChange { peer: Did, state: WebrtcConnectionState },
}

/// What a connection's callback hands to the swarm's event loop.
#[derive(Clone, Debug, PartialEq, Eq)]
pub enum TransportEvent {
    /// The connection to the peer is up.
    Connected(Did),
    /// The connection to the peer is lost.
    Closed(Did),
    /// The bytes of an envelope that has passed verification.
    DataChannelMessage(Vec<u8>),
}

/// The application's side of the swarm. Each method may refuse; the swarm
/// drops a message that `on_validate` refuses.
pub trait SwarmCallback: Send + Sync {
    /// Called for every verified message, before the swarm handles it.
    fn on_validate(&self, payload: &MessagePayload) -> Result<(), CallbackError> {
        Ok(())
    }

    /// Called for a message whose destination is this node, after the swarm
    /// has handled it.
    fn on_inbound(&self, payload: &MessagePayload) -> Result<(), CallbackError> {
        Ok(())
    }

    /// Called after the swarm has handled a change of a connection.
    fn on_event(&self, event: &SwarmEvent) -> Result<(), CallbackError> {
        Ok(())
    }
}

/// The callback of a swarm that was given none: it accepts everything.
pub struct DefaultCallback;

impl SwarmCallback for DefaultCallback {
    fn on_validate(&self, payload: &MessagePayload) -> (r: Result<(), CallbackError>)
        ensures
            r is Ok,
    {
        Ok(())
    }

    fn on_inbound(&self, payload: &MessagePayload) -> (r: Result<(), CallbackError>)
        ensures
            r is Ok,
    {
        Ok(())
    }

    fn on_event(&self, event: &SwarmEvent) -> (r: Result<(), CallbackError>)
        ensures
            r is Ok,
    {
        Ok(())
    }
}

/// The callback that an application hands to its swarm.
pub type SharedSwarmCallback = Box<dyn SwarmCallback>;

/// What is to be done on a change of a connection's state.
#[derive(Clone, Debug, PartialEq, Eq)]
pub struct StateChangePlan {
    /// For the swarm's event loop, where the change concerns the ring.
    pub transport_event: Option<TransportEvent>,
    /// For the application.
    pub swarm_event: Option<SwarmEvent>,
}

/// The event for the swarm's event loop on a change to `state`.
pub open spec fn transport_event_for(peer: Did, state: WebrtcConnectionState) -> Option<
    TransportEvent,
> {
    if state == WebrtcConnectionState::Connected {
        Some(TransportEvent::Connected(peer))
    } else if state.lost() {
        Some(TransportEvent::Closed(peer))
    } else {
        None
    }
}

/// The event for the swarm's event loop when the connection under `cid`
/// changes to `state`.
pub open spec fn change_event(cid: Seq<char>, state: WebrtcConnectionState) -> Option<
    TransportEvent,
> {
    match parse_did(cid) {
        Some(peer) => transport_event_for(peer, state),
        None => None,
    }
}

/// What is to be done when the connection under `cid` changes to `state`.
/// A change on a connection id that names no identifier is passed over.
pub fn state_change_plan(cid: &str, state: WebrtcConnectionState) -> (plan: StateChangePlan)
    ensures
        match parse_did(cid@) {
            Some(peer) => plan.transport_event == transport_event_for(peer, state)
                && plan.swarm_event == Some(SwarmEvent::ConnectionStateChange { peer, state }),
            None => plan.transport_event is None && plan.swarm_event is None,
        },
{
    let peer = match Did::from_str(cid) {
        Ok(peer) => peer,
        Err(_) => {
            return StateChangePlan { transport_event: None, swarm_event: None };
        },
    };
    let transport_event = match state {
        WebrtcConnectionState::Connected => Some(TransportEvent::Connected(peer)),
        WebrtcConnectionState::Failed => Some(TransportEvent::Closed(peer)),
        WebrtcConnectionState::Disconnected => Some(TransportEvent::Closed(peer)),
        WebrtcConnectionState::Closed => Some(TransportEvent::Closed(peer)),
        _ => None,
    };
    StateChangePlan {
        transport_event,
        swarm_event: Some(SwarmEvent::ConnectionStateChange { peer, state }),
    }
}

/// What is to be done with an accepted message.
#[derive(Clone, Debug, PartialEq, Eq)]
pub enum PayloadPlan {
    /// A fragment was buffered, or the message is for another node.
    Nothing,
    /// A fragment completed an envelope: its bytes are to be verified and
    /// handled in turn.
    Reassembled(Vec<u8>),
    /// The message is for this node: the application is to be told.
    Deliver,
    /// A fragment came for which the reassembly buffer has no room: the
    /// peer that sent it is to be disconnected.
    Disconnect,
}

/// What is to be done with an accepted envelope, as a mathematical value.
pub enum PlanView {
    /// The body is no message.
    Malformed,
    Nothing,
    Reassembled(Seq<u8>),
    Deliver,
    Disconnect,
}

/// What a node does with the body of an accepted envelope. A fragment goes
/// to the buffer, whoever the envelope is for, unless the buffer has no
/// room for it; anything else is for the application if this node is its
/// destination.
pub open spec fn payload_plan(
    did: Did,
    list: Map<u128, PendingView>,
    body: Seq<u8>,
    destination: Did,
) -> PlanView {
    match parse_message(body) {
        None => PlanView::Malformed,
        Some(MessageView::Chunk(f)) => if overflows(list, f) {
            PlanView::Disconnect
        } else {
            match output_of(list, f) {
                Some(data) => PlanView::Reassembled(data),
                None => PlanView::Nothing,
            }
        },
        Some(_) => if destination == did {
            PlanView::Deliver
        } else {
            PlanView::Nothing
        },
    }
}

/// What node `did` does with the accepted envelope `p`.
pub open spec fn plan_for(did: Did, list: Map<u128, PendingView>, p: PayloadView) -> PlanView {
    payload_plan(did, list, p.transaction.body, p.transaction.destination)
}

/// The error says why the envelope was refused: bytes that hold none are
/// malformed; an envelope that was not verified fails verification; one
/// that was verified is refused by the application's callback, if there
/// is one, or else is dropped as `relay_refusal` says.
pub open spec fn rejection_fits(
    did: Did,
    has_callback: bool,
    envelope: Option<PayloadView>,
    verified: bool,
    e: Error,
) -> bool {
    match envelope {
        None => e == Error::MalformedEnvelope,
        Some(p) => if !verified {
            e == Error::VerificationFailed
        } else {
            (has_callback && e is Callback) || relay_refusal(did, p) == Some(e)
        },
    }
}

/// The buffer after a node has handled the body of an accepted envelope.
pub open spec fn buffer_after(list: Map<u128, PendingView>, body: Seq<u8>, now_ms: u64) -> Map<
    u128,
    PendingView,
> {
    match parse_message(body) {
        Some(MessageView::Chunk(f)) => list_after(list, f, now_ms),
        _ => list,
    }
}

/// What became of one message that was accepted.
#[derive(Clone, Debug, PartialEq, Eq)]
pub struct MessageOutcome {
    /// For the swarm's event loop: the bytes of the message.
    pub transport_event: TransportEvent,
    /// Bytes of an envelope that this message completed. They are to be
    /// verified and handed to `on_message` in turn.
    pub reassembled: Option<Vec<u8>>,
    /// Whether the application was told of the message.
    pub delivered: bool,
    /// Whether the peer that sent the message is to be disconnected: it
    /// sent a fragment for which the reassembly buffer has no room.
    pub disconnect: bool,
    /// What went wrong after the message was accepted, for the log: its
    /// body is no message, or the application refused when it was told.
    pub failure: Option<Error>,
}

/// The outcome says what the plan asks for: the reassembled bytes where a
/// fragment completed an envelope, that the application was told where
/// the message is for this node, that the peer is to be disconnected
/// where the buffer has no room for its fragment, and that the body is
/// malformed where it is no message. Nothing else fails, but that an
/// application's callback may refuse what it is told.
pub open spec fn outcome_matches(plan: PlanView, has_callback: bool, o: MessageOutcome) -> bool {
    match plan {
        PlanView::Reassembled(data) => !o.delivered && !o.disconnect && o.failure is None && (
        o.reassembled matches Some(b) && b@ == data),
        PlanView::Deliver => o.delivered && !o.disconnect && o.reassembled is None && (
        o.failure matches Some(e) ==> has_callback && e is Callback),
        PlanView::Nothing => !o.delivered && !o.disconnect && o.reassembled is None && o.failure
            is None,
        PlanView::Disconnect => !o.delivered && o.disconnect && o.reassembled is None
            && o.failure is None,
        PlanView::Malformed => !o.delivered && !o.disconnect && o.reassembled is None && o.failure
            == Some(Error::MalformedEnvelope),
    }
}

/// What became of a change of a connection's state.
#[derive(Debug, PartialEq, Eq)]
pub struct StateChangeOutcome {
    /// For the swarm's event loop, whatever the application answered.
    pub transport_event: Option<TransportEvent>,
    /// What the application answered when it was told of the change.
    pub told: Result<(), Error>,
}

/// What an answer of the application's callback comes to: a refusal is
/// an error that carries the application's message.
pub fn answer_of(answer: Result<(), CallbackError>) -> (r: Result<(), Error>)
    ensures
        match answer {
            Ok(()) => r == Ok::<(), Error>(()),
            Err(refusal) => r == Err::<(), Error>(Error::Callback(refusal.message)),
        },
{
    match answer {
        Ok(()) => Ok(()),
        Err(refusal) => Err(Error::Callback(refusal.message)),
    }
}

/// The outcome of a message of which the application was told, given what
/// it answered: it was delivered, and a refusal is kept for the log.
pub fn told_outcome(outcome: MessageOutcome, answer: Result<(), CallbackError>) -> (r:
    MessageOutcome)
    ensures
        r.transport_event == outcome.transport_event,
        r.reassembled == outcome.reassembled,
        r.disconnect == outcome.disconnect,
        r.delivered,
        match answer {
            Ok(()) => r.failure is None,
            Err(refusal) => r.failure == Some(Error::Callback(refusal.message)),
        },
{
    let MessageOutcome { transport_event, reassembled, delivered, disconnect, failure } = outcome;
    let failure = match answer_of(answer) {
        Ok(()) => None,
        Err(e) => Some(e),
    };
    MessageOutcome { transport_event, reassembled, delivered: true, disconnect, failure }
}

/// What became of a change of a connection's state, given what is to be
/// done on it and what the application answered when it was told; `None`
/// where it was not told, because the connection id names no identifier.
pub fn state_change_outcome(plan: StateChangePlan, answer: Option<Result<(), CallbackError>>) -> (r:
    StateChangeOutcome)
    ensures
        r.transport_event == plan.transport_event,
        match answer {
            Some(Err(refusal)) => r.told == Err::<(), Error>(Error::Callback(refusal.message)),
            _ => r.told == Ok::<(), Error>(()),
        },
{
    let told = match answer {
        Some(answer) => answer_of(answer),
        None => Ok(()),
    };
    StateChangeOutcome { transport_event: plan.transport_event, told }
}

/// The swarm's callback for one connection.
pub struct InnerSwarmCallback {
    did: Did,
    callback: Option<Held<SharedSwarmCallback>>,
    chunk_list: ChunkList,
}

impl InnerSwarmCallback {
    pub closed spec fn local(&self) -> Did {
        self.did
    }

    pub closed spec fn buffer(&self) -> Map<u128, PendingView> {
        self.chunk_list@
    }

    /// The application's callback; `None` where the swarm was given none
    /// and accepts everything in its place.
    pub closed spec fn callback(&self) -> Option<Held<SharedSwarmCallback>> {
        self.callback
    }

    pub closed spec fn wf(&self) -> bool {
        self.chunk_list.wf()
    }

    /// The callback of node `did`, with an empty reassembly buffer. It
    /// tells the application through `callback`.
    pub fn new(did: Did, callback: SharedSwarmCallback) -> (c: InnerSwarmCallback)
        ensures
            c.wf(),
            c.local() == did,
            c.buffer() == Map::<u128, PendingView>::empty(),
            c.callback() matches Some(held) && held.value() == callback,
    {
        let held = Held::new(callback);
        InnerSwarmCallback { did, callback: Some(held), chunk_list: ChunkList::new() }
    }

    /// The callback of node `did`, with an empty reassembly buffer and the
    /// application's callback as given; without one it accepts everything.
    pub fn with_callback(did: Did, callback: Option<Held<SharedSwarmCallback>>) -> (c:
        InnerSwarmCallback)
        ensures
            c.wf(),
            c.local() == did,
            c.buffer() == Map::<u128, PendingView>::empty(),
            c.callback() == callback,
    {
        InnerSwarmCallback { did, callback, chunk_list: ChunkList::new() }
    }

    /// Asks the application to validate an envelope.
    pub(crate) fn validate(&self, payload: &MessagePayload) -> (r: Result<(), CallbackError>)
        ensures
            self.callback() is None ==> r is Ok,
    {
        match &self.callback {
            Some(held) => held.get().on_validate(payload),
            None => DefaultCallback.on_validate(payload),
        }
    }

    /// Tells the application of an envelope for this node.
    fn inbound(&self, payload: &MessagePayload) -> (r: Result<(), CallbackError>)
        ensures
            self.callback() is None ==> r is Ok,
    {
        match &self.callback {
            Some(held) => held.get().on_inbound(payload),
            None => DefaultCallback.on_inbound(payload),
        }
    }

    /// Tells the application of an event.
    fn event(&self, event: &SwarmEvent) -> (r: Result<(), CallbackError>)
        ensures
            self.callback() is None ==> r is Ok,
    {
        match &self.callback {
            Some(held) => held.get().on_event(event),
            None => DefaultCallback.on_event(event),
        }
    }

    /// Drops the envelopes of which no fragment has come for longer than
    /// the buffer keeps them.
    pub fn remove_expired(&mut self, now_ms: u64)
        requires
            old(self).wf(),
        ensures
            final(self).wf(),
            final(self).local() == old(self).local(),
            final(self).callback() == old(self).callback(),
            final(self).buffer() == without_stale(old(self).buffer(), now_ms),
    {
        self.chunk_list.remove_expired(now_ms);
    }

    /// Drops whatever is being reassembled.
    pub fn drop_reassemblies(&mut self)
        ensures
            final(self).wf(),
            final(self).local() == old(self).local(),
            final(self).callback() == old(self).callback(),
            final(self).buffer() == Map::<u128, PendingView>::empty(),
    {
        self.chunk_list = ChunkList::new();
    }

    /// Decides what is to be done with an accepted envelope, and buffers it
    /// if it is a fragment.
    pub fn handle_payload(&mut self, payload: &MessagePayload, now_ms: u64) -> (r: Result<
        PayloadPlan,
        Error,
    >)
        requires
            old(self).wf(),
        ensures
            final(self).wf(),
            final(self).local() == old(self).local(),
            final(self).callback() == old(self).callback(),
            final(self).buffer() == buffer_after(
                old(self).buffer(),
                payload@.transaction.body,
                now_ms,
            ),
            match plan_for(old(self).local(), old(self).buffer(), payload@) {
                PlanView::Malformed => r == Err::<PayloadPlan, Error>(Error::MalformedEnvelope),
                PlanView::Nothing => r == Ok::<PayloadPlan, Error>(PayloadPlan::Nothing),
                PlanView::Deliver => r == Ok::<PayloadPlan, Error>(PayloadPlan::Deliver),
                PlanView::Disconnect => r == Ok::<PayloadPlan, Error>(PayloadPlan::Disconnect),
                PlanView::Reassembled(data) => r matches Ok(PayloadPlan::Reassembled(bytes))
                    && bytes@ == data,
            },
    {
        let message = match payload.transaction.data() {
            Ok(message) => message,
            Err(e) => {
                return Err(e);
            },
        };
        match message {
            Message::Chunk(fragment) => {
                if self.chunk_list.overflows(&fragment) {
                    return Ok(PayloadPlan::Disconnect);
                }
                match self.chunk_list.handle(fragment, now_ms) {
                    Some(data) => Ok(PayloadPlan::Reassembled(data)),
                    None => Ok(PayloadPlan::Nothing),
                }
            },
            _ => {
                if payload.transaction.destination == self.did {
                    Ok(PayloadPlan::Deliver)
                } else {
                    Ok(PayloadPlan::Nothing)
                }
            },
        }
    }

    /// Reads an envelope and checks that it was verified.
    pub fn accept(msg: &[u8], verified: bool) -> (r: Result<MessagePayload, Error>)
        ensures
            match r {
                Ok(p) => verified && parse_payload(msg@) == Some(p@),
                Err(e) => if parse_payload(msg@) is None {
                    e == Error::MalformedEnvelope
                } else {
                    !verified && e == Error::VerificationFailed
                },
            },
    {
        let payload = match MessagePayload::decode(msg) {
            Ok(payload) => payload,
            Err(e) => {
                return Err(e);
            },
        };
        if !verified {
            return Err(Error::VerificationFailed);
        }
        Ok(payload)
    }

    /// Handles an envelope that was read from the bytes `msg` and verified,
    /// given what the application answered when it was asked to validate
    /// it. An envelope that the application refuses is dropped with its
    /// refusal; so is an envelope for another node that has been here
    /// before, or whose hops run out here. Nothing has changed then. Else
    /// the envelope is accepted: its bytes are for the event loop, whatever
    /// comes of handling it, and the application is told of it where this
    /// node is its destination.
    pub fn after_validation(
        &mut self,
        payload: &MessagePayload,
        msg: &[u8],
        validated: Result<(), CallbackError>,
        now_ms: u64,
    ) -> (r: Result<MessageOutcome, Error>)
        requires
            old(self).wf(),
        ensures
            final(self).wf(),
            final(self).local() == old(self).local(),
            final(self).callback() == old(self).callback(),
            match validated {
                Err(refusal) => r == Err::<MessageOutcome, Error>(
                    Error::Callback(refusal.message),
                ) && final(self).buffer() == old(self).buffer(),
                Ok(()) => match relay_refusal(old(self).local(), payload@) {
                    Some(e) => r == Err::<MessageOutcome, Error>(e) && final(self).buffer() == old(self).buffer(),
                    None => (r matches Ok(o) && (o.transport_event
                        matches TransportEvent::DataChannelMessage(bytes) && bytes@ == msg@)
                        && outcome_matches(
                        plan_for(old(self).local(), old(self).buffer(), payload@),
                        old(self).callback() is Some,
                        o,
                    )) && final(self).buffer() == buffer_after(
                        old(self).buffer(),
                        payload@.transaction.body,
                        now_ms,
                    ),
                },
            },
    {
        match answer_of(validated) {
            Ok(()) => {},
            Err(e) => {
                return Err(e);
            },
        }
        match check_relay(self.did, payload) {
            Some(e) => {
                return Err(e);
            },
            None => {},
        }
        let transport_event = TransportEvent::DataChannelMessage(
            crate::wire::copy_range(msg, 0, msg.len()),
        );
        assert(msg@.subrange(0, msg@.len() as int) =~= msg@);
        let mut outcome = MessageOutcome {
            transport_event,
            reassembled: None,
            delivered: false,
            disconnect: false,
            failure: None,
        };
        match self.handle_payload(payload, now_ms) {
            Ok(PayloadPlan::Nothing) => {},
            Ok(PayloadPlan::Reassembled(data)) => {
                outcome.reassembled = Some(data);
            },
            Ok(PayloadPlan::Disconnect) => {
                outcome.disconnect = true;
            },
            Ok(PayloadPlan::Deliver) => {
                let answer = self.inbound(payload);
                outcome = told_outcome(outcome, answer);
            },
            Err(e) => {
                outcome.failure = Some(e);
            },
        }
        Ok(outcome)
    }

    /// Handles the bytes that arrived on a connection. `verified` says
    /// whether the envelope's signatures are valid and its session has not
    /// expired. Bytes that hold no envelope are malformed, and an envelope
    /// that was not verified fails verification. Else the application is
    /// asked to validate the envelope, and `after_validation` says what
    /// comes of its answer. Without a callback of the application, every
    /// verified envelope that is not dropped is accepted.
    pub fn on_message(&mut self, cid: &str, msg: &[u8], verified: bool, now_ms: u64) -> (r: Result<
        MessageOutcome,
        Error,
    >)
        requires
            old(self).wf(),
        ensures
            final(self).wf(),
            final(self).local() == old(self).local(),
            final(self).callback() == old(self).callback(),
            match r {
                Ok(o) => verified && parse_payload(msg@) is Some && relay_refusal(
                    old(self).local(),
                    parse_payload(msg@).unwrap(),
                ) is None && final(self).buffer() == buffer_after(
                    old(self).buffer(),
                    parse_payload(msg@).unwrap().transaction.body,
                    now_ms,
                ) && (o.transport_event matches TransportEvent::DataChannelMessage(bytes) && bytes@
                    == msg@) && outcome_matches(
                    plan_for(old(self).local(), old(self).buffer(), parse_payload(msg@).unwrap()),
                    old(self).callback() is Some,
                    o,
                ),
                Err(e) => final(self).buffer() == old(self).buffer() && rejection_fits(
                    old(self).local(),
                    old(self).callback() is Some,
                    parse_payload(msg@),
                    verified,
                    e,
                ),
            },
    {
        let payload = match InnerSwarmCallback::accept(msg, verified) {
            Ok(payload) => payload,
            Err(e) => {
                return Err(e);
            },
        };
        let validated = self.validate(&payload);
        self.after_validation(&payload, msg, validated, now_ms)
    }

    /// Handles a change of the state of the connection under `cid`: says
    /// what the swarm's event loop is to be told, tells the application,
    /// and says what it answered, as `state_change_outcome` has it. The
    /// event for the loop does not depend on the answer. A change on a
    /// connection id that names no identifier is passed over. Nothing
    /// fails but that an application's callback may refuse.
    pub fn on_peer_connection_state_change(&self, cid: &str, s: WebrtcConnectionState) -> (r:
        StateChangeOutcome)
        ensures
            r.transport_event == change_event(cid@, s),
            r.told matches Err(e) ==> e is Callback && parse_did(cid@) is Some && self.callback()
                is Some,
    {
        let plan = state_change_plan(cid, s);
        let answer = match plan.swarm_event {
            Some(event) => Some(self.event(&event)),
            None => None,
        };
        state_change_outcome(plan, answer)
    }
}

} // verus!
