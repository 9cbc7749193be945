use std::sync::{Arc, Mutex};

use rings_swarm::chunk::split;
use rings_swarm::did::Did;
use rings_swarm::dummy::DummyNet;
use rings_swarm::error::Error;
use rings_swarm::message::{Message, MessagePayload, Relay, RelayEntry, Transaction};
use rings_swarm::ring::PeerRing;
use rings_swarm::session::{SessionSk, DEFAULT_SESSION_TTL_MS};
use rings_swarm::storage::PersistenceStorage;
use rings_swarm::swarm::builder::SwarmBuilder;
use rings_swarm::swarm::callback::{
    answer_of, state_change_outcome, state_change_plan, told_outcome, CallbackError,
    InnerSwarmCallback, MessageOutcome, PayloadPlan, StateChangeOutcome, StateChangePlan,
    SwarmCallback, SwarmEvent, TransportEvent,
};
use rings_swarm::swarm::router::{needs_chunking, outbound, route, wrap_fragment, NextHop, Routing};
use rings_swarm::swarm::{Handled, Measure, MeasureCounter, Swarm};
use rings_swarm::transport::{CallbackEvent, WebrtcConnectionState};

const ICE: &str = "stun://stun.l.google.com:19302";
const NOW: u64 = 1_700_000_000_000;

fn a_did() -> Did {
    Did::new(0x0100_0000, 0)
}

fn b_did() -> Did {
    Did::new(0x8000_0000, 0)
}

fn c_did() -> Did {
    Did::new(0xff00_0000, 0)
}

fn sig() -> Vec<u8> {
    vec![0x5a; 65]
}

/// What a recording callback has seen.
#[derive(Default)]
struct Seen {
    validated: usize,
    inbound: Vec<MessagePayload>,
    events: Vec<SwarmEvent>,
}

struct Recorder {
    seen: Arc<Mutex<Seen>>,
    refuse: bool,
    refuse_inbound: bool,
    refuse_event: bool,
}

fn recorder(seen: &Arc<Mutex<Seen>>) -> Recorder {
    Recorder { seen: seen.clone(), refuse: false, refuse_inbound: false, refuse_event: false }
}

impl SwarmCallback for Recorder {
    fn on_validate(&self, _payload: &MessagePayload) -> Result<(), CallbackError> {
        self.seen.lock().unwrap().validated += 1;
        if self.refuse {
            Err(CallbackError { message: "not wanted".to_string() })
        } else {
            Ok(())
        }
    }

    fn on_inbound(&self, payload: &MessagePayload) -> Result<(), CallbackError> {
        self.seen.lock().unwrap().inbound.push(payload.clone());
        if self.refuse_inbound {
            Err(CallbackError { message: "no room".to_string() })
        } else {
            Ok(())
        }
    }

    fn on_event(&self, event: &SwarmEvent) -> Result<(), CallbackError> {
        self.seen.lock().unwrap().events.push(*event);
        if self.refuse_event {
            Err(CallbackError { message: "not now".to_string() })
        } else {
            Ok(())
        }
    }
}

struct Tally {
    counted: Arc<Mutex<Vec<(Did, MeasureCounter)>>>,
}

impl Measure for Tally {
    fn incr(&self, did: Did, counter: MeasureCounter) {
        self.counted.lock().unwrap().push((did, counter));
    }
}

struct Peer {
    swarm: Swarm,
    seen: Arc<Mutex<Seen>>,
}

fn peer(did: Did) -> Peer {
    let seen = Arc::new(Mutex::new(Seen::default()));
    let swarm = SwarmBuilder::new(
        ICE,
        PersistenceStorage::new_with_path("./tmp"),
        SessionSk::new(did, NOW, DEFAULT_SESSION_TTL_MS),
    )
    .callback(Box::new(recorder(&seen)))
    .build();
    Peer { swarm, seen }
}

/// Hands each call to the node whose connection it is for, and lets that
/// node's event loop run.
fn deliver(peers: &mut [&mut Peer], events: Vec<CallbackEvent>) {
    for event in events {
        let (cid, rand_id) = match &event {
            CallbackEvent::Message { cid, rand_id, .. } => (cid.clone(), rand_id.clone()),
            CallbackEvent::StateChange { cid, rand_id, .. } => (cid.clone(), rand_id.clone()),
        };
        let remote = Did::from_str(&cid).unwrap();
        let owner = peers
            .iter_mut()
            .find(|p| p.swarm.connection(remote).map(|c| c.rand_id()) == Ok(rand_id.clone()))
            .unwrap();
        owner.swarm.handle_callback(&event, true, NOW).unwrap();
        while owner.swarm.poll_event().is_some() {}
    }
}

fn connect(net: &mut DummyNet, x: &mut Peer, y: &mut Peer) {
    let (x_did, y_did) = (x.swarm.did(), y.swarm.did());
    let (offer, e1) = x.swarm.create_offer(net, y_did).unwrap();
    let (answer, e2) = y.swarm.answer_offer(net, x_did, offer).unwrap();
    let e3 = x.swarm.accept_answer(net, y_did, answer).unwrap();
    let mut events = e1;
    events.extend(e2);
    events.extend(e3);
    deliver(&mut [x, y], events);
}

fn custom(text: &[u8]) -> Vec<u8> {
    Message::CustomMessage(text.to_vec()).encode().unwrap()
}

#[test]
fn builder_defaults() {
    let swarm = SwarmBuilder::new(
        ICE,
        PersistenceStorage::new_with_cap_and_path(50000, "./store"),
        SessionSk::new(a_did(), NOW, 1234),
    )
    .build();
    assert_eq!(swarm.did(), a_did());
    assert_eq!(swarm.dht().did(), a_did());
    assert_eq!(swarm.dht().succ_max(), 3);
    assert!(swarm.dht().successors().is_empty());
    assert_eq!(swarm.dht().predecessor(), None);
    assert_eq!(swarm.session_sk().account_did(), a_did());
    assert_eq!(swarm.session_sk().ttl_ms(), 1234);
    assert_eq!(swarm.dht_storage().capacity(), 50000);
    assert_eq!(swarm.dht_storage().path(), "./store");
    assert_eq!(swarm.connection(b_did()).err(), Some(Error::ConnectionNotFound(b_did().to_string())));
}

#[test]
fn builder_settings_reach_the_swarm() {
    let counted = Arc::new(Mutex::new(Vec::new()));
    let mut swarm = SwarmBuilder::new(
        ICE,
        PersistenceStorage::new_with_path("./tmp"),
        SessionSk::new(a_did(), NOW, 1234),
    )
    .dht_succ_max(1)
    .external_address("127.0.0.1".to_string())
    .session_ttl(60)
    .measure(Box::new(Tally { counted: counted.clone() }))
    .build();
    let mut net = DummyNet::new();
    assert!(swarm.send_bytes(&net, b_did(), vec![1]).is_err());
    let mut other = peer(b_did());
    let (offer, _) = swarm.create_offer(&mut net, b_did()).unwrap();
    let (answer, _) = other.swarm.answer_offer(&mut net, a_did(), offer).unwrap();
    swarm.accept_answer(&mut net, b_did(), answer).unwrap();
    assert!(swarm.send_bytes(&net, b_did(), vec![1]).is_ok());
    assert_eq!(
        *counted.lock().unwrap(),
        vec![(b_did(), MeasureCounter::FailedToSend), (b_did(), MeasureCounter::Sent)]
    );
    assert_eq!(swarm.dht().succ_max(), 1);
    assert_eq!(swarm.session_sk().ttl_ms(), 60_000);
    assert!(!swarm.session_sk().is_expired(NOW + 60_000));
    assert!(swarm.session_sk().is_expired(NOW + 60_001));
    assert_eq!(swarm.dht_storage().capacity(), 200_000_000);
    assert!(swarm.push_event(TransportEvent::Connected(b_did())));
    assert!(swarm.push_event(TransportEvent::Connected(c_did())));
    while swarm.poll_event().is_some() {}
    assert_eq!(swarm.dht().successors(), vec![b_did()]);
}

#[test]
fn session_expires_after_its_time_to_live() {
    let s = SessionSk::new(a_did(), 1000, 500);
    assert!(!s.is_expired(0));
    assert!(!s.is_expired(1000));
    assert!(!s.is_expired(1500));
    assert!(s.is_expired(1501));
    let never = SessionSk::new(a_did(), u64::MAX - 1, u64::MAX);
    assert!(!never.is_expired(u64::MAX));
    assert_eq!(s.clone().with_ttl(7).ttl_ms(), 7);
    assert_eq!(s.with_ttl(7).account_did(), a_did());
}

#[test]
fn event_loop_follows_connections() {
    let mut p = peer(a_did());
    assert_eq!(p.swarm.poll_event(), None);
    p.swarm.push_event(TransportEvent::Connected(b_did()));
    p.swarm.push_event(TransportEvent::DataChannelMessage(vec![1]));
    p.swarm.push_event(TransportEvent::Connected(c_did()));
    p.swarm.push_event(TransportEvent::Closed(b_did()));
    assert_eq!(p.swarm.poll_event(), Some(TransportEvent::Connected(b_did())));
    assert_eq!(p.swarm.dht().successors(), vec![b_did()]);
    assert_eq!(p.swarm.poll_event(), Some(TransportEvent::DataChannelMessage(vec![1])));
    assert_eq!(p.swarm.poll_event(), Some(TransportEvent::Connected(c_did())));
    assert_eq!(p.swarm.dht().successors(), vec![b_did(), c_did()]);
    assert_eq!(p.swarm.poll_event(), Some(TransportEvent::Closed(b_did())));
    assert_eq!(p.swarm.dht().successors(), vec![c_did()]);
    assert_eq!(p.swarm.poll_event(), None);
}

#[test]
fn state_change_plan_by_state() {
    let cid = b_did().to_string();
    let plan_for = |state| state_change_plan(&cid, state);
    let told = |state| Some(SwarmEvent::ConnectionStateChange { peer: b_did(), state });
    assert_eq!(
        plan_for(WebrtcConnectionState::Connected),
        StateChangePlan {
            transport_event: Some(TransportEvent::Connected(b_did())),
            swarm_event: told(WebrtcConnectionState::Connected)
        }
    );
    for state in [
        WebrtcConnectionState::Failed,
        WebrtcConnectionState::Disconnected,
        WebrtcConnectionState::Closed,
    ] {
        assert_eq!(
            plan_for(state),
            StateChangePlan {
                transport_event: Some(TransportEvent::Closed(b_did())),
                swarm_event: told(state)
            }
        );
    }
    for state in [
        WebrtcConnectionState::Unspecified,
        WebrtcConnectionState::New,
        WebrtcConnectionState::Connecting,
    ] {
        assert_eq!(plan_for(state), StateChangePlan { transport_event: None, swarm_event: told(state) });
    }
    assert_eq!(
        state_change_plan("somebody", WebrtcConnectionState::Connected),
        StateChangePlan { transport_event: None, swarm_event: None }
    );
}

#[test]
fn two_peer_chat() {
    let mut net = DummyNet::new();
    let mut a = peer(a_did());
    let mut b = peer(c_did());
    connect(&mut net, &mut a, &mut b);
    assert_eq!(a.swarm.dht().successors(), vec![c_did()]);
    assert_eq!(b.swarm.dht().successors(), vec![a_did()]);
    let (hop, payload) =
        outbound(a.swarm.dht(), a.swarm.session_sk(), c_did(), custom(b"hi"), 1, NOW, sig(), sig())
            .unwrap();
    assert_eq!(hop, NextHop::Remote(c_did()));
    let sent = a.swarm.send_bytes(&net, c_did(), payload.encode().unwrap()).unwrap();
    assert!(sent.delay_ms < 100);
    deliver(&mut [&mut a, &mut b], vec![sent.event]);
    let seen = b.seen.lock().unwrap();
    assert_eq!(seen.inbound.len(), 1);
    assert_eq!(seen.inbound[0].transaction.data(), Ok(Message::CustomMessage(b"hi".to_vec())));
    assert!(seen.inbound[0].relay.path.is_empty());
    assert_eq!(seen.inbound[0].transaction.origin, a_did());
    assert_eq!(seen.inbound[0].transaction.ttl_hops, 7);
    assert!(a.seen.lock().unwrap().inbound.is_empty());
    assert_eq!(
        a.seen.lock().unwrap().events,
        vec![
            SwarmEvent::ConnectionStateChange {
                peer: c_did(),
                state: WebrtcConnectionState::Connecting
            },
            SwarmEvent::ConnectionStateChange {
                peer: c_did(),
                state: WebrtcConnectionState::Connected
            },
        ]
    );
}

#[test]
fn three_peer_forward() {
    let mut net = DummyNet::new();
    let mut a = peer(a_did());
    let mut b = peer(b_did());
    let mut c = peer(c_did());
    connect(&mut net, &mut a, &mut b);
    connect(&mut net, &mut b, &mut c);
    let (hop, payload) =
        outbound(a.swarm.dht(), a.swarm.session_sk(), c_did(), custom(b"hi"), 1, NOW, sig(), sig())
            .unwrap();
    assert_eq!(hop, NextHop::Remote(b_did()));
    let sent = a.swarm.send_bytes(&net, b_did(), payload.encode().unwrap()).unwrap();
    let handled = b.swarm.handle_callback(&sent.event, true, NOW).unwrap();
    assert_eq!(handled, Handled { reassembled: None, delivered: false, disconnect: false, failure: None });
    let bytes = match b.swarm.poll_event() {
        Some(TransportEvent::DataChannelMessage(bytes)) => bytes,
        other => panic!("unexpected event {:?}", other),
    };
    let relay_sig = vec![0x77; 65];
    match route(b.swarm.dht(), MessagePayload::decode(&bytes).unwrap(), relay_sig.clone()) {
        Ok(Routing::Forward { next_hop, .. }) => assert_eq!(next_hop, c_did()),
        other => panic!("unexpected routing {:?}", other),
    }
    let sent = b.swarm.forward(&net, &bytes, relay_sig.clone()).unwrap().unwrap();
    let handled = c.swarm.handle_callback(&sent.event, true, NOW).unwrap();
    assert!(handled.delivered);
    let seen = c.seen.lock().unwrap();
    assert_eq!(seen.inbound.len(), 1);
    assert_eq!(
        seen.inbound[0].relay.path,
        vec![RelayEntry { did: b_did(), signature: relay_sig }]
    );
    assert_eq!(seen.inbound[0].transaction.ttl_hops, 6);
    assert_eq!(seen.inbound[0].transaction.data(), Ok(Message::CustomMessage(b"hi".to_vec())));
    assert!(b.seen.lock().unwrap().inbound.is_empty());
    assert_eq!(b.seen.lock().unwrap().validated, 1);
    assert_eq!(
        route(c.swarm.dht(), seen.inbound[0].clone(), sig()),
        Ok(Routing::Deliver)
    );
}

#[test]
fn chunked_payload_is_delivered_once_and_whole() {
    let mut net = DummyNet::new();
    let mut a = peer(a_did());
    let mut b = peer(c_did());
    connect(&mut net, &mut a, &mut b);
    let text: Vec<u8> = (0..200 * 1024).map(|i| (i % 251) as u8).collect();
    let (_, payload) =
        outbound(a.swarm.dht(), a.swarm.session_sk(), c_did(), custom(&text), 1, NOW, sig(), sig())
            .unwrap();
    let bytes = payload.encode().unwrap();
    assert!(needs_chunking(bytes.len()));
    let fragments = split(&bytes, 0xfeed).unwrap();
    assert_eq!(fragments.len(), 4);
    let mut reassembled = Vec::new();
    for (i, fragment) in fragments.into_iter().enumerate() {
        let wrapped =
            wrap_fragment(fragment, a_did(), c_did(), 2 + i as u64, NOW, sig(), sig()).unwrap();
        let frame_bytes = wrapped.encode().unwrap();
        assert!(!needs_chunking(frame_bytes.len()));
        let sent = a.swarm.send_bytes(&net, c_did(), frame_bytes).unwrap();
        let handled = b.swarm.handle_callback(&sent.event, true, NOW).unwrap();
        assert!(!handled.delivered);
        if let Some(whole) = handled.reassembled {
            assert_eq!(i, 3);
            reassembled.push(whole);
        }
    }
    assert_eq!(reassembled, vec![bytes.clone()]);
    assert!(b.seen.lock().unwrap().inbound.is_empty());
    let handled = b.swarm.on_message(&a_did().to_string(), &reassembled[0], true, NOW).unwrap();
    assert_eq!(handled, Handled { reassembled: None, delivered: true, disconnect: false, failure: None });
    let seen = b.seen.lock().unwrap();
    assert_eq!(seen.inbound.len(), 1);
    assert_eq!(seen.inbound[0].transaction.data(), Ok(Message::CustomMessage(text)));
}

#[test]
fn needs_chunking_at_the_mtu() {
    assert!(!needs_chunking(0));
    assert!(!needs_chunking(65528));
    assert!(needs_chunking(65529));
    assert!(needs_chunking(usize::MAX));
}

#[test]
fn expired_session_cannot_send() {
    let ring = PeerRing::new(a_did(), 3);
    let session = SessionSk::new(a_did(), NOW - 10_000, 9_000);
    assert!(session.is_expired(NOW));
    assert_eq!(
        outbound(&ring, &session, a_did(), custom(b"hi"), 1, NOW, sig(), sig()),
        Err(Error::VerificationFailed)
    );
}

#[test]
fn expired_session_is_not_delivered() {
    let mut net = DummyNet::new();
    let mut a = peer(a_did());
    let mut b = peer(c_did());
    connect(&mut net, &mut a, &mut b);
    let (_, payload) =
        outbound(a.swarm.dht(), a.swarm.session_sk(), c_did(), custom(b"hi"), 1, NOW, sig(), sig())
            .unwrap();
    let sent = a.swarm.send_bytes(&net, c_did(), payload.encode().unwrap()).unwrap();
    // the sender's session ran out a second before the message is verified
    let session = SessionSk::new(a_did(), NOW, 5_000);
    let verified = !session.is_expired(NOW + 6_000);
    assert!(!verified);
    assert_eq!(
        b.swarm.handle_callback(&sent.event, verified, NOW + 6_000),
        Err(Error::VerificationFailed)
    );
    assert_eq!(b.swarm.poll_event(), None);
    assert!(b.seen.lock().unwrap().inbound.is_empty());
    assert_eq!(b.seen.lock().unwrap().validated, 0);
}

#[test]
fn malformed_frames_and_envelopes_are_dropped() {
    let mut p = peer(a_did());
    let event = |data: Vec<u8>| CallbackEvent::Message {
        cid: b_did().to_string(),
        rand_id: "1".to_string(),
        data,
    };
    assert_eq!(p.swarm.handle_callback(&event(vec![1, 2, 3]), true, NOW), Err(Error::MalformedEnvelope));
    assert_eq!(
        p.swarm.handle_callback(&event(vec![0, 0, 0, 0, 1, 0, 0, 0, 9]), true, NOW),
        Err(Error::MalformedEnvelope)
    );
    assert_eq!(p.swarm.on_message("x", &[0; 10], false, NOW), Err(Error::MalformedEnvelope));
    assert_eq!(p.swarm.poll_event(), None);
    assert_eq!(p.seen.lock().unwrap().validated, 0);
}

#[test]
fn a_message_that_the_application_refuses_is_dropped() {
    let seen = Arc::new(Mutex::new(Seen::default()));
    let mut inner =
        InnerSwarmCallback::new(a_did(), Box::new(Recorder { refuse: true, ..recorder(&seen) }));
    let payload = MessagePayload {
        transaction: Transaction {
            origin: b_did(),
            destination: a_did(),
            nonce: 1,
            timestamp_ms: NOW,
            ttl_hops: 7,
            body: custom(b"hi"),
            signature: sig(),
        },
        relay: Relay { path: vec![] },
        signature: sig(),
    };
    let bytes = payload.encode().unwrap();
    assert_eq!(
        inner.on_message("cid", &bytes, true, NOW),
        Err(Error::Callback("not wanted".to_string()))
    );
    assert_eq!(seen.lock().unwrap().validated, 1);
    assert!(seen.lock().unwrap().inbound.is_empty());
    assert_eq!(InnerSwarmCallback::accept(&bytes, true), Ok(payload.clone()));
    assert_eq!(InnerSwarmCallback::accept(&bytes, false), Err(Error::VerificationFailed));
    assert_eq!(InnerSwarmCallback::accept(&bytes[1..], false), Err(Error::MalformedEnvelope));
    assert_eq!(inner.handle_payload(&payload, NOW), Ok(PayloadPlan::Deliver));
    assert_eq!(
        inner.on_peer_connection_state_change(&b_did().to_string(), WebrtcConnectionState::Connected),
        StateChangeOutcome {
            transport_event: Some(TransportEvent::Connected(b_did())),
            told: Ok(())
        }
    );
    assert_eq!(
        inner.on_peer_connection_state_change("nobody", WebrtcConnectionState::Connected),
        StateChangeOutcome { transport_event: None, told: Ok(()) }
    );
}

#[test]
fn handle_payload_plans() {
    let seen = Arc::new(Mutex::new(Seen::default()));
    let mut inner =
        InnerSwarmCallback::new(a_did(), Box::new(recorder(&seen)));
    let with = |destination: Did, body: Vec<u8>| MessagePayload {
        transaction: Transaction {
            origin: b_did(),
            destination,
            nonce: 1,
            timestamp_ms: NOW,
            ttl_hops: 7,
            body,
            signature: sig(),
        },
        relay: Relay { path: vec![] },
        signature: sig(),
    };
    assert_eq!(inner.handle_payload(&with(c_did(), custom(b"x")), NOW), Ok(PayloadPlan::Nothing));
    assert_eq!(inner.handle_payload(&with(a_did(), vec![]), NOW), Err(Error::MalformedEnvelope));
    assert_eq!(
        inner.handle_payload(&with(a_did(), Message::JoinDHT(b_did()).encode().unwrap()), NOW),
        Ok(PayloadPlan::Deliver)
    );
    let fragments = split(&[1, 2, 3], 5).unwrap();
    let body = Message::Chunk(fragments[0].clone()).encode().unwrap();
    assert_eq!(
        inner.handle_payload(&with(c_did(), body), NOW),
        Ok(PayloadPlan::Reassembled(vec![1, 2, 3]))
    );
    assert!(seen.lock().unwrap().inbound.is_empty());
}

fn forwarded_by(path: Vec<Did>, destination: Did, ttl_hops: u8) -> MessagePayload {
    MessagePayload {
        transaction: Transaction {
            origin: Did::new(9, 9),
            destination,
            nonce: 1,
            timestamp_ms: NOW,
            ttl_hops,
            body: custom(b"x"),
            signature: sig(),
        },
        relay: Relay {
            path: path.into_iter().map(|did| RelayEntry { did, signature: sig() }).collect(),
        },
        signature: sig(),
    }
}

#[test]
fn an_envelope_that_has_been_everywhere_is_dropped_everywhere() {
    let nodes = vec![a_did(), b_did(), c_did()];
    let nowhere = Did::new(0x4242_4242, 42);
    let envelope = forwarded_by(nodes.clone(), nowhere, 7);
    for me in &nodes {
        let mut ring = PeerRing::new(*me, 3);
        for other in &nodes {
            ring.join(*other);
        }
        assert_eq!(route(&ring, envelope.clone(), sig()), Err(Error::LoopDetected));
    }
    let stranger = PeerRing::new(Did::new(5, 5), 3);
    assert_eq!(route(&stranger, envelope, sig()), Err(Error::RoutingUnreachable));
}

#[test]
fn an_envelope_out_of_hops_is_dropped() {
    let mut ring = PeerRing::new(a_did(), 3);
    ring.join(b_did());
    assert_eq!(route(&ring, forwarded_by(vec![], c_did(), 1), sig()), Err(Error::TtlExpired));
    assert_eq!(route(&ring, forwarded_by(vec![], c_did(), 0), sig()), Err(Error::TtlExpired));
    match route(&ring, forwarded_by(vec![], c_did(), 2), sig()) {
        Ok(Routing::Forward { next_hop, payload }) => {
            assert_eq!(next_hop, b_did());
            assert_eq!(payload.transaction.ttl_hops, 1);
            assert_eq!(payload.relay.path.len(), 1);
        }
        other => panic!("unexpected routing {:?}", other),
    }
    assert_eq!(route(&ring, forwarded_by(vec![a_did()], a_did(), 0), sig()), Ok(Routing::Deliver));
}

#[test]
fn each_forwarder_adds_one_relay_entry() {
    let hops = vec![Did::new(1, 0), Did::new(2, 0), Did::new(3, 0), Did::new(4, 0)];
    let destination = Did::new(5, 0);
    let mut envelope = forwarded_by(vec![], destination, 7);
    for (k, me) in hops.iter().enumerate() {
        let mut ring = PeerRing::new(*me, 3);
        ring.join(*hops.get(k + 1).unwrap_or(&destination));
        let signature = vec![k as u8; 65];
        envelope = match route(&ring, envelope, signature.clone()) {
            Ok(Routing::Forward { payload, .. }) => payload,
            other => panic!("unexpected routing {:?}", other),
        };
        assert_eq!(envelope.relay.path.len(), k + 1);
        assert_eq!(envelope.relay.path[k], RelayEntry { did: *me, signature });
    }
    assert_eq!(envelope.transaction.ttl_hops, 3);
    assert!(envelope.is_wire_ok());
}

#[test]
fn outbound_without_a_next_hop_is_unreachable() {
    let ring = PeerRing::new(a_did(), 3);
    let session = SessionSk::new(a_did(), NOW, 1000);
    assert_eq!(
        outbound(&ring, &session, b_did(), custom(b"x"), 1, NOW, sig(), sig()),
        Err(Error::RoutingUnreachable)
    );
    let (hop, payload) =
        outbound(&ring, &session, a_did(), custom(b"x"), 4, NOW, sig(), vec![1; 65]).unwrap();
    assert_eq!(hop, NextHop::Local);
    assert_eq!(payload.transaction.origin, a_did());
    assert_eq!(payload.transaction.destination, a_did());
    assert_eq!(payload.transaction.nonce, 4);
    assert_eq!(payload.transaction.timestamp_ms, NOW);
    assert_eq!(payload.signature, vec![1; 65]);
}

#[test]
fn send_bytes_needs_an_open_connection() {
    let mut net = DummyNet::new();
    let mut a = peer(a_did());
    assert_eq!(
        a.swarm.send_bytes(&net, b_did(), vec![1]).err(),
        Some(Error::ConnectionNotFound(b_did().to_string()))
    );
    a.swarm.create_offer(&mut net, b_did()).unwrap();
    assert_eq!(a.swarm.send_bytes(&net, b_did(), vec![1]).err(), Some(Error::ChannelNotOpen));
    assert_eq!(
        a.swarm.create_offer(&mut net, b_did()).err(),
        Some(Error::ConnectionAlreadyExists(b_did().to_string()))
    );
    assert_eq!(
        a.swarm.answer_offer(&mut net, b_did(), "1".to_string()).err(),
        Some(Error::ConnectionAlreadyExists(b_did().to_string()))
    );
    assert_eq!(
        a.swarm.accept_answer(&mut net, c_did(), "1".to_string()).err(),
        Some(Error::ConnectionNotFound(c_did().to_string()))
    );
}

#[test]
fn nothing_is_sent_after_shutdown() {
    let mut net = DummyNet::new();
    let mut a = peer(a_did());
    let mut b = peer(c_did());
    connect(&mut net, &mut a, &mut b);
    let fragments = split(&[1, 2, 3], 5).unwrap();
    let half = rings_swarm::chunk::ChunkFragment { total: 2, ..fragments[0].clone() };
    let wrapped = wrap_fragment(half, c_did(), a_did(), 1, NOW, sig(), sig()).unwrap();
    let handled = a.swarm.on_message(&c_did().to_string(), &wrapped.encode().unwrap(), true, NOW);
    assert_eq!(handled, Ok(Handled { reassembled: None, delivered: false, disconnect: false, failure: None }));
    a.swarm.push_event(TransportEvent::Closed(c_did()));
    assert!(!a.swarm.canceled());
    a.swarm.shutdown();
    assert!(a.swarm.canceled());
    assert_eq!(a.swarm.poll_event(), None);
    assert_eq!(a.swarm.dht().successors(), vec![c_did()]);
    assert_eq!(a.swarm.send_bytes(&net, c_did(), vec![1]).err(), Some(Error::Canceled));
    assert_eq!(a.swarm.send_bytes(&net, b_did(), vec![1]).err(), Some(Error::Canceled));
    // the half that was buffered is gone: the other half completes nothing
    let rest = rings_swarm::chunk::ChunkFragment { chunk_id: 5, index: 1, total: 2, payload: vec![4] };
    let wrapped = wrap_fragment(rest, c_did(), a_did(), 2, NOW, sig(), sig()).unwrap();
    let handled = a.swarm.on_message(&c_did().to_string(), &wrapped.encode().unwrap(), true, NOW);
    assert_eq!(handled, Ok(Handled { reassembled: None, delivered: false, disconnect: false, failure: None }));
    assert!(b.swarm.send_bytes(&net, a_did(), vec![1]).is_ok());
}

#[test]
fn a_state_change_on_a_malformed_cid_is_passed_over() {
    let mut p = peer(a_did());
    let event = CallbackEvent::StateChange {
        cid: "nobody".to_string(),
        rand_id: "1".to_string(),
        state: WebrtcConnectionState::Connected,
    };
    assert_eq!(
        p.swarm.handle_callback(&event, true, NOW),
        Ok(Handled { reassembled: None, delivered: false, disconnect: false, failure: None })
    );
    assert_eq!(p.swarm.poll_event(), None);
    assert!(p.seen.lock().unwrap().events.is_empty());
}

#[test]
fn a_fragment_beyond_the_buffer_asks_for_disconnection() {
    let mut p = peer(a_did());
    let cid = b_did().to_string();
    let part = |chunk_id: u128, len: usize| {
        let f = rings_swarm::chunk::ChunkFragment {
            chunk_id,
            index: 0,
            total: 2,
            payload: vec![7; len],
        };
        wrap_fragment(f, b_did(), c_did(), 1, NOW, sig(), sig()).unwrap().encode().unwrap()
    };
    let quiet = Ok(Handled { reassembled: None, delivered: false, disconnect: false, failure: None });
    assert_eq!(p.swarm.on_message(&cid, &part(1, 8 * 1024 * 1024), true, NOW), quiet);
    assert_eq!(p.swarm.on_message(&cid, &part(2, 8 * 1024 * 1024), true, NOW), quiet);
    assert_eq!(
        p.swarm.on_message(&cid, &part(3, 1), true, NOW),
        Ok(Handled { reassembled: None, delivered: false, disconnect: true, failure: None })
    );
}

#[test]
fn the_event_queue_is_bounded() {
    let mut p = peer(a_did());
    for i in 0..1024u128 {
        assert!(p.swarm.push_event(TransportEvent::Connected(Did::new(7, i))));
    }
    assert!(!p.swarm.push_event(TransportEvent::Connected(b_did())));
    let (_, payload) = outbound(
        &PeerRing::new(b_did(), 3),
        &SessionSk::new(b_did(), NOW, 1000),
        b_did(),
        custom(b"hi"),
        1,
        NOW,
        sig(),
        sig(),
    )
    .unwrap();
    let bytes = payload.encode().unwrap();
    assert_eq!(p.swarm.on_message("cid", &bytes, true, NOW), Err(Error::ChannelFull));
    let change = CallbackEvent::StateChange {
        cid: b_did().to_string(),
        rand_id: "1".to_string(),
        state: WebrtcConnectionState::Connected,
    };
    assert_eq!(p.swarm.handle_callback(&change, true, NOW), Err(Error::ChannelFull));
    assert_eq!(p.seen.lock().unwrap().validated, 0);
    assert!(p.seen.lock().unwrap().events.is_empty());
    assert_eq!(p.swarm.poll_event(), Some(TransportEvent::Connected(Did::new(7, 0))));
    assert!(p.swarm.on_message("cid", &bytes, true, NOW).is_ok());
    assert!(!p.swarm.push_event(TransportEvent::Connected(b_did())));
}

#[test]
fn stale_fragments_are_dropped_on_request() {
    let mut p = peer(a_did());
    let cid = b_did().to_string();
    let part = |index: u16, at: u64| {
        let f = rings_swarm::chunk::ChunkFragment { chunk_id: 1, index, total: 2, payload: vec![index as u8] };
        wrap_fragment(f, b_did(), a_did(), 1, at, sig(), sig()).unwrap().encode().unwrap()
    };
    let quiet = Ok(Handled { reassembled: None, delivered: false, disconnect: false, failure: None });
    assert_eq!(p.swarm.on_message(&cid, &part(0, NOW), true, NOW), quiet);
    p.swarm.expire_reassemblies(NOW + 60_000);
    // the first half is still there: the second completes the envelope
    let done = p.swarm.on_message(&cid, &part(1, NOW), true, NOW + 60_000).unwrap();
    assert_eq!(done.reassembled, Some(vec![0, 1]));
    assert_eq!(p.swarm.on_message(&cid, &part(0, NOW), true, NOW), quiet);
    p.swarm.expire_reassemblies(NOW + 60_001);
    // the first half is gone: the second waits for it
    assert_eq!(p.swarm.on_message(&cid, &part(1, NOW), true, NOW + 60_001), quiet);
}

fn envelope_for(destination: Did, path: Vec<Did>, ttl_hops: u8) -> Vec<u8> {
    forwarded_by(path, destination, ttl_hops).encode().unwrap()
}

#[test]
fn a_looped_envelope_is_dropped_on_receipt() {
    let mut p = peer(a_did());
    let looped = envelope_for(Did::new(0x4242_4242, 42), vec![b_did(), a_did(), c_did()], 7);
    assert_eq!(p.swarm.on_message("cid", &looped, true, NOW), Err(Error::LoopDetected));
    assert_eq!(p.swarm.poll_event(), None);
    assert!(p.seen.lock().unwrap().inbound.is_empty());
    let frame = rings_swarm::transport::TransportMessage::Custom(looped).encode().unwrap();
    let event = CallbackEvent::Message { cid: b_did().to_string(), rand_id: "1".to_string(), data: frame };
    assert_eq!(p.swarm.handle_callback(&event, true, NOW), Err(Error::LoopDetected));
    assert_eq!(p.swarm.poll_event(), None);
    // an envelope for this node is not a loop, whoever it has passed
    let home = envelope_for(a_did(), vec![a_did()], 0);
    assert!(p.swarm.on_message("cid", &home, true, NOW).unwrap().delivered);
}

#[test]
fn an_envelope_out_of_hops_is_dropped_on_receipt() {
    let mut p = peer(a_did());
    for ttl in [0u8, 1] {
        let spent = envelope_for(c_did(), vec![b_did()], ttl);
        assert_eq!(p.swarm.on_message("cid", &spent, true, NOW), Err(Error::TtlExpired));
    }
    assert_eq!(p.swarm.poll_event(), None);
    let alive = envelope_for(c_did(), vec![b_did()], 2);
    assert_eq!(
        p.swarm.on_message("cid", &alive, true, NOW),
        Ok(Handled { reassembled: None, delivered: false, disconnect: false, failure: None })
    );
    assert_eq!(p.swarm.poll_event(), Some(TransportEvent::DataChannelMessage(alive)));
}

#[test]
fn forward_sends_on_what_is_for_another_node() {
    let mut net = DummyNet::new();
    let mut a = peer(a_did());
    let mut b = peer(b_did());
    connect(&mut net, &mut a, &mut b);
    let relay_sig = vec![0x77; 65];
    // for this node: nothing is sent on
    assert_eq!(a.swarm.forward(&net, &envelope_for(a_did(), vec![], 7), relay_sig.clone()).map(|d| d.is_none()), Ok(true));
    // been here before, out of hops, no bytes of an envelope
    assert_eq!(
        a.swarm.forward(&net, &envelope_for(b_did(), vec![a_did()], 7), relay_sig.clone()).err(),
        Some(Error::LoopDetected)
    );
    assert_eq!(
        a.swarm.forward(&net, &envelope_for(b_did(), vec![], 1), relay_sig.clone()).err(),
        Some(Error::TtlExpired)
    );
    assert_eq!(a.swarm.forward(&net, &[1, 2, 3], relay_sig.clone()).err(), Some(Error::MalformedEnvelope));
    // a relay signature of the wrong length cannot go on the wire
    assert_eq!(
        a.swarm.forward(&net, &envelope_for(b_did(), vec![], 7), vec![1; 64]).err(),
        Some(Error::MalformedEnvelope)
    );
    // on its way
    let sent = a.swarm.forward(&net, &envelope_for(b_did(), vec![], 7), relay_sig.clone()).unwrap().unwrap();
    let expected = forwarded_by(vec![], b_did(), 6);
    let expected = MessagePayload {
        relay: Relay { path: vec![RelayEntry { did: a_did(), signature: relay_sig.clone() }] },
        ..expected
    };
    let frame = rings_swarm::transport::TransportMessage::Custom(expected.encode().unwrap()).encode().unwrap();
    match sent.event {
        CallbackEvent::Message { cid, data, .. } => {
            assert_eq!(cid, a_did().to_string());
            assert_eq!(data, frame);
        }
        other => panic!("unexpected event {:?}", other),
    }
    // a lone node knows no next hop
    let lone = peer(c_did());
    assert_eq!(
        lone.swarm.forward(&net, &envelope_for(b_did(), vec![], 7), relay_sig).err(),
        Some(Error::RoutingUnreachable)
    );
}

#[test]
fn a_refusal_of_on_inbound_is_reported_and_processing_goes_on() {
    let seen = Arc::new(Mutex::new(Seen::default()));
    let mut inner = InnerSwarmCallback::new(
        a_did(),
        Box::new(Recorder { refuse_inbound: true, ..recorder(&seen) }),
    );
    let bytes = envelope_for(a_did(), vec![], 7);
    assert_eq!(
        inner.on_message("cid", &bytes, true, NOW),
        Ok(MessageOutcome {
            transport_event: TransportEvent::DataChannelMessage(bytes.clone()),
            reassembled: None,
            delivered: true,
            disconnect: false,
            failure: Some(Error::Callback("no room".to_string())),
        })
    );
    assert_eq!(seen.lock().unwrap().inbound.len(), 1);
    assert_eq!(seen.lock().unwrap().validated, 1);
}

#[test]
fn an_accepted_envelope_whose_body_is_no_message_still_reaches_the_event_loop() {
    let mut p = peer(a_did());
    let mut payload = forwarded_by(vec![], a_did(), 7);
    payload.transaction.body = vec![9, 9];
    let bytes = payload.encode().unwrap();
    assert_eq!(
        p.swarm.on_message("cid", &bytes, true, NOW),
        Ok(Handled {
            reassembled: None,
            delivered: false,
            disconnect: false,
            failure: Some(Error::MalformedEnvelope)
        })
    );
    assert_eq!(p.swarm.poll_event(), Some(TransportEvent::DataChannelMessage(bytes)));
    assert!(p.seen.lock().unwrap().inbound.is_empty());
}

#[test]
fn a_refusal_of_on_event_does_not_keep_the_change_from_the_ring() {
    let seen = Arc::new(Mutex::new(Seen::default()));
    let mut swarm = SwarmBuilder::new(
        ICE,
        PersistenceStorage::new_with_path("./tmp"),
        SessionSk::new(a_did(), NOW, DEFAULT_SESSION_TTL_MS),
    )
    .callback(Box::new(Recorder { refuse_event: true, ..recorder(&seen) }))
    .build();
    let change = |state| CallbackEvent::StateChange {
        cid: b_did().to_string(),
        rand_id: "1".to_string(),
        state,
    };
    let refused = Ok(Handled {
        reassembled: None,
        delivered: false,
        disconnect: false,
        failure: Some(Error::Callback("not now".to_string())),
    });
    assert_eq!(swarm.handle_callback(&change(WebrtcConnectionState::Connected), true, NOW), refused);
    assert_eq!(swarm.poll_event(), Some(TransportEvent::Connected(b_did())));
    assert_eq!(swarm.dht().successors(), vec![b_did()]);
    for state in [
        WebrtcConnectionState::Disconnected,
        WebrtcConnectionState::Failed,
        WebrtcConnectionState::Closed,
    ] {
        swarm.push_event(TransportEvent::Connected(b_did()));
        assert_eq!(swarm.handle_callback(&change(state), true, NOW), refused);
        assert_eq!(swarm.poll_event(), Some(TransportEvent::Connected(b_did())));
        assert_eq!(swarm.poll_event(), Some(TransportEvent::Closed(b_did())));
        assert!(swarm.dht().successors().is_empty());
    }
    assert_eq!(swarm.handle_callback(&change(WebrtcConnectionState::Connecting), true, NOW), refused);
    assert_eq!(swarm.poll_event(), None);
    assert_eq!(seen.lock().unwrap().events.len(), 5);
    let inner = InnerSwarmCallback::new(
        a_did(),
        Box::new(Recorder { refuse_event: true, ..recorder(&seen) }),
    );
    assert_eq!(
        inner.on_peer_connection_state_change(&b_did().to_string(), WebrtcConnectionState::Closed),
        StateChangeOutcome {
            transport_event: Some(TransportEvent::Closed(b_did())),
            told: Err(Error::Callback("not now".to_string()))
        }
    );
}

#[test]
fn a_swarm_without_callback_accepts_everything() {
    let mut swarm = SwarmBuilder::new(
        ICE,
        PersistenceStorage::new_with_path("./tmp"),
        SessionSk::new(a_did(), NOW, DEFAULT_SESSION_TTL_MS),
    )
    .build();
    let bytes = envelope_for(a_did(), vec![], 7);
    assert_eq!(
        swarm.on_message("cid", &bytes, true, NOW),
        Ok(Handled { reassembled: None, delivered: true, disconnect: false, failure: None })
    );
    let change = CallbackEvent::StateChange {
        cid: b_did().to_string(),
        rand_id: "1".to_string(),
        state: WebrtcConnectionState::Connected,
    };
    assert_eq!(
        swarm.handle_callback(&change, true, NOW),
        Ok(Handled { reassembled: None, delivered: false, disconnect: false, failure: None })
    );
    let mut inner = InnerSwarmCallback::with_callback(a_did(), None);
    assert!(inner.on_message("cid", &bytes, true, NOW).unwrap().delivered);
}

fn refusal(message: &str) -> Result<(), CallbackError> {
    Err(CallbackError { message: message.to_string() })
}

#[test]
fn answers_of_the_application() {
    assert_eq!(answer_of(Ok(())), Ok(()));
    assert_eq!(answer_of(refusal("no")), Err(Error::Callback("no".to_string())));
    let base = MessageOutcome {
        transport_event: TransportEvent::DataChannelMessage(vec![1]),
        reassembled: None,
        delivered: false,
        disconnect: false,
        failure: None,
    };
    assert_eq!(told_outcome(base.clone(), Ok(())), MessageOutcome { delivered: true, ..base.clone() });
    assert_eq!(
        told_outcome(base.clone(), refusal("no")),
        MessageOutcome { delivered: true, failure: Some(Error::Callback("no".to_string())), ..base }
    );
    let plan = state_change_plan(&b_did().to_string(), WebrtcConnectionState::Closed);
    assert_eq!(
        state_change_outcome(plan.clone(), Some(Ok(()))),
        StateChangeOutcome { transport_event: Some(TransportEvent::Closed(b_did())), told: Ok(()) }
    );
    assert_eq!(
        state_change_outcome(plan.clone(), Some(refusal("no"))),
        StateChangeOutcome {
            transport_event: Some(TransportEvent::Closed(b_did())),
            told: Err(Error::Callback("no".to_string()))
        }
    );
    assert_eq!(
        state_change_outcome(plan, None),
        StateChangeOutcome { transport_event: Some(TransportEvent::Closed(b_did())), told: Ok(()) }
    );
}

#[test]
fn after_validation_drops_what_the_application_refuses() {
    let seen = Arc::new(Mutex::new(Seen::default()));
    let mut inner = InnerSwarmCallback::new(a_did(), Box::new(recorder(&seen)));
    let payload = forwarded_by(vec![], a_did(), 7);
    let bytes = payload.encode().unwrap();
    assert_eq!(
        inner.after_validation(&payload, &bytes, refusal("not wanted"), NOW),
        Err(Error::Callback("not wanted".to_string()))
    );
    assert!(seen.lock().unwrap().inbound.is_empty());
    // a fragment that is refused is not buffered: the other half waits
    let halves = [0u16, 1].map(|index| {
        let f = rings_swarm::chunk::ChunkFragment { chunk_id: 8, index, total: 2, payload: vec![index as u8] };
        wrap_fragment(f, b_did(), a_did(), 1, NOW, sig(), sig()).unwrap()
    });
    let first = halves[0].encode().unwrap();
    assert!(inner.after_validation(&halves[0], &first, refusal("no"), NOW).is_err());
    let second = halves[1].encode().unwrap();
    assert_eq!(inner.after_validation(&halves[1], &second, Ok(()), NOW).unwrap().reassembled, None);
    assert_eq!(
        inner.after_validation(&halves[0], &first, Ok(()), NOW).unwrap().reassembled,
        Some(vec![0, 1])
    );
}

#[test]
fn after_validation_handles_what_the_application_accepts() {
    let seen = Arc::new(Mutex::new(Seen::default()));
    let mut inner = InnerSwarmCallback::new(a_did(), Box::new(recorder(&seen)));
    let payload = forwarded_by(vec![], a_did(), 7);
    let bytes = payload.encode().unwrap();
    assert_eq!(
        inner.after_validation(&payload, &bytes, Ok(()), NOW),
        Ok(MessageOutcome {
            transport_event: TransportEvent::DataChannelMessage(bytes.clone()),
            reassembled: None,
            delivered: true,
            disconnect: false,
            failure: None,
        })
    );
    assert_eq!(seen.lock().unwrap().inbound, vec![payload]);
    // the application is not asked again
    assert_eq!(seen.lock().unwrap().validated, 0);
    let looped = forwarded_by(vec![a_did()], c_did(), 7);
    let looped_bytes = looped.encode().unwrap();
    assert_eq!(inner.after_validation(&looped, &looped_bytes, Ok(()), NOW), Err(Error::LoopDetected));
    assert_eq!(
        inner.after_validation(&looped, &looped_bytes, refusal("no"), NOW),
        Err(Error::Callback("no".to_string()))
    );
}

#[test]
fn swarm_after_validation() {
    let mut p = peer(a_did());
    let payload = forwarded_by(vec![], a_did(), 7);
    let bytes = payload.encode().unwrap();
    assert_eq!(
        p.swarm.after_validation(&payload, &bytes, refusal("not wanted"), NOW),
        Err(Error::Callback("not wanted".to_string()))
    );
    assert_eq!(p.swarm.poll_event(), None);
    assert_eq!(
        p.swarm.after_validation(&payload, &bytes, Ok(()), NOW),
        Ok(Handled { reassembled: None, delivered: true, disconnect: false, failure: None })
    );
    assert_eq!(p.swarm.poll_event(), Some(TransportEvent::DataChannelMessage(bytes.clone())));
    for i in 0..1024u128 {
        assert!(p.swarm.push_event(TransportEvent::Connected(Did::new(7, i))));
    }
    assert_eq!(p.swarm.after_validation(&payload, &bytes, Ok(()), NOW), Err(Error::ChannelFull));
    assert_eq!(p.swarm.after_validation(&payload, &bytes, refusal("no"), NOW), Err(Error::ChannelFull));
    assert_eq!(p.seen.lock().unwrap().inbound.len(), 1);
}

#[test]
fn a_refusal_of_on_validate_drops_the_message_at_the_swarm() {
    let seen = Arc::new(Mutex::new(Seen::default()));
    let mut swarm = SwarmBuilder::new(
        ICE,
        PersistenceStorage::new_with_path("./tmp"),
        SessionSk::new(a_did(), NOW, DEFAULT_SESSION_TTL_MS),
    )
    .callback(Box::new(Recorder { refuse: true, ..recorder(&seen) }))
    .build();
    let bytes = envelope_for(a_did(), vec![], 7);
    assert_eq!(
        swarm.on_message("cid", &bytes, true, NOW),
        Err(Error::Callback("not wanted".to_string()))
    );
    assert_eq!(swarm.poll_event(), None);
    assert_eq!(seen.lock().unwrap().validated, 1);
    assert!(seen.lock().unwrap().inbound.is_empty());
}

#[test]
fn a_change_without_event_does_not_wait_for_the_queue() {
    let mut p = peer(a_did());
    for i in 0..1024u128 {
        assert!(p.swarm.push_event(TransportEvent::Connected(Did::new(7, i))));
    }
    let change = |cid: String, state| CallbackEvent::StateChange {
        cid,
        rand_id: "1".to_string(),
        state,
    };
    let quiet = Ok(Handled { reassembled: None, delivered: false, disconnect: false, failure: None });
    for state in [
        WebrtcConnectionState::Unspecified,
        WebrtcConnectionState::New,
        WebrtcConnectionState::Connecting,
    ] {
        assert_eq!(p.swarm.handle_callback(&change(b_did().to_string(), state), true, NOW), quiet);
    }
    assert_eq!(p.seen.lock().unwrap().events.len(), 3);
    assert_eq!(
        p.swarm.handle_callback(&change("nobody".to_string(), WebrtcConnectionState::Closed), true, NOW),
        quiet
    );
    for state in [
        WebrtcConnectionState::Connected,
        WebrtcConnectionState::Disconnected,
        WebrtcConnectionState::Failed,
        WebrtcConnectionState::Closed,
    ] {
        assert_eq!(
            p.swarm.handle_callback(&change(b_did().to_string(), state), true, NOW),
            Err(Error::ChannelFull)
        );
    }
    assert_eq!(p.seen.lock().unwrap().events.len(), 3);
}
