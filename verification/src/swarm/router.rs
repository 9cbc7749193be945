//! The rules by which a node sends an envelope of its own and forwards or
//! delivers one that it has received.

use vstd::prelude::*;
use crate::chunk::{ChunkFragment, FragmentView, TRANSPORT_MTU};
use crate::did::Did;
use crate::error::Error;
use crate::message::{
    message_bytes, path_view, payload_bytes, wire_ok, Message, MessagePayload, MessageView,
    PayloadView, Relay, RelayEntry, RelayEntryView, Transaction, TransactionView,
    DEFAULT_TTL_HOPS,
};
use crate::ring::{find_successor_spec, FindResult, PeerRing, RingView};
use crate::session::{expired_at, SessionSk};
use crate::transport::message_frame;

verus! {

/// What is to be done with a received envelope.
#[derive(Clone, Debug, PartialEq, Eq)]
pub enum Routing {
    /// This node is the destination.
    Deliver,
    /// The envelope, with this node on its relay path and one hop less to
    /// go, is to be sent to `next_hop`.
    Forward { next_hop: Did, payload: MessagePayload },
}

/// Where an envelope of this node's own goes first.
#[derive(Clone, Copy, Debug, PartialEq, Eq, Structural)]
pub enum NextHop {
    /// The destination is this node.
    Local,
    /// The named peer.
    Remote(Did),
}

/// The relay path names `d`.
pub open spec fn path_holds(path: Seq<RelayEntryView>, d: Did) -> bool {
    exists|i: int| 0 <= i < path.len() && (#[trigger] path[i]).did == d
}

/// The peer to which an envelope for `destination` is sent next, where the
/// ring table names one.
pub open spec fn next_hop_of(r: RingView, destination: Did) -> Option<Did> {
    match find_successor_spec(r, destination) {
        FindResult::Peer(d) => Some(d),
        FindResult::Forward(d) => Some(d),
        FindResult::SelfNode => None,
    }
}

/// Why a node drops an envelope as soon as it has received it, if it
/// does: the envelope is for another node, and this node is on its relay
/// path already, or its hops run out here.
pub open spec fn relay_refusal(local: Did, p: PayloadView) -> Option<Error> {
    if p.transaction.destination == local {
        None
    } else if path_holds(p.path, local) {
        Some(Error::LoopDetected)
    } else if p.transaction.ttl_hops <= 1 {
        Some(Error::TtlExpired)
    } else {
        None
    }
}

/// Why an envelope for another node is dropped, if it is: a node that is
/// on its relay path already drops it; so does one at which its hops run
/// out, and one that knows no next hop.
pub open spec fn forward_refusal(r: RingView, p: PayloadView) -> Option<Error> {
    if path_holds(p.path, r.local) {
        Some(Error::LoopDetected)
    } else if p.transaction.ttl_hops <= 1 {
        Some(Error::TtlExpired)
    } else if next_hop_of(r, p.transaction.destination) is None {
        Some(Error::RoutingUnreachable)
    } else {
        None
    }
}

/// The envelope as node `local` forwards it: `local` is last on the relay
/// path, with `signature`, and one hop is used up.
pub open spec fn forwarded(p: PayloadView, local: Did, signature: Seq<u8>) -> PayloadView {
    PayloadView {
        transaction: TransactionView {
            origin: p.transaction.origin,
            destination: p.transaction.destination,
            nonce: p.transaction.nonce,
            timestamp_ms: p.transaction.timestamp_ms,
            ttl_hops: (p.transaction.ttl_hops - 1) as u8,
            body: p.transaction.body,
            signature: p.transaction.signature,
        },
        path: p.path.push(RelayEntryView { did: local, signature }),
        signature: p.signature,
    }
}

/// An envelope that names every node of a set on its relay path, and is
/// for none of them, is dropped by each of them as a loop, whatever its
/// ring table holds.
pub proof fn lemma_loop_dropped_by_every_node(nodes: Set<Did>, p: PayloadView, r: RingView)
    requires
        nodes.contains(r.local),
        !nodes.contains(p.transaction.destination),
        forall|n: Did| nodes.contains(n) ==> path_holds(p.path, n),
    ensures
        p.transaction.destination != r.local,
        relay_refusal(r.local, p) == Some(Error::LoopDetected),
        forward_refusal(r, p) == Some(Error::LoopDetected),
{
}

/// Says why node `local` drops a received envelope at once, if it does.
pub fn check_relay(local: Did, payload: &MessagePayload) -> (r: Option<Error>)
    ensures
        r == relay_refusal(local, payload@),
{
    if payload.transaction.destination == local {
        None
    } else if on_path(&payload.relay.path, local) {
        Some(Error::LoopDetected)
    } else if payload.transaction.ttl_hops <= 1 {
        Some(Error::TtlExpired)
    } else {
        None
    }
}

/// The envelope after each of `hops` has forwarded it in turn, each with
/// its signature.
pub open spec fn forwarded_through(p: PayloadView, hops: Seq<(Did, Seq<u8>)>) -> PayloadView
    decreases hops.len(),
{
    if hops.len() == 0 {
        p
    } else {
        forwarded(forwarded_through(p, hops.drop_last()), hops.last().0, hops.last().1)
    }
}

/// An envelope that has passed `k` forwarders names each of them on its
/// relay path, in order and with the signature it gave, after whoever was
/// there before; and it has `k` hops less to go.
pub proof fn lemma_relay_path_records_forwarders(p: PayloadView, hops: Seq<(Did, Seq<u8>)>)
    requires
        hops.len() < p.transaction.ttl_hops,
    ensures
        forwarded_through(p, hops).path == p.path + hops.map_values(
            |h: (Did, Seq<u8>)| RelayEntryView { did: h.0, signature: h.1 },
        ),
        forwarded_through(p, hops).transaction.ttl_hops == p.transaction.ttl_hops - hops.len(),
        forwarded_through(p, hops).transaction.body == p.transaction.body,
        forwarded_through(p, hops).transaction.signature == p.transaction.signature,
        forwarded_through(p, hops).transaction.origin == p.transaction.origin,
        forwarded_through(p, hops).transaction.destination == p.transaction.destination,
    decreases hops.len(),
{
    if hops.len() > 0 {
        lemma_relay_path_records_forwarders(p, hops.drop_last());
        let entries = hops.map_values(
            |h: (Did, Seq<u8>)| RelayEntryView { did: h.0, signature: h.1 },
        );
        let before = hops.drop_last().map_values(
            |h: (Did, Seq<u8>)| RelayEntryView { did: h.0, signature: h.1 },
        );
        assert(entries =~= before.push(
            RelayEntryView { did: hops.last().0, signature: hops.last().1 },
        ));
        assert(forwarded_through(p, hops).path =~= p.path + entries);
    } else {
        assert(p.path + hops.map_values(
            |h: (Did, Seq<u8>)| RelayEntryView { did: h.0, signature: h.1 },
        ) =~= p.path);
    }
}

pub(crate) fn on_path(path: &Vec<RelayEntry>, d: Did) -> (b: bool)
    ensures
        b == path_holds(path_view(path@), d),
{
    let mut i: usize = 0;
    while i < path.len()
        invariant
            i <= path@.len(),
            forall|j: int| 0 <= j < i ==> (#[trigger] path_view(path@)[j]).did != d,
        decreases path@.len() - i,
    {
        if path[i].did == d {
            assert(path_view(path@)[i as int].did == d);
            return true;
        }
        i = i + 1;
    }
    false
}

/// Decides what node `ring` does with a verified envelope.
/// `relay_signature` is this node's signature for the relay path.
pub fn route(ring: &PeerRing, payload: MessagePayload, relay_signature: Vec<u8>) -> (r: Result<
    Routing,
    Error,
>)
    requires
        ring.wf(),
    ensures
        payload@.transaction.destination == ring@.local ==> r == Ok::<Routing, Error>(
            Routing::Deliver,
        ),
        payload@.transaction.destination != ring@.local ==> match forward_refusal(
            ring@,
            payload@,
        ) {
            Some(e) => r == Err::<Routing, Error>(e),
            None => r matches Ok(Routing::Forward { next_hop, payload: sent }) && Some(next_hop)
                == next_hop_of(ring@, payload@.transaction.destination) && sent@ == forwarded(
                payload@,
                ring@.local,
                relay_signature@,
            ),
        },
{
    let local = ring.did();
    if payload.transaction.destination == local {
        return Ok(Routing::Deliver);
    }
    if on_path(&payload.relay.path, local) {
        return Err(Error::LoopDetected);
    }
    if payload.transaction.ttl_hops <= 1 {
        return Err(Error::TtlExpired);
    }
    let next_hop = match ring.find_successor(payload.transaction.destination) {
        FindResult::Peer(d) => d,
        FindResult::Forward(d) => d,
        FindResult::SelfNode => {
            return Err(Error::RoutingUnreachable);
        },
    };
    let ghost before = payload@;
    let MessagePayload { transaction, relay, signature } = payload;
    let Transaction { origin, destination, nonce, timestamp_ms, ttl_hops, body, signature: seal } =
        transaction;
    let mut path = relay.path;
    let ghost old_path = path@;
    path.push(RelayEntry { did: local, signature: relay_signature });
    assert(path_view(path@) =~= path_view(old_path).push(
        RelayEntryView { did: local, signature: relay_signature@ },
    ));
    let sent = MessagePayload {
        transaction: Transaction {
            origin,
            destination,
            nonce,
            timestamp_ms,
            ttl_hops: ttl_hops - 1,
            body,
            signature: seal,
        },
        relay: Relay { path },
        signature,
    };
    Ok(Routing::Forward { next_hop, payload: sent })
}

/// A new envelope from `origin`: the full hop budget, and nobody on the
/// relay path.
pub open spec fn fresh_payload(
    origin: Did,
    destination: Did,
    nonce: u64,
    now_ms: u64,
    body: Seq<u8>,
    transaction_signature: Seq<u8>,
    signature: Seq<u8>,
) -> PayloadView {
    PayloadView {
        transaction: TransactionView {
            origin,
            destination,
            nonce,
            timestamp_ms: now_ms,
            ttl_hops: 7,
            body,
            signature: transaction_signature,
        },
        path: Seq::empty(),
        signature,
    }
}

/// Why an envelope of this node's own cannot be sent, if it cannot: its
/// session has expired, or no next hop is known.
pub open spec fn send_refusal(
    r: RingView,
    created_ms: u64,
    ttl_ms: u64,
    destination: Did,
    now_ms: u64,
) -> Option<Error> {
    if expired_at(created_ms, ttl_ms, now_ms) {
        Some(Error::VerificationFailed)
    } else if destination != r.local && next_hop_of(r, destination) is None {
        Some(Error::RoutingUnreachable)
    } else {
        None
    }
}

/// Builds an envelope of this node's own and says where it goes first.
/// The two signatures are the session's, over the transaction and over
/// the envelope.
pub fn outbound(
    ring: &PeerRing,
    session: &SessionSk,
    destination: Did,
    body: Vec<u8>,
    nonce: u64,
    now_ms: u64,
    transaction_signature: Vec<u8>,
    signature: Vec<u8>,
) -> (r: Result<(NextHop, MessagePayload), Error>)
    requires
        ring.wf(),
    ensures
        match send_refusal(ring@, session.created(), session.ttl(), destination, now_ms) {
            Some(e) => r == Err::<(NextHop, MessagePayload), Error>(e),
            None => r matches Ok((hop, payload)) && payload@ == fresh_payload(
                ring@.local,
                destination,
                nonce,
                now_ms,
                body@,
                transaction_signature@,
                signature@,
            ) && hop == (if destination == ring@.local {
                NextHop::Local
            } else {
                NextHop::Remote(next_hop_of(ring@, destination).unwrap())
            }),
        },
{
    if session.is_expired(now_ms) {
        return Err(Error::VerificationFailed);
    }
    let hop = if destination == ring.did() {
        NextHop::Local
    } else {
        match ring.find_successor(destination) {
            FindResult::Peer(d) => NextHop::Remote(d),
            FindResult::Forward(d) => NextHop::Remote(d),
            FindResult::SelfNode => {
                return Err(Error::RoutingUnreachable);
            },
        }
    };
    let payload = MessagePayload {
        transaction: Transaction {
            origin: ring.did(),
            destination,
            nonce,
            timestamp_ms: now_ms,
            ttl_hops: DEFAULT_TTL_HOPS,
            body,
            signature: transaction_signature,
        },
        relay: Relay { path: Vec::new() },
        signature,
    };
    assert(payload@.path =~= Seq::<RelayEntryView>::empty());
    Ok((hop, payload))
}

/// Whether envelope bytes of this length have to be sent in fragments:
/// their frame would exceed the MTU.
pub fn needs_chunking(len: usize) -> (b: bool)
    ensures
        b == (len + 8 > 65536),
{
    len > TRANSPORT_MTU - 8
}

/// The envelope in which one fragment travels.
pub open spec fn fragment_payload_view(
    f: FragmentView,
    origin: Did,
    destination: Did,
    nonce: u64,
    now_ms: u64,
    transaction_signature: Seq<u8>,
    signature: Seq<u8>,
) -> PayloadView {
    fresh_payload(
        origin,
        destination,
        nonce,
        now_ms,
        message_bytes(MessageView::Chunk(f)),
        transaction_signature,
        signature,
    )
}

/// Wraps one fragment in an envelope of its own. Fails with
/// `MalformedEnvelope` exactly when the fragment is too long for its
/// length field.
pub fn wrap_fragment(
    fragment: ChunkFragment,
    origin: Did,
    destination: Did,
    nonce: u64,
    now_ms: u64,
    transaction_signature: Vec<u8>,
    signature: Vec<u8>,
) -> (r: Result<MessagePayload, Error>)
    ensures
        match r {
            Ok(p) => fragment@.payload.len() <= u32::MAX && p@ == fragment_payload_view(
                fragment@,
                origin,
                destination,
                nonce,
                now_ms,
                transaction_signature@,
                signature@,
            ),
            Err(e) => fragment@.payload.len() > u32::MAX && e == Error::MalformedEnvelope,
        },
{
    let body = match Message::Chunk(fragment).encode() {
        Ok(body) => body,
        Err(e) => {
            return Err(e);
        },
    };
    let payload = MessagePayload {
        transaction: Transaction {
            origin,
            destination,
            nonce,
            timestamp_ms: now_ms,
            ttl_hops: DEFAULT_TTL_HOPS,
            body,
            signature: transaction_signature,
        },
        relay: Relay { path: Vec::new() },
        signature,
    };
    assert(payload@.path =~= Seq::<RelayEntryView>::empty());
    Ok(payload)
}

/// The frame of a fragment's envelope fits the MTU, also after seven
/// forwarders have put themselves on its relay path.
pub proof fn lemma_fragment_frame_fits(p: PayloadView, f: FragmentView)
    requires
        wire_ok(p),
        p.transaction.body == message_bytes(MessageView::Chunk(f)),
        f.payload.len() <= 64713,
        p.path.len() <= 7,
    ensures
        message_frame(payload_bytes(p)).len() <= 65536,
{
    crate::message::lemma_path_bytes(p.path);
    crate::did::lemma_did_bytes_round_trip(p.transaction.origin);
    crate::did::lemma_did_bytes_round_trip(p.transaction.destination);
    vstd::bytes::lemma_auto_spec_u16_to_from_le_bytes();
    vstd::bytes::lemma_auto_spec_u32_to_from_le_bytes();
    vstd::bytes::lemma_auto_spec_u64_to_from_le_bytes();
    vstd::bytes::lemma_auto_spec_u128_to_from_le_bytes();
}


/// Every fragment of a payload travels in a frame that fits the MTU: the
/// envelope that `wrap_fragment` makes for it, under signatures of the
/// wire's length, is no longer than the MTU allows, framing included.
pub proof fn lemma_fragment_envelopes_fit(
    data: Seq<u8>,
    chunk_id: u128,
    i: int,
    origin: Did,
    destination: Did,
    nonce: u64,
    now_ms: u64,
    transaction_signature: Seq<u8>,
    signature: Seq<u8>,
)
    requires
        crate::chunk::fragment_count(data.len()) <= 65535,
        0 <= i < crate::chunk::fragment_count(data.len()),
        transaction_signature.len() == 65,
        signature.len() == 65,
    ensures
        wire_ok(
            fragment_payload_view(
                crate::chunk::split_fragments(data, chunk_id)[i],
                origin,
                destination,
                nonce,
                now_ms,
                transaction_signature,
                signature,
            ),
        ),
        message_frame(
            payload_bytes(
                fragment_payload_view(
                    crate::chunk::split_fragments(data, chunk_id)[i],
                    origin,
                    destination,
                    nonce,
                    now_ms,
                    transaction_signature,
                    signature,
                ),
            ),
        ).len() <= 65536,
{
    let f = crate::chunk::split_fragments(data, chunk_id)[i];
    crate::chunk::lemma_fragment_sizes(data, chunk_id, i);
    let p = fragment_payload_view(
        f,
        origin,
        destination,
        nonce,
        now_ms,
        transaction_signature,
        signature,
    );
    vstd::bytes::lemma_auto_spec_u16_to_from_le_bytes();
    vstd::bytes::lemma_auto_spec_u32_to_from_le_bytes();
    vstd::bytes::lemma_auto_spec_u128_to_from_le_bytes();
    assert(p.transaction.body.len() == 25 + f.payload.len());
    assert(wire_ok(p));
    lemma_fragment_frame_fits(p, f);
}

} // verus!
