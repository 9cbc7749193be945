//! The envelope that travels from peer to peer, its wire format, and the
//! messages that its body holds.

use vstd::prelude::*;
use vstd::bytes::*;
use vstd::slice::slice_subrange;
use crate::chunk::{fragment_bytes, parse_fragment, ChunkFragment, FragmentView};
use crate::did::{did_bytes, lemma_did_bytes_round_trip, parse_did_bytes, Did};
use crate::error::Error;
use crate::wire::{copy_range, put_bytes, put_u32, put_u64, read_u32, read_u64};

verus! {

/// The length of a signature on the wire.
pub const SIGNATURE_LEN: usize = 65;

/// The hop budget of a new envelope.
pub const DEFAULT_TTL_HOPS: u8 = 7;

/// What an envelope carries from its origin to its destination.
#[derive(Clone, Debug, PartialEq, Eq)]
pub struct Transaction {
    pub origin: Did,
    pub destination: Did,
    pub nonce: u64,
    pub timestamp_ms: u64,
    pub ttl_hops: u8,
    pub body: Vec<u8>,
    pub signature: Vec<u8>,
}

/// One forwarder of an envelope, with its signature.
#[derive(Clone, Debug, PartialEq, Eq)]
pub struct RelayEntry {
    pub did: Did,
    pub signature: Vec<u8>,
}

/// The forwarders of an envelope, in the order in which it passed them.
#[derive(Clone, Debug, PartialEq, Eq)]
pub struct Relay {
    pub path: Vec<RelayEntry>,
}

/// The envelope.
#[derive(Clone, Debug, PartialEq, Eq)]
pub struct MessagePayload {
    pub transaction: Transaction,
    pub relay: Relay,
    pub signature: Vec<u8>,
}

pub struct TransactionView {
    pub origin: Did,
    pub destination: Did,
    pub nonce: u64,
    pub timestamp_ms: u64,
    pub ttl_hops: u8,
    pub body: Seq<u8>,
    pub signature: Seq<u8>,
}

pub struct RelayEntryView {
    pub did: Did,
    pub signature: Seq<u8>,
}

/// An envelope as a mathematical value.
pub struct PayloadView {
    pub transaction: TransactionView,
    pub path: Seq<RelayEntryView>,
    pub signature: Seq<u8>,
}

impl View for Transaction {
    type V = TransactionView;

    open spec fn view(&self) -> TransactionView {
        TransactionView {
            origin: self.origin,
            destination: self.destination,
            nonce: self.nonce,
            timestamp_ms: self.timestamp_ms,
            ttl_hops: self.ttl_hops,
            body: self.body@,
            signature: self.signature@,
        }
    }
}

impl View for RelayEntry {
    type V = RelayEntryView;

    open spec fn view(&self) -> RelayEntryView {
        RelayEntryView { did: self.did, signature: self.signature@ }
    }
}

/// The entries of a path, as mathematical values.
pub open spec fn path_view(path: Seq<RelayEntry>) -> Seq<RelayEntryView> {
    path.map_values(|e: RelayEntry| e@)
}

impl View for MessagePayload {
    type V = PayloadView;

    open spec fn view(&self) -> PayloadView {
        PayloadView {
            transaction: self.transaction@,
            path: path_view(self.relay.path@),
            signature: self.signature@,
        }
    }
}

/// The envelope fits the wire format: every signature has 65 bytes, and
/// the body and the path are within their 32-bit length fields.
pub open spec fn wire_ok(p: PayloadView) -> bool {
    &&& p.transaction.body.len() <= u32::MAX
    &&& p.transaction.signature.len() == 65
    &&& p.path.len() <= u32::MAX
    &&& forall|i: int| 0 <= i < p.path.len() ==> (#[trigger] p.path[i]).signature.len() == 65
    &&& p.signature.len() == 65
}

/// The wire bytes of a transaction.
pub open spec fn transaction_bytes(t: TransactionView) -> Seq<u8> {
    did_bytes(t.origin) + did_bytes(t.destination) + spec_u64_to_le_bytes(t.nonce)
        + spec_u64_to_le_bytes(t.timestamp_ms) + seq![t.ttl_hops] + spec_u32_to_le_bytes(
        t.body.len() as u32,
    ) + t.body + t.signature
}

/// The wire bytes of one relay entry.
pub open spec fn entry_bytes(e: RelayEntryView) -> Seq<u8> {
    did_bytes(e.did) + e.signature
}

/// The wire bytes of the entries of a path, one after the other.
pub open spec fn path_bytes(path: Seq<RelayEntryView>) -> Seq<u8>
    decreases path.len(),
{
    if path.len() == 0 {
        Seq::empty()
    } else {
        path_bytes(path.drop_last()) + entry_bytes(path.last())
    }
}

/// The wire bytes of an envelope.
pub open spec fn payload_bytes(p: PayloadView) -> Seq<u8> {
    transaction_bytes(p.transaction) + spec_u32_to_le_bytes(p.path.len() as u32) + path_bytes(
        p.path,
    ) + p.signature
}

/// The relay entry that starts at `at`.
pub open spec fn parse_entry(b: Seq<u8>, at: int) -> RelayEntryView {
    RelayEntryView {
        did: parse_did_bytes(b.subrange(at, at + 20)),
        signature: b.subrange(at + 20, at + 85),
    }
}

/// The envelope that wire bytes hold, if they are one: the length fields
/// must account for every byte.
pub open spec fn parse_payload(b: Seq<u8>) -> Option<PayloadView> {
    if b.len() < 61 {
        None
    } else {
        let body_len = spec_u32_from_le_bytes(b.subrange(57, 61)) as int;
        if b.len() < 61 + body_len + 65 + 4 {
            None
        } else {
            let relay_at = 61 + body_len + 65;
            let count = spec_u32_from_le_bytes(b.subrange(relay_at, relay_at + 4)) as int;
            if b.len() != relay_at + 4 + 85 * count + 65 {
                None
            } else {
                Some(
                    PayloadView {
                        transaction: TransactionView {
                            origin: parse_did_bytes(b.subrange(0, 20)),
                            destination: parse_did_bytes(b.subrange(20, 40)),
                            nonce: spec_u64_from_le_bytes(b.subrange(40, 48)),
                            timestamp_ms: spec_u64_from_le_bytes(b.subrange(48, 56)),
                            ttl_hops: b[56],
                            body: b.subrange(61, 61 + body_len),
                            signature: b.subrange(61 + body_len, relay_at),
                        },
                        path: Seq::new(
                            count as nat,
                            |i: int| parse_entry(b, relay_at + 4 + 85 * i),
                        ),
                        signature: b.subrange(b.len() - 65, b.len() as int),
                    },
                )
            }
        }
    }
}

/// The bytes of a path of well-formed entries: 85 for each entry, entry
/// `i` at `85 * i`.
pub proof fn lemma_path_bytes(path: Seq<RelayEntryView>)
    requires
        forall|i: int| 0 <= i < path.len() ==> (#[trigger] path[i]).signature.len() == 65,
    ensures
        path_bytes(path).len() == 85 * path.len(),
        forall|i: int|
            0 <= i < path.len() ==> #[trigger] path_bytes(path).subrange(85 * i, 85 * i + 85)
                == entry_bytes(path[i]),
    decreases path.len(),
{
    if path.len() > 0 {
        let init = path.drop_last();
        lemma_path_bytes(init);
        lemma_did_bytes_round_trip(path.last().did);
        assert(entry_bytes(path.last()).len() == 85);
        let whole = path_bytes(path);
        assert forall|i: int| 0 <= i < path.len() implies #[trigger] whole.subrange(
            85 * i,
            85 * i + 85,
        ) == entry_bytes(path[i]) by {
            if i < init.len() {
                assert(whole.subrange(85 * i, 85 * i + 85) =~= path_bytes(init).subrange(
                    85 * i,
                    85 * i + 85,
                ));
                assert(init[i] == path[i]);
            } else {
                assert(whole.subrange(85 * i, 85 * i + 85) =~= entry_bytes(path.last()));
            }
        }
    }
}

/// The wire bytes of an envelope are 195 more than its body, and 85 more
/// for each entry of its relay path.
pub proof fn lemma_payload_bytes_len(p: PayloadView)
    requires
        wire_ok(p),
    ensures
        payload_bytes(p).len() == 195 + p.transaction.body.len() + 85 * p.path.len(),
{
    lemma_auto_spec_u32_to_from_le_bytes();
    lemma_auto_spec_u64_to_from_le_bytes();
    lemma_did_bytes_round_trip(p.transaction.origin);
    lemma_did_bytes_round_trip(p.transaction.destination);
    lemma_path_bytes(p.path);
}

/// Parsing the wire bytes of an envelope gives the envelope back.
pub proof fn lemma_payload_round_trip(p: PayloadView)
    requires
        wire_ok(p),
    ensures
        parse_payload(payload_bytes(p)) == Some(p),
{
    lemma_auto_spec_u32_to_from_le_bytes();
    lemma_auto_spec_u64_to_from_le_bytes();
    lemma_did_bytes_round_trip(p.transaction.origin);
    lemma_did_bytes_round_trip(p.transaction.destination);
    lemma_path_bytes(p.path);
    let t = p.transaction;
    let b = payload_bytes(p);
    let tb = transaction_bytes(t);
    let body_len = t.body.len() as int;
    let relay_at = 61 + body_len + 65;
    let count = p.path.len() as int;
    assert(tb.len() == relay_at);
    assert(b.len() == relay_at + 4 + 85 * count + 65);
    assert(b.subrange(0, 20) =~= did_bytes(t.origin));
    assert(b.subrange(20, 40) =~= did_bytes(t.destination));
    assert(b.subrange(40, 48) =~= spec_u64_to_le_bytes(t.nonce));
    assert(b.subrange(48, 56) =~= spec_u64_to_le_bytes(t.timestamp_ms));
    assert(b[56] == t.ttl_hops);
    assert(b.subrange(57, 61) =~= spec_u32_to_le_bytes(body_len as u32));
    assert(b.subrange(61, 61 + body_len) =~= t.body);
    assert(b.subrange(61 + body_len, relay_at) =~= t.signature);
    assert(b.subrange(relay_at, relay_at + 4) =~= spec_u32_to_le_bytes(count as u32));
    assert(b.subrange(b.len() - 65, b.len() as int) =~= p.signature);
    let parsed = parse_payload(b).unwrap();
    assert(parsed.path =~= p.path) by {
        assert forall|i: int| 0 <= i < count implies parsed.path[i] == p.path[i] by {
            let at = relay_at + 4 + 85 * i;
            let e = p.path[i];
            assert(b.subrange(at, at + 85) =~= path_bytes(p.path).subrange(85 * i, 85 * i + 85));
            assert(b.subrange(at, at + 85) == entry_bytes(e));
            lemma_did_bytes_round_trip(e.did);
            assert(b.subrange(at, at + 20) =~= b.subrange(at, at + 85).subrange(0, 20));
            assert(b.subrange(at + 20, at + 85) =~= b.subrange(at, at + 85).subrange(20, 85));
            assert(entry_bytes(e).subrange(0, 20) =~= did_bytes(e.did));
            assert(entry_bytes(e).subrange(20, 85) =~= e.signature);
        }
    }
}

impl MessagePayload {
    /// The envelope fits the wire format.
    pub fn is_wire_ok(&self) -> (b: bool)
        ensures
            b == wire_ok(self@),
    {
        if self.transaction.body.len() > u32::MAX as usize || self.transaction.signature.len()
            != SIGNATURE_LEN || self.relay.path.len() > u32::MAX as usize || self.signature.len()
            != SIGNATURE_LEN {
            return false;
        }
        let mut i: usize = 0;
        while i < self.relay.path.len()
            invariant
                i <= self.relay.path@.len(),
                forall|j: int|
                    0 <= j < i ==> (#[trigger] path_view(self.relay.path@)[j]).signature.len()
                        == 65,
            decreases self.relay.path@.len() - i,
        {
            if self.relay.path[i].signature.len() != SIGNATURE_LEN {
                assert(path_view(self.relay.path@)[i as int].signature.len() != 65);
                return false;
            }
            i = i + 1;
        }
        true
    }

    /// The wire bytes of the envelope. Fails with `MalformedEnvelope`
    /// exactly when the envelope does not fit the wire format.
    pub fn encode(&self) -> (r: Result<Vec<u8>, Error>)
        ensures
            match r {
                Ok(bytes) => wire_ok(self@) && bytes@ == payload_bytes(self@),
                Err(e) => !wire_ok(self@) && e == Error::MalformedEnvelope,
            },
    {
        if !self.is_wire_ok() {
            return Err(Error::MalformedEnvelope);
        }
        let t = &self.transaction;
        let mut out = t.origin.to_bytes();
        let dest = t.destination.to_bytes();
        put_bytes(&mut out, dest.as_slice());
        put_u64(&mut out, t.nonce);
        put_u64(&mut out, t.timestamp_ms);
        out.push(t.ttl_hops);
        put_u32(&mut out, t.body.len() as u32);
        put_bytes(&mut out, t.body.as_slice());
        put_bytes(&mut out, t.signature.as_slice());
        assert(out@ =~= transaction_bytes(self.transaction@));
        put_u32(&mut out, self.relay.path.len() as u32);
        let ghost head = out@;
        let ghost path = path_view(self.relay.path@);
        let mut i: usize = 0;
        assert(path.take(0) =~= Seq::<RelayEntryView>::empty());
        while i < self.relay.path.len()
            invariant
                i <= self.relay.path@.len(),
                path == path_view(self.relay.path@),
                out@ == head + path_bytes(path.take(i as int)),
            decreases self.relay.path@.len() - i,
        {
            let entry = &self.relay.path[i];
            let id = entry.did.to_bytes();
            put_bytes(&mut out, id.as_slice());
            put_bytes(&mut out, entry.signature.as_slice());
            proof {
                assert(path.take(i + 1).drop_last() =~= path.take(i as int));
                assert(path.take(i + 1).last() == entry@);
                assert(out@ =~= head + path_bytes(path.take(i + 1)));
            }
            i = i + 1;
        }
        assert(path.take(i as int) =~= path);
        put_bytes(&mut out, self.signature.as_slice());
        assert(out@ =~= payload_bytes(self@));
        Ok(out)
    }

    /// Reads an envelope from its wire bytes. Fails with
    /// `MalformedEnvelope` exactly when the bytes are no envelope.
    pub fn decode(bytes: &[u8]) -> (r: Result<MessagePayload, Error>)
        ensures
            match r {
                Ok(p) => parse_payload(bytes@) == Some(p@),
                Err(e) => parse_payload(bytes@) is None && e == Error::MalformedEnvelope,
            },
    {
        let n = bytes.len();
        if n < 61 {
            return Err(Error::MalformedEnvelope);
        }
        let body_len = read_u32(bytes, 57);
        let rest: u64 = (n - 61) as u64;
        if rest < body_len as u64 + 69 {
            return Err(Error::MalformedEnvelope);
        }
        let body_end: usize = 61 + body_len as usize;
        let relay_at: usize = body_end + 65;
        let count = read_u32(bytes, relay_at);
        let tail: u64 = (n - relay_at - 4) as u64;
        if tail != 85 * (count as u64) + 65 {
            return Err(Error::MalformedEnvelope);
        }
        let transaction = Transaction {
            origin: Did::from_bytes(slice_subrange(bytes, 0, 20)),
            destination: Did::from_bytes(slice_subrange(bytes, 20, 40)),
            nonce: read_u64(bytes, 40),
            timestamp_ms: read_u64(bytes, 48),
            ttl_hops: bytes[56],
            body: copy_range(bytes, 61, body_end),
            signature: copy_range(bytes, body_end, relay_at),
        };
        let mut path: Vec<RelayEntry> = Vec::new();
        let mut i: usize = 0;
        let ghost want = parse_payload(bytes@).unwrap();
        while i < count as usize
            invariant
                i <= count,
                n == bytes@.len(),
                relay_at + 4 + 85 * count + 65 == n,
                path@.len() == i,
                want.path.len() == count,
                forall|j: int| 0 <= j < count ==> want.path[j] == parse_entry(
                    bytes@,
                    relay_at + 4 + 85 * j,
                ),
                forall|j: int| 0 <= j < i ==> (#[trigger] path@[j])@ == want.path[j],
            decreases count - i,
        {
            let at: usize = relay_at + 4 + 85 * i;
            let entry = RelayEntry {
                did: Did::from_bytes(slice_subrange(bytes, at, at + 20)),
                signature: copy_range(bytes, at + 20, at + 85),
            };
            path.push(entry);
            i = i + 1;
        }
        assert(path_view(path@) =~= want.path);
        let signature = copy_range(bytes, n - 65, n);
        Ok(MessagePayload { transaction, relay: Relay { path }, signature })
    }
}

/// What the body of an envelope holds.
#[derive(Clone, Debug, PartialEq, Eq)]
pub enum Message {
    /// The named peer asks to be taken into the ring.
    JoinDHT(Did),
    /// The named peer claims to be the receiver's predecessor.
    NotifyPredecessor(Did),
    /// A lookup of the named key.
    FindSuccessorSend(Did),
    /// The answer to a lookup: the key, then its successor.
    FindSuccessorReport(Did, Did),
    /// One fragment of a larger envelope.
    Chunk(ChunkFragment),
    /// Bytes for the application.
    CustomMessage(Vec<u8>),
}

/// A message as a mathematical value.
pub enum MessageView {
    JoinDHT(Did),
    NotifyPredecessor(Did),
    FindSuccessorSend(Did),
    FindSuccessorReport(Did, Did),
    Chunk(FragmentView),
    CustomMessage(Seq<u8>),
}

impl View for Message {
    type V = MessageView;

    open spec fn view(&self) -> MessageView {
        match self {
            Message::JoinDHT(d) => MessageView::JoinDHT(*d),
            Message::NotifyPredecessor(d) => MessageView::NotifyPredecessor(*d),
            Message::FindSuccessorSend(d) => MessageView::FindSuccessorSend(*d),
            Message::FindSuccessorReport(k, s) => MessageView::FindSuccessorReport(*k, *s),
            Message::Chunk(f) => MessageView::Chunk(f@),
            Message::CustomMessage(b) => MessageView::CustomMessage(b@),
        }
    }
}

/// The body bytes of a message: its tag, then its content.
pub open spec fn message_bytes(m: MessageView) -> Seq<u8> {
    match m {
        MessageView::JoinDHT(d) => seq![0u8] + did_bytes(d),
        MessageView::NotifyPredecessor(d) => seq![1u8] + did_bytes(d),
        MessageView::FindSuccessorSend(d) => seq![2u8] + did_bytes(d),
        MessageView::FindSuccessorReport(k, s) => seq![3u8] + did_bytes(k) + did_bytes(s),
        MessageView::Chunk(f) => seq![4u8] + fragment_bytes(f),
        MessageView::CustomMessage(b) => seq![5u8] + b,
    }
}

/// The message that body bytes hold, if they are one.
pub open spec fn parse_message(b: Seq<u8>) -> Option<MessageView> {
    if b.len() == 0 {
        None
    } else if b[0] == 0 && b.len() == 21 {
        Some(MessageView::JoinDHT(parse_did_bytes(b.subrange(1, 21))))
    } else if b[0] == 1 && b.len() == 21 {
        Some(MessageView::NotifyPredecessor(parse_did_bytes(b.subrange(1, 21))))
    } else if b[0] == 2 && b.len() == 21 {
        Some(MessageView::FindSuccessorSend(parse_did_bytes(b.subrange(1, 21))))
    } else if b[0] == 3 && b.len() == 41 {
        Some(
            MessageView::FindSuccessorReport(
                parse_did_bytes(b.subrange(1, 21)),
                parse_did_bytes(b.subrange(21, 41)),
            ),
        )
    } else if b[0] == 4 {
        match parse_fragment(b.subrange(1, b.len() as int)) {
            Some(f) => Some(MessageView::Chunk(f)),
            None => None,
        }
    } else if b[0] == 5 {
        Some(MessageView::CustomMessage(b.subrange(1, b.len() as int)))
    } else {
        None
    }
}

/// Parsing the body bytes of a message gives the message back.
pub proof fn lemma_message_round_trip(m: MessageView)
    requires
        m matches MessageView::Chunk(f) ==> f.payload.len() <= u32::MAX,
    ensures
        parse_message(message_bytes(m)) == Some(m),
{
    let b = message_bytes(m);
    match m {
        MessageView::JoinDHT(d) => {
            lemma_did_bytes_round_trip(d);
            assert(b.subrange(1, 21) =~= did_bytes(d));
        },
        MessageView::NotifyPredecessor(d) => {
            lemma_did_bytes_round_trip(d);
            assert(b.subrange(1, 21) =~= did_bytes(d));
        },
        MessageView::FindSuccessorSend(d) => {
            lemma_did_bytes_round_trip(d);
            assert(b.subrange(1, 21) =~= did_bytes(d));
        },
        MessageView::FindSuccessorReport(k, s) => {
            lemma_did_bytes_round_trip(k);
            lemma_did_bytes_round_trip(s);
            assert(b.subrange(1, 21) =~= did_bytes(k));
            assert(b.subrange(21, 41) =~= did_bytes(s));
        },
        MessageView::Chunk(f) => {
            crate::chunk::lemma_fragment_round_trip(f);
            assert(b.subrange(1, b.len() as int) =~= fragment_bytes(f));
        },
        MessageView::CustomMessage(c) => {
            assert(b.subrange(1, b.len() as int) =~= c);
        },
    }
}

impl Message {
    /// The body bytes of the message. Fails with `MalformedEnvelope`
    /// exactly when it holds a fragment too long for its length field.
    pub fn encode(&self) -> (r: Result<Vec<u8>, Error>)
        ensures
            match r {
                Ok(bytes) => bytes@ == message_bytes(self@) && !(self@ matches MessageView::Chunk(
                    f,
                ) && f.payload.len() > u32::MAX),
                Err(e) => (self@ matches MessageView::Chunk(f) && f.payload.len() > u32::MAX)
                    && e == Error::MalformedEnvelope,
            },
    {
        let mut out: Vec<u8> = Vec::new();
        match self {
            Message::JoinDHT(d) => {
                out.push(0);
                let id = d.to_bytes();
                put_bytes(&mut out, id.as_slice());
            },
            Message::NotifyPredecessor(d) => {
                out.push(1);
                let id = d.to_bytes();
                put_bytes(&mut out, id.as_slice());
            },
            Message::FindSuccessorSend(d) => {
                out.push(2);
                let id = d.to_bytes();
                put_bytes(&mut out, id.as_slice());
            },
            Message::FindSuccessorReport(k, s) => {
                out.push(3);
                let key = k.to_bytes();
                put_bytes(&mut out, key.as_slice());
                let succ = s.to_bytes();
                put_bytes(&mut out, succ.as_slice());
            },
            Message::Chunk(f) => {
                out.push(4);
                match f.encode() {
                    Ok(bytes) => {
                        put_bytes(&mut out, bytes.as_slice());
                    },
                    Err(e) => {
                        return Err(e);
                    },
                }
            },
            Message::CustomMessage(b) => {
                out.push(5);
                put_bytes(&mut out, b.as_slice());
            },
        }
        assert(out@ =~= message_bytes(self@));
        Ok(out)
    }

    /// Reads a message from body bytes. Fails with `MalformedEnvelope`
    /// exactly when the bytes are no message.
    pub fn decode(bytes: &[u8]) -> (r: Result<Message, Error>)
        ensures
            match r {
                Ok(m) => parse_message(bytes@) == Some(m@),
                Err(e) => parse_message(bytes@) is None && e == Error::MalformedEnvelope,
            },
    {
        let n = bytes.len();
        if n == 0 {
            return Err(Error::MalformedEnvelope);
        }
        let tag = bytes[0];
        if tag == 0 && n == 21 {
            Ok(Message::JoinDHT(Did::from_bytes(slice_subrange(bytes, 1, 21))))
        } else if tag == 1 && n == 21 {
            Ok(Message::NotifyPredecessor(Did::from_bytes(slice_subrange(bytes, 1, 21))))
        } else if tag == 2 && n == 21 {
            Ok(Message::FindSuccessorSend(Did::from_bytes(slice_subrange(bytes, 1, 21))))
        } else if tag == 3 && n == 41 {
            Ok(
                Message::FindSuccessorReport(
                    Did::from_bytes(slice_subrange(bytes, 1, 21)),
                    Did::from_bytes(slice_subrange(bytes, 21, 41)),
                ),
            )
        } else if tag == 4 {
            match ChunkFragment::decode(slice_subrange(bytes, 1, n)) {
                Ok(f) => Ok(Message::Chunk(f)),
                Err(e) => Err(e),
            }
        } else if tag == 5 {
            Ok(Message::CustomMessage(copy_range(bytes, 1, n)))
        } else {
            Err(Error::MalformedEnvelope)
        }
    }
}

impl Transaction {
    /// The message in the body.
    pub fn data(&self) -> (r: Result<Message, Error>)
        ensures
            match r {
                Ok(m) => parse_message(self.body@) == Some(m@),
                Err(e) => parse_message(self.body@) is None && e == Error::MalformedEnvelope,
            },
    {
        Message::decode(self.body.as_slice())
    }
}

} // verus!
