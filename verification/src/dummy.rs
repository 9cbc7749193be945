//! A transport without a network: connections are records in a table that
//! the peers of one process share, and a handshake is an exchange of the
//! random ids under which the two ends are recorded.

use vstd::prelude::*;
use dashmap::DashMap;
use rand::distributions::Distribution;
use std::collections::hash_map::RandomState;
use crate::did::{hex_digit_char, hex_digit_str, parse_did};
use vstd::string::*;
use crate::error::Error;
use crate::ice_server::is_ice_server_list;
use crate::pool::{ConnectionRef, Pool};
use crate::transport::{
    event_views, message_frame, CallbackEvent, EventView, TransportMessage, WebrtcConnectionState,
};

verus! {

/// Least delay, in ms, before a sent message is handed over.
pub const DUMMY_DELAY_MIN: u64 = 0;

/// Bound, in ms, of the delay before a sent message is handed over.
pub const DUMMY_DELAY_MAX: u64 = 100;

/// Bound of the random ids of connections.
pub const RAND_ID_BOUND: u64 = 10000000000;

/// `dashmap::DashMap`, a concurrent map. Nothing is known of a value of
/// it but what `table_entries` names.
#[verifier::external_type_specification]
#[verifier::external_body]
#[verifier::reject_recursive_types(K)]
#[verifier::reject_recursive_types(V)]
#[verifier::reject_recursive_types(S)]
pub struct ExDashMap<K, V, S>(DashMap<K, V, S>);

/// What the table records of one end of a connection: the id under which
/// its owner registered it (and by which its observer is told of it), the
/// random id of the other end once known, and the state.
#[derive(Clone, Debug, PartialEq, Eq)]
pub struct ConnectionRecord {
    pub cid: String,
    pub remote_rand_id: Option<String>,
    pub state: WebrtcConnectionState,
}

/// A record as a mathematical value.
pub struct RecordView {
    pub cid: Seq<char>,
    pub remote: Option<Seq<char>>,
    pub state: WebrtcConnectionState,
}

impl View for ConnectionRecord {
    type V = RecordView;

    open spec fn view(&self) -> RecordView {
        RecordView {
            cid: self.cid@,
            remote: match self.remote_rand_id {
                Some(r) => Some(r@),
                None => None,
            },
            state: self.state,
        }
    }
}

/// The table of connection records, by random id.
pub type ConnectionTable = DashMap<String, ConnectionRecord, RandomState>;

/// The records that a table holds.
pub uninterp spec fn table_entries(t: ConnectionTable) -> Map<Seq<char>, RecordView>;

/// `DashMap::new`: a table that holds nothing.
#[verifier::external_body]
fn table_new() -> (t: ConnectionTable)
    ensures
        forall|id: Seq<char>| !table_entries(t).contains_key(id),
{
    DashMap::new()
}

/// `DashMap::get`: a copy of the record held under `id`, or `None` where the
/// table holds none.
#[verifier::external_body]
fn table_get(t: &ConnectionTable, id: &str) -> (r: Option<ConnectionRecord>)
    ensures
        match r {
            Some(rec) => table_entries(*t).contains_key(id@) && rec@ == table_entries(*t)[id@],
            None => !table_entries(*t).contains_key(id@),
        },
{
    match t.get(id) {
        Some(entry) => Some(entry.value().clone()),
        None => None,
    }
}

/// `DashMap::insert`: the table then holds `rec` under `id`, in place of
/// what it held there, and every other record as before.
#[verifier::external_body]
fn table_insert(t: &mut ConnectionTable, id: String, rec: ConnectionRecord)
    ensures
        table_entries(*final(t)) == table_entries(*old(t)).insert(id@, rec@),
{
    t.insert(id, rec);
}

/// `Uniform::new(low, high)` sampled once with `thread_rng()`: some number
/// of the half-open range. The constructor panics on an empty range.
#[verifier::external_body]
fn random(low: u64, high: u64) -> (r: u64)
    requires
        low < high,
    ensures
        low <= r < high,
{
    let range = rand::distributions::Uniform::new(low, high);
    let mut rng = rand::thread_rng();
    range.sample(&mut rng)
}

/// The decimal numeral of `n`.
pub open spec fn decimal_string(n: nat) -> Seq<char>
    decreases n,
{
    if n < 10 {
        seq![hex_digit_char(n)]
    } else {
        decimal_string(n / 10).push(hex_digit_char(n % 10))
    }
}

fn decimal(n: u64) -> (s: String)
    ensures
        s@ == decimal_string(n as nat),
    decreases n,
{
    if n < 10 {
        hex_digit_str(n as u8).to_owned()
    } else {
        let mut s = decimal(n / 10);
        s.append(hex_digit_str((n % 10) as u8));
        s
    }
}

/// A delay for the delivery of one message, in ms.
pub fn random_delay() -> (ms: u64)
    ensures
        DUMMY_DELAY_MIN <= ms < DUMMY_DELAY_MAX,
{
    random(DUMMY_DELAY_MIN, DUMMY_DELAY_MAX)
}

/// The records of all connections of one test fixture, as a map.
pub type NetView = Map<Seq<char>, RecordView>;

/// The table after the connection `id` has been put in `state`.
pub open spec fn with_state(net: NetView, id: Seq<char>, state: WebrtcConnectionState) -> NetView {
    if net.contains_key(id) && net[id].state != state {
        net.insert(id, RecordView { cid: net[id].cid, remote: net[id].remote, state })
    } else {
        net
    }
}

/// What the observer of `id` is told when `id` is put in `state`: the new
/// state if it differs from the old one, else nothing.
pub open spec fn state_notices(net: NetView, id: Seq<char>, state: WebrtcConnectionState) -> Seq<
    EventView,
> {
    if net.contains_key(id) && net[id].state != state {
        seq![EventView::StateChange { cid: net[id].cid, rand_id: id, state }]
    } else {
        Seq::empty()
    }
}

/// The table after `id` has been told the random id of its other end.
pub open spec fn with_remote(net: NetView, id: Seq<char>, remote: Seq<char>) -> NetView {
    if net.contains_key(id) {
        net.insert(id, RecordView { cid: net[id].cid, remote: Some(remote), state: net[id].state })
    } else {
        net
    }
}

/// The record of a connection that has just been made for `cid`.
pub open spec fn fresh_record(cid: Seq<char>) -> RecordView {
    RecordView { cid, remote: None, state: WebrtcConnectionState::New }
}

/// The table after `id` has accepted `answer`: both ends are `Connected`.
pub open spec fn after_accept(net: NetView, id: Seq<char>, answer: Seq<char>) -> NetView {
    with_state(
        with_remote(with_state(net, id, WebrtcConnectionState::Connected), id, answer),
        answer,
        WebrtcConnectionState::Connected,
    )
}

/// What the two observers are told when `id` accepts `answer`.
pub open spec fn accept_notices(net: NetView, id: Seq<char>, answer: Seq<char>) -> Seq<EventView> {
    state_notices(net, id, WebrtcConnectionState::Connected) + state_notices(
        with_remote(with_state(net, id, WebrtcConnectionState::Connected), id, answer),
        answer,
        WebrtcConnectionState::Connected,
    )
}

/// The other end of `id` still has to be closed: it is recorded and not
/// yet `Closed`.
pub open spec fn remote_open(net: NetView, id: Seq<char>) -> bool {
    net.contains_key(id) && net[id].remote is Some && net.contains_key(net[id].remote.unwrap())
        && net[net[id].remote.unwrap()].state != WebrtcConnectionState::Closed
}

/// The table after `id` has been closed: `id` is `Closed`, and so is its
/// other end.
pub open spec fn after_close(net: NetView, id: Seq<char>) -> NetView {
    let own = with_state(net, id, WebrtcConnectionState::Closed);
    if remote_open(own, id) {
        let r = own[id].remote.unwrap();
        with_state(
            with_state(own, r, WebrtcConnectionState::Disconnected),
            r,
            WebrtcConnectionState::Closed,
        )
    } else {
        own
    }
}

/// What the observers are told when `id` is closed: its own observer of
/// `Closed`, the other end's of `Disconnected` and then of `Closed`.
pub open spec fn close_notices(net: NetView, id: Seq<char>) -> Seq<EventView> {
    let own = with_state(net, id, WebrtcConnectionState::Closed);
    let first = state_notices(net, id, WebrtcConnectionState::Closed);
    if remote_open(own, id) {
        let r = own[id].remote.unwrap();
        first + state_notices(own, r, WebrtcConnectionState::Disconnected) + state_notices(
            with_state(own, r, WebrtcConnectionState::Disconnected),
            r,
            WebrtcConnectionState::Closed,
        )
    } else {
        first
    }
}

/// The fixture that the dummy transports of one test share: the records of
/// all their connections.
pub struct DummyNet {
    conns: ConnectionTable,
}

impl View for DummyNet {
    type V = NetView;

    closed spec fn view(&self) -> NetView {
        table_entries(self.conns)
    }
}

impl DummyNet {
    /// A fixture without connections.
    pub fn new() -> (net: DummyNet)
        ensures
            net@ == Map::<Seq<char>, RecordView>::empty(),
    {
        let net = DummyNet { conns: table_new() };
        assert(net@ =~= Map::<Seq<char>, RecordView>::empty());
        net
    }

    /// The record held under `rand_id`.
    pub fn record(&self, rand_id: &str) -> (r: Option<ConnectionRecord>)
        ensures
            match r {
                Some(rec) => self@.contains_key(rand_id@) && rec@ == self@[rand_id@],
                None => !self@.contains_key(rand_id@),
            },
    {
        table_get(&self.conns, rand_id)
    }

    fn put(&mut self, rand_id: String, rec: ConnectionRecord)
        ensures
            final(self)@ == old(self)@.insert(rand_id@, rec@),
    {
        table_insert(&mut self.conns, rand_id, rec);
    }
}

/// What `send_message` hands back: the delay to keep, then the call owed to
/// the observer of the other end.
pub struct Delivery {
    pub delay_ms: u64,
    pub event: CallbackEvent,
}

/// One end of a dummy connection: the random id under which the fixture
/// records it.
#[derive(Clone, Debug, PartialEq, Eq)]
pub struct DummyConnection {
    pub(crate) rand_id: String,
}

impl View for DummyConnection {
    type V = Seq<char>;

    closed spec fn view(&self) -> Seq<char> {
        self.rand_id@
    }
}

impl DummyConnection {
    /// A connection under a random id: the decimal numeral of a number
    /// below `RAND_ID_BOUND`. It is not recorded yet.
    pub fn new() -> (conn: DummyConnection)
        ensures
            exists|n: nat| n < RAND_ID_BOUND && conn@ == decimal_string(n),
    {
        let n = random(0, RAND_ID_BOUND);
        let conn = DummyConnection { rand_id: decimal(n) };
        assert(n < RAND_ID_BOUND && conn@ == decimal_string(n as nat));
        conn
    }

    /// The connection that is recorded under `rand_id`.
    pub(crate) fn with_rand_id(rand_id: String) -> (conn: DummyConnection)
        ensures
            conn@ == rand_id@,
    {
        DummyConnection { rand_id }
    }

    /// The random id of the connection.
    pub fn rand_id(&self) -> (id: String)
        ensures
            id@ == self@,
    {
        self.rand_id.clone()
    }

    /// The connection id that the observer of this end is told: the one it
    /// was registered under.
    pub fn callback(&self, net: &DummyNet) -> (r: Option<String>)
        ensures
            match r {
                Some(cid) => net@.contains_key(self@) && cid@ == net@[self@].cid,
                None => !net@.contains_key(self@),
            },
    {
        match net.record(self.rand_id.as_str()) {
            Some(rec) => Some(rec.cid),
            None => None,
        }
    }

    /// The other end, once a handshake has named it and as far as it is
    /// recorded.
    pub fn remote_conn(&self, net: &DummyNet) -> (r: Option<DummyConnection>)
        ensures
            match r {
                Some(other) => net@.contains_key(self@) && net@[self@].remote == Some(other@)
                    && net@.contains_key(other@),
                None => !(net@.contains_key(self@) && net@[self@].remote is Some
                    && net@.contains_key(net@[self@].remote.unwrap())),
            },
    {
        match net.record(self.rand_id.as_str()) {
            Some(rec) => match rec.remote_rand_id {
                Some(remote) => match net.record(remote.as_str()) {
                    Some(_) => Some(DummyConnection { rand_id: remote }),
                    None => None,
                },
                None => None,
            },
            None => None,
        }
    }

    /// The connection id that the observer of the other end is told.
    pub fn remote_callback(&self, net: &DummyNet) -> (r: Option<String>)
        ensures
            match r {
                Some(cid) => net@.contains_key(self@) && net@[self@].remote is Some
                    && net@.contains_key(net@[self@].remote.unwrap()) && cid@
                    == net@[net@[self@].remote.unwrap()].cid,
                None => !(net@.contains_key(self@) && net@[self@].remote is Some
                    && net@.contains_key(net@[self@].remote.unwrap())),
            },
    {
        match self.remote_conn(net) {
            Some(other) => other.callback(net),
            None => None,
        }
    }

    /// Records the random id of the other end.
    pub fn set_remote_rand_id(&self, net: &mut DummyNet, rand_id: String)
        ensures
            final(net)@ == with_remote(old(net)@, self@, rand_id@),
    {
        match net.record(self.rand_id.as_str()) {
            Some(rec) => {
                let next = ConnectionRecord {
                    cid: rec.cid,
                    remote_rand_id: Some(rand_id),
                    state: rec.state,
                };
                net.put(self.rand_id.clone(), next);
            },
            None => {},
        }
    }

    /// Puts the connection in `state` and says what its observer is to be
    /// told: nothing if it was in that state already.
    pub fn set_webrtc_connection_state(
        &self,
        net: &mut DummyNet,
        state: WebrtcConnectionState,
    ) -> (events: Vec<CallbackEvent>)
        ensures
            final(net)@ == with_state(old(net)@, self@, state),
            event_views(events@) == state_notices(old(net)@, self@, state),
    {
        let mut events: Vec<CallbackEvent> = Vec::new();
        match net.record(self.rand_id.as_str()) {
            Some(rec) => {
                if rec.state != state {
                    events.push(
                        CallbackEvent::StateChange {
                            cid: rec.cid.clone(),
                            rand_id: self.rand_id.clone(),
                            state,
                        },
                    );
                    let next = ConnectionRecord {
                        cid: rec.cid,
                        remote_rand_id: rec.remote_rand_id,
                        state,
                    };
                    net.put(self.rand_id.clone(), next);
                }
            },
            None => {},
        }
        assert(event_views(events@) =~= state_notices(old(net)@, self@, state));
        events
    }

    /// The state of the connection; `Unspecified` where it is not recorded.
    pub fn webrtc_connection_state(&self, net: &DummyNet) -> (s: WebrtcConnectionState)
        ensures
            s == (if net@.contains_key(self@) {
                net@[self@].state
            } else {
                WebrtcConnectionState::Unspecified
            }),
    {
        match net.record(self.rand_id.as_str()) {
            Some(rec) => rec.state,
            None => WebrtcConnectionState::Unspecified,
        }
    }

    /// The dummy connection keeps no statistics.
    pub fn get_stats(&self) -> (stats: Vec<String>)
        ensures
            stats@.len() == 0,
    {
        Vec::new()
    }

    /// Starts a handshake: the connection becomes `Connecting`, and the
    /// offer is its random id.
    pub fn webrtc_create_offer(&self, net: &mut DummyNet) -> (r: Result<
        (String, Vec<CallbackEvent>),
        Error,
    >)
        ensures
            match r {
                Ok((offer, events)) => old(net)@.contains_key(self@) && offer@ == self@
                    && final(net)@ == with_state(
                    old(net)@,
                    self@,
                    WebrtcConnectionState::Connecting,
                ) && event_views(events@) == state_notices(
                    old(net)@,
                    self@,
                    WebrtcConnectionState::Connecting,
                ),
                Err(e) => !old(net)@.contains_key(self@) && final(net)@ == old(net)@ && (
                e matches Error::ConnectionNotFound(t) && t@ == self@),
            },
    {
        if net.record(self.rand_id.as_str()).is_none() {
            return Err(Error::ConnectionNotFound(self.rand_id.clone()));
        }
        let events = self.set_webrtc_connection_state(net, WebrtcConnectionState::Connecting);
        Ok((self.rand_id.clone(), events))
    }

    /// Answers an offer: the connection becomes `Connecting` and learns the
    /// offerer's random id, and the answer is its own.
    pub fn webrtc_answer_offer(&self, net: &mut DummyNet, offer: String) -> (r: Result<
        (String, Vec<CallbackEvent>),
        Error,
    >)
        ensures
            match r {
                Ok((answer, events)) => old(net)@.contains_key(self@) && answer@ == self@
                    && final(net)@ == with_remote(
                    with_state(old(net)@, self@, WebrtcConnectionState::Connecting),
                    self@,
                    offer@,
                ) && event_views(events@) == state_notices(
                    old(net)@,
                    self@,
                    WebrtcConnectionState::Connecting,
                ),
                Err(e) => !old(net)@.contains_key(self@) && final(net)@ == old(net)@ && (
                e matches Error::ConnectionNotFound(t) && t@ == self@),
            },
    {
        if net.record(self.rand_id.as_str()).is_none() {
            return Err(Error::ConnectionNotFound(self.rand_id.clone()));
        }
        let events = self.set_webrtc_connection_state(net, WebrtcConnectionState::Connecting);
        self.set_remote_rand_id(net, offer);
        Ok((self.rand_id.clone(), events))
    }

    /// Accepts an answer: this end and the answering end become
    /// `Connected`. Fails, and changes nothing, where either end is not
    /// recorded.
    pub fn webrtc_accept_answer(&self, net: &mut DummyNet, answer: String) -> (r: Result<
        Vec<CallbackEvent>,
        Error,
    >)
        ensures
            match r {
                Ok(events) => old(net)@.contains_key(self@) && old(net)@.contains_key(answer@)
                    && final(net)@ == after_accept(old(net)@, self@, answer@) && event_views(
                    events@,
                ) == accept_notices(old(net)@, self@, answer@),
                Err(e) => final(net)@ == old(net)@ && (if !old(net)@.contains_key(self@) {
                    e matches Error::ConnectionNotFound(t) && t@ == self@
                } else {
                    !old(net)@.contains_key(answer@) && (e matches Error::ConnectionNotFound(t)
                        && t@ == answer@)
                }),
            },
    {
        if net.record(self.rand_id.as_str()).is_none() {
            return Err(Error::ConnectionNotFound(self.rand_id.clone()));
        }
        if net.record(answer.as_str()).is_none() {
            return Err(Error::ConnectionNotFound(answer));
        }
        let mut events = self.set_webrtc_connection_state(net, WebrtcConnectionState::Connected);
        let ghost first = events@;
        let other = DummyConnection { rand_id: answer.clone() };
        self.set_remote_rand_id(net, answer);
        let mut more = other.set_webrtc_connection_state(net, WebrtcConnectionState::Connected);
        let ghost second = more@;
        events.append(&mut more);
        assert(event_views(events@) =~= event_views(first) + event_views(second));
        Ok(events)
    }

    /// Whether the data channel is writable: `true` once `Connected`, `false`
    /// while that may still come. Fails with `ChannelNotOpen` once the
    /// connection is `Failed` or `Closed`.
    pub fn webrtc_wait_for_data_channel_open(&self, net: &DummyNet) -> (r: Result<bool, Error>)
        ensures
            match r {
                Ok(open) => net@.contains_key(self@) && net@[self@].state
                    != WebrtcConnectionState::Failed && net@[self@].state
                    != WebrtcConnectionState::Closed && open == (net@[self@].state
                    == WebrtcConnectionState::Connected),
                Err(e) => if net@.contains_key(self@) {
                    (net@[self@].state == WebrtcConnectionState::Failed || net@[self@].state
                        == WebrtcConnectionState::Closed) && e == Error::ChannelNotOpen
                } else {
                    e matches Error::ConnectionNotFound(t) && t@ == self@
                },
            },
    {
        match net.record(self.rand_id.as_str()) {
            Some(rec) => match rec.state {
                WebrtcConnectionState::Failed => Err(Error::ChannelNotOpen),
                WebrtcConnectionState::Closed => Err(Error::ChannelNotOpen),
                WebrtcConnectionState::Connected => Ok(true),
                _ => Ok(false),
            },
            None => Err(Error::ConnectionNotFound(self.rand_id.clone())),
        }
    }

    /// Why a message cannot be sent on `id`, if it cannot.
    pub open spec fn send_refusal(net: NetView, id: Seq<char>, msg: Seq<u8>) -> Option<
        SendRefusal,
    > {
        if !net.contains_key(id) {
            Some(SendRefusal::NotRecorded)
        } else if net[id].state != WebrtcConnectionState::Connected {
            Some(SendRefusal::NotOpen)
        } else if msg.len() > u32::MAX {
            Some(SendRefusal::TooLong)
        } else if !(net[id].remote is Some && net.contains_key(net[id].remote.unwrap())) {
            Some(SendRefusal::NoRemote)
        } else {
            None
        }
    }

    /// Sends a message: its frame is owed to the observer of the other
    /// end, after a random delay. Nothing is sent unless the connection is
    /// `Connected`.
    pub fn send_message(&self, net: &DummyNet, msg: TransportMessage) -> (r: Result<
        Delivery,
        Error,
    >)
        ensures
            match r {
                Ok(d) => Self::send_refusal(net@, self@, msg@) is None && d.delay_ms
                    < DUMMY_DELAY_MAX && d.event@ == (EventView::Message {
                    cid: net@[net@[self@].remote.unwrap()].cid,
                    rand_id: net@[self@].remote.unwrap(),
                    data: message_frame(msg@),
                }),
                Err(e) => match Self::send_refusal(net@, self@, msg@) {
                    Some(SendRefusal::NotRecorded) => e matches Error::ConnectionNotFound(t)
                        && t@ == self@,
                    Some(SendRefusal::NotOpen) => e == Error::ChannelNotOpen,
                    Some(SendRefusal::TooLong) => e == Error::MalformedEnvelope,
                    Some(SendRefusal::NoRemote) => e == Error::ChannelNotOpen,
                    None => false,
                },
            },
    {
        let rec = match net.record(self.rand_id.as_str()) {
            Some(rec) => rec,
            None => {
                return Err(Error::ConnectionNotFound(self.rand_id.clone()));
            },
        };
        if rec.state != WebrtcConnectionState::Connected {
            return Err(Error::ChannelNotOpen);
        }
        let data = match msg.encode() {
            Ok(data) => data,
            Err(e) => {
                return Err(e);
            },
        };
        let remote = match rec.remote_rand_id {
            Some(remote) => remote,
            None => {
                return Err(Error::ChannelNotOpen);
            },
        };
        match net.record(remote.as_str()) {
            Some(other) => Ok(
                Delivery {
                    delay_ms: random_delay(),
                    event: CallbackEvent::Message { cid: other.cid, rand_id: remote, data },
                },
            ),
            None => Err(Error::ChannelNotOpen),
        }
    }

    /// Closes the connection: this end becomes `Closed`, and the other end,
    /// unless it is closed already, is seen to go `Disconnected` and then
    /// `Closed`.
    pub fn close(&self, net: &mut DummyNet) -> (r: Result<Vec<CallbackEvent>, Error>)
        ensures
            match r {
                Ok(events) => old(net)@.contains_key(self@) && final(net)@ == after_close(
                    old(net)@,
                    self@,
                ) && event_views(events@) == close_notices(old(net)@, self@),
                Err(e) => !old(net)@.contains_key(self@) && final(net)@ == old(net)@ && (
                e matches Error::ConnectionNotFound(t) && t@ == self@),
            },
    {
        if net.record(self.rand_id.as_str()).is_none() {
            return Err(Error::ConnectionNotFound(self.rand_id.clone()));
        }
        let mut events = self.set_webrtc_connection_state(net, WebrtcConnectionState::Closed);
        let ghost first = events@;
        let ghost own = net@;
        match self.remote_conn(net) {
            Some(other) => {
                if other.webrtc_connection_state(net) != WebrtcConnectionState::Closed {
                    let mut gone = other.set_webrtc_connection_state(
                        net,
                        WebrtcConnectionState::Disconnected,
                    );
                    let ghost second = gone@;
                    let mut shut = other.set_webrtc_connection_state(
                        net,
                        WebrtcConnectionState::Closed,
                    );
                    let ghost third = shut@;
                    events.append(&mut gone);
                    events.append(&mut shut);
                    assert(remote_open(own, self@));
                    assert(event_views(events@) =~= event_views(first) + event_views(second)
                        + event_views(third));
                } else {
                    assert(!remote_open(own, self@));
                }
            },
            None => {
                assert(!remote_open(own, self@));
            },
        }
        Ok(events)
    }
}

/// Why `send_message` refuses.
pub enum SendRefusal {
    /// The connection is not recorded in the fixture.
    NotRecorded,
    /// The connection is not `Connected`.
    NotOpen,
    /// The message does not fit a frame.
    TooLong,
    /// The other end is not known or not recorded.
    NoRemote,
}

/// Why `new_connection` refuses.
pub enum Refusal {
    /// The connection id is not the string form of an identifier.
    Malformed,
    /// A live connection is registered under the connection id.
    AlreadyExists,
}

/// A connection is registered under `cid` and is `New`, `Connecting` or
/// `Connected`.
pub open spec fn has_live(pool: Map<Seq<char>, Seq<char>>, net: NetView, cid: Seq<char>) -> bool {
    pool.contains_key(cid) && net.contains_key(pool[cid]) && net[pool[cid]].state.live()
}

/// Why a connection cannot be made for `cid`, if it cannot.
pub open spec fn new_connection_refusal(
    pool: Map<Seq<char>, Seq<char>>,
    net: NetView,
    cid: Seq<char>,
) -> Option<Refusal> {
    if parse_did(cid) is None {
        Some(Refusal::Malformed)
    } else if has_live(pool, net, cid) {
        Some(Refusal::AlreadyExists)
    } else {
        None
    }
}

/// Once a connection has been made for `cid`, no second one can be made
/// while the first is `New` or, after its offer, `Connecting`: the attempt
/// is refused with `ConnectionAlreadyExists`.
pub proof fn lemma_live_connection_blocks_second(
    pool: Map<Seq<char>, Seq<char>>,
    net: NetView,
    cid: Seq<char>,
    id: Seq<char>,
)
    requires
        parse_did(cid) is Some,
    ensures
        new_connection_refusal(pool.insert(cid, id), net.insert(id, fresh_record(cid)), cid)
            == Some(Refusal::AlreadyExists),
        new_connection_refusal(
            pool.insert(cid, id),
            with_state(net.insert(id, fresh_record(cid)), id, WebrtcConnectionState::Connecting),
            cid,
        ) == Some(Refusal::AlreadyExists),
{
}

/// The connections of one peer, by connection id.
pub struct DummyTransport {
    pool: Pool,
}

impl View for DummyTransport {
    type V = Map<Seq<char>, Seq<char>>;

    closed spec fn view(&self) -> Map<Seq<char>, Seq<char>> {
        self.pool@
    }
}

impl DummyTransport {
    pub closed spec fn wf(&self) -> bool {
        self.pool.wf()
    }

    /// The pool of the transport's connections.
    pub fn pool(&self) -> (pool: &Pool)
        ensures
            pool@ == self@,
            self.wf() ==> pool.wf(),
    {
        &self.pool
    }

    /// A transport without connections. `ice_servers` has to be a list of
    /// ICE servers, though the dummy transport has no use for them, nor
    /// for an external address.
    pub fn new(ice_servers: &str, external_address: Option<String>) -> (t: DummyTransport)
        requires
            is_ice_server_list(ice_servers@),
        ensures
            t.wf(),
            t@ == Map::<Seq<char>, Seq<char>>::empty(),
    {
        DummyTransport { pool: Pool::new() }
    }

    /// Makes a connection for `cid` and records it in the fixture, in state
    /// `New`. Refuses, and changes nothing, where `cid` is malformed or a
    /// live connection is registered under it.
    pub fn new_connection(&mut self, net: &mut DummyNet, cid: &str) -> (r: Result<(), Error>)
        requires
            old(self).wf(),
        ensures
            final(self).wf(),
            match r {
                Ok(()) => new_connection_refusal(old(self)@, old(net)@, cid@) is None
                    && final(self)@.contains_key(cid@) && final(self)@ == old(self)@.insert(
                    cid@,
                    final(self)@[cid@],
                ) && final(net)@ == old(net)@.insert(final(self)@[cid@], fresh_record(cid@)),
                Err(e) => final(self)@ == old(self)@ && final(net)@ == old(net)@
                    && match new_connection_refusal(old(self)@, old(net)@, cid@) {
                    Some(Refusal::Malformed) => e matches Error::MalformedCid(t) && t@ == cid@,
                    Some(Refusal::AlreadyExists) => e matches Error::ConnectionAlreadyExists(t)
                        && t@ == cid@,
                    None => false,
                },
            },
    {
        let conn = DummyConnection::new();
        let conn_rand_id = conn.rand_id.clone();
        match self.pool.safely_insert(net, cid, conn) {
            Ok(()) => {},
            Err(e) => {
                return Err(e);
            },
        }
        net.put(
            conn_rand_id,
            ConnectionRecord {
                cid: cid.to_owned(),
                remote_rand_id: None,
                state: WebrtcConnectionState::New,
            },
        );
        Ok(())
    }

    /// Closes the connection registered under `cid` and releases it: every
    /// reference to it is dead from then on. Where none is registered,
    /// nothing happens.
    pub fn close_connection(&mut self, net: &mut DummyNet, cid: &str) -> (r: Result<
        Vec<CallbackEvent>,
        Error,
    >)
        requires
            old(self).wf(),
        ensures
            final(self).wf(),
            final(self)@ == old(self)@.remove(cid@),
            crate::pool::removal_outcome(old(self)@, old(net)@, final(net)@, cid@, r),
    {
        self.pool.safely_remove(net, cid)
    }

    /// A reference to the connection registered under `cid`.
    pub fn connection(&self, cid: &str) -> (r: Result<ConnectionRef, Error>)
        requires
            self.wf(),
        ensures
            match r {
                Ok(c) => self@.contains_key(cid@) && c.cid_view() == cid@ && c.rand_id_view()
                    == self@[cid@],
                Err(e) => !self@.contains_key(cid@) && (e matches Error::ConnectionNotFound(t)
                    && t@ == cid@),
            },
    {
        self.pool.connection(cid)
    }

    /// A reference to every connection, each with its connection id.
    pub fn connections(&self) -> (all: Vec<(String, ConnectionRef)>)
        requires
            self.wf(),
        ensures
            all@.len() == self@.dom().len(),
            forall|i: int|
                0 <= i < all@.len() ==> self@.contains_key((#[trigger] all@[i]).0@)
                    && all@[i].1.cid_view() == all@[i].0@ && all@[i].1.rand_id_view()
                    == self@[all@[i].0@],
            forall|cid: Seq<char>|
                self@.contains_key(cid) ==> exists|i: int|
                    0 <= i < all@.len() && (#[trigger] all@[i]).0@ == cid,
    {
        self.pool.connections()
    }

    /// The connection ids under which a connection is registered, each
    /// once.
    pub fn connection_ids(&self) -> (ids: Vec<String>)
        requires
            self.wf(),
        ensures
            ids@.len() == self@.dom().len(),
            forall|i: int| 0 <= i < ids@.len() ==> self@.contains_key((#[trigger] ids@[i])@),
            forall|cid: Seq<char>|
                self@.contains_key(cid) ==> exists|i: int|
                    0 <= i < ids@.len() && (#[trigger] ids@[i])@ == cid,
    {
        self.pool.connection_ids()
    }
}

} // verus!
