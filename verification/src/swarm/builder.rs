//! The builder of a swarm.

use vstd::prelude::*;
use crate::dummy::DummyTransport;
use crate::held::Held;
use crate::ice_server::is_ice_server_list;
use crate::chunk::PendingView;
use crate::ring::{fresh_ring, PeerRing, DEFAULT_SUCC_MAX};
use crate::session::SessionSk;
use crate::storage::PersistenceStorage;
use crate::swarm::callback::{InnerSwarmCallback, SharedSwarmCallback, TransportEvent};
use crate::swarm::{MeasureImpl, Swarm};

verus! {

/// Gathers what a swarm is made of.
pub struct SwarmBuilder {
    ice_servers: String,
    external_address: Option<String>,
    dht_succ_max: u8,
    dht_storage: PersistenceStorage,
    session_sk: SessionSk,
    session_ttl: Option<usize>,
    measure: Option<Held<MeasureImpl>>,
    callback: Option<Held<SharedSwarmCallback>>,
}

/// What a builder has gathered, as a mathematical value.
pub struct BuilderView {
    pub ice_servers: Seq<char>,
    pub external_address: Option<Seq<char>>,
    pub dht_succ_max: u8,
    pub session_ttl: Option<usize>,
    /// The measure that was bound, if one was.
    pub measure: Option<Held<MeasureImpl>>,
    /// The callback that was bound, if one was.
    pub callback: Option<Held<SharedSwarmCallback>>,
}

impl View for SwarmBuilder {
    type V = BuilderView;

    closed spec fn view(&self) -> BuilderView {
        BuilderView {
            ice_servers: self.ice_servers@,
            external_address: match self.external_address {
                Some(a) => Some(a@),
                None => None,
            },
            dht_succ_max: self.dht_succ_max,
            session_ttl: self.session_ttl,
            measure: self.measure,
            callback: self.callback,
        }
    }
}

/// The time to live of the session that a swarm signs with: what the
/// builder was given, in seconds, or else what the session came with.
pub open spec fn built_ttl_ms(session_ttl: Option<usize>, own_ttl_ms: u64) -> u64 {
    match session_ttl {
        Some(secs) => if secs as u64 <= u64::MAX / 1000 {
            (secs * 1000) as u64
        } else {
            u64::MAX
        },
        None => own_ttl_ms,
    }
}

impl SwarmBuilder {
    pub closed spec fn session(&self) -> SessionSk {
        self.session_sk
    }

    pub closed spec fn storage(&self) -> PersistenceStorage {
        self.dht_storage
    }

    /// A builder with the defaults: three successors, no external address,
    /// the session's own time to live, no measure and no callback.
    pub fn new(ice_servers: &str, dht_storage: PersistenceStorage, session_sk: SessionSk) -> (b:
        SwarmBuilder)
        ensures
            b@ == (BuilderView {
                ice_servers: ice_servers@,
                external_address: None,
                dht_succ_max: 3,
                session_ttl: None,
                measure: None,
                callback: None,
            }),
            b.session() == session_sk,
            b.storage() == dht_storage,
    {
        SwarmBuilder {
            ice_servers: ice_servers.to_owned(),
            external_address: None,
            dht_succ_max: DEFAULT_SUCC_MAX,
            dht_storage,
            session_sk,
            session_ttl: None,
            measure: None,
            callback: None,
        }
    }

    /// Sets the bound of the successor list.
    pub fn dht_succ_max(self, succ_max: u8) -> (b: SwarmBuilder)
        ensures
            b@ == (BuilderView { dht_succ_max: succ_max, ..self@ }),
            b.session() == self.session(),
            b.storage() == self.storage(),
    {
        let mut b = self;
        b.dht_succ_max = succ_max;
        b
    }

    /// Sets the address at which the transport listens in host mode.
    pub fn external_address(self, external_address: String) -> (b: SwarmBuilder)
        ensures
            b@ == (BuilderView { external_address: Some(external_address@), ..self@ }),
            b.session() == self.session(),
            b.storage() == self.storage(),
    {
        let mut b = self;
        b.external_address = Some(external_address);
        b
    }

    /// Sets the time to live of the session, in seconds.
    pub fn session_ttl(self, ttl: usize) -> (b: SwarmBuilder)
        ensures
            b@ == (BuilderView { session_ttl: Some(ttl), ..self@ }),
            b.session() == self.session(),
            b.storage() == self.storage(),
    {
        let mut b = self;
        b.session_ttl = Some(ttl);
        b
    }

    /// Binds a measure to the swarm.
    pub fn measure(self, implement: MeasureImpl) -> (b: SwarmBuilder)
        ensures
            b@.measure matches Some(held) && held.value() == implement,
            b@ == (BuilderView { measure: b@.measure, ..self@ }),
            b.session() == self.session(),
            b.storage() == self.storage(),
    {
        let mut b = self;
        let held = Held::new(implement);
        b.measure = Some(held);
        b
    }

    /// Binds the application's callback to the swarm.
    pub fn callback(self, callback: SharedSwarmCallback) -> (b: SwarmBuilder)
        ensures
            b@.callback matches Some(held) && held.value() == callback,
            b@ == (BuilderView { callback: b@.callback, ..self@ }),
            b.session() == self.session(),
            b.storage() == self.storage(),
    {
        let mut b = self;
        let held = Held::new(callback);
        b.callback = Some(held);
        b
    }

    /// Builds the swarm: a node under the session's account, which knows
    /// no peer, has no connection, and has nothing buffered or queued. It
    /// tells the application through the callback that was bound; where
    /// none was, it accepts everything. The ICE servers have to be a list
    /// of ICE servers.
    pub fn build(self) -> (swarm: Swarm)
        requires
            is_ice_server_list(self@.ice_servers),
        ensures
            swarm.wf(),
            swarm@.ring == fresh_ring(self.session().account(), self@.dht_succ_max as nat),
            swarm@.connections == Map::<Seq<char>, Seq<char>>::empty(),
            swarm@.buffer == Map::<u128, PendingView>::empty(),
            swarm@.pending == Seq::<TransportEvent>::empty(),
            !swarm@.canceled,
            swarm@.session.account() == self.session().account(),
            swarm@.session.created() == self.session().created(),
            swarm@.session.ttl() == built_ttl_ms(self@.session_ttl, self.session().ttl()),
            swarm@.storage == self.storage(),
            swarm@.measure == self@.measure,
            swarm@.callback == self@.callback,
    {
        let dht_did = self.session_sk.account_did();
        let dht = PeerRing::new(dht_did, self.dht_succ_max);
        assert(dht@ =~= fresh_ring(dht_did, self.dht_succ_max as nat)) by {
            assert(dht@.successors =~= Seq::<crate::did::Did>::empty());
            assert(dht@.fingers =~= Seq::new(160, |i: int| None::<crate::did::Did>));
        }
        let transport = DummyTransport::new(self.ice_servers.as_str(), self.external_address);
        let session_sk = match self.session_ttl {
            Some(secs) => {
                let ms: u64 = if secs as u64 <= u64::MAX / 1000 {
                    secs as u64 * 1000
                } else {
                    u64::MAX
                };
                self.session_sk.with_ttl(ms)
            },
            None => self.session_sk,
        };
        Swarm::assemble(
            dht,
            self.dht_storage,
            self.measure,
            session_sk,
            transport,
            InnerSwarmCallback::with_callback(dht_did, self.callback),
        )
    }
}

} // verus!
