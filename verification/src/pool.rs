//! The connections of one peer by connection id, and references to them
//! that go dead when the pool lets a connection go.

use vstd::prelude::*;
use crate::assoc::{
    distinct_keys, key_at, lemma_pairs_map_absent, lemma_pairs_map_entry, lemma_pairs_map_len,
    lemma_pairs_map_push, lemma_pairs_map_remove, pairs_map,
};
use crate::did::{parse_did, Did};
use crate::dummy::{
    after_close, close_notices, has_live, new_connection_refusal, DummyConnection, DummyNet,
    NetView, Refusal,
};
use crate::error::Error;
use crate::transport::{event_views, CallbackEvent};

verus! {

/// One registration: a connection under a connection id.
struct PoolEntry {
    cid: String,
    conn: DummyConnection,
}

/// The connections of one peer. At most one connection is registered under
/// a connection id.
pub struct Pool {
    entries: Vec<PoolEntry>,
}

/// A reference to a registered connection. It holds no connection: it has
/// to be upgraded against the pool, which refuses once the registration is
/// gone.
#[derive(Clone, Debug, PartialEq, Eq)]
pub struct ConnectionRef {
    cid: String,
    rand_id: String,
}

impl View for Pool {
    type V = Map<Seq<char>, Seq<char>>;

    closed spec fn view(&self) -> Map<Seq<char>, Seq<char>> {
        pairs_map(self.pairs())
    }
}

/// What `safely_remove` hands back and does to the fixture: where a
/// connection was registered under `cid` it is closed; where none was,
/// nothing happens.
pub open spec fn removal_outcome(
    pool: Map<Seq<char>, Seq<char>>,
    net: NetView,
    net_after: NetView,
    cid: Seq<char>,
    r: Result<Vec<CallbackEvent>, Error>,
) -> bool {
    if !pool.contains_key(cid) {
        net_after == net && (r matches Ok(events) && events@.len() == 0)
    } else if net.contains_key(pool[cid]) {
        net_after == after_close(net, pool[cid]) && (r matches Ok(events) && event_views(events@)
            == close_notices(net, pool[cid]))
    } else {
        net_after == net && (r matches Err(e) && (e matches Error::ConnectionNotFound(t) && t@
            == pool[cid]))
    }
}

impl ConnectionRef {
    pub closed spec fn cid_view(&self) -> Seq<char> {
        self.cid@
    }

    pub closed spec fn rand_id_view(&self) -> Seq<char> {
        self.rand_id@
    }

    /// The connection id that the reference was taken under.
    pub fn cid(&self) -> (s: String)
        ensures
            s@ == self.cid_view(),
    {
        self.cid.clone()
    }

    /// The connection itself, as long as the pool still registers it under
    /// the same connection id.
    pub fn upgrade(&self, pool: &Pool) -> (r: Result<DummyConnection, Error>)
        requires
            pool.wf(),
        ensures
            match r {
                Ok(conn) => pool@.contains_key(self.cid_view()) && pool@[self.cid_view()]
                    == self.rand_id_view() && conn@ == self.rand_id_view(),
                Err(e) => !(pool@.contains_key(self.cid_view()) && pool@[self.cid_view()]
                    == self.rand_id_view()) && (e matches Error::ConnectionNotFound(t) && t@
                    == self.cid_view()),
            },
    {
        match pool.position(self.cid.as_str()) {
            Some(i) => {
                if pool.entries[i].conn.rand_id().eq(&self.rand_id) {
                    Ok(DummyConnection::with_rand_id(self.rand_id.clone()))
                } else {
                    Err(Error::ConnectionNotFound(self.cid.clone()))
                }
            },
            None => Err(Error::ConnectionNotFound(self.cid.clone())),
        }
    }
}

impl Pool {
    pub closed spec fn pairs(&self) -> Seq<(Seq<char>, Seq<char>)> {
        Seq::new(self.entries@.len(), |i: int| (self.entries@[i].cid@, self.entries@[i].conn@))
    }

    /// The pool's invariant: no connection id is registered twice.
    pub closed spec fn wf(&self) -> bool {
        distinct_keys(self.pairs())
    }

    /// A pool without connections.
    pub fn new() -> (pool: Pool)
        ensures
            pool.wf(),
            pool@ == Map::<Seq<char>, Seq<char>>::empty(),
    {
        let pool = Pool { entries: Vec::new() };
        proof {
            assert forall|cid: Seq<char>| !pool@.contains_key(cid) by {
                lemma_pairs_map_absent(pool.pairs(), cid);
            }
            assert(pool@ =~= Map::<Seq<char>, Seq<char>>::empty());
        }
        pool
    }

    fn position(&self, cid: &str) -> (r: Option<usize>)
        requires
            self.wf(),
        ensures
            match r {
                Some(i) => i < self.entries@.len() && self.entries@[i as int].cid@ == cid@
                    && self@.contains_key(cid@) && self@[cid@] == self.entries@[i as int].conn@,
                None => !self@.contains_key(cid@),
            },
    {
        let wanted = cid.to_owned();
        let mut i: usize = 0;
        while i < self.entries.len()
            invariant
                i <= self.entries@.len(),
                self.wf(),
                wanted@ == cid@,
                forall|j: int| 0 <= j < i ==> (#[trigger] self.pairs()[j]).0 != cid@,
            decreases self.entries@.len() - i,
        {
            if self.entries[i].cid.eq(&wanted) {
                proof {
                    assert(self.pairs()[i as int].0 == cid@);
                    lemma_pairs_map_entry(self.pairs(), i as int);
                }
                return Some(i);
            }
            assert(self.pairs()[i as int].0 != cid@);
            i = i + 1;
        }
        proof {
            lemma_pairs_map_absent(self.pairs(), cid@);
        }
        None
    }

    /// Registers `conn` under `cid`, in place of a connection that is no
    /// longer live. Refuses where `cid` is malformed or the connection
    /// registered under it is live.
    pub fn safely_insert(&mut self, net: &DummyNet, cid: &str, conn: DummyConnection) -> (r:
        Result<(), Error>)
        requires
            old(self).wf(),
        ensures
            final(self).wf(),
            match r {
                Ok(()) => new_connection_refusal(old(self)@, net@, cid@) is None && final(self)@
                    == old(self)@.insert(cid@, conn@),
                Err(e) => final(self)@ == old(self)@ && match new_connection_refusal(
                    old(self)@,
                    net@,
                    cid@,
                ) {
                    Some(Refusal::Malformed) => e matches Error::MalformedCid(t) && t@ == cid@,
                    Some(Refusal::AlreadyExists) => e matches Error::ConnectionAlreadyExists(t)
                        && t@ == cid@,
                    None => false,
                },
            },
    {
        match Did::from_str(cid) {
            Ok(_) => {},
            Err(e) => {
                return Err(e);
            },
        }
        let ghost before = self@;
        match self.position(cid) {
            Some(i) => {
                if self.entries[i].conn.webrtc_connection_state(net).is_live() {
                    return Err(Error::ConnectionAlreadyExists(cid.to_owned()));
                }
                proof {
                    lemma_pairs_map_remove(self.pairs(), i as int);
                }
                let ghost old_pairs = self.pairs();
                self.entries.remove(i);
                assert(self.pairs() =~= old_pairs.remove(i as int));
            },
            None => {
                assert(self@.remove(cid@) =~= self@);
            },
        }
        assert(self@ == before.remove(cid@));
        proof {
            lemma_pairs_map_push(self.pairs(), cid@, conn@);
            assert(before.remove(cid@).insert(cid@, conn@) =~= before.insert(cid@, conn@));
        }
        let ghost old_pairs = self.pairs();
        self.entries.push(PoolEntry { cid: cid.to_owned(), conn });
        assert(self.pairs() =~= old_pairs.push((cid@, conn@)));
        Ok(())
    }

    /// Takes the connection registered under `cid` out of the pool and
    /// closes it.
    pub fn safely_remove(&mut self, net: &mut DummyNet, cid: &str) -> (r: Result<
        Vec<CallbackEvent>,
        Error,
    >)
        requires
            old(self).wf(),
        ensures
            final(self).wf(),
            final(self)@ == old(self)@.remove(cid@),
            removal_outcome(old(self)@, old(net)@, final(net)@, cid@, r),
    {
        match self.position(cid) {
            Some(i) => {
                proof {
                    lemma_pairs_map_remove(self.pairs(), i as int);
                }
                let ghost old_pairs = self.pairs();
                let entry = self.entries.remove(i);
                assert(self.pairs() =~= old_pairs.remove(i as int));
                entry.conn.close(net)
            },
            None => {
                assert(self@.remove(cid@) =~= self@);
                Ok(Vec::new())
            },
        }
    }

    /// A reference to the connection registered under `cid`.
    pub fn connection(&self, cid: &str) -> (r: Result<ConnectionRef, Error>)
        requires
            self.wf(),
        ensures
            match r {
                Ok(c) => self@.contains_key(cid@) && c.cid_view() == cid@ && c.rand_id_view()
                    == self@[cid@],
                Err(e) => !self@.contains_key(cid@) && (e matches Error::ConnectionNotFound(t)
                    && t@ == cid@),
            },
    {
        match self.position(cid) {
            Some(i) => Ok(
                ConnectionRef {
                    cid: cid.to_owned(),
                    rand_id: self.entries[i].conn.rand_id(),
                },
            ),
            None => Err(Error::ConnectionNotFound(cid.to_owned())),
        }
    }

    /// A reference to every connection, each with its connection id.
    pub fn connections(&self) -> (all: Vec<(String, ConnectionRef)>)
        requires
            self.wf(),
        ensures
            all@.len() == self@.dom().len(),
            forall|i: int|
                0 <= i < all@.len() ==> self@.contains_key((#[trigger] all@[i]).0@)
                    && all@[i].1.cid_view() == all@[i].0@ && all@[i].1.rand_id_view()
                    == self@[all@[i].0@],
            forall|cid: Seq<char>|
                self@.contains_key(cid) ==> exists|i: int|
                    0 <= i < all@.len() && (#[trigger] all@[i]).0@ == cid,
    {
        let mut all: Vec<(String, ConnectionRef)> = Vec::new();
        let mut i: usize = 0;
        while i < self.entries.len()
            invariant
                i <= self.entries@.len(),
                self.wf(),
                all@.len() == i,
                forall|j: int|
                    0 <= j < i ==> (#[trigger] all@[j]).0@ == self.pairs()[j].0
                        && all@[j].1.cid_view() == self.pairs()[j].0 && all@[j].1.rand_id_view()
                        == self.pairs()[j].1,
            decreases self.entries@.len() - i,
        {
            let cid = self.entries[i].cid.clone();
            let r = ConnectionRef {
                cid: self.entries[i].cid.clone(),
                rand_id: self.entries[i].conn.rand_id(),
            };
            all.push((cid, r));
            i = i + 1;
        }
        proof {
            lemma_pairs_map_len(self.pairs());
            assert forall|j: int| 0 <= j < all@.len() implies self@.contains_key(
                (#[trigger] all@[j]).0@,
            ) && all@[j].1.cid_view() == all@[j].0@ && all@[j].1.rand_id_view()
                == self@[all@[j].0@] by {
                lemma_pairs_map_entry(self.pairs(), j);
            }
            assert forall|cid: Seq<char>| self@.contains_key(cid) implies exists|j: int|
                0 <= j < all@.len() && (#[trigger] all@[j]).0@ == cid by {
                let j = choose|j: int| key_at(self.pairs(), cid, j);
                assert(key_at(self.pairs(), cid, j));
                assert(all@[j].0@ == cid);
            }
        }
        all
    }

    /// The connection ids under which a connection is registered, each
    /// once.
    pub fn connection_ids(&self) -> (ids: Vec<String>)
        requires
            self.wf(),
        ensures
            ids@.len() == self@.dom().len(),
            forall|i: int| 0 <= i < ids@.len() ==> self@.contains_key((#[trigger] ids@[i])@),
            forall|cid: Seq<char>|
                self@.contains_key(cid) ==> exists|i: int|
                    0 <= i < ids@.len() && (#[trigger] ids@[i])@ == cid,
    {
        let mut ids: Vec<String> = Vec::new();
        let mut i: usize = 0;
        while i < self.entries.len()
            invariant
                i <= self.entries@.len(),
                self.wf(),
                ids@.len() == i,
                forall|j: int| 0 <= j < i ==> (#[trigger] ids@[j])@ == self.pairs()[j].0,
            decreases self.entries@.len() - i,
        {
            ids.push(self.entries[i].cid.clone());
            i = i + 1;
        }
        proof {
            lemma_pairs_map_len(self.pairs());
            assert forall|j: int| 0 <= j < ids@.len() implies self@.contains_key(
                (#[trigger] ids@[j])@,
            ) by {
                lemma_pairs_map_entry(self.pairs(), j);
            }
            assert forall|cid: Seq<char>| self@.contains_key(cid) implies exists|j: int|
                0 <= j < ids@.len() && (#[trigger] ids@[j])@ == cid by {
                let j = choose|j: int| key_at(self.pairs(), cid, j);
                assert(key_at(self.pairs(), cid, j));
                assert(ids@[j]@ == cid);
            }
        }
        ids
    }
}

} // verus!
