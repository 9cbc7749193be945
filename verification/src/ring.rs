//! The ring table of one node: its successors, its predecessor and its
//! fingers, and the rule by which it answers or forwards a lookup.

use vstd::prelude::*;
use vstd::arithmetic::power2::{lemma2_to64, lemma_pow2_strictly_increases, lemma_pow2_unfold, pow2};
use crate::did::{
    did_of, dist, finger_start, in_half_open_arc, in_open_arc, lemma_ring_spans, ring_add, ring_distance,
    Did,
};
use crate::transport::WebrtcConnectionState;

verus! {

/// The number of fingers: one for each bit of an identifier.
pub const FINGER_COUNT: usize = 160;

/// The bound of the successor list unless another is asked for.
pub const DEFAULT_SUCC_MAX: u8 = 3;

/// The answer to a lookup.
#[derive(Clone, Copy, Debug, PartialEq, Eq, Structural)]
pub enum FindResult {
    /// This node is the target's successor.
    SelfNode,
    /// The named peer is the target's successor.
    Peer(Did),
    /// The lookup goes on at the named peer.
    Forward(Did),
}

/// The ring table as a mathematical value.
pub struct RingView {
    pub local: Did,
    pub succ_max: nat,
    pub successors: Seq<Did>,
    pub predecessor: Option<Did>,
    pub fingers: Seq<Option<Did>>,
    pub fix_index: nat,
}

/// The list is in order of clockwise distance from `local`, without
/// repetitions.
pub open spec fn sorted_from(local: Did, s: Seq<Did>) -> bool {
    forall|i: int, j: int| 0 <= i < j < s.len() ==> dist(local, s[i]) < dist(local, s[j])
}

/// A well-formed table: the successors are at most `succ_max`, in order of
/// distance, and the node names itself nowhere.
pub open spec fn ring_wf(r: RingView) -> bool {
    &&& r.successors.len() <= r.succ_max <= 255
    &&& sorted_from(r.local, r.successors)
    &&& forall|i: int| 0 <= i < r.successors.len() ==> r.successors[i] != r.local
    &&& r.predecessor != Some(r.local)
    &&& r.fingers.len() == 160
    &&& forall|i: int| 0 <= i < 160 ==> r.fingers[i] != Some(r.local)
    &&& r.fix_index < 160
}

/// `k` is where `p` belongs in the list: all before it are nearer to
/// `local`, all from it on are farther.
pub open spec fn is_insertion_point(local: Did, s: Seq<Did>, p: Did, k: int) -> bool {
    &&& 0 <= k <= s.len()
    &&& forall|i: int| 0 <= i < k ==> dist(local, #[trigger] s[i]) < dist(local, p)
    &&& forall|i: int| k <= i < s.len() ==> dist(local, #[trigger] s[i]) > dist(local, p)
}

/// Where `p` belongs in the list.
pub open spec fn insertion_point(local: Did, s: Seq<Did>, p: Did) -> int {
    choose|k: int| is_insertion_point(local, s, p, k)
}

/// The successors after `p` has joined: `p` in its place, and the farthest
/// dropped where the list would exceed `max`.
pub open spec fn join_successors(local: Did, max: nat, s: Seq<Did>, p: Did) -> Seq<Did> {
    if p == local || s.contains(p) {
        s
    } else {
        let t = s.insert(insertion_point(local, s, p), p);
        if t.len() > max {
            t.take(max as int)
        } else {
            t
        }
    }
}

/// `p` lies at or after the start of finger `i` and before the node itself:
/// it is a peer that finger `i` can name.
pub open spec fn serves_finger(local: Did, i: nat, p: Did) -> bool {
    ring_distance(finger_start(local, i), p@) < ring_distance(finger_start(local, i), local@)
}

/// Finger `i` after `p` has joined: `p` where it serves the finger and no
/// peer was known there, or `p` is nearer to the finger's start than the
/// peer that was.
pub open spec fn better_finger(local: Did, i: nat, cur: Option<Did>, p: Did) -> Option<Did> {
    if !serves_finger(local, i, p) {
        cur
    } else {
        match cur {
            None => Some(p),
            Some(c) => if ring_distance(finger_start(local, i), p@) < ring_distance(
                finger_start(local, i),
                c@,
            ) {
                Some(p)
            } else {
                cur
            },
        }
    }
}

/// The fingers after `p` has joined.
pub open spec fn join_fingers(local: Did, f: Seq<Option<Did>>, p: Did) -> Seq<Option<Did>> {
    if p == local {
        f
    } else {
        Seq::new(f.len(), |i: int| better_finger(local, i as nat, f[i], p))
    }
}

/// The table after `p` has joined.
pub open spec fn join_spec(r: RingView, p: Did) -> RingView {
    RingView {
        local: r.local,
        succ_max: r.succ_max,
        successors: join_successors(r.local, r.succ_max, r.successors, p),
        predecessor: r.predecessor,
        fingers: join_fingers(r.local, r.fingers, p),
        fix_index: r.fix_index,
    }
}

/// The list without `p`.
pub open spec fn without(s: Seq<Did>, p: Did) -> Seq<Did> {
    if s.contains(p) {
        s.remove(s.index_of(p))
    } else {
        s
    }
}

/// The table after `p` has left: `p` is named nowhere.
pub open spec fn leave_spec(r: RingView, p: Did) -> RingView {
    RingView {
        local: r.local,
        succ_max: r.succ_max,
        successors: without(r.successors, p),
        predecessor: if r.predecessor == Some(p) {
            None
        } else {
            r.predecessor
        },
        fingers: Seq::new(
            r.fingers.len(),
            |i: int|
                if r.fingers[i] == Some(p) {
                    None
                } else {
                    r.fingers[i]
                },
        ),
        fix_index: r.fix_index,
    }
}

/// A peer that claims to be the predecessor is believed where none was
/// known or it lies between the known one and this node.
pub open spec fn accepts_notify(r: RingView, p: Did) -> bool {
    p != r.local && match r.predecessor {
        None => true,
        Some(q) => in_open_arc(p@, q@, r.local@),
    }
}

/// The table after `p` has claimed to be the predecessor.
pub open spec fn notify_spec(r: RingView, p: Did) -> RingView {
    RingView {
        local: r.local,
        succ_max: r.succ_max,
        successors: r.successors,
        predecessor: if accepts_notify(r, p) {
            Some(p)
        } else {
            r.predecessor
        },
        fingers: r.fingers,
        fix_index: r.fix_index,
    }
}

/// Among the first `n` fingers, the one of highest index that lies strictly
/// between `local` and `target`.
pub open spec fn closest_preceding_finger(
    local: Did,
    fingers: Seq<Option<Did>>,
    target: Did,
    n: nat,
) -> Option<Did>
    decreases n,
{
    if n == 0 {
        None
    } else {
        match fingers[n - 1] {
            Some(d) => if in_open_arc(d@, local@, target@) {
                Some(d)
            } else {
                closest_preceding_finger(local, fingers, target, (n - 1) as nat)
            },
            None => closest_preceding_finger(local, fingers, target, (n - 1) as nat),
        }
    }
}

/// The target belongs to this node: it is the node itself, or lies after
/// the predecessor and not after the node.
pub open spec fn owns(r: RingView, target: Did) -> bool {
    target == r.local || match r.predecessor {
        Some(p) => in_half_open_arc(target@, p@, r.local@),
        None => false,
    }
}

/// The target belongs to the first successor: it lies after this node and
/// not after that successor.
pub open spec fn first_successor_owns(r: RingView, target: Did) -> bool {
    r.successors.len() > 0 && in_half_open_arc(target@, r.local@, r.successors[0]@)
}

/// The answer to a lookup of `target`. Where no finger precedes the target
/// the lookup goes on at the first successor; a node that knows no peer at
/// all answers for the whole ring.
pub open spec fn find_successor_spec(r: RingView, target: Did) -> FindResult {
    if owns(r, target) {
        FindResult::SelfNode
    } else if first_successor_owns(r, target) {
        FindResult::Peer(r.successors[0])
    } else {
        match closest_preceding_finger(r.local, r.fingers, target, 160) {
            Some(f) => FindResult::Forward(f),
            None => if r.successors.len() > 0 {
                FindResult::Forward(r.successors[0])
            } else {
                FindResult::SelfNode
            },
        }
    }
}

/// The place that the loop of `join` has found is the insertion point.
pub proof fn lemma_insertion_point(local: Did, s: Seq<Did>, p: Did, k: int)
    requires
        is_insertion_point(local, s, p, k),
    ensures
        insertion_point(local, s, p) == k,
        !s.contains(p),
{
    let c = insertion_point(local, s, p);
    assert(is_insertion_point(local, s, p, c));
    if c < k {
        assert(dist(local, s[c]) < dist(local, p));
    }
    if k < c {
        assert(dist(local, s[k]) < dist(local, p));
    }
    if s.contains(p) {
        let i = choose|i: int| 0 <= i < s.len() && s[i] == p;
        if i < k {
            assert(dist(local, s[i]) < dist(local, p));
        } else {
            assert(dist(local, s[i]) > dist(local, p));
        }
    }
}

/// Joining keeps a table well-formed.
pub proof fn lemma_join_keeps_wf(r: RingView, p: Did)
    requires
        ring_wf(r),
    ensures
        ring_wf(join_spec(r, p)),
{
    let s = r.successors;
    if p != r.local && !s.contains(p) {
        lemma_insertion_exists(r.local, s, p);
        let k = insertion_point(r.local, s, p);
        assert(is_insertion_point(r.local, s, p, k));
        let t = s.insert(k, p);
        assert(sorted_from(r.local, t)) by {
            assert forall|i: int, j: int| 0 <= i < j < t.len() implies dist(r.local, t[i]) < dist(
                r.local,
                t[j],
            ) by {
                let i0 = if i < k { i } else { i - 1 };
                let j0 = if j < k { j } else { j - 1 };
                if i != k {
                    assert(t[i] == s[i0]);
                }
                if j != k {
                    assert(t[j] == s[j0]);
                }
            }
        }
        assert forall|i: int| 0 <= i < t.len() implies t[i] != r.local by {
            let i0 = if i < k { i } else { i - 1 };
            if i != k {
                assert(t[i] == s[i0]);
            }
        }
    }
}

/// In a list in order of distance every identifier has its place, unless
/// it is in the list.
pub proof fn lemma_insertion_exists(local: Did, s: Seq<Did>, p: Did)
    requires
        sorted_from(local, s),
        !s.contains(p),
    ensures
        is_insertion_point(local, s, p, insertion_point(local, s, p)),
    decreases s.len(),
{
    if s.len() == 0 {
        assert(is_insertion_point(local, s, p, 0));
    } else {
        let init = s.drop_last();
        assert(!init.contains(p)) by {
            if init.contains(p) {
                let i = choose|i: int| 0 <= i < init.len() && init[i] == p;
                assert(s[i] == p);
            }
        }
        assert(sorted_from(local, init));
        lemma_insertion_exists(local, init, p);
        let k = insertion_point(local, init, p);
        let last = s.last();
        assert(s[s.len() - 1] == last);
        if dist(local, last) == dist(local, p) {
            crate::did::lemma_dist_injective(local, last, p);
            assert(s.contains(p));
        }
        if dist(local, last) < dist(local, p) {
            assert forall|i: int| 0 <= i < s.len() implies dist(local, #[trigger] s[i]) < dist(
                local,
                p,
            ) by {
                if i < s.len() - 1 {
                    assert(dist(local, s[i]) < dist(local, s[s.len() - 1]));
                }
            }
            assert(is_insertion_point(local, s, p, s.len() as int));
        } else {
            assert forall|i: int| 0 <= i < k implies dist(local, #[trigger] s[i]) < dist(
                local,
                p,
            ) by {
                assert(s[i] == init[i]);
            }
            assert forall|i: int| k <= i < s.len() implies dist(local, #[trigger] s[i]) > dist(
                local,
                p,
            ) by {
                if i < init.len() {
                    assert(s[i] == init[i]);
                }
            }
            assert(is_insertion_point(local, s, p, k));
        }
    }
}

/// The ring table of one node.
pub struct PeerRing {
    did: Did,
    succ_max: u8,
    successors: Vec<Did>,
    predecessor: Option<Did>,
    fingers: Vec<Option<Did>>,
    fix_index: u8,
}

impl View for PeerRing {
    type V = RingView;

    closed spec fn view(&self) -> RingView {
        RingView {
            local: self.did,
            succ_max: self.succ_max as nat,
            successors: self.successors@,
            predecessor: self.predecessor,
            fingers: self.fingers@,
            fix_index: self.fix_index as nat,
        }
    }
}

impl PeerRing {
    /// The table's invariant.
    pub open spec fn wf(&self) -> bool {
        ring_wf(self@)
    }

    /// The table of a node that knows no peer.
    pub fn new(did: Did, succ_max: u8) -> (ring: PeerRing)
        ensures
            ring.wf(),
            ring@.local == did,
            ring@.succ_max == succ_max,
            ring@.successors.len() == 0,
            ring@.predecessor is None,
            ring@.fingers.len() == 160,
            forall|i: int| 0 <= i < 160 ==> ring@.fingers[i] is None,
            ring@.fix_index == 0,
    {
        let mut fingers: Vec<Option<Did>> = Vec::new();
        let mut i: usize = 0;
        while i < FINGER_COUNT
            invariant
                i <= 160,
                fingers@.len() == i,
                forall|j: int| 0 <= j < i ==> fingers@[j] is None,
            decreases 160 - i,
        {
            fingers.push(None);
            i = i + 1;
        }
        PeerRing {
            did,
            succ_max,
            successors: Vec::new(),
            predecessor: None,
            fingers,
            fix_index: 0,
        }
    }

    /// The identifier of the node.
    pub fn did(&self) -> (d: Did)
        ensures
            d == self@.local,
    {
        self.did
    }

    /// The bound of the successor list.
    pub fn succ_max(&self) -> (n: u8)
        ensures
            n == self@.succ_max,
    {
        self.succ_max
    }

    /// The successors, nearest first.
    pub fn successors(&self) -> (s: Vec<Did>)
        ensures
            s@ == self@.successors,
    {
        self.successors.clone()
    }

    /// The nearest successor.
    pub fn first_successor(&self) -> (s: Option<Did>)
        ensures
            s == (if self@.successors.len() > 0 {
                Some(self@.successors[0])
            } else {
                None
            }),
    {
        if self.successors.len() > 0 {
            Some(self.successors[0])
        } else {
            None
        }
    }

    /// The predecessor, where one is known.
    pub fn predecessor(&self) -> (p: Option<Did>)
        ensures
            p == self@.predecessor,
    {
        self.predecessor
    }

    /// Finger `i`.
    pub fn finger(&self, i: u8) -> (f: Option<Did>)
        requires
            self.wf(),
            i < 160,
        ensures
            f == self@.fingers[i as int],
    {
        self.fingers[i as usize]
    }

    /// Takes `peer` into the successor list and into every finger that it
    /// serves better than the peer known there.
    pub fn join(&mut self, peer: Did)
        requires
            old(self).wf(),
        ensures
            final(self).wf(),
            final(self)@ == join_spec(old(self)@, peer),
    {
        proof {
            lemma_join_keeps_wf(self@, peer);
        }
        if peer == self.did {
            return ;
        }
        let ghost before = self@;
        let target = self.did.distance_to(&peer);
        let n = self.successors.len();
        let mut k: usize = 0;
        let mut stop = false;
        let mut present = false;
        while k < n && !stop
            invariant
                k <= n,
                n == self.successors@.len(),
                self@ == before,
                ring_wf(before),
                target@ == dist(before.local, peer),
                forall|i: int| 0 <= i < k ==> dist(before.local, #[trigger] before.successors[i])
                    < dist(before.local, peer),
                stop ==> k < n && dist(before.local, before.successors[k as int]) >= dist(
                    before.local,
                    peer,
                ),
                present == (stop && before.successors[k as int] == peer),
            decreases n - k + (if stop { 0int } else { 1int }),
        {
            let d = self.did.distance_to(&self.successors[k]);
            if d.lt(&target) {
                k = k + 1;
            } else {
                stop = true;
                present = self.successors[k] == peer;
                proof {
                    if dist(before.local, before.successors[k as int]) == dist(before.local, peer) {
                        crate::did::lemma_dist_injective(
                            before.local,
                            before.successors[k as int],
                            peer,
                        );
                    }
                }
            }
        }
        if !present {
            proof {
                assert forall|i: int| k <= i < n implies dist(
                    before.local,
                    #[trigger] before.successors[i],
                ) > dist(before.local, peer) by {
                    if i > k {
                        assert(dist(before.local, before.successors[k as int]) < dist(
                            before.local,
                            before.successors[i],
                        ));
                    }
                    if dist(before.local, before.successors[k as int]) == dist(before.local, peer) {
                        crate::did::lemma_dist_injective(
                            before.local,
                            before.successors[k as int],
                            peer,
                        );
                    }
                }
                assert(is_insertion_point(before.local, before.successors, peer, k as int));
                lemma_insertion_point(before.local, before.successors, peer, k as int);
            }
            self.successors.insert(k, peer);
            if self.successors.len() > self.succ_max as usize {
                self.successors.truncate(self.succ_max as usize);
            }
        } else {
            assert(before.successors.contains(peer));
        }
        assert(self.successors@ == join_successors(
            before.local,
            before.succ_max,
            before.successors,
            peer,
        ));
        let mut step = Did::one();
        let mut i: usize = 0;
        proof {
            lemma2_to64();
        }
        while i < FINGER_COUNT
            invariant
                i <= 160,
                self.did == before.local,
                self.succ_max == before.succ_max,
                self.predecessor == before.predecessor,
                self.fix_index == before.fix_index,
                self.successors@ == join_successors(
                    before.local,
                    before.succ_max,
                    before.successors,
                    peer,
                ),
                before.fingers.len() == 160,
                self.fingers@.len() == 160,
                i < 160 ==> step@ == pow2(i as nat),
                forall|j: int|
                    0 <= j < i ==> self.fingers@[j] == better_finger(
                        before.local,
                        j as nat,
                        before.fingers[j],
                        peer,
                    ),
                forall|j: int| i <= j < 160 ==> self.fingers@[j] == before.fingers[j],
            decreases 160 - i,
        {
            let start = self.did.wrapping_add(&step);
            let reach = start.distance_to(&peer);
            let better = reach.lt(&start.distance_to(&self.did)) && match self.fingers[i] {
                None => true,
                Some(cur) => reach.lt(&start.distance_to(&cur)),
            };
            if better {
                self.fingers.set(i, Some(peer));
            }
            proof {
                if i + 1 < 160 {
                    lemma_ring_spans();
                    lemma_pow2_unfold((i + 1) as nat);
                    lemma_pow2_strictly_increases((i + 1) as nat, 160);
                }
            }
            step = step.wrapping_add(&step);
            i = i + 1;
        }
        assert(self.fingers@ =~= join_fingers(before.local, before.fingers, peer));
    }

    /// Forgets `peer`: it leaves the successor list and every finger, and
    /// the predecessor is cleared if it was `peer`.
    pub fn leave(&mut self, peer: Did)
        requires
            old(self).wf(),
        ensures
            final(self).wf(),
            final(self)@ == leave_spec(old(self)@, peer),
    {
        let ghost before = self@;
        let n = self.successors.len();
        let mut k: usize = 0;
        let mut found = false;
        while k < n && !found
            invariant
                k <= n,
                n == self.successors@.len(),
                self@ == before,
                forall|i: int| 0 <= i < k ==> before.successors[i] != peer,
                found ==> k < n && before.successors[k as int] == peer,
            decreases n - k + (if found { 0int } else { 1int }),
        {
            if self.successors[k] == peer {
                found = true;
            } else {
                k = k + 1;
            }
        }
        if found {
            proof {
                let s = before.successors;
                assert(s.contains(peer));
                let j = s.index_of(peer);
                assert(0 <= j < s.len() && s[j] == peer);
                if j != k {
                    if j < k {
                        assert(dist(before.local, s[j]) < dist(before.local, s[k as int]));
                    } else {
                        assert(dist(before.local, s[k as int]) < dist(before.local, s[j]));
                    }
                }
                let t = s.remove(k as int);
                assert forall|a: int, b: int| 0 <= a < b < t.len() implies dist(
                    before.local,
                    t[a],
                ) < dist(before.local, t[b]) by {
                    let a0 = if a < k { a } else { a + 1 };
                    let b0 = if b < k { b } else { b + 1 };
                    assert(t[a] == s[a0]);
                    assert(t[b] == s[b0]);
                }
                assert forall|a: int| 0 <= a < t.len() implies t[a] != before.local by {
                    let a0 = if a < k { a } else { a + 1 };
                    assert(t[a] == s[a0]);
                }
            }
            self.successors.remove(k);
        } else {
            assert(!before.successors.contains(peer));
        }
        match self.predecessor {
            Some(p) => {
                if p == peer {
                    self.predecessor = None;
                }
            },
            None => {},
        }
        let mut i: usize = 0;
        while i < FINGER_COUNT
            invariant
                i <= 160,
                self.did == before.local,
                self.succ_max == before.succ_max,
                self.fix_index == before.fix_index,
                self.successors@ == without(before.successors, peer),
                self.predecessor == leave_spec(before, peer).predecessor,
                before.fingers.len() == 160,
                self.fingers@.len() == 160,
                forall|j: int|
                    0 <= j < i ==> self.fingers@[j] == (if before.fingers[j] == Some(peer) {
                        None
                    } else {
                        before.fingers[j]
                    }),
                forall|j: int| i <= j < 160 ==> self.fingers@[j] == before.fingers[j],
            decreases 160 - i,
        {
            match self.fingers[i] {
                Some(f) => {
                    if f == peer {
                        self.fingers.set(i, None);
                    }
                },
                None => {},
            }
            i = i + 1;
        }
        assert(self.fingers@ =~= leave_spec(before, peer).fingers);
    }

    /// Hears `peer` claim to be the predecessor. Says whether the claim was
    /// believed.
    pub fn notify(&mut self, peer: Did) -> (accepted: bool)
        requires
            old(self).wf(),
        ensures
            final(self).wf(),
            accepted == accepts_notify(old(self)@, peer),
            final(self)@ == notify_spec(old(self)@, peer),
    {
        if peer == self.did {
            return false;
        }
        let accepted = match self.predecessor {
            None => true,
            Some(q) => peer.is_between(&q, &self.did),
        };
        if accepted {
            self.predecessor = Some(peer);
        }
        accepted
    }

    /// The finger of highest index that lies strictly between this node and
    /// `target`.
    pub fn closest_preceding_finger(&self, target: Did) -> (r: Option<Did>)
        requires
            self.wf(),
        ensures
            r == closest_preceding_finger(self@.local, self@.fingers, target, 160),
    {
        let mut n: usize = FINGER_COUNT;
        while n > 0
            invariant
                n <= 160,
                self.fingers@.len() == 160,
                closest_preceding_finger(self@.local, self@.fingers, target, 160)
                    == closest_preceding_finger(self@.local, self@.fingers, target, n as nat),
            decreases n,
        {
            match self.fingers[n - 1] {
                Some(d) => {
                    if d.is_between(&self.did, &target) {
                        return Some(d);
                    }
                },
                None => {},
            }
            n = n - 1;
        }
        None
    }

    /// Answers a lookup of `target`.
    pub fn find_successor(&self, target: Did) -> (r: FindResult)
        requires
            self.wf(),
        ensures
            r == find_successor_spec(self@, target),
    {
        if target == self.did {
            return FindResult::SelfNode;
        }
        match self.predecessor {
            Some(p) => {
                if target.is_between_closed(&p, &self.did) {
                    return FindResult::SelfNode;
                }
            },
            None => {},
        }
        if self.successors.len() > 0 {
            let first = self.successors[0];
            if target.is_between_closed(&self.did, &first) {
                return FindResult::Peer(first);
            }
        }
        match self.closest_preceding_finger(target) {
            Some(f) => FindResult::Forward(f),
            None => {
                if self.successors.len() > 0 {
                    FindResult::Forward(self.successors[0])
                } else {
                    FindResult::SelfNode
                }
            },
        }
    }
}


/// The table after the first successor has named `x` as its predecessor:
/// `x` becomes the first successor if it lies between this node and that
/// successor.
pub open spec fn stabilize_spec(r: RingView, x: Did) -> RingView {
    if r.successors.len() > 0 && in_open_arc(x@, r.local@, r.successors[0]@) {
        RingView {
            local: r.local,
            succ_max: r.succ_max,
            successors: join_successors(r.local, r.succ_max, r.successors, x),
            predecessor: r.predecessor,
            fingers: r.fingers,
            fix_index: r.fix_index,
        }
    } else {
        r
    }
}

/// The table after finger `i` has been looked up and `found` was the
/// answer. A finger never names the node itself.
pub open spec fn fix_finger_spec(r: RingView, i: nat, found: Option<Did>) -> RingView {
    RingView {
        local: r.local,
        succ_max: r.succ_max,
        successors: r.successors,
        predecessor: r.predecessor,
        fingers: r.fingers.update(
            i as int,
            if found == Some(r.local) {
                None
            } else {
                found
            },
        ),
        fix_index: r.fix_index,
    }
}

/// The table with another round-robin index and nothing else changed.
pub open spec fn with_fix_index(r: RingView, i: nat) -> RingView {
    RingView {
        local: r.local,
        succ_max: r.succ_max,
        successors: r.successors,
        predecessor: r.predecessor,
        fingers: r.fingers,
        fix_index: i,
    }
}

/// The table without its predecessor.
pub open spec fn without_predecessor(r: RingView) -> RingView {
    RingView {
        local: r.local,
        succ_max: r.succ_max,
        successors: r.successors,
        predecessor: None,
        fingers: r.fingers,
        fix_index: r.fix_index,
    }
}

/// A peer that lies between the node and its first successor becomes the
/// first successor when the node stabilizes with it.
pub proof fn lemma_stabilize_puts_first(r: RingView, x: Did)
    requires
        ring_wf(r),
        r.succ_max >= 1,
        r.successors.len() > 0,
        in_open_arc(x@, r.local@, r.successors[0]@),
    ensures
        ring_wf(stabilize_spec(r, x)),
        stabilize_spec(r, x).successors[0] == x,
{
    lemma_join_keeps_wf(r, x);
    lemma_join_first_successor(r, x);
}

impl PeerRing {
    /// Step one of a stabilizer tick, once the first successor has named
    /// its predecessor `x`.
    pub fn stabilize(&mut self, x: Did)
        requires
            old(self).wf(),
        ensures
            final(self).wf(),
            final(self)@ == stabilize_spec(old(self)@, x),
    {
        if self.successors.len() == 0 {
            return ;
        }
        let first = self.successors[0];
        if !x.is_between(&self.did, &first) {
            return ;
        }
        let ghost before = self@;
        proof {
            lemma_join_keeps_wf(before, x);
        }
        proof {
            assert forall|i: int| 0 <= i < before.successors.len() implies dist(
                before.local,
                #[trigger] before.successors[i],
            ) > dist(before.local, x) by {
                if i > 0 {
                    assert(dist(before.local, before.successors[0]) < dist(
                        before.local,
                        before.successors[i],
                    ));
                }
            }
            assert(is_insertion_point(before.local, before.successors, x, 0));
            lemma_insertion_point(before.local, before.successors, x, 0);
        }
        self.successors.insert(0, x);
        if self.successors.len() > self.succ_max as usize {
            self.successors.truncate(self.succ_max as usize);
        }
        assert(self.successors@ == join_successors(
            before.local,
            before.succ_max,
            before.successors,
            x,
        ));
    }

    /// Step three of a stabilizer tick: the finger whose turn it is, and
    /// the key to look up for it. The turn passes to the next finger.
    pub fn next_finger(&mut self) -> (r: (u8, Did))
        requires
            old(self).wf(),
        ensures
            final(self).wf(),
            r.0 == old(self)@.fix_index,
            r.1@ == finger_start(old(self)@.local, old(self)@.fix_index),
            final(self)@ == with_fix_index(
                old(self)@,
                if old(self)@.fix_index == 159 {
                    0
                } else {
                    old(self)@.fix_index + 1
                },
            ),
    {
        let i = self.fix_index;
        let key = self.did.finger_start(i);
        self.fix_index = if i == 159 {
            0
        } else {
            i + 1
        };
        (i, key)
    }

    /// Records the answer to the lookup for finger `i`.
    pub fn fix_finger(&mut self, i: u8, found: Option<Did>)
        requires
            old(self).wf(),
            i < 160,
        ensures
            final(self).wf(),
            final(self)@ == fix_finger_spec(old(self)@, i as nat, found),
    {
        let entry = match found {
            Some(d) => if d == self.did {
                None
            } else {
                Some(d)
            },
            None => None,
        };
        self.fingers.set(i as usize, entry);
    }

    /// Step four of a stabilizer tick: the predecessor is forgotten unless
    /// its connection is `Connected`.
    pub fn check_predecessor(&mut self, state: WebrtcConnectionState)
        requires
            old(self).wf(),
        ensures
            final(self).wf(),
            final(self)@ == (if state == WebrtcConnectionState::Connected {
                old(self)@
            } else {
                without_predecessor(old(self)@)
            }),
    {
        if state != WebrtcConnectionState::Connected {
            self.predecessor = None;
        }
    }

    /// Step five of a stabilizer tick, for one peer: a peer whose
    /// connection is `Closed` or `Failed` is forgotten, and the key to look
    /// up for a replacement is handed back: the point next to this node.
    pub fn reap(&mut self, peer: Did, state: WebrtcConnectionState) -> (r: Option<Did>)
        requires
            old(self).wf(),
        ensures
            final(self).wf(),
            match r {
                Some(key) => (state == WebrtcConnectionState::Closed || state
                    == WebrtcConnectionState::Failed) && final(self)@ == leave_spec(
                    old(self)@,
                    peer,
                ) && key@ == ring_add(old(self)@.local@, 1),
                None => !(state == WebrtcConnectionState::Closed || state
                    == WebrtcConnectionState::Failed) && final(self)@ == old(self)@,
            },
    {
        match state {
            WebrtcConnectionState::Closed => {},
            WebrtcConnectionState::Failed => {},
            _ => {
                return None;
            },
        }
        self.leave(peer);
        Some(self.did.wrapping_add(&Did::one()))
    }
}

/// The table after each of `peers` has joined, in turn.
pub open spec fn joined_all(r: RingView, peers: Seq<Did>) -> RingView
    decreases peers.len(),
{
    if peers.len() == 0 {
        r
    } else {
        join_spec(joined_all(r, peers.drop_last()), peers.last())
    }
}

/// The table after each of `peers` has claimed to be the predecessor, in
/// turn.
pub open spec fn notified_all(r: RingView, peers: Seq<Did>) -> RingView
    decreases peers.len(),
{
    if peers.len() == 0 {
        r
    } else {
        notify_spec(notified_all(r, peers.drop_last()), peers.last())
    }
}

/// One join leaves in the successor list only who was there or has joined,
/// and puts first whoever of them is nearest.
pub proof fn lemma_join_first_successor(r: RingView, p: Did)
    requires
        ring_wf(r),
        r.succ_max >= 1,
        p != r.local,
    ensures
        join_spec(r, p).successors.len() > 0,
        dist(r.local, join_spec(r, p).successors[0]) <= dist(r.local, p),
        r.successors.len() > 0 ==> dist(r.local, join_spec(r, p).successors[0]) <= dist(
            r.local,
            r.successors[0],
        ),
        join_spec(r, p).successors[0] == p || (r.successors.len() > 0 && join_spec(
            r,
            p,
        ).successors[0] == r.successors[0]),
{
    let s = r.successors;
    if s.contains(p) {
        let i = choose|i: int| 0 <= i < s.len() && s[i] == p;
        if i > 0 {
            assert(dist(r.local, s[0]) < dist(r.local, s[i]));
        }
    } else {
        lemma_insertion_exists(r.local, s, p);
        let k = insertion_point(r.local, s, p);
        assert(is_insertion_point(r.local, s, p, k));
        let t = s.insert(k, p);
        if k == 0 {
            assert(t[0] == p);
            if s.len() > 0 {
                assert(dist(r.local, s[0]) > dist(r.local, p));
            }
        } else {
            assert(t[0] == s[0]);
            assert(dist(r.local, s[0]) < dist(r.local, p));
        }
    }
}

/// A node that has taken in every peer it is connected to has the nearest
/// of them as its first successor: none of them lies between the node and
/// that successor.
pub proof fn lemma_joined_all_first_successor(r: RingView, peers: Seq<Did>)
    requires
        ring_wf(r),
        r.succ_max >= 1,
        r.successors.len() == 0,
        exists|i: int| 0 <= i < peers.len() && peers[i] != r.local,
    ensures
        ring_wf(joined_all(r, peers)),
        joined_all(r, peers).local == r.local,
        joined_all(r, peers).successors.len() > 0,
        peers.contains(joined_all(r, peers).successors[0]),
        forall|i: int|
            0 <= i < peers.len() && peers[i] != r.local ==> dist(
                r.local,
                joined_all(r, peers).successors[0],
            ) <= dist(r.local, #[trigger] peers[i]),
{
    lemma_joined_all_head(r, peers);
}

proof fn lemma_joined_all_head(r: RingView, peers: Seq<Did>)
    requires
        ring_wf(r),
        r.succ_max >= 1,
        r.successors.len() == 0,
    ensures
        ring_wf(joined_all(r, peers)),
        joined_all(r, peers).local == r.local,
        joined_all(r, peers).succ_max == r.succ_max,
        (exists|i: int| 0 <= i < peers.len() && peers[i] != r.local) ==> joined_all(
            r,
            peers,
        ).successors.len() > 0,
        joined_all(r, peers).successors.len() > 0 ==> peers.contains(
            joined_all(r, peers).successors[0],
        ),
        forall|i: int|
            0 <= i < peers.len() && peers[i] != r.local ==> joined_all(r, peers).successors.len()
                > 0 && dist(r.local, joined_all(r, peers).successors[0]) <= dist(
                r.local,
                #[trigger] peers[i],
            ),
    decreases peers.len(),
{
    if peers.len() > 0 {
        let init = peers.drop_last();
        let p = peers.last();
        lemma_joined_all_head(r, init);
        let mid = joined_all(r, init);
        lemma_join_keeps_wf(mid, p);
        let end = join_spec(mid, p);
        assert(end == joined_all(r, peers));
        assert forall|i: int| 0 <= i < init.len() implies peers[i] == init[i] by {}
        if p != r.local {
            lemma_join_first_successor(mid, p);
            assert(peers[peers.len() - 1] == p);
            if end.successors[0] != p {
                let j = choose|j: int| 0 <= j < init.len() && init[j] == mid.successors[0];
                assert(peers[j] == end.successors[0]);
            }
            assert forall|i: int| 0 <= i < peers.len() && peers[i] != r.local implies dist(
                r.local,
                end.successors[0],
            ) <= dist(r.local, #[trigger] peers[i]) by {
                if i < init.len() {
                    assert(init[i] == peers[i]);
                }
            }
        } else {
            assert(end.successors == mid.successors);
            if end.successors.len() > 0 {
                let j = choose|j: int| 0 <= j < init.len() && init[j] == mid.successors[0];
                assert(peers[j] == end.successors[0]);
            }
            assert forall|i: int| 0 <= i < peers.len() && peers[i] != r.local implies end.successors.len()
                > 0 && dist(r.local, end.successors[0]) <= dist(r.local, #[trigger] peers[i]) by {
                assert(i < init.len());
                assert(init[i] == peers[i]);
            }
            if exists|i: int| 0 <= i < peers.len() && peers[i] != r.local {
                let i = choose|i: int| 0 <= i < peers.len() && peers[i] != r.local;
                assert(init[i] == peers[i]);
            }
        }
    }
}

/// A node that has heard every one of `peers` claim to be its predecessor
/// holds the nearest of them: none of them lies between that predecessor
/// and the node.
pub proof fn lemma_notified_all_predecessor(r: RingView, peers: Seq<Did>)
    requires
        ring_wf(r),
        r.predecessor is None,
        exists|i: int| 0 <= i < peers.len() && peers[i] != r.local,
    ensures
        ring_wf(notified_all(r, peers)),
        notified_all(r, peers).predecessor is Some,
        peers.contains(notified_all(r, peers).predecessor.unwrap()),
        forall|i: int|
            0 <= i < peers.len() && peers[i] != r.local ==> dist(
                notified_all(r, peers).predecessor.unwrap(),
                r.local,
            ) <= dist(#[trigger] peers[i], r.local),
{
    lemma_notified_all_nearest(r, peers);
}

proof fn lemma_notified_all_nearest(r: RingView, peers: Seq<Did>)
    requires
        ring_wf(r),
        r.predecessor is None,
    ensures
        ring_wf(notified_all(r, peers)),
        notified_all(r, peers).local == r.local,
        (exists|i: int| 0 <= i < peers.len() && peers[i] != r.local) ==> notified_all(
            r,
            peers,
        ).predecessor is Some,
        notified_all(r, peers).predecessor is Some ==> peers.contains(
            notified_all(r, peers).predecessor.unwrap(),
        ),
        forall|i: int|
            0 <= i < peers.len() && peers[i] != r.local ==> notified_all(r, peers).predecessor
                is Some && dist(notified_all(r, peers).predecessor.unwrap(), r.local) <= dist(
                #[trigger] peers[i],
                r.local,
            ),
    decreases peers.len(),
{
    if peers.len() > 0 {
        let init = peers.drop_last();
        let p = peers.last();
        lemma_notified_all_nearest(r, init);
        let mid = notified_all(r, init);
        let end = notify_spec(mid, p);
        assert(end == notified_all(r, peers));
        assert(peers[peers.len() - 1] == p);
        if end.predecessor is Some {
            if end.predecessor == Some(p) {
            } else {
                let j = choose|j: int| 0 <= j < init.len() && init[j] == mid.predecessor.unwrap();
                assert(peers[j] == end.predecessor.unwrap());
            }
        }
        assert forall|i: int| 0 <= i < peers.len() && peers[i] != r.local implies end.predecessor
            is Some && dist(end.predecessor.unwrap(), r.local) <= dist(
            #[trigger] peers[i],
            r.local,
        ) by {
            if i < init.len() {
                assert(init[i] == peers[i]);
            }
        }
        if exists|i: int| 0 <= i < peers.len() && peers[i] != r.local {
            let i = choose|i: int| 0 <= i < peers.len() && peers[i] != r.local;
            if i < init.len() {
                assert(init[i] == peers[i]);
            }
        }
    }
}

/// The table of a node that knows no peer.
pub open spec fn fresh_ring(local: Did, succ_max: nat) -> RingView {
    RingView {
        local,
        succ_max,
        successors: Seq::empty(),
        predecessor: None,
        fingers: Seq::new(160, |i: int| None),
        fix_index: 0,
    }
}

/// Joining names nobody in a finger but who has joined.
pub proof fn lemma_joined_all_fingers(r: RingView, peers: Seq<Did>)
    requires
        r.fingers.len() == 160,
        forall|i: int| 0 <= i < 160 ==> r.fingers[i] is None,
    ensures
        joined_all(r, peers).fingers.len() == 160,
        joined_all(r, peers).local == r.local,
        forall|i: int|
            0 <= i < 160 && (#[trigger] joined_all(r, peers).fingers[i]) is Some
                ==> peers.contains(joined_all(r, peers).fingers[i].unwrap()),
    decreases peers.len(),
{
    if peers.len() > 0 {
        let init = peers.drop_last();
        let p = peers.last();
        lemma_joined_all_fingers(r, init);
        let mid = joined_all(r, init);
        let end = join_spec(mid, p);
        assert(peers[peers.len() - 1] == p);
        assert forall|i: int| 0 <= i < 160 && (#[trigger] end.fingers[i]) is Some implies peers.contains(
            end.fingers[i].unwrap(),
        ) by {
            if end.fingers[i] != Some(p) {
                assert(mid.fingers[i] is Some);
                let j = choose|j: int| 0 <= j < init.len() && init[j] == mid.fingers[i].unwrap();
                assert(peers[j] == init[j]);
            }
        }
    }
}

/// A node that is connected to every other, has taken each of them in and
/// has heard from the one before it on the ring, has converged: its first
/// successor and its predecessor are its nearest neighbours among all the
/// nodes, and its fingers name nodes.
pub proof fn lemma_fully_connected_node_converges(
    local: Did,
    succ_max: nat,
    peers: Seq<Did>,
    before: Did,
)
    requires
        1 <= succ_max <= 255,
        peers.contains(before),
        before != local,
        forall|i: int|
            0 <= i < peers.len() && peers[i] != local ==> dist(before, local) <= dist(
                #[trigger] peers[i],
                local,
            ),
    ensures
        ring_wf(notify_spec(joined_all(fresh_ring(local, succ_max), peers), before)),
        converged(
            notify_spec(joined_all(fresh_ring(local, succ_max), peers), before),
            peers.to_set().insert(local),
        ),
{
    reveal(converged);
    let fresh = fresh_ring(local, succ_max);
    let joined = joined_all(fresh, peers);
    let last = notify_spec(joined, before);
    let nodes = peers.to_set().insert(local);
    let k = choose|k: int| 0 <= k < peers.len() && peers[k] == before;
    assert(peers[k] != local);
    lemma_joined_all_first_successor(fresh, peers);
    lemma_joined_all_fingers(fresh, peers);
    lemma_joined_all_predecessor(fresh, peers);
    assert(last.predecessor == Some(before));
    assert forall|m: Did| nodes.contains(m) && m != local implies dist(
        local,
        last.successors[0],
    ) <= dist(local, m) by {
        let j = choose|j: int| 0 <= j < peers.len() && peers[j] == m;
        assert(peers[j] != local);
    }
    assert forall|m: Did| nodes.contains(m) && m != local implies dist(before, local) <= dist(
        m,
        local,
    ) by {
        let j = choose|j: int| 0 <= j < peers.len() && peers[j] == m;
        assert(peers[j] != local);
    }
}

/// Joining tells nothing of the predecessor.
pub proof fn lemma_joined_all_predecessor(r: RingView, peers: Seq<Did>)
    ensures
        joined_all(r, peers).predecessor == r.predecessor,
    decreases peers.len(),
{
    if peers.len() > 0 {
        lemma_joined_all_predecessor(r, peers.drop_last());
    }
}

/// Where `x` is the nearest node clockwise of `p`, `p` is the nearest node
/// counter-clockwise of `x`: a node is notified by its true predecessor.
pub proof fn lemma_successor_of_is_predecessor_of(nodes: Set<Did>, p: Did, x: Did)
    requires
        nodes.contains(p),
        nodes.contains(x),
        p != x,
        forall|m: Did| nodes.contains(m) && m != p ==> dist(p, x) <= dist(p, m),
    ensures
        forall|m: Did| nodes.contains(m) && m != x ==> dist(p, x) <= dist(m, x),
{
    assert forall|m: Did| nodes.contains(m) && m != x implies dist(p, x) <= dist(m, x) by {
        if m != p {
            assert(dist(p, x) <= dist(p, m));
        }
    }
}

/// `n` is the node that a key belongs to: the first node at or clockwise of
/// the key.
pub open spec fn is_owner(n: Did, key: Did, nodes: Set<Did>) -> bool {
    nodes.contains(n) && forall|m: Did| nodes.contains(m) ==> dist(key, n) <= dist(key, m)
}

/// The table of a node of a ring that has converged: its first successor
/// and its predecessor are its nearest neighbours among `nodes`, and its
/// fingers name nodes.
#[verifier::opaque]
pub open spec fn converged(r: RingView, nodes: Set<Did>) -> bool {
    &&& nodes.contains(r.local)
    &&& r.successors.len() > 0
    &&& nodes.contains(r.successors[0])
    &&& forall|m: Did|
        nodes.contains(m) && m != r.local ==> dist(r.local, r.successors[0]) <= dist(r.local, m)
    &&& r.predecessor is Some
    &&& nodes.contains(r.predecessor.unwrap())
    &&& forall|m: Did|
        nodes.contains(m) && m != r.local ==> dist(r.predecessor.unwrap(), r.local) <= dist(
            m,
            r.local,
        )
    &&& forall|i: int|
        0 <= i < r.fingers.len() && (#[trigger] r.fingers[i]) is Some ==> nodes.contains(
            r.fingers[i].unwrap(),
        )
}

/// A finger that precedes the target is a finger, and lies strictly between
/// the node and the target.
pub proof fn lemma_closest_preceding_finger(
    local: Did,
    fingers: Seq<Option<Did>>,
    target: Did,
    n: nat,
)
    requires
        n <= fingers.len(),
    ensures
        match closest_preceding_finger(local, fingers, target, n) {
            Some(f) => in_open_arc(f@, local@, target@) && exists|i: int|
                0 <= i < n && fingers[i] == Some(f),
            None => forall|i: int|
                0 <= i < n && (#[trigger] fingers[i]) is Some ==> !in_open_arc(
                    fingers[i].unwrap()@,
                    local@,
                    target@,
                ),
        },
    decreases n,
{
    if n > 0 {
        lemma_closest_preceding_finger(local, fingers, target, (n - 1) as nat);
        match closest_preceding_finger(local, fingers, target, n) {
            Some(f) => {
                if fingers[n - 1] == Some(f) && in_open_arc(f@, local@, target@) {
                } else {
                    let i = choose|i: int| 0 <= i < n - 1 && fingers[i] == Some(f);
                    assert(0 <= i < n && fingers[i] == Some(f));
                }
            },
            None => {},
        }
    }
}

/// In a ring that has converged, a node answers a lookup with the key's
/// owner, or forwards it to a node strictly between itself and the key.
pub proof fn lemma_lookup_step(r: RingView, nodes: Set<Did>, key: Did)
    requires
        ring_wf(r),
        converged(r, nodes),
    ensures
        match find_successor_spec(r, key) {
            FindResult::SelfNode => is_owner(r.local, key, nodes),
            FindResult::Peer(s) => is_owner(s, key, nodes),
            FindResult::Forward(f) => nodes.contains(f) && in_open_arc(f@, r.local@, key@),
        },
{
    reveal(converged);
    let p = r.predecessor.unwrap();
    let s0 = r.successors[0];
    assert(s0 != r.local);
    if owns(r, key) {
        assert forall|m: Did| nodes.contains(m) implies dist(key, r.local) <= dist(key, m) by {
            if m != r.local {
                assert(dist(p, r.local) <= dist(m, r.local));
            }
        }
    } else if first_successor_owns(r, key) {
        assert forall|m: Did| nodes.contains(m) implies dist(key, s0) <= dist(key, m) by {
            if m != r.local {
                assert(dist(r.local, s0) <= dist(r.local, m));
            }
        }
    } else {
        lemma_closest_preceding_finger(r.local, r.fingers, key, 160);
        match closest_preceding_finger(r.local, r.fingers, key, 160) {
            Some(f) => {
                let i = choose|i: int| 0 <= i < 160 && r.fingers[i] == Some(f);
                assert(r.fingers[i] is Some);
            },
            None => {},
        }
    }
}

/// The nodes strictly between `at` and `key`.
pub open spec fn ahead(nodes: Set<Did>, at: Did, key: Did) -> Set<Did> {
    nodes.filter(|m: Did| in_open_arc(m@, at@, key@))
}

/// Every node of `nodes` has a well-formed table that has converged.
#[verifier::opaque]
pub open spec fn ring_converged(rings: Map<Did, RingView>, nodes: Set<Did>) -> bool {
    &&& nodes.finite()
    &&& forall|n: Did| #[trigger]
        nodes.contains(n) ==> rings.contains_key(n) && rings[n].local == n && ring_wf(rings[n])
            && converged(rings[n], nodes)
}

/// The node that a lookup of `key` ends at when it starts at `at` and may
/// be forwarded `hops` times.
pub open spec fn lookup(rings: Map<Did, RingView>, at: Did, key: Did, hops: nat) -> Option<Did>
    decreases hops,
{
    match find_successor_spec(rings[at], key) {
        FindResult::SelfNode => Some(at),
        FindResult::Peer(s) => Some(s),
        FindResult::Forward(f) => if hops == 0 {
            None
        } else {
            lookup(rings, f, key, (hops - 1) as nat)
        },
    }
}

/// In a ring that has converged, a lookup from any node ends at the key's
/// owner, after no more forwarding hops than there are nodes between the
/// starting node and the key.
pub proof fn lemma_lookup_finds_owner(
    rings: Map<Did, RingView>,
    nodes: Set<Did>,
    at: Did,
    key: Did,
    hops: nat,
)
    requires
        ring_converged(rings, nodes),
        nodes.contains(at),
        hops >= ahead(nodes, at, key).len(),
    ensures
        lookup(rings, at, key, hops) is Some,
        is_owner(lookup(rings, at, key, hops).unwrap(), key, nodes),
    decreases hops,
{
    lemma_node_step(rings, nodes, at, key);
    match find_successor_spec(rings[at], key) {
        FindResult::Forward(f) => {
            lemma_hop_shrinks(nodes, at, f, key);
            lemma_lookup_finds_owner(rings, nodes, f, key, (hops - 1) as nat);
        },
        _ => {},
    }
}

/// What a node of a converged ring answers.
proof fn lemma_node_step(rings: Map<Did, RingView>, nodes: Set<Did>, at: Did, key: Did)
    requires
        ring_converged(rings, nodes),
        nodes.contains(at),
    ensures
        nodes.finite(),
        match find_successor_spec(rings[at], key) {
            FindResult::SelfNode => is_owner(at, key, nodes),
            FindResult::Peer(s) => is_owner(s, key, nodes),
            FindResult::Forward(f) => nodes.contains(f) && in_open_arc(f@, at@, key@),
        },
{
    reveal(ring_converged);
    lemma_lookup_step(rings[at], nodes, key);
}

/// A hop to a node between `at` and the key leaves fewer nodes ahead.
proof fn lemma_hop_shrinks(nodes: Set<Did>, at: Did, f: Did, key: Did)
    requires
        nodes.finite(),
        nodes.contains(f),
        in_open_arc(f@, at@, key@),
    ensures
        ahead(nodes, f, key).len() < ahead(nodes, at, key).len(),
{
    let here = ahead(nodes, at, key);
    let next = ahead(nodes, f, key);
    nodes.lemma_len_filter(|m: Did| in_open_arc(m@, at@, key@));
    assert(here.contains(f));
    assert forall|m: Did| next.contains(m) implies here.remove(f).contains(m) by {
        assert(in_open_arc(m@, f@, key@));
        assert(in_open_arc(m@, at@, key@));
    }
    assert(next.subset_of(here.remove(f)));
    vstd::set_lib::lemma_len_subset(next, here.remove(f));
}

/// Fewer nodes lie between a node and a key than there are nodes: a lookup
/// in a ring of `n` nodes that has converged takes at most `n - 1` hops.
pub proof fn lemma_ahead_bound(nodes: Set<Did>, at: Did, key: Did)
    requires
        nodes.finite(),
        nodes.contains(at),
    ensures
        ahead(nodes, at, key).len() < nodes.len(),
{
    nodes.lemma_len_filter(|m: Did| in_open_arc(m@, at@, key@));
    assert(ahead(nodes, at, key).subset_of(nodes.remove(at)));
    vstd::set_lib::lemma_len_subset(ahead(nodes, at, key), nodes.remove(at));
}


/// In a ring that has converged, the predecessor of a node's first
/// successor is the node itself.
pub proof fn lemma_successor_names_node(rings: Map<Did, RingView>, nodes: Set<Did>, n: Did)
    requires
        ring_converged(rings, nodes),
        nodes.contains(n),
    ensures
        rings[n].successors.len() > 0,
        nodes.contains(rings[n].successors[0]),
        rings[rings[n].successors[0]].predecessor == Some(n),
{
    reveal(ring_converged);
    reveal(converged);
    let r = rings[n];
    let s0 = r.successors[0];
    assert(s0 != n);
    let t = rings[s0];
    let p = t.predecessor.unwrap();
    assert(p != s0);
    lemma_successor_of_is_predecessor_of(nodes, n, s0);
    assert(dist(p, s0) <= dist(n, s0));
    assert(dist(n, s0) <= dist(p, s0));
    crate::did::lemma_dist_injective_from(p, n, s0);
}

/// A tick of the stabilizer keeps a ring that has converged as it is.
/// At node `n`, stabilizing with what its first successor names as
/// predecessor changes nothing, nor does notifying that successor; and
/// the table has still converged once finger `i` is fixed with the owner
/// of the key that was looked up for it. So the first successor of every
/// node stays its nearest neighbour from tick to tick, as long as no
/// connection is lost.
pub proof fn lemma_tick_keeps_converged(
    rings: Map<Did, RingView>,
    nodes: Set<Did>,
    n: Did,
    i: nat,
    found: Did,
)
    requires
        ring_converged(rings, nodes),
        nodes.contains(n),
        i < 160,
        nodes.contains(found),
    ensures
        stabilize_spec(rings[n], rings[rings[n].successors[0]].predecessor.unwrap()) == rings[n],
        notify_spec(rings[rings[n].successors[0]], n) == rings[rings[n].successors[0]],
        ring_wf(fix_finger_spec(rings[n], i, Some(found))),
        converged(fix_finger_spec(rings[n], i, Some(found)), nodes),
        fix_finger_spec(rings[n], i, Some(found)).successors == rings[n].successors,
        fix_finger_spec(rings[n], i, Some(found)).predecessor == rings[n].predecessor,
{
    lemma_successor_names_node(rings, nodes, n);
    let r = rings[n];
    let s0 = r.successors[0];
    assert(rings.contains_key(n) && r.local == n && ring_wf(r) && converged(r, nodes)) by {
        reveal(ring_converged);
    }
    lemma_stabilize_with_self(r);
    lemma_notify_again(rings[s0], n);
    lemma_fix_finger_keeps_converged(r, nodes, i, found);
}

/// A node does not stabilize with itself.
proof fn lemma_stabilize_with_self(r: RingView)
    ensures
        stabilize_spec(r, r.local) == r,
{
}

/// A predecessor that claims again to be the predecessor changes nothing.
proof fn lemma_notify_again(r: RingView, p: Did)
    requires
        r.predecessor == Some(p),
    ensures
        notify_spec(r, p) == r,
{
}

/// A table that has converged has still converged with a node in one of
/// its fingers.
proof fn lemma_fix_finger_keeps_converged(r: RingView, nodes: Set<Did>, i: nat, found: Did)
    requires
        ring_wf(r),
        converged(r, nodes),
        i < 160,
        nodes.contains(found),
    ensures
        ring_wf(fix_finger_spec(r, i, Some(found))),
        converged(fix_finger_spec(r, i, Some(found)), nodes),
        fix_finger_spec(r, i, Some(found)).successors == r.successors,
        fix_finger_spec(r, i, Some(found)).predecessor == r.predecessor,
{
    reveal(converged);
    let fixed = fix_finger_spec(r, i, Some(found));
    assert forall|j: int| 0 <= j < fixed.fingers.len() && (#[trigger] fixed.fingers[j])
        is Some implies nodes.contains(fixed.fingers[j].unwrap()) by {
        if j != i {
            assert(fixed.fingers[j] == r.fingers[j]);
        }
    }
    assert forall|j: int| 0 <= j < 160 implies fixed.fingers[j] != Some(fixed.local) by {
        if j != i {
            assert(fixed.fingers[j] == r.fingers[j]);
        }
    }
}

/// What a node asks of others, or looks at, in one tick of the stabilizer.
#[derive(Clone, Copy, Debug, PartialEq, Eq, Structural)]
pub enum TickStep {
    /// Ask the named first successor for its predecessor, and stabilize
    /// with the answer.
    Stabilize(Did),
    /// Tell the named first successor that this node is before it.
    Notify(Did),
    /// Look the key up, and fix the finger of this index with the answer.
    FixFinger(u8, Did),
    /// Look at the state of the connection to the named predecessor.
    CheckPredecessor(Did),
    /// Look at the state of the connection to the named successor.
    Reap(Did),
}

/// The steps of one tick for a table, in their order: stabilize and
/// notify where there is a first successor, fix the finger whose turn it
/// is, check the predecessor where there is one, and reap each successor.
pub open spec fn tick_steps(r: RingView) -> Seq<TickStep> {
    let ahead = if r.successors.len() > 0 {
        seq![TickStep::Stabilize(r.successors[0]), TickStep::Notify(r.successors[0])]
    } else {
        Seq::empty()
    };
    let behind = match r.predecessor {
        Some(p) => seq![TickStep::CheckPredecessor(p)],
        None => Seq::empty(),
    };
    ahead + seq![
        TickStep::FixFinger(r.fix_index as u8, did_of(finger_start(r.local, r.fix_index))),
    ] + behind + r.successors.map_values(|d: Did| TickStep::Reap(d))
}

/// The background task that keeps a ring table right. One tick runs at a
/// time.
pub struct Stabilizer {
    timeout: usize,
    running: bool,
}

impl Stabilizer {
    pub closed spec fn period(&self) -> usize {
        self.timeout
    }

    pub closed spec fn is_running(&self) -> bool {
        self.running
    }

    /// A stabilizer with a period of `timeout` seconds, at rest.
    pub fn new(timeout: usize) -> (s: Stabilizer)
        ensures
            s.period() == timeout,
            !s.is_running(),
    {
        Stabilizer { timeout, running: false }
    }

    /// The period, in seconds.
    pub fn timeout(&self) -> (t: usize)
        ensures
            t == self.period(),
    {
        self.timeout
    }

    /// Begins a tick, unless one is running: says what is to be done in
    /// it, in order, and passes the turn to the next finger.
    pub fn begin(&mut self, ring: &mut PeerRing) -> (r: Option<Vec<TickStep>>)
        requires
            old(ring).wf(),
        ensures
            final(ring).wf(),
            final(self).period() == old(self).period(),
            match r {
                Some(steps) => !old(self).is_running() && final(self).is_running() && steps@
                    == tick_steps(old(ring)@) && final(ring)@ == with_fix_index(
                    old(ring)@,
                    if old(ring)@.fix_index == 159 {
                        0
                    } else {
                        old(ring)@.fix_index + 1
                    },
                ),
                None => old(self).is_running() && final(self).is_running() && final(ring)@
                    == old(ring)@,
            },
    {
        if self.running {
            return None;
        }
        self.running = true;
        let ghost before = ring@;
        let mut steps: Vec<TickStep> = Vec::new();
        match ring.first_successor() {
            Some(first) => {
                steps.push(TickStep::Stabilize(first));
                steps.push(TickStep::Notify(first));
            },
            None => {},
        }
        let (index, key) = ring.next_finger();
        proof {
            crate::did::lemma_did_of_view(key);
        }
        steps.push(TickStep::FixFinger(index, key));
        match ring.predecessor() {
            Some(p) => {
                steps.push(TickStep::CheckPredecessor(p));
            },
            None => {},
        }
        let ghost head = steps@;
        let successors = ring.successors();
        let mut i: usize = 0;
        while i < successors.len()
            invariant
                i <= successors@.len(),
                steps@ == head + successors@.take(i as int).map_values(|d: Did| TickStep::Reap(d)),
            decreases successors@.len() - i,
        {
            steps.push(TickStep::Reap(successors[i]));
            assert(successors@.take(i + 1).map_values(|d: Did| TickStep::Reap(d))
                =~= successors@.take(i as int).map_values(|d: Did| TickStep::Reap(d)).push(
                TickStep::Reap(successors@[i as int]),
            ));
            i = i + 1;
        }
        assert(successors@.take(i as int) =~= successors@);
        assert(steps@ =~= tick_steps(before));
        Some(steps)
    }

    /// Ends the running tick.
    pub fn finish(&mut self)
        ensures
            final(self).period() == old(self).period(),
            !final(self).is_running(),
    {
        self.running = false;
    }
}

} // verus!
