//! How a ring of peers that are all connected to each other comes to
//! rest: each node's first successor is its nearest neighbour as soon as
//! it has taken in its peers, and its predecessor is its nearest neighbour
//! on the other side once every node has had one tick of the stabilizer.

use vstd::prelude::*;
use crate::did::{dist, lemma_dist_injective, lemma_dist_injective_from, Did};
use crate::ring::{
    converged, fix_finger_spec, fresh_ring, joined_all, lemma_joined_all_fingers,
    lemma_joined_all_first_successor, lemma_joined_all_predecessor,
    lemma_successor_of_is_predecessor_of, notify_spec, ring_converged, ring_wf, stabilize_spec,
    with_fix_index, RingView,
};

verus! {

/// `s` is the node next to `n` clockwise: the nearest of the others.
pub open spec fn is_next(n: Did, s: Did, nodes: Set<Did>) -> bool {
    nodes.contains(s) && s != n && forall|m: Did|
        nodes.contains(m) && m != n ==> dist(n, s) <= dist(n, m)
}

/// `p` is the node next to `n` counter-clockwise.
pub open spec fn is_prev(n: Did, p: Did, nodes: Set<Did>) -> bool {
    nodes.contains(p) && p != n && forall|m: Did|
        nodes.contains(m) && m != n ==> dist(p, n) <= dist(m, n)
}

/// A node has one node next to it.
pub proof fn lemma_next_unique(n: Did, a: Did, b: Did, nodes: Set<Did>)
    requires
        is_next(n, a, nodes),
        is_next(n, b, nodes),
    ensures
        a == b,
{
    assert(dist(n, a) <= dist(n, b));
    assert(dist(n, b) <= dist(n, a));
    lemma_dist_injective(n, a, b);
}

/// A node has one node before it.
pub proof fn lemma_prev_unique(n: Did, a: Did, b: Did, nodes: Set<Did>)
    requires
        is_prev(n, a, nodes),
        is_prev(n, b, nodes),
    ensures
        a == b,
{
    assert(dist(a, n) <= dist(b, n));
    assert(dist(b, n) <= dist(a, n));
    lemma_dist_injective_from(a, b, n);
}

/// A node is before the node next to it.
pub proof fn lemma_next_is_prev(nodes: Set<Did>, n: Did, s: Did)
    requires
        nodes.contains(n),
        is_next(n, s, nodes),
    ensures
        is_prev(s, n, nodes),
{
    lemma_successor_of_is_predecessor_of(nodes, n, s);
}

/// A node is next to the node before it.
pub proof fn lemma_prev_is_next(nodes: Set<Did>, n: Did, p: Did)
    requires
        nodes.contains(n),
        is_prev(n, p, nodes),
    ensures
        is_next(p, n, nodes),
{
    assert forall|m: Did| nodes.contains(m) && m != p implies dist(p, n) <= dist(p, m) by {
        if m != n {
            assert(dist(p, n) <= dist(m, n));
        }
    }
}

/// The table of a node whose first successor is right: it is the node
/// next to it, its fingers name nodes, and its predecessor, if it knows
/// one, is the node before it.
#[verifier::opaque]
pub open spec fn settled(r: RingView, nodes: Set<Did>) -> bool {
    &&& ring_wf(r)
    &&& nodes.contains(r.local)
    &&& r.successors.len() > 0
    &&& is_next(r.local, r.successors[0], nodes)
    &&& r.predecessor matches Some(p) ==> is_prev(r.local, p, nodes)
    &&& forall|i: int|
        0 <= i < r.fingers.len() && (#[trigger] r.fingers[i]) is Some ==> nodes.contains(
            r.fingers[i].unwrap(),
        )
}

/// Every node of `nodes` has a table whose first successor is right.
#[verifier::opaque]
pub open spec fn ring_settled(rings: Map<Did, RingView>, nodes: Set<Did>) -> bool {
    &&& nodes.finite()
    &&& forall|n: Did| #[trigger]
        nodes.contains(n) ==> rings.contains_key(n) && rings[n].local == n && settled(
            rings[n],
            nodes,
        )
}

/// A table whose first successor is right and which knows its predecessor
/// has converged.
pub proof fn lemma_settled_converged(r: RingView, nodes: Set<Did>)
    requires
        settled(r, nodes),
        r.predecessor is Some,
    ensures
        ring_wf(r),
        converged(r, nodes),
{
    reveal(settled);
    reveal(converged);
}

/// The finger whose turn is next.
pub open spec fn next_turn(i: nat) -> nat {
    if i == 159 {
        0
    } else {
        i + 1
    }
}

/// The table of node `n` after its tick: it has stabilized with what its
/// first successor names as predecessor, and fixed the finger whose turn
/// it was with `found`, where the lookup found a node.
pub open spec fn ticked(rings: Map<Did, RingView>, n: Did, found: Option<Did>) -> RingView {
    let r = rings[n];
    let stabilized = match rings[r.successors[0]].predecessor {
        Some(x) => stabilize_spec(r, x),
        None => r,
    };
    let fixed = match found {
        Some(f) => fix_finger_spec(stabilized, stabilized.fix_index, Some(f)),
        None => stabilized,
    };
    with_fix_index(fixed, next_turn(stabilized.fix_index))
}

/// The tables after one tick of the stabilizer at node `n`, with all
/// connections up: `n` stabilizes, notifies its first successor and fixes
/// one finger.
pub open spec fn tick(rings: Map<Did, RingView>, n: Did, found: Option<Did>) -> Map<
    Did,
    RingView,
> {
    let after = ticked(rings, n, found);
    let first = after.successors[0];
    rings.insert(first, notify_spec(rings[first], n)).insert(n, after)
}

/// A tick leaves the ticking node's table as it was, but for the finger
/// that was fixed and the turn.
proof fn lemma_ticked(rings: Map<Did, RingView>, nodes: Set<Did>, n: Did, found: Option<Did>)
    requires
        ring_settled(rings, nodes),
        nodes.contains(n),
        found matches Some(f) ==> nodes.contains(f),
    ensures
        settled(ticked(rings, n, found), nodes),
        ticked(rings, n, found).local == n,
        ticked(rings, n, found).successors == rings[n].successors,
        ticked(rings, n, found).predecessor == rings[n].predecessor,
        nodes.contains(rings[n].successors[0]),
        rings[n].successors[0] != n,
        rings.contains_key(rings[n].successors[0]),
        settled(rings[rings[n].successors[0]], nodes),
        rings[rings[n].successors[0]].local == rings[n].successors[0],
        is_prev(rings[n].successors[0], n, nodes),
{
    let r = rings[n];
    assert(rings.contains_key(n) && r.local == n && settled(r, nodes)) by {
        reveal(ring_settled);
    }
    let s0 = r.successors[0];
    assert(is_next(n, s0, nodes) && ring_wf(r) && r.successors.len() > 0) by {
        reveal(settled);
    }
    lemma_next_is_prev(nodes, n, s0);
    let t = rings[s0];
    assert(rings.contains_key(s0) && t.local == s0 && settled(t, nodes)) by {
        reveal(ring_settled);
    }
    let stabilized = match t.predecessor {
        Some(x) => stabilize_spec(r, x),
        None => r,
    };
    assert(stabilized == r) by {
        match t.predecessor {
            Some(x) => {
                assert(is_prev(s0, x, nodes)) by {
                    reveal(settled);
                }
                lemma_prev_unique(s0, x, n, nodes);
            },
            None => {},
        }
    }
    lemma_fixed_settled(r, nodes, found);
}

/// Fixing a finger with a node and passing the turn keeps a table settled.
proof fn lemma_fixed_settled(r: RingView, nodes: Set<Did>, found: Option<Did>)
    requires
        settled(r, nodes),
        found matches Some(f) ==> nodes.contains(f),
    ensures
        settled(
            with_fix_index(
                match found {
                    Some(f) => fix_finger_spec(r, r.fix_index, Some(f)),
                    None => r,
                },
                next_turn(r.fix_index),
            ),
            nodes,
        ),
{
    reveal(settled);
    let fixed = match found {
        Some(f) => fix_finger_spec(r, r.fix_index, Some(f)),
        None => r,
    };
    let last = with_fix_index(fixed, next_turn(r.fix_index));
    assert forall|j: int| 0 <= j < last.fingers.len() && (#[trigger] last.fingers[j])
        is Some implies nodes.contains(last.fingers[j].unwrap()) by {
        if j != r.fix_index {
            assert(last.fingers[j] == r.fingers[j]);
        }
    }
    assert forall|j: int| 0 <= j < 160 implies last.fingers[j] != Some(last.local) by {
        if j != r.fix_index {
            assert(last.fingers[j] == r.fingers[j]);
        }
    }
}

/// A node that hears from the node before it knows its predecessor, and
/// is settled as before.
proof fn lemma_notified_settled(t: RingView, nodes: Set<Did>, n: Did)
    requires
        settled(t, nodes),
        is_prev(t.local, n, nodes),
    ensures
        settled(notify_spec(t, n), nodes),
        notify_spec(t, n).predecessor == Some(n),
        notify_spec(t, n).successors == t.successors,
        notify_spec(t, n).local == t.local,
{
    reveal(settled);
    match t.predecessor {
        Some(p) => {
            lemma_prev_unique(t.local, p, n, nodes);
        },
        None => {},
    }
}

/// A tick keeps a settled ring settled and every first successor as it
/// is; no node forgets its predecessor, and the first successor of the
/// node that ticked knows its predecessor from then on.
pub proof fn lemma_tick_keeps_settled(
    rings: Map<Did, RingView>,
    nodes: Set<Did>,
    n: Did,
    found: Option<Did>,
)
    requires
        ring_settled(rings, nodes),
        nodes.contains(n),
        found matches Some(f) ==> nodes.contains(f),
    ensures
        ring_settled(tick(rings, n, found), nodes),
        forall|m: Did| #[trigger]
            nodes.contains(m) ==> tick(rings, n, found)[m].successors == rings[m].successors,
        forall|m: Did| #[trigger]
            nodes.contains(m) && rings[m].predecessor is Some ==> tick(
                rings,
                n,
                found,
            )[m].predecessor is Some,
        tick(rings, n, found)[rings[n].successors[0]].predecessor is Some,
{
    lemma_ticked(rings, nodes, n, found);
    let after = ticked(rings, n, found);
    let s0 = rings[n].successors[0];
    lemma_notified_settled(rings[s0], nodes, n);
    let notified = notify_spec(rings[s0], n);
    let next = tick(rings, n, found);
    assert(next == rings.insert(s0, notified).insert(n, after));
    assert forall|m: Did| #[trigger] nodes.contains(m) implies next.contains_key(m) && next[m].local
        == m && settled(next[m], nodes) && next[m].successors == rings[m].successors && (
    rings[m].predecessor is Some ==> next[m].predecessor is Some) by {
        if m != n && m != s0 {
            assert(rings.contains_key(m) && rings[m].local == m && settled(rings[m], nodes)) by {
                reveal(ring_settled);
            }
        }
    }
    assert(ring_settled(next, nodes)) by {
        assert(nodes.finite()) by {
            reveal(ring_settled);
        }
        reveal(ring_settled);
    }
}


/// The ticks of a run: which node ticks, and what the lookup for its
/// finger found, if it found a node.
pub type Schedule = Seq<(Did, Option<Did>)>;

/// Every tick of the schedule is a node's, and what its lookup found is a
/// node.
pub open spec fn schedule_of(schedule: Schedule, nodes: Set<Did>) -> bool {
    forall|k: int|
        0 <= k < schedule.len() ==> nodes.contains((#[trigger] schedule[k]).0) && (
        schedule[k].1 matches Some(f) ==> nodes.contains(f))
}

/// Node `m` has a tick in the schedule.
pub open spec fn has_tick(schedule: Schedule, m: Did) -> bool {
    exists|k: int| 0 <= k < schedule.len() && (#[trigger] schedule[k]).0 == m
}

/// The tables after the ticks of a schedule, one after the other.
pub open spec fn run(rings: Map<Did, RingView>, schedule: Schedule) -> Map<Did, RingView>
    decreases schedule.len(),
{
    if schedule.len() == 0 {
        rings
    } else {
        tick(run(rings, schedule.drop_last()), schedule.last().0, schedule.last().1)
    }
}

/// A run keeps a settled ring settled and every first successor as it is;
/// no node forgets its predecessor, and the first successor of every node
/// that had a tick knows its predecessor.
pub proof fn lemma_run_keeps_settled(
    rings: Map<Did, RingView>,
    nodes: Set<Did>,
    schedule: Schedule,
)
    requires
        ring_settled(rings, nodes),
        schedule_of(schedule, nodes),
    ensures
        ring_settled(run(rings, schedule), nodes),
        forall|m: Did| #[trigger]
            nodes.contains(m) ==> run(rings, schedule)[m].successors == rings[m].successors,
        forall|m: Did| #[trigger]
            nodes.contains(m) && rings[m].predecessor is Some ==> run(
                rings,
                schedule,
            )[m].predecessor is Some,
        forall|k: int|
            0 <= k < schedule.len() ==> run(
                rings,
                schedule,
            )[rings[(#[trigger] schedule[k]).0].successors[0]].predecessor is Some,
    decreases schedule.len(),
{
    if schedule.len() > 0 {
        let init = schedule.drop_last();
        let n = schedule.last().0;
        let found = schedule.last().1;
        assert(schedule[schedule.len() - 1] == schedule.last());
        assert(schedule_of(init, nodes)) by {
            assert forall|k: int| 0 <= k < init.len() implies nodes.contains(
                (#[trigger] init[k]).0,
            ) && (init[k].1 matches Some(f) ==> nodes.contains(f)) by {
                assert(init[k] == schedule[k]);
            }
        }
        lemma_run_keeps_settled(rings, nodes, init);
        let mid = run(rings, init);
        lemma_tick_keeps_settled(mid, nodes, n, found);
        let end = tick(mid, n, found);
        assert(end == run(rings, schedule));
        assert(mid[n].successors == rings[n].successors);
        assert forall|k: int| 0 <= k < schedule.len() implies end[rings[(
        #[trigger] schedule[k]).0].successors[0]].predecessor is Some by {
            let who = schedule[k].0;
            let first = rings[who].successors[0];
            assert(nodes.contains(first)) by {
                lemma_first_is_node(rings, nodes, who);
            }
            if k < init.len() {
                assert(init[k] == schedule[k]);
                assert(mid[first].predecessor is Some);
            }
        }
    }
}

/// The first successor of a node of a settled ring is a node.
proof fn lemma_first_is_node(rings: Map<Did, RingView>, nodes: Set<Did>, n: Did)
    requires
        ring_settled(rings, nodes),
        nodes.contains(n),
    ensures
        nodes.contains(rings[n].successors[0]),
        is_next(n, rings[n].successors[0], nodes),
{
    assert(rings[n].local == n && settled(rings[n], nodes)) by {
        reveal(ring_settled);
    }
    reveal(settled);
}

/// Among finitely many identifiers, one is nearest before `m`.
proof fn lemma_nearest_before(s: Set<Did>, m: Did) -> (p: Did)
    requires
        s.finite(),
        s.len() > 0,
    ensures
        s.contains(p),
        forall|x: Did| s.contains(x) ==> dist(p, m) <= dist(x, m),
    decreases s.len(),
{
    let a = s.choose();
    let rest = s.remove(a);
    if rest.len() == 0 {
        assert forall|x: Did| s.contains(x) implies dist(a, m) <= dist(x, m) by {
            if x != a {
                assert(rest.contains(x));
            }
        }
        a
    } else {
        let q = lemma_nearest_before(rest, m);
        let p = if dist(a, m) <= dist(q, m) {
            a
        } else {
            q
        };
        assert forall|x: Did| s.contains(x) implies dist(p, m) <= dist(x, m) by {
            if x != a {
                assert(rest.contains(x));
            }
        }
        p
    }
}

/// In a settled ring of two nodes or more, every node is the first
/// successor of a node.
proof fn lemma_every_node_is_first(rings: Map<Did, RingView>, nodes: Set<Did>, m: Did) -> (p: Did)
    requires
        ring_settled(rings, nodes),
        nodes.len() >= 2,
        nodes.contains(m),
    ensures
        nodes.contains(p),
        rings[p].successors[0] == m,
{
    assert(nodes.finite()) by {
        reveal(ring_settled);
    }
    let others = nodes.remove(m);
    let p = lemma_nearest_before(others, m);
    assert(is_prev(m, p, nodes));
    lemma_prev_is_next(nodes, m, p);
    lemma_first_is_node(rings, nodes, p);
    lemma_next_unique(p, m, rings[p].successors[0], nodes);
    p
}

/// A settled ring of two nodes or more has converged once every node has
/// had a tick of the stabilizer, in whatever order, and stays so over
/// every tick that follows: the first successor of each node is the node
/// next to it, and its predecessor the node before it.
pub proof fn lemma_one_round_converges(
    rings: Map<Did, RingView>,
    nodes: Set<Did>,
    schedule: Schedule,
)
    requires
        ring_settled(rings, nodes),
        nodes.len() >= 2,
        schedule_of(schedule, nodes),
        forall|m: Did| nodes.contains(m) ==> #[trigger] has_tick(schedule, m),
    ensures
        ring_converged(run(rings, schedule), nodes),
{
    lemma_run_keeps_settled(rings, nodes, schedule);
    let end = run(rings, schedule);
    assert forall|m: Did| #[trigger] nodes.contains(m) implies end.contains_key(m) && end[m].local
        == m && ring_wf(end[m]) && converged(end[m], nodes) by {
        let p = lemma_every_node_is_first(rings, nodes, m);
        assert(has_tick(schedule, p));
        let k = choose|k: int| 0 <= k < schedule.len() && (#[trigger] schedule[k]).0 == p;
        assert(end[rings[schedule[k].0].successors[0]].predecessor is Some);
        assert(end.contains_key(m) && end[m].local == m && settled(end[m], nodes)) by {
            reveal(ring_settled);
        }
        lemma_settled_converged(end[m], nodes);
    }
    assert(ring_converged(end, nodes)) by {
        assert(nodes.finite()) by {
            reveal(ring_settled);
        }
        reveal(ring_converged);
    }
}

/// The tables of peers that have each taken in all the peers, with room
/// for at least one successor.
pub open spec fn all_joined(rings: Map<Did, RingView>, peers: Seq<Did>, succ_max: nat) -> bool {
    forall|n: Did| #[trigger]
        peers.contains(n) ==> rings.contains_key(n) && rings[n] == joined_all(
            fresh_ring(n, succ_max),
            peers,
        )
}

/// Peers that are all connected to each other are settled as soon as each
/// has taken in the others.
pub proof fn lemma_joined_ring_settled(
    rings: Map<Did, RingView>,
    peers: Seq<Did>,
    succ_max: nat,
)
    requires
        1 <= succ_max <= 255,
        peers.to_set().len() >= 2,
        all_joined(rings, peers, succ_max),
    ensures
        ring_settled(rings, peers.to_set()),
{
    let nodes = peers.to_set();
    vstd::seq_lib::seq_to_set_is_finite(peers);
    assert forall|n: Did| #[trigger] nodes.contains(n) implies rings.contains_key(n) && rings[n].local
        == n && settled(rings[n], nodes) by {
        assert(peers.contains(n));
        let fresh = fresh_ring(n, succ_max);
        let r = joined_all(fresh, peers);
        assert(rings.contains_key(n) && rings[n] == r);
        let others = nodes.remove(n);
        let o = others.choose();
        assert(others.len() >= 1);
        assert(others.contains(o));
        assert(peers.contains(o));
        let i = choose|i: int| 0 <= i < peers.len() && peers[i] == o;
        assert(peers[i] != fresh.local);
        lemma_joined_all_first_successor(fresh, peers);
        lemma_joined_all_fingers(fresh, peers);
        lemma_joined_all_predecessor(fresh, peers);
        let head = r.successors[0];
        assert(head != n);
        assert forall|m: Did| nodes.contains(m) && m != n implies dist(n, head) <= dist(n, m) by {
            assert(peers.contains(m));
            let j = choose|j: int| 0 <= j < peers.len() && peers[j] == m;
            assert(peers[j] != fresh.local);
        }
        assert(is_next(n, head, nodes));
        assert(settled(r, nodes)) by {
            reveal(settled);
        }
    }
    assert(ring_settled(rings, nodes)) by {
        reveal(ring_settled);
    }
}

/// Peers that are all connected to each other, with room for at least one
/// successor, have converged once each has taken in the others and has
/// had a tick of the stabilizer, and stay so over every tick that
/// follows: the first successor of every peer is the nearest other peer
/// clockwise, and its predecessor the nearest counter-clockwise.
pub proof fn lemma_pairwise_connected_ring_converges(
    rings: Map<Did, RingView>,
    peers: Seq<Did>,
    succ_max: nat,
    schedule: Schedule,
)
    requires
        1 <= succ_max <= 255,
        peers.to_set().len() >= 2,
        all_joined(rings, peers, succ_max),
        schedule_of(schedule, peers.to_set()),
        forall|m: Did| peers.contains(m) ==> #[trigger] has_tick(schedule, m),
    ensures
        ring_converged(run(rings, schedule), peers.to_set()),
{
    lemma_joined_ring_settled(rings, peers, succ_max);
    assert forall|m: Did| peers.to_set().contains(m) implies #[trigger] has_tick(schedule, m) by {
        assert(peers.contains(m));
    }
    lemma_one_round_converges(rings, peers.to_set(), schedule);
}

} // verus!
