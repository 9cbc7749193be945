use rings_swarm::did::Did;
use rings_swarm::ring::{FindResult, PeerRing, Stabilizer, TickStep};
use rings_swarm::transport::WebrtcConnectionState;

fn d(n: u128) -> Did {
    Did::new(0, n)
}

/// Eight identifiers spread over the ring, in no particular order.
fn scattered() -> Vec<Did> {
    vec![
        Did::new(0x9e37_79b9, 0x7f4a_7c15_f39c_c060_5ced_c834_1082_276b),
        Did::new(0x0123_4567, 0x89ab_cdef_0123_4567_89ab_cdef_0123_4567),
        Did::new(0xfedc_ba98, 0x7654_3210_fedc_ba98_7654_3210_fedc_ba98),
        Did::new(0x5555_5555, 0x0000_0000_0000_0000_0000_0000_0000_0001),
        Did::new(0x3c6e_f372, 0xfe94_f82b_e739_80c0_b9db_9068_2104_4ed6),
        Did::new(0xc2b2_ae35, 0x27d4_eb2f_1656_67c5_9e37_79b9_85eb_ca6b),
        Did::new(0x7fff_ffff, 0xffff_ffff_ffff_ffff_ffff_ffff_ffff_ffff),
        Did::new(0xe000_0000, 0x0000_0000_0000_0000_0000_0000_0000_0000),
    ]
}

fn sorted(mut ids: Vec<Did>) -> Vec<Did> {
    ids.sort_by_key(|id| (id.hi, id.lo));
    ids
}

/// The first of `ids` at or clockwise of `key`.
fn owner_of(ids: &[Did], key: Did) -> Did {
    let mut best = ids[0];
    for id in ids {
        if key.distance_to(id).lt(&key.distance_to(&best)) {
            best = *id;
        }
    }
    best
}

/// Looks `key` up from node `at`, hop by hop. Returns the answer and the
/// number of forwarding hops, or `None` where the lookup goes in circles.
fn try_lookup(rings: &[PeerRing], at: usize, key: Did) -> Option<(Did, usize)> {
    let mut at = at;
    let mut hops = 0;
    loop {
        match rings[at].find_successor(key) {
            FindResult::SelfNode => return Some((rings[at].did(), hops)),
            FindResult::Peer(p) => return Some((p, hops)),
            FindResult::Forward(f) => {
                at = rings.iter().position(|r| r.did() == f)?;
                hops += 1;
                if hops > 2 * rings.len() {
                    return None;
                }
            }
        }
    }
}

fn lookup(rings: &[PeerRing], at: usize, key: Did) -> (Did, usize) {
    try_lookup(rings, at, key).unwrap()
}

/// The ring of `ids` in which every node has taken in every other and has
/// heard from the node before it.
fn converged(ids: &[Did]) -> Vec<PeerRing> {
    let mut rings: Vec<PeerRing> = ids.iter().map(|id| PeerRing::new(*id, 3)).collect();
    for ring in rings.iter_mut() {
        for id in ids {
            ring.join(*id);
        }
    }
    for i in 0..rings.len() {
        let me = rings[i].did();
        let next = rings[i].first_successor().unwrap();
        let j = rings.iter().position(|r| r.did() == next).unwrap();
        rings[j].notify(me);
    }
    rings
}

/// One tick of the stabilizer at node `i`: stabilize, notify, fix one
/// finger. All connections are up, so nothing is reaped.
fn tick(rings: &mut Vec<PeerRing>, i: usize) {
    let me = rings[i].did();
    if let Some(first) = rings[i].first_successor() {
        let j = rings.iter().position(|r| r.did() == first).unwrap();
        if let Some(x) = rings[j].predecessor() {
            rings[i].stabilize(x);
            if rings[i].first_successor() == Some(x) && x != first {
                // the node connects to its new successor: both ends see
                // the connection come up
                rings[i].join(x);
                let k = rings.iter().position(|r| r.did() == x).unwrap();
                rings[k].join(me);
            }
        }
    }
    if let Some(first) = rings[i].first_successor() {
        let j = rings.iter().position(|r| r.did() == first).unwrap();
        rings[j].notify(me);
    }
    let (index, key) = rings[i].next_finger();
    if let Some((found, _)) = try_lookup(rings, i, key) {
        rings[i].fix_finger(index, Some(found));
    }
}

/// The ring of `ids` in which every node first knows the nodes next to it
/// in numeric order, after ten ticks of the stabilizer.
fn stabilized(ids: &[Did], order: &[usize]) -> Vec<PeerRing> {
    let n = ids.len();
    let mut rings: Vec<PeerRing> = order.iter().map(|&i| PeerRing::new(ids[i], 3)).collect();
    for ring in rings.iter_mut() {
        let i = ids.iter().position(|id| *id == ring.did()).unwrap();
        if i > 0 {
            ring.join(ids[i - 1]);
        }
        if i + 1 < n {
            ring.join(ids[i + 1]);
        }
    }
    for _ in 0..10 {
        for i in 0..n {
            tick(&mut rings, i);
        }
    }
    rings
}

#[test]
fn new_ring_knows_no_peer() {
    let ring = PeerRing::new(d(100), 3);
    assert_eq!(ring.did(), d(100));
    assert_eq!(ring.succ_max(), 3);
    assert!(ring.successors().is_empty());
    assert_eq!(ring.first_successor(), None);
    assert_eq!(ring.predecessor(), None);
    for i in [0u8, 1, 80, 159] {
        assert_eq!(ring.finger(i), None);
    }
}

#[test]
fn lone_node_answers_for_the_whole_ring() {
    let ring = PeerRing::new(d(100), 3);
    assert_eq!(ring.find_successor(d(100)), FindResult::SelfNode);
    assert_eq!(ring.find_successor(d(5)), FindResult::SelfNode);
    assert_eq!(ring.find_successor(Did::new(u32::MAX, 0)), FindResult::SelfNode);
}

#[test]
fn join_keeps_successors_in_clockwise_order() {
    let mut ring = PeerRing::new(d(100), 3);
    ring.join(d(50));
    assert_eq!(ring.successors(), vec![d(50)]);
    ring.join(d(200));
    assert_eq!(ring.successors(), vec![d(200), d(50)]);
    ring.join(d(150));
    assert_eq!(ring.successors(), vec![d(150), d(200), d(50)]);
}

#[test]
fn join_drops_the_farthest_beyond_succ_max() {
    let mut ring = PeerRing::new(d(100), 3);
    for n in [50, 200, 150] {
        ring.join(d(n));
    }
    ring.join(d(120));
    assert_eq!(ring.successors(), vec![d(120), d(150), d(200)]);
    ring.join(d(99));
    assert_eq!(ring.successors(), vec![d(120), d(150), d(200)]);
}

#[test]
fn join_of_self_or_known_peer_changes_nothing() {
    let mut ring = PeerRing::new(d(100), 3);
    ring.join(d(100));
    assert!(ring.successors().is_empty());
    assert_eq!(ring.finger(0), None);
    ring.join(d(150));
    ring.join(d(150));
    assert_eq!(ring.successors(), vec![d(150)]);
}

#[test]
fn join_with_succ_max_zero_keeps_no_successor() {
    let mut ring = PeerRing::new(d(100), 0);
    ring.join(d(150));
    assert!(ring.successors().is_empty());
    assert_eq!(ring.finger(0), Some(d(150)));
}

#[test]
fn join_with_succ_max_one_keeps_the_nearest() {
    let mut ring = PeerRing::new(d(100), 1);
    ring.join(d(150));
    ring.join(d(200));
    assert_eq!(ring.successors(), vec![d(150)]);
    ring.join(d(101));
    assert_eq!(ring.successors(), vec![d(101)]);
}

#[test]
fn join_fills_fingers_with_the_first_peer_at_or_after_their_start() {
    let mut ring = PeerRing::new(d(100), 3);
    ring.join(d(110));
    // fingers 0..3 start at 101, 102, 104, 108; finger 4 starts at 116
    for i in [0u8, 1, 2, 3] {
        assert_eq!(ring.finger(i), Some(d(110)));
    }
    for i in [4u8, 5, 100, 159] {
        assert_eq!(ring.finger(i), None);
    }
    ring.join(d(104));
    assert_eq!(ring.finger(0), Some(d(104)));
    assert_eq!(ring.finger(2), Some(d(104)));
    assert_eq!(ring.finger(3), Some(d(110)));
    assert_eq!(ring.finger(4), None);
    ring.join(d(116));
    assert_eq!(ring.finger(4), Some(d(116)));
    assert_eq!(ring.finger(3), Some(d(110)));
    assert_eq!(ring.finger(5), None);
}

#[test]
fn join_fills_high_fingers_with_peers_across_the_ring() {
    let mut ring = PeerRing::new(Did::new(0xf000_0000, 0), 3);
    let near = Did::new(0xf000_0000, 50);
    let far = Did::new(0x7000_0000, 0);
    let behind = Did::new(0xefff_ffff, 0);
    ring.join(near);
    ring.join(far);
    ring.join(behind);
    assert_eq!(ring.finger(0), Some(near));
    assert_eq!(ring.finger(5), Some(near));
    assert_eq!(ring.finger(6), Some(far));
    // finger 158 starts at 0x3000..., finger 159 at 0x7000...
    assert_eq!(ring.finger(158), Some(far));
    assert_eq!(ring.finger(159), Some(far));
    ring.join(Did::new(0x7000_0000, 1));
    assert_eq!(ring.finger(159), Some(far));
    ring.leave(far);
    assert_eq!(ring.finger(159), None);
    ring.join(Did::new(0x7000_0000, 1));
    assert_eq!(ring.finger(159), Some(Did::new(0x7000_0000, 1)));
    assert_eq!(ring.finger(158), Some(Did::new(0x7000_0000, 1)));
}

#[test]
fn leave_forgets_the_peer_everywhere() {
    let mut ring = PeerRing::new(d(100), 3);
    ring.join(d(110));
    ring.join(d(200));
    ring.notify(d(110));
    ring.leave(d(110));
    assert_eq!(ring.successors(), vec![d(200)]);
    assert_eq!(ring.predecessor(), None);
    assert_eq!(ring.finger(0), None);
    assert_eq!(ring.finger(7), None);
    ring.leave(d(110));
    assert_eq!(ring.successors(), vec![d(200)]);
}

#[test]
fn leave_keeps_other_peers() {
    let mut ring = PeerRing::new(d(100), 3);
    ring.join(d(110));
    ring.join(d(104));
    ring.notify(d(50));
    ring.leave(d(104));
    assert_eq!(ring.successors(), vec![d(110)]);
    assert_eq!(ring.predecessor(), Some(d(50)));
    assert_eq!(ring.finger(3), Some(d(110)));
    assert_eq!(ring.finger(0), None);
}

#[test]
fn notify_accepts_a_nearer_predecessor_only() {
    let mut ring = PeerRing::new(d(100), 3);
    assert!(!ring.notify(d(100)));
    assert_eq!(ring.predecessor(), None);
    assert!(ring.notify(d(50)));
    assert_eq!(ring.predecessor(), Some(d(50)));
    assert!(!ring.notify(d(40)));
    assert!(!ring.notify(d(50)));
    assert!(!ring.notify(d(150)));
    assert_eq!(ring.predecessor(), Some(d(50)));
    assert!(ring.notify(d(99)));
    assert_eq!(ring.predecessor(), Some(d(99)));
}

#[test]
fn find_successor_answers_self_for_keys_after_the_predecessor() {
    let mut ring = PeerRing::new(d(100), 3);
    ring.join(d(200));
    ring.notify(d(50));
    assert_eq!(ring.find_successor(d(100)), FindResult::SelfNode);
    assert_eq!(ring.find_successor(d(51)), FindResult::SelfNode);
    assert_eq!(ring.find_successor(d(99)), FindResult::SelfNode);
    assert_ne!(ring.find_successor(d(50)), FindResult::SelfNode);
}

#[test]
fn find_successor_answers_the_first_successor_for_keys_up_to_it() {
    let mut ring = PeerRing::new(d(100), 3);
    ring.join(d(200));
    ring.join(d(300));
    ring.notify(d(50));
    assert_eq!(ring.find_successor(d(101)), FindResult::Peer(d(200)));
    assert_eq!(ring.find_successor(d(200)), FindResult::Peer(d(200)));
}

#[test]
fn find_successor_forwards_to_the_highest_finger_before_the_key() {
    let mut ring = PeerRing::new(d(100), 3);
    ring.join(d(200));
    ring.join(d(300));
    ring.join(d(1000));
    ring.notify(d(50));
    // fingers 0..6 start up to 164 and hold 200; finger 7 starts at 228 and
    // holds 300; fingers 8 and 9 start at 356 and 612 and hold 1000.
    assert_eq!(ring.find_successor(d(201)), FindResult::Forward(d(200)));
    assert_eq!(ring.find_successor(d(300)), FindResult::Forward(d(200)));
    assert_eq!(ring.find_successor(d(301)), FindResult::Forward(d(300)));
    assert_eq!(ring.find_successor(d(5000)), FindResult::Forward(d(1000)));
    assert_eq!(ring.closest_preceding_finger(d(5000)), Some(d(1000)));
    assert_eq!(ring.closest_preceding_finger(d(1000)), Some(d(300)));
    assert_eq!(ring.closest_preceding_finger(d(150)), None);
    assert_eq!(ring.find_successor(d(50)), FindResult::Forward(d(1000)));
}

#[test]
fn find_successor_falls_back_to_the_first_successor() {
    let mut ring = PeerRing::new(d(100), 3);
    ring.join(d(200));
    for i in 0..160u8 {
        ring.fix_finger(i, None);
    }
    assert_eq!(ring.closest_preceding_finger(d(300)), None);
    assert_eq!(ring.find_successor(d(300)), FindResult::Forward(d(200)));
    assert_eq!(ring.find_successor(d(150)), FindResult::Peer(d(200)));
}

#[test]
fn stabilize_puts_a_nearer_peer_first() {
    let mut ring = PeerRing::new(d(100), 3);
    ring.join(d(200));
    ring.stabilize(d(150));
    assert_eq!(ring.successors(), vec![d(150), d(200)]);
    ring.stabilize(d(180));
    assert_eq!(ring.successors(), vec![d(150), d(200)]);
    ring.stabilize(d(100));
    ring.stabilize(d(150));
    assert_eq!(ring.successors(), vec![d(150), d(200)]);
    assert_eq!(ring.finger(0), Some(d(200)));
}

#[test]
fn stabilize_without_successor_changes_nothing() {
    let mut ring = PeerRing::new(d(100), 3);
    ring.stabilize(d(150));
    assert!(ring.successors().is_empty());
}

#[test]
fn next_finger_goes_round() {
    let mut ring = PeerRing::new(d(100), 3);
    assert_eq!(ring.next_finger(), (0, d(101)));
    assert_eq!(ring.next_finger(), (1, d(102)));
    assert_eq!(ring.next_finger(), (2, d(104)));
    for _ in 3..159 {
        ring.next_finger();
    }
    assert_eq!(ring.next_finger(), (159, Did::new(0x8000_0000, 100)));
    assert_eq!(ring.next_finger(), (0, d(101)));
}

#[test]
fn fix_finger_never_names_the_node_itself() {
    let mut ring = PeerRing::new(d(100), 3);
    ring.fix_finger(5, Some(d(300)));
    assert_eq!(ring.finger(5), Some(d(300)));
    ring.fix_finger(5, Some(d(100)));
    assert_eq!(ring.finger(5), None);
    ring.fix_finger(6, Some(d(7)));
    ring.fix_finger(6, None);
    assert_eq!(ring.finger(6), None);
    assert!(ring.successors().is_empty());
}

#[test]
fn check_predecessor_forgets_it_unless_connected() {
    let mut ring = PeerRing::new(d(100), 3);
    ring.notify(d(50));
    ring.check_predecessor(WebrtcConnectionState::Connected);
    assert_eq!(ring.predecessor(), Some(d(50)));
    ring.check_predecessor(WebrtcConnectionState::Connecting);
    assert_eq!(ring.predecessor(), None);
    ring.notify(d(50));
    ring.check_predecessor(WebrtcConnectionState::Closed);
    assert_eq!(ring.predecessor(), None);
}

#[test]
fn reap_forgets_closed_and_failed_peers() {
    let mut ring = PeerRing::new(d(100), 3);
    ring.join(d(200));
    ring.join(d(300));
    assert_eq!(ring.reap(d(200), WebrtcConnectionState::Connected), None);
    assert_eq!(ring.reap(d(200), WebrtcConnectionState::Disconnected), None);
    assert_eq!(ring.successors(), vec![d(200), d(300)]);
    assert_eq!(ring.reap(d(200), WebrtcConnectionState::Closed), Some(d(101)));
    assert_eq!(ring.successors(), vec![d(300)]);
    assert_eq!(ring.reap(d(300), WebrtcConnectionState::Failed), Some(d(101)));
    assert!(ring.successors().is_empty());
}

#[test]
fn fully_connected_peers_converge() {
    let ids = sorted(scattered());
    let n = ids.len();
    let rings = converged(&scattered());
    for ring in &rings {
        let i = ids.iter().position(|id| *id == ring.did()).unwrap();
        assert_eq!(ring.first_successor(), Some(ids[(i + 1) % n]));
        assert_eq!(ring.predecessor(), Some(ids[(i + n - 1) % n]));
    }
}

#[test]
fn two_fully_connected_peers_are_each_other_s_neighbours() {
    let rings = converged(&[d(10), Did::new(u32::MAX, 0)]);
    assert_eq!(rings[0].first_successor(), Some(rings[1].did()));
    assert_eq!(rings[0].predecessor(), Some(rings[1].did()));
    assert_eq!(rings[1].first_successor(), Some(rings[0].did()));
    assert_eq!(rings[1].predecessor(), Some(rings[0].did()));
}

#[test]
fn lookup_in_a_converged_ring_finds_the_owner() {
    let ids = scattered();
    let rings = converged(&ids);
    let mut keys: Vec<Did> = ids.clone();
    for id in &ids {
        keys.push(id.wrapping_add(&Did::one()));
        keys.push(Did::one().distance_to(id));
        keys.push(id.finger_start(159));
        keys.push(id.finger_start(77));
    }
    keys.push(Did::zero());
    keys.push(Did::new(u32::MAX, u128::MAX));
    for at in 0..rings.len() {
        for key in &keys {
            let (found, hops) = lookup(&rings, at, *key);
            assert_eq!(found, owner_of(&ids, *key));
            assert!(hops <= ids.len() - 1);
        }
    }
}

#[test]
fn stabilizer_converges_from_neighbour_connections() {
    let ids = sorted(scattered());
    let n = ids.len();
    let rings = stabilized(&ids, &[5, 2, 7, 0, 3, 6, 1, 4]);
    for ring in &rings {
        let i = ids.iter().position(|id| *id == ring.did()).unwrap();
        assert_eq!(ring.first_successor(), Some(ids[(i + 1) % n]));
        assert_eq!(ring.predecessor(), Some(ids[(i + n - 1) % n]));
    }
}

#[test]
fn churn_after_stabilizing_is_forgotten_at_once() {
    let ids = sorted(scattered());
    let mut rings = stabilized(&ids, &[5, 2, 7, 0, 3, 6, 1, 4]);
    let gone = ids[3];
    let k = rings.iter().position(|r| r.did() == gone).unwrap();
    rings.remove(k);
    for ring in rings.iter_mut() {
        if ring.predecessor() == Some(gone) {
            ring.check_predecessor(WebrtcConnectionState::Closed);
        }
        ring.reap(gone, WebrtcConnectionState::Closed);
    }
    for ring in &rings {
        assert!(!ring.successors().contains(&gone));
        assert_ne!(ring.predecessor(), Some(gone));
        for f in 0..160u8 {
            assert_ne!(ring.finger(f), Some(gone));
        }
    }
    let mut ticks = 0;
    let key = gone.wrapping_add(&Did::one());
    while !(0..rings.len()).all(|at| try_lookup(&rings, at, key).map(|r| r.0) == Some(ids[4])) {
        for i in 0..rings.len() {
            tick(&mut rings, i);
        }
        ticks += 1;
        assert!(ticks <= 3, "not healed after {} ticks", ticks);
    }
}

#[test]
fn churn_is_forgotten_and_routed_around() {
    let ids = sorted(scattered());
    let n = ids.len();
    let mut rings = converged(&ids);
    let gone = ids[3];
    let k = rings.iter().position(|r| r.did() == gone).unwrap();
    rings.remove(k);
    // every peer sees its connection to the peer close
    for ring in rings.iter_mut() {
        ring.check_predecessor(if ring.predecessor() == Some(gone) {
            WebrtcConnectionState::Closed
        } else {
            WebrtcConnectionState::Connected
        });
        assert_eq!(ring.reap(gone, WebrtcConnectionState::Closed), Some(ring.did().wrapping_add(&Did::one())));
    }
    for _ in 0..3 {
        for i in 0..rings.len() {
            tick(&mut rings, i);
        }
    }
    for ring in &rings {
        assert!(!ring.successors().contains(&gone));
        assert_ne!(ring.predecessor(), Some(gone));
        for f in 0..160u8 {
            assert_ne!(ring.finger(f), Some(gone));
        }
    }
    let key = gone.wrapping_add(&Did::one());
    for at in 0..rings.len() {
        assert_eq!(lookup(&rings, at, key).0, ids[4]);
    }
    let before = rings.iter().position(|r| r.did() == ids[2]).unwrap();
    assert_eq!(rings[before].first_successor(), Some(ids[4]));
    let after = rings.iter().position(|r| r.did() == ids[4]).unwrap();
    assert_eq!(rings[after].predecessor(), Some(ids[2]));
    let _ = n;
}

#[test]
fn stabilizer_plans_a_tick_in_order() {
    let mut ring = PeerRing::new(d(100), 3);
    let mut stabilizer = Stabilizer::new(3);
    assert_eq!(stabilizer.timeout(), 3);
    assert_eq!(stabilizer.begin(&mut ring), Some(vec![TickStep::FixFinger(0, d(101))]));
    stabilizer.finish();
    ring.join(d(200));
    ring.join(d(300));
    ring.notify(d(50));
    assert_eq!(
        stabilizer.begin(&mut ring),
        Some(vec![
            TickStep::Stabilize(d(200)),
            TickStep::Notify(d(200)),
            TickStep::FixFinger(1, d(102)),
            TickStep::CheckPredecessor(d(50)),
            TickStep::Reap(d(200)),
            TickStep::Reap(d(300)),
        ])
    );
}

#[test]
fn stabilizer_runs_one_tick_at_a_time() {
    let mut ring = PeerRing::new(d(100), 3);
    let mut stabilizer = Stabilizer::new(3);
    assert!(stabilizer.begin(&mut ring).is_some());
    assert_eq!(stabilizer.begin(&mut ring), None);
    assert_eq!(stabilizer.begin(&mut ring), None);
    stabilizer.finish();
    // the turn passed to the next finger once only
    assert_eq!(stabilizer.begin(&mut ring), Some(vec![TickStep::FixFinger(1, d(102))]));
}

#[test]
fn lookup_among_peers_at_halving_distances_visits_each_of_them() {
    let key = Did::new(0x4000_0000, 1000);
    let back = |n: u128| Did::new(0, n).distance_to(&key);
    let ids = vec![back(64), back(32), back(16), back(8), back(4), back(2), back(1), key];
    let rings = converged(&ids);
    assert_eq!(lookup(&rings, 0, key), (key, 6));
    assert_eq!(lookup(&rings, 3, key), (key, 3));
    assert_eq!(lookup(&rings, 6, key), (key, 0));
    assert_eq!(lookup(&rings, 7, key), (key, 0));
    // from the key's own node the way to the farthest peer is one hop
    assert_eq!(lookup(&rings, 7, back(64)), (back(64), 0));
}

#[test]
fn ticks_keep_a_converged_ring_as_it_is() {
    let ids = sorted(scattered());
    let n = ids.len();
    let mut rings = converged(&scattered());
    for _ in 0..5 {
        for i in 0..n {
            tick(&mut rings, i);
        }
        for ring in &rings {
            let i = ids.iter().position(|id| *id == ring.did()).unwrap();
            assert_eq!(ring.first_successor(), Some(ids[(i + 1) % n]));
            assert_eq!(ring.predecessor(), Some(ids[(i + n - 1) % n]));
        }
    }
}

#[test]
fn one_round_of_ticks_settles_the_predecessors() {
    let ids = sorted(scattered());
    let n = ids.len();
    let mut rings: Vec<PeerRing> = scattered().iter().map(|id| PeerRing::new(*id, 1)).collect();
    for ring in rings.iter_mut() {
        for id in &ids {
            ring.join(*id);
        }
        assert_eq!(ring.predecessor(), None);
    }
    for i in (0..n).rev() {
        tick(&mut rings, i);
    }
    for ring in &rings {
        let i = ids.iter().position(|id| *id == ring.did()).unwrap();
        assert_eq!(ring.successors(), vec![ids[(i + 1) % n]]);
        assert_eq!(ring.predecessor(), Some(ids[(i + n - 1) % n]));
    }
}
