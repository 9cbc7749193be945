use rings_swarm::chunk::{
    split, ChunkFragment, ChunkList, CHUNK_BUFFER_MAX, CHUNK_TIMEOUT_MS, FRAGMENT_PAYLOAD_MAX,
    TRANSPORT_MTU,
};
use rings_swarm::error::Error;

fn bytes_of(len: usize) -> Vec<u8> {
    let mut state: u32 = 0x2545_f491;
    let mut out = Vec::with_capacity(len);
    for _ in 0..len {
        state = state.wrapping_mul(1664525).wrapping_add(1013904223);
        out.push((state >> 24) as u8);
    }
    out
}

fn feed_in_order(data: &[u8], order: &[usize]) -> Vec<Option<Vec<u8>>> {
    let frags = split(data, 77).unwrap();
    assert_eq!(order.len(), frags.len());
    let mut list = ChunkList::new();
    let mut outs = Vec::new();
    for &i in order {
        outs.push(list.handle(frags[i].clone(), 1000));
    }
    assert_eq!(list.len(), 0);
    outs
}

fn assert_round_trip(len: usize, expected_fragments: usize) {
    let data = bytes_of(len);
    let n = split(&data, 77).unwrap().len();
    assert_eq!(n, expected_fragments);
    let forward: Vec<usize> = (0..n).collect();
    let backward: Vec<usize> = (0..n).rev().collect();
    let mut shuffled: Vec<usize> = (0..n).filter(|i| i % 2 == 1).collect();
    shuffled.extend((0..n).filter(|i| i % 2 == 0));
    for order in [forward, backward, shuffled] {
        let outs = feed_in_order(&data, &order);
        for out in &outs[..n - 1] {
            assert_eq!(out, &None);
        }
        assert_eq!(outs[n - 1], Some(data.clone()));
    }
}

#[test]
fn chunk_round_trip_one_byte() {
    assert_round_trip(1, 1);
}

#[test]
fn chunk_round_trip_mtu_minus_one() {
    assert_round_trip(TRANSPORT_MTU - 1, 2);
}

#[test]
fn chunk_round_trip_mtu() {
    assert_round_trip(TRANSPORT_MTU, 2);
}

#[test]
fn chunk_round_trip_mtu_plus_one() {
    assert_round_trip(TRANSPORT_MTU + 1, 2);
}

#[test]
fn chunk_round_trip_ten_mtu() {
    assert_round_trip(10 * TRANSPORT_MTU, 11);
}

#[test]
fn split_cuts_at_the_payload_limit() {
    let data = bytes_of(2 * FRAGMENT_PAYLOAD_MAX + 3);
    let frags = split(&data, 9).unwrap();
    assert_eq!(frags.len(), 3);
    assert_eq!(frags[0].payload, data[..FRAGMENT_PAYLOAD_MAX].to_vec());
    assert_eq!(frags[1].payload, data[FRAGMENT_PAYLOAD_MAX..2 * FRAGMENT_PAYLOAD_MAX].to_vec());
    assert_eq!(frags[2].payload, data[2 * FRAGMENT_PAYLOAD_MAX..].to_vec());
    for (i, f) in frags.iter().enumerate() {
        assert_eq!(f.chunk_id, 9);
        assert_eq!(f.index as usize, i);
        assert_eq!(f.total, 3);
    }
}

#[test]
fn split_exact_multiple_has_no_empty_tail() {
    let data = bytes_of(2 * FRAGMENT_PAYLOAD_MAX);
    let frags = split(&data, 1).unwrap();
    assert_eq!(frags.len(), 2);
    assert_eq!(frags[1].payload.len(), FRAGMENT_PAYLOAD_MAX);
}

#[test]
fn split_empty_payload_is_one_empty_fragment() {
    let frags = split(&[], 5).unwrap();
    assert_eq!(
        frags,
        vec![ChunkFragment { chunk_id: 5, index: 0, total: 1, payload: vec![] }]
    );
    let mut list = ChunkList::new();
    assert_eq!(list.handle(frags[0].clone(), 0), Some(vec![]));
}

#[test]
fn fragment_wire_bytes_are_exact() {
    let f = ChunkFragment { chunk_id: 0x0102, index: 3, total: 0x0405, payload: vec![9, 8, 7] };
    let bytes = f.encode().unwrap();
    let mut expected = vec![0x02, 0x01];
    expected.extend([0u8; 14]);
    expected.extend([3, 0, 5, 4, 3, 0, 0, 0, 9, 8, 7]);
    assert_eq!(bytes, expected);
    assert_eq!(ChunkFragment::decode(&bytes), Ok(f));
}

#[test]
fn fragment_decode_refuses_short_or_misframed_bytes() {
    assert_eq!(ChunkFragment::decode(&[0u8; 23]), Err(Error::MalformedEnvelope));
    let f = ChunkFragment { chunk_id: 1, index: 0, total: 1, payload: vec![1, 2, 3] };
    let mut bytes = f.encode().unwrap();
    bytes.push(0);
    assert_eq!(ChunkFragment::decode(&bytes), Err(Error::MalformedEnvelope));
    bytes.truncate(26);
    assert_eq!(ChunkFragment::decode(&bytes), Err(Error::MalformedEnvelope));
}

#[test]
fn fragment_decode_takes_empty_payload() {
    let f = ChunkFragment { chunk_id: u128::MAX, index: 0, total: 1, payload: vec![] };
    let bytes = f.encode().unwrap();
    assert_eq!(bytes.len(), 24);
    assert_eq!(ChunkFragment::decode(&bytes), Ok(f));
}

#[test]
fn handle_passes_over_index_out_of_range() {
    let mut list = ChunkList::new();
    let bad = ChunkFragment { chunk_id: 4, index: 2, total: 2, payload: vec![1] };
    assert_eq!(list.handle(bad, 0), None);
    assert_eq!(list.len(), 0);
    let none = ChunkFragment { chunk_id: 4, index: 0, total: 0, payload: vec![1] };
    assert_eq!(list.handle(none, 0), None);
    assert!(!list.contains(4));
}

#[test]
fn handle_buffers_until_complete_and_then_forgets() {
    let mut list = ChunkList::new();
    let a = ChunkFragment { chunk_id: 4, index: 1, total: 2, payload: vec![3, 4] };
    let b = ChunkFragment { chunk_id: 4, index: 0, total: 2, payload: vec![1, 2] };
    assert_eq!(list.handle(a, 0), None);
    assert!(list.contains(4));
    assert_eq!(list.len(), 1);
    assert_eq!(list.handle(b.clone(), 0), Some(vec![1, 2, 3, 4]));
    assert!(!list.contains(4));
    assert_eq!(list.handle(b, 0), None);
    assert!(list.contains(4));
}

#[test]
fn handle_later_fragment_overwrites_earlier_one() {
    let mut list = ChunkList::new();
    let first = ChunkFragment { chunk_id: 4, index: 0, total: 2, payload: vec![9] };
    let again = ChunkFragment { chunk_id: 4, index: 0, total: 2, payload: vec![1] };
    let last = ChunkFragment { chunk_id: 4, index: 1, total: 2, payload: vec![2] };
    assert_eq!(list.handle(first, 0), None);
    assert_eq!(list.handle(again, 0), None);
    assert_eq!(list.handle(last, 0), Some(vec![1, 2]));
}

#[test]
fn handle_collision_with_other_total_starts_over() {
    let mut list = ChunkList::new();
    let old = ChunkFragment { chunk_id: 4, index: 0, total: 3, payload: vec![9] };
    let new0 = ChunkFragment { chunk_id: 4, index: 1, total: 2, payload: vec![2] };
    let new1 = ChunkFragment { chunk_id: 4, index: 0, total: 2, payload: vec![1] };
    assert_eq!(list.handle(old, 0), None);
    assert_eq!(list.handle(new0, 0), None);
    assert_eq!(list.len(), 1);
    assert_eq!(list.handle(new1, 0), Some(vec![1, 2]));
    assert_eq!(list.len(), 0);
}

#[test]
fn handle_keeps_payloads_apart_by_chunk_id() {
    let mut list = ChunkList::new();
    let a0 = ChunkFragment { chunk_id: 1, index: 0, total: 2, payload: vec![1] };
    let b0 = ChunkFragment { chunk_id: 2, index: 0, total: 2, payload: vec![7] };
    let a1 = ChunkFragment { chunk_id: 1, index: 1, total: 2, payload: vec![2] };
    let b1 = ChunkFragment { chunk_id: 2, index: 1, total: 2, payload: vec![8] };
    assert_eq!(list.handle(a0, 0), None);
    assert_eq!(list.handle(b0, 0), None);
    assert_eq!(list.len(), 2);
    assert_eq!(list.handle(b1, 0), Some(vec![7, 8]));
    assert_eq!(list.handle(a1, 0), Some(vec![1, 2]));
}

#[test]
fn remove_expired_drops_only_stale_payloads() {
    let mut list = ChunkList::new();
    let old = ChunkFragment { chunk_id: 1, index: 0, total: 2, payload: vec![1] };
    let young = ChunkFragment { chunk_id: 2, index: 0, total: 2, payload: vec![2] };
    assert_eq!(list.handle(old, 1000), None);
    assert_eq!(list.handle(young, 1001), None);
    list.remove_expired(1000 + CHUNK_TIMEOUT_MS);
    assert!(list.contains(1) && list.contains(2));
    list.remove_expired(1001 + CHUNK_TIMEOUT_MS);
    assert!(!list.contains(1));
    assert!(list.contains(2));
    list.remove_expired(500);
    assert!(list.contains(2));
    list.remove_expired(u64::MAX);
    assert_eq!(list.len(), 0);
}

#[test]
fn remove_expired_counts_from_the_last_fragment() {
    let mut list = ChunkList::new();
    let f0 = ChunkFragment { chunk_id: 1, index: 0, total: 3, payload: vec![1] };
    let f1 = ChunkFragment { chunk_id: 1, index: 1, total: 3, payload: vec![2] };
    assert_eq!(list.handle(f0, 0), None);
    assert_eq!(list.handle(f1, 50_000), None);
    list.remove_expired(100_000);
    assert!(list.contains(1));
    list.remove_expired(110_001);
    assert!(!list.contains(1));
}

#[test]
fn buffer_counts_the_bytes_it_holds() {
    let mut list = ChunkList::new();
    assert_eq!(list.buffered_bytes(), 0);
    let a0 = ChunkFragment { chunk_id: 1, index: 0, total: 3, payload: vec![1; 10] };
    let a1 = ChunkFragment { chunk_id: 1, index: 1, total: 3, payload: vec![2; 5] };
    let b0 = ChunkFragment { chunk_id: 2, index: 0, total: 2, payload: vec![3; 7] };
    list.handle(a0, 0);
    list.handle(b0, 0);
    assert_eq!(list.buffered_bytes(), 17);
    list.handle(a1, 0);
    assert_eq!(list.buffered_bytes(), 22);
    // a part that comes again replaces the one that was there
    list.handle(ChunkFragment { chunk_id: 1, index: 0, total: 3, payload: vec![1; 2] }, 0);
    assert_eq!(list.buffered_bytes(), 14);
    // another total starts the payload over
    list.handle(ChunkFragment { chunk_id: 1, index: 0, total: 4, payload: vec![9; 1] }, 0);
    assert_eq!(list.buffered_bytes(), 8);
    // a whole payload leaves the buffer
    let whole = list.handle(ChunkFragment { chunk_id: 2, index: 1, total: 2, payload: vec![4; 100] }, 0);
    assert_eq!(whole.map(|w| w.len()), Some(107));
    assert_eq!(list.buffered_bytes(), 1);
    list.remove_expired(CHUNK_TIMEOUT_MS + 1);
    assert_eq!(list.buffered_bytes(), 0);
}

#[test]
fn buffer_takes_no_fragment_beyond_its_cap() {
    let mut list = ChunkList::new();
    let half = CHUNK_BUFFER_MAX / 2;
    let first = ChunkFragment { chunk_id: 1, index: 0, total: 2, payload: vec![1; half] };
    let second = ChunkFragment { chunk_id: 2, index: 0, total: 2, payload: vec![2; half] };
    assert!(!list.overflows(&first));
    assert_eq!(list.handle(first, 0), None);
    assert!(!list.overflows(&second));
    assert_eq!(list.handle(second, 0), None);
    assert_eq!(list.buffered_bytes(), CHUNK_BUFFER_MAX);
    let extra = ChunkFragment { chunk_id: 3, index: 0, total: 2, payload: vec![3] };
    assert!(list.overflows(&extra));
    assert_eq!(list.handle(extra, 0), None);
    assert!(!list.contains(3));
    assert_eq!(list.buffered_bytes(), CHUNK_BUFFER_MAX);
    // nothing is in the way of a fragment that takes no room
    let empty = ChunkFragment { chunk_id: 3, index: 0, total: 2, payload: vec![] };
    assert!(!list.overflows(&empty));
    // nor of one that replaces as much as it brings
    let again = ChunkFragment { chunk_id: 1, index: 0, total: 2, payload: vec![5; half] };
    assert!(!list.overflows(&again));
    // nor of one that completes its payload, however long
    let last = ChunkFragment { chunk_id: 1, index: 1, total: 2, payload: vec![6; 10] };
    assert!(!list.overflows(&last));
    assert_eq!(list.handle(last, 0).map(|w| w.len()), Some(half + 10));
    assert_eq!(list.buffered_bytes(), half);
    // a fragment out of range is not taken, and overflows nothing
    let bad = ChunkFragment { chunk_id: 9, index: 2, total: 2, payload: vec![0; CHUNK_BUFFER_MAX] };
    assert!(!list.overflows(&bad));
}

#[test]
fn buffer_has_no_room_for_one_fragment_beyond_its_cap() {
    let mut list = ChunkList::new();
    let big = ChunkFragment { chunk_id: 1, index: 0, total: 2, payload: vec![1; CHUNK_BUFFER_MAX + 1] };
    assert!(list.overflows(&big));
    assert_eq!(list.handle(big, 0), None);
    assert_eq!(list.len(), 0);
    let alone = ChunkFragment { chunk_id: 1, index: 0, total: 1, payload: vec![1; CHUNK_BUFFER_MAX + 1] };
    assert!(!list.overflows(&alone));
    assert_eq!(list.handle(alone, 0).map(|w| w.len()), Some(CHUNK_BUFFER_MAX + 1));
}
