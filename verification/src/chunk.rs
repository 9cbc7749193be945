//! Fragments of a payload that exceeds the transport's message size, and the
//! buffer that puts them together again.

use vstd::prelude::*;
use vstd::bytes::*;
use crate::assoc::{
    distinct_keys, key_at, lemma_map_total_empty, lemma_map_total_insert,
    lemma_map_total_remove, lemma_pairs_map_absent, lemma_pairs_map_entry,
    lemma_pairs_map_finite, lemma_pairs_map_len, lemma_pairs_map_push, lemma_pairs_map_remove,
    map_total, pairs_map,
};
use crate::error::Error;
use crate::wire::{copy_range, put_bytes, put_u128, put_u16, put_u32, read_u128, read_u16, read_u32};

verus! {

/// The largest data-channel message, framing included.
pub const TRANSPORT_MTU: usize = 65536;

/// Bytes of a fragment before its payload: id, index, total, payload length.
pub const FRAGMENT_HEADER: usize = 24;

/// The most payload bytes that one fragment carries. A fragment travels as
/// the body of an envelope inside a frame, and the envelope may gather a
/// relay entry at each of seven hops: that takes 823 bytes of the MTU.
pub const FRAGMENT_PAYLOAD_MAX: usize = 64713;

/// The most fragments of one payload: `total` is a 16-bit field.
pub const FRAGMENT_COUNT_MAX: usize = 65535;

/// One piece of a payload: piece `index` of `total`, all pieces of a payload
/// sharing `chunk_id`.
#[derive(Clone, Debug, PartialEq, Eq)]
pub struct ChunkFragment {
    pub chunk_id: u128,
    pub index: u16,
    pub total: u16,
    pub payload: Vec<u8>,
}

/// A fragment as a mathematical value.
pub struct FragmentView {
    pub chunk_id: u128,
    pub index: u16,
    pub total: u16,
    pub payload: Seq<u8>,
}

impl View for ChunkFragment {
    type V = FragmentView;

    open spec fn view(&self) -> FragmentView {
        FragmentView {
            chunk_id: self.chunk_id,
            index: self.index,
            total: self.total,
            payload: self.payload@,
        }
    }
}

/// The bytes of a fragment on the wire.
pub open spec fn fragment_bytes(f: FragmentView) -> Seq<u8> {
    spec_u128_to_le_bytes(f.chunk_id) + spec_u16_to_le_bytes(f.index) + spec_u16_to_le_bytes(
        f.total,
    ) + spec_u32_to_le_bytes(f.payload.len() as u32) + f.payload
}

/// The fragment that wire bytes hold, if they are one: a header whose length
/// field accounts for every byte that follows it.
pub open spec fn parse_fragment(b: Seq<u8>) -> Option<FragmentView> {
    if b.len() >= 24 && spec_u32_from_le_bytes(b.subrange(20, 24)) == b.len() - 24 {
        Some(
            FragmentView {
                chunk_id: spec_u128_from_le_bytes(b.subrange(0, 16)),
                index: spec_u16_from_le_bytes(b.subrange(16, 18)),
                total: spec_u16_from_le_bytes(b.subrange(18, 20)),
                payload: b.subrange(24, b.len() as int),
            },
        )
    } else {
        None
    }
}

/// Parsing the wire bytes of a fragment gives the fragment back.
pub proof fn lemma_fragment_round_trip(f: FragmentView)
    requires
        f.payload.len() <= u32::MAX,
    ensures
        parse_fragment(fragment_bytes(f)) == Some(f),
{
    lemma_auto_spec_u16_to_from_le_bytes();
    lemma_auto_spec_u32_to_from_le_bytes();
    lemma_auto_spec_u128_to_from_le_bytes();
    let b = fragment_bytes(f);
    let id = spec_u128_to_le_bytes(f.chunk_id);
    let ix = spec_u16_to_le_bytes(f.index);
    let tt = spec_u16_to_le_bytes(f.total);
    let ln = spec_u32_to_le_bytes(f.payload.len() as u32);
    assert(b.len() == 24 + f.payload.len());
    assert(b.subrange(0, 16) =~= id);
    assert(b.subrange(16, 18) =~= ix);
    assert(b.subrange(18, 20) =~= tt);
    assert(b.subrange(20, 24) =~= ln);
    assert(b.subrange(24, b.len() as int) =~= f.payload);
}

/// Wire bytes that parse as a fragment are the wire bytes of that fragment.
pub proof fn lemma_fragment_bytes_unique(b: Seq<u8>)
    requires
        parse_fragment(b) is Some,
    ensures
        fragment_bytes(parse_fragment(b).unwrap()) == b,
{
    lemma_auto_spec_u16_to_from_le_bytes();
    lemma_auto_spec_u32_to_from_le_bytes();
    lemma_auto_spec_u128_to_from_le_bytes();
    let f = parse_fragment(b).unwrap();
    assert(fragment_bytes(f) =~= b.subrange(0, 16) + b.subrange(16, 18) + b.subrange(18, 20)
        + b.subrange(20, 24) + b.subrange(24, b.len() as int));
    assert(fragment_bytes(f) =~= b);
}

impl ChunkFragment {
    /// The wire bytes of the fragment. Fails with `MalformedEnvelope` exactly
    /// when the payload is too long for the 32-bit length field.
    pub fn encode(&self) -> (r: Result<Vec<u8>, Error>)
        ensures
            match r {
                Ok(bytes) => self.payload@.len() <= u32::MAX && bytes@ == fragment_bytes(self@),
                Err(e) => self.payload@.len() > u32::MAX && e == Error::MalformedEnvelope,
            },
    {
        let n = self.payload.len();
        if n > u32::MAX as usize {
            return Err(Error::MalformedEnvelope);
        }
        let mut out: Vec<u8> = Vec::new();
        put_u128(&mut out, self.chunk_id);
        put_u16(&mut out, self.index);
        put_u16(&mut out, self.total);
        put_u32(&mut out, n as u32);
        put_bytes(&mut out, self.payload.as_slice());
        assert(out@ =~= fragment_bytes(self@));
        Ok(out)
    }

    /// Reads a fragment from its wire bytes. Fails with `MalformedEnvelope`
    /// exactly when the bytes are no fragment.
    pub fn decode(bytes: &[u8]) -> (r: Result<ChunkFragment, Error>)
        ensures
            match r {
                Ok(f) => parse_fragment(bytes@) == Some(f@),
                Err(e) => parse_fragment(bytes@) is None && e == Error::MalformedEnvelope,
            },
    {
        let n = bytes.len();
        if n < FRAGMENT_HEADER {
            return Err(Error::MalformedEnvelope);
        }
        let declared = read_u32(bytes, 20);
        if declared as usize != n - FRAGMENT_HEADER {
            return Err(Error::MalformedEnvelope);
        }
        Ok(
            ChunkFragment {
                chunk_id: read_u128(bytes, 0),
                index: read_u16(bytes, 16),
                total: read_u16(bytes, 18),
                payload: copy_range(bytes, FRAGMENT_HEADER, n),
            },
        )
    }
}

/// How many fragments a payload of `len` bytes takes. An empty payload takes
/// one, with nothing in it.
pub open spec fn fragment_count(len: nat) -> nat {
    if len == 0 {
        1
    } else if len % 64713 == 0 {
        len / 64713
    } else {
        len / 64713 + 1
    }
}

/// The payload of fragment `i` of `data`.
pub open spec fn fragment_payload(data: Seq<u8>, i: int) -> Seq<u8> {
    if (i + 1) * 64713 <= data.len() {
        data.subrange(i * 64713, (i + 1) * 64713)
    } else {
        data.subrange(i * 64713, data.len() as int)
    }
}

/// The fragments of `data` under `chunk_id`, in index order.
pub open spec fn split_fragments(data: Seq<u8>, chunk_id: u128) -> Seq<FragmentView> {
    Seq::new(
        fragment_count(data.len()),
        |i: int|
            FragmentView {
                chunk_id,
                index: i as u16,
                total: fragment_count(data.len()) as u16,
                payload: fragment_payload(data, i),
            },
    )
}

/// The pieces laid end to end.
pub open spec fn join_parts(parts: Seq<Seq<u8>>) -> Seq<u8>
    decreases parts.len(),
{
    if parts.len() == 0 {
        Seq::empty()
    } else {
        join_parts(parts.drop_last()) + parts.last()
    }
}

/// The first `k` fragment payloads of `data`, laid end to end, are the first
/// `k` spans of `data`.
pub proof fn lemma_join_prefix(data: Seq<u8>, k: nat)
    requires
        k <= fragment_count(data.len()),
    ensures
        join_parts(Seq::new(k, |i: int| fragment_payload(data, i))) == (if k * 64713
            <= data.len() {
            data.subrange(0, (k * 64713) as int)
        } else {
            data
        }),
    decreases k,
{
    let parts = Seq::new(k, |i: int| fragment_payload(data, i));
    if k == 0 {
        assert(data.subrange(0, 0) =~= Seq::<u8>::empty());
    } else {
        let m = (k - 1) as nat;
        lemma_join_prefix(data, m);
        assert(parts.drop_last() =~= Seq::new(m, |i: int| fragment_payload(data, i)));
        assert(parts.last() == fragment_payload(data, m as int));
        assert(m * 64713 <= data.len());
        if k * 64713 <= data.len() {
            assert(join_parts(parts) =~= data.subrange(0, (k * 64713) as int));
        } else {
            assert(join_parts(parts) =~= data);
        }
    }
}

/// Laying the fragment payloads of `data` end to end gives `data`.
pub proof fn lemma_join_split(data: Seq<u8>, chunk_id: u128)
    ensures
        join_parts(split_fragments(data, chunk_id).map_values(|f: FragmentView| f.payload))
            == data,
{
    let n = fragment_count(data.len());
    lemma_join_prefix(data, n);
    assert(split_fragments(data, chunk_id).map_values(|f: FragmentView| f.payload) =~= Seq::new(
        n,
        |i: int| fragment_payload(data, i),
    ));
    if n * 64713 <= data.len() {
        assert(data.subrange(0, (n * 64713) as int) =~= data);
    }
}

/// Each fragment of `data` names its place among the fragments and
/// carries no more than `FRAGMENT_PAYLOAD_MAX` bytes; all but the last
/// carry exactly that many.
pub proof fn lemma_fragment_sizes(data: Seq<u8>, chunk_id: u128, i: int)
    requires
        fragment_count(data.len()) <= 65535,
        0 <= i < fragment_count(data.len()),
    ensures
        split_fragments(data, chunk_id)[i].chunk_id == chunk_id,
        split_fragments(data, chunk_id)[i].index == i,
        split_fragments(data, chunk_id)[i].total == fragment_count(data.len()),
        split_fragments(data, chunk_id)[i].payload.len() <= 64713,
        i + 1 < fragment_count(data.len()) ==> split_fragments(data, chunk_id)[i].payload.len()
            == 64713,
{
}

/// Cuts `data` into fragments of at most `FRAGMENT_PAYLOAD_MAX` bytes. Fails
/// with `MalformedEnvelope` exactly when that takes more than
/// `FRAGMENT_COUNT_MAX` fragments.
pub fn split(data: &[u8], chunk_id: u128) -> (r: Result<Vec<ChunkFragment>, Error>)
    ensures
        match r {
            Ok(frags) => fragment_count(data@.len()) <= 65535 && frags@.map_values(
                |f: ChunkFragment| f@,
            ) == split_fragments(data@, chunk_id),
            Err(e) => fragment_count(data@.len()) > 65535 && e == Error::MalformedEnvelope,
        },
{
    let len = data.len();
    let count: usize = if len == 0 {
        1
    } else if len % FRAGMENT_PAYLOAD_MAX == 0 {
        len / FRAGMENT_PAYLOAD_MAX
    } else {
        len / FRAGMENT_PAYLOAD_MAX + 1
    };
    if count > FRAGMENT_COUNT_MAX {
        return Err(Error::MalformedEnvelope);
    }
    let mut frags: Vec<ChunkFragment> = Vec::new();
    let mut i: usize = 0;
    while i < count
        invariant
            i <= count <= 65535,
            len == data@.len(),
            count == fragment_count(data@.len()),
            frags@.len() == i,
            forall|j: int| 0 <= j < i ==> (#[trigger] frags@[j])@ == split_fragments(
                data@,
                chunk_id,
            )[j],
        decreases count - i,
    {
        let from = i * FRAGMENT_PAYLOAD_MAX;
        let to = if len - from >= FRAGMENT_PAYLOAD_MAX {
            from + FRAGMENT_PAYLOAD_MAX
        } else {
            len
        };
        let payload = copy_range(data, from, to);
        frags.push(ChunkFragment { chunk_id, index: i as u16, total: count as u16, payload });
        i = i + 1;
    }
    assert(frags@.map_values(|f: ChunkFragment| f@) =~= split_fragments(data@, chunk_id));
    Ok(frags)
}


/// How long a partial payload is kept after its last fragment, in ms.
pub const CHUNK_TIMEOUT_MS: u64 = 60000;

/// The most bytes that the buffer holds of payloads that are not yet
/// whole: 16 MiB.
pub const CHUNK_BUFFER_MAX: usize = 16777216;

/// The fragments received so far of one payload.
struct PendingPayload {
    chunk_id: u128,
    total: u16,
    parts: Vec<Option<Vec<u8>>>,
    last_seen_ms: u64,
    bytes: usize,
}

/// A partial payload as a mathematical value: slot `i` holds the payload of
/// fragment `i` once it has arrived.
pub struct PendingView {
    pub total: u16,
    pub parts: Seq<Option<Seq<u8>>>,
    pub last_seen_ms: u64,
}

/// The slots of a `Vec` of received parts.
pub open spec fn parts_view(parts: Seq<Option<Vec<u8>>>) -> Seq<Option<Seq<u8>>> {
    Seq::new(
        parts.len(),
        |i: int|
            match parts[i] {
                Some(v) => Some(v@),
                None => None,
            },
    )
}

impl PendingPayload {
    spec fn pair(&self) -> (u128, PendingView) {
        (
            self.chunk_id,
            PendingView {
                total: self.total,
                parts: parts_view(self.parts@),
                last_seen_ms: self.last_seen_ms,
            },
        )
    }
}

/// `total` empty slots.
pub open spec fn empty_parts(total: u16) -> Seq<Option<Seq<u8>>> {
    Seq::new(total as nat, |i: int| None)
}

/// Every slot is filled.
pub open spec fn all_present(parts: Seq<Option<Seq<u8>>>) -> bool {
    forall|i: int| 0 <= i < parts.len() ==> (#[trigger] parts[i]) is Some
}

/// The payload that filled slots make up.
pub open spec fn assembled(parts: Seq<Option<Seq<u8>>>) -> Seq<u8> {
    join_parts(Seq::new(parts.len(), |i: int| parts[i].unwrap()))
}

/// The bytes in one slot.
pub open spec fn part_len(part: Option<Seq<u8>>) -> nat {
    match part {
        Some(b) => b.len(),
        None => 0,
    }
}

/// The bytes in the slots of one payload.
pub open spec fn entry_bytes(parts: Seq<Option<Seq<u8>>>) -> nat
    decreases parts.len(),
{
    if parts.len() == 0 {
        0
    } else {
        entry_bytes(parts.drop_last()) + part_len(parts.last())
    }
}

/// The weight of a partial payload in the buffer: the bytes in its slots.
pub open spec fn pending_weight() -> spec_fn(PendingView) -> nat {
    |p: PendingView| entry_bytes(p.parts)
}

/// The bytes that the buffer holds.
pub open spec fn buffered_bytes(list: Map<u128, PendingView>) -> nat {
    map_total(list, pending_weight())
}

/// The bytes that the buffer holds under one chunk id.
pub open spec fn held(list: Map<u128, PendingView>, chunk_id: u128) -> nat {
    if list.contains_key(chunk_id) {
        entry_bytes(list[chunk_id].parts)
    } else {
        0
    }
}

/// A fragment that the buffer takes: its index is below its total.
pub open spec fn fragment_ok(f: FragmentView) -> bool {
    f.index < f.total
}

/// A partial payload has passed the timeout at `now`.
pub open spec fn is_stale(p: PendingView, now_ms: u64) -> bool {
    now_ms > p.last_seen_ms && now_ms - p.last_seen_ms > 60000
}

/// The payload under `f`'s chunk id continues with `f`: it is buffered
/// with the total that `f` names.
pub open spec fn continues(list: Map<u128, PendingView>, f: FragmentView) -> bool {
    list.contains_key(f.chunk_id) && list[f.chunk_id].total == f.total
}

/// The slots of `f`'s payload once `f` is in its slot. A payload that is
/// buffered under the same id with another total is overwritten.
pub open spec fn placed_parts(list: Map<u128, PendingView>, f: FragmentView) -> Seq<
    Option<Seq<u8>>,
> {
    let base = if continues(list, f) {
        list[f.chunk_id].parts
    } else {
        empty_parts(f.total)
    };
    base.update(f.index as int, Some(f.payload))
}

/// The entry of `f`'s payload once `f` is in its slot.
pub open spec fn placed(list: Map<u128, PendingView>, f: FragmentView, now_ms: u64) -> PendingView {
    PendingView { total: f.total, parts: placed_parts(list, f), last_seen_ms: now_ms }
}

/// The bytes that the buffer would hold with `f` in its slot.
pub open spec fn bytes_with(list: Map<u128, PendingView>, f: FragmentView) -> int {
    buffered_bytes(list) - held(list, f.chunk_id) + entry_bytes(placed_parts(list, f))
}

/// The buffer has no room for `f`: `f` does not complete its payload, and
/// with `f` the buffer would hold more than `CHUNK_BUFFER_MAX` bytes.
pub open spec fn overflows(list: Map<u128, PendingView>, f: FragmentView) -> bool {
    fragment_ok(f) && !all_present(placed_parts(list, f)) && bytes_with(list, f) > 16777216
}

/// The buffer after it has been handed `f`: a completed payload leaves it,
/// a partial one stays, and a fragment that is not taken, or for which
/// there is no room, changes nothing.
pub open spec fn list_after(list: Map<u128, PendingView>, f: FragmentView, now_ms: u64) -> Map<
    u128,
    PendingView,
> {
    if !fragment_ok(f) || overflows(list, f) {
        list
    } else if all_present(placed_parts(list, f)) {
        list.remove(f.chunk_id)
    } else {
        list.insert(f.chunk_id, placed(list, f, now_ms))
    }
}

/// What the buffer hands out when it is handed `f`: the whole payload if
/// `f` completes it, else nothing.
pub open spec fn output_of(list: Map<u128, PendingView>, f: FragmentView) -> Option<Seq<u8>> {
    if fragment_ok(f) && all_present(placed_parts(list, f)) {
        Some(assembled(placed_parts(list, f)))
    } else {
        None
    }
}

/// The buffer without the partial payloads that are stale at `now`.
pub open spec fn without_stale(list: Map<u128, PendingView>, now_ms: u64) -> Map<
    u128,
    PendingView,
> {
    Map::new(|id: u128| list.contains_key(id) && !is_stale(list[id], now_ms), |id: u128| list[id])
}

/// Every buffered payload has one slot for each of its fragments.
pub open spec fn slots_match(list: Map<u128, PendingView>) -> bool {
    forall|id: u128| #[trigger] list.contains_key(id) ==> list[id].parts.len() == list[id].total
}

/// Empty slots hold no bytes.
pub proof fn lemma_entry_bytes_empty(n: nat)
    ensures
        entry_bytes(Seq::new(n, |i: int| None::<Seq<u8>>)) == 0,
    decreases n,
{
    if n > 0 {
        lemma_entry_bytes_empty((n - 1) as nat);
        assert(Seq::new(n, |i: int| None::<Seq<u8>>).drop_last() =~= Seq::new(
            (n - 1) as nat,
            |i: int| None::<Seq<u8>>,
        ));
    }
}

/// Filling a slot takes out the bytes that were in it and puts in the new
/// ones; and no slot holds more than all together.
pub proof fn lemma_entry_bytes_update(parts: Seq<Option<Seq<u8>>>, i: int, part: Option<Seq<u8>>)
    requires
        0 <= i < parts.len(),
    ensures
        part_len(parts[i]) <= entry_bytes(parts),
        entry_bytes(parts.update(i, part)) == entry_bytes(parts) - part_len(parts[i]) + part_len(
            part,
        ),
    decreases parts.len(),
{
    let init = parts.drop_last();
    if i == parts.len() - 1 {
        assert(parts.update(i, part).drop_last() =~= init);
    } else {
        lemma_entry_bytes_update(init, i, part);
        assert(parts.update(i, part).drop_last() =~= init.update(i, part));
        assert(init[i] == parts[i]);
    }
}

/// Slots that hold no more than others, slot by slot, hold no more in
/// all.
pub proof fn lemma_entry_bytes_monotone(a: Seq<Option<Seq<u8>>>, b: Seq<Option<Seq<u8>>>)
    requires
        a.len() == b.len(),
        forall|i: int| 0 <= i < a.len() ==> part_len(#[trigger] a[i]) <= part_len(b[i]),
    ensures
        entry_bytes(a) <= entry_bytes(b),
    decreases a.len(),
{
    if a.len() > 0 {
        assert forall|i: int| 0 <= i < a.len() - 1 implies part_len(
            #[trigger] a.drop_last()[i],
        ) <= part_len(b.drop_last()[i]) by {
            assert(a.drop_last()[i] == a[i]);
            assert(b.drop_last()[i] == b[i]);
        }
        lemma_entry_bytes_monotone(a.drop_last(), b.drop_last());
        assert(part_len(a[a.len() - 1]) <= part_len(b[a.len() - 1]));
    }
}

/// Filled slots hold as many bytes as the payload that they make up.
pub proof fn lemma_entry_bytes_assembled(parts: Seq<Option<Seq<u8>>>)
    requires
        all_present(parts),
    ensures
        entry_bytes(parts) == assembled(parts).len(),
    decreases parts.len(),
{
    if parts.len() > 0 {
        let init = parts.drop_last();
        assert(all_present(init)) by {
            assert forall|i: int| 0 <= i < init.len() implies (#[trigger] init[i]) is Some by {
                assert(init[i] == parts[i]);
            }
        }
        lemma_entry_bytes_assembled(init);
        let whole = Seq::new(parts.len(), |i: int| parts[i].unwrap());
        assert(whole.drop_last() =~= Seq::new(init.len(), |i: int| init[i].unwrap()));
        assert(parts[parts.len() - 1] is Some);
    }
}

/// The slots are full with a new part in slot `i` just when every other
/// slot was filled.
pub proof fn lemma_all_present_update(parts: Seq<Option<Seq<u8>>>, i: int, part: Seq<u8>)
    requires
        0 <= i < parts.len(),
    ensures
        all_present(parts.update(i, Some(part))) <==> (forall|j: int|
            0 <= j < parts.len() && j != i ==> (#[trigger] parts[j]) is Some),
{
    let after = parts.update(i, Some(part));
    if all_present(after) {
        assert forall|j: int| 0 <= j < parts.len() && j != i implies (#[trigger] parts[j])
            is Some by {
            assert(after[j] is Some);
        }
    }
    if forall|j: int| 0 <= j < parts.len() && j != i ==> (#[trigger] parts[j]) is Some {
        assert forall|j: int| 0 <= j < after.len() implies (#[trigger] after[j]) is Some by {
            if j != i {
                assert(parts[j] is Some);
            }
        }
    }
}

/// The reassembly buffer: the partial payloads in flight, by chunk id. It
/// never holds more than `CHUNK_BUFFER_MAX` bytes.
pub struct ChunkList {
    entries: Vec<PendingPayload>,
    buffered: usize,
}

impl View for ChunkList {
    type V = Map<u128, PendingView>;

    closed spec fn view(&self) -> Map<u128, PendingView> {
        pairs_map(self.pairs())
    }
}

fn none_parts(total: u16) -> (parts: Vec<Option<Vec<u8>>>)
    ensures
        parts_view(parts@) == empty_parts(total),
{
    let mut parts: Vec<Option<Vec<u8>>> = Vec::new();
    let mut i: u16 = 0;
    while i < total
        invariant
            i <= total,
            parts@.len() == i,
            forall|j: int| 0 <= j < i ==> (#[trigger] parts@[j]) is None,
        decreases total - i,
    {
        parts.push(None);
        i = i + 1;
    }
    assert(parts_view(parts@) =~= empty_parts(total));
    parts
}

/// Whether every slot but slot `index` is filled.
fn full_but(parts: &Vec<Option<Vec<u8>>>, index: usize) -> (b: bool)
    ensures
        b == (forall|j: int|
            0 <= j < parts@.len() && j != index ==> (#[trigger] parts_view(parts@)[j]) is Some),
{
    let mut i: usize = 0;
    while i < parts.len()
        invariant
            i <= parts@.len(),
            forall|j: int|
                0 <= j < i && j != index ==> (#[trigger] parts_view(parts@)[j]) is Some,
        decreases parts@.len() - i,
    {
        if i != index && parts[i].is_none() {
            assert(parts_view(parts@)[i as int] is None);
            return false;
        }
        i = i + 1;
    }
    true
}

fn assemble(parts: &Vec<Option<Vec<u8>>>) -> (out: Vec<u8>)
    requires
        all_present(parts_view(parts@)),
    ensures
        out@ == assembled(parts_view(parts@)),
{
    let mut out: Vec<u8> = Vec::new();
    let mut i: usize = 0;
    let ghost slots = parts_view(parts@);
    let ghost whole = Seq::new(slots.len(), |j: int| slots[j].unwrap());
    assert(whole.take(0) =~= Seq::<Seq<u8>>::empty());
    while i < parts.len()
        invariant
            i <= parts@.len(),
            slots == parts_view(parts@),
            all_present(slots),
            whole == Seq::new(slots.len(), |j: int| slots[j].unwrap()),
            out@ == join_parts(whole.take(i as int)),
        decreases parts@.len() - i,
    {
        assert(slots[i as int] is Some);
        match &parts[i] {
            Some(piece) => {
                out.extend_from_slice(piece.as_slice());
                assert(whole.take(i + 1).drop_last() =~= whole.take(i as int));
                assert(whole.take(i + 1).last() == piece@);
            },
            None => {},
        }
        i = i + 1;
    }
    assert(whole.take(i as int) =~= whole);
    out
}

/// What the buffer finds when it looks at a fragment before it takes it.
struct Probe {
    /// Where the payload under the fragment's chunk id is buffered.
    found: Option<usize>,
    /// Whether that payload continues with the fragment.
    continuing: bool,
    /// Whether the fragment completes its payload.
    complete: bool,
    /// The bytes that the buffer holds under the fragment's chunk id.
    held: usize,
    /// The bytes that the payload keeps beside the fragment.
    carried: usize,
}

impl ChunkList {
    pub closed spec fn pairs(&self) -> Seq<(u128, PendingView)> {
        Seq::new(self.entries@.len(), |i: int| self.entries@[i].pair())
    }

    /// The buffer's invariant: one entry per chunk id, one slot per
    /// fragment in each entry, and no more bytes than the buffer may hold.
    pub closed spec fn wf(&self) -> bool {
        &&& distinct_keys(self.pairs())
        &&& forall|i: int|
            0 <= i < self.entries@.len() ==> (#[trigger] self.entries@[i]).parts@.len()
                == self.entries@[i].total && self.entries@[i].bytes == entry_bytes(
                parts_view(self.entries@[i].parts@),
            )
        &&& self.buffered == buffered_bytes(self@)
        &&& self.buffered <= CHUNK_BUFFER_MAX
    }

    /// A well-formed buffer is finite, has one slot per fragment in each
    /// payload, and holds no more bytes than it may.
    pub proof fn lemma_wf_bounds(&self)
        requires
            self.wf(),
        ensures
            self@.dom().finite(),
            slots_match(self@),
            buffered_bytes(self@) <= 16777216,
    {
        lemma_pairs_map_finite(self.pairs());
        assert forall|id: u128| #[trigger] self@.contains_key(id) implies self@[id].parts.len()
            == self@[id].total by {
            let i = choose|i: int| key_at(self.pairs(), id, i);
            assert(key_at(self.pairs(), id, i));
            lemma_pairs_map_entry(self.pairs(), i);
            assert(self.entries@[i].parts@.len() == self.entries@[i].total);
        }
    }

    /// An empty buffer.
    pub fn new() -> (list: ChunkList)
        ensures
            list.wf(),
            list@ == Map::<u128, PendingView>::empty(),
    {
        let list = ChunkList { entries: Vec::new(), buffered: 0 };
        proof {
            assert forall|id: u128| !list@.contains_key(id) by {
                lemma_pairs_map_absent(list.pairs(), id);
            }
            assert(list@ =~= Map::<u128, PendingView>::empty());
            lemma_map_total_empty::<u128, PendingView>(pending_weight());
        }
        list
    }

    /// How many payloads are in flight.
    pub fn len(&self) -> (n: usize)
        requires
            self.wf(),
        ensures
            n == self@.dom().len(),
    {
        proof {
            lemma_pairs_map_len(self.pairs());
        }
        self.entries.len()
    }

    /// How many bytes the buffer holds.
    pub fn buffered_bytes(&self) -> (n: usize)
        requires
            self.wf(),
        ensures
            n == buffered_bytes(self@),
            n <= CHUNK_BUFFER_MAX,
    {
        self.buffered
    }

    /// Whether a payload is in flight under `chunk_id`.
    pub fn contains(&self, chunk_id: u128) -> (b: bool)
        requires
            self.wf(),
        ensures
            b == self@.contains_key(chunk_id),
    {
        self.position(chunk_id).is_some()
    }

    fn position(&self, chunk_id: u128) -> (r: Option<usize>)
        requires
            self.wf(),
        ensures
            match r {
                Some(i) => i < self.entries@.len() && self.entries@[i as int].chunk_id == chunk_id
                    && self@.contains_key(chunk_id) && self@[chunk_id] == self.entries@[i as int].pair().1,
                None => !self@.contains_key(chunk_id),
            },
    {
        let mut i: usize = 0;
        while i < self.entries.len()
            invariant
                i <= self.entries@.len(),
                self.wf(),
                forall|j: int| 0 <= j < i ==> (#[trigger] self.pairs()[j]).0 != chunk_id,
            decreases self.entries@.len() - i,
        {
            if self.entries[i].chunk_id == chunk_id {
                proof {
                    assert(self.pairs()[i as int] == self.entries@[i as int].pair());
                    lemma_pairs_map_entry(self.pairs(), i as int);
                }
                return Some(i);
            }
            assert(self.pairs()[i as int].0 != chunk_id);
            i = i + 1;
        }
        proof {
            lemma_pairs_map_absent(self.pairs(), chunk_id);
        }
        None
    }

    fn probe(&self, fragment: &ChunkFragment) -> (p: Probe)
        requires
            self.wf(),
            fragment_ok(fragment@),
        ensures
            match p.found {
                Some(i) => i < self.entries@.len() && self.entries@[i as int].chunk_id
                    == fragment.chunk_id && self@.contains_key(fragment.chunk_id)
                    && self@[fragment.chunk_id] == self.entries@[i as int].pair().1,
                None => !self@.contains_key(fragment.chunk_id),
            },
            p.continuing == continues(self@, fragment@),
            p.complete == all_present(placed_parts(self@, fragment@)),
            p.held == held(self@, fragment.chunk_id),
            p.held <= buffered_bytes(self@),
            p.carried + fragment.payload@.len() == entry_bytes(placed_parts(self@, fragment@)),
            buffered_bytes(self@) - p.held + p.carried <= CHUNK_BUFFER_MAX,
    {
        let found = self.position(fragment.chunk_id);
        let index = fragment.index as usize;
        proof {
            lemma_pairs_map_finite(self.pairs());
            if self@.contains_key(fragment.chunk_id) {
                lemma_map_total_remove(self@, fragment.chunk_id, pending_weight());
            }
            lemma_entry_bytes_empty(fragment.total as nat);
            assert(empty_parts(fragment.total) =~= Seq::new(
                fragment.total as nat,
                |i: int| None::<Seq<u8>>,
            ));
            lemma_entry_bytes_update(empty_parts(fragment.total), index as int, Some(fragment.payload@));
            lemma_all_present_update(empty_parts(fragment.total), index as int, fragment.payload@);
        }
        match found {
            Some(i) => {
                let entry = &self.entries[i];
                assert(self.pairs()[i as int] == entry.pair());
                if entry.total == fragment.total {
                    let replaced = match &entry.parts[index] {
                        Some(part) => part.len(),
                        None => 0,
                    };
                    proof {
                        let base = parts_view(entry.parts@);
                        lemma_entry_bytes_update(base, index as int, Some(fragment.payload@));
                        lemma_all_present_update(base, index as int, fragment.payload@);
                    }
                    Probe {
                        found,
                        continuing: true,
                        complete: full_but(&entry.parts, index),
                        held: entry.bytes,
                        carried: entry.bytes - replaced,
                    }
                } else {
                    proof {
                        if fragment.total > 1 {
                            let other = if index == 0 { 1int } else { 0int };
                            assert(empty_parts(fragment.total)[other] is None);
                        }
                    }
                    Probe {
                        found,
                        continuing: false,
                        complete: fragment.total == 1,
                        held: entry.bytes,
                        carried: 0,
                    }
                }
            },
            None => {
                proof {
                    if fragment.total > 1 {
                        let other = if index == 0 { 1int } else { 0int };
                        assert(empty_parts(fragment.total)[other] is None);
                    }
                }
                Probe { found, continuing: false, complete: fragment.total == 1, held: 0, carried: 0 }
            },
        }
    }

    /// Whether the buffer has no room for `fragment`.
    pub fn overflows(&self, fragment: &ChunkFragment) -> (b: bool)
        requires
            self.wf(),
        ensures
            b == overflows(self@, fragment@),
    {
        if fragment.index >= fragment.total {
            return false;
        }
        let p = self.probe(fragment);
        !p.complete && fragment.payload.len() > CHUNK_BUFFER_MAX - (self.buffered - p.held
            + p.carried)
    }

    /// Takes one fragment. Returns the whole payload when this fragment
    /// completes it. A fragment for which the buffer has no room is not
    /// taken.
    pub fn handle(&mut self, fragment: ChunkFragment, now_ms: u64) -> (r: Option<Vec<u8>>)
        requires
            old(self).wf(),
        ensures
            final(self).wf(),
            final(self)@ == list_after(old(self)@, fragment@, now_ms),
            match r {
                Some(data) => output_of(old(self)@, fragment@) == Some(data@),
                None => output_of(old(self)@, fragment@) is None,
            },
    {
        if fragment.index >= fragment.total {
            return None;
        }
        let ghost before = self@;
        let p = self.probe(&fragment);
        let size = fragment.payload.len();
        if !p.complete && size > CHUNK_BUFFER_MAX - (self.buffered - p.held + p.carried) {
            return None;
        }
        proof {
            lemma_pairs_map_finite(self.pairs());
        }
        let mut parts: Vec<Option<Vec<u8>>> = match p.found {
            Some(i) => {
                proof {
                    lemma_pairs_map_remove(self.pairs(), i as int);
                    lemma_map_total_remove(before, fragment.chunk_id, pending_weight());
                }
                let ghost old_pairs = self.pairs();
                let taken = self.entries.remove(i);
                assert(self.pairs() =~= old_pairs.remove(i as int));
                self.buffered = self.buffered - taken.bytes;
                if p.continuing {
                    taken.parts
                } else {
                    none_parts(fragment.total)
                }
            },
            None => {
                assert(self@.remove(fragment.chunk_id) =~= self@);
                none_parts(fragment.total)
            },
        };
        assert(self@ == before.remove(fragment.chunk_id));
        assert(self.wf());
        let ghost base = parts_view(parts@);
        let ChunkFragment { chunk_id, index, total, payload } = fragment;
        let ghost piece = payload@;
        parts.set(index as usize, Some(payload));
        assert(parts_view(parts@) =~= base.update(index as int, Some(piece)));
        assert(parts_view(parts@) == placed_parts(before, fragment@));
        if p.complete {
            Some(assemble(&parts))
        } else {
            let bytes = p.carried + size;
            proof {
                let entry = PendingView {
                    total,
                    parts: parts_view(parts@),
                    last_seen_ms: now_ms,
                };
                lemma_pairs_map_finite(self.pairs());
                lemma_pairs_map_push(self.pairs(), chunk_id, entry);
                lemma_map_total_insert(self@, chunk_id, entry, pending_weight());
                assert(before.remove(chunk_id).insert(chunk_id, entry) =~= before.insert(
                    chunk_id,
                    entry,
                ));
            }
            let ghost old_pairs = self.pairs();
            self.entries.push(PendingPayload { chunk_id, total, parts, last_seen_ms: now_ms, bytes });
            assert(self.pairs() =~= old_pairs.push(
                (
                    chunk_id,
                    PendingView { total, parts: parts_view(parts@), last_seen_ms: now_ms },
                ),
            ));
            self.buffered = self.buffered + bytes;
            None
        }
    }

    /// Drops the partial payloads whose last fragment came more than
    /// `CHUNK_TIMEOUT_MS` before `now_ms`.
    pub fn remove_expired(&mut self, now_ms: u64)
        requires
            old(self).wf(),
        ensures
            final(self).wf(),
            final(self)@ == without_stale(old(self)@, now_ms),
    {
        let ghost before = self@;
        let mut i: usize = 0;
        while i < self.entries.len()
            invariant
                i <= self.entries@.len(),
                self.wf(),
                forall|id: u128| #[trigger]
                    self@.contains_key(id) ==> before.contains_key(id) && before[id] == self@[id],
                forall|id: u128|
                    before.contains_key(id) && !is_stale(before[id], now_ms)
                        ==> #[trigger] self@.contains_key(id),
                forall|j: int| 0 <= j < i ==> !is_stale((#[trigger] self.pairs()[j]).1, now_ms),
            decreases self.entries@.len() - i,
        {
            let seen = self.entries[i].last_seen_ms;
            proof {
                lemma_pairs_map_entry(self.pairs(), i as int);
            }
            if now_ms > seen && now_ms - seen > CHUNK_TIMEOUT_MS {
                proof {
                    lemma_pairs_map_remove(self.pairs(), i as int);
                    lemma_pairs_map_finite(self.pairs());
                }
                let ghost old_pairs = self.pairs();
                let ghost prev = self@;
                let ghost gone = old_pairs[i as int].0;
                assert(old_pairs[i as int] == self.entries@[i as int].pair());
                assert(prev.contains_key(gone) && is_stale(prev[gone], now_ms));
                assert(before[gone] == prev[gone]);
                proof {
                    lemma_map_total_remove(prev, gone, pending_weight());
                }
                let taken = self.entries.remove(i);
                assert(self.pairs() =~= old_pairs.remove(i as int));
                self.buffered = self.buffered - taken.bytes;
                assert(self@ == prev.remove(gone));
                assert forall|id: u128|
                    before.contains_key(id) && !is_stale(before[id], now_ms)
                    implies #[trigger] self@.contains_key(id) by {
                    assert(prev.contains_key(id));
                    assert(id != gone);
                }
                assert forall|id: u128| #[trigger] self@.contains_key(id) implies before.contains_key(
                    id,
                ) && before[id] == self@[id] by {
                    assert(prev.contains_key(id));
                }
            } else {
                assert(self.pairs()[i as int] == self.entries@[i as int].pair());
                i = i + 1;
            }
        }
        proof {
            assert forall|id: u128| self@.contains_key(id) implies !is_stale(
                before[id],
                now_ms,
            ) by {
                let j = choose|j: int| key_at(self.pairs(), id, j);
                assert(key_at(self.pairs(), id, j));
                lemma_pairs_map_entry(self.pairs(), j);
            }
            assert(self@ =~= without_stale(before, now_ms));
        }
    }
}

/// The buffer and its outputs after it has been handed `frags` in turn,
/// all at `now_ms`.
pub open spec fn feed(list: Map<u128, PendingView>, frags: Seq<FragmentView>, now_ms: u64) -> (
    Map<u128, PendingView>,
    Seq<Option<Seq<u8>>>,
)
    decreases frags.len(),
{
    if frags.len() == 0 {
        (list, Seq::empty())
    } else {
        let (prev, outs) = feed(list, frags.drop_last(), now_ms);
        (list_after(prev, frags.last(), now_ms), outs.push(output_of(prev, frags.last())))
    }
}

/// One of the first `upto` places of `order` holds `v`.
pub open spec fn names(order: Seq<int>, v: int, upto: int) -> bool {
    exists|i: int| 0 <= i < upto && #[trigger] order[i] == v
}

/// `order` names each of `0..n` exactly once.
pub open spec fn is_permutation(order: Seq<int>, n: nat) -> bool {
    &&& order.len() == n
    &&& forall|i: int| 0 <= i < n ==> 0 <= #[trigger] order[i] < n
    &&& forall|i: int, j: int| 0 <= i < n && 0 <= j < n && i != j ==> order[i] != order[j]
    &&& forall|v: int| 0 <= v < n ==> #[trigger] names(order, v, n as int)
}

/// The fragments of `data` in the order that `order` gives.
pub open spec fn shuffled(data: Seq<u8>, chunk_id: u128, order: Seq<int>) -> Seq<FragmentView> {
    Seq::new(order.len(), |k: int| split_fragments(data, chunk_id)[order[k]])
}

/// The slots after the first `k` fragments of a shuffled payload have come.
spec fn slots_after(data: Seq<u8>, order: Seq<int>, k: int) -> Seq<Option<Seq<u8>>> {
    Seq::new(
        fragment_count(data.len()),
        |j: int|
            if names(order, j, k) {
                Some(fragment_payload(data, j))
            } else {
                None
            },
    )
}

/// The slots of a payload never hold more bytes than the payload has.
proof fn lemma_slots_bytes(data: Seq<u8>, order: Seq<int>, k: int)
    ensures
        entry_bytes(slots_after(data, order, k)) <= data.len(),
{
    let n = fragment_count(data.len());
    let full = Seq::new(n, |j: int| Some(fragment_payload(data, j)));
    lemma_entry_bytes_monotone(slots_after(data, order, k), full);
    assert(all_present(full));
    lemma_entry_bytes_assembled(full);
    assert(Seq::new(full.len(), |j: int| full[j].unwrap()) =~= Seq::new(
        n,
        |j: int| fragment_payload(data, j),
    ));
    lemma_join_prefix(data, n);
    if n * 64713 <= data.len() {
        assert(data.subrange(0, (n * 64713) as int) =~= data);
    }
}

proof fn lemma_feed_prefix(
    list: Map<u128, PendingView>,
    data: Seq<u8>,
    chunk_id: u128,
    order: Seq<int>,
    now_ms: u64,
    k: int,
)
    requires
        fragment_count(data.len()) <= 65535,
        is_permutation(order, fragment_count(data.len())),
        list.dom().finite(),
        !list.contains_key(chunk_id),
        buffered_bytes(list) + data.len() <= 16777216,
        1 <= k < order.len(),
    ensures
        feed(list, shuffled(data, chunk_id, order).take(k), now_ms).0 == list.insert(
            chunk_id,
            PendingView {
                total: fragment_count(data.len()) as u16,
                parts: slots_after(data, order, k),
                last_seen_ms: now_ms,
            },
        ),
        feed(list, shuffled(data, chunk_id, order).take(k), now_ms).1 == Seq::new(
            k as nat,
            |i: int| None::<Seq<u8>>,
        ),
    decreases k,
{
    let n = fragment_count(data.len());
    let all = shuffled(data, chunk_id, order);
    let frags = all.take(k);
    let f = frags.last();
    assert(f == split_fragments(data, chunk_id)[order[k - 1]]);
    assert(frags.drop_last() =~= all.take(k - 1));
    let prev = feed(list, frags.drop_last(), now_ms).0;
    let outs = feed(list, frags.drop_last(), now_ms).1;
    if k == 1 {
        assert(frags.drop_last().len() == 0);
        assert(prev == list);
        assert(outs =~= Seq::new(0, |i: int| None::<Seq<u8>>));
    } else {
        lemma_feed_prefix(list, data, chunk_id, order, now_ms, k - 1);
        lemma_map_total_insert(
            list,
            chunk_id,
            PendingView {
                total: n as u16,
                parts: slots_after(data, order, k - 1),
                last_seen_ms: now_ms,
            },
            pending_weight(),
        );
    }
    let slots = placed_parts(prev, f);
    assert(slots =~= slots_after(data, order, k)) by {
        assert forall|j: int| 0 <= j < n implies slots[j] == slots_after(data, order, k)[j] by {
            if j == order[k - 1] {
                assert(names(order, j, k));
            } else {
                if names(order, j, k) {
                    let i = choose|i: int| 0 <= i < k && #[trigger] order[i] == j;
                    assert(i < k - 1);
                    assert(names(order, j, k - 1));
                }
                if names(order, j, k - 1) {
                    let i = choose|i: int| 0 <= i < k - 1 && #[trigger] order[i] == j;
                    assert(names(order, j, k));
                }
            }
        }
    }
    let missing = order[order.len() - 1];
    assert(slots[missing] is None) by {
        if names(order, missing, k) {
            let i = choose|i: int| 0 <= i < k && #[trigger] order[i] == missing;
            assert(order[i] != order[order.len() - 1]);
        }
    }
    assert(!all_present(slots));
    lemma_slots_bytes(data, order, k);
    assert(buffered_bytes(prev) - held(prev, chunk_id) == buffered_bytes(list));
    assert(!overflows(prev, f));
    assert(list_after(prev, f, now_ms) =~= list.insert(chunk_id, placed(prev, f, now_ms)));
    assert(feed(list, frags, now_ms).1 =~= Seq::new(k as nat, |i: int| None::<Seq<u8>>));
}

/// A payload that is cut into fragments comes out whole, once and at the
/// last fragment, in whatever order the fragments reach a buffer that holds
/// nothing under their chunk id and has room for the payload; and the
/// buffer is then as it was.
pub proof fn lemma_chunk_round_trip(
    list: Map<u128, PendingView>,
    data: Seq<u8>,
    chunk_id: u128,
    order: Seq<int>,
    now_ms: u64,
)
    requires
        fragment_count(data.len()) <= 65535,
        is_permutation(order, fragment_count(data.len())),
        list.dom().finite(),
        !list.contains_key(chunk_id),
        buffered_bytes(list) + data.len() <= 16777216,
    ensures
        feed(list, shuffled(data, chunk_id, order), now_ms).0 == list,
        feed(list, shuffled(data, chunk_id, order), now_ms).1.len() == order.len(),
        feed(list, shuffled(data, chunk_id, order), now_ms).1.last() == Some(data),
        forall|k: int|
            0 <= k < order.len() - 1 ==> (#[trigger] feed(
                list,
                shuffled(data, chunk_id, order),
                now_ms,
            ).1[k]) is None,
{
    let n = fragment_count(data.len());
    let all = shuffled(data, chunk_id, order);
    let f = all.last();
    assert(f == split_fragments(data, chunk_id)[order[n - 1]]);
    let prev = feed(list, all.drop_last(), now_ms).0;
    let outs = feed(list, all.drop_last(), now_ms).1;
    if n == 1 {
        assert(all.drop_last().len() == 0);
        assert(prev == list);
        assert(outs =~= Seq::<Option<Seq<u8>>>::empty());
    } else {
        assert(all.drop_last() =~= all.take(n - 1));
        lemma_feed_prefix(list, data, chunk_id, order, now_ms, n - 1);
    }
    let slots = placed_parts(prev, f);
    let full = Seq::new(n, |j: int| Some(fragment_payload(data, j)));
    assert(slots =~= full) by {
        assert forall|j: int| 0 <= j < n implies slots[j] == full[j] by {
            if j != order[n - 1] {
                assert(names(order, j, n as int));
                let i = choose|i: int| 0 <= i < n && #[trigger] order[i] == j;
                assert(0 <= i < n - 1 && order[i] == j);
                assert(names(order, j, n - 1));
            }
        }
    }
    assert(all_present(slots));
    assert(Seq::new(slots.len(), |j: int| slots[j].unwrap()) =~= Seq::new(
        n,
        |j: int| fragment_payload(data, j),
    ));
    lemma_join_prefix(data, n);
    if n * 64713 <= data.len() {
        assert(data.subrange(0, (n * 64713) as int) =~= data);
    }
    assert(assembled(slots) == data);
    assert(list_after(prev, f, now_ms) =~= list);
}

} // verus!
