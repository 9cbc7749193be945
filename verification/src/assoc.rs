//! A list of key-value pairs with distinct keys, read as a finite map.

use vstd::prelude::*;

verus! {

/// No key occurs twice in the list.
pub open spec fn distinct_keys<K, V>(s: Seq<(K, V)>) -> bool {
    forall|i: int, j: int| 0 <= i < s.len() && 0 <= j < s.len() && i != j ==> s[i].0 != s[j].0
}

/// The key `k` occurs at position `i`.
pub open spec fn key_at<K, V>(s: Seq<(K, V)>, k: K, i: int) -> bool {
    0 <= i < s.len() && s[i].0 == k
}

/// The map that holds each pair of the list.
pub open spec fn pairs_map<K, V>(s: Seq<(K, V)>) -> Map<K, V> {
    Map::new(
        |k: K| exists|i: int| key_at(s, k, i),
        |k: K| s[choose|i: int| key_at(s, k, i)].1,
    )
}

/// Each pair of a list with distinct keys is an entry of its map.
pub proof fn lemma_pairs_map_entry<K, V>(s: Seq<(K, V)>, i: int)
    requires
        distinct_keys(s),
        0 <= i < s.len(),
    ensures
        pairs_map(s).contains_key(s[i].0),
        pairs_map(s)[s[i].0] == s[i].1,
{
    let k = s[i].0;
    assert(key_at(s, k, i));
    let j = choose|j: int| key_at(s, k, j);
    assert(j == i);
}

/// A key that no pair holds is no key of the map.
pub proof fn lemma_pairs_map_absent<K, V>(s: Seq<(K, V)>, k: K)
    requires
        forall|i: int| 0 <= i < s.len() ==> s[i].0 != k,
    ensures
        !pairs_map(s).contains_key(k),
{
    if pairs_map(s).contains_key(k) {
        let i = choose|i: int| key_at(s, k, i);
        assert(key_at(s, k, i));
    }
}

/// The map is finite: it has at most one key for each pair.
pub proof fn lemma_pairs_map_finite<K, V>(s: Seq<(K, V)>)
    ensures
        pairs_map(s).dom().finite(),
        pairs_map(s).dom().len() <= s.len(),
    decreases s.len(),
{
    if s.len() == 0 {
        assert(pairs_map(s).dom() =~= Set::empty()) by {
            assert forall|k: K| !pairs_map(s).dom().contains(k) by {
                if pairs_map(s).dom().contains(k) {
                    let i = choose|i: int| key_at(s, k, i);
                    assert(key_at(s, k, i));
                }
            }
        }
    } else {
        let init = s.drop_last();
        lemma_pairs_map_finite(init);
        let k = s.last().0;
        assert(pairs_map(s).dom() =~= pairs_map(init).dom().insert(k)) by {
            assert forall|x: K| pairs_map(s).dom().contains(x) <==> pairs_map(init).dom().insert(
                k,
            ).contains(x) by {
                if pairs_map(s).dom().contains(x) {
                    let i = choose|i: int| key_at(s, x, i);
                    assert(key_at(s, x, i));
                    if i < init.len() {
                        assert(key_at(init, x, i));
                    }
                }
                if pairs_map(init).dom().contains(x) {
                    let i = choose|i: int| key_at(init, x, i);
                    assert(key_at(init, x, i));
                    assert(key_at(s, x, i));
                }
                if x == k {
                    assert(key_at(s, x, s.len() - 1));
                }
            }
        }
    }
}

/// Appending a pair with a new key inserts it into the map.
pub proof fn lemma_pairs_map_push<K, V>(s: Seq<(K, V)>, k: K, v: V)
    requires
        distinct_keys(s),
        !pairs_map(s).contains_key(k),
    ensures
        distinct_keys(s.push((k, v))),
        pairs_map(s.push((k, v))) == pairs_map(s).insert(k, v),
{
    let t = s.push((k, v));
    assert forall|i: int| 0 <= i < s.len() implies s[i].0 != k by {
        if s[i].0 == k {
            assert(key_at(s, k, i));
        }
    }
    assert(distinct_keys(t));
    assert forall|x: K| pairs_map(t).contains_key(x) <==> pairs_map(s).insert(k, v).contains_key(
        x,
    ) by {
        if pairs_map(t).contains_key(x) {
            let i = choose|i: int| key_at(t, x, i);
            assert(key_at(t, x, i));
            if i < s.len() {
                assert(key_at(s, x, i));
            }
        }
        if pairs_map(s).contains_key(x) {
            let i = choose|i: int| key_at(s, x, i);
            assert(key_at(s, x, i));
            assert(key_at(t, x, i));
        }
        if x == k {
            assert(key_at(t, x, s.len() as int));
        }
    }
    assert forall|x: K| pairs_map(t).contains_key(x) implies pairs_map(t)[x] == pairs_map(
        s,
    ).insert(k, v)[x] by {
        let i = choose|i: int| key_at(t, x, i);
        assert(key_at(t, x, i));
        lemma_pairs_map_entry(t, i);
        if i < s.len() {
            lemma_pairs_map_entry(s, i);
        }
    }
    assert(pairs_map(t) =~= pairs_map(s).insert(k, v));
}

/// Taking the pair at position `i` out removes its key from the map.
pub proof fn lemma_pairs_map_remove<K, V>(s: Seq<(K, V)>, i: int)
    requires
        distinct_keys(s),
        0 <= i < s.len(),
    ensures
        distinct_keys(s.remove(i)),
        pairs_map(s.remove(i)) == pairs_map(s).remove(s[i].0),
{
    let k = s[i].0;
    let t = s.remove(i);
    assert forall|a: int, b: int| 0 <= a < t.len() && 0 <= b < t.len() && a != b implies t[a].0
        != t[b].0 by {
        let a0 = if a < i { a } else { a + 1 };
        let b0 = if b < i { b } else { b + 1 };
        assert(t[a] == s[a0]);
        assert(t[b] == s[b0]);
    }
    assert forall|x: K| pairs_map(t).contains_key(x) <==> pairs_map(s).remove(k).contains_key(
        x,
    ) by {
        if pairs_map(t).contains_key(x) {
            let j = choose|j: int| key_at(t, x, j);
            assert(key_at(t, x, j));
            let j0 = if j < i { j } else { j + 1 };
            assert(t[j] == s[j0]);
            assert(key_at(s, x, j0));
        }
        if pairs_map(s).contains_key(x) && x != k {
            let j = choose|j: int| key_at(s, x, j);
            assert(key_at(s, x, j));
            let j1 = if j < i { j } else { j - 1 };
            assert(t[j1] == s[j]);
            assert(key_at(t, x, j1));
        }
    }
    assert forall|x: K| pairs_map(t).contains_key(x) implies pairs_map(t)[x] == pairs_map(
        s,
    ).remove(k)[x] by {
        let j = choose|j: int| key_at(t, x, j);
        assert(key_at(t, x, j));
        let j0 = if j < i { j } else { j + 1 };
        assert(t[j] == s[j0]);
        lemma_pairs_map_entry(t, j);
        lemma_pairs_map_entry(s, j0);
    }
    assert(pairs_map(t) =~= pairs_map(s).remove(k));
}


/// With distinct keys the map has exactly one key for each pair.
pub proof fn lemma_pairs_map_len<K, V>(s: Seq<(K, V)>)
    requires
        distinct_keys(s),
    ensures
        pairs_map(s).dom().finite(),
        pairs_map(s).dom().len() == s.len(),
    decreases s.len(),
{
    lemma_pairs_map_finite(s);
    if s.len() > 0 {
        let init = s.drop_last();
        let k = s.last().0;
        let v = s.last().1;
        assert(distinct_keys(init)) by {
            assert forall|i: int, j: int|
                0 <= i < init.len() && 0 <= j < init.len() && i != j implies init[i].0
                != init[j].0 by {
                assert(init[i] == s[i]);
                assert(init[j] == s[j]);
            }
        }
        lemma_pairs_map_len(init);
        assert forall|i: int| 0 <= i < init.len() implies init[i].0 != k by {
            assert(init[i] == s[i]);
        }
        lemma_pairs_map_absent(init, k);
        lemma_pairs_map_push(init, k, v);
        assert(init.push((k, v)) =~= s);
    }
}


/// Adds the weight of the entry under a key to a sum.
pub open spec fn add_weight<K, V>(m: Map<K, V>, weight: spec_fn(V) -> nat) -> spec_fn(nat, K) -> nat {
    |sum: nat, k: K| sum + weight(m[k])
}

/// The sum of the weights of the entries of a finite map.
pub open spec fn map_total<K, V>(m: Map<K, V>, weight: spec_fn(V) -> nat) -> nat {
    m.dom().fold(0nat, add_weight(m, weight))
}

/// Two ways of adding that agree on each element of a finite set add up to
/// the same over the set.
proof fn lemma_fold_agrees<K>(s: Set<K>, f: spec_fn(nat, K) -> nat, g: spec_fn(nat, K) -> nat)
    requires
        s.finite(),
        vstd::set::fold::is_fun_commutative(f),
        vstd::set::fold::is_fun_commutative(g),
        forall|sum: nat, k: K| s.contains(k) ==> #[trigger] f(sum, k) == g(sum, k),
    ensures
        s.fold(0nat, f) == s.fold(0nat, g),
    decreases s.len(),
{
    if s.is_empty() {
        assert(s =~= Set::empty());
        vstd::set::fold::lemma_fold_empty(0nat, f);
        vstd::set::fold::lemma_fold_empty(0nat, g);
    } else {
        let a = s.choose();
        let t = s.remove(a);
        lemma_fold_agrees(t, f, g);
        vstd::set::fold::lemma_fold_insert(t, 0nat, f, a);
        vstd::set::fold::lemma_fold_insert(t, 0nat, g, a);
        assert(t.insert(a) =~= s);
    }
}

/// A map without entries weighs nothing.
pub proof fn lemma_map_total_empty<K, V>(weight: spec_fn(V) -> nat)
    ensures
        map_total(Map::<K, V>::empty(), weight) == 0,
{
    let m = Map::<K, V>::empty();
    assert(m.dom() =~= Set::empty());
    vstd::set::fold::lemma_fold_empty(0nat, add_weight(m, weight));
}

/// A new entry adds its weight.
pub proof fn lemma_map_total_insert<K, V>(m: Map<K, V>, k: K, v: V, weight: spec_fn(V) -> nat)
    requires
        m.dom().finite(),
        !m.contains_key(k),
    ensures
        map_total(m.insert(k, v), weight) == map_total(m, weight) + weight(v),
{
    let n = m.insert(k, v);
    let f = add_weight(m, weight);
    let g = add_weight(n, weight);
    assert(vstd::set::fold::is_fun_commutative(f));
    assert(vstd::set::fold::is_fun_commutative(g));
    assert forall|sum: nat, x: K| m.dom().contains(x) implies #[trigger] f(sum, x) == g(sum, x) by {
        assert(n[x] == m[x]);
    }
    lemma_fold_agrees(m.dom(), f, g);
    vstd::set::fold::lemma_fold_insert(m.dom(), 0nat, g, k);
    assert(n.dom() =~= m.dom().insert(k));
}

/// An entry that is taken out takes its weight with it.
pub proof fn lemma_map_total_remove<K, V>(m: Map<K, V>, k: K, weight: spec_fn(V) -> nat)
    requires
        m.dom().finite(),
        m.contains_key(k),
    ensures
        map_total(m, weight) == map_total(m.remove(k), weight) + weight(m[k]),
{
    let rest = m.remove(k);
    assert(rest.dom() =~= m.dom().remove(k));
    lemma_map_total_insert(rest, k, m[k], weight);
    assert(rest.insert(k, m[k]) =~= m);
}

} // verus!
