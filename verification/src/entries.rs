//! Sequences of key/value entries read as finite maps.
//!
//! The stores of this crate keep their entries in vectors whose keys are
//! pairwise distinct. The functions here give such a sequence its meaning as a
//! `Map`, and the lemmas relate the vector operations to the map operations.

use vstd::prelude::*;

verus! {

/// Some entry of `s` has key `k`.
pub open spec fn has_key<K, V>(s: Seq<(K, V)>, k: K) -> bool {
    exists|i: int| 0 <= i < s.len() && (#[trigger] s[i]).0 == k
}

/// No two entries of `s` share a key.
pub open spec fn distinct_keys<K, V>(s: Seq<(K, V)>) -> bool {
    forall|i: int, j: int| 0 <= i < j < s.len() ==> (#[trigger] s[i]).0 != (#[trigger] s[j]).0
}

/// An index at which `k` is found in `s`, if there is one.
pub open spec fn position<K, V>(s: Seq<(K, V)>, k: K) -> int {
    choose|i: int| 0 <= i < s.len() && (#[trigger] s[i]).0 == k
}

/// The map that the entries of `s` spell.
pub open spec fn as_map<K, V>(s: Seq<(K, V)>) -> Map<K, V> {
    Map::new(|k: K| has_key(s, k), |k: K| s[position(s, k)].1)
}

/// With distinct keys, every entry is what the map holds under its key.
pub proof fn lemma_as_map_entry<K, V>(s: Seq<(K, V)>, i: int)
    requires
        distinct_keys(s),
        0 <= i < s.len(),
    ensures
        as_map(s).contains_key(s[i].0),
        as_map(s)[s[i].0] == s[i].1,
        position(s, s[i].0) == i,
{
    let k = s[i].0;
    assert(has_key(s, k));
    let p = position(s, k);
    assert(0 <= p < s.len() && s[p].0 == k);
    if p < i {
        assert(s[p].0 != s[i].0);
    } else if i < p {
        assert(s[i].0 != s[p].0);
    }
}

/// The empty sequence spells the empty map.
pub proof fn lemma_as_map_empty<K, V>()
    ensures
        as_map(Seq::<(K, V)>::empty()) == Map::<K, V>::empty(),
        distinct_keys(Seq::<(K, V)>::empty()),
{
    assert(as_map(Seq::<(K, V)>::empty()) =~= Map::<K, V>::empty());
}

/// Appending an entry under a new key inserts it into the map.
pub proof fn lemma_as_map_push<K, V>(s: Seq<(K, V)>, k: K, v: V)
    requires
        distinct_keys(s),
        !has_key(s, k),
    ensures
        distinct_keys(s.push((k, v))),
        as_map(s.push((k, v))) == as_map(s).insert(k, v),
{
    let t = s.push((k, v));
    assert forall|i: int, j: int| 0 <= i < j < t.len() implies (#[trigger] t[i]).0 != (#[trigger] t[j]).0 by {
        if j < s.len() {
            assert(s[i].0 != s[j].0);
        } else {
            assert(s[i].0 != k);
        }
    }
    assert forall|q: K| #[trigger] as_map(t).contains_key(q) <==> as_map(s).insert(k, v).contains_key(q) by {
        if has_key(t, q) {
            let i = position(t, q);
            if i < s.len() {
                assert(s[i].0 == q);
            }
        }
        if has_key(s, q) {
            let i = position(s, q);
            assert(t[i].0 == q);
        }
        if q == k {
            assert(t[s.len() as int].0 == k);
        }
    }
    assert forall|q: K| #[trigger] as_map(t).contains_key(q) implies as_map(t)[q] == as_map(s).insert(k, v)[q] by {
        let i = position(t, q);
        lemma_as_map_entry(t, i);
        if i < s.len() {
            assert(s[i] == t[i]);
            lemma_as_map_entry(s, i);
        }
    }
    assert(as_map(t) =~= as_map(s).insert(k, v));
}

/// Replacing the value of an entry replaces it in the map.
pub proof fn lemma_as_map_update<K, V>(s: Seq<(K, V)>, i: int, v: V)
    requires
        distinct_keys(s),
        0 <= i < s.len(),
    ensures
        distinct_keys(s.update(i, (s[i].0, v))),
        as_map(s.update(i, (s[i].0, v))) == as_map(s).insert(s[i].0, v),
{
    let k = s[i].0;
    let t = s.update(i, (k, v));
    assert forall|a: int, b: int| 0 <= a < b < t.len() implies (#[trigger] t[a]).0 != (#[trigger] t[b]).0 by {
        assert(t[a].0 == s[a].0);
        assert(t[b].0 == s[b].0);
    }
    assert forall|q: K| #[trigger] as_map(t).contains_key(q) <==> as_map(s).insert(k, v).contains_key(q) by {
        if has_key(t, q) {
            let p = position(t, q);
            assert(s[p].0 == q);
        }
        if has_key(s, q) {
            let p = position(s, q);
            assert(t[p].0 == q);
        }
        if q == k {
            assert(t[i].0 == k);
        }
    }
    assert forall|q: K| #[trigger] as_map(t).contains_key(q) implies as_map(t)[q] == as_map(s).insert(k, v)[q] by {
        let p = position(t, q);
        lemma_as_map_entry(t, p);
        assert(s[p].0 == q);
        lemma_as_map_entry(s, p);
    }
    assert(as_map(t) =~= as_map(s).insert(k, v));
}

/// With distinct keys, the map has as many keys as the sequence has entries.
pub proof fn lemma_as_map_len<K, V>(s: Seq<(K, V)>)
    requires
        distinct_keys(s),
    ensures
        as_map(s).dom().finite(),
        as_map(s).dom().len() == s.len(),
    decreases s.len(),
{
    if s.len() == 0 {
        assert(as_map(s).dom() =~= Set::<K>::empty());
    } else {
        let head = s.drop_last();
        let last = s.last();
        assert forall|i: int, j: int| 0 <= i < j < head.len() implies (#[trigger] head[i]).0 != (#[trigger] head[j]).0 by {
            assert(s[i].0 != s[j].0);
        }
        lemma_as_map_len(head);
        if has_key(head, last.0) {
            let p = position(head, last.0);
            assert(s[p].0 != s[s.len() - 1].0);
        }
        lemma_as_map_push(head, last.0, last.1);
        assert(head.push((last.0, last.1)) =~= s);
        assert(as_map(s).dom() =~= as_map(head).dom().insert(last.0));
    }
}


/// What `m` holds under `k`, if anything.
pub open spec fn lookup<K, V>(m: Map<K, V>, k: K) -> Option<V> {
    if m.contains_key(k) {
        Some(m[k])
    } else {
        None
    }
}

/// `local` after `foreign` was merged in, key by key: a key of `foreign` gets
/// what `combine` makes of the local value, if there is one, and the foreign
/// value; every other key keeps what it had.
pub open spec fn merged<K, V, W>(
    local: Map<K, V>,
    foreign: Map<K, W>,
    combine: spec_fn(Option<V>, W) -> V,
) -> Map<K, V> {
    Map::new(
        |k: K| local.contains_key(k) || foreign.contains_key(k),
        |k: K|
            if foreign.contains_key(k) {
                combine(lookup(local, k), foreign[k])
            } else {
                local[k]
            },
    )
}

/// Merging nothing in changes nothing.
pub proof fn lemma_merged_none<K, V, W>(local: Map<K, V>, combine: spec_fn(Option<V>, W) -> V)
    ensures
        merged(local, as_map(Seq::<(K, W)>::empty().take(0)), combine) == local,
        merged(local, Map::<K, W>::empty(), combine) == local,
{
    lemma_as_map_empty::<K, W>();
    assert(Seq::<(K, W)>::empty().take(0) =~= Seq::<(K, W)>::empty());
    assert(merged(local, Map::<K, W>::empty(), combine) =~= local);
}

/// Merging the first `i + 1` entries of `s` in is merging the first `i` in and
/// then the entry at `i`, whose key the first `i` have left as it was.
pub proof fn lemma_merged_step<K, V, W>(
    local: Map<K, V>,
    s: Seq<(K, W)>,
    i: int,
    combine: spec_fn(Option<V>, W) -> V,
)
    requires
        distinct_keys(s),
        0 <= i < s.len(),
    ensures
        lookup(merged(local, as_map(s.take(i)), combine), s[i].0) == lookup(local, s[i].0),
        merged(local, as_map(s.take(i + 1)), combine) == merged(
            local,
            as_map(s.take(i)),
            combine,
        ).insert(s[i].0, combine(lookup(local, s[i].0), s[i].1)),
{
    let head = s.take(i);
    let k = s[i].0;
    let w = s[i].1;
    assert forall|a: int, b: int| 0 <= a < b < head.len() implies (#[trigger] head[a]).0 != (#[trigger] head[b]).0 by {
        assert(s[a].0 != s[b].0);
    }
    if has_key(head, k) {
        let p = position(head, k);
        assert(s[p].0 != s[i].0);
    }
    lemma_as_map_push(head, k, w);
    assert(head.push((k, w)) =~= s.take(i + 1));
    assert(merged(local, as_map(s.take(i + 1)), combine) =~= merged(
        local,
        as_map(head),
        combine,
    ).insert(k, combine(lookup(local, k), w)));
}

/// Taking every entry of a sequence gives the sequence.
pub proof fn lemma_take_all<K, W>(s: Seq<(K, W)>)
    ensures
        s.take(s.len() as int) == s,
{
    assert(s.take(s.len() as int) =~= s);
}

} // verus!
