//! Sequences of records that stand for maps: each record carries its own
//! key, no two records share one, and the map sends each key to its record.

use vstd::prelude::*;

verus! {

/// No two records of `s` have the same key.
pub open spec fn keys_distinct<V, K>(s: Seq<V>, key: spec_fn(V) -> K) -> bool {
    forall|i: int, j: int|
        0 <= i < s.len() && 0 <= j < s.len() && i != j ==> key(#[trigger] s[i]) != key(
            #[trigger] s[j],
        )
}

/// Some record of `s` has key `k`.
pub open spec fn has_key<V, K>(s: Seq<V>, key: spec_fn(V) -> K, k: K) -> bool {
    exists|i: int| 0 <= i < s.len() && key(#[trigger] s[i]) == k
}

/// The map that a sequence of keyed records stands for.
pub open spec fn keyed<V, K>(s: Seq<V>, key: spec_fn(V) -> K) -> Map<K, V> {
    Map::new(
        |k: K| has_key(s, key, k),
        |k: K| s[choose|i: int| 0 <= i < s.len() && key(#[trigger] s[i]) == k],
    )
}

pub proof fn lemma_keyed_at<V, K>(s: Seq<V>, key: spec_fn(V) -> K, i: int)
    requires
        keys_distinct(s, key),
        0 <= i < s.len(),
    ensures
        keyed(s, key).contains_key(key(s[i])),
        keyed(s, key)[key(s[i])] == s[i],
{
    assert(has_key(s, key, key(s[i])));
    let j = choose|j: int| 0 <= j < s.len() && key(#[trigger] s[j]) == key(s[i]);
    assert(key(s[j]) == key(s[i]));
}

pub proof fn lemma_keyed_value_key<V, K>(s: Seq<V>, key: spec_fn(V) -> K, k: K)
    requires
        keyed(s, key).contains_key(k),
    ensures
        key(keyed(s, key)[k]) == k,
        s.contains(keyed(s, key)[k]),
{
    let i = choose|i: int| 0 <= i < s.len() && key(#[trigger] s[i]) == k;
    assert(s[i] == keyed(s, key)[k]);
}

pub proof fn lemma_keyed_absent<V, K>(s: Seq<V>, key: spec_fn(V) -> K, k: K)
    requires
        forall|i: int| 0 <= i < s.len() ==> key(#[trigger] s[i]) != k,
    ensures
        !keyed(s, key).contains_key(k),
{
}

pub proof fn lemma_keyed_update<V, K>(s: Seq<V>, key: spec_fn(V) -> K, i: int, v: V)
    requires
        keys_distinct(s, key),
        0 <= i < s.len(),
        key(v) == key(s[i]),
    ensures
        keys_distinct(s.update(i, v), key),
        keyed(s.update(i, v), key) == keyed(s, key).insert(key(v), v),
{
    let t = s.update(i, v);
    assert forall|a: int, b: int|
        0 <= a < t.len() && 0 <= b < t.len() && a != b implies key(#[trigger] t[a]) != key(
            #[trigger] t[b],
        ) by {
        assert(key(t[a]) == key(s[a]));
        assert(key(t[b]) == key(s[b]));
    }
    let m1 = keyed(t, key);
    let m2 = keyed(s, key).insert(key(v), v);
    assert forall|k: K| m1.contains_key(k) <==> m2.contains_key(k) by {
        if m1.contains_key(k) {
            let j = choose|j: int| 0 <= j < t.len() && key(#[trigger] t[j]) == k;
            assert(key(t[j]) == key(s[j]));
            assert(has_key(s, key, k));
        }
        if m2.contains_key(k) {
            if k == key(v) {
                assert(key(t[i]) == k);
            } else {
                let j = choose|j: int| 0 <= j < s.len() && key(#[trigger] s[j]) == k;
                assert(key(t[j]) == key(s[j]));
            }
        }
    }
    assert forall|k: K| m1.contains_key(k) implies m1[k] == m2[k] by {
        let j = choose|j: int| 0 <= j < t.len() && key(#[trigger] t[j]) == k;
        lemma_keyed_at(t, key, j);
        if j == i {
        } else {
            assert(t[j] == s[j]);
            lemma_keyed_at(s, key, j);
        }
    }
    assert(m1 =~= m2);
}

pub proof fn lemma_keyed_push<V, K>(s: Seq<V>, key: spec_fn(V) -> K, v: V)
    requires
        keys_distinct(s, key),
        !keyed(s, key).contains_key(key(v)),
    ensures
        keys_distinct(s.push(v), key),
        keyed(s.push(v), key) == keyed(s, key).insert(key(v), v),
{
    let t = s.push(v);
    assert forall|i: int| 0 <= i < s.len() implies key(#[trigger] s[i]) != key(v) by {
        if key(s[i]) == key(v) {
            assert(has_key(s, key, key(v)));
        }
    }
    assert forall|a: int, b: int|
        0 <= a < t.len() && 0 <= b < t.len() && a != b implies key(#[trigger] t[a]) != key(
            #[trigger] t[b],
        ) by {
        if a < s.len() {
            assert(t[a] == s[a]);
        }
        if b < s.len() {
            assert(t[b] == s[b]);
        }
    }
    let m1 = keyed(t, key);
    let m2 = keyed(s, key).insert(key(v), v);
    assert forall|k: K| m1.contains_key(k) <==> m2.contains_key(k) by {
        if m1.contains_key(k) {
            let j = choose|j: int| 0 <= j < t.len() && key(#[trigger] t[j]) == k;
            if j < s.len() {
                assert(t[j] == s[j]);
                assert(has_key(s, key, k));
            }
        }
        if m2.contains_key(k) {
            if k == key(v) {
                assert(key(t[s.len() as int]) == k);
            } else {
                let j = choose|j: int| 0 <= j < s.len() && key(#[trigger] s[j]) == k;
                assert(t[j] == s[j]);
                assert(key(t[j]) == k);
            }
        }
    }
    assert forall|k: K| m1.contains_key(k) implies m1[k] == m2[k] by {
        let j = choose|j: int| 0 <= j < t.len() && key(#[trigger] t[j]) == k;
        lemma_keyed_at(t, key, j);
        if j < s.len() {
            assert(t[j] == s[j]);
            lemma_keyed_at(s, key, j);
        }
    }
    assert(m1 =~= m2);
}

} // verus!
