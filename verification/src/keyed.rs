//! Association lists: sequences of key/value pairs with distinct keys,
//! read as finite maps. Several stores of the library keep their entries
//! this way; the lemmas here relate edits of the sequence to edits of the map.
use vstd::prelude::*;

verus! {

/// No key occurs twice.
pub open spec fn keys_distinct<K, V>(s: Seq<(K, V)>) -> bool {
    forall|i: int, j: int|
        0 <= i < s.len() && 0 <= j < s.len() && i != j ==> #[trigger] s[i].0 != #[trigger] s[j].0
}

/// Some entry carries the key `k`.
pub open spec fn has_key<K, V>(s: Seq<(K, V)>, k: K) -> bool {
    exists|i: int| 0 <= i < s.len() && #[trigger] s[i].0 == k
}

/// The position of an entry with key `k` (meaningful when `has_key`).
pub open spec fn key_index<K, V>(s: Seq<(K, V)>, k: K) -> int {
    choose|i: int| 0 <= i < s.len() && #[trigger] s[i].0 == k
}

/// The finite map that the entries describe.
pub open spec fn seq_to_map<K, V>(s: Seq<(K, V)>) -> Map<K, V> {
    Map::new(|k: K| has_key(s, k), |k: K| s[key_index(s, k)].1)
}

/// The keys, in the order the entries stand.
pub open spec fn key_seq<K, V>(s: Seq<(K, V)>) -> Seq<K> {
    s.map_values(|p: (K, V)| p.0)
}

pub proof fn lemma_entry<K, V>(s: Seq<(K, V)>, i: int)
    requires
        keys_distinct(s),
        0 <= i < s.len(),
    ensures
        seq_to_map(s).dom().contains(s[i].0),
        seq_to_map(s)[s[i].0] == s[i].1,
        key_index(s, s[i].0) == i,
{
    assert(has_key(s, s[i].0));
    let j = key_index(s, s[i].0);
    assert(s[j].0 == s[i].0);
}

pub proof fn lemma_absent<K, V>(s: Seq<(K, V)>, k: K)
    requires
        forall|i: int| 0 <= i < s.len() ==> #[trigger] s[i].0 != k,
    ensures
        !seq_to_map(s).dom().contains(k),
{
}

pub proof fn lemma_empty<K, V>()
    ensures
        seq_to_map(Seq::<(K, V)>::empty()) == Map::<K, V>::empty(),
        keys_distinct(Seq::<(K, V)>::empty()),
{
    assert(seq_to_map(Seq::<(K, V)>::empty()) =~= Map::<K, V>::empty());
}

pub proof fn lemma_push<K, V>(s: Seq<(K, V)>, k: K, v: V)
    requires
        keys_distinct(s),
        !seq_to_map(s).dom().contains(k),
    ensures
        keys_distinct(s.push((k, v))),
        seq_to_map(s.push((k, v))) == seq_to_map(s).insert(k, v),
{
    let t = s.push((k, v));
    assert forall|i: int| 0 <= i < s.len() implies #[trigger] s[i].0 != k by {
        if s[i].0 == k {
            assert(has_key(s, k));
        }
    }
    assert(keys_distinct(t)) by {
        assert forall|i: int, j: int|
            0 <= i < t.len() && 0 <= j < t.len() && i != j implies #[trigger] t[i].0
            != #[trigger] t[j].0 by {
            if i < s.len() && j < s.len() {
                assert(t[i] == s[i] && t[j] == s[j]);
            }
        }
    }
    assert forall|q: K| #[trigger] seq_to_map(t).dom().contains(q) <==> seq_to_map(
        s,
    ).insert(k, v).dom().contains(q) by {
        if has_key(s, q) {
            let i = key_index(s, q);
            assert(t[i] == s[i]);
        }
        if has_key(t, q) && q != k {
            let i = key_index(t, q);
            assert(i < s.len());
            assert(s[i] == t[i]);
        }
        if q == k {
            assert(t[s.len() as int].0 == k);
        }
    }
    assert forall|q: K| #[trigger] seq_to_map(t).dom().contains(q) implies seq_to_map(t)[q]
        == seq_to_map(s).insert(k, v)[q] by {
        if q == k {
            lemma_entry(t, s.len() as int);
        } else {
            let i = key_index(t, q);
            assert(i < s.len());
            assert(s[i] == t[i]);
            lemma_entry(t, i);
            lemma_entry(s, i);
        }
    }
    assert(seq_to_map(t) =~= seq_to_map(s).insert(k, v));
}

pub proof fn lemma_update<K, V>(s: Seq<(K, V)>, i: int, v: V)
    requires
        keys_distinct(s),
        0 <= i < s.len(),
    ensures
        keys_distinct(s.update(i, (s[i].0, v))),
        seq_to_map(s.update(i, (s[i].0, v))) == seq_to_map(s).insert(s[i].0, v),
{
    let k = s[i].0;
    let t = s.update(i, (k, v));
    assert(keys_distinct(t)) by {
        assert forall|a: int, b: int|
            0 <= a < t.len() && 0 <= b < t.len() && a != b implies #[trigger] t[a].0
            != #[trigger] t[b].0 by {
            assert(t[a].0 == s[a].0);
            assert(t[b].0 == s[b].0);
        }
    }
    assert forall|q: K| #[trigger] seq_to_map(t).dom().contains(q) <==> seq_to_map(
        s,
    ).insert(k, v).dom().contains(q) by {
        if has_key(s, q) {
            let a = key_index(s, q);
            assert(t[a].0 == s[a].0);
        }
        if has_key(t, q) {
            let a = key_index(t, q);
            assert(t[a].0 == s[a].0);
        }
        if q == k {
            assert(t[i].0 == k);
            assert(s[i].0 == k);
        }
    }
    assert forall|q: K| #[trigger] seq_to_map(t).dom().contains(q) implies seq_to_map(t)[q]
        == seq_to_map(s).insert(k, v)[q] by {
        let a = key_index(t, q);
        assert(t[a].0 == s[a].0);
        lemma_entry(t, a);
        lemma_entry(s, a);
        if a == i {
        } else {
            assert(t[a] == s[a]);
        }
    }
    assert(seq_to_map(t) =~= seq_to_map(s).insert(k, v));
}

pub proof fn lemma_remove<K, V>(s: Seq<(K, V)>, i: int)
    requires
        keys_distinct(s),
        0 <= i < s.len(),
    ensures
        keys_distinct(s.remove(i)),
        seq_to_map(s.remove(i)) == seq_to_map(s).remove(s[i].0),
{
    let k = s[i].0;
    let t = s.remove(i);
    s.remove_ensures(i);
    assert(keys_distinct(t)) by {
        assert forall|a: int, b: int|
            0 <= a < t.len() && 0 <= b < t.len() && a != b implies #[trigger] t[a].0
            != #[trigger] t[b].0 by {
            let a2 = if a < i { a } else { a + 1 };
            let b2 = if b < i { b } else { b + 1 };
            assert(t[a] == s[a2]);
            assert(t[b] == s[b2]);
        }
    }
    assert forall|q: K| #[trigger] seq_to_map(t).dom().contains(q) <==> seq_to_map(s).remove(
        k,
    ).dom().contains(q) by {
        if has_key(t, q) {
            let a = key_index(t, q);
            let a2 = if a < i { a } else { a + 1 };
            assert(t[a] == s[a2]);
            assert(s[a2].0 == q);
            assert(has_key(s, q));
        }
        if has_key(s, q) && q != k {
            let a = key_index(s, q);
            assert(a != i);
            let a1 = if a < i { a } else { a - 1 };
            assert(t[a1] == s[a]);
            assert(has_key(t, q));
        }
    }
    assert forall|q: K| #[trigger] seq_to_map(t).dom().contains(q) implies seq_to_map(t)[q]
        == seq_to_map(s).remove(k)[q] by {
        let a = key_index(t, q);
        let a2 = if a < i { a } else { a + 1 };
        assert(t[a] == s[a2]);
        lemma_entry(t, a);
        lemma_entry(s, a2);
    }
    assert(seq_to_map(t) =~= seq_to_map(s).remove(k));
}

pub proof fn lemma_insert<K, V>(s: Seq<(K, V)>, i: int, k: K, v: V)
    requires
        keys_distinct(s),
        0 <= i <= s.len(),
        !seq_to_map(s).dom().contains(k),
    ensures
        keys_distinct(s.insert(i, (k, v))),
        seq_to_map(s.insert(i, (k, v))) == seq_to_map(s).insert(k, v),
{
    let t = s.insert(i, (k, v));
    s.insert_ensures(i, (k, v));
    assert forall|a: int| 0 <= a < s.len() implies #[trigger] s[a].0 != k by {
        if s[a].0 == k {
            assert(has_key(s, k));
        }
    }
    assert(keys_distinct(t)) by {
        assert forall|a: int, b: int|
            0 <= a < t.len() && 0 <= b < t.len() && a != b implies #[trigger] t[a].0
            != #[trigger] t[b].0 by {
            if a != i && b != i {
                let a2 = if a < i { a } else { a - 1 };
                let b2 = if b < i { b } else { b - 1 };
                assert(t[a] == s[a2]);
                assert(t[b] == s[b2]);
            } else if a == i {
                let b2 = if b < i { b } else { b - 1 };
                assert(t[b] == s[b2]);
            } else {
                let a2 = if a < i { a } else { a - 1 };
                assert(t[a] == s[a2]);
            }
        }
    }
    assert forall|q: K| #[trigger] seq_to_map(t).dom().contains(q) <==> seq_to_map(s).insert(
        k,
        v,
    ).dom().contains(q) by {
        if has_key(t, q) && q != k {
            let a = key_index(t, q);
            assert(a != i);
            let a2 = if a < i { a } else { a - 1 };
            assert(t[a] == s[a2]);
            assert(has_key(s, q));
        }
        if q == k {
            assert(t[i].0 == k);
            assert(has_key(t, q));
        }
        if has_key(s, q) {
            let a = key_index(s, q);
            let a1 = if a < i { a } else { a + 1 };
            assert(t[a1] == s[a]);
            assert(has_key(t, q));
        }
    }
    assert forall|q: K| #[trigger] seq_to_map(t).dom().contains(q) implies seq_to_map(t)[q]
        == seq_to_map(s).insert(k, v)[q] by {
        let a = key_index(t, q);
        lemma_entry(t, a);
        if a != i {
            let a2 = if a < i { a } else { a - 1 };
            assert(t[a] == s[a2]);
            lemma_entry(s, a2);
        }
    }
    assert(seq_to_map(t) =~= seq_to_map(s).insert(k, v));
}

/// The number of keys is the number of entries.
pub proof fn lemma_len<K, V>(s: Seq<(K, V)>)
    requires
        keys_distinct(s),
    ensures
        seq_to_map(s).dom().finite(),
        seq_to_map(s).dom().len() == s.len(),
        seq_to_map(s).dom() == key_seq(s).to_set(),
{
    let ks = key_seq(s);
    assert(ks.no_duplicates()) by {
        assert forall|i: int, j: int|
            0 <= i < ks.len() && 0 <= j < ks.len() && i != j implies ks[i] != ks[j] by {
            assert(ks[i] == s[i].0);
            assert(ks[j] == s[j].0);
        }
    }
    assert forall|q: K| #[trigger] seq_to_map(s).dom().contains(q) <==> ks.to_set().contains(q) by {
        if has_key(s, q) {
            let a = key_index(s, q);
            assert(ks[a] == q);
        }
        if ks.contains(q) {
            let a = choose|a: int| 0 <= a < ks.len() && ks[a] == q;
            assert(s[a].0 == q);
        }
    }
    assert(seq_to_map(s).dom() =~= ks.to_set());
    ks.unique_seq_to_set();
}

} // verus!
