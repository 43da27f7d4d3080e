//! Sequences of key-value pairs read as mappings.
//!
//! An index kept in a vector is a sequence of pairs in which no key occurs
//! twice. These are the operations on such sequences and the facts that relate
//! them to the mapping they stand for.

use vstd::prelude::*;

verus! {

/// No key occurs twice.
pub open spec fn unique_keys<K, V>(entries: Seq<(K, V)>) -> bool {
    forall|i: int, j: int|
        0 <= i < j < entries.len() ==> (#[trigger] entries[i]).0 != (#[trigger] entries[j]).0
}

/// Some entry has this key.
pub open spec fn has_key<K, V>(entries: Seq<(K, V)>, key: K) -> bool {
    exists|i: int| 0 <= i < entries.len() && (#[trigger] entries[i]).0 == key
}

/// The place of an entry with this key, where there is one.
pub open spec fn position<K, V>(entries: Seq<(K, V)>, key: K) -> int {
    choose|i: int| 0 <= i < entries.len() && (#[trigger] entries[i]).0 == key
}

/// The value stored under `key`, if any.
pub open spec fn lookup<K, V>(entries: Seq<(K, V)>, key: K) -> Option<V> {
    if has_key(entries, key) {
        Some(entries[position(entries, key)].1)
    } else {
        None
    }
}

/// The entries after `key` is bound to `value`: an entry with that key is
/// overwritten in place, a new key goes to the end.
pub open spec fn put<K, V>(entries: Seq<(K, V)>, key: K, value: V) -> Seq<(K, V)> {
    if has_key(entries, key) {
        entries.update(position(entries, key), (key, value))
    } else {
        entries.push((key, value))
    }
}

/// The entries after `key` is unbound: its entry leaves, the others keep
/// their order.
pub open spec fn erase<K, V>(entries: Seq<(K, V)>, key: K) -> Seq<(K, V)> {
    if has_key(entries, key) {
        entries.remove(position(entries, key))
    } else {
        entries
    }
}

/// The mapping from key to value that the entries stand for.
pub open spec fn as_map<K, V>(entries: Seq<(K, V)>) -> Map<K, V> {
    Map::new(
        |key: K| has_key(entries, key),
        |key: K| entries[position(entries, key)].1,
    )
}

/// With no key twice, an entry is found at its own place.
pub proof fn lemma_position_unique<K, V>(entries: Seq<(K, V)>, i: int)
    requires
        unique_keys(entries),
        0 <= i < entries.len(),
    ensures
        has_key(entries, entries[i].0),
        position(entries, entries[i].0) == i,
        lookup(entries, entries[i].0) == Some(entries[i].1),
{
    let key = entries[i].0;
    let p = position(entries, key);
    assert(0 <= p < entries.len() && entries[p].0 == key);
    if p < i {
        assert(entries[p].0 != entries[i].0);
    } else if i < p {
        assert(entries[i].0 != entries[p].0);
    }
}

/// Binding a key keeps the keys unique, and adds an entry exactly when the
/// key is new.
pub proof fn lemma_put_unique<K, V>(entries: Seq<(K, V)>, key: K, value: V)
    requires
        unique_keys(entries),
    ensures
        unique_keys(put(entries, key, value)),
        put(entries, key, value).len() == entries.len() + if has_key(entries, key) {
            0int
        } else {
            1int
        },
{
    let next = put(entries, key, value);
    if has_key(entries, key) {
        let p = position(entries, key);
        assert(0 <= p < entries.len() && entries[p].0 == key);
        assert forall|i: int, j: int| 0 <= i < j < next.len() implies (#[trigger] next[i]).0 != (
        #[trigger] next[j]).0 by {
            assert(next[i].0 == entries[i].0);
            assert(next[j].0 == entries[j].0);
        }
    } else {
        assert forall|i: int, j: int| 0 <= i < j < next.len() implies (#[trigger] next[i]).0 != (
        #[trigger] next[j]).0 by {
            assert(next[i] == entries[i]);
            if j < entries.len() {
                assert(next[j] == entries[j]);
            } else {
                assert(next[j].0 == key);
            }
        }
    }
}

/// Unbinding a key keeps the keys unique, and takes an entry away exactly
/// when the key was bound.
pub proof fn lemma_erase_unique<K, V>(entries: Seq<(K, V)>, key: K)
    requires
        unique_keys(entries),
    ensures
        unique_keys(erase(entries, key)),
        !has_key(erase(entries, key), key),
        erase(entries, key).len() == entries.len() - if has_key(entries, key) {
            1int
        } else {
            0int
        },
{
    let next = erase(entries, key);
    if has_key(entries, key) {
        let p = position(entries, key);
        assert(0 <= p < entries.len() && entries[p].0 == key);
        assert forall|i: int, j: int| 0 <= i < j < next.len() implies (#[trigger] next[i]).0 != (
        #[trigger] next[j]).0 by {
            let a = if i < p { i } else { i + 1 };
            let b = if j < p { j } else { j + 1 };
            assert(next[i] == entries[a] && next[j] == entries[b]);
            assert(entries[a].0 != entries[b].0);
        }
        assert forall|i: int| 0 <= i < next.len() implies (#[trigger] next[i]).0 != key by {
            let a = if i < p { i } else { i + 1 };
            assert(next[i] == entries[a]);
            if a < p {
                assert(entries[a].0 != entries[p].0);
            } else {
                assert(entries[p].0 != entries[a].0);
            }
        }
    }
}

/// After `key` is bound to `value`, looking `key` up gives `value`, and
/// looking any other key up gives what it gave before.
pub proof fn lemma_lookup_put<K, V>(entries: Seq<(K, V)>, key: K, value: V, other: K)
    requires
        unique_keys(entries),
    ensures
        lookup(put(entries, key, value), key) == Some(value),
        other != key ==> lookup(put(entries, key, value), other) == lookup(entries, other),
        has_key(put(entries, key, value), other) <==> other == key || has_key(entries, other),
{
    let next = put(entries, key, value);
    lemma_put_unique(entries, key, value);
    let p = if has_key(entries, key) {
        position(entries, key)
    } else {
        entries.len() as int
    };
    assert(0 <= p < next.len() && next[p] == (key, value));
    lemma_position_unique(next, p);
    if other != key {
        if has_key(entries, other) {
            let q = position(entries, other);
            assert(0 <= q < entries.len() && entries[q].0 == other);
            assert(next[q] == entries[q]);
            lemma_position_unique(next, q);
            lemma_position_unique(entries, q);
        } else {
            assert forall|i: int| 0 <= i < next.len() implies (#[trigger] next[i]).0 != other by {
                if i != p {
                    assert(next[i] == entries[i]);
                }
            }
        }
    }
}

/// After `key` is unbound, looking it up gives nothing, and looking any other
/// key up gives what it gave before.
pub proof fn lemma_lookup_erase<K, V>(entries: Seq<(K, V)>, key: K, other: K)
    requires
        unique_keys(entries),
    ensures
        lookup(erase(entries, key), key) is None,
        other != key ==> lookup(erase(entries, key), other) == lookup(entries, other),
        has_key(erase(entries, key), other) <==> other != key && has_key(entries, other),
{
    let next = erase(entries, key);
    lemma_erase_unique(entries, key);
    if has_key(entries, key) && other != key {
        let p = position(entries, key);
        assert(0 <= p < entries.len() && entries[p].0 == key);
        if has_key(entries, other) {
            let q = position(entries, other);
            assert(0 <= q < entries.len() && entries[q].0 == other);
            let at = if q < p {
                q
            } else {
                q - 1
            };
            assert(next[at] == entries[q]);
            lemma_position_unique(next, at);
            lemma_position_unique(entries, q);
        } else {
            assert forall|i: int| 0 <= i < next.len() implies (#[trigger] next[i]).0 != other by {
                let a = if i < p {
                    i
                } else {
                    i + 1
                };
                assert(next[i] == entries[a]);
            }
        }
    }
}

/// Binding a key is inserting into the mapping.
pub proof fn lemma_put_is_insert<K, V>(entries: Seq<(K, V)>, key: K, value: V)
    requires
        unique_keys(entries),
    ensures
        as_map(put(entries, key, value)) == as_map(entries).insert(key, value),
{
    let next = as_map(put(entries, key, value));
    let want = as_map(entries).insert(key, value);
    assert forall|other: K| #[trigger]
        next.contains_key(other) == want.contains_key(other) && (next.contains_key(other)
            ==> next[other] == want[other]) by {
        lemma_lookup_put(entries, key, value, other);
    }
    assert(next =~= want);
}

/// Unbinding a key is removing from the mapping.
pub proof fn lemma_erase_is_remove<K, V>(entries: Seq<(K, V)>, key: K)
    requires
        unique_keys(entries),
    ensures
        as_map(erase(entries, key)) == as_map(entries).remove(key),
{
    let next = as_map(erase(entries, key));
    let want = as_map(entries).remove(key);
    assert forall|other: K| #[trigger]
        next.contains_key(other) == want.contains_key(other) && (next.contains_key(other)
            ==> next[other] == want[other]) by {
        lemma_lookup_erase(entries, key, other);
    }
    assert(next =~= want);
}

/// With no key twice, the mapping has as many keys as there are entries.
pub proof fn lemma_map_len<K, V>(entries: Seq<(K, V)>)
    requires
        unique_keys(entries),
    ensures
        as_map(entries).dom().finite(),
        as_map(entries).dom().len() == entries.len(),
    decreases entries.len(),
{
    if entries.len() == 0 {
        assert(as_map(entries).dom() =~= Set::<K>::empty());
    } else {
        let before = entries.drop_last();
        let (key, value) = entries.last();
        assert forall|i: int, j: int| 0 <= i < j < before.len() implies (#[trigger] before[i]).0
            != (#[trigger] before[j]).0 by {
            assert(entries[i].0 != entries[j].0);
        }
        lemma_map_len(before);
        if has_key(before, key) {
            let p = position(before, key);
            assert(0 <= p < before.len() && before[p].0 == key);
            assert(entries[p].0 != entries[entries.len() - 1].0);
        }
        assert(put(before, key, value) =~= entries);
        lemma_put_is_insert(before, key, value);
        assert(as_map(entries).dom() =~= as_map(before).dom().insert(key));
    }
}

} // verus!
