//! Association lists: sequences of key-value entries and the maps they list.

use vstd::prelude::*;

verus! {

/// No key occurs twice among the entries.
pub open spec fn distinct_keys<K, V>(entries: Seq<(K, V)>) -> bool {
    forall|i: int, j: int|
        0 <= i < j < entries.len() ==> (#[trigger] entries[i]).0 != (#[trigger] entries[j]).0
}

/// Whether some entry has the key `k`.
pub open spec fn has_key<K, V>(entries: Seq<(K, V)>, k: K) -> bool {
    exists|i: int| 0 <= i < entries.len() && (#[trigger] entries[i]).0 == k
}

/// Position of an entry with the key `k`, if there is one.
pub open spec fn key_index<K, V>(entries: Seq<(K, V)>, k: K) -> int {
    choose|i: int| 0 <= i < entries.len() && (#[trigger] entries[i]).0 == k
}

/// The map that a sequence of entries lists: its keys are the keys of the
/// entries, each mapped to the value of an entry with that key.
pub open spec fn entries_map<K, V>(entries: Seq<(K, V)>) -> Map<K, V> {
    Map::new(|k: K| has_key(entries, k), |k: K| entries[key_index(entries, k)].1)
}

/// With distinct keys, every entry is found in the map under its key.
pub proof fn lemma_entry_in_map<K, V>(entries: Seq<(K, V)>, i: int)
    requires
        distinct_keys(entries),
        0 <= i < entries.len(),
    ensures
        has_key(entries, entries[i].0),
        key_index(entries, entries[i].0) == i,
        entries_map(entries).contains_key(entries[i].0),
        entries_map(entries)[entries[i].0] == entries[i].1,
{
    let k = entries[i].0;
    assert(has_key(entries, k));
    let j = key_index(entries, k);
    assert(0 <= j < entries.len() && entries[j].0 == k);
    if j < i {
        assert(entries[j].0 != entries[i].0);
    }
    if i < j {
        assert(entries[i].0 != entries[j].0);
    }
}

/// No entries list the empty map.
pub proof fn lemma_empty_entries<K, V>()
    ensures
        distinct_keys(Seq::<(K, V)>::empty()),
        entries_map(Seq::<(K, V)>::empty()) == Map::<K, V>::empty(),
{
    assert(entries_map(Seq::<(K, V)>::empty()) =~= Map::<K, V>::empty());
}

/// Entries with distinct keys list a finite map with one key for each entry.
pub proof fn lemma_entries_count<K, V>(entries: Seq<(K, V)>)
    requires
        distinct_keys(entries),
    ensures
        entries_map(entries).dom().finite(),
        entries_map(entries).len() == entries.len(),
    decreases entries.len(),
{
    if entries.len() == 0 {
        assert(entries =~= Seq::<(K, V)>::empty());
        lemma_empty_entries::<K, V>();
    } else {
        let front = entries.drop_last();
        let last = entries.last();
        assert forall|i: int, j: int| 0 <= i < j < front.len() implies (#[trigger] front[i]).0 != (
        #[trigger] front[j]).0 by {
            assert(entries[i].0 != entries[j].0);
        }
        assert(!has_key(front, last.0)) by {
            if has_key(front, last.0) {
                let i = key_index(front, last.0);
                assert(entries[i].0 != entries[entries.len() - 1].0);
            }
        }
        lemma_entries_count(front);
        lemma_push_entry(front, last.0, last.1);
        assert(front.push(last) =~= entries);
    }
}

/// Appending an entry under a new key inserts it into the map.
pub proof fn lemma_push_entry<K, V>(entries: Seq<(K, V)>, k: K, v: V)
    requires
        distinct_keys(entries),
        !has_key(entries, k),
    ensures
        distinct_keys(entries.push((k, v))),
        entries_map(entries.push((k, v))) == entries_map(entries).insert(k, v),
{
    let next = entries.push((k, v));
    assert forall|i: int, j: int| 0 <= i < j < next.len() implies (#[trigger] next[i]).0 != (
    #[trigger] next[j]).0 by {
        if j == entries.len() {
            assert(entries[i].0 != k);
        } else {
            assert(entries[i].0 != entries[j].0);
        }
    }
    assert forall|key: K| has_key(next, key) <==> (key == k || has_key(entries, key)) by {
        if has_key(next, key) {
            let i = key_index(next, key);
            if i < entries.len() {
                assert(entries[i].0 == key);
            }
        }
        if key == k {
            assert(next[entries.len() as int].0 == key);
        }
        if has_key(entries, key) {
            let i = key_index(entries, key);
            assert(next[i].0 == key);
        }
    }
    assert forall|key: K| has_key(next, key) implies entries_map(next)[key] == entries_map(
        entries,
    ).insert(k, v)[key] by {
        let i = key_index(next, key);
        lemma_entry_in_map(next, i);
        if i < entries.len() {
            assert(next[i] == entries[i]);
            lemma_entry_in_map(entries, i);
        }
    }
    assert(entries_map(next) =~= entries_map(entries).insert(k, v));
}

/// Replacing the value of an entry replaces it in the map.
pub proof fn lemma_update_entry<K, V>(entries: Seq<(K, V)>, i: int, v: V)
    requires
        distinct_keys(entries),
        0 <= i < entries.len(),
    ensures
        distinct_keys(entries.update(i, (entries[i].0, v))),
        entries_map(entries.update(i, (entries[i].0, v))) == entries_map(entries).insert(
            entries[i].0,
            v,
        ),
{
    let k = entries[i].0;
    let next = entries.update(i, (k, v));
    assert forall|a: int, b: int| 0 <= a < b < next.len() implies (#[trigger] next[a]).0 != (
    #[trigger] next[b]).0 by {
        assert(entries[a].0 != entries[b].0);
    }
    assert forall|key: K| has_key(next, key) <==> has_key(entries, key) by {
        if has_key(next, key) {
            let a = key_index(next, key);
            assert(entries[a].0 == key);
        }
        if has_key(entries, key) {
            let a = key_index(entries, key);
            assert(next[a].0 == key);
        }
    }
    lemma_entry_in_map(entries, i);
    assert forall|key: K| has_key(next, key) implies entries_map(next)[key] == entries_map(
        entries,
    ).insert(k, v)[key] by {
        let a = key_index(next, key);
        lemma_entry_in_map(next, a);
        if a != i {
            assert(next[a] == entries[a]);
            lemma_entry_in_map(entries, a);
        }
    }
    assert(entries_map(next) =~= entries_map(entries).insert(k, v));
}

/// Taking an entry out removes its key from the map.
pub proof fn lemma_remove_entry<K, V>(entries: Seq<(K, V)>, i: int)
    requires
        distinct_keys(entries),
        0 <= i < entries.len(),
    ensures
        distinct_keys(entries.remove(i)),
        entries_map(entries.remove(i)) == entries_map(entries).remove(entries[i].0),
{
    let k = entries[i].0;
    let next = entries.remove(i);
    assert forall|a: int, b: int| 0 <= a < b < next.len() implies (#[trigger] next[a]).0 != (
    #[trigger] next[b]).0 by {
        let a0 = if a < i {
            a
        } else {
            a + 1
        };
        let b0 = if b < i {
            b
        } else {
            b + 1
        };
        assert(next[a] == entries[a0]);
        assert(next[b] == entries[b0]);
        assert(entries[a0].0 != entries[b0].0);
    }
    assert forall|key: K| has_key(next, key) <==> (key != k && has_key(entries, key)) by {
        if has_key(next, key) {
            let a = key_index(next, key);
            let a0 = if a < i {
                a
            } else {
                a + 1
            };
            assert(next[a] == entries[a0]);
            assert(entries[a0].0 == key);
            if a0 < i {
                assert(entries[a0].0 != entries[i].0);
            } else {
                assert(entries[i].0 != entries[a0].0);
            }
        }
        if key != k && has_key(entries, key) {
            let a0 = key_index(entries, key);
            let a = if a0 < i {
                a0
            } else {
                a0 - 1
            };
            assert(next[a] == entries[a0]);
        }
    }
    assert forall|key: K| has_key(next, key) implies entries_map(next)[key] == entries_map(
        entries,
    ).remove(k)[key] by {
        let a = key_index(next, key);
        let a0 = if a < i {
            a
        } else {
            a + 1
        };
        assert(next[a] == entries[a0]);
        lemma_entry_in_map(next, a);
        lemma_entry_in_map(entries, a0);
    }
    assert(entries_map(next) =~= entries_map(entries).remove(k));
}

} // verus!
