//! Maps kept as lists of entries with distinct keys.
use vstd::prelude::*;

verus! {

/// The map that a list of entries stands for: later entries are inserted last.
pub open spec fn keyed_map<K, V>(entries: Seq<(K, V)>) -> Map<K, V>
    decreases entries.len(),
{
    if entries.len() == 0 {
        Map::empty()
    } else {
        keyed_map(entries.drop_last()).insert(entries.last().0, entries.last().1)
    }
}

/// No two entries have the same key.
pub open spec fn distinct_keys<K, V>(entries: Seq<(K, V)>) -> bool {
    forall|i: int, j: int|
        0 <= i < entries.len() && 0 <= j < entries.len() && i != j ==> entries[i].0 != entries[j].0
}

/// With distinct keys, the map has exactly the keys of the entries, each with the value
/// of its entry, and as many keys as entries.
pub proof fn lemma_keyed_map<K, V>(entries: Seq<(K, V)>)
    requires
        distinct_keys(entries),
    ensures
        forall|k: K| #[trigger]
            keyed_map(entries).dom().contains(k) <==> exists|i: int|
                0 <= i < entries.len() && entries[i].0 == k,
        forall|i: int|
            0 <= i < entries.len() ==> keyed_map(entries)[#[trigger] entries[i].0] == entries[i].1,
        keyed_map(entries).dom().finite(),
        keyed_map(entries).dom().len() == entries.len(),
    decreases entries.len(),
{
    if entries.len() > 0 {
        let rest = entries.drop_last();
        assert(distinct_keys(rest));
        lemma_keyed_map(rest);
        let last = entries.last();
        assert(!keyed_map(rest).dom().contains(last.0)) by {
            if keyed_map(rest).dom().contains(last.0) {
                let i = choose|i: int| 0 <= i < rest.len() && rest[i].0 == last.0;
                assert(entries[i].0 == entries[entries.len() - 1].0);
            }
        }
        assert forall|k: K| #[trigger]
            keyed_map(entries).dom().contains(k) <==> exists|i: int|
                0 <= i < entries.len() && entries[i].0 == k by {
            if keyed_map(entries).dom().contains(k) {
                if k == last.0 {
                    assert(entries[entries.len() - 1].0 == k);
                } else {
                    let i = choose|i: int| 0 <= i < rest.len() && rest[i].0 == k;
                    assert(entries[i].0 == k);
                }
            }
            if exists|i: int| 0 <= i < entries.len() && entries[i].0 == k {
                let i = choose|i: int| 0 <= i < entries.len() && entries[i].0 == k;
                if i < entries.len() - 1 {
                    assert(rest[i].0 == k);
                }
            }
        }
        assert forall|i: int| 0 <= i < entries.len() implies keyed_map(entries)[#[trigger] entries[i].0]
            == entries[i].1 by {
            if i < entries.len() - 1 {
                assert(rest[i] == entries[i]);
                assert(entries[i].0 != last.0);
            }
        }
    }
}

/// Appending an entry whose key is new keeps the keys distinct and inserts it in the map.
pub proof fn lemma_keyed_push<K, V>(entries: Seq<(K, V)>, k: K, v: V)
    requires
        distinct_keys(entries),
        !keyed_map(entries).dom().contains(k),
    ensures
        distinct_keys(entries.push((k, v))),
        keyed_map(entries.push((k, v))) == keyed_map(entries).insert(k, v),
{
    lemma_keyed_map(entries);
    let after = entries.push((k, v));
    assert(after.drop_last() =~= entries);
    assert forall|i: int, j: int|
        0 <= i < after.len() && 0 <= j < after.len() && i != j implies after[i].0 != after[j].0 by {
        if i < entries.len() && j < entries.len() {
            assert(after[i] == entries[i] && after[j] == entries[j]);
        } else if i < entries.len() {
            assert(after[i] == entries[i]);
            assert(keyed_map(entries).dom().contains(entries[i].0));
        } else if j < entries.len() {
            assert(after[j] == entries[j]);
            assert(keyed_map(entries).dom().contains(entries[j].0));
        }
    }
}

} // verus!
