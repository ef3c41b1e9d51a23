//! Association-list reasoning shared by the chunk and world stores.
//!
//! Both stores keep their entries in a `Vec` of key/value pairs with pairwise
//! distinct keys. `assoc_map_of` abstracts such a sequence into the `Map` it
//! denotes (later entries win, which coincides with any entry when keys are
//! unique), and the lemmas below relate scans and updates of the sequence to
//! lookups and insertions on the map.

use vstd::prelude::*;

verus! {

/// The map denoted by a sequence of key/value pairs, later entries winning.
pub open spec fn assoc_map_of<K, V>(entries: Seq<(K, V)>) -> Map<K, V>
    decreases entries.len(),
{
    if entries.len() == 0 {
        Map::empty()
    } else {
        assoc_map_of(entries.drop_last()).insert(entries.last().0, entries.last().1)
    }
}

/// Pairwise distinct keys.
pub open spec fn assoc_keys_unique<K, V>(entries: Seq<(K, V)>) -> bool {
    forall|p: int, q: int|
        0 <= p < q < entries.len() ==> (#[trigger] entries[p]).0 != (#[trigger] entries[q]).0
}

/// With unique keys, every entry is visible in the denoted map.
pub proof fn lemma_assoc_map_entry<K, V>(entries: Seq<(K, V)>, i: int)
    requires
        assoc_keys_unique(entries),
        0 <= i < entries.len(),
    ensures
        assoc_map_of(entries).dom().contains(entries[i].0),
        assoc_map_of(entries)[entries[i].0] == entries[i].1,
    decreases entries.len(),
{
    if i < entries.len() - 1 {
        assert(entries.drop_last()[i] == entries[i]);
        lemma_assoc_map_entry(entries.drop_last(), i);
    }
}

/// A key matching no entry is outside the denoted map's domain.
pub proof fn lemma_assoc_map_absent<K, V>(entries: Seq<(K, V)>, k: K)
    requires
        forall|i: int| 0 <= i < entries.len() ==> (#[trigger] entries[i]).0 != k,
    ensures
        !assoc_map_of(entries).dom().contains(k),
    decreases entries.len(),
{
    if entries.len() > 0 {
        lemma_assoc_map_absent(entries.drop_last(), k);
    }
}

/// Appending a fresh pair inserts it into the denoted map.
pub proof fn lemma_assoc_map_push<K, V>(entries: Seq<(K, V)>, k: K, v: V)
    ensures
        assoc_map_of(entries.push((k, v))) == assoc_map_of(entries).insert(k, v),
{
    assert(entries.push((k, v)).drop_last() =~= entries);
}

/// Overwriting the value at an existing entry inserts the new value into the
/// denoted map under the entry's key.
pub proof fn lemma_assoc_map_update<K, V>(entries: Seq<(K, V)>, i: int, k: K, v: V)
    requires
        assoc_keys_unique(entries),
        0 <= i < entries.len(),
        entries[i].0 == k,
    ensures
        assoc_map_of(entries.update(i, (k, v))) == assoc_map_of(entries).insert(k, v),
    decreases entries.len(),
{
    let updated = entries.update(i, (k, v));
    if i == entries.len() - 1 {
        assert(updated.drop_last() =~= entries.drop_last());
        assert(updated.last() == (k, v));
    } else {
        assert(updated.drop_last() =~= entries.drop_last().update(i, (k, v)));
        assert(entries.drop_last()[i] == entries[i]);
        lemma_assoc_map_update(entries.drop_last(), i, k, v);
        assert(updated.last() == entries.last());
        // The overwritten key differs from the last key, so the two
        // insertions commute.
        assert(entries[i].0 != entries.last().0);
        assert(assoc_map_of(entries.drop_last()).insert(k, v).insert(
            entries.last().0,
            entries.last().1,
        ) =~= assoc_map_of(entries.drop_last()).insert(entries.last().0, entries.last().1).insert(
            k,
            v,
        ));
    }
}

} // verus!
