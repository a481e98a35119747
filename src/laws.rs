use vstd::prelude::*;
use crate::shard_map::ShardMap;
use crate::table::keys_unique;

verus! {

/// A freshly made map holds no key: a lookup of any key finds nothing.
pub proof fn lemma_new_map_lacks_every_key<V>(m: ShardMap<V>, k: u64)
    requires
        m@ == Map::<u64, V>::empty(),
    ensures
        !m@.contains_key(k),
        m@.len() == 0,
{
}

/// Inserting a key that was absent adds exactly one key: a lookup then finds
/// the inserted value, and a full pass visits one entry more.
pub proof fn lemma_insert_fresh<V>(before: ShardMap<V>, after: ShardMap<V>, k: u64, v: V)
    requires
        before.wf(),
        after.wf(),
        !before@.contains_key(k),
        after@ == before@.insert(k, v),
    ensures
        after@.contains_key(k),
        after@[k] == v,
        after@.len() == before@.len() + 1,
        after.entries().len() == before.entries().len() + 1,
{
    before.lemma_len();
    after.lemma_len();
}

/// Inserting a key twice replaces its value: the second insertion finds the
/// first value, a lookup then finds the second, and a full pass visits no
/// more entries than after the first insertion.
pub proof fn lemma_insert_replaces<V>(
    first: ShardMap<V>,
    second: ShardMap<V>,
    before: Map<u64, V>,
    k: u64,
    v1: V,
    v2: V,
)
    requires
        first.wf(),
        second.wf(),
        first@ == before.insert(k, v1),
        second@ == first@.insert(k, v2),
    ensures
        first@.contains_key(k),
        first@[k] == v1,
        second@[k] == v2,
        second@.len() == first@.len(),
        second.entries().len() == first.entries().len(),
{
    first.lemma_len();
    second.lemma_len();
    assert(second@.dom() =~= first@.dom());
}

/// Removing a key right after inserting it gives back the inserted entry, a
/// lookup then finds nothing, and a full pass visits as many entries as
/// before the insertion when the key was absent then.
pub proof fn lemma_remove_after_insert<V>(
    before: ShardMap<V>,
    inserted: ShardMap<V>,
    removed: ShardMap<V>,
    k: u64,
    v: V,
)
    requires
        before.wf(),
        inserted.wf(),
        removed.wf(),
        inserted@ == before@.insert(k, v),
        removed@ == inserted@.remove(k),
    ensures
        inserted@.contains_key(k),
        inserted@[k] == v,
        !removed@.contains_key(k),
        !before@.contains_key(k) ==> removed@ == before@ && removed.entries().len()
            == before.entries().len(),
{
    before.lemma_len();
    removed.lemma_len();
    if !before@.contains_key(k) {
        assert(removed@ =~= before@);
    }
}

/// A cleared map has length zero and holds none of the keys it held before.
pub proof fn lemma_cleared_map<V>(after: ShardMap<V>, k: u64)
    requires
        after@ == Map::<u64, V>::empty(),
    ensures
        after@.len() == 0,
        !after@.contains_key(k),
{
}

/// The length of a well-formed map is the number of its distinct keys, which
/// is the number of entries a full pass visits; it is zero exactly when no key
/// is present.
pub proof fn lemma_len_counts_keys<V>(m: ShardMap<V>)
    requires
        m.wf(),
    ensures
        m@.dom().finite(),
        m@.len() == m.entries().len(),
        (m@.len() == 0) == (m@.dom() == Set::<u64>::empty()),
{
    m.lemma_len();
    if m@.len() == 0 {
        assert(m@.dom() =~= Set::<u64>::empty());
    }
}

/// A full pass over a map visits each present key exactly once, with its
/// value, and visits no absent key.
pub proof fn lemma_pass_visits_each_key_once<V>(m: ShardMap<V>)
    requires
        m.wf(),
    ensures
        keys_unique(m.entries()),
        forall|p: int|
            0 <= p < m.entries().len() ==> m@.contains_key(#[trigger] m.entries()[p].0) && m@[m.entries()[p].0]
                == m.entries()[p].1,
        forall|k: u64| #[trigger]
            m@.contains_key(k) ==> exists|p: int|
                0 <= p < m.entries().len() && #[trigger] m.entries()[p].0 == k,
{
    m.lemma_entries();
}

} // verus!
