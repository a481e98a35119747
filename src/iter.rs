use vstd::prelude::*;
use crate::mapref::{MapRef, MapRefMut};
use crate::shard_map::{
    concat, lemma_concat_index, lemma_concat_len_mono, lemma_concat_update_len, ShardMap,
};

verus! {

/// A pass over every entry of a map, shard after shard, in table order.
/// It holds a shared borrow of the map for as long as it lives.
pub struct Iter<'a, V> {
    map: &'a ShardMap<V>,
    shard: usize,
    slot: usize,
}

impl<'a, V> Iter<'a, V> {
    /// The map being walked.
    pub closed spec fn map(&self) -> ShardMap<V> {
        *self.map
    }

    /// How many entries have been handed out so far.
    pub closed spec fn pos(&self) -> int {
        concat(self.map.tables(), self.shard as int).len() + self.slot
    }

    pub closed spec fn wf(&self) -> bool {
        &&& self.map.wf()
        &&& self.shard <= self.map.shard_count()
        &&& self.shard < self.map.shard_count() ==> self.slot <= self.map.tables()[self.shard as int].len()
        &&& self.shard == self.map.shard_count() ==> self.slot == 0
    }

    /// Starts before the first entry of `map`.
    pub fn new(map: &'a ShardMap<V>) -> (r: Iter<'a, V>)
        requires
            map.wf(),
        ensures
            r.wf(),
            r.map() == *map,
            r.pos() == 0,
    {
        Iter { map, shard: 0, slot: 0 }
    }

    /// Hands out the next entry, or `None` once every entry has been handed out.
    pub fn next(&mut self) -> (r: Option<MapRef<'a, V>>)
        requires
            old(self).wf(),
        ensures
            final(self).wf(),
            final(self).map() == old(self).map(),
            old(self).pos() <= old(self).map().entries().len(),
            match r {
                Some(g) => {
                    let e = old(self).map().entries()[old(self).pos()];
                    &&& old(self).pos() < old(self).map().entries().len()
                    &&& g.key == e.0
                    &&& *g.value == e.1
                    &&& final(self).pos() == old(self).pos() + 1
                },
                None => {
                    &&& old(self).pos() == old(self).map().entries().len()
                    &&& final(self).pos() == old(self).pos()
                },
            },
    {
        let ghost n = self.map.shard_count() as int;
        let ghost ts = self.map.tables();
        let ghost p0 = self.pos();
        let ghost m0 = self.map();
        proof {
            if (self.shard as int) < n {
                lemma_concat_len_mono(ts, self.shard as int + 1, n);
            }
        }
        let count = self.map.shard_amount();
        while self.shard < count && self.slot >= self.map.table_len(self.shard)
            invariant
                self.wf(),
                self.map.tables() == ts,
                n == self.map.shard_count(),
                count == n,
                self.pos() == p0,
                self.map() == m0,
            decreases n - self.shard,
        {
            self.shard = self.shard + 1;
            self.slot = 0;
        }
        if self.shard == count {
            None
        } else {
            let (key, value) = self.map.entry(self.shard, self.slot);
            proof {
                lemma_concat_index(ts, n, self.shard as int, self.slot as int);
            }
            self.slot = self.slot + 1;
            Some(MapRef::new(key, value))
        }
    }
}

/// The keys of `map`, gathered by one shared pass: each present key exactly
/// once, and no other.
pub fn keys<V>(map: &ShardMap<V>) -> (r: Vec<u64>)
    requires
        map.wf(),
    ensures
        r@ == map.entries().map_values(|e: (u64, V)| e.0),
        r@.no_duplicates(),
        forall|k: u64| r@.contains(k) <==> map@.contains_key(k),
{
    let mut it = Iter::new(map);
    let mut out: Vec<u64> = Vec::new();
    loop
        invariant
            it.wf(),
            it.map() == *map,
            0 <= it.pos() <= map.entries().len(),
            out@ == map.entries().take(it.pos()).map_values(|e: (u64, V)| e.0),
        ensures
            it.pos() == map.entries().len(),
            out@ == map.entries().take(it.pos()).map_values(|e: (u64, V)| e.0),
        decreases map.entries().len() - it.pos(),
    {
        let ghost p = it.pos();
        match it.next() {
            Some(g) => {
                out.push(g.key);
                assert(map.entries().take(p + 1) =~= map.entries().take(p).push(map.entries()[p]));
                assert(out@ =~= map.entries().take(it.pos()).map_values(|e: (u64, V)| e.0));
            },
            None => {
                break ;
            },
        }
    }
    proof {
        let e = map.entries();
        assert(e.take(e.len() as int) =~= e);
        map.lemma_entries();
        assert forall|a: int, b: int| 0 <= a < out@.len() && 0 <= b < out@.len() && a != b implies out@[a]
            != out@[b] by {
            assert(out@[a] == e[a].0 && out@[b] == e[b].0);
        }
        assert forall|k: u64| out@.contains(k) <==> map@.contains_key(k) by {
            if map@.contains_key(k) {
                let p = choose|p: int| 0 <= p < e.len() && #[trigger] e[p].0 == k;
                assert(out@[p] == k);
            }
            if out@.contains(k) {
                let p = choose|p: int| 0 <= p < out@.len() && out@[p] == k;
                assert(e[p].0 == k);
            }
        }
    }
    out
}

/// A pass over every entry of a map, shard after shard, handing out write
/// access to one value at a time. It holds the map's exclusive borrow.
pub struct IterMut<'a, V> {
    pub map: &'a mut ShardMap<V>,
    pub shard: usize,
    pub slot: usize,
}

impl<'a, V> IterMut<'a, V> {
    /// The map as it stands now.
    pub closed spec fn map(&self) -> ShardMap<V> {
        *self.map
    }

    /// How many entries have been handed out so far.
    pub closed spec fn pos(&self) -> int {
        concat(self.map.tables(), self.shard as int).len() + self.slot
    }

    pub closed spec fn wf(&self) -> bool {
        &&& self.map.wf()
        &&& self.shard <= self.map.shard_count()
        &&& self.shard < self.map.shard_count() ==> self.slot <= self.map.tables()[self.shard as int].len()
        &&& self.shard == self.map.shard_count() ==> self.slot == 0
    }

    /// Starts before the first entry of `map`.
    pub fn new(map: &'a mut ShardMap<V>) -> (r: IterMut<'a, V>)
        requires
            old(map).wf(),
        ensures
            r.wf(),
            r.map() == *old(map),
            r.pos() == 0,
            *final(r.map) == *final(map),
    {
        IterMut { map, shard: 0, slot: 0 }
    }

    /// Hands out the next entry, or `None` once every entry has been handed
    /// out. What the entry's value holds when the guard is dropped becomes
    /// its value in the map.
    pub fn next(&mut self) -> (r: Option<MapRefMut<'_, V>>)
        requires
            old(self).wf(),
        ensures
            final(self).wf(),
            *final(final(self).map) == *final(old(self).map),
            old(self).pos() <= old(self).map().entries().len(),
            match r {
                Some(g) => {
                    let e = old(self).map().entries()[old(self).pos()];
                    &&& old(self).pos() < old(self).map().entries().len()
                    &&& g.key == e.0
                    &&& *g.value == e.1
                    &&& final(self).map()@ == old(self).map()@.insert(g.key, *final(g.value))
                    &&& final(self).map().entries() == old(self).map().entries().update(
                        old(self).pos(),
                        (g.key, *final(g.value)),
                    )
                    &&& final(self).pos() == old(self).pos() + 1
                },
                None => {
                    &&& old(self).pos() == old(self).map().entries().len()
                    &&& final(self).map() == old(self).map()
                    &&& final(self).pos() == old(self).pos()
                },
            },
    {
        let ghost n = self.map.shard_count() as int;
        let ghost ts = self.map.tables();
        let ghost p0 = self.pos();
        let ghost m0 = self.map();
        proof {
            if (self.shard as int) < n {
                lemma_concat_len_mono(ts, self.shard as int + 1, n);
            }
        }
        let count = self.map.shard_amount();
        while self.shard < count && self.slot >= self.map.table_len(self.shard)
            invariant
                self.wf(),
                self.map() == m0,
                self.map == old(self).map,
                self.map.tables() == ts,
                n == self.map.shard_count(),
                count == n,
                self.pos() == p0,
            decreases n - self.shard,
        {
            self.shard = self.shard + 1;
            self.slot = 0;
        }
        if self.shard == count {
            None
        } else {
            let i = self.shard;
            let j = self.slot;
            proof {
                lemma_concat_index(ts, n, i as int, j as int);
                assert forall|t2: Seq<(u64, V)>| #[trigger] concat(ts.update(i as int, t2), i as int).len()
                    == concat(ts, i as int).len() by {
                    lemma_concat_update_len(ts, i as int, i as int, t2);
                }
            }
            self.slot = j + 1;
            let (key, value) = self.map.entry_mut(i, j);
            Some(MapRefMut::new(key, value))
        }
    }
}

} // verus!
