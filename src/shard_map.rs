use vstd::prelude::*;
use crate::mapref::{MapRef, MapRefMut};
use crate::table::{
    alter_table, altered, find_slot, keys_unique, lemma_table_altered, lemma_table_lookup, lemma_table_push,
    lemma_table_remove, lemma_table_update, table_map,
};

verus! {

/// The shard that owns `key` among `count` shards.
pub open spec fn shard_of(key: u64, count: nat) -> int {
    (key as int) % (count as int)
}

/// The entries of the first `upto` tables, table after table.
pub open spec fn concat<V>(tables: Seq<Seq<(u64, V)>>, upto: int) -> Seq<(u64, V)>
    decreases upto,
{
    if upto <= 0 {
        Seq::empty()
    } else {
        concat(tables, upto - 1) + tables[upto - 1]
    }
}

/// Entry `j` of table `i` stands in `concat(tables, m)` right after the
/// entries of the tables before it.
pub proof fn lemma_concat_index<V>(tables: Seq<Seq<(u64, V)>>, m: int, i: int, j: int)
    requires
        0 <= i < m <= tables.len(),
        0 <= j < tables[i].len(),
    ensures
        concat(tables, i).len() + j < concat(tables, m).len(),
        concat(tables, m)[concat(tables, i).len() + j] == tables[i][j],
    decreases m,
{
    if i < m - 1 {
        lemma_concat_index(tables, m - 1, i, j);
    }
}

/// Replacing one table changes the entry count by the difference in its length.
pub proof fn lemma_concat_update_len<V>(tables: Seq<Seq<(u64, V)>>, m: int, i: int, t: Seq<(u64, V)>)
    requires
        0 <= i < tables.len(),
        0 <= m <= tables.len(),
    ensures
        concat(tables.update(i, t), m).len() == concat(tables, m).len() + (if i < m {
            t.len() - tables[i].len()
        } else {
            0
        }),
    decreases m,
{
    if m > 0 {
        lemma_concat_update_len(tables, m - 1, i, t);
    }
}

/// The entries of fewer tables are never more.
pub proof fn lemma_concat_len_mono<V>(tables: Seq<Seq<(u64, V)>>, a: int, b: int)
    requires
        0 <= a <= b <= tables.len(),
    ensures
        concat(tables, a).len() <= concat(tables, b).len(),
    decreases b,
{
    if a < b {
        lemma_concat_len_mono(tables, a, b - 1);
    }
}

/// Tables of the same lengths hold the same number of entries.
pub proof fn lemma_concat_same_lens<V>(a: Seq<Seq<(u64, V)>>, b: Seq<Seq<(u64, V)>>, m: int)
    requires
        0 <= m <= a.len(),
        a.len() == b.len(),
        forall|i: int| 0 <= i < a.len() ==> (#[trigger] a[i]).len() == b[i].len(),
    ensures
        concat(a, m).len() == concat(b, m).len(),
    decreases m,
{
    if m > 0 {
        lemma_concat_same_lens(a, b, m - 1);
    }
}

/// Replacing entry `j` of table `i` replaces one entry of the concatenation.
pub proof fn lemma_concat_update_entry<V>(
    tables: Seq<Seq<(u64, V)>>,
    m: int,
    i: int,
    j: int,
    e: (u64, V),
)
    requires
        0 <= i < tables.len(),
        0 <= j < tables[i].len(),
        0 <= m <= tables.len(),
    ensures
        concat(tables.update(i, tables[i].update(j, e)), m) == (if i < m {
            concat(tables, m).update(concat(tables, i).len() + j, e)
        } else {
            concat(tables, m)
        }),
    decreases m,
{
    let us = tables.update(i, tables[i].update(j, e));
    if m > 0 {
        lemma_concat_update_entry(tables, m - 1, i, j, e);
        if i < m - 1 {
            lemma_concat_index(tables, m - 1, i, j);
            assert(concat(us, m) =~= concat(tables, m).update(concat(tables, i).len() + j, e));
        } else if i == m - 1 {
            assert(concat(us, m) =~= concat(tables, m).update(concat(tables, i).len() + j, e));
        } else {
            assert(concat(us, m) =~= concat(tables, m));
        }
    }
}

/// Tables that are all empty hold no entries.
pub proof fn lemma_concat_empty<V>(tables: Seq<Seq<(u64, V)>>, m: int)
    requires
        0 <= m <= tables.len(),
        forall|i: int| 0 <= i < tables.len() ==> (#[trigger] tables[i]).len() == 0,
    ensures
        concat(tables, m).len() == 0,
    decreases m,
{
    if m > 0 {
        lemma_concat_empty(tables, m - 1);
    }
}

/// A map from `u64` keys to values, split into shards. Each shard owns a table
/// of entries; a key lives in the shard that `shard_of` picks for it.
pub struct ShardMap<V> {
    shards: Vec<Vec<(u64, V)>>,
}

impl<V> View for ShardMap<V> {
    type V = Map<u64, V>;

    closed spec fn view(&self) -> Map<u64, V> {
        Map::new(
            |k: u64| table_map(self.table_of(k)).contains_key(k),
            |k: u64| table_map(self.table_of(k))[k],
        )
    }
}

impl<V> ShardMap<V> {
    /// The tables of all shards, in shard order.
    pub closed spec fn tables(self) -> Seq<Seq<(u64, V)>> {
        self.shards@.map_values(|t: Vec<(u64, V)>| t@)
    }

    pub open spec fn shard_count(self) -> nat {
        self.tables().len()
    }

    pub closed spec fn table_of(self, key: u64) -> Seq<(u64, V)> {
        self.tables()[shard_of(key, self.shard_count())]
    }

    /// Every entry in the map, shard after shard, in table order.
    pub open spec fn entries(self) -> Seq<(u64, V)> {
        concat(self.tables(), self.shard_count() as int)
    }

    pub closed spec fn wf(self) -> bool {
        &&& self.shard_count() > 0
        &&& forall|i: int, j: int|
            0 <= i < self.shard_count() && 0 <= j < self.tables()[i].len() ==> shard_of(
                #[trigger] self.tables()[i][j].0,
                self.shard_count(),
            ) == i
        &&& forall|i: int| 0 <= i < self.shard_count() ==> keys_unique(#[trigger] self.tables()[i])
        &&& self.entries().len() <= usize::MAX
    }

    /// Makes an empty map with `shard_amount` shards.
    pub fn new(shard_amount: usize) -> (r: ShardMap<V>)
        requires
            shard_amount > 0,
        ensures
            r.wf(),
            r@ == Map::<u64, V>::empty(),
            r.shard_count() == shard_amount,
    {
        let mut shards: Vec<Vec<(u64, V)>> = Vec::new();
        let mut i: usize = 0;
        while i < shard_amount
            invariant
                i <= shard_amount,
                shards@.len() == i,
                forall|q: int| 0 <= q < i ==> (#[trigger] shards@[q])@.len() == 0,
            decreases shard_amount - i,
        {
            shards.push(Vec::new());
            i = i + 1;
        }
        let r = ShardMap { shards };
        proof {
            assert forall|q: int| 0 <= q < r.shard_count() implies (#[trigger] r.tables()[q]).len()
                == 0 by {
                assert(r.tables()[q] == r.shards@[q]@);
            }
            lemma_concat_empty(r.tables(), r.shard_count() as int);
            assert(r@ =~= Map::<u64, V>::empty());
        }
        r
    }

    /// The number of shards.
    pub fn shard_amount(&self) -> (r: usize)
        ensures
            r == self.shard_count(),
    {
        self.shards.len()
    }

    /// The shard that owns `key`.
    pub fn determine_map(&self, key: u64) -> (r: usize)
        requires
            self.wf(),
        ensures
            r == shard_of(key, self.shard_count()),
            r < self.shard_count(),
    {
        (key % (self.shards.len() as u64)) as usize
    }

    /// Inserts `key` with `value`, handing back the value it replaced, if any.
    pub fn insert(&mut self, key: u64, value: V) -> (r: Option<V>)
        requires
            old(self).wf(),
            old(self)@.contains_key(key) || old(self)@.len() < usize::MAX,
        ensures
            final(self).wf(),
            final(self).shard_count() == old(self).shard_count(),
            forall|p: int|
                0 <= p < old(self).shard_count() && p != shard_of(key, old(self).shard_count())
                    ==> #[trigger] final(self).tables()[p] == old(self).tables()[p],
            final(self)@ == old(self)@.insert(key, value),
            match r {
                Some(v) => old(self)@.contains_key(key) && v == old(self)@[key],
                None => !old(self)@.contains_key(key),
            },
    {
        let ghost before = *self;
        proof {
            before.lemma_len();
        }
        let i = self.determine_map(key);
        let ghost t = before.tables()[i as int];
        assert(t == self.shards@[i as int]@);
        match find_slot(&self.shards[i], key) {
            Some(j) => {
                let mut entry = (key, value);
                std::mem::swap(&mut self.shards[i][j], &mut entry);
                proof {
                    lemma_table_lookup(t, j as int);
                    lemma_table_update(t, j as int, value);
                    let nt = t.update(j as int, (key, value));
                    assert(self.tables() =~= before.tables().update(i as int, nt));
                    lemma_concat_update_len(before.tables(), before.shard_count() as int, i as int, nt);
                    self.lemma_after_table_change(before, i as int);
                    assert(self@ =~= before@.insert(key, value));
                }
                Some(entry.1)
            },
            None => {
                self.shards[i].push((key, value));
                proof {
                    lemma_table_push(t, key, value);
                    let nt = t.push((key, value));
                    assert(self.tables() =~= before.tables().update(i as int, nt));
                    lemma_concat_update_len(before.tables(), before.shard_count() as int, i as int, nt);
                    self.lemma_after_table_change(before, i as int);
                    assert(self@ =~= before@.insert(key, value));
                }
                None
            },
        }
    }

    /// Looks `key` up and hands back a shared guard on its entry.
    pub fn get(&self, key: u64) -> (r: Option<MapRef<'_, V>>)
        requires
            self.wf(),
        ensures
            match r {
                Some(g) => self@.contains_key(key) && g.key == key && *g.value == self@[key],
                None => !self@.contains_key(key),
            },
    {
        let i = self.determine_map(key);
        let t = &self.shards[i];
        assert(t@ == self.table_of(key));
        match find_slot(t, key) {
            Some(j) => {
                proof {
                    lemma_table_lookup(t@, j as int);
                }
                Some(MapRef::new(key, &t[j].1))
            },
            None => None,
        }
    }

    /// Looks `key` up and hands back an exclusive guard on its entry. What
    /// the guard's value holds when it is dropped becomes the key's value.
    pub fn get_mut(&mut self, key: u64) -> (r: Option<MapRefMut<'_, V>>)
        requires
            old(self).wf(),
        ensures
            final(self).wf(),
            final(self).shard_count() == old(self).shard_count(),
            forall|p: int|
                0 <= p < old(self).shard_count() && p != shard_of(key, old(self).shard_count())
                    ==> #[trigger] final(self).tables()[p] == old(self).tables()[p],
            match r {
                Some(g) => {
                    &&& old(self)@.contains_key(key)
                    &&& g.key == key
                    &&& *g.value == old(self)@[key]
                    &&& final(self)@ == old(self)@.insert(key, *final(g.value))
                },
                None => !old(self)@.contains_key(key) && final(self)@ == old(self)@,
            },
    {
        let ghost before = *self;
        let i = self.determine_map(key);
        assert(before.tables()[i as int] == self.shards@[i as int]@);
        match find_slot(&self.shards[i], key) {
            Some(j) => {
                let ghost t = before.tables()[i as int];
                proof {
                    lemma_table_lookup(t, j as int);
                }
                proof {
                    before.lemma_value_replaced(i as int, j as int);
                }
                let v = &mut self.shards[i][j].1;
                Some(MapRefMut::new(key, v))
            },
            None => None,
        }
    }

    /// Removes `key`, handing back its entry, if it was present.
    pub fn remove(&mut self, key: u64) -> (r: Option<(u64, V)>)
        requires
            old(self).wf(),
        ensures
            final(self).wf(),
            final(self).shard_count() == old(self).shard_count(),
            forall|p: int|
                0 <= p < old(self).shard_count() && p != shard_of(key, old(self).shard_count())
                    ==> #[trigger] final(self).tables()[p] == old(self).tables()[p],
            final(self)@ == old(self)@.remove(key),
            match r {
                Some(e) => old(self)@.contains_key(key) && e == (key, old(self)@[key]),
                None => !old(self)@.contains_key(key),
            },
    {
        let ghost before = *self;
        let i = self.determine_map(key);
        let ghost t = before.tables()[i as int];
        assert(t == self.shards@[i as int]@);
        match find_slot(&self.shards[i], key) {
            Some(j) => {
                let e = self.shards[i].remove(j);
                proof {
                    lemma_table_lookup(t, j as int);
                    lemma_table_remove(t, j as int);
                    let nt = t.remove(j as int);
                    assert(self.tables() =~= before.tables().update(i as int, nt));
                    assert forall|q: int| 0 <= q < nt.len() implies shard_of(
                        #[trigger] nt[q].0,
                        before.shard_count(),
                    ) == i by {
                        let q2 = if q < j { q } else { q + 1 };
                        assert(nt[q] == t[q2]);
                    }
                    lemma_concat_update_len(before.tables(), before.shard_count() as int, i as int, nt);
                    self.lemma_after_table_change(before, i as int);
                    assert(self@ =~= before@.remove(key));
                }
                Some(e)
            },
            None => {
                proof {
                    assert(before@ =~= before@.remove(key));
                }
                None
            },
        }
    }

    /// The number of keys present, summed shard by shard.
    pub fn len(&self) -> (r: usize)
        requires
            self.wf(),
        ensures
            r == self@.len(),
    {
        proof {
            self.lemma_len();
        }
        let mut total: usize = 0;
        let mut q: usize = 0;
        while q < self.shards.len()
            invariant
                self.wf(),
                q <= self.shard_count(),
                total == concat(self.tables(), q as int).len(),
            decreases self.shard_count() - q,
        {
            proof {
                lemma_concat_len_mono(self.tables(), q + 1, self.shard_count() as int);
            }
            assert(self.tables()[q as int] == self.shards@[q as int]@);
            total = total + self.shards[q].len();
            q = q + 1;
        }
        total
    }

    /// True when no key is present.
    pub fn is_empty(&self) -> (r: bool)
        requires
            self.wf(),
        ensures
            r == (self@.len() == 0),
    {
        self.len() == 0
    }

    /// Empties every shard, one after another.
    pub fn clear(&mut self)
        requires
            old(self).wf(),
        ensures
            final(self).wf(),
            final(self).shard_count() == old(self).shard_count(),
            forall|p: int| 0 <= p < old(self).shard_count() ==> (#[trigger] final(self).tables()[p]).len() == 0,
            final(self)@ == Map::<u64, V>::empty(),
    {
        let ghost n = self.shard_count();
        let mut q: usize = 0;
        while q < self.shards.len()
            invariant
                self.shard_count() == n,
                n > 0,
                q <= n,
                forall|p: int| 0 <= p < q ==> (#[trigger] self.shards@[p])@.len() == 0,
            decreases n - q,
        {
            self.shards[q].clear();
            q = q + 1;
        }
        proof {
            assert forall|p: int| 0 <= p < n implies (#[trigger] self.tables()[p]).len() == 0 by {
                assert(self.tables()[p] == self.shards@[p]@);
            }
            lemma_concat_empty(self.tables(), n as int);
            assert(self@ =~= Map::<u64, V>::empty());
        }
    }

    /// Replaces the value of every entry by `f(key, value)`, shard after
    /// shard, in place: no key moves, none is added or dropped.
    pub fn alter_all<F: Fn(&u64, V) -> V>(&mut self, f: F)
        requires
            old(self).wf(),
            forall|k: u64, v: V| f.requires((&k, v)),
        ensures
            final(self).wf(),
            final(self).shard_count() == old(self).shard_count(),
            final(self)@.dom() == old(self)@.dom(),
            forall|p: int|
                0 <= p < old(self).shard_count() ==> altered(
                    old(self).tables()[p],
                    #[trigger] final(self).tables()[p],
                    f,
                ),
            forall|k: u64|
                #[trigger] old(self)@.contains_key(k) ==> f.ensures(
                    (&k, old(self)@[k]),
                    final(self)@[k],
                ),
    {
        let ghost before = *self;
        let ghost n = self.shard_count();
        let mut i: usize = 0;
        while i < self.shards.len()
            invariant
                before.wf(),
                forall|k: u64, v: V| f.requires((&k, v)),
                n == before.shard_count(),
                self.shard_count() == n,
                i <= n,
                forall|p: int| 0 <= p < i ==> altered(before.tables()[p], #[trigger] self.tables()[p], f),
                forall|p: int| i <= p < n ==> #[trigger] self.tables()[p] == before.tables()[p],
            decreases n - i,
        {
            let ghost prev = self.shards@;
            let ghost prev_tables = self.tables();
            assert(prev_tables[i as int] == prev[i as int]@);
            let mut t: Vec<(u64, V)> = Vec::new();
            std::mem::swap(&mut self.shards[i], &mut t);
            let mut nt = alter_table(t, &f);
            std::mem::swap(&mut self.shards[i], &mut nt);
            proof {
                assert(self.shards@ == prev.update(i as int, self.shards@[i as int]));
                assert forall|p: int| 0 <= p < n implies #[trigger] self.tables()[p] == (if p == i {
                    self.shards@[i as int]@
                } else {
                    prev_tables[p]
                }) by {
                    assert(prev_tables[p] == prev[p]@);
                }
            }
            i = i + 1;
        }
        proof {
            let ts = self.tables();
            let bs = before.tables();
            assert forall|p: int| 0 <= p < n implies (#[trigger] bs[p]).len() == ts[p].len() by {
                assert(altered(bs[p], ts[p], f));
            }
            lemma_concat_same_lens(bs, ts, n as int);
            assert forall|p: int, q: int| 0 <= p < n && 0 <= q < ts[p].len() implies shard_of(
                #[trigger] ts[p][q].0,
                n,
            ) == p by {
                assert(altered(bs[p], ts[p], f));
                assert(ts[p][q].0 == bs[p][q].0);
            }
            assert forall|p: int| 0 <= p < n implies keys_unique(#[trigger] ts[p]) by {
                assert(keys_unique(bs[p]));
                lemma_table_altered(bs[p], ts[p], f);
            }
            assert forall|k: u64| #[trigger] self@.contains_key(k) == before@.contains_key(k)
                && (before@.contains_key(k) ==> f.ensures((&k, before@[k]), self@[k])) by {
                let p = shard_of(k, n);
                assert(keys_unique(bs[p]));
                lemma_table_altered(bs[p], ts[p], f);
            }
            assert(self@.dom() =~= before@.dom());
        }
    }

    /// The number of entries in shard `i`.
    pub fn table_len(&self, i: usize) -> (r: usize)
        requires
            i < self.shard_count(),
        ensures
            r == self.tables()[i as int].len(),
    {
        self.shards[i].len()
    }

    /// Entry `j` of shard `i`.
    pub fn entry(&self, i: usize, j: usize) -> (r: (u64, &V))
        requires
            i < self.shard_count(),
            j < self.tables()[i as int].len(),
        ensures
            r.0 == self.tables()[i as int][j as int].0,
            *r.1 == self.tables()[i as int][j as int].1,
    {
        let e = &self.shards[i][j];
        (e.0, &e.1)
    }

    /// Entry `j` of shard `i`, with write access to its value. What the value
    /// holds when the borrow ends becomes that entry's value.
    pub fn entry_mut(&mut self, i: usize, j: usize) -> (r: (u64, &mut V))
        requires
            old(self).wf(),
            i < old(self).shard_count(),
            j < old(self).tables()[i as int].len(),
        ensures
            r.0 == old(self).tables()[i as int][j as int].0,
            *r.1 == old(self).tables()[i as int][j as int].1,
            final(self).wf(),
            final(self)@ == old(self)@.insert(r.0, *final(r.1)),
            final(self).entries() == old(self).entries().update(
                concat(old(self).tables(), i as int).len() + j,
                (r.0, *final(r.1)),
            ),
            final(self).tables() == old(self).tables().update(
                i as int,
                old(self).tables()[i as int].update(j as int, (r.0, *final(r.1))),
            ),
    {
        proof {
            self.lemma_value_replaced(i as int, j as int);
        }
        assert(self.tables()[i as int] == self.shards@[i as int]@);
        let e = &mut self.shards[i][j];
        (e.0, &mut e.1)
    }

    /// `m` differs from `self` at most in the value of entry `j` of table `i`.
    spec fn value_replaced(self, m: Self, i: int, j: int) -> bool {
        &&& m.shards@ == self.shards@.update(i, m.shards@[i])
        &&& m.shards@[i]@ == self.shards@[i]@.update(
            j,
            (self.shards@[i]@[j].0, m.shards@[i]@[j].1),
        )
    }

    /// Any map that differs from `self` only in the value of entry `j` of
    /// table `i` is well formed, and maps that entry's key to the new value.
    proof fn lemma_value_replaced(self, i: int, j: int)
        requires
            self.wf(),
            0 <= i < self.shard_count(),
            0 <= j < self.tables()[i].len(),
        ensures
            forall|m: Self|
                #![trigger m.wf()]
                #![trigger m.view()]
                self.value_replaced(m, i, j) ==> m.wf() && m@ == self@.insert(
                    self.tables()[i][j].0,
                    m.tables()[i][j].1,
                ) && m.entries() == self.entries().update(
                    concat(self.tables(), i).len() + j,
                    (self.tables()[i][j].0, m.tables()[i][j].1),
                ) && m.tables() == self.tables().update(
                    i,
                    self.tables()[i].update(j, (self.tables()[i][j].0, m.tables()[i][j].1)),
                ),
    {
        let t = self.tables()[i];
        let key = t[j].0;
        assert forall|m: Self| #![trigger m.wf()] #![trigger m.view()]
            self.value_replaced(m, i, j) implies m.wf() && m@ == self@.insert(key, m.tables()[i][j].1)
                && m.entries() == self.entries().update(
                concat(self.tables(), i).len() + j,
                (key, m.tables()[i][j].1),
            ) && m.tables() == self.tables().update(i, t.update(j, (key, m.tables()[i][j].1))) by {
            let x = m.tables()[i][j].1;
            let nt = t.update(j, (key, x));
            assert(m.tables() =~= self.tables().update(i, nt));
            lemma_concat_update_entry(self.tables(), self.shard_count() as int, i, j, (key, x));
            lemma_table_lookup(t, j);
            lemma_table_update(t, j, x);
            assert(m.tables()[i] == nt);
            lemma_concat_update_len(self.tables(), self.shard_count() as int, i, nt);
            m.lemma_after_table_change(self, i);
            assert(m@ =~= self@.insert(key, x));
        }
    }

    /// After one table changes while keeping to its shard, every other shard
    /// keeps its keys and values.
    proof fn lemma_after_table_change(self, before: Self, i: int)
        requires
            before.wf(),
            0 <= i < before.shard_count(),
            self.shard_count() == before.shard_count(),
            self.tables() == before.tables().update(i, self.tables()[i]),
            keys_unique(self.tables()[i]),
            forall|j: int| 0 <= j < self.tables()[i].len() ==> shard_of(
                #[trigger] self.tables()[i][j].0,
                self.shard_count(),
            ) == i,
            self.entries().len() <= usize::MAX,
        ensures
            self.wf(),
            forall|k: u64|
                shard_of(k, self.shard_count()) != i ==> #[trigger] self.table_of(k) == before.table_of(k),
            forall|k: u64|
                shard_of(k, self.shard_count()) == i ==> #[trigger] self.table_of(k) == self.tables()[i],
    {
        assert forall|q: int, j: int|
            0 <= q < self.shard_count() && 0 <= j < self.tables()[q].len() implies shard_of(
            #[trigger] self.tables()[q][j].0,
            self.shard_count(),
        ) == q by {
            if q != i {
                assert(self.tables()[q] == before.tables()[q]);
            }
        }
        assert forall|q: int| 0 <= q < self.shard_count() implies keys_unique(
            #[trigger] self.tables()[q],
        ) by {
            if q != i {
                assert(self.tables()[q] == before.tables()[q]);
            }
        }
    }
    proof fn lemma_concat(self, m: int)
        requires
            self.wf(),
            0 <= m <= self.shard_count(),
        ensures
            keys_unique(concat(self.tables(), m)),
            forall|p: int|
                0 <= p < concat(self.tables(), m).len() ==> {
                    let k = #[trigger] concat(self.tables(), m)[p].0;
                    &&& 0 <= shard_of(k, self.shard_count()) < m
                    &&& table_map(self.table_of(k)).contains_key(k)
                    &&& table_map(self.table_of(k))[k] == concat(self.tables(), m)[p].1
                },
        decreases m,
    {
        let n = self.shard_count();
        let ts = self.tables();
        if m > 0 {
            self.lemma_concat(m - 1);
            let c = concat(ts, m - 1);
            let t = ts[m - 1];
            let u = concat(ts, m);
            assert(u == c + t);
            assert(keys_unique(t));
            assert forall|a: int, b: int| 0 <= a < u.len() && 0 <= b < u.len() && a != b implies u[a].0
                != u[b].0 by {
                if a < c.len() && b < c.len() {
                    assert(u[a] == c[a] && u[b] == c[b]);
                } else if a < c.len() {
                    assert(u[a] == c[a]);
                    assert(u[b] == t[b - c.len()]);
                    assert(shard_of(c[a].0, n) < m - 1);
                    assert(shard_of(t[b - c.len()].0, n) == m - 1);
                } else if b < c.len() {
                    assert(u[b] == c[b]);
                    assert(u[a] == t[a - c.len()]);
                    assert(shard_of(c[b].0, n) < m - 1);
                    assert(shard_of(t[a - c.len()].0, n) == m - 1);
                } else {
                    assert(u[a] == t[a - c.len()] && u[b] == t[b - c.len()]);
                }
            }
            assert forall|p: int| 0 <= p < u.len() implies {
                let k = #[trigger] u[p].0;
                &&& 0 <= shard_of(k, n) < m
                &&& table_map(self.table_of(k)).contains_key(k)
                &&& table_map(self.table_of(k))[k] == u[p].1
            } by {
                if p < c.len() {
                    assert(u[p] == c[p]);
                } else {
                    let j = p - c.len();
                    assert(u[p] == t[j]);
                    assert(shard_of(t[j].0, n) == m - 1);
                    lemma_table_lookup(t, j);
                }
            }
        }
    }

    /// Each key present in the map occurs in `entries` exactly once, with its
    /// value, and `entries` holds no other key.
    pub proof fn lemma_entries(self)
        requires
            self.wf(),
        ensures
            keys_unique(self.entries()),
            forall|p: int|
                0 <= p < self.entries().len() ==> self@.contains_key(#[trigger] self.entries()[p].0)
                    && self@[self.entries()[p].0] == self.entries()[p].1,
            forall|k: u64| #[trigger]
                self@.contains_key(k) ==> exists|p: int|
                    0 <= p < self.entries().len() && #[trigger] self.entries()[p].0 == k,
    {
        let n = self.shard_count();
        self.lemma_concat(n as int);
        assert forall|k: u64| #[trigger] self@.contains_key(k) implies exists|p: int|
            0 <= p < self.entries().len() && #[trigger] self.entries()[p].0 == k by {
            let i = shard_of(k, n);
            let t = self.tables()[i];
            let j = choose|j: int| 0 <= j < t.len() && t[j].0 == k;
            lemma_concat_index(self.tables(), n as int, i, j);
            assert(self.entries()[concat(self.tables(), i).len() + j].0 == k);
        }
    }

    /// The number of keys present equals the number of entries.
    pub proof fn lemma_len(self)
        requires
            self.wf(),
        ensures
            self@.dom().finite(),
            self@.len() == self.entries().len(),
    {
        self.lemma_entries();
        let e = self.entries();
        let ks = e.map_values(|p: (u64, V)| p.0);
        assert(ks.no_duplicates()) by {
            assert forall|a: int, b: int| 0 <= a < ks.len() && 0 <= b < ks.len() && a != b implies ks[a]
                != ks[b] by {
                assert(ks[a] == e[a].0 && ks[b] == e[b].0);
            }
        }
        assert forall|k: u64| #[trigger] ks.to_set().contains(k) == self@.contains_key(k) by {
            if self@.contains_key(k) {
                let p = choose|p: int| 0 <= p < e.len() && #[trigger] e[p].0 == k;
                assert(ks[p] == k);
            }
            if ks.to_set().contains(k) {
                let p = choose|p: int| 0 <= p < ks.len() && ks[p] == k;
                assert(e[p].0 == k);
            }
        }
        assert(ks.to_set() =~= self@.dom());
        ks.unique_seq_to_set();
    }
}

} // verus!
