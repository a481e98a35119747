use vstd::prelude::*;
use crate::iter::{Iter, IterMut};
use crate::mapref::{MapRef, MapRefMut};
use crate::shard_map::{shard_of, ShardMap};
use crate::table::altered;

verus! {

/// A query that has been declared in full and can be run. Running it is the
/// one place where the map is touched.
pub trait ExecutableQuery: Sized {
    type Output;

    /// What must hold of the map for the query to run.
    spec fn ready(&self) -> bool;

    fn exec(self) -> Self::Output
        requires
            self.ready(),
    ;
}

/// The root of every query: it holds the map's exclusive borrow for the chain
/// of builder steps it starts, and touches nothing until a query is run.
pub struct Query<'a, V> {
    pub map: &'a mut ShardMap<V>,
}

impl<'a, V> Query<'a, V> {
    pub fn new(map: &'a mut ShardMap<V>) -> (r: Query<'a, V>)
        ensures
            *r.map == *old(map),
            *final(r.map) == *final(map),
    {
        Query { map }
    }

    pub fn insert(self, key: u64, value: V) -> (r: QueryInsert<'a, V>)
        ensures
            r.inner == self,
            r.key == key,
            r.value == value,
    {
        QueryInsert::new(self, key, value)
    }

    pub fn get<'k>(self, key: &'k u64) -> (r: QueryGet<'a, 'k, V>)
        ensures
            r.inner == self,
            r.key == key,
    {
        QueryGet::new(self, key)
    }

    pub fn remove<'k>(self, key: &'k u64) -> (r: QueryRemove<'a, 'k, V>)
        ensures
            r.inner == self,
            r.key == key,
    {
        QueryRemove::new(self, key)
    }

    pub fn len(self) -> (r: QueryLength<'a, V>)
        ensures
            r.inner == self,
    {
        QueryLength::new(self)
    }

    pub fn clear(self) -> (r: QueryClear<'a, V>)
        ensures
            r.inner == self,
    {
        QueryClear::new(self)
    }

    pub fn is_empty(self) -> (r: QueryIsEmpty<'a, V>)
        ensures
            r.inner == self,
    {
        QueryIsEmpty::new(self)
    }

    pub fn iter(self) -> (r: QueryIter<'a, V>)
        ensures
            r.inner == self,
    {
        QueryIter::new(self)
    }

    pub fn iter_mut(self) -> (r: QueryIterMut<'a, V>)
        ensures
            r.inner == self,
    {
        QueryIterMut::new(self)
    }

    pub fn alter_all<F: Fn(&u64, V) -> V>(self, f: F) -> (r: QueryAlterAll<'a, V, F>)
        ensures
            r.inner == self,
            r.f == f,
    {
        QueryAlterAll::new(self, f)
    }
}

/// An insertion of `key` with `value`, not yet run.
pub struct QueryInsert<'a, V> {
    pub inner: Query<'a, V>,
    pub key: u64,
    pub value: V,
}

impl<'a, V> QueryInsert<'a, V> {
    pub fn new(inner: Query<'a, V>, key: u64, value: V) -> (r: QueryInsert<'a, V>)
        ensures
            r.inner == inner,
            r.key == key,
            r.value == value,
    {
        QueryInsert { inner, key, value }
    }

    pub fn sync(self) -> (r: QueryInsertSync<'a, V>)
        ensures
            r.inner == self,
    {
        QueryInsertSync::new(self)
    }
}

/// An insertion ready to run.
pub struct QueryInsertSync<'a, V> {
    pub inner: QueryInsert<'a, V>,
}

impl<'a, V> QueryInsertSync<'a, V> {
    pub fn new(inner: QueryInsert<'a, V>) -> (r: QueryInsertSync<'a, V>)
        ensures
            r.inner == inner,
    {
        QueryInsertSync { inner }
    }

    /// Inserts the entry into its shard; hands back the value it replaced.
    pub fn exec(self) -> (r: Option<V>)
        requires
            old(self.inner.inner.map).wf(),
            old(self.inner.inner.map)@.contains_key(self.inner.key) || old(self.inner.inner.map)@.len() < usize::MAX,
        ensures
            final(self.inner.inner.map).wf(),
            final(self.inner.inner.map).shard_count() == old(self.inner.inner.map).shard_count(),
            forall|p: int|
                0 <= p < old(self.inner.inner.map).shard_count() && p != shard_of(self.inner.key, old(self.inner.inner.map).shard_count())
                    ==> #[trigger] final(self.inner.inner.map).tables()[p] == old(self.inner.inner.map).tables()[p],
            final(self.inner.inner.map)@ == old(self.inner.inner.map)@.insert(self.inner.key, self.inner.value),
            match r {
                Some(v) => old(self.inner.inner.map)@.contains_key(self.inner.key) && v == old(self.inner.inner.map)@[self.inner.key],
                None => !old(self.inner.inner.map)@.contains_key(self.inner.key),
            },
    {
        let q = self.inner;
        q.inner.map.insert(q.key, q.value)
    }
}

impl<'a, V> ExecutableQuery for QueryInsertSync<'a, V> {
    type Output = Option<V>;

    open spec fn ready(&self) -> bool {
        (*self.inner.inner.map).wf() && ((*self.inner.inner.map)@.contains_key(self.inner.key) || (*self.inner.inner.map)@.len() < usize::MAX)
    }

    fn exec(self) -> (r: Option<V>)
        ensures
            final(self.inner.inner.map).wf(),
            final(self.inner.inner.map).shard_count() == old(self.inner.inner.map).shard_count(),
            forall|p: int|
                0 <= p < old(self.inner.inner.map).shard_count() && p != shard_of(self.inner.key, old(self.inner.inner.map).shard_count())
                    ==> #[trigger] final(self.inner.inner.map).tables()[p] == old(self.inner.inner.map).tables()[p],
            final(self.inner.inner.map)@ == old(self.inner.inner.map)@.insert(self.inner.key, self.inner.value),
            match r {
                Some(v) => old(self.inner.inner.map)@.contains_key(self.inner.key) && v == old(self.inner.inner.map)@[self.inner.key],
                None => !old(self.inner.inner.map)@.contains_key(self.inner.key),
            },
    {
        QueryInsertSync::exec(self)
    }
}

/// A lookup of `key`, not yet run.
pub struct QueryGet<'a, 'k, V> {
    pub inner: Query<'a, V>,
    pub key: &'k u64,
}

impl<'a, 'k, V> QueryGet<'a, 'k, V> {
    pub fn new(inner: Query<'a, V>, key: &'k u64) -> (r: QueryGet<'a, 'k, V>)
        ensures
            r.inner == inner,
            r.key == key,
    {
        QueryGet { inner, key }
    }

    pub fn sync(self) -> (r: QueryGetSync<'a, 'k, V>)
        ensures
            r.inner == self,
    {
        QueryGetSync::new(self)
    }

    /// Turns the lookup into one that grants write access to the value.
    pub fn mutable(self) -> (r: QueryGetMut<'a, 'k, V>)
        ensures
            r.inner == self,
    {
        QueryGetMut::new(self)
    }
}

/// A shared lookup ready to run.
pub struct QueryGetSync<'a, 'k, V> {
    pub inner: QueryGet<'a, 'k, V>,
}

impl<'a, 'k, V> QueryGetSync<'a, 'k, V> {
    pub fn new(inner: QueryGet<'a, 'k, V>) -> (r: QueryGetSync<'a, 'k, V>)
        ensures
            r.inner == inner,
    {
        QueryGetSync { inner }
    }

    /// Looks the key up and hands back a shared guard on its entry; the map
    /// is left as it was.
    pub fn exec(self) -> (r: Option<MapRef<'a, V>>)
        requires
            old(self.inner.inner.map).wf(),
        ensures
            *final(self.inner.inner.map) == *old(self.inner.inner.map),
            match r {
                Some(g) => old(self.inner.inner.map)@.contains_key(*self.inner.key) && g.key == *self.inner.key
                    && *g.value == old(self.inner.inner.map)@[*self.inner.key],
                None => !old(self.inner.inner.map)@.contains_key(*self.inner.key),
            },
    {
        let q = self.inner;
        let map: &'a ShardMap<V> = q.inner.map;
        map.get(*q.key)
    }
}

impl<'a, 'k, V> ExecutableQuery for QueryGetSync<'a, 'k, V> {
    type Output = Option<MapRef<'a, V>>;

    open spec fn ready(&self) -> bool {
        (*self.inner.inner.map).wf()
    }

    fn exec(self) -> (r: Option<MapRef<'a, V>>)
        ensures
            *final(self.inner.inner.map) == *old(self.inner.inner.map),
            match r {
                Some(g) => old(self.inner.inner.map)@.contains_key(*self.inner.key) && g.key == *self.inner.key
                    && *g.value == old(self.inner.inner.map)@[*self.inner.key],
                None => !old(self.inner.inner.map)@.contains_key(*self.inner.key),
            },
    {
        QueryGetSync::exec(self)
    }
}

/// A lookup of a key that grants write access, not yet run.
pub struct QueryGetMut<'a, 'k, V> {
    pub inner: QueryGet<'a, 'k, V>,
}

impl<'a, 'k, V> QueryGetMut<'a, 'k, V> {
    pub fn new(inner: QueryGet<'a, 'k, V>) -> (r: QueryGetMut<'a, 'k, V>)
        ensures
            r.inner == inner,
    {
        QueryGetMut { inner }
    }

    pub fn sync(self) -> (r: QueryGetMutSync<'a, 'k, V>)
        ensures
            r.inner == self,
    {
        QueryGetMutSync::new(self)
    }
}

/// An exclusive lookup ready to run.
pub struct QueryGetMutSync<'a, 'k, V> {
    pub inner: QueryGetMut<'a, 'k, V>,
}

impl<'a, 'k, V> QueryGetMutSync<'a, 'k, V> {
    pub fn new(inner: QueryGetMut<'a, 'k, V>) -> (r: QueryGetMutSync<'a, 'k, V>)
        ensures
            r.inner == inner,
    {
        QueryGetMutSync { inner }
    }

    /// Looks the key up and hands back an exclusive guard on its entry. What
    /// the guard's value holds when it is dropped becomes the key's value.
    pub fn exec(self) -> (r: Option<MapRefMut<'a, V>>)
        requires
            old(self.inner.inner.inner.map).wf(),
        ensures
            final(self.inner.inner.inner.map).wf(),
            final(self.inner.inner.inner.map).shard_count() == old(self.inner.inner.inner.map).shard_count(),
            forall|p: int|
                0 <= p < old(self.inner.inner.inner.map).shard_count() && p != shard_of(*self.inner.inner.key, old(self.inner.inner.inner.map).shard_count())
                    ==> #[trigger] final(self.inner.inner.inner.map).tables()[p] == old(self.inner.inner.inner.map).tables()[p],
            match r {
                Some(g) => {
                    &&& old(self.inner.inner.inner.map)@.contains_key(*self.inner.inner.key)
                    &&& g.key == *self.inner.inner.key
                    &&& *g.value == old(self.inner.inner.inner.map)@[*self.inner.inner.key]
                    &&& final(self.inner.inner.inner.map)@ == old(self.inner.inner.inner.map)@.insert(g.key, *final(g.value))
                },
                None => !old(self.inner.inner.inner.map)@.contains_key(*self.inner.inner.key) && final(self.inner.inner.inner.map)@ == old(
                    self.inner.inner.inner.map,
                )@,
            },
    {
        let q = self.inner.inner;
        q.inner.map.get_mut(*q.key)
    }
}

impl<'a, 'k, V> ExecutableQuery for QueryGetMutSync<'a, 'k, V> {
    type Output = Option<MapRefMut<'a, V>>;

    open spec fn ready(&self) -> bool {
        (*self.inner.inner.inner.map).wf()
    }

    fn exec(self) -> (r: Option<MapRefMut<'a, V>>)
        ensures
            final(self.inner.inner.inner.map).wf(),
            final(self.inner.inner.inner.map).shard_count() == old(self.inner.inner.inner.map).shard_count(),
            forall|p: int|
                0 <= p < old(self.inner.inner.inner.map).shard_count() && p != shard_of(*self.inner.inner.key, old(self.inner.inner.inner.map).shard_count())
                    ==> #[trigger] final(self.inner.inner.inner.map).tables()[p] == old(self.inner.inner.inner.map).tables()[p],
            match r {
                Some(g) => {
                    &&& old(self.inner.inner.inner.map)@.contains_key(*self.inner.inner.key)
                    &&& g.key == *self.inner.inner.key
                    &&& *g.value == old(self.inner.inner.inner.map)@[*self.inner.inner.key]
                    &&& final(self.inner.inner.inner.map)@ == old(self.inner.inner.inner.map)@.insert(g.key, *final(g.value))
                },
                None => !old(self.inner.inner.inner.map)@.contains_key(*self.inner.inner.key) && final(self.inner.inner.inner.map)@ == old(
                    self.inner.inner.inner.map,
                )@,
            },
    {
        QueryGetMutSync::exec(self)
    }
}

/// A removal of `key`, not yet run.
pub struct QueryRemove<'a, 'k, V> {
    pub inner: Query<'a, V>,
    pub key: &'k u64,
}

impl<'a, 'k, V> QueryRemove<'a, 'k, V> {
    pub fn new(inner: Query<'a, V>, key: &'k u64) -> (r: QueryRemove<'a, 'k, V>)
        ensures
            r.inner == inner,
            r.key == key,
    {
        QueryRemove { inner, key }
    }

    pub fn sync(self) -> (r: QueryRemoveSync<'a, 'k, V>)
        ensures
            r.inner == self,
    {
        QueryRemoveSync::new(self)
    }
}

/// A removal ready to run.
pub struct QueryRemoveSync<'a, 'k, V> {
    pub inner: QueryRemove<'a, 'k, V>,
}

impl<'a, 'k, V> QueryRemoveSync<'a, 'k, V> {
    pub fn new(inner: QueryRemove<'a, 'k, V>) -> (r: QueryRemoveSync<'a, 'k, V>)
        ensures
            r.inner == inner,
    {
        QueryRemoveSync { inner }
    }

    /// Removes the key from its shard; hands back the removed entry.
    pub fn exec(self) -> (r: Option<(u64, V)>)
        requires
            old(self.inner.inner.map).wf(),
        ensures
            final(self.inner.inner.map).wf(),
            final(self.inner.inner.map).shard_count() == old(self.inner.inner.map).shard_count(),
            forall|p: int|
                0 <= p < old(self.inner.inner.map).shard_count() && p != shard_of(*self.inner.key, old(self.inner.inner.map).shard_count())
                    ==> #[trigger] final(self.inner.inner.map).tables()[p] == old(self.inner.inner.map).tables()[p],
            final(self.inner.inner.map)@ == old(self.inner.inner.map)@.remove(*self.inner.key),
            match r {
                Some(e) => old(self.inner.inner.map)@.contains_key(*self.inner.key) && e == (
                    *self.inner.key,
                    old(self.inner.inner.map)@[*self.inner.key],
                ),
                None => !old(self.inner.inner.map)@.contains_key(*self.inner.key),
            },
    {
        let q = self.inner;
        q.inner.map.remove(*q.key)
    }
}

impl<'a, 'k, V> ExecutableQuery for QueryRemoveSync<'a, 'k, V> {
    type Output = Option<(u64, V)>;

    open spec fn ready(&self) -> bool {
        (*self.inner.inner.map).wf()
    }

    fn exec(self) -> (r: Option<(u64, V)>)
        ensures
            final(self.inner.inner.map).wf(),
            final(self.inner.inner.map).shard_count() == old(self.inner.inner.map).shard_count(),
            forall|p: int|
                0 <= p < old(self.inner.inner.map).shard_count() && p != shard_of(*self.inner.key, old(self.inner.inner.map).shard_count())
                    ==> #[trigger] final(self.inner.inner.map).tables()[p] == old(self.inner.inner.map).tables()[p],
            final(self.inner.inner.map)@ == old(self.inner.inner.map)@.remove(*self.inner.key),
            match r {
                Some(e) => old(self.inner.inner.map)@.contains_key(*self.inner.key) && e == (
                    *self.inner.key,
                    old(self.inner.inner.map)@[*self.inner.key],
                ),
                None => !old(self.inner.inner.map)@.contains_key(*self.inner.key),
            },
    {
        QueryRemoveSync::exec(self)
    }
}

/// A count of the keys, not yet run.
pub struct QueryLength<'a, V> {
    pub inner: Query<'a, V>,
}

impl<'a, V> QueryLength<'a, V> {
    pub fn new(inner: Query<'a, V>) -> (r: QueryLength<'a, V>)
        ensures
            r.inner == inner,
    {
        QueryLength { inner }
    }

    pub fn sync(self) -> (r: QueryLengthSync<'a, V>)
        ensures
            r.inner == self,
    {
        QueryLengthSync::new(self)
    }
}

/// A count ready to run.
pub struct QueryLengthSync<'a, V> {
    pub inner: QueryLength<'a, V>,
}

impl<'a, V> QueryLengthSync<'a, V> {
    pub fn new(inner: QueryLength<'a, V>) -> (r: QueryLengthSync<'a, V>)
        ensures
            r.inner == inner,
    {
        QueryLengthSync { inner }
    }

    /// Sums the sizes of the shards, one shard at a time.
    pub fn exec(self) -> (r: usize)
        requires
            old(self.inner.inner.map).wf(),
        ensures
            *final(self.inner.inner.map) == *old(self.inner.inner.map),
            r == old(self.inner.inner.map)@.len(),
    {
        let map: &'a ShardMap<V> = self.inner.inner.map;
        map.len()
    }
}

impl<'a, V> ExecutableQuery for QueryLengthSync<'a, V> {
    type Output = usize;

    open spec fn ready(&self) -> bool {
        (*self.inner.inner.map).wf()
    }

    fn exec(self) -> (r: usize)
        ensures
            *final(self.inner.inner.map) == *old(self.inner.inner.map),
            r == old(self.inner.inner.map)@.len(),
    {
        QueryLengthSync::exec(self)
    }
}

/// The removal of every entry, not yet run.
pub struct QueryClear<'a, V> {
    pub inner: Query<'a, V>,
}

impl<'a, V> QueryClear<'a, V> {
    pub fn new(inner: Query<'a, V>) -> (r: QueryClear<'a, V>)
        ensures
            r.inner == inner,
    {
        QueryClear { inner }
    }

    pub fn sync(self) -> (r: QueryClearSync<'a, V>)
        ensures
            r.inner == self,
    {
        QueryClearSync::new(self)
    }
}

/// A clearing ready to run.
pub struct QueryClearSync<'a, V> {
    pub inner: QueryClear<'a, V>,
}

impl<'a, V> QueryClearSync<'a, V> {
    pub fn new(inner: QueryClear<'a, V>) -> (r: QueryClearSync<'a, V>)
        ensures
            r.inner == inner,
    {
        QueryClearSync { inner }
    }

    /// Empties the shards, one shard at a time.
    pub fn exec(self)
        requires
            old(self.inner.inner.map).wf(),
        ensures
            final(self.inner.inner.map).wf(),
            final(self.inner.inner.map).shard_count() == old(self.inner.inner.map).shard_count(),
            forall|p: int|
                0 <= p < old(self.inner.inner.map).shard_count() ==> (#[trigger] final(self.inner.inner.map).tables()[p]).len() == 0,
            final(self.inner.inner.map)@ == Map::<u64, V>::empty(),
    {
        self.inner.inner.map.clear()
    }
}

impl<'a, V> ExecutableQuery for QueryClearSync<'a, V> {
    type Output = ();

    open spec fn ready(&self) -> bool {
        (*self.inner.inner.map).wf()
    }

    fn exec(self)
        ensures
            final(self.inner.inner.map).wf(),
            final(self.inner.inner.map).shard_count() == old(self.inner.inner.map).shard_count(),
            forall|p: int|
                0 <= p < old(self.inner.inner.map).shard_count() ==> (#[trigger] final(self.inner.inner.map).tables()[p]).len() == 0,
            final(self.inner.inner.map)@ == Map::<u64, V>::empty(),
    {
        QueryClearSync::exec(self)
    }
}

/// A test for emptiness, not yet run.
pub struct QueryIsEmpty<'a, V> {
    pub inner: Query<'a, V>,
}

impl<'a, V> QueryIsEmpty<'a, V> {
    pub fn new(inner: Query<'a, V>) -> (r: QueryIsEmpty<'a, V>)
        ensures
            r.inner == inner,
    {
        QueryIsEmpty { inner }
    }

    pub fn sync(self) -> (r: QueryIsEmptySync<'a, V>)
        ensures
            r.inner == self,
    {
        QueryIsEmptySync::new(self)
    }
}

/// A test for emptiness ready to run.
pub struct QueryIsEmptySync<'a, V> {
    pub inner: QueryIsEmpty<'a, V>,
}

impl<'a, V> QueryIsEmptySync<'a, V> {
    pub fn new(inner: QueryIsEmpty<'a, V>) -> (r: QueryIsEmptySync<'a, V>)
        ensures
            r.inner == inner,
    {
        QueryIsEmptySync { inner }
    }

    /// Runs a count and compares it with zero.
    pub fn exec(self) -> (r: bool)
        requires
            old(self.inner.inner.map).wf(),
        ensures
            *final(self.inner.inner.map) == *old(self.inner.inner.map),
            r == (old(self.inner.inner.map)@.len() == 0),
    {
        Query::new(self.inner.inner.map).len().sync().exec() == 0
    }
}

impl<'a, V> ExecutableQuery for QueryIsEmptySync<'a, V> {
    type Output = bool;

    open spec fn ready(&self) -> bool {
        (*self.inner.inner.map).wf()
    }

    fn exec(self) -> (r: bool)
        ensures
            *final(self.inner.inner.map) == *old(self.inner.inner.map),
            r == (old(self.inner.inner.map)@.len() == 0),
    {
        QueryIsEmptySync::exec(self)
    }
}

/// A shared pass over every entry, ready to run.
pub struct QueryIter<'a, V> {
    pub inner: Query<'a, V>,
}

impl<'a, V> QueryIter<'a, V> {
    pub fn new(inner: Query<'a, V>) -> (r: QueryIter<'a, V>)
        ensures
            r.inner == inner,
    {
        QueryIter { inner }
    }

    /// Starts a shared pass over the map, before its first entry.
    pub fn exec(self) -> (r: Iter<'a, V>)
        requires
            old(self.inner.map).wf(),
        ensures
            *final(self.inner.map) == *old(self.inner.map),
            r.wf(),
            r.map() == *old(self.inner.map),
            r.pos() == 0,
    {
        let map: &'a ShardMap<V> = self.inner.map;
        Iter::new(map)
    }
}

impl<'a, V> ExecutableQuery for QueryIter<'a, V> {
    type Output = Iter<'a, V>;

    open spec fn ready(&self) -> bool {
        (*self.inner.map).wf()
    }

    fn exec(self) -> (r: Iter<'a, V>)
        ensures
            *final(self.inner.map) == *old(self.inner.map),
            r.wf(),
            r.map() == *old(self.inner.map),
            r.pos() == 0,
    {
        QueryIter::exec(self)
    }
}

/// An exclusive pass over every entry, ready to run.
pub struct QueryIterMut<'a, V> {
    pub inner: Query<'a, V>,
}

impl<'a, V> QueryIterMut<'a, V> {
    pub fn new(inner: Query<'a, V>) -> (r: QueryIterMut<'a, V>)
        ensures
            r.inner == inner,
    {
        QueryIterMut { inner }
    }

    /// Starts an exclusive pass over the map, before its first entry.
    pub fn exec(self) -> (r: IterMut<'a, V>)
        requires
            old(self.inner.map).wf(),
        ensures
            r.wf(),
            r.map() == *old(self.inner.map),
            r.pos() == 0,
            *final(r.map) == *final(self.inner.map),
    {
        IterMut::new(self.inner.map)
    }
}

impl<'a, V> ExecutableQuery for QueryIterMut<'a, V> {
    type Output = IterMut<'a, V>;

    open spec fn ready(&self) -> bool {
        (*self.inner.map).wf()
    }

    fn exec(self) -> (r: IterMut<'a, V>)
        ensures
            r.wf(),
            r.map() == *old(self.inner.map),
            r.pos() == 0,
            *final(r.map) == *final(self.inner.map),
    {
        QueryIterMut::exec(self)
    }
}

/// The replacement of every value by `f(key, value)`, not yet run.
#[verifier::reject_recursive_types(V)]
pub struct QueryAlterAll<'a, V, F: Fn(&u64, V) -> V> {
    pub inner: Query<'a, V>,
    pub f: F,
}

impl<'a, V, F: Fn(&u64, V) -> V> QueryAlterAll<'a, V, F> {
    pub fn new(inner: Query<'a, V>, f: F) -> (r: QueryAlterAll<'a, V, F>)
        ensures
            r.inner == inner,
            r.f == f,
    {
        QueryAlterAll { inner, f }
    }

    pub fn sync(self) -> (r: QueryAlterAllSync<'a, V, F>)
        ensures
            r.inner == self,
    {
        QueryAlterAllSync::new(self)
    }
}

/// A replacement of every value ready to run.
#[verifier::reject_recursive_types(V)]
pub struct QueryAlterAllSync<'a, V, F: Fn(&u64, V) -> V> {
    pub inner: QueryAlterAll<'a, V, F>,
}

impl<'a, V, F: Fn(&u64, V) -> V> QueryAlterAllSync<'a, V, F> {
    pub fn new(inner: QueryAlterAll<'a, V, F>) -> (r: QueryAlterAllSync<'a, V, F>)
        ensures
            r.inner == inner,
    {
        QueryAlterAllSync { inner }
    }

    /// Replaces the value of every entry in place, shard after shard.
    pub fn exec(self)
        requires
            old(self.inner.inner.map).wf(),
            forall|k: u64, v: V| self.inner.f.requires((&k, v)),
        ensures
            final(self.inner.inner.map).wf(),
            final(self.inner.inner.map).shard_count() == old(self.inner.inner.map).shard_count(),
            final(self.inner.inner.map)@.dom() == old(self.inner.inner.map)@.dom(),
            forall|p: int|
                0 <= p < old(self.inner.inner.map).shard_count() ==> altered(
                    old(self.inner.inner.map).tables()[p],
                    #[trigger] final(self.inner.inner.map).tables()[p],
                    self.inner.f,
                ),
            forall|k: u64|
                #[trigger] old(self.inner.inner.map)@.contains_key(k) ==> self.inner.f.ensures(
                    (&k, old(self.inner.inner.map)@[k]),
                    final(self.inner.inner.map)@[k],
                ),
    {
        let q = self.inner;
        q.inner.map.alter_all(q.f)
    }
}

impl<'a, V, F: Fn(&u64, V) -> V> ExecutableQuery for QueryAlterAllSync<'a, V, F> {
    type Output = ();

    open spec fn ready(&self) -> bool {
        (*self.inner.inner.map).wf() && forall|k: u64, v: V| self.inner.f.requires((&k, v))
    }

    fn exec(self)
        ensures
            final(self.inner.inner.map).wf(),
            final(self.inner.inner.map).shard_count() == old(self.inner.inner.map).shard_count(),
            final(self.inner.inner.map)@.dom() == old(self.inner.inner.map)@.dom(),
            forall|p: int|
                0 <= p < old(self.inner.inner.map).shard_count() ==> altered(
                    old(self.inner.inner.map).tables()[p],
                    #[trigger] final(self.inner.inner.map).tables()[p],
                    self.inner.f,
                ),
            forall|k: u64|
                #[trigger] old(self.inner.inner.map)@.contains_key(k) ==> self.inner.f.ensures(
                    (&k, old(self.inner.inner.map)@[k]),
                    final(self.inner.inner.map)@[k],
                ),
    {
        QueryAlterAllSync::exec(self)
    }
}

} // verus!
